//! The per-tick update scheduler of a client: it applies the server's
//! events to the chunk store, re-meshes the chunks they touched, and moves
//! the player against the world.
use vstd::prelude::*;
use crate::block::{meshes_wf, BlockId, BlockMesh};
use crate::chunk::{Chunk, ChunkPos, CHUNK_VOLUME};
use crate::meshing::{chunk_quads, mesh_indices, mesh_vertices, occl_seq, greedy_meshing, AdjChunkOccl, ChunkMesh, Vertex};
use crate::network::{ClientEvent, LocalLink, ToClient, ToServer};
use crate::physics::{coord_ok, swept, Aabb};
use crate::world::World;

verus! {

/// Why a session cannot go on.
#[derive(Clone, Copy, Debug, PartialEq, Eq, Structural)]
pub enum SessionError {
    /// The server went away.
    Disconnected,
    /// A chunk arrived without exactly one id per block.
    MalformedChunk,
    /// A chunk holds a block id the game data does not register.
    UnknownBlock,
    /// The player would leave the coordinate range.
    OutOfBounds,
}

/// Chunk positions waiting to be meshed, each once.
pub struct DirtySet {
    pub items: Vec<ChunkPos>,
}

impl View for DirtySet {
    type V = Set<(int, int, int)>;

    open spec fn view(&self) -> Set<(int, int, int)> {
        Set::new(|k: (int, int, int)| exists|i: int| 0 <= i < self.items@.len() && #[trigger] self.items@[i].key() == k)
    }
}

impl DirtySet {
    pub open spec fn wf(&self) -> bool {
        forall|i: int, j: int|
            0 <= i < j < self.items@.len() ==> (#[trigger] self.items@[i]) != (#[trigger] self.items@[j])
    }

    pub fn new() -> (r: DirtySet)
        ensures
            r.wf(),
            r@ == Set::<(int, int, int)>::empty(),
    {
        let r = DirtySet { items: Vec::new() };
        assert(r@ =~= Set::<(int, int, int)>::empty());
        r
    }

    pub fn insert(&mut self, p: ChunkPos)
        requires
            old(self).wf(),
        ensures
            final(self).wf(),
            final(self)@ == old(self)@.insert(p.key()),
    {
        let mut i: usize = 0;
        while i < self.items.len()
            invariant
                i <= self.items@.len(),
                *self == *old(self),
                old(self).wf(),
                forall|j: int| 0 <= j < i ==> self.items@[j] != p,
            decreases self.items@.len() - i,
        {
            if self.items[i] == p {
                assert(self@ =~= old(self)@.insert(p.key()));
                return;
            }
            i += 1;
        }
        let ghost before = *self;
        self.items.push(p);
        proof {
            assert forall|k: (int, int, int)| #[trigger] self@.contains(k) <==> before@.insert(p.key()).contains(k) by {
                if before@.contains(k) {
                    let j = choose|j: int| 0 <= j < before.items@.len() && #[trigger] before.items@[j].key() == k;
                    assert(self.items@[j].key() == k);
                }
                if k == p.key() {
                    assert(self.items@[self.items@.len() - 1].key() == k);
                }
                if self@.contains(k) && k != p.key() {
                    let j = choose|j: int| 0 <= j < self.items@.len() && #[trigger] self.items@[j].key() == k;
                    assert(before.items@[j].key() == k);
                }
            }
            assert(self@ =~= before@.insert(p.key()));
        }
    }

    pub fn clear(&mut self)
        ensures
            final(self).wf(),
            final(self)@ == Set::<(int, int, int)>::empty(),
    {
        self.items.clear();
        assert(self@ =~= Set::<(int, int, int)>::empty());
    }
}

/// The chunk positions that a chunk arriving at `p` makes dirty: `p` and
/// its 26 neighbours, those whose coordinates fit.
pub open spec fn near(p: ChunkPos) -> Set<(int, int, int)> {
    Set::new(|k: (int, int, int)|
        -1 <= k.0 - p.px <= 1 && -1 <= k.1 - p.py <= 1 && -1 <= k.2 - p.pz <= 1
            && i64::MIN <= k.0 <= i64::MAX && i64::MIN <= k.1 <= i64::MAX && i64::MIN <= k.2 <= i64::MAX)
}

/// Every block id of `c` is registered in `m`.
pub open spec fn registered(c: Seq<BlockId>, m: Seq<BlockMesh>) -> bool {
    forall|i: int| 0 <= i < c.len() ==> (#[trigger] c[i] as int) < m.len()
}

/// The error that event `e` ends a session with, if any.
pub open spec fn event_error(e: ClientEvent, m: Seq<BlockMesh>) -> Option<SessionError> {
    match e {
        ClientEvent::Disconnected => Some(SessionError::Disconnected),
        ClientEvent::ServerMessage(ToClient::Chunk(c)) => if c.blocks@.len() != CHUNK_VOLUME {
            Some(SessionError::MalformedChunk)
        } else if !registered(c.blocks@, m) {
            Some(SessionError::UnknownBlock)
        } else {
            None
        },
        _ => None,
    }
}

/// The client's state: its replica of the world, the meshes of its chunks,
/// the chunks to re-mesh and the player's box.
pub struct SinglePlayer {
    pub world: World,
    pub block_meshes: Vec<BlockMesh>,
    pub dirty: DirtySet,
    pub chunk_meshes: MeshStore,
    pub player: Aabb,
}

impl SinglePlayer {
    pub open spec fn wf(&self) -> bool {
        &&& self.world.wf()
        &&& meshes_wf(self.block_meshes@)
        &&& self.dirty.wf()
        &&& self.chunk_meshes.wf()
        &&& self.player.wf()
    }

    /// A session with an empty world, or `None` when `block_meshes` does not
    /// register air as empty, or the player's box is out of range.
    pub fn new(block_meshes: Vec<BlockMesh>, player: Aabb) -> (r: Option<SinglePlayer>)
        ensures
            r is Some <==> meshes_wf(block_meshes@) && player.wf(),
            r matches Some(s) ==> s.wf() && s.block_meshes@ == block_meshes@ && s.player == player
                && s.world@ == Map::<(int, int, int), Seq<BlockId>>::empty()
                && s.dirty@ == Set::<(int, int, int)>::empty()
                && s.chunk_meshes@ == Map::<(int, int, int), (Seq<Vertex>, Seq<u32>)>::empty(),
    {
        if block_meshes.len() == 0 || block_meshes.len() > 0x10000 {
            return None;
        }
        match block_meshes[0] {
            BlockMesh::Empty => {},
            BlockMesh::FullCube { .. } => {
                return None;
            },
        }
        let mut a: usize = 0;
        while a < 3
            invariant
                a <= 3,
                forall|b: int| 0 <= b < a ==> coord_ok(#[trigger] player.min@[b] as int) && 1 <= player.size@[b] <= crate::physics::COORD_LIMIT,
            decreases 3 - a,
        {
            if !(-crate::physics::COORD_LIMIT <= player.min[a] && player.min[a] <= crate::physics::COORD_LIMIT
                && 1 <= player.size[a] && player.size[a] <= crate::physics::COORD_LIMIT) {
                return None;
            }
            a += 1;
        }
        Some(SinglePlayer {
            world: World::new(),
            block_meshes,
            dirty: DirtySet::new(),
            chunk_meshes: MeshStore::new(),
            player,
        })
    }

    /// Meshes every dirty chunk that is known, replacing its former mesh,
    /// and empties the dirty set.
    pub fn remesh(&mut self)
        requires
            old(self).wf(),
        ensures
            final(self).wf(),
            final(self).chunk_meshes@ == remeshed(old(self).chunk_meshes@, old(self).dirty@, old(self).world@, old(self).block_meshes@),
            final(self).dirty@ == Set::<(int, int, int)>::empty(),
            final(self).world == old(self).world,
            final(self).block_meshes == old(self).block_meshes,
            final(self).player == old(self).player,
    {
        let ghost cm0 = self.chunk_meshes@;
        let ghost d0 = self.dirty@;
        let ghost w = self.world@;
        let ghost m = self.block_meshes@;
        let mut i: usize = 0;
        while i < self.dirty.items.len()
            invariant
                i <= self.dirty.items@.len(),
                self.wf(),
                self.world == old(self).world,
                self.block_meshes == old(self).block_meshes,
                self.player == old(self).player,
                self.dirty == old(self).dirty,
                w == self.world@,
                m == self.block_meshes@,
                d0 == self.dirty@,
                self.chunk_meshes@ == remeshed(cm0, Set::new(|k: (int, int, int)| exists|j: int| 0 <= j < i && #[trigger] self.dirty.items@[j].key() == k), w, m),
            decreases self.dirty.items@.len() - i,
        {
            let pos = self.dirty.items[i];
            let ghost before = self.chunk_meshes@;
            let ghost pre = Set::new(|k: (int, int, int)| exists|j: int| 0 <= j < i && #[trigger] self.dirty.items@[j].key() == k);
            let ghost post = Set::new(|k: (int, int, int)| exists|j: int| 0 <= j < i + 1 && #[trigger] self.dirty.items@[j].key() == k);
            assert(post =~= pre.insert(pos.key())) by {
                assert(self.dirty.items@[i as int].key() == pos.key());
                assert forall|k: (int, int, int)| post.contains(k) implies pre.insert(pos.key()).contains(k) by {
                    let j = choose|j: int| 0 <= j < i + 1 && #[trigger] self.dirty.items@[j].key() == k;
                    if j < i {
                        assert(pre.contains(k));
                    }
                }
                assert forall|k: (int, int, int)| pre.contains(k) implies post.contains(k) by {
                    let j = choose|j: int| 0 <= j < i && #[trigger] self.dirty.items@[j].key() == k;
                    assert(0 <= j < i + 1 && self.dirty.items@[j].key() == k);
                }
            }
            match self.world.get_chunk(pos) {
                Some(c) => {
                    let occl = AdjChunkOccl::create_from_world(&self.world, pos, &self.block_meshes);
                    let mut mesh = ChunkMesh::new();
                    greedy_meshing(c, &occl, &self.block_meshes, &mut mesh);
                    self.chunk_meshes.insert(pos, mesh);
                    proof {
                        assert(key_pos(pos.key()) == pos);
                        assert(self.chunk_meshes@ =~= remeshed(cm0, post, w, m));
                    }
                },
                None => {
                    assert(self.chunk_meshes@ =~= remeshed(cm0, post, w, m));
                },
            }
            i += 1;
        }
        proof {
            let all = Set::new(|k: (int, int, int)| exists|j: int| 0 <= j < i && #[trigger] self.dirty.items@[j].key() == k);
            assert(all =~= d0);
        }
        self.dirty.clear();
    }

    /// Moves the player by `delta`, each axis clipped against the world on
    /// its own, and returns the position to report to the server; fails,
    /// changing nothing, when the new position leaves the coordinate range.
    pub fn move_player(&mut self, delta: [i64; 3]) -> (r: Result<ToServer, SessionError>)
        requires
            old(self).wf(),
            forall|a: int| 0 <= a < 3 ==> coord_ok(#[trigger] delta@[a] as int),
        ensures
            final(self).wf(),
            final(self).world == old(self).world,
            final(self).block_meshes == old(self).block_meshes,
            final(self).dirty == old(self).dirty,
            final(self).chunk_meshes == old(self).chunk_meshes,
            final(self).player.size == old(self).player.size,
            r matches Ok(ToServer::SetPos(p)) ==> moved(&old(self).world, old(self).player, delta, p@)
                && final(self).player.min == p,
            r matches Err(e) ==> e == SessionError::OutOfBounds && final(self).player == old(self).player
                && exists|p: Seq<i64>| moved(&old(self).world, old(self).player, delta, p)
                    && !(forall|a: int| 0 <= a < 3 ==> coord_ok(#[trigger] p[a] as int)),
    {
        let d = self.player.move_check_collision(&self.world, delta);
        let old_min = self.player.min;
        let mut p: [i64; 3] = old_min;
        let mut a: usize = 0;
        while a < 3
            invariant
                a <= 3,
                self.wf(),
                old_min == self.player.min,
                forall|b: int| 0 <= b < 3 ==> coord_ok(#[trigger] delta@[b] as int),
                forall|b: int| 0 <= b < 3 ==> swept(&self.world, self.player, b, #[trigger] delta@[b] as int, d@[b] as int),
                forall|b: int| 0 <= b < a ==> #[trigger] p@[b] == old_min@[b] + d@[b] && coord_ok(p@[b] as int),
                p@.len() == 3,
            decreases 3 - a,
        {
            assert(coord_ok(old_min@[a as int] as int));
            assert(coord_ok(delta@[a as int] as int));
            assert(swept(&self.world, self.player, a as int, delta@[a as int] as int, d@[a as int] as int));
            let v = old_min[a] + d[a];
            if !(-crate::physics::COORD_LIMIT <= v && v <= crate::physics::COORD_LIMIT) {
                proof {
                    let q = Seq::new(3, |b: int| (old_min@[b] + d@[b]) as i64);
                    assert(moved(&self.world, self.player, delta, q));
                    assert(!coord_ok(q[a as int] as int));
                }
                return Err(SessionError::OutOfBounds);
            }
            p[a] = v;
            a += 1;
        }
        self.player.min = p;
        assert(moved(&old(self).world, old(self).player, delta, p@));
        Ok(ToServer::SetPos(p))
    }

    /// One tick over an in-process link: applies every queued event in
    /// order, then re-meshes the dirty chunks. Stops at the first event that
    /// ends the session and returns its error.
    pub fn tick_local(&mut self, link: &mut LocalLink) -> (r: Result<(), SessionError>)
        requires
            old(self).wf(),
        ensures
            final(self).wf(),
            r is Ok <==> events_ok(old(link).to_client@, old(self).block_meshes@),
            r is Ok ==> {
                let evs = old(link).to_client@;
                let w = world_after(old(self).world@, evs);
                &&& final(link).to_client@.len() == 0
                &&& final(self).world@ == w
                &&& final(self).chunk_meshes@ == remeshed(old(self).chunk_meshes@, dirty_after(old(self).dirty@, evs), w, old(self).block_meshes@)
                &&& final(self).dirty@ == Set::<(int, int, int)>::empty()
                &&& final(self).player == old(self).player
            },
            r matches Err(e) ==> exists|n: int| 0 <= n < old(link).to_client@.len()
                && events_ok(#[trigger] old(link).to_client@.take(n), old(self).block_meshes@)
                && event_error(old(link).to_client@[n], old(self).block_meshes@) == Some(e),
            final(link).to_server@ == old(link).to_server@,
            final(self).block_meshes == old(self).block_meshes,
    {
        let ghost q0 = link.to_client@;
        let ghost w0 = self.world@;
        let ghost d0 = self.dirty@;
        let ghost m = self.block_meshes@;
        let ghost n: int = 0;
        while link.to_client.len() > 0
            invariant
                self.wf(),
                0 <= n <= q0.len(),
                link.to_client@ == q0.skip(n),
                link.to_server@ == old(link).to_server@,
                q0 == old(link).to_client@,
                self.block_meshes == old(self).block_meshes,
                m == self.block_meshes@,
                self.player == old(self).player,
                self.chunk_meshes == old(self).chunk_meshes,
                self.world@ == world_after(w0, q0.take(n)),
                self.dirty@ == dirty_after(d0, q0.take(n)),
                events_ok(q0.take(n), m),
            decreases q0.len() - n,
        {
            let e = link.client_receive();
            proof {
                assert(q0.take(n + 1).drop_last() =~= q0.take(n));
                assert(q0.take(n + 1).last() == q0[n]);
                assert(link.to_client@ =~= q0.skip(n + 1));
            }
            let res = self.apply_event(e);
            match res {
                Err(err) => {
                    proof {
                        assert(events_ok(q0.take(n), m));
                    }
                    return Err(err);
                },
                Ok(()) => {},
            }
            proof {
                assert forall|i: int| 0 <= i < q0.take(n + 1).len() implies (#[trigger] event_error(q0.take(n + 1)[i], m)) is None by {
                    if i < n {
                        assert(q0.take(n + 1)[i] == q0.take(n)[i]);
                    }
                }
                n = n + 1;
            }
        }
        proof {
            assert(q0.take(n) =~= q0);
        }
        self.remesh();
        Ok(())
    }

    fn check_chunk(&self, c: &Chunk) -> (r: Option<SessionError>)
        requires
            self.wf(),
        ensures
            r == event_error(ClientEvent::ServerMessage(ToClient::Chunk(*c)), self.block_meshes@),
    {
        if c.blocks.len() != CHUNK_VOLUME {
            return Some(SessionError::MalformedChunk);
        }
        let mut i: usize = 0;
        while i < c.blocks.len()
            invariant
                i <= c.blocks@.len(),
                c.blocks@.len() == CHUNK_VOLUME,
                forall|j: int| 0 <= j < i ==> (#[trigger] c.blocks@[j] as int) < self.block_meshes@.len(),
            decreases c.blocks@.len() - i,
        {
            if c.blocks[i] as usize >= self.block_meshes.len() {
                assert(!((c.blocks@[i as int] as int) < self.block_meshes@.len()));
                assert(!registered(c.blocks@, self.block_meshes@));
                return Some(SessionError::UnknownBlock);
            }
            i += 1;
        }
        None
    }

    fn mark_near(&mut self, p: ChunkPos)
        requires
            old(self).wf(),
        ensures
            final(self).wf(),
            final(self).dirty@ == old(self).dirty@.union(near(p)),
            final(self).world == old(self).world,
            final(self).block_meshes == old(self).block_meshes,
            final(self).chunk_meshes == old(self).chunk_meshes,
            final(self).player == old(self).player,
    {
        let ghost d0 = self.dirty@;
        let mut t: usize = 0;
        while t < 27
            invariant
                t <= 27,
                self.wf(),
                self.world == old(self).world,
                self.block_meshes == old(self).block_meshes,
                self.chunk_meshes == old(self).chunk_meshes,
                self.player == old(self).player,
                self.dirty@ == d0.union(near(p).filter(|k: (int, int, int)| slot(p, k) < t)),
            decreases 27 - t,
        {
            let i = (t / 9) as i64 - 1;
            let j = ((t / 3) % 3) as i64 - 1;
            let k = (t % 3) as i64 - 1;
            let ghost before = self.dirty@;
            match p.offset(i, j, k) {
                Some(q) => {
                    self.dirty.insert(q);
                    assert(self.dirty@ =~= d0.union(near(p).filter(|k: (int, int, int)| slot(p, k) < t + 1)));
                },
                None => {
                    assert(self.dirty@ =~= d0.union(near(p).filter(|k: (int, int, int)| slot(p, k) < t + 1)));
                },
            }
            t += 1;
        }
        assert(self.dirty@ =~= d0.union(near(p)));
    }

    /// Applies one event from the server. A chunk replaces the one at its
    /// position and marks it and its neighbours dirty; a disconnection, a
    /// malformed chunk or a chunk with an unregistered block ends the
    /// session and changes nothing; other events change nothing.
    pub fn apply_event(&mut self, e: ClientEvent) -> (r: Result<(), SessionError>)
        requires
            old(self).wf(),
        ensures
            final(self).wf(),
            r matches Err(err) ==> event_error(e, old(self).block_meshes@) == Some(err) && *final(self) == *old(self),
            r is Ok ==> event_error(e, old(self).block_meshes@) is None,
            r is Ok ==> match e {
                ClientEvent::ServerMessage(ToClient::Chunk(c)) => {
                    &&& final(self).world@ == old(self).world@.insert(c.pos.key(), c.blocks@)
                    &&& final(self).dirty@ == old(self).dirty@.union(near(c.pos))
                    &&& final(self).block_meshes == old(self).block_meshes
                    &&& final(self).chunk_meshes == old(self).chunk_meshes
                    &&& final(self).player == old(self).player
                },
                _ => *final(self) == *old(self),
            },
    {
        match e {
            ClientEvent::Disconnected => Err(SessionError::Disconnected),
            ClientEvent::ServerMessage(ToClient::Chunk(c)) => {
                match self.check_chunk(&c) {
                    Some(err) => Err(err),
                    None => {
                        let p = c.pos;
                        self.world.set_chunk(c);
                        self.mark_near(p);
                        Ok(())
                    },
                }
            },
            _ => Ok(()),
        }
    }
}

pub open spec fn key_pos(k: (int, int, int)) -> ChunkPos {
    ChunkPos { px: k.0 as i64, py: k.1 as i64, pz: k.2 as i64 }
}

/// The mesh of the chunk at `k` of world `w`, sampled with its neighbours.
pub open spec fn mesh_value(w: Map<(int, int, int), Seq<BlockId>>, k: (int, int, int), m: Seq<BlockMesh>) -> (Seq<Vertex>, Seq<u32>) {
    let qs = chunk_quads(w[k], occl_seq(w, key_pos(k), m), m);
    (mesh_vertices(qs, m), mesh_indices(qs.len() as int))
}

/// `store` after every dirty position whose chunk is known is re-meshed.
pub open spec fn remeshed(
    store: Map<(int, int, int), (Seq<Vertex>, Seq<u32>)>,
    dirty: Set<(int, int, int)>,
    w: Map<(int, int, int), Seq<BlockId>>,
    m: Seq<BlockMesh>,
) -> Map<(int, int, int), (Seq<Vertex>, Seq<u32>)> {
    Map::new(
        |k: (int, int, int)| store.contains_key(k) || (dirty.contains(k) && w.contains_key(k)),
        |k: (int, int, int)| if dirty.contains(k) && w.contains_key(k) { mesh_value(w, k, m) } else { store[k] },
    )
}

/// World `w` after the chunks among events `evs` are applied in order.
pub open spec fn world_after(w: Map<(int, int, int), Seq<BlockId>>, evs: Seq<ClientEvent>) -> Map<(int, int, int), Seq<BlockId>>
    decreases evs.len(),
{
    if evs.len() == 0 {
        w
    } else {
        let w1 = world_after(w, evs.drop_last());
        match evs.last() {
            ClientEvent::ServerMessage(ToClient::Chunk(c)) => w1.insert(c.pos.key(), c.blocks@),
            _ => w1,
        }
    }
}

/// Dirty set `d` after the chunks among events `evs` arrive.
pub open spec fn dirty_after(d: Set<(int, int, int)>, evs: Seq<ClientEvent>) -> Set<(int, int, int)>
    decreases evs.len(),
{
    if evs.len() == 0 {
        d
    } else {
        let d1 = dirty_after(d, evs.drop_last());
        match evs.last() {
            ClientEvent::ServerMessage(ToClient::Chunk(c)) => d1.union(near(c.pos)),
            _ => d1,
        }
    }
}

pub open spec fn events_ok(evs: Seq<ClientEvent>, m: Seq<BlockMesh>) -> bool {
    forall|i: int| 0 <= i < evs.len() ==> (#[trigger] event_error(evs[i], m)) is None
}

/// Position of the player's box after each axis is swept on its own.
pub open spec fn moved(w: &World, b: Aabb, delta: [i64; 3], p: Seq<i64>) -> bool {
    &&& p.len() == 3
    &&& forall|a: int| 0 <= a < 3 ==> swept(w, b, a, #[trigger] delta@[a] as int, p[a] - b.min@[a])
}

/// Two chunks for one position arriving before a tick: the world keeps the
/// later one, and the tick leaves exactly one mesh for that position, made
/// from the later chunk.
pub proof fn lemma_later_chunk_wins(
    w: Map<(int, int, int), Seq<BlockId>>,
    d: Set<(int, int, int)>,
    store: Map<(int, int, int), (Seq<Vertex>, Seq<u32>)>,
    m: Seq<BlockMesh>,
    first: Chunk,
    second: Chunk,
)
    requires
        first.pos == second.pos,
    ensures
        ({
            let evs = seq![
                ClientEvent::ServerMessage(ToClient::Chunk(first)),
                ClientEvent::ServerMessage(ToClient::Chunk(second)),
            ];
            let w2 = world_after(w, evs);
            let k = second.pos.key();
            &&& w2[k] == second.blocks@
            &&& remeshed(store, dirty_after(d, evs), w2, m).contains_key(k)
            &&& remeshed(store, dirty_after(d, evs), w2, m)[k] == mesh_value(w2, k, m)
        }),
{
    let e1 = ClientEvent::ServerMessage(ToClient::Chunk(first));
    let e2 = ClientEvent::ServerMessage(ToClient::Chunk(second));
    let evs = seq![e1, e2];
    assert(evs.drop_last() =~= seq![e1]);
    assert(seq![e1].drop_last() =~= Seq::<ClientEvent>::empty());
    let k = second.pos.key();
    assert(near(second.pos).contains(k));
    assert(dirty_after(d, evs).contains(k));
}

/// Position of `k` among the 27 neighbour slots of `p`.
pub open spec fn slot(p: ChunkPos, k: (int, int, int)) -> int {
    (k.0 - p.px + 1) * 9 + (k.1 - p.py + 1) * 3 + (k.2 - p.pz + 1)
}

/// Meshes by chunk position, at most one per position.
pub struct MeshStore {
    pub entries: Vec<(ChunkPos, ChunkMesh)>,
}

impl View for MeshStore {
    type V = Map<(int, int, int), (Seq<Vertex>, Seq<u32>)>;

    open spec fn view(&self) -> Map<(int, int, int), (Seq<Vertex>, Seq<u32>)> {
        Map::new(
            |k: (int, int, int)| exists|i: int| 0 <= i < self.entries@.len() && #[trigger] self.entries@[i].0.key() == k,
            |k: (int, int, int)| {
                let e = self.entries@[choose|i: int| 0 <= i < self.entries@.len() && #[trigger] self.entries@[i].0.key() == k];
                (e.1.vertices@, e.1.indices@)
            },
        )
    }
}

impl MeshStore {
    pub open spec fn wf(&self) -> bool {
        forall|i: int, j: int|
            0 <= i < j < self.entries@.len() ==> (#[trigger] self.entries@[i]).0 != (#[trigger] self.entries@[j]).0
    }

    pub fn new() -> (r: MeshStore)
        ensures
            r.wf(),
            r@ == Map::<(int, int, int), (Seq<Vertex>, Seq<u32>)>::empty(),
    {
        let r = MeshStore { entries: Vec::new() };
        assert(r@ =~= Map::<(int, int, int), (Seq<Vertex>, Seq<u32>)>::empty());
        r
    }

    proof fn lemma_view_at(&self, i: int)
        requires
            self.wf(),
            0 <= i < self.entries@.len(),
        ensures
            self@.contains_key(self.entries@[i].0.key()),
            self@[self.entries@[i].0.key()] == (self.entries@[i].1.vertices@, self.entries@[i].1.indices@),
    {
        let k = self.entries@[i].0.key();
        assert(self@.contains_key(k));
        let j = choose|j: int| 0 <= j < self.entries@.len() && #[trigger] self.entries@[j].0.key() == k;
        assert(self.entries@[j].0 == self.entries@[i].0);
    }

    /// Stores `mesh` for `pos`, replacing any mesh stored there.
    pub fn insert(&mut self, pos: ChunkPos, mesh: ChunkMesh)
        requires
            old(self).wf(),
        ensures
            final(self).wf(),
            final(self)@ == old(self)@.insert(pos.key(), (mesh.vertices@, mesh.indices@)),
    {
        let ghost key = pos.key();
        let ghost val = (mesh.vertices@, mesh.indices@);
        let ghost before = *self;
        match self.find(pos) {
            Some(i) => {
            self.entries.set(i, (pos, mesh));
            proof {
                assert forall|k: (int, int, int)| #[trigger] self@.contains_key(k) <==> before@.insert(key, val).contains_key(k) by {
                    if before@.contains_key(k) {
                        let j = choose|j: int| 0 <= j < before.entries@.len() && #[trigger] before.entries@[j].0.key() == k;
                        if j != i {
                            assert(self.entries@[j].0.key() == k);
                        }
                    }
                    if k == key {
                        assert(self.entries@[i as int].0.key() == k);
                    }
                    if self@.contains_key(k) && k != key {
                        let j = choose|j: int| 0 <= j < self.entries@.len() && #[trigger] self.entries@[j].0.key() == k;
                        assert(before.entries@[j].0.key() == k);
                    }
                }
                assert forall|k: (int, int, int)| #[trigger] self@.contains_key(k) implies self@[k] == before@.insert(key, val)[k] by {
                    let j = choose|j: int| 0 <= j < self.entries@.len() && #[trigger] self.entries@[j].0.key() == k;
                    self.lemma_view_at(j);
                    if k != key {
                        before.lemma_view_at(j);
                    }
                }
                assert(self@ =~= before@.insert(key, val));
            }
            },
            None => {
            self.entries.push((pos, mesh));
            proof {
                let last = self.entries@.len() - 1;
                assert forall|k: (int, int, int)| #[trigger] self@.contains_key(k) <==> before@.insert(key, val).contains_key(k) by {
                    if before@.contains_key(k) {
                        let j = choose|j: int| 0 <= j < before.entries@.len() && #[trigger] before.entries@[j].0.key() == k;
                        assert(self.entries@[j].0.key() == k);
                    }
                    if k == key {
                        assert(self.entries@[last].0.key() == k);
                    }
                    if self@.contains_key(k) && k != key {
                        let j = choose|j: int| 0 <= j < self.entries@.len() && #[trigger] self.entries@[j].0.key() == k;
                        assert(before.entries@[j].0.key() == k);
                    }
                }
                assert forall|a: int, b: int| 0 <= a < b < self.entries@.len() implies
                    (#[trigger] self.entries@[a]).0 != (#[trigger] self.entries@[b]).0 by {
                }
                assert forall|k: (int, int, int)| #[trigger] self@.contains_key(k) implies self@[k] == before@.insert(key, val)[k] by {
                    let j = choose|j: int| 0 <= j < self.entries@.len() && #[trigger] self.entries@[j].0.key() == k;
                    self.lemma_view_at(j);
                    if k != key {
                        before.lemma_view_at(j);
                    }
                }
                assert(self@ =~= before@.insert(key, val));
            }
            },
        }
    }

    fn find(&self, pos: ChunkPos) -> (r: Option<usize>)
        requires
            self.wf(),
        ensures
            r matches Some(i) ==> i < self.entries@.len() && self.entries@[i as int].0 == pos,
            r is None ==> !self@.contains_key(pos.key()),
    {
        let mut i: usize = 0;
        while i < self.entries.len()
            invariant
                i <= self.entries@.len(),
                forall|j: int| 0 <= j < i ==> self.entries@[j].0 != pos,
            decreases self.entries@.len() - i,
        {
            if self.entries[i].0 == pos {
                return Some(i);
            }
            i += 1;
        }
        None
    }
}

} // verus!
