//! The chunk store: the partial local replica of the world.
use vstd::prelude::*;
use crate::block::{BlockId, AIR};
use crate::chunk::{block_index, BlockPos, Chunk, ChunkPos, CHUNK_SIZE};

verus! {

/// Anything that can say whether the block at a position is solid.
pub trait BlockContainer {
    spec fn container_wf(&self) -> bool;

    spec fn full(&self, p: (int, int, int)) -> bool;

    fn is_block_full(&self, pos: BlockPos) -> (r: bool)
        requires
            self.container_wf(),
        ensures
            r == self.full((pos.px as int, pos.py as int, pos.pz as int)),
    ;
}

/// The block at world position `p` in the chunks `m`: air where the
/// chunk holding `p` is not known.
pub open spec fn block_in(m: Map<(int, int, int), Seq<BlockId>>, p: (int, int, int)) -> BlockId {
    let n = CHUNK_SIZE as int;
    let key = (p.0 / n, p.1 / n, p.2 / n);
    if m.contains_key(key) {
        m[key][block_index(p.0 % n, p.1 % n, p.2 % n)]
    } else {
        AIR
    }
}

/// The known chunks, at most one per position.
pub struct World {
    pub chunks: Vec<Chunk>,
}

impl View for World {
    type V = Map<(int, int, int), Seq<BlockId>>;

    open spec fn view(&self) -> Map<(int, int, int), Seq<BlockId>> {
        Map::new(
            |k: (int, int, int)| exists|i: int| 0 <= i < self.chunks@.len() && #[trigger] self.chunks@[i].pos.key() == k,
            |k: (int, int, int)|
                self.chunks@[choose|i: int| 0 <= i < self.chunks@.len() && #[trigger] self.chunks@[i].pos.key() == k].blocks@,
        )
    }
}

impl World {
    pub open spec fn wf(&self) -> bool {
        &&& forall|i: int| 0 <= i < self.chunks@.len() ==> (#[trigger] self.chunks@[i]).wf()
        &&& forall|i: int, j: int|
            0 <= i < j < self.chunks@.len() ==> (#[trigger] self.chunks@[i]).pos != (#[trigger] self.chunks@[j]).pos
    }

    proof fn lemma_view_at(&self, i: int)
        requires
            self.wf(),
            0 <= i < self.chunks@.len(),
        ensures
            self@.contains_key(self.chunks@[i].pos.key()),
            self@[self.chunks@[i].pos.key()] == self.chunks@[i].blocks@,
    {
        let k = self.chunks@[i].pos.key();
        assert(self@.contains_key(k));
        let j = choose|j: int| 0 <= j < self.chunks@.len() && #[trigger] self.chunks@[j].pos.key() == k;
        assert(self.chunks@[j].pos == self.chunks@[i].pos);
    }

    /// An empty world.
    pub fn new() -> (r: World)
        ensures
            r.wf(),
            r@ == Map::<(int, int, int), Seq<BlockId>>::empty(),
    {
        let r = World { chunks: Vec::new() };
        assert(r@ =~= Map::<(int, int, int), Seq<BlockId>>::empty());
        r
    }

    fn find(&self, pos: ChunkPos) -> (r: Option<usize>)
        requires
            self.wf(),
        ensures
            r matches Some(i) ==> i < self.chunks@.len() && self.chunks@[i as int].pos == pos,
            r is None ==> !self@.contains_key(pos.key()),
    {
        let mut i: usize = 0;
        while i < self.chunks.len()
            invariant
                i <= self.chunks@.len(),
                forall|j: int| 0 <= j < i ==> self.chunks@[j].pos != pos,
            decreases self.chunks@.len() - i,
        {
            if self.chunks[i].pos == pos {
                return Some(i);
            }
            i += 1;
        }
        None
    }

    /// Inserts `chunk` at its position, replacing any chunk already there.
    pub fn set_chunk(&mut self, chunk: Chunk)
        requires
            old(self).wf(),
            chunk.wf(),
        ensures
            final(self).wf(),
            final(self)@ == old(self)@.insert(chunk.pos.key(), chunk.blocks@),
    {
        let ghost key = chunk.pos.key();
        let ghost blocks = chunk.blocks@;
        let ghost before = *self;
        match self.find(chunk.pos) {
            Some(i) => {
                self.chunks.set(i, chunk);
                proof {
                    assert forall|k: (int, int, int)| #[trigger] self@.contains_key(k) <==> before@.insert(key, blocks).contains_key(k) by {
                        if before@.contains_key(k) {
                            let j = choose|j: int| 0 <= j < before.chunks@.len() && #[trigger] before.chunks@[j].pos.key() == k;
                            if j != i {
                                assert(self.chunks@[j].pos.key() == k);
                            }
                        }
                        if k == key {
                            assert(self.chunks@[i as int].pos.key() == k);
                        }
                        if self@.contains_key(k) && k != key {
                            let j = choose|j: int| 0 <= j < self.chunks@.len() && #[trigger] self.chunks@[j].pos.key() == k;
                            assert(before.chunks@[j].pos.key() == k);
                        }
                    }
                    assert forall|k: (int, int, int)| #[trigger] self@.contains_key(k) implies self@[k] == before@.insert(key, blocks)[k] by {
                        let j = choose|j: int| 0 <= j < self.chunks@.len() && #[trigger] self.chunks@[j].pos.key() == k;
                        self.lemma_view_at(j);
                        if k != key {
                            before.lemma_view_at(j);
                        }
                    }
                    assert(self@ =~= before@.insert(key, blocks));
                }
            },
            None => {
                self.chunks.push(chunk);
                proof {
                    let last = self.chunks@.len() - 1;
                    assert forall|k: (int, int, int)| #[trigger] self@.contains_key(k) <==> before@.insert(key, blocks).contains_key(k) by {
                        if before@.contains_key(k) {
                            let j = choose|j: int| 0 <= j < before.chunks@.len() && #[trigger] before.chunks@[j].pos.key() == k;
                            assert(self.chunks@[j].pos.key() == k);
                        }
                        if k == key {
                            assert(self.chunks@[last].pos.key() == k);
                        }
                        if self@.contains_key(k) && k != key {
                            let j = choose|j: int| 0 <= j < self.chunks@.len() && #[trigger] self.chunks@[j].pos.key() == k;
                            assert(before.chunks@[j].pos.key() == k);
                        }
                    }
                    assert forall|i: int, j: int| 0 <= i < j < self.chunks@.len() implies
                        (#[trigger] self.chunks@[i]).pos != (#[trigger] self.chunks@[j]).pos by {
                        if j == last {
                            assert(before@.contains_key(before.chunks@[i].pos.key()));
                        }
                    }
                    assert forall|k: (int, int, int)| #[trigger] self@.contains_key(k) implies self@[k] == before@.insert(key, blocks)[k] by {
                        let j = choose|j: int| 0 <= j < self.chunks@.len() && #[trigger] self.chunks@[j].pos.key() == k;
                        self.lemma_view_at(j);
                        if k != key {
                            before.lemma_view_at(j);
                        }
                    }
                    assert(self@ =~= before@.insert(key, blocks));
                }
            },
        }
    }

    /// The chunk at `pos`, if it is known.
    pub fn get_chunk(&self, pos: ChunkPos) -> (r: Option<&Chunk>)
        requires
            self.wf(),
        ensures
            r is Some <==> self@.contains_key(pos.key()),
            r matches Some(c) ==> c.pos == pos && c.wf() && c.blocks@ == self@[pos.key()],
    {
        match self.find(pos) {
            Some(i) => {
                proof {
                    self.lemma_view_at(i as int);
                }
                Some(&self.chunks[i])
            },
            None => None,
        }
    }

    /// The block at `pos`; air where its chunk is not known.
    pub fn get_block(&self, pos: BlockPos) -> (r: BlockId)
        requires
            self.wf(),
        ensures
            r == block_in(self@, (pos.px as int, pos.py as int, pos.pz as int)),
    {
        let cp = pos.containing_chunk();
        match self.get_chunk(cp) {
            Some(c) => {
                let (x, y, z) = pos.local();
                c.get_block_at(x, y, z)
            },
            None => AIR,
        }
    }
}

impl BlockContainer for World {
    open spec fn container_wf(&self) -> bool {
        self.wf()
    }

    /// A block is solid when it is known and not air.
    open spec fn full(&self, p: (int, int, int)) -> bool {
        block_in(self@, p) != AIR
    }

    fn is_block_full(&self, pos: BlockPos) -> (r: bool) {
        self.get_block(pos) != AIR
    }
}

/// A block whose chunk never arrived reads as air.
pub proof fn lemma_unknown_chunk_is_air(w: &World, p: (int, int, int))
    requires
        !w@.contains_key((p.0 / (CHUNK_SIZE as int), p.1 / (CHUNK_SIZE as int), p.2 / (CHUNK_SIZE as int))),
    ensures
        block_in(w@, p) == AIR,
{
}

} // verus!
