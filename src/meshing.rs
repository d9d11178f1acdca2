//! The meshing engine: one chunk plus a snapshot of its neighbours' solid
//! blocks becomes a list of textured quads, merged greedily per layer.
use vstd::prelude::*;
use crate::block::{is_block_opaque, meshes_wf, opaque_id, BlockId, BlockMesh, TextureRect};
use crate::chunk::{block_index, in_chunk, n, Chunk, ChunkPos, CHUNK_SIZE, CHUNK_VOLUME};
use crate::greedy::{greedy_merge, greedy_rects, lemma_greedy_from_ok, rect_ok, Rect, MASK_LEN};
use crate::world::World;

verus! {

/// Side of the snapshot grid: the chunk and one block of border around it.
pub const PAD: usize = 34;

/// Number of cells of the snapshot grid.
pub const PAD_VOLUME: usize = 39304;

/// Number of face directions: +X, -X, +Y, -Y, +Z, -Z.
pub const DIRECTIONS: usize = 6;

/// Index of `(x, y, z)`, each in `[-1, CHUNK_SIZE]`, in the snapshot grid.
pub open spec fn pad_index(x: int, y: int, z: int) -> int {
    ((x + 1) * 34 + (y + 1)) * 34 + (z + 1)
}

pub open spec fn in_pad(x: int, y: int, z: int) -> bool {
    -1 <= x <= n() && -1 <= y <= n() && -1 <= z <= n()
}

/// Whether the block at `(x, y, z)`, in the coordinates of the chunk at
/// `pos`, is known in `w` and opaque.
pub open spec fn known_solid(
    w: Map<(int, int, int), Seq<BlockId>>,
    pos: ChunkPos,
    m: Seq<BlockMesh>,
    x: int,
    y: int,
    z: int,
) -> bool {
    let key = (pos.px + x / n(), pos.py + y / n(), pos.pz + z / n());
    w.contains_key(key) && opaque_id(m, w[key][block_index(x % n(), y % n(), z % n())])
}

/// Snapshot of which blocks around a chunk are solid; a block of a missing
/// neighbour counts as not solid.
pub struct AdjChunkOccl {
    pub full: Vec<bool>,
}

impl AdjChunkOccl {
    pub open spec fn wf(&self) -> bool {
        self.full@.len() == PAD_VOLUME
    }

    pub open spec fn at(&self, x: int, y: int, z: int) -> bool {
        self.full@[pad_index(x, y, z)]
    }

    /// A snapshot in which no neighbour is known.
    pub fn unknown() -> (r: AdjChunkOccl)
        ensures
            r.wf(),
            forall|x: int, y: int, z: int| in_pad(x, y, z) ==> !#[trigger] r.at(x, y, z),
    {
        let mut full: Vec<bool> = Vec::new();
        while full.len() < PAD_VOLUME
            invariant
                full@.len() <= PAD_VOLUME,
                forall|i: int| 0 <= i < full@.len() ==> !full@[i],
            decreases PAD_VOLUME - full@.len(),
        {
            full.push(false);
        }
        AdjChunkOccl { full }
    }

    /// Samples, from `world`, the blocks around the chunk at `pos`.
    pub fn create_from_world(world: &World, pos: ChunkPos, meshes: &Vec<BlockMesh>) -> (r: AdjChunkOccl)
        requires
            world.wf(),
        ensures
            r.wf(),
            r.full@ == occl_seq(world@, pos, meshes@),
            forall|x: int, y: int, z: int|
                in_pad(x, y, z) && !in_chunk(x, y, z) ==> #[trigger] r.at(x, y, z) == known_solid(world@, pos, meshes@, x, y, z),
    {
        let mut neighbours: Vec<Option<&Chunk>> = Vec::new();
        let mut t: usize = 0;
        while t < 27
            invariant
                t <= 27,
                neighbours@.len() == t,
                world.wf(),
                forall|s: int| 0 <= s < t ==> neighbour_ok(world, pos, s, #[trigger] neighbours@[s]),
            decreases 27 - t,
        {
            let i = (t / 9) as i64 - 1;
            let j = ((t / 3) % 3) as i64 - 1;
            let k = (t % 3) as i64 - 1;
            let c = match pos.offset(i, j, k) {
                Some(p) => world.get_chunk(p),
                None => None,
            };
            neighbours.push(c);
            t += 1;
        }
        let mut full: Vec<bool> = Vec::new();
        let mut q: usize = 0;
        while q < PAD_VOLUME
            invariant
                q <= PAD_VOLUME,
                full@.len() == q,
                world.wf(),
                neighbours@.len() == 27,
                forall|s: int| 0 <= s < 27 ==> neighbour_ok(world, pos, s, #[trigger] neighbours@[s]),
                forall|p: int| 0 <= p < q ==> #[trigger] full@[p] == pad_cell(world@, pos, meshes@, p),
            decreases PAD_VOLUME - q,
        {
            let x = (q / 1156) as i64 - 1;
            let y = ((q / 34) % 34) as i64 - 1;
            let z = (q % 34) as i64 - 1;
            let inside = 0 <= x && x < 32 && 0 <= y && y < 32 && 0 <= z && z < 32;
            let mut v = false;
            if !inside {
                let s = (side(x) * 9 + side(y) * 3 + side(z)) as usize;
                match neighbours[s] {
                    Some(c) => {
                        let id = c.get_block_at(wrap(x), wrap(y), wrap(z));
                        v = is_block_opaque(meshes, id);
                    },
                    None => {},
                }
            }
            proof {
                lemma_pad_split(q as int);
            }
            full.push(v);
            q += 1;
        }
        let r = AdjChunkOccl { full };
        assert(r.full@ =~= occl_seq(world@, pos, meshes@));
        proof {
            assert forall|x: int, y: int, z: int|
                in_pad(x, y, z) && !in_chunk(x, y, z) implies #[trigger] r.at(x, y, z) == known_solid(world@, pos, meshes@, x, y, z) by {
                lemma_pad_index(x, y, z);
            }
        }
        r
    }
}

/// Neighbour slot `s` (offsets `s / 9 - 1`, `s / 3 % 3 - 1`, `s % 3 - 1`)
/// holds the chunk of `world` at that offset from `pos`, if any.
pub open spec fn neighbour_ok(world: &World, pos: ChunkPos, s: int, c: Option<&Chunk>) -> bool {
    let key = (pos.px + s / 9 - 1, pos.py + (s / 3) % 3 - 1, pos.pz + s % 3 - 1);
    &&& c is Some <==> world@.contains_key(key)
    &&& c matches Some(ch) ==> ch.wf() && ch.blocks@ == world@[key]
}

/// Content of snapshot cell `p`: false inside the chunk, the neighbour's
/// opacity outside.
pub open spec fn pad_cell(w: Map<(int, int, int), Seq<BlockId>>, pos: ChunkPos, m: Seq<BlockMesh>, p: int) -> bool {
    let x = p / 1156 - 1;
    let y = (p / 34) % 34 - 1;
    let z = p % 34 - 1;
    if in_chunk(x, y, z) {
        false
    } else {
        known_solid(w, pos, m, x, y, z)
    }
}

/// The snapshot of the chunk at `pos` in world `w`.
pub open spec fn occl_seq(w: Map<(int, int, int), Seq<BlockId>>, pos: ChunkPos, m: Seq<BlockMesh>) -> Seq<bool> {
    Seq::new(PAD_VOLUME as nat, |p: int| pad_cell(w, pos, m, p))
}

proof fn lemma_pad_split(p: int)
    requires
        0 <= p < PAD_VOLUME,
    ensures
        in_pad(p / 1156 - 1, (p / 34) % 34 - 1, p % 34 - 1),
        pad_index(p / 1156 - 1, (p / 34) % 34 - 1, p % 34 - 1) == p,
{
}

proof fn lemma_pad_index(x: int, y: int, z: int)
    requires
        in_pad(x, y, z),
    ensures
        0 <= pad_index(x, y, z) < PAD_VOLUME,
        pad_index(x, y, z) / 1156 - 1 == x,
        (pad_index(x, y, z) / 34) % 34 - 1 == y,
        pad_index(x, y, z) % 34 - 1 == z,
{
}

/// Slot along one axis of the neighbour holding coordinate `x`.
fn side(x: i64) -> (r: i64)
    requires
        -1 <= x <= 32,
    ensures
        r == x as int / n() + 1,
        0 <= r <= 2,
{
    if x < 0 {
        0
    } else if x >= 32 {
        2
    } else {
        1
    }
}

/// Coordinate `x` inside the chunk that holds it.
fn wrap(x: i64) -> (r: usize)
    requires
        -1 <= x <= 32,
    ensures
        r == x as int % n(),
        r < CHUNK_SIZE,
{
    if x < 0 {
        31
    } else if x >= 32 {
        0
    } else {
        x as usize
    }
}

/// Whether `(x, y, z)`, in `[-1, CHUNK_SIZE]`, is solid: an opaque block of
/// the chunk inside it, the snapshot outside.
pub open spec fn solid(c: Seq<BlockId>, o: Seq<bool>, m: Seq<BlockMesh>, p: (int, int, int)) -> bool {
    if in_chunk(p.0, p.1, p.2) {
        opaque_id(m, c[block_index(p.0, p.1, p.2)])
    } else {
        o[pad_index(p.0, p.1, p.2)]
    }
}

/// Axis of direction `d`: 0 for X, 1 for Y, 2 for Z.
pub open spec fn axis(d: int) -> int {
    d / 2
}

/// The block of layer `l` of direction `d` at mask row `a`, column `b`.
/// The mask of an X layer spans (Y, Z), of a Y layer (X, Z), of a Z
/// layer (X, Y).
pub open spec fn cell_pos(d: int, l: int, a: int, b: int) -> (int, int, int) {
    if axis(d) == 0 {
        (l, a, b)
    } else if axis(d) == 1 {
        (a, l, b)
    } else {
        (a, b, l)
    }
}

/// Unit normal of direction `d`.
pub open spec fn normal(d: int) -> (int, int, int) {
    let s = if d % 2 == 0 { 1int } else { -1int };
    if axis(d) == 0 {
        (s, 0, 0)
    } else if axis(d) == 1 {
        (0, s, 0)
    } else {
        (0, 0, s)
    }
}

pub open spec fn add3(p: (int, int, int), q: (int, int, int)) -> (int, int, int) {
    (p.0 + q.0, p.1 + q.1, p.2 + q.2)
}

/// A cell of a layer's mask: the block id when the block is solid and
/// the block across its face is not, else 0.
pub open spec fn mask_cell(c: Seq<BlockId>, o: Seq<bool>, m: Seq<BlockMesh>, d: int, l: int, a: int, b: int) -> BlockId {
    let p = cell_pos(d, l, a, b);
    if solid(c, o, m, p) && !solid(c, o, m, add3(p, normal(d))) {
        c[block_index(p.0, p.1, p.2)]
    } else {
        0
    }
}

pub open spec fn layer_mask(c: Seq<BlockId>, o: Seq<bool>, m: Seq<BlockMesh>, d: int, l: int) -> Seq<BlockId> {
    Seq::new(MASK_LEN as nat, |k: int| mask_cell(c, o, m, d, l, k / n(), k % n()))
}

/// A merged face: a rectangle of layer `layer` of direction `dir`.
#[derive(Clone, Copy, Debug, PartialEq, Eq, Structural)]
pub struct Quad {
    pub dir: u8,
    pub layer: u32,
    pub rect: Rect,
}

pub open spec fn layer_quads(c: Seq<BlockId>, o: Seq<bool>, m: Seq<BlockMesh>, d: int, l: int) -> Seq<Quad> {
    greedy_rects(layer_mask(c, o, m, d, l)).map_values(|r: Rect| Quad { dir: d as u8, layer: l as u32, rect: r })
}

/// The quads of layers `t ..` in direction-major, layer-minor order, layer
/// `t` being layer `t % CHUNK_SIZE` of direction `t / CHUNK_SIZE`.
pub open spec fn quads_from(c: Seq<BlockId>, o: Seq<bool>, m: Seq<BlockMesh>, t: int) -> Seq<Quad>
    decreases 6 * n() - t,
{
    if t < 0 || t >= 6 * n() {
        seq![]
    } else {
        layer_quads(c, o, m, t / n(), t % n()) + quads_from(c, o, m, t + 1)
    }
}

/// All quads of a chunk, in emission order.
pub open spec fn chunk_quads(c: Seq<BlockId>, o: Seq<bool>, m: Seq<BlockMesh>) -> Seq<Quad> {
    quads_from(c, o, m, 0)
}

fn solid_at(c: &Chunk, o: &AdjChunkOccl, meshes: &Vec<BlockMesh>, x: i64, y: i64, z: i64) -> (r: bool)
    requires
        c.wf(),
        o.wf(),
        in_pad(x as int, y as int, z as int),
    ensures
        r == solid(c.blocks@, o.full@, meshes@, (x as int, y as int, z as int)),
{
    if 0 <= x && x < 32 && 0 <= y && y < 32 && 0 <= z && z < 32 {
        is_block_opaque(meshes, c.get_block_at(x as usize, y as usize, z as usize))
    } else {
        proof {
            lemma_pad_index(x as int, y as int, z as int);
        }
        o.full[(((x + 1) * 34 + (y + 1)) * 34 + (z + 1)) as usize]
    }
}

fn mask_cell_at(c: &Chunk, o: &AdjChunkOccl, meshes: &Vec<BlockMesh>, d: usize, l: usize, a: usize, b: usize) -> (r: BlockId)
    requires
        c.wf(),
        o.wf(),
        d < DIRECTIONS,
        l < CHUNK_SIZE && a < CHUNK_SIZE && b < CHUNK_SIZE,
    ensures
        r == mask_cell(c.blocks@, o.full@, meshes@, d as int, l as int, a as int, b as int),
{
    let ax = d / 2;
    let (x, y, z) = if ax == 0 {
        (l as i64, a as i64, b as i64)
    } else if ax == 1 {
        (a as i64, l as i64, b as i64)
    } else {
        (a as i64, b as i64, l as i64)
    };
    let s: i64 = if d % 2 == 0 { 1 } else { -1 };
    let (nx, ny, nz) = if ax == 0 {
        (x + s, y, z)
    } else if ax == 1 {
        (x, y + s, z)
    } else {
        (x, y, z + s)
    };
    if solid_at(c, o, meshes, x, y, z) && !solid_at(c, o, meshes, nx, ny, nz) {
        c.get_block_at(x as usize, y as usize, z as usize)
    } else {
        0
    }
}

fn build_mask(c: &Chunk, o: &AdjChunkOccl, meshes: &Vec<BlockMesh>, d: usize, l: usize, mask: &mut Vec<BlockId>)
    requires
        c.wf(),
        o.wf(),
        d < DIRECTIONS,
        l < CHUNK_SIZE,
    ensures
        final(mask)@ == layer_mask(c.blocks@, o.full@, meshes@, d as int, l as int),
{
    mask.clear();
    let mut k: usize = 0;
    while k < MASK_LEN
        invariant
            k <= MASK_LEN,
            mask@.len() == k,
            c.wf(),
            o.wf(),
            d < DIRECTIONS,
            l < CHUNK_SIZE,
            forall|t: int| 0 <= t < k ==> #[trigger] mask@[t] == mask_cell(c.blocks@, o.full@, meshes@, d as int, l as int, t / n(), t % n()),
        decreases MASK_LEN - k,
    {
        let v = mask_cell_at(c, o, meshes, d, l, k / CHUNK_SIZE, k % CHUNK_SIZE);
        mask.push(v);
        k += 1;
    }
    assert(mask@ =~= layer_mask(c.blocks@, o.full@, meshes@, d as int, l as int));
}

/// Appends the quads of every layer of the chunk to `quads`.
fn collect_quads(c: &Chunk, o: &AdjChunkOccl, meshes: &Vec<BlockMesh>, quads: &mut Vec<Quad>)
    requires
        c.wf(),
        o.wf(),
        old(quads)@.len() == 0,
    ensures
        final(quads)@ == chunk_quads(c.blocks@, o.full@, meshes@),
{
    let mut mask: Vec<BlockId> = Vec::new();
    let mut rects: Vec<Rect> = Vec::new();
    let mut t: usize = 0;
    while t < DIRECTIONS * CHUNK_SIZE
        invariant
            t <= DIRECTIONS * CHUNK_SIZE,
            c.wf(),
            o.wf(),
            chunk_quads(c.blocks@, o.full@, meshes@) == quads@ + quads_from(c.blocks@, o.full@, meshes@, t as int),
        decreases DIRECTIONS * CHUNK_SIZE - t,
    {
        let d = t / CHUNK_SIZE;
        let l = t % CHUNK_SIZE;
        build_mask(c, o, meshes, d, l, &mut mask);
        rects.clear();
        greedy_merge(&mut mask, &mut rects);
        assert(rects@ =~= greedy_rects(layer_mask(c.blocks@, o.full@, meshes@, d as int, l as int)));
        let ghost q0 = quads@;
        let mut j: usize = 0;
        while j < rects.len()
            invariant
                j <= rects@.len(),
                d < DIRECTIONS,
                l < CHUNK_SIZE,
                quads@ == q0 + Seq::new(j as nat, |x: int| Quad { dir: d as u8, layer: l as u32, rect: rects@[x] }),
            decreases rects@.len() - j,
        {
            quads.push(Quad { dir: d as u8, layer: l as u32, rect: rects[j] });
            assert(quads@ =~= q0 + Seq::new((j + 1) as nat, |x: int| Quad { dir: d as u8, layer: l as u32, rect: rects@[x] }));
            j += 1;
        }
        proof {
            let lq = layer_quads(c.blocks@, o.full@, meshes@, d as int, l as int);
            assert(quads@ =~= q0 + lq);
            assert(quads_from(c.blocks@, o.full@, meshes@, t as int) == lq + quads_from(c.blocks@, o.full@, meshes@, t + 1));
            vstd::seq_lib::lemma_concat_associative(q0, lq, quads_from(c.blocks@, o.full@, meshes@, t + 1));
        }
        t += 1;
    }
    assert(quads@ + quads_from(c.blocks@, o.full@, meshes@, (DIRECTIONS * CHUNK_SIZE) as int) =~= quads@);
}

/// A corner of a quad, with its tiling texture coordinates.
#[derive(Clone, Copy, Debug, PartialEq, Eq, Structural)]
pub struct Vertex {
    pub x: u32,
    pub y: u32,
    pub z: u32,
    pub normal: u8,
    pub u: u32,
    pub v: u32,
    pub texture: TextureRect,
}

/// Vertices and triangle indices of one chunk, in chunk-local block units.
pub struct ChunkMesh {
    pub vertices: Vec<Vertex>,
    pub indices: Vec<u32>,
}

impl ChunkMesh {
    pub fn new() -> (r: ChunkMesh)
        ensures
            r.vertices@.len() == 0,
            r.indices@.len() == 0,
    {
        ChunkMesh { vertices: Vec::new(), indices: Vec::new() }
    }
}

pub open spec fn no_texture() -> TextureRect {
    TextureRect { x: 0, y: 0, width: 0, height: 0 }
}

/// The atlas rectangle of face `d` of block `id`.
pub open spec fn face_texture(m: Seq<BlockMesh>, id: BlockId, d: int) -> TextureRect {
    if (id as int) < m.len() {
        match m[id as int] {
            BlockMesh::FullCube { texture } => texture@[d],
            BlockMesh::Empty => no_texture(),
        }
    } else {
        no_texture()
    }
}

/// Coordinate of the plane of a face of layer `l` in direction `d`.
pub open spec fn face_plane(d: int, l: int) -> int {
    if d % 2 == 0 { l + 1 } else { l }
}

/// The corner of quad `q` at offset `(da, db)` from its first cell.
pub open spec fn corner(q: Quad, tex: TextureRect, da: int, db: int) -> Vertex {
    let p = cell_pos(q.dir as int, face_plane(q.dir as int, q.layer as int), q.rect.row + da, q.rect.col + db);
    Vertex { x: p.0 as u32, y: p.1 as u32, z: p.2 as u32, normal: q.dir, u: db as u32, v: da as u32, texture: tex }
}

/// Whether the corners of direction `d` go in reverse mask order to face
/// outward.
pub open spec fn flipped(d: int) -> bool {
    (d % 2 == 0) == (axis(d) == 1)
}

/// The four corners of `q`, counter-clockwise seen from outside.
pub open spec fn quad_vertices(q: Quad, tex: TextureRect) -> Seq<Vertex> {
    let h = q.rect.height as int;
    let w = q.rect.width as int;
    if flipped(q.dir as int) {
        seq![corner(q, tex, 0, 0), corner(q, tex, 0, w), corner(q, tex, h, w), corner(q, tex, h, 0)]
    } else {
        seq![corner(q, tex, 0, 0), corner(q, tex, h, 0), corner(q, tex, h, w), corner(q, tex, 0, w)]
    }
}

pub open spec fn mesh_vertices(qs: Seq<Quad>, m: Seq<BlockMesh>) -> Seq<Vertex>
    decreases qs.len(),
{
    if qs.len() == 0 {
        seq![]
    } else {
        let q = qs.last();
        mesh_vertices(qs.drop_last(), m) + quad_vertices(q, face_texture(m, q.rect.block, q.dir as int))
    }
}

/// Corner of a quad used by index `r` of its six: triangles (0, 1, 2)
/// and (0, 2, 3).
pub open spec fn index_corner(r: int) -> int {
    if r == 0 || r == 3 {
        0
    } else if r == 1 {
        1
    } else if r == 2 || r == 4 {
        2
    } else {
        3
    }
}

pub open spec fn mesh_indices(count: int) -> Seq<u32> {
    Seq::new((6 * count) as nat, |t: int| (4 * (t / 6) + index_corner(t % 6)) as u32)
}

/// What meshing `c` with snapshot `o` and meshes `m` leaves in `mesh`.
pub open spec fn meshed(c: Seq<BlockId>, o: Seq<bool>, m: Seq<BlockMesh>, mesh: &ChunkMesh) -> bool {
    let qs = chunk_quads(c, o, m);
    &&& mesh.vertices@ == mesh_vertices(qs, m)
    &&& mesh.indices@ == mesh_indices(qs.len() as int)
}

pub open spec fn quad_ok(q: Quad) -> bool {
    q.dir < 6 && q.layer < n() && rect_ok(q.rect)
}

/// In every layer, the merged quads cover exactly the visible faces, each
/// face once, and every cell of a quad shows the quad's block.
pub proof fn lemma_layer_faces_tiled(c: Seq<BlockId>, o: Seq<bool>, m: Seq<BlockMesh>, d: int, l: int)
    ensures
        crate::greedy::tiles(greedy_rects(layer_mask(c, o, m, d, l)), layer_mask(c, o, m, d, l)),
{
    crate::greedy::lemma_greedy_tiles(layer_mask(c, o, m, d, l));
}

/// Every quad of layers `t ..` is well placed, and there are at most as
/// many as their cells.
pub proof fn lemma_quads_from_ok(c: Seq<BlockId>, o: Seq<bool>, m: Seq<BlockMesh>, t: int)
    requires
        0 <= t <= 6 * n(),
    ensures
        quads_from(c, o, m, t).len() <= (6 * n() - t) * 1024,
        forall|i: int| 0 <= i < quads_from(c, o, m, t).len() ==> quad_ok(#[trigger] quads_from(c, o, m, t)[i]),
    decreases 6 * n() - t,
{
    if t < 6 * n() {
        let d = t / n();
        let l = t % n();
        lemma_quads_from_ok(c, o, m, t + 1);
        lemma_greedy_from_ok(layer_mask(c, o, m, d, l), 0);
        let lq = layer_quads(c, o, m, d, l);
        let rest = quads_from(c, o, m, t + 1);
        assert forall|i: int| 0 <= i < quads_from(c, o, m, t).len() implies quad_ok(#[trigger] quads_from(c, o, m, t)[i]) by {
            if i < lq.len() {
                assert(quads_from(c, o, m, t)[i] == lq[i]);
            } else {
                assert(quads_from(c, o, m, t)[i] == rest[i - lq.len()]);
            }
        }
    }
}

fn texture_of(meshes: &Vec<BlockMesh>, id: BlockId, d: u8) -> (r: TextureRect)
    requires
        d < 6,
    ensures
        r == face_texture(meshes@, id, d as int),
{
    if (id as usize) < meshes.len() {
        match &meshes[id as usize] {
            BlockMesh::FullCube { texture } => texture[d as usize],
            BlockMesh::Empty => TextureRect { x: 0, y: 0, width: 0, height: 0 },
        }
    } else {
        TextureRect { x: 0, y: 0, width: 0, height: 0 }
    }
}

fn corner_at(q: &Quad, tex: TextureRect, da: u32, db: u32) -> (r: Vertex)
    requires
        quad_ok(*q),
        da <= q.rect.height,
        db <= q.rect.width,
    ensures
        r == corner(*q, tex, da as int, db as int),
{
    let d = q.dir;
    let pl = if d % 2 == 0 { q.layer + 1 } else { q.layer };
    let a = q.rect.row + da;
    let b = q.rect.col + db;
    let (x, y, z) = if d / 2 == 0 {
        (pl, a, b)
    } else if d / 2 == 1 {
        (a, pl, b)
    } else {
        (a, b, pl)
    };
    Vertex { x, y, z, normal: d, u: db, v: da, texture: tex }
}

/// Meshes chunk `c`: fills `out`, whose former content is dropped, with
/// four vertices and six indices per merged quad, in the order of
/// `chunk_quads`.
pub fn greedy_meshing(c: &Chunk, o: &AdjChunkOccl, meshes: &Vec<BlockMesh>, out: &mut ChunkMesh)
    requires
        c.wf(),
        o.wf(),
    ensures
        meshed(c.blocks@, o.full@, meshes@, final(out)),
{
    let mut quads: Vec<Quad> = Vec::new();
    collect_quads(c, o, meshes, &mut quads);
    proof {
        lemma_quads_from_ok(c.blocks@, o.full@, meshes@, 0);
    }
    out.vertices.clear();
    out.indices.clear();
    let mut i: usize = 0;
    while i < quads.len()
        invariant
            i <= quads@.len(),
            quads@.len() <= 196608,
            forall|t: int| 0 <= t < quads@.len() ==> quad_ok(#[trigger] quads@[t]),
            out.vertices@ == mesh_vertices(quads@.take(i as int), meshes@),
            out.indices@ == mesh_indices(i as int),
        decreases quads@.len() - i,
    {
        let q = quads[i];
        let tex = texture_of(meshes, q.rect.block, q.dir);
        let h = q.rect.height;
        let w = q.rect.width;
        let ghost v0 = out.vertices@;
        if (q.dir % 2 == 0) == (q.dir / 2 == 1) {
            out.vertices.push(corner_at(&q, tex, 0, 0));
            out.vertices.push(corner_at(&q, tex, 0, w));
            out.vertices.push(corner_at(&q, tex, h, w));
            out.vertices.push(corner_at(&q, tex, h, 0));
        } else {
            out.vertices.push(corner_at(&q, tex, 0, 0));
            out.vertices.push(corner_at(&q, tex, h, 0));
            out.vertices.push(corner_at(&q, tex, h, w));
            out.vertices.push(corner_at(&q, tex, 0, w));
        }
        let base = (4 * i) as u32;
        let ghost i0 = out.indices@;
        out.indices.push(base);
        out.indices.push(base + 1);
        out.indices.push(base + 2);
        out.indices.push(base);
        out.indices.push(base + 2);
        out.indices.push(base + 3);
        proof {
            let qs = quads@.take(i + 1);
            assert(qs.drop_last() =~= quads@.take(i as int));
            assert(qs.last() == q);
            assert(out.vertices@ =~= v0 + quad_vertices(q, tex));
            assert(out.indices@ =~= mesh_indices(i + 1));
        }
        i += 1;
    }
    assert(quads@.take(quads@.len() as int) =~= quads@);
}

pub open spec fn vpos(v: Vertex) -> (int, int, int) {
    (v.x as int, v.y as int, v.z as int)
}

pub open spec fn sub3(p: (int, int, int), q: (int, int, int)) -> (int, int, int) {
    (p.0 - q.0, p.1 - q.1, p.2 - q.2)
}

pub open spec fn cross(p: (int, int, int), q: (int, int, int)) -> (int, int, int) {
    (p.1 * q.2 - p.2 * q.1, p.2 * q.0 - p.0 * q.2, p.0 * q.1 - p.1 * q.0)
}

pub open spec fn dot(p: (int, int, int), q: (int, int, int)) -> int {
    p.0 * q.0 + p.1 * q.1 + p.2 * q.2
}

/// Triangle `(p0, p1, p2)` is counter-clockwise seen from the side that
/// normal `nv` points to.
pub open spec fn faces(p0: (int, int, int), p1: (int, int, int), p2: (int, int, int), nv: (int, int, int)) -> bool {
    dot(cross(sub3(p1, p0), sub3(p2, p0)), nv) > 0
}

/// Both triangles of four corners face outward along direction `d`.
pub open spec fn outward(vs: Seq<Vertex>, d: int) -> bool {
    &&& vs.len() == 4
    &&& faces(vpos(vs[0]), vpos(vs[1]), vpos(vs[2]), normal(d))
    &&& faces(vpos(vs[0]), vpos(vs[2]), vpos(vs[3]), normal(d))
}

proof fn lemma_cross_axes(h: int, w: int)
    ensures
        cross((0int, h, 0int), (0int, h, w)) == (h * w, 0int, 0int),
        cross((0int, h, w), (0int, 0int, w)) == (h * w, 0int, 0int),
        cross((0int, 0int, w), (0int, h, w)) == (-(h * w), 0int, 0int),
        cross((0int, h, w), (0int, h, 0int)) == (-(h * w), 0int, 0int),
        cross((h, 0int, 0int), (h, 0int, w)) == (0int, -(h * w), 0int),
        cross((h, 0int, w), (0int, 0int, w)) == (0int, -(h * w), 0int),
        cross((0int, 0int, w), (h, 0int, w)) == (0int, h * w, 0int),
        cross((h, 0int, w), (h, 0int, 0int)) == (0int, h * w, 0int),
        cross((h, 0int, 0int), (h, w, 0int)) == (0int, 0int, h * w),
        cross((h, w, 0int), (0int, w, 0int)) == (0int, 0int, h * w),
        cross((0int, w, 0int), (h, w, 0int)) == (0int, 0int, -(h * w)),
        cross((h, w, 0int), (h, 0int, 0int)) == (0int, 0int, -(h * w)),
{
    assert(h * w == w * h) by (nonlinear_arith);
}

proof fn lemma_dot_axes(v: int)
    ensures
        dot((v, 0int, 0int), (1int, 0int, 0int)) == v,
        dot((v, 0int, 0int), (-1int, 0int, 0int)) == -v,
        dot((0int, v, 0int), (0int, 1int, 0int)) == v,
        dot((0int, v, 0int), (0int, -1int, 0int)) == -v,
        dot((0int, 0int, v), (0int, 0int, 1int)) == v,
        dot((0int, 0int, v), (0int, 0int, -1int)) == -v,
{
}

/// The two triangles of every well-placed quad face outward.
pub proof fn lemma_quad_outward(q: Quad, tex: TextureRect)
    requires
        quad_ok(q),
    ensures
        outward(quad_vertices(q, tex), q.dir as int),
{
    let h = q.rect.height as int;
    let w = q.rect.width as int;
    let d = q.dir as int;
    let pl = face_plane(d, q.layer as int);
    let a = q.rect.row as int;
    let b = q.rect.col as int;
    assert(h * w > 0) by (nonlinear_arith)
        requires
            h >= 1,
            w >= 1,
    ;
    let c00 = vpos(corner(q, tex, 0, 0));
    let ch0 = vpos(corner(q, tex, h, 0));
    let chw = vpos(corner(q, tex, h, w));
    let c0w = vpos(corner(q, tex, 0, w));
    assert(c00 == cell_pos(d, pl, a, b));
    assert(ch0 == cell_pos(d, pl, a + h, b));
    assert(chw == cell_pos(d, pl, a + h, b + w));
    assert(c0w == cell_pos(d, pl, a, b + w));
    let vs = quad_vertices(q, tex);
    lemma_cross_axes(h, w);
    lemma_dot_axes(h * w);
    lemma_dot_axes(-(h * w));
    let e1 = sub3(ch0, c00);
    let e2 = sub3(chw, c00);
    let e3 = sub3(c0w, c00);
    if axis(d) == 0 {
        assert(e1 == (0int, h, 0int));
        assert(e2 == (0int, h, w));
        assert(e3 == (0int, 0int, w));
        assert(cross(e1, e2) == (h * w, 0int, 0int));
        assert(cross(e2, e3) == (h * w, 0int, 0int));
        assert(cross(e3, e2) == (-(h * w), 0int, 0int));
        assert(cross(e2, e1) == (-(h * w), 0int, 0int));
    } else if axis(d) == 1 {
        assert(e1 == (h, 0int, 0int));
        assert(e2 == (h, 0int, w));
        assert(e3 == (0int, 0int, w));
        assert(cross(e1, e2) == (0int, -(h * w), 0int));
        assert(cross(e2, e3) == (0int, -(h * w), 0int));
        assert(cross(e3, e2) == (0int, h * w, 0int));
        assert(cross(e2, e1) == (0int, h * w, 0int));
    } else {
        assert(e1 == (h, 0int, 0int));
        assert(e2 == (h, w, 0int));
        assert(e3 == (0int, w, 0int));
        assert(cross(e1, e2) == (0int, 0int, h * w));
        assert(cross(e2, e3) == (0int, 0int, h * w));
        assert(cross(e3, e2) == (0int, 0int, -(h * w)));
        assert(cross(e2, e1) == (0int, 0int, -(h * w)));
    }
    let nv = normal(d);
    if flipped(d) {
        assert(dot(cross(e3, e2), nv) == h * w);
        assert(dot(cross(e2, e1), nv) == h * w);
        assert(faces(c00, c0w, chw, nv));
        assert(faces(c00, chw, ch0, nv));
        assert(vpos(vs[1]) == c0w && vpos(vs[2]) == chw && vpos(vs[3]) == ch0);
    } else {
        assert(dot(cross(e1, e2), nv) == h * w);
        assert(dot(cross(e2, e3), nv) == h * w);
        assert(faces(c00, ch0, chw, nv));
        assert(faces(c00, chw, c0w, nv));
        assert(vpos(vs[1]) == ch0 && vpos(vs[2]) == chw && vpos(vs[3]) == c0w);
    }
}

/// Meshing is a function of its inputs: two meshes of the same chunk,
/// snapshot and block meshes are identical.
pub proof fn lemma_meshing_deterministic(c: Seq<BlockId>, o: Seq<bool>, m: Seq<BlockMesh>, a: &ChunkMesh, b: &ChunkMesh)
    requires
        meshed(c, o, m, a),
        meshed(c, o, m, b),
    ensures
        a.vertices@ == b.vertices@,
        a.indices@ == b.indices@,
{
}

proof fn lemma_quads_skip(c: Seq<BlockId>, o: Seq<bool>, m: Seq<BlockMesh>, t: int, t1: int)
    requires
        0 <= t <= t1 <= 6 * n(),
        forall|s: int| t <= s < t1 ==> (#[trigger] layer_quads(c, o, m, s / n(), s % n())).len() == 0,
    ensures
        quads_from(c, o, m, t) == quads_from(c, o, m, t1),
    decreases t1 - t,
{
    if t < t1 {
        lemma_quads_skip(c, o, m, t + 1, t1);
        assert(quads_from(c, o, m, t) =~= quads_from(c, o, m, t + 1));
    }
}

/// A solid chunk whose six face neighbours are solid has no visible face:
/// meshing it yields no vertex and no index.
pub proof fn lemma_occluded_chunk(c: Seq<BlockId>, o: Seq<bool>, m: Seq<BlockMesh>, mesh: &ChunkMesh)
    requires
        c.len() == CHUNK_VOLUME,
        o.len() == PAD_VOLUME,
        forall|x: int, y: int, z: int| in_chunk(x, y, z) ==> opaque_id(m, #[trigger] c[block_index(x, y, z)]),
        forall|x: int, y: int, z: int|
            in_pad(x, y, z) && !in_chunk(x, y, z) && (in_chunk(0, y, z) || in_chunk(x, 0, z) || in_chunk(x, y, 0))
                ==> #[trigger] o[pad_index(x, y, z)],
        meshed(c, o, m, mesh),
    ensures
        chunk_quads(c, o, m).len() == 0,
        mesh.vertices@.len() == 0,
        mesh.indices@.len() == 0,
{
    assert forall|s: int| 0 <= s < 6 * n() implies (#[trigger] layer_quads(c, o, m, s / n(), s % n())).len() == 0 by {
        let d = s / n();
        let l = s % n();
        let mk = layer_mask(c, o, m, d, l);
        assert forall|k: int| 0 <= k < mk.len() implies mk[k] == 0 by {
            let p = cell_pos(d, l, k / n(), k % n());
            let q = add3(p, normal(d));
            assert(in_chunk(p.0, p.1, p.2));
            assert(solid(c, o, m, q));
        }
        crate::greedy::lemma_greedy_empty_mask(mk);
    }
    lemma_quads_skip(c, o, m, 0, 6 * n());
    assert(chunk_quads(c, o, m) =~= Seq::<Quad>::empty());
}

/// Four vertices per quad.
pub proof fn lemma_mesh_vertices_len(qs: Seq<Quad>, m: Seq<BlockMesh>)
    ensures
        mesh_vertices(qs, m).len() == 4 * qs.len(),
    decreases qs.len(),
{
    if qs.len() > 0 {
        lemma_mesh_vertices_len(qs.drop_last(), m);
    }
}

/// Layer of direction `d` that holds block `p`.
pub open spec fn layer_of(p: (int, int, int), d: int) -> int {
    if axis(d) == 0 {
        p.0
    } else if axis(d) == 1 {
        p.1
    } else {
        p.2
    }
}

/// The unit quad of face `d` of a lone block `id` at `p`.
pub open spec fn lone_quad(p: (int, int, int), id: BlockId, d: int) -> Quad {
    let (a, b) = if axis(d) == 0 {
        (p.1, p.2)
    } else if axis(d) == 1 {
        (p.0, p.2)
    } else {
        (p.0, p.1)
    };
    Quad { dir: d as u8, layer: layer_of(p, d) as u32, rect: Rect { row: a as u32, col: b as u32, width: 1, height: 1, block: id } }
}

pub open spec fn lone_block(c: Seq<BlockId>, o: Seq<bool>, m: Seq<BlockMesh>, p: (int, int, int)) -> bool {
    &&& c.len() == CHUNK_VOLUME
    &&& o.len() == PAD_VOLUME
    &&& meshes_wf(m)
    &&& in_chunk(p.0, p.1, p.2)
    &&& opaque_id(m, c[block_index(p.0, p.1, p.2)])
    &&& forall|x: int, y: int, z: int| in_chunk(x, y, z) && (x, y, z) != p ==> !opaque_id(m, #[trigger] c[block_index(x, y, z)])
    &&& forall|x: int, y: int, z: int| in_pad(x, y, z) && !in_chunk(x, y, z) ==> !#[trigger] o[pad_index(x, y, z)]
}

proof fn lemma_lone_layer(c: Seq<BlockId>, o: Seq<bool>, m: Seq<BlockMesh>, p: (int, int, int), d: int, l: int)
    requires
        lone_block(c, o, m, p),
        0 <= d < 6,
        0 <= l < n(),
    ensures
        layer_quads(c, o, m, d, l) == (if l == layer_of(p, d) { seq![lone_quad(p, c[block_index(p.0, p.1, p.2)], d)] } else { seq![] }),
{
    let id = c[block_index(p.0, p.1, p.2)];
    let mk = layer_mask(c, o, m, d, l);
    let q = lone_quad(p, id, d);
    let k0 = crate::greedy::idx(q.rect.row as int, q.rect.col as int);
    assert forall|k: int| 0 <= k < mk.len() implies mk[k] == (if l == layer_of(p, d) && k == k0 { id } else { 0 }) by {
        crate::greedy::lemma_split(k);
        crate::greedy::lemma_idx(q.rect.row as int, q.rect.col as int);
        let cp = cell_pos(d, l, k / n(), k % n());
        if cp != p {
            assert(!solid(c, o, m, cp));
        } else {
            assert(!solid(c, o, m, add3(cp, normal(d))));
        }
    }
    if l == layer_of(p, d) {
        crate::greedy::lemma_idx(q.rect.row as int, q.rect.col as int);
        crate::greedy::lemma_greedy_single_cell(mk, k0);
        assert(layer_quads(c, o, m, d, l) =~= seq![q]);
    } else {
        crate::greedy::lemma_greedy_empty_mask(mk);
        assert(layer_quads(c, o, m, d, l) =~= seq![]);
    }
}

proof fn lemma_lone_direction(c: Seq<BlockId>, o: Seq<bool>, m: Seq<BlockMesh>, p: (int, int, int), d: int)
    requires
        lone_block(c, o, m, p),
        0 <= d < 6,
    ensures
        quads_from(c, o, m, d * n()) == seq![lone_quad(p, c[block_index(p.0, p.1, p.2)], d)] + quads_from(c, o, m, (d + 1) * n()),
{
    let lp = layer_of(p, d);
    let t0 = d * n() + lp;
    assert forall|s: int| d * n() <= s < t0 implies (#[trigger] layer_quads(c, o, m, s / n(), s % n())).len() == 0 by {
        lemma_lone_layer(c, o, m, p, d, s % n());
    }
    lemma_quads_skip(c, o, m, d * n(), t0);
    lemma_lone_layer(c, o, m, p, d, lp);
    assert(t0 / n() == d && t0 % n() == lp);
    assert forall|s: int| t0 + 1 <= s < (d + 1) * n() implies (#[trigger] layer_quads(c, o, m, s / n(), s % n())).len() == 0 by {
        lemma_lone_layer(c, o, m, p, d, s % n());
    }
    lemma_quads_skip(c, o, m, t0 + 1, (d + 1) * n());
}

/// A lone opaque block whose neighbours are all empty gives exactly six
/// unit quads, one per face direction, each facing outward.
pub proof fn lemma_lone_block(c: Seq<BlockId>, o: Seq<bool>, m: Seq<BlockMesh>, p: (int, int, int), mesh: &ChunkMesh)
    requires
        lone_block(c, o, m, p),
        meshed(c, o, m, mesh),
    ensures
        chunk_quads(c, o, m) == Seq::new(6, |d: int| lone_quad(p, c[block_index(p.0, p.1, p.2)], d)),
        forall|d: int| 0 <= d < 6 ==> outward(
            #[trigger] quad_vertices(lone_quad(p, c[block_index(p.0, p.1, p.2)], d), face_texture(m, c[block_index(p.0, p.1, p.2)], d)), d),
        mesh.vertices@.len() == 24,
        mesh.indices@.len() == 36,
{
    let id = c[block_index(p.0, p.1, p.2)];
    lemma_lone_direction(c, o, m, p, 0);
    lemma_lone_direction(c, o, m, p, 1);
    lemma_lone_direction(c, o, m, p, 2);
    lemma_lone_direction(c, o, m, p, 3);
    lemma_lone_direction(c, o, m, p, 4);
    lemma_lone_direction(c, o, m, p, 5);
    assert(quads_from(c, o, m, 6 * n()) =~= seq![]);
    assert(chunk_quads(c, o, m) =~= Seq::new(6, |d: int| lone_quad(p, id, d)));
    assert forall|d: int| 0 <= d < 6 implies outward(#[trigger] quad_vertices(lone_quad(p, id, d), face_texture(m, id, d)), d) by {
        assert(id != 0);
        lemma_quad_outward(lone_quad(p, id, d), face_texture(m, id, d));
    }
    lemma_mesh_vertices_len(chunk_quads(c, o, m), m);
}

/// A chunk whose only opaque blocks fill layer `y0` with block `id`, with no
/// solid neighbour, shows that layer's top as a single quad covering the
/// whole layer, not one quad per block.
pub proof fn lemma_flat_layer_one_quad(c: Seq<BlockId>, o: Seq<bool>, m: Seq<BlockMesh>, y0: int, id: BlockId)
    requires
        c.len() == CHUNK_VOLUME,
        o.len() == PAD_VOLUME,
        meshes_wf(m),
        0 <= y0 < n(),
        opaque_id(m, id),
        forall|x: int, z: int| 0 <= x < n() && 0 <= z < n() ==> #[trigger] c[block_index(x, y0, z)] == id,
        forall|x: int, y: int, z: int| in_chunk(x, y, z) && y != y0 ==> !opaque_id(m, #[trigger] c[block_index(x, y, z)]),
        forall|x: int, y: int, z: int| in_pad(x, y, z) && !in_chunk(x, y, z) ==> !#[trigger] o[pad_index(x, y, z)],
    ensures
        layer_quads(c, o, m, 2, y0) == seq![Quad { dir: 2, layer: y0 as u32, rect: Rect { row: 0, col: 0, width: 32, height: 32, block: id } }],
{
    let mk = layer_mask(c, o, m, 2, y0);
    assert forall|k: int| 0 <= k < mk.len() implies mk[k] == id by {
        let p = cell_pos(2, y0, k / n(), k % n());
        assert(c[block_index(p.0, y0, p.2)] == id);
        assert(!solid(c, o, m, add3(p, normal(2))));
    }
    assert(id != 0);
    crate::greedy::lemma_greedy_uniform_mask(mk, id);
    assert(layer_quads(c, o, m, 2, y0) =~= seq![Quad { dir: 2, layer: y0 as u32, rect: Rect { row: 0, col: 0, width: 32, height: 32, block: id } }]);
}

} // verus!
