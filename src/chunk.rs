//! Chunk coordinates and the fixed-size voxel grid of one chunk.
use vstd::prelude::*;
use crate::block::BlockId;

verus! {

/// Side length of a chunk, in blocks.
pub const CHUNK_SIZE: usize = 32;

/// Number of blocks in a chunk.
pub const CHUNK_VOLUME: usize = 32768;

pub open spec fn n() -> int {
    32
}

/// Position of a chunk, in chunk units.
#[derive(Clone, Copy, Debug, PartialEq, Eq, Hash, Structural)]
pub struct ChunkPos {
    pub px: i64,
    pub py: i64,
    pub pz: i64,
}

/// Position of a block, in block units.
#[derive(Clone, Copy, Debug, PartialEq, Eq, Hash, Structural)]
pub struct BlockPos {
    pub px: i64,
    pub py: i64,
    pub pz: i64,
}

impl ChunkPos {
    pub open spec fn key(self) -> (int, int, int) {
        (self.px as int, self.py as int, self.pz as int)
    }

    /// The chunk `(i, j, k)` chunks away, if its coordinates fit.
    pub fn offset(&self, i: i64, j: i64, k: i64) -> (r: Option<ChunkPos>)
        ensures
            r matches Some(p) ==> p.key() == (self.px + i, self.py + j, self.pz + k),
            r is None <==> !(i64::MIN <= self.px + i <= i64::MAX && i64::MIN <= self.py + j
                <= i64::MAX && i64::MIN <= self.pz + k <= i64::MAX),
    {
        match (self.px.checked_add(i), self.py.checked_add(j), self.pz.checked_add(k)) {
            (Some(px), Some(py), Some(pz)) => Some(ChunkPos { px, py, pz }),
            _ => None,
        }
    }
}

impl BlockPos {
    /// The chunk that holds this block: each coordinate divided by the chunk
    /// size, rounded toward negative infinity.
    pub open spec fn spec_chunk(self) -> (int, int, int) {
        (self.px as int / n(), self.py as int / n(), self.pz as int / n())
    }

    /// The block's coordinates inside its chunk, each in `[0, CHUNK_SIZE)`.
    pub open spec fn spec_local(self) -> (int, int, int) {
        (self.px as int % n(), self.py as int % n(), self.pz as int % n())
    }

    pub fn containing_chunk(&self) -> (r: ChunkPos)
        ensures
            r.key() == self.spec_chunk(),
    {
        let s = CHUNK_SIZE as i64;
        ChunkPos {
            px: self.px.checked_div_euclid(s).unwrap(),
            py: self.py.checked_div_euclid(s).unwrap(),
            pz: self.pz.checked_div_euclid(s).unwrap(),
        }
    }

    pub fn local(&self) -> (r: (usize, usize, usize))
        ensures
            (r.0 as int, r.1 as int, r.2 as int) == self.spec_local(),
            r.0 < CHUNK_SIZE && r.1 < CHUNK_SIZE && r.2 < CHUNK_SIZE,
    {
        let s = CHUNK_SIZE as i64;
        (
            self.px.checked_rem_euclid(s).unwrap() as usize,
            self.py.checked_rem_euclid(s).unwrap() as usize,
            self.pz.checked_rem_euclid(s).unwrap() as usize,
        )
    }
}

/// Index of local coordinates `(x, y, z)` in a chunk's block array.
pub open spec fn block_index(x: int, y: int, z: int) -> int {
    (x * n() + y) * n() + z
}

pub open spec fn in_chunk(x: int, y: int, z: int) -> bool {
    0 <= x < n() && 0 <= y < n() && 0 <= z < n()
}

/// A chunk: its position and its `CHUNK_SIZE`³ blocks, indexed by
/// `block_index`. Chunks are replaced whole, never edited.
#[derive(Clone, Debug)]
pub struct Chunk {
    pub pos: ChunkPos,
    pub blocks: Vec<BlockId>,
}

impl Chunk {
    pub open spec fn wf(&self) -> bool {
        self.blocks@.len() == CHUNK_VOLUME
    }

    pub open spec fn block(&self, x: int, y: int, z: int) -> BlockId {
        self.blocks@[block_index(x, y, z)]
    }

    /// A chunk at `pos` holding `blocks`, or `None` when `blocks` does not
    /// hold exactly one id per block.
    pub fn new(pos: ChunkPos, blocks: Vec<BlockId>) -> (r: Option<Chunk>)
        ensures
            r is Some <==> blocks@.len() == CHUNK_VOLUME,
            r matches Some(c) ==> c.pos == pos && c.blocks@ == blocks@ && c.wf(),
    {
        if blocks.len() == CHUNK_VOLUME {
            Some(Chunk { pos, blocks })
        } else {
            None
        }
    }

    /// A chunk at `pos` whose blocks are all `id`.
    pub fn filled(pos: ChunkPos, id: BlockId) -> (r: Chunk)
        ensures
            r.wf(),
            r.pos == pos,
            forall|i: int| 0 <= i < CHUNK_VOLUME ==> r.blocks@[i] == id,
    {
        let mut blocks: Vec<BlockId> = Vec::new();
        while blocks.len() < CHUNK_VOLUME
            invariant
                blocks@.len() <= CHUNK_VOLUME,
                forall|i: int| 0 <= i < blocks@.len() ==> blocks@[i] == id,
            decreases CHUNK_VOLUME - blocks@.len(),
        {
            blocks.push(id);
        }
        Chunk { pos, blocks }
    }

    /// The block at local coordinates `(x, y, z)`.
    pub fn get_block_at(&self, x: usize, y: usize, z: usize) -> (r: BlockId)
        requires
            self.wf(),
            x < CHUNK_SIZE && y < CHUNK_SIZE && z < CHUNK_SIZE,
        ensures
            r == self.block(x as int, y as int, z as int),
    {
        self.blocks[(x * CHUNK_SIZE + y) * CHUNK_SIZE + z]
    }
}

} // verus!
