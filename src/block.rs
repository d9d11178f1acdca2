//! Block types and the per-block mesh descriptors used by the mesher.
use vstd::prelude::*;

verus! {

/// Identifier of a block type; 0 is air.
pub type BlockId = u16;

/// The identifier reserved for air.
pub const AIR: BlockId = 0;

/// How a block is described in the game data.
#[derive(Debug, Clone)]
pub enum BlockType {
    Air,
    NormalCube { face_texture: Vec<String> },
}

/// A registered block.
#[derive(Debug, Clone)]
pub struct Block {
    pub name: String,
    pub block_type: BlockType,
}

/// A rectangle of the texture atlas, in atlas pixels.
#[derive(Clone, Copy, Debug, PartialEq, Eq, Structural)]
pub struct TextureRect {
    pub x: u32,
    pub y: u32,
    pub width: u32,
    pub height: u32,
}

/// What a block contributes to the geometry of a chunk.
#[derive(Clone, Copy, Debug)]
pub enum BlockMesh {
    Empty,
    /// One texture rectangle per face, in face-direction order.
    FullCube { texture: [TextureRect; 6] },
}

impl BlockMesh {
    pub open spec fn opaque(self) -> bool {
        self is FullCube
    }

    pub fn is_opaque(&self) -> (r: bool)
        ensures
            r == self.opaque(),
    {
        match self {
            BlockMesh::Empty => false,
            BlockMesh::FullCube { .. } => true,
        }
    }
}

/// A registry of block meshes is well formed when air is registered and empty.
pub open spec fn meshes_wf(meshes: Seq<BlockMesh>) -> bool {
    &&& meshes.len() > 0
    &&& meshes[0] is Empty
    &&& meshes.len() <= 0x10000
}

/// Whether block `id` is opaque under `meshes`; unregistered ids are not.
pub open spec fn opaque_id(meshes: Seq<BlockMesh>, id: BlockId) -> bool {
    (id as int) < meshes.len() && meshes[id as int].opaque()
}

/// Looks up whether block `id` is opaque.
pub fn is_block_opaque(meshes: &Vec<BlockMesh>, id: BlockId) -> (r: bool)
    ensures
        r == opaque_id(meshes@, id),
{
    if (id as usize) < meshes.len() {
        meshes[id as usize].is_opaque()
    } else {
        false
    }
}

} // verus!
