//! Item types and their meshes.
use vstd::prelude::*;

verus! {

pub type ItemId = u32;

/// How an item is described in the game data.
#[derive(Debug, Clone)]
pub enum ItemType {
    NormalItem { texture: String },
}

/// A registered item.
#[derive(Debug, Clone)]
pub struct Item {
    pub name: String,
    pub ty: ItemType,
}

/// The voxel model of an item, by its size in voxels; the renderer scales
/// it by one over its larger side in X and Y and centres it on half its size.
#[derive(Debug, Clone, Copy)]
pub enum ItemMesh {
    SimpleMesh { mesh_id: u32, size_x: u32, size_y: u32, size_z: u32 },
}

} // verus!
