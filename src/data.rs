//! The static game data, and building its block and item registries
//! from parsed descriptions.
use vstd::prelude::*;
use vstd::string::StringExecFns;
use crate::block::{Block, BlockMesh, BlockType, TextureRect};
use crate::item::{Item, ItemMesh, ItemType};
use crate::registry::Registry;

verus! {

/// A square RGBA texture atlas, row by row, four bytes per pixel.
pub struct Atlas {
    pub size: u32,
    pub pixels: Vec<u8>,
}

/// The static game data the server sends once, at the start of a session.
pub struct Data {
    pub blocks: Vec<Block>,
    pub meshes: Vec<BlockMesh>,
    pub texture_atlas: Atlas,
    pub items: Vec<Item>,
    pub item_meshes: Vec<ItemMesh>,
}

#[derive(Debug, Clone, Copy, PartialEq, Eq, Structural)]
pub enum DataError {
    /// Two blocks, or two items, share a name.
    DuplicateName,
    /// A face or an item names a texture that is not loaded.
    UnknownTexture,
    /// A cube lists fewer than six face textures.
    MissingFaceTexture,
}

/// Whether texture `name` is the texture of rank `j`, whose rectangle is `t`.
pub open spec fn texture_is(tex: Seq<Seq<char>>, rects: Seq<TextureRect>, name: Seq<char>, t: TextureRect) -> bool {
    exists|j: int| 0 <= j < tex.len() && tex[j] == name && rects[j] == t
}

/// `mesh` is the mesh of block type `bt`: empty for air, a cube whose six
/// faces show the named textures.
pub open spec fn mesh_of(tex: Seq<Seq<char>>, rects: Seq<TextureRect>, bt: BlockType, mesh: BlockMesh) -> bool {
    match bt {
        BlockType::Air => mesh is Empty,
        BlockType::NormalCube { face_texture } => match mesh {
            BlockMesh::FullCube { texture } => forall|f: int|
                0 <= f < 6 ==> #[trigger] texture_is(tex, rects, face_texture@[f]@, texture@[f]),
            BlockMesh::Empty => false,
        },
    }
}

/// Why block type `bt` has no mesh, if it has none.
pub open spec fn type_error(tex: Seq<Seq<char>>, bt: BlockType) -> Option<DataError> {
    match bt {
        BlockType::Air => None,
        BlockType::NormalCube { face_texture } => if face_texture@.len() < 6 {
            Some(DataError::MissingFaceTexture)
        } else if exists|f: int| 0 <= f < 6 && !tex.contains(#[trigger] face_texture@[f]@) {
            Some(DataError::UnknownTexture)
        } else {
            None
        },
    }
}

/// Names registered before entry `n`: air, then the earlier entries.
pub open spec fn names_before(data: Seq<(String, BlockType)>, n: int) -> Seq<Seq<char>> {
    seq!["air"@] + Seq::new(n as nat, |i: int| data[i].0@)
}

/// Why entry `n` of the block data is rejected, if it is.
pub open spec fn entry_error(tex: Seq<Seq<char>>, data: Seq<(String, BlockType)>, n: int) -> Option<DataError> {
    if names_before(data, n).contains(data[n].0@) {
        Some(DataError::DuplicateName)
    } else {
        type_error(tex, data[n].1)
    }
}

fn face_rect(textures: &Registry<()>, rects: &Vec<TextureRect>, name: &String) -> (r: Option<TextureRect>)
    requires
        textures.wf(),
        rects@.len() == textures.names@.len(),
    ensures
        r is Some <==> textures.names_view().contains(name@),
        r matches Some(t) ==> texture_is(textures.names_view(), rects@, name@, t),
{
    match textures.get_id_by_name(name) {
        Some(id) => Some(rects[id as usize]),
        None => None,
    }
}

/// The mesh of block type `bt`, its textures looked up by name.
pub fn mesh_for(textures: &Registry<()>, rects: &Vec<TextureRect>, bt: &BlockType) -> (r: Result<BlockMesh, DataError>)
    requires
        textures.wf(),
        rects@.len() == textures.names@.len(),
    ensures
        r matches Err(e) ==> type_error(textures.names_view(), *bt) == Some(e),
        r matches Ok(m) ==> type_error(textures.names_view(), *bt) is None && mesh_of(textures.names_view(), rects@, *bt, m),
        r is Ok <==> type_error(textures.names_view(), *bt) is None,
{
    match bt {
        BlockType::Air => Ok(BlockMesh::Empty),
        BlockType::NormalCube { face_texture } => {
            if face_texture.len() < 6 {
                return Err(DataError::MissingFaceTexture);
            }
            let ghost tex = textures.names_view();
            let t0 = face_rect(textures, rects, &face_texture[0]);
            let t1 = face_rect(textures, rects, &face_texture[1]);
            let t2 = face_rect(textures, rects, &face_texture[2]);
            let t3 = face_rect(textures, rects, &face_texture[3]);
            let t4 = face_rect(textures, rects, &face_texture[4]);
            let t5 = face_rect(textures, rects, &face_texture[5]);
            match (t0, t1, t2, t3, t4, t5) {
                (Some(a), Some(b), Some(c), Some(d), Some(e), Some(f)) => {
                    let texture = [a, b, c, d, e, f];
                    let m = BlockMesh::FullCube { texture };
                    assert forall|k: int| 0 <= k < 6 && !tex.contains(#[trigger] face_texture@[k]@) implies false by {
                        if k == 0 {} else if k == 1 {} else if k == 2 {} else if k == 3 {} else if k == 4 {} else {}
                    }
                    assert forall|k: int| 0 <= k < 6 implies #[trigger] texture_is(tex, rects@, face_texture@[k]@, texture@[k]) by {
                        if k == 0 {} else if k == 1 {} else if k == 2 {} else if k == 3 {} else if k == 4 {} else {}
                    }
                    Ok(m)
                },
                _ => {
                    proof {
                        if t0 is None {
                            assert(!tex.contains(face_texture@[0]@));
                        } else if t1 is None {
                            assert(!tex.contains(face_texture@[1]@));
                        } else if t2 is None {
                            assert(!tex.contains(face_texture@[2]@));
                        } else if t3 is None {
                            assert(!tex.contains(face_texture@[3]@));
                        } else if t4 is None {
                            assert(!tex.contains(face_texture@[4]@));
                        } else {
                            assert(!tex.contains(face_texture@[5]@));
                        }
                    }
                    Err(DataError::UnknownTexture)
                },
            }
        },
    }
}

/// Registers air, then each block of `block_data` in order, with its mesh.
/// Fails at the first entry whose name is taken or whose type has no mesh.
pub fn build_blocks(
    block_data: Vec<(String, BlockType)>,
    textures: &Registry<()>,
    rects: &Vec<TextureRect>,
) -> (r: Result<(Registry<Block>, Vec<BlockMesh>), DataError>)
    requires
        textures.wf(),
        rects@.len() == textures.names@.len(),
        block_data@.len() < u32::MAX,
    ensures
        r is Ok <==> forall|n: int| 0 <= n < block_data@.len() ==> (#[trigger] entry_error(textures.names_view(), block_data@, n)) is None,
        r matches Err(e) ==> exists|n: int| 0 <= n < block_data@.len()
            && (forall|i: int| 0 <= i < n ==> (#[trigger] entry_error(textures.names_view(), block_data@, i)) is None)
            && entry_error(textures.names_view(), block_data@, n) == Some(e),
        r matches Ok((blocks, meshes)) ==> {
            &&& blocks.wf()
            &&& blocks.names_view() == names_before(block_data@, block_data@.len() as int)
            &&& blocks.values@.len() == block_data@.len() + 1
            &&& blocks.values@[0].name@ == "air"@ && blocks.values@[0].block_type is Air
            &&& forall|n: int| 0 <= n < block_data@.len() ==> #[trigger] blocks.values@[n + 1]
                == (Block { name: block_data@[n].0, block_type: block_data@[n].1 })
            &&& meshes@.len() == block_data@.len() + 1
            &&& meshes@[0] is Empty
            &&& forall|n: int| 0 <= n < block_data@.len() ==> mesh_of(textures.names_view(), rects@, block_data@[n].1, #[trigger] meshes@[n + 1])
        },
{
    let ghost data = block_data@;
    let ghost tex = textures.names_view();
    let mut rest = block_data;
    let mut blocks: Registry<Block> = Registry::new();
    let mut meshes: Vec<BlockMesh> = Vec::new();
    let air = String::from_str("air");
    let air_block = Block { name: air.clone(), block_type: BlockType::Air };
    assert(!blocks.names_view().contains(air@));
    match blocks.register(air, air_block) {
        Ok(_) => {},
        Err(_) => {
            return Err(DataError::DuplicateName);
        },
    }
    meshes.push(BlockMesh::Empty);
    assert(blocks.names_view() =~= names_before(data, 0));
    let mut n: usize = 0;
    while rest.len() > 0
        invariant
            n <= data.len(),
            data.len() < u32::MAX,
            rest@ == data.skip(n as int),
            data == block_data@,
            textures.wf(),
            rects@.len() == textures.names@.len(),
            tex == textures.names_view(),
            blocks.wf(),
            blocks.names_view() == names_before(data, n as int),
            blocks.values@.len() == n + 1,
            blocks.values@[0].name@ == "air"@ && blocks.values@[0].block_type is Air,
            forall|i: int| 0 <= i < n ==> #[trigger] blocks.values@[i + 1] == (Block { name: data[i].0, block_type: data[i].1 }),
            meshes@.len() == n + 1,
            meshes@[0] is Empty,
            forall|i: int| 0 <= i < n ==> mesh_of(tex, rects@, data[i].1, #[trigger] meshes@[i + 1]),
            forall|i: int| 0 <= i < n ==> (#[trigger] entry_error(tex, data, i)) is None,
        decreases rest@.len(),
    {
        assert(data.skip(n as int)[0] == data[n as int]);
        let (name, bt) = rest.remove(0);
        assert(rest@ =~= data.skip(n + 1));
        let mesh = match mesh_for(textures, rects, &bt) {
            Ok(m) => m,
            Err(e) => {
                match blocks.get_id_by_name(&name) {
                    Some(id) => {
                        assert(blocks.names_view()[id as int] == name@);
                        assert(entry_error(tex, data, n as int) == Some(DataError::DuplicateName));
                        return Err(DataError::DuplicateName);
                    },
                    None => {
                        assert(entry_error(tex, data, n as int) == Some(e));
                        return Err(e);
                    },
                }
            },
        };
        let block = Block { name: name.clone(), block_type: bt };
        let ghost nm = name@;
        match blocks.register(name, block) {
            Ok(_) => {},
            Err(_) => {
                assert(names_before(data, n as int).contains(nm));
                assert(entry_error(tex, data, n as int) == Some(DataError::DuplicateName));
                return Err(DataError::DuplicateName);
            },
        }
        meshes.push(mesh);
        proof {
            assert(names_before(data, n + 1) =~= names_before(data, n as int).push(data[n as int].0@));
            assert forall|i: int| 0 <= i < n + 1 implies (#[trigger] entry_error(tex, data, i)) is None by {
                if i < n {
                } else {
                }
            }
        }
        n += 1;
    }
    assert(data.skip(n as int).len() == 0);
    Ok((blocks, meshes))
}

/// Why entry `n` of the item data is rejected, if it is.
pub open spec fn item_error(tex: Seq<Seq<char>>, data: Seq<(String, ItemType)>, n: int) -> Option<DataError> {
    let ItemType::NormalItem { texture } = data[n].1;
    if !tex.contains(texture@) {
        Some(DataError::UnknownTexture)
    } else if Seq::new(n as nat, |i: int| data[i].0@).contains(data[n].0@) {
        Some(DataError::DuplicateName)
    } else {
        None
    }
}

/// Registers each item of `item_data` in order. Fails at the first entry
/// whose texture is not loaded or whose name is taken.
pub fn build_items(item_data: Vec<(String, ItemType)>, textures: &Registry<()>) -> (r: Result<Registry<Item>, DataError>)
    requires
        textures.wf(),
        item_data@.len() < u32::MAX,
    ensures
        r is Ok <==> forall|n: int| 0 <= n < item_data@.len() ==> (#[trigger] item_error(textures.names_view(), item_data@, n)) is None,
        r matches Err(e) ==> exists|n: int| 0 <= n < item_data@.len()
            && (forall|i: int| 0 <= i < n ==> (#[trigger] item_error(textures.names_view(), item_data@, i)) is None)
            && item_error(textures.names_view(), item_data@, n) == Some(e),
        r matches Ok(items) ==> items.wf() && items.values@.len() == item_data@.len()
            && forall|n: int| 0 <= n < item_data@.len() ==> #[trigger] items.values@[n]
                == (Item { name: item_data@[n].0, ty: item_data@[n].1 }),
{
    let ghost data = item_data@;
    let ghost tex = textures.names_view();
    let mut rest = item_data;
    let mut items: Registry<Item> = Registry::new();
    let mut n: usize = 0;
    assert(items.names_view() =~= Seq::new(0, |i: int| data[i].0@));
    while rest.len() > 0
        invariant
            n <= data.len(),
            data.len() < u32::MAX,
            rest@ == data.skip(n as int),
            data == item_data@,
            textures.wf(),
            tex == textures.names_view(),
            items.wf(),
            items.names_view() == Seq::new(n as nat, |i: int| data[i].0@),
            items.values@.len() == n,
            forall|i: int| 0 <= i < n ==> #[trigger] items.values@[i] == (Item { name: data[i].0, ty: data[i].1 }),
            forall|i: int| 0 <= i < n ==> (#[trigger] item_error(tex, data, i)) is None,
        decreases rest@.len(),
    {
        assert(data.skip(n as int)[0] == data[n as int]);
        let (name, ty) = rest.remove(0);
        assert(rest@ =~= data.skip(n + 1));
        let known = match &ty {
            ItemType::NormalItem { texture } => textures.get_id_by_name(texture).is_some(),
        };
        if !known {
            assert(item_error(tex, data, n as int) == Some(DataError::UnknownTexture));
            return Err(DataError::UnknownTexture);
        }
        let ghost nm = name@;
        let item = Item { name: name.clone(), ty };
        match items.register(name, item) {
            Ok(_) => {},
            Err(_) => {
                assert(item_error(tex, data, n as int) == Some(DataError::DuplicateName));
                return Err(DataError::DuplicateName);
            },
        }
        proof {
            assert(Seq::new((n + 1) as nat, |i: int| data[i].0@) =~= Seq::new(n as nat, |i: int| data[i].0@).push(nm));
        }
        n += 1;
    }
    assert(data.skip(n as int).len() == 0);
    Ok(items)
}

} // verus!
