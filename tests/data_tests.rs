use voxel_rs::block::{BlockMesh, BlockType, TextureRect};
use voxel_rs::data::{build_blocks, build_items, mesh_for, DataError};
use voxel_rs::item::ItemType;
use voxel_rs::registry::{Registry, RegistryError};

fn textures() -> (Registry<()>, Vec<TextureRect>) {
    let mut r = Registry::new();
    let mut rects = Vec::new();
    for (i, name) in ["dirt", "grass_top", "grass_side", "stone"].iter().enumerate() {
        assert_eq!(r.register(name.to_string(), ()), Ok(i as u32));
        rects.push(TextureRect { x: 16 * i as u32, y: 0, width: 16, height: 16 });
    }
    (r, rects)
}

fn cube(faces: &[&str]) -> BlockType {
    BlockType::NormalCube { face_texture: faces.iter().map(|s| s.to_string()).collect() }
}

#[test]
fn registry_ids_follow_registration_order() {
    let (r, _) = textures();
    assert_eq!(r.get_id_by_name(&"stone".to_string()), Some(3));
    assert_eq!(r.get_id_by_name(&"dirt".to_string()), Some(0));
    assert_eq!(r.get_id_by_name(&"sand".to_string()), None);
    assert_eq!(r.get_value_by_id(3), Some(&()));
    assert_eq!(r.get_value_by_id(4), None);
}

#[test]
fn registry_rejects_duplicate_name() {
    let (mut r, _) = textures();
    assert_eq!(r.register("dirt".to_string(), ()), Err(RegistryError::DuplicateName));
    assert_eq!(r.len(), 4);
}

#[test]
fn blocks_get_air_first_and_their_face_textures() {
    let (t, rects) = textures();
    let data = vec![
        ("grass".to_string(), cube(&["grass_side", "grass_side", "grass_top", "dirt", "grass_side", "grass_side"])),
        ("void".to_string(), BlockType::Air),
        ("stone".to_string(), cube(&["stone"; 6])),
    ];
    let (blocks, meshes) = build_blocks(data, &t, &rects).unwrap();
    assert_eq!(blocks.names, vec!["air", "grass", "void", "stone"]);
    assert!(matches!(blocks.values[0].block_type, BlockType::Air));
    assert_eq!(blocks.values[1].name, "grass");
    assert_eq!(meshes.len(), 4);
    assert!(matches!(meshes[0], BlockMesh::Empty));
    assert!(matches!(meshes[2], BlockMesh::Empty));
    match meshes[1] {
        BlockMesh::FullCube { texture } => {
            assert_eq!(texture[2], rects[1]);
            assert_eq!(texture[3], rects[0]);
            assert_eq!(texture[0], rects[2]);
        }
        BlockMesh::Empty => panic!("grass must be a cube"),
    }
    match meshes[3] {
        BlockMesh::FullCube { texture } => assert!(texture.iter().all(|t| *t == rects[3])),
        BlockMesh::Empty => panic!("stone must be a cube"),
    }
}

#[test]
fn block_named_air_is_a_duplicate() {
    let (t, rects) = textures();
    let data = vec![("air".to_string(), BlockType::Air)];
    assert_eq!(build_blocks(data, &t, &rects).err(), Some(DataError::DuplicateName));
}

#[test]
fn duplicate_block_is_rejected() {
    let (t, rects) = textures();
    let data = vec![("stone".to_string(), cube(&["stone"; 6])), ("stone".to_string(), cube(&["dirt"; 6]))];
    assert_eq!(build_blocks(data, &t, &rects).err(), Some(DataError::DuplicateName));
}

#[test]
fn unknown_face_texture_is_rejected() {
    let (t, rects) = textures();
    let data = vec![("glass".to_string(), cube(&["stone", "stone", "stone", "stone", "stone", "glass"]))];
    assert_eq!(build_blocks(data, &t, &rects).err(), Some(DataError::UnknownTexture));
}

#[test]
fn cube_needs_six_faces() {
    let (t, rects) = textures();
    assert_eq!(mesh_for(&t, &rects, &cube(&["stone"; 5])).err(), Some(DataError::MissingFaceTexture));
    assert!(matches!(mesh_for(&t, &rects, &BlockType::Air), Ok(BlockMesh::Empty)));
}

#[test]
fn items_are_registered_in_order() {
    let (t, _) = textures();
    let data = vec![
        ("pebble".to_string(), ItemType::NormalItem { texture: "stone".to_string() }),
        ("clod".to_string(), ItemType::NormalItem { texture: "dirt".to_string() }),
    ];
    let items = build_items(data, &t).unwrap();
    assert_eq!(items.names, vec!["pebble", "clod"]);
    assert_eq!(items.values[1].name, "clod");
}

#[test]
fn item_with_unknown_texture_is_rejected() {
    let (t, _) = textures();
    let data = vec![
        ("pebble".to_string(), ItemType::NormalItem { texture: "stone".to_string() }),
        ("pebble".to_string(), ItemType::NormalItem { texture: "gold".to_string() }),
    ];
    assert_eq!(build_items(data, &t).err(), Some(DataError::UnknownTexture));
}

#[test]
fn duplicate_item_is_rejected() {
    let (t, _) = textures();
    let data = vec![
        ("pebble".to_string(), ItemType::NormalItem { texture: "stone".to_string() }),
        ("pebble".to_string(), ItemType::NormalItem { texture: "dirt".to_string() }),
    ];
    assert_eq!(build_items(data, &t).err(), Some(DataError::DuplicateName));
}
