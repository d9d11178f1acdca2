use voxel_rs::block::{BlockMesh, TextureRect};
use voxel_rs::chunk::{Chunk, ChunkPos, CHUNK_SIZE, CHUNK_VOLUME};
use voxel_rs::greedy::{greedy_merge, Rect, MASK_LEN};
use voxel_rs::meshing::{greedy_meshing, AdjChunkOccl, ChunkMesh, Vertex};
use voxel_rs::world::World;

fn tex(i: u32) -> TextureRect {
    TextureRect { x: 16 * i, y: 0, width: 16, height: 16 }
}

fn meshes() -> Vec<BlockMesh> {
    vec![
        BlockMesh::Empty,
        BlockMesh::FullCube { texture: [tex(0), tex(1), tex(2), tex(3), tex(4), tex(5)] },
        BlockMesh::FullCube { texture: [tex(6), tex(6), tex(6), tex(6), tex(6), tex(6)] },
    ]
}

fn origin() -> ChunkPos {
    ChunkPos { px: 0, py: 0, pz: 0 }
}

fn idx(x: usize, y: usize, z: usize) -> usize {
    (x * CHUNK_SIZE + y) * CHUNK_SIZE + z
}

fn mesh(c: &Chunk, o: &AdjChunkOccl) -> ChunkMesh {
    let mut m = ChunkMesh::new();
    greedy_meshing(c, o, &meshes(), &mut m);
    m
}

fn pos(v: &Vertex) -> [i64; 3] {
    [v.x as i64, v.y as i64, v.z as i64]
}

fn normal_of(d: u8) -> [i64; 3] {
    match d {
        0 => [1, 0, 0],
        1 => [-1, 0, 0],
        2 => [0, 1, 0],
        3 => [0, -1, 0],
        4 => [0, 0, 1],
        _ => [0, 0, -1],
    }
}

fn winding(a: [i64; 3], b: [i64; 3], c: [i64; 3]) -> [i64; 3] {
    let u = [b[0] - a[0], b[1] - a[1], b[2] - a[2]];
    let v = [c[0] - a[0], c[1] - a[1], c[2] - a[2]];
    [u[1] * v[2] - u[2] * v[1], u[2] * v[0] - u[0] * v[2], u[0] * v[1] - u[1] * v[0]]
}

#[test]
fn remeshing_is_deterministic() {
    let mut blocks = vec![0u16; CHUNK_VOLUME];
    for x in 0..CHUNK_SIZE {
        for z in 0..CHUNK_SIZE {
            if (x * 7 + z * 3) % 5 < 2 {
                blocks[idx(x, (x + z) % 4, z)] = 1 + ((x + z) % 2) as u16;
            }
        }
    }
    let c = Chunk::new(origin(), blocks).unwrap();
    let o = AdjChunkOccl::unknown();
    let a = mesh(&c, &o);
    let mut b = ChunkMesh::new();
    b.vertices.push(a.vertices[0]);
    b.indices.push(7);
    greedy_meshing(&c, &o, &meshes(), &mut b);
    assert!(!a.vertices.is_empty());
    assert_eq!(a.vertices, b.vertices);
    assert_eq!(a.indices, b.indices);
}

#[test]
fn occluded_chunk_emits_no_quad() {
    let mut w = World::new();
    for (x, y, z) in [(0, 0, 0), (1, 0, 0), (-1, 0, 0), (0, 1, 0), (0, -1, 0), (0, 0, 1), (0, 0, -1)] {
        w.set_chunk(Chunk::filled(ChunkPos { px: x, py: y, pz: z }, 2));
    }
    let o = AdjChunkOccl::create_from_world(&w, origin(), &meshes());
    let m = mesh(w.get_chunk(origin()).unwrap(), &o);
    assert_eq!(m.vertices.len(), 0);
    assert_eq!(m.indices.len(), 0);
}

#[test]
fn solid_chunk_without_neighbors_shows_six_faces() {
    let c = Chunk::filled(origin(), 2);
    let m = mesh(&c, &AdjChunkOccl::unknown());
    assert_eq!(m.vertices.len(), 24);
    assert_eq!(m.indices.len(), 36);
}

#[test]
fn lone_block_emits_six_outward_quads() {
    let mut blocks = vec![0u16; CHUNK_VOLUME];
    blocks[idx(4, 5, 6)] = 1;
    let c = Chunk::new(origin(), blocks).unwrap();
    let m = mesh(&c, &AdjChunkOccl::unknown());
    assert_eq!(m.vertices.len(), 24);
    assert_eq!(m.indices, (0..6u32).flat_map(|q| [4 * q, 4 * q + 1, 4 * q + 2, 4 * q, 4 * q + 2, 4 * q + 3]).collect::<Vec<_>>());
    for q in 0..6 {
        let v = &m.vertices[4 * q..4 * q + 4];
        assert_eq!(v[0].normal as usize, q);
        assert_eq!(v[0].texture, tex(q as u32));
        let n = normal_of(v[0].normal);
        for (a, b, c) in [(0, 1, 2), (0, 2, 3)] {
            let w = winding(pos(&v[a]), pos(&v[b]), pos(&v[c]));
            assert!(w[0] * n[0] + w[1] * n[1] + w[2] * n[2] > 0);
        }
        for corner in v {
            assert!((4..=5).contains(&corner.x) && (5..=6).contains(&corner.y) && (6..=7).contains(&corner.z));
        }
    }
    // the +X face lies in the plane x = 5
    assert!(m.vertices[0..4].iter().all(|v| v.x == 5));
    assert!(m.vertices[4..8].iter().all(|v| v.x == 4));
}

#[test]
fn flat_layer_merges_into_one_quad_per_face() {
    let mut blocks = vec![0u16; CHUNK_VOLUME];
    for x in 0..CHUNK_SIZE {
        for z in 0..CHUNK_SIZE {
            blocks[idx(x, 0, z)] = 2;
        }
    }
    let c = Chunk::new(origin(), blocks).unwrap();
    let m = mesh(&c, &AdjChunkOccl::unknown());
    assert_eq!(m.vertices.len(), 24);
    // +Y quad spans the whole layer
    let top: Vec<&Vertex> = m.vertices.iter().filter(|v| v.normal == 2).collect();
    assert_eq!(top.len(), 4);
    assert!(top.iter().all(|v| v.y == 1));
    assert_eq!(top.iter().map(|v| v.u).max(), Some(32));
    assert_eq!(top.iter().map(|v| v.v).max(), Some(32));
}

#[test]
fn greedy_merge_uniform_mask_is_one_rect() {
    let mut mask = vec![5u16; MASK_LEN];
    let mut out = Vec::new();
    greedy_merge(&mut mask, &mut out);
    assert_eq!(out, vec![Rect { row: 0, col: 0, width: 32, height: 32, block: 5 }]);
    assert!(mask.iter().all(|&c| c == 0));
}

#[test]
fn greedy_merge_scans_row_major() {
    let mut mask = vec![0u16; MASK_LEN];
    // a 2x3 block of 1s at row 1, col 2; a single 2 at row 0 col 31; a run of 3s in row 1
    for r in 1..3 {
        for c in 2..5 {
            mask[r * 32 + c] = 1;
        }
    }
    mask[31] = 2;
    mask[32 + 10] = 3;
    mask[32 + 11] = 3;
    let mut out = vec![Rect { row: 9, col: 9, width: 1, height: 1, block: 9 }];
    greedy_merge(&mut mask, &mut out);
    assert_eq!(
        out,
        vec![
            Rect { row: 9, col: 9, width: 1, height: 1, block: 9 },
            Rect { row: 0, col: 31, width: 1, height: 1, block: 2 },
            Rect { row: 1, col: 2, width: 3, height: 2, block: 1 },
            Rect { row: 1, col: 10, width: 2, height: 1, block: 3 },
        ]
    );
}

#[test]
fn greedy_merge_empty_mask_gives_nothing() {
    let mut mask = vec![0u16; MASK_LEN];
    let mut out = Vec::new();
    greedy_merge(&mut mask, &mut out);
    assert!(out.is_empty());
}

#[test]
fn unknown_neighbor_face_is_drawn_known_solid_is_hidden() {
    let mut w = World::new();
    w.set_chunk(Chunk::filled(origin(), 2));
    w.set_chunk(Chunk::filled(ChunkPos { px: 1, py: 0, pz: 0 }, 2));
    let o = AdjChunkOccl::create_from_world(&w, origin(), &meshes());
    let m = mesh(w.get_chunk(origin()).unwrap(), &o);
    // +X face hidden by the known solid neighbour, five faces left
    assert_eq!(m.vertices.len(), 20);
    assert!(m.vertices.iter().all(|v| v.normal != 0));
}
