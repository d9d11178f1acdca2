use voxel_rs::chunk::{Chunk, ChunkPos};
use voxel_rs::physics::{sweep, Aabb, UNITS_PER_BLOCK};
use voxel_rs::world::World;

const U: i64 = UNITS_PER_BLOCK;

fn world_with_floor_chunk() -> World {
    // chunk (0, -1, 0) fully solid: every block with y < 0 and x, z in [0, 32) is solid
    let mut w = World::new();
    w.set_chunk(Chunk::filled(ChunkPos { px: 0, py: -1, pz: 0 }, 1));
    w
}

#[test]
fn falling_box_lands_flush_on_floor() {
    let w = world_with_floor_chunk();
    let b = Aabb::new([U, U / 2, U], [U * 8 / 10, U * 18 / 10, U * 8 / 10]);
    let r = sweep(&w, &b, 1, -3 * U);
    assert_eq!(r, -U / 2);
    assert_eq!(b.min[1] + r, 0);
}

#[test]
fn rising_box_stops_flush_under_ceiling() {
    let mut w = World::new();
    w.set_chunk(Chunk::filled(ChunkPos { px: 0, py: 1, pz: 0 }, 1));
    let b = Aabb::new([U, 28 * U + 100, U], [U, 2 * U, U]);
    let r = sweep(&w, &b, 1, 5 * U);
    // leading face at 30 U + 100 stops at 32 U
    assert_eq!(b.min[1] + b.size[1] + r, 32 * U);
}

#[test]
fn unobstructed_move_is_kept_whole() {
    let w = world_with_floor_chunk();
    let b = Aabb::new([U, U, U], [U, U, U]);
    assert_eq!(b.move_check_collision(&w, [3 * U + 7, 2 * U, -U / 2]), [3 * U + 7, 2 * U, -U / 2]);
}

#[test]
fn blocked_axis_still_slides_on_others() {
    let w = world_with_floor_chunk();
    let b = Aabb::new([U, 0, U], [U, U, U]);
    assert_eq!(b.move_check_collision(&w, [U / 3, -U, U / 4]), [U / 3, 0, U / 4]);
}

#[test]
fn unknown_chunk_does_not_block() {
    let w = World::new();
    let b = Aabb::new([0, 0, 0], [U, U, U]);
    assert_eq!(sweep(&w, &b, 0, -40 * U), -40 * U);
}

#[test]
fn zero_move_is_zero() {
    let w = world_with_floor_chunk();
    let b = Aabb::new([0, 0, 0], [U, U, U]);
    assert_eq!(sweep(&w, &b, 2, 0), 0);
}
