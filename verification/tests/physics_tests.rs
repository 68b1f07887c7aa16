use voxel_core::physics::AABB;
use voxel_core::physics::RawEntity;
use voxel_core::vectors::MilliVec3;
use voxel_core::world::WorldPos;
use voxel_core::world::chunk::Chunk;
use voxel_core::world::generation::sample_elevation;
use voxel_core::world::scratch::ScratchMap;
use voxel_core::world::store::ChunkStore;

fn player_box() -> AABB {
    AABB::new(600, 1800, 600, MilliVec3 { x: 300, y: 1600, z: 300 }).unwrap()
}

#[test]
fn aabb_rejects_origin_outside() {
    assert!(AABB::new(600, 1800, 600, MilliVec3 { x: 700, y: 0, z: 0 }).is_none());
    assert!(AABB::new(600, 1800, 600, MilliVec3 { x: 0, y: -1, z: 0 }).is_none());
    assert!(AABB::new(-5, 10, 10, MilliVec3 { x: 0, y: 0, z: 0 }).is_none());
    assert!(AABB::new(600, 1800, 600, MilliVec3 { x: 300, y: 1600, z: 300 }).is_some());
}

#[test]
fn aabb_bounds_offset_from_position() {
    let b = player_box();
    let (min, max) = b.get_bounds(MilliVec3 { x: 10_000, y: 70_000, z: -4_000 });
    assert_eq!(min, MilliVec3 { x: 9_700, y: 68_400, z: -4_300 });
    assert_eq!(max, MilliVec3 { x: 10_300, y: 70_200, z: -3_700 });
}

#[test]
fn falling_entity_comes_to_rest_on_block_top() {
    let mut store = ChunkStore::new();
    let mut scratch = ScratchMap::new();
    store.insert(Chunk::new(WorldPos { x: 0, z: 0 }, &mut scratch).unwrap());

    let e = sample_elevation(8, 8) as i64;
    // two and a half blocks above the surface top, centred in column (8, 8)
    let start_y = (e + 1) * 1000 + 2500;
    let mut body = RawEntity::new(MilliVec3 { x: 8500, y: start_y, z: 8500 }, player_box());
    body.set_acceleration(MilliVec3 { x: 0, y: -30000, z: 0 });

    let mut landed = false;
    for _ in 0..600 {
        body.tick(&store);
        if body.get_velocity().y == 0 {
            landed = true;
            break;
        }
    }
    assert!(landed, "the body never came to rest");
    // vertical velocity is exactly zero and the resolved height is the top
    // of the block beneath plus the box's origin offset
    assert_eq!(body.get_velocity().y, 0);
    assert_eq!(body.get_precise_pos().y, (e + 1) * 1000 + 1600);
    // lateral position is untouched by a pure vertical fall
    assert_eq!(body.get_precise_pos().x, 8500);
    assert_eq!(body.get_precise_pos().z, 8500);
}

#[test]
fn free_fall_integrates_gravity() {
    let store = ChunkStore::new();
    let mut body = RawEntity::new(MilliVec3 { x: 0, y: 200_000, z: 0 }, player_box());
    body.set_acceleration(MilliVec3 { x: 0, y: -30000, z: 0 });
    body.tick(&store);
    // one tick: velocity -30000/60 = -500, position falls by -500/60 = -8
    assert_eq!(body.get_velocity().y, -500);
    assert_eq!(body.get_precise_pos().y, 200_000 - 8);
    body.tick(&store);
    assert_eq!(body.get_velocity().y, -1000);
    assert_eq!(body.get_precise_pos().y, 200_000 - 8 - 16);
}

#[test]
fn world_pos_floors_and_clamps() {
    let mut body = RawEntity::new(
        MilliVec3 { x: -1500, y: 70_500, z: 999 }, player_box());
    let p = body.get_world_pos();
    assert_eq!(p.x, -2);
    assert_eq!(p.y, 70);
    assert_eq!(p.z, 0);
    body.set_pos(MilliVec3 { x: 0, y: -5000, z: 0 });
    assert_eq!(body.get_world_pos().y, 0);
}
