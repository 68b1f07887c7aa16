use voxel_core::world::WorldPos;
use voxel_core::world::block::BlockType;
use voxel_core::world::chunk::Chunk;
use voxel_core::world::chunk::ChunkError;
use voxel_core::world::chunk::cords_to_chunk;
use voxel_core::world::chunk::cords_to_local;
use voxel_core::world::generation::sample_elevation;
use voxel_core::world::generation::sample_tree;
use voxel_core::world::scratch::ScratchMap;

#[test]
fn cords_to_chunk_floors() {
    let c = cords_to_chunk(WorldPos { x: 17, z: -1 });
    assert_eq!(c.x, 16);
    assert_eq!(c.z, -16);
    let c2 = cords_to_chunk(WorldPos { x: -16, z: 31 });
    assert_eq!(c2.x, -16);
    assert_eq!(c2.z, 16);
}

#[test]
fn cords_to_local_wraps() {
    let l = cords_to_local(WorldPos { x: 17, z: -1 });
    assert_eq!(l, (1, 15));
    let l2 = cords_to_local(WorldPos { x: -16, z: 31 });
    assert_eq!(l2, (0, 15));
}

#[test]
fn chunk_misaligned_origin_errors() {
    let mut scratch = ScratchMap::new();
    let r = Chunk::new(WorldPos { x: 1, z: 0 }, &mut scratch);
    assert!(matches!(r, Err(ChunkError::MisalignedOrigin)));
    let r2 = Chunk::new(WorldPos { x: 0, z: -3 }, &mut scratch);
    assert!(matches!(r2, Err(ChunkError::MisalignedOrigin)));
}

#[test]
fn chunk_terrain_layers() {
    let mut scratch = ScratchMap::new();
    let chunk = Chunk::new(WorldPos { x: 0, z: 0 }, &mut scratch).unwrap();
    for lx in [0usize, 7, 15] {
        for lz in [0usize, 9, 15] {
            let e = sample_elevation(lx as i64, lz as i64) as usize;
            // bedrock level is deep stone
            assert_eq!(chunk.block(lx, 0, lz), BlockType::Stone);
            assert_eq!(chunk.block(lx, e - 4, lz), BlockType::Stone);
            // the three cells below the surface are dirt
            assert_eq!(chunk.block(lx, e - 1, lz), BlockType::Dirt);
            // the surface cell is sand at or below sea level, grass above
            let surface = chunk.block(lx, e, lz);
            if e <= 64 {
                assert_eq!(surface, BlockType::Sand);
            } else {
                assert_eq!(surface, BlockType::Grass);
            }
            // water floods from the surface up to sea level
            if e < 64 {
                assert_eq!(chunk.block(lx, e + 1, lz), BlockType::Water);
                assert_eq!(chunk.block(lx, 64, lz), BlockType::Water);
            }
            // high sky is air
            assert_eq!(chunk.block(lx, 250, lz), BlockType::Air);
        }
    }
}

/// Finds a tree column whose canopy spills over its chunk's +x boundary
/// while staying inside the chunk on the z axis.
fn find_edge_tree() -> (i64, i64) {
    for z in 0i64..4000 {
        if z.rem_euclid(16) < 3 || z.rem_euclid(16) > 12 {
            continue;
        }
        for cx in 0i64..40 {
            let x = cx * 16 + 15;
            if sample_tree(x, z) && sample_elevation(x, z) >= 64 {
                return (x, z);
            }
        }
    }
    panic!("no edge tree found in the search region");
}

#[test]
fn scratch_spill_applied_to_neighbor() {
    let (x, z) = find_edge_tree();
    let e = sample_elevation(x, z) as usize;
    let c1_origin = cords_to_chunk(WorldPos { x, z });
    let mut scratch = ScratchMap::new();
    let c1 = Chunk::new(c1_origin, &mut scratch).unwrap();
    // the trunk stands in its own chunk
    assert_eq!(c1.block(15, e + 1, (z - c1_origin.z) as usize), BlockType::Log);
    // the canopy spilled over the boundary into the scratch map
    assert!(scratch.len() > 0);

    // the neighbour chunk, generated later, claims the pending leaves
    let c2_origin = WorldPos { x: c1_origin.x + 16, z: c1_origin.z };
    let c2 = Chunk::new(c2_origin, &mut scratch).unwrap();
    let lz = (z - c2_origin.z) as usize;
    assert_eq!(c2.block(0, e + 6, lz), BlockType::Leaves);
    // and its freshly built mesh is consistent with the grid: leaves sit in
    // open air, so their cells contribute faces
    assert!(c2.mesh().vertices.len() > 0);
}

#[test]
fn set_block_then_update_mesh() {
    let mut scratch = ScratchMap::new();
    let mut chunk = Chunk::new(WorldPos { x: 0, z: 0 }, &mut scratch).unwrap();
    let before = chunk.mesh().vertices.len();
    // carve a hole in the surface: the mesh is stale until updated
    let e = sample_elevation(3, 3) as usize;
    chunk.set_block(3, e, 3, BlockType::Air);
    assert_eq!(chunk.mesh().vertices.len(), before);
    chunk.update_mesh();
    assert_ne!(chunk.mesh().vertices.len(), before);
}
