use voxel_core::world::WorldPos;
use voxel_core::world::block::BlockType;
use voxel_core::world::chunk::Chunk;
use voxel_core::world::scratch::ScratchMap;

/// A chunk whose grid has been wiped to all air.
fn empty_chunk() -> Chunk {
    let mut scratch = ScratchMap::new();
    let mut chunk = Chunk::new(WorldPos { x: 0, z: 0 }, &mut scratch).unwrap();
    for x in 0..16 {
        for z in 0..16 {
            for y in 0..256 {
                chunk.set_block(x, y, z, BlockType::Air);
            }
        }
    }
    chunk.update_mesh();
    chunk
}

#[test]
fn empty_grid_empty_mesh() {
    let chunk = empty_chunk();
    assert_eq!(chunk.mesh().vertices.len(), 0);
    assert_eq!(chunk.mesh().indices.len(), 0);
}

#[test]
fn isolated_block_six_faces() {
    let mut chunk = empty_chunk();
    chunk.set_block(8, 100, 8, BlockType::Stone);
    chunk.update_mesh();
    assert_eq!(chunk.mesh().vertices.len(), 24);
    assert_eq!(chunk.mesh().indices.len(), 36);
}

#[test]
fn adjacent_identical_share_no_face() {
    let mut chunk = empty_chunk();
    chunk.set_block(8, 100, 8, BlockType::Stone);
    chunk.set_block(8, 101, 8, BlockType::Stone);
    chunk.update_mesh();
    // two blocks, twelve faces, minus the shared face culled on both sides
    assert_eq!(chunk.mesh().vertices.len(), 40);
    assert_eq!(chunk.mesh().indices.len(), 60);
}

#[test]
fn lateral_pairs_share_no_face_either() {
    // the same count holds with the pair laid along either lateral axis
    let mut chunk = empty_chunk();
    chunk.set_block(8, 100, 8, BlockType::Stone);
    chunk.set_block(9, 100, 8, BlockType::Stone);
    chunk.update_mesh();
    assert_eq!(chunk.mesh().vertices.len(), 40);
    assert_eq!(chunk.mesh().indices.len(), 60);

    let mut chunk2 = empty_chunk();
    chunk2.set_block(8, 100, 8, BlockType::Stone);
    chunk2.set_block(8, 100, 9, BlockType::Stone);
    chunk2.update_mesh();
    assert_eq!(chunk2.mesh().vertices.len(), 40);
    assert_eq!(chunk2.mesh().indices.len(), 60);
}

#[test]
fn solid_against_water_still_drawn() {
    let mut chunk = empty_chunk();
    chunk.set_block(8, 100, 8, BlockType::Stone);
    chunk.set_block(8, 101, 8, BlockType::Water);
    chunk.update_mesh();
    // water is see-through: the stone's top face against it stays, and the
    // water block emits five faces of its own against the air; only the
    // water's bottom face against the solid stone is culled
    assert_eq!(chunk.mesh().vertices.len(), 44);
}

#[test]
fn bottom_world_boundary_culled() {
    let mut chunk = empty_chunk();
    chunk.set_block(8, 0, 8, BlockType::Stone);
    chunk.update_mesh();
    // five faces: the downward face at the bottom of the world is culled
    assert_eq!(chunk.mesh().vertices.len(), 20);
}

#[test]
fn lateral_chunk_boundary_emitted() {
    let mut chunk = empty_chunk();
    chunk.set_block(0, 100, 8, BlockType::Stone);
    chunk.update_mesh();
    // the face toward the unknown neighbouring chunk is still emitted
    assert_eq!(chunk.mesh().vertices.len(), 24);
}

#[test]
fn vertex_positions_of_single_face() {
    let mut chunk = empty_chunk();
    chunk.set_block(8, 100, 8, BlockType::Stone);
    chunk.update_mesh();
    // every vertex sits on a corner of the unit block at (8, 100, 8)
    for v in chunk.mesh().vertices.iter() {
        assert!(v.x == 8 || v.x == 9);
        assert!(v.y == 100 || v.y == 101);
        assert!(v.z == 8 || v.z == 9);
        assert!(!v.highlighted);
    }
    // index pattern: two triangles per quad over its four vertices
    let idx = &chunk.mesh().indices;
    assert_eq!(&idx[0..6], &[3, 2, 0, 3, 0, 1]);
}

#[test]
fn fresh_chunk_highlights_its_marker() {
    let mut scratch = ScratchMap::new();
    let chunk = Chunk::new(WorldPos { x: 0, z: 0 }, &mut scratch).unwrap();
    // a newly generated chunk marks the top face of its corner surface block
    assert!(chunk.mesh().vertices.iter().any(|v| v.highlighted));
}
