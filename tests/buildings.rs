use francegen::buildings::{apply_pillars, pillar_tops, ChunkBounds, VoxelPoint, BUILDING_LAYER_INDEX};
use francegen::chunk_map::{assemble_chunks, ColumnRecord};
use francegen::slope::SlopeProfile;

#[test]
fn chunk_bounds() {
    let b = ChunkBounds::for_chunk(-1, 2);
    assert_eq!((b.min_x, b.max_x, b.min_z, b.max_z), (-16, -1, 32, 47));
    assert!(b.contains(-16, 47));
    assert!(!b.contains(0, 40));
    let e = b.expanded(2);
    assert_eq!((e.min_x, e.max_x, e.min_z, e.max_z), (-18, 1, 30, 49));
    assert_eq!(b.expanded(0), b);
    let edge = ChunkBounds::for_chunk(i32::MAX, 0);
    assert_eq!((edge.min_x, edge.max_x), (i32::MAX, i32::MAX));
}

#[test]
fn building_pillars() {
    let records = vec![
        ColumnRecord { x: 1, z: 1, height: 10, profile: SlopeProfile::empty(0) },
        ColumnRecord { x: 2, z: 1, height: 10, profile: SlopeProfile::empty(0) },
    ];
    let mut chunks = assemble_chunks(records, 0);
    let points = vec![
        VoxelPoint { x: 1, y: 14, z: 1 },
        VoxelPoint { x: 1, y: 19, z: 1 },
        VoxelPoint { x: 1, y: 12, z: 1 },
        VoxelPoint { x: 2, y: 9, z: 1 },
        VoxelPoint { x: 3, y: 30, z: 1 },
        VoxelPoint { x: 40, y: 30, z: 40 },
    ];
    let tops = pillar_tops(&points, &chunks);
    assert_eq!(tops.len(), 1);
    assert_eq!((tops[0].x, tops[0].z, tops[0].top, tops[0].surface), (1, 1, 19, 10));
    assert_eq!(apply_pillars(&tops, &mut chunks), 1);
    let o = chunks.get(0, 0).unwrap().overlay(1, 1).unwrap();
    assert_eq!(o.layer_index, BUILDING_LAYER_INDEX);
    assert_eq!(o.extrusion_height, Some(9));
    assert_eq!(o.extrusion_block.as_deref(), Some("minecraft:spruce_planks"));
    assert!(chunks.get(0, 0).unwrap().overlay(2, 1).is_none());
}
