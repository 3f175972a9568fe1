use francegen::chunk::ChunkHeights;
use francegen::chunk_map::{assemble_chunks, ChunkMap, ColumnRecord};
use francegen::coords::ModelCoord;
use francegen::encode::{encode_chunk, HEIGHTMAP_BITS};
use francegen::meta::{locate, metadata_path, spawn_settings, WorldMetadata, DEFAULT_SPAWN_Y};
use francegen::overlay::{apply_overlay_slot, ColumnOverlay};
use francegen::packing::unpack_value;
use francegen::raster::{disk_offsets, line_radius, paint_cells, polygon_bounds, rasterize_line, segment_points};
use francegen::region::{plan_regions, ChunkJob};
use francegen::slope::{slope_profile_from_rings, SlopeProfile, SlopeSample, SlopeStats, SmoothingSettings};
use francegen::terrain::TerrainConfig;
use francegen::world::{ElevationSample, ModelBounds, WorldBuilder, WorldStats};

fn overlay(layer: i32, order: u32, biome: &str) -> ColumnOverlay {
    ColumnOverlay::new(layer, order, Some(biome.to_string()), None, None, None, None, None)
}

#[test]
fn overlay_ordering() {
    let mut slot = None;
    apply_overlay_slot(&mut slot, overlay(5, 1, "minecraft:desert"));
    apply_overlay_slot(&mut slot, overlay(5, 2, "minecraft:ocean"));
    assert_eq!(slot.as_ref().unwrap().biome_override().unwrap(), "minecraft:ocean");

    let mut slot = None;
    apply_overlay_slot(&mut slot, overlay(5, 1, "minecraft:desert"));
    apply_overlay_slot(&mut slot, overlay(4, 2, "minecraft:ocean"));
    assert_eq!(slot.as_ref().unwrap().biome_override().unwrap(), "minecraft:ocean");

    let mut slot = None;
    apply_overlay_slot(&mut slot, overlay(4, 2, "minecraft:ocean"));
    apply_overlay_slot(&mut slot, overlay(5, 1, "minecraft:desert"));
    assert_eq!(slot.as_ref().unwrap().biome_override().unwrap(), "minecraft:ocean");
}

#[test]
fn overlays_in_any_order_agree() {
    let set = [(3, 1, "a"), (3, 7, "b"), (-2, 0, "c"), (9, 4, "d"), (-2, 5, "e")];
    let orders: [[usize; 5]; 3] = [[0, 1, 2, 3, 4], [4, 3, 2, 1, 0], [2, 0, 4, 1, 3]];
    let mut results = Vec::new();
    for order in orders.iter() {
        let mut chunk = ChunkHeights::new(0);
        for &i in order.iter() {
            let (l, o, b) = set[i];
            chunk.apply_overlay(2, 3, overlay(l, o, b));
        }
        let o = chunk.overlay(2, 3).unwrap();
        results.push((o.layer_index, o.order, o.biome_override().unwrap()));
    }
    assert!(results.iter().all(|r| *r == (-2, 5, "e".to_string())));
}

#[test]
fn slope_profile_shape() {
    let rings = vec![
        vec![SlopeSample { angle: 30_000, weight: 1000 }, SlopeSample { angle: 10_000, weight: 1000 }],
        vec![],
        vec![SlopeSample { angle: 80_000, weight: 500 }],
    ];
    let p = slope_profile_from_rings(&rings);
    assert_eq!(p.stats.len(), 3);
    assert_eq!(p.stats[0], SlopeStats { max_angle: 30_000, weighted_average: 20_000 });
    assert_eq!(p.stats[1], SlopeStats { max_angle: 30_000, weighted_average: 20_000 });
    assert_eq!(p.stats[2], SlopeStats { max_angle: 80_000, weighted_average: 32_000 });
    for s in p.stats.iter() {
        assert!(s.weighted_average <= s.max_angle);
    }
    let settings = SmoothingSettings { smoothing_radius: 2, smoothing_factor: 500 };
    assert_eq!(p.evaluate(&settings), 25_000);
    let far = SmoothingSettings { smoothing_radius: 9, smoothing_factor: 2000 };
    assert_eq!(p.evaluate(&far), 32_000);
    assert_eq!(SlopeProfile::empty(0).evaluate(&settings), 0);
    assert_eq!(SlopeProfile::from_stats(vec![]).evaluate(&far), 0);
    assert_eq!(SlopeProfile::empty(3).stats.len(), 3);
}

#[test]
fn trivial_column_world() {
    let origin = ModelCoord { x_mm: 100_000, y_mm: 100_000 };
    let mut builder = WorldBuilder::new(None);
    builder.ingest_tile(origin, &vec![ElevationSample { coord: origin, elevation_mm: 10_000 }]);
    assert_eq!(builder.origin_coord(), Some(origin));
    assert_eq!(builder.sample_count(), 1);
    assert_eq!(builder.column_count(), 1);
    assert_eq!(builder.column(0, 0), Some(-2038));
    let stats = builder.stats().unwrap();
    assert_eq!((stats.min_x, stats.max_x, stats.width, stats.depth), (0, 0, 1, 1));
    let records = vec![ColumnRecord { x: 0, z: 0, height: -2038, profile: SlopeProfile::empty(0) }];
    let chunks = assemble_chunks(records, 0);
    assert_eq!(chunks.len(), 1);
    assert_eq!(chunks.keys[0], (0, 0));
    let chunk = chunks.get(0, 0).unwrap();
    assert_eq!(chunk.column(0, 0), Some(-2038));
    let data = encode_chunk(0, 0, chunk, &TerrainConfig::default_config()).unwrap();
    assert_eq!(unpack_value(&data.heightmap, HEIGHTMAP_BITS, 0), 11);
    let regions = plan_regions(&chunks.keys, 0);
    assert_eq!(regions.len(), 1);
    assert_eq!((regions[0].region_x, regions[0].region_z), (0, 0));
    assert_eq!(regions[0].jobs, vec![ChunkJob::filled(0, 0)]);
}

#[test]
fn ingest_keeps_first_origin_and_filters_bounds() {
    let mut builder = WorldBuilder::new(Some(ModelBounds { min_x_mm: 0, max_x_mm: 5_000, min_z_mm: 0, max_z_mm: 5_000 }));
    let o1 = ModelCoord { x_mm: 0, y_mm: 5_000 };
    builder.ingest_tile(o1, &vec![
        ElevationSample { coord: ModelCoord { x_mm: 1_000, y_mm: 4_000 }, elevation_mm: 3_000 },
        ElevationSample { coord: ModelCoord { x_mm: 9_000, y_mm: 4_000 }, elevation_mm: 7_000 },
        ElevationSample { coord: ModelCoord { x_mm: 1_000, y_mm: 4_000 }, elevation_mm: 4_000 },
    ]);
    builder.ingest_tile(ModelCoord { x_mm: 77_000, y_mm: 0 }, &vec![
        ElevationSample { coord: ModelCoord { x_mm: 2_000, y_mm: 2_000 }, elevation_mm: -1_000 },
    ]);
    assert_eq!(builder.origin_coord(), Some(o1));
    assert_eq!(builder.sample_count(), 3);
    assert_eq!(builder.column_count(), 2);
    assert_eq!(builder.column(1, 1), Some(-2044));
    assert_eq!(builder.column(2, 3), Some(-2048));
    assert_eq!(builder.column(9, 1), None);
    let s = builder.stats().unwrap();
    assert_eq!((s.min_x, s.max_x, s.min_z, s.max_z), (1, 2, 1, 3));
    assert_eq!((s.min_height_mm, s.max_height_mm), (-1_000, 4_000));
    assert_eq!((s.width, s.depth, s.center_x2, s.center_z2), (2, 3, 3, 4));
}

#[test]
fn stats_union_matches_all_samples() {
    let origin = ModelCoord { x_mm: 0, y_mm: 0 };
    let a = vec![
        ElevationSample { coord: ModelCoord { x_mm: 3_000, y_mm: -1_000 }, elevation_mm: 12_000 },
        ElevationSample { coord: ModelCoord { x_mm: -4_000, y_mm: 0 }, elevation_mm: 2_000 },
    ];
    let b = vec![ElevationSample { coord: ModelCoord { x_mm: 10_000, y_mm: -6_000 }, elevation_mm: -3_000 }];
    let mut wa = WorldBuilder::new(None);
    wa.ingest_tile(origin, &a);
    let mut wb = WorldBuilder::new(None);
    wb.ingest_tile(origin, &b);
    let mut all = WorldBuilder::new(None);
    all.ingest_tile(origin, &a);
    all.ingest_tile(origin, &b);
    let merged: WorldStats = wa.stats().unwrap().union(&wb.stats().unwrap());
    assert_eq!(merged, all.stats().unwrap());
    assert_eq!((merged.min_x, merged.max_x, merged.min_z, merged.max_z), (-4, 10, 0, 6));
    assert_eq!(merged.width, 15);
}

#[test]
fn region_bucketing_with_padding() {
    let keys = vec![(-2, 0), (1, 0)];
    let regions = plan_regions(&keys, 0);
    assert_eq!(regions.len(), 2);
    let total: usize = regions.iter().map(|r| r.jobs.len()).sum();
    assert_eq!(total, 2);
    let keys = vec![((-17i32).div_euclid(16), 0), (17i32.div_euclid(16), 0)];
    assert_eq!(keys, vec![(-2, 0), (1, 0)]);
    let padded = plan_regions(&vec![(0, 0)], 1);
    let jobs: Vec<ChunkJob> = padded.iter().flat_map(|r| r.jobs.iter().copied()).collect();
    assert_eq!(jobs.len(), 9);
    assert_eq!(jobs.iter().filter(|j| j.is_empty).count(), 8);
    assert!(jobs.contains(&ChunkJob::filled(0, 0)));
    assert!(jobs.contains(&ChunkJob::empty(-1, -1)));
    assert_eq!(padded.len(), 4);
}

fn map_with_chunks(keys: &[(i32, i32)]) -> ChunkMap {
    let mut records = Vec::new();
    for &(cx, cz) in keys {
        records.push(ColumnRecord { x: cx * 16, z: cz * 16, height: 0, profile: SlopeProfile::empty(0) });
    }
    assemble_chunks(records, 0)
}

#[test]
fn line_rasterization() {
    assert_eq!(line_radius(3_000), 2);
    assert_eq!(line_radius(500), 1);
    assert_eq!(line_radius(4_000), 2);
    assert_eq!(line_radius(4_001), 3);
    assert_eq!(disk_offsets(0), vec![(0, 0)]);
    assert_eq!(disk_offsets(1), vec![(0, -1), (-1, 0), (0, 0), (1, 0), (0, 1)]);
    assert_eq!(disk_offsets(2).len(), 13);
    let pts = segment_points(0, 0, 10, 0);
    assert_eq!(pts.len(), 11);
    assert_eq!(pts[3], (3, 0));
    assert_eq!(segment_points(0, 0, 3, 1), vec![(0, 0), (1, 0), (2, 1), (3, 1)]);
    let mut chunks = map_with_chunks(&[(0, 0), (0, -1)]);
    let line = ColumnOverlay::new(0, 0, None, Some("minecraft:gravel".to_string()), None, None, None, None);
    let painted = rasterize_line(&vec![(0, 0), (10, 0)], 3_000, &line, &mut chunks);
    assert!(painted > 0);
    for x in 0i32..=10 {
        for z in -1i32..=1 {
            let c = chunks.get(x.div_euclid(16), z.div_euclid(16)).unwrap();
            let o = c.overlay(x.rem_euclid(16) as usize, z.rem_euclid(16) as usize);
            assert!(o.is_some(), "({x}, {z}) not painted");
        }
    }
    let c = chunks.get(0, 0).unwrap();
    assert!(c.overlay(5, 5).is_none());
    assert_eq!(rasterize_line(&vec![(0, 0)], 3_000, &line, &mut chunks), 0);
}

#[test]
fn polygon_cells() {
    assert_eq!(polygon_bounds(&vec![(0, 0), (4, 0)]), None);
    assert_eq!(polygon_bounds(&vec![(0, 0), (4, -2), (1, 6)]), Some((0, 4, -2, 6)));
    let mut chunks = map_with_chunks(&[(0, 0)]);
    let ov = ColumnOverlay::new(1, 1, Some("minecraft:forest".to_string()), None, None, None, None, None);
    let painted = paint_cells(&vec![(1, 1), (2, 2), (-5, 3)], &ov, &mut chunks);
    assert_eq!(painted, 2);
    assert!(chunks.get(0, 0).unwrap().overlay(2, 2).is_some());
    assert!(!chunks.apply_overlay_column(100, 100, &ov));
}

#[test]
fn locate_round_trip() {
    let meta = WorldMetadata {
        origin_model_x_mm: 652_345_000,
        origin_model_z_mm: 6_862_100_000,
        min_x: -10,
        max_x: 10,
        min_z: -5,
        max_z: 5,
        min_height_mm: 0,
        max_height_mm: 100_000,
    };
    for (wx, wz) in [(0i32, 0i32), (17, -33), (-1, 1), (123456, -654321)] {
        let real_x = meta.origin_model_x_mm + wx as i64 * 1000;
        let real_z = meta.origin_model_z_mm - wz as i64 * 1000;
        let l = locate(&meta, real_x, real_z, Some(10_000));
        assert_eq!((l.block_x, l.block_z), (wx, wz));
        assert_eq!(l.block_y, Some(-2038));
    }
    let l = locate(&meta, meta.origin_model_x_mm - 17_000, meta.origin_model_z_mm, None);
    assert_eq!((l.block_x, l.chunk_x, l.in_chunk_x, l.block_y), (-17, -2, 15, None));
    let stats = meta.to_stats();
    assert_eq!((stats.width, stats.depth), (21, 11));
    let back = WorldMetadata::from_stats(meta.origin(), &stats);
    assert_eq!(back, meta);
}

#[test]
fn metadata_path_joins_directories() {
    assert_eq!(metadata_path(&"out".to_string(), true), "out/francegen_meta.json");
    assert_eq!(metadata_path(&"out/".to_string(), true), "out/francegen_meta.json");
    assert_eq!(metadata_path(&"meta.json".to_string(), false), "meta.json");
}

#[test]
fn spawn_above_world_centre() {
    let chunks = map_with_chunks(&[(0, 0)]);
    let stats = WorldStats { width: 1, depth: 1, min_height_mm: 0, max_height_mm: 0, min_x: 0, max_x: 0, min_z: 0, max_z: 0, center_x2: 0, center_z2: 0 };
    let s = spawn_settings(&stats, &chunks, "World".to_string());
    assert_eq!((s.spawn_x, s.spawn_y, s.spawn_z), (0, 0, 0));
    let far = WorldStats { center_x2: 1001, center_z2: -3, ..stats };
    let s = spawn_settings(&far, &chunks, "World".to_string());
    assert_eq!((s.spawn_x, s.spawn_y, s.spawn_z), (501, DEFAULT_SPAWN_Y, -2));
    assert_eq!(s.level_name, "World");
}
