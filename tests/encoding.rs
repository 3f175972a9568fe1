use francegen::chunk::ChunkHeights;
use francegen::coords::{
    chunk_coord, dem_to_minecraft, local_coord, model_to_world, region_coord, region_slot, ModelCoord,
    BEDROCK_Y, MAX_WORLD_Y,
};
use francegen::encode::{build_heightmap, encode_chunk, encode_empty_chunk, HEIGHTMAP_BITS};
use francegen::packing::{bits_for_range, pack_palette_indices, pack_unsigned, unpack_value};
use francegen::section::{biome_index, build_section, BlockId, ColumnSettings};
use francegen::slope::{SlopeProfile, SlopeStats};
use francegen::terrain::{CliffConfig, TerrainConfig};

#[test]
fn bits_for_range_boundaries() {
    assert_eq!(bits_for_range(0), 1);
    assert_eq!(bits_for_range(1), 1);
    assert_eq!(bits_for_range(2), 1);
    assert_eq!(bits_for_range(3), 2);
    assert_eq!(bits_for_range(16), 4);
    assert_eq!(bits_for_range(17), 5);
    assert_eq!(bits_for_range(4081), 12);
}

#[test]
fn pack_then_unpack_round_trips() {
    for bits in 1..=32usize {
        let max = if bits == 64 { u64::MAX } else { (1u64 << bits) - 1 };
        let values: Vec<u64> = (0..100u64).map(|i| (i * 2654435761) & max).collect();
        let words = pack_unsigned(&values, bits);
        let per_long = 64 / bits;
        assert_eq!(words.len(), (values.len() + per_long - 1) / per_long);
        for (k, v) in values.iter().enumerate() {
            assert_eq!(unpack_value(&words, bits, k), *v);
            assert!((k % per_long) * bits + bits <= 64);
        }
    }
}

#[test]
fn pack_unsigned_lays_values_lsb_first() {
    let words = pack_unsigned(&vec![1, 2, 3], 4);
    assert_eq!(words, vec![0x321]);
    let words = pack_unsigned(&vec![7; 17], 4);
    assert_eq!(words.len(), 2);
    assert_eq!(words[0], 0x7777_7777_7777_7777);
    assert_eq!(words[1], 7);
    let words = pack_unsigned(&vec![0x1f], 4);
    assert_eq!(words, vec![0xf]);
}

#[test]
fn single_entry_palette_has_no_data() {
    assert_eq!(pack_palette_indices(&vec![0u16; 4096], 1, 4), None);
    assert_eq!(pack_palette_indices(&vec![0u16; 64], 0, 1), None);
    let data = pack_palette_indices(&vec![1u16, 0, 1], 2, 4).unwrap();
    assert_eq!(data, vec![0x101]);
    let data = pack_palette_indices(&vec![1u16, 0, 1], 2, 1).unwrap();
    assert_eq!(data, vec![0b101]);
}

#[test]
fn world_mapping_origin_and_sea_level() {
    let o = ModelCoord { x_mm: 652_000_123, y_mm: 6_862_000_456 };
    assert_eq!(model_to_world(&o, &o), (0, 0));
    assert_eq!(dem_to_minecraft(0), BEDROCK_Y);
}

#[test]
fn bounds_clipping() {
    // BEDROCK_Y + 3000 m stays inside the world; the top is reached from 4079 m up
    assert_eq!(dem_to_minecraft(3_000_000), 952);
    assert_eq!(dem_to_minecraft(4_079_000), MAX_WORLD_Y);
    assert_eq!(dem_to_minecraft(6_000_000), MAX_WORLD_Y);
    assert_eq!(dem_to_minecraft(-5_000), BEDROCK_Y);
    assert_eq!(dem_to_minecraft(10_000), -2038);
    assert_eq!(dem_to_minecraft(10_500), -2038);
    assert_eq!(dem_to_minecraft(10_501), -2037);
    assert_eq!(dem_to_minecraft(10_499), -2038);
    assert_eq!(dem_to_minecraft(i64::MAX), MAX_WORLD_Y);
    assert_eq!(dem_to_minecraft(i64::MIN), BEDROCK_Y);
}

#[test]
fn model_to_world_rounds_and_flips_north() {
    let o = ModelCoord { x_mm: 100_000, y_mm: 100_000 };
    assert_eq!(model_to_world(&o, &ModelCoord { x_mm: 101_500, y_mm: 99_400 }), (2, 1));
    assert_eq!(model_to_world(&o, &ModelCoord { x_mm: 98_500, y_mm: 100_600 }), (-2, -1));
    assert_eq!(model_to_world(&o, &ModelCoord { x_mm: 100_499, y_mm: 100_000 }), (0, 0));
}

#[test]
fn region_bucketing() {
    assert_eq!(chunk_coord(-17), -2);
    assert_eq!(chunk_coord(17), 1);
    assert_eq!(region_coord(-2), -1);
    assert_eq!(region_coord(chunk_coord(17)), 0);
    assert_eq!(local_coord(-17), 15);
    assert_eq!(local_coord(17), 1);
    assert_eq!(region_slot(-2), 30);
    assert_eq!(region_coord(-1), -1);
    assert_eq!(region_coord(31), 0);
    assert_eq!(region_coord(32), 1);
}

#[test]
fn biome_lattice_index() {
    assert_eq!(biome_index(0, 0, 0), 0);
    assert_eq!(biome_index(15, 15, 15), 63);
    assert_eq!(biome_index(5, 9, 2), 2 * 16 + 0 * 4 + 1);
}

fn plain_column(height: Option<i32>) -> ColumnSettings {
    ColumnSettings {
        height,
        biome: "minecraft:desert".to_string(),
        top_block: "minecraft:grass_block".to_string(),
        slope_mdeg: 0,
        cliff: None,
        top_thickness: 1,
        bottom_block_override: None,
        biome_min_y: height,
        extrusion_block: None,
        extrusion_height: 0,
    }
}

#[test]
fn section_palette_starts_with_air() {
    let mut cols: Vec<ColumnSettings> = (0..256).map(|_| plain_column(None)).collect();
    cols[0] = plain_column(Some(-2038));
    let bottom = "minecraft:stone".to_string();
    let base = "minecraft:plains".to_string();
    let section = build_section(-128, &cols, &bottom, &base).unwrap();
    assert_eq!(section.y, -128);
    assert_eq!(section.block_palette[0], "minecraft:air");
    assert_eq!(section.block_indices.len(), 4096);
    assert_eq!(section.biome_indices.len(), 64);
    assert!(section.block_palette.contains(&"minecraft:bedrock".to_string()));
    let above = build_section(-120, &cols, &bottom, &base);
    assert!(above.is_none());
}

#[test]
fn single_column_chunk() {
    let mut chunk = ChunkHeights::new(0);
    chunk.set(0, 0, -2038, SlopeProfile::empty(0));
    let terrain = TerrainConfig::default_config();
    let data = encode_chunk(0, 0, &chunk, &terrain).unwrap();
    assert_eq!(data.x_pos, 0);
    assert_eq!(data.z_pos, 0);
    assert_eq!(data.y_pos, -128);
    assert_eq!(data.status, "minecraft:full");
    assert!(!data.post_processing);
    assert_eq!(data.sections.len(), 1);
    let s = &data.sections[0];
    assert_eq!(s.y, -128);
    assert_eq!(s.block_palette[0], "minecraft:air");
    // column (0, 0): bedrock at -2048, stone from -2047 to -2039, grass at -2038
    let name_at = |y: usize, z: usize, x: usize| -> &str {
        &s.block_palette[s.block_indices[y * 256 + z * 16 + x] as usize]
    };
    assert_eq!(name_at(0, 0, 0), "minecraft:bedrock");
    assert_eq!(name_at(1, 0, 0), "minecraft:stone");
    assert_eq!(name_at(9, 0, 0), "minecraft:stone");
    assert_eq!(name_at(10, 0, 0), "minecraft:grass_block");
    assert_eq!(name_at(11, 0, 0), "minecraft:air");
    assert_eq!(name_at(0, 3, 4), "minecraft:bedrock");
    assert_eq!(name_at(5, 3, 4), "minecraft:air");
    assert_eq!(unpack_value(&data.heightmap, HEIGHTMAP_BITS, 0), 11);
    assert_eq!(unpack_value(&data.heightmap, HEIGHTMAP_BITS, 1), 1);
    assert!(s.block_data.is_some());
}

#[test]
fn empty_chunk_has_no_column() {
    let chunk = ChunkHeights::new(2);
    let terrain = TerrainConfig::default_config();
    assert!(encode_chunk(3, 4, &chunk, &terrain).is_none());
    let empty = encode_empty_chunk(3, 4, &terrain);
    assert_eq!(empty.sections.len(), 0);
    for k in 0..256 {
        assert_eq!(unpack_value(&empty.heightmap, HEIGHTMAP_BITS, k), 1);
    }
}

#[test]
fn generate_features_status() {
    let mut chunk = ChunkHeights::new(0);
    chunk.set(3, 3, 0, SlopeProfile::empty(0));
    let mut terrain = TerrainConfig::default_config();
    terrain.generate_features = true;
    let data = encode_chunk(0, 0, &chunk, &terrain).unwrap();
    assert_eq!(data.status, "minecraft:liquid_carvers");
    assert!(data.post_processing);
    // sections from -128 up to section 0 that hold a block
    assert_eq!(data.sections.first().unwrap().y, -128);
    assert_eq!(data.sections.last().unwrap().y, 0);
}

#[test]
fn encoding_twice_gives_the_same_chunk() {
    let mut chunk = ChunkHeights::new(1);
    for x in 0..16 {
        chunk.set(x, 5, -2000 + x as i32, SlopeProfile::empty(1));
    }
    let terrain = TerrainConfig::default_config();
    let a = encode_chunk(7, -3, &chunk, &terrain).unwrap();
    let b = encode_chunk(7, -3, &chunk, &terrain).unwrap();
    assert_eq!(format!("{:?}", a), format!("{:?}", b));
    assert_eq!(build_heightmap(&chunk), build_heightmap(&chunk));
}

#[test]
fn cliff_threshold_selects_top_block() {
    for (threshold, expected) in [(45_000u32, "minecraft:stone"), (60_000u32, "minecraft:grass_block")] {
        let mut chunk = ChunkHeights::new(1);
        let profile = SlopeProfile::from_stats(vec![SlopeStats { max_angle: 50_000, weighted_average: 10_000 }]);
        chunk.set(0, 0, -2038, profile);
        let mut terrain = TerrainConfig::default_config();
        terrain.cliffs = CliffConfig::new(true, threshold, "minecraft:stone".to_string(), 1, 0).unwrap();
        terrain.bottom_layer_block = "minecraft:dirt".to_string();
        let data = encode_chunk(0, 0, &chunk, &terrain).unwrap();
        let s = &data.sections[0];
        assert_eq!(s.block_palette[s.block_indices[10 * 256] as usize], expected);
        assert_eq!(s.block_palette[s.block_indices[9 * 256] as usize], "minecraft:dirt");
    }
}

#[test]
fn block_id_names() {
    assert_eq!(BlockId::Air.name(), "minecraft:air");
    assert_eq!(BlockId::Bedrock.name(), "minecraft:bedrock");
    assert_eq!(BlockId::Named("minecraft:sand".to_string()).name(), "minecraft:sand");
    assert!(BlockId::Air.same(&BlockId::Air));
    assert!(!BlockId::Named("minecraft:air".to_string()).same(&BlockId::Air));
}
