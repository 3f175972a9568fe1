use francegen::cli::{parse_threads, ThreadCountError};
use francegen::config::{
    compare_layer_order, layer_order, normalize_style_name, AttributeSource, ExtrusionStyle,
    OsmGeometry, OverlayStyle,
};
use francegen::terrain::{
    BiomeLayer, CliffConfig, CliffOverride, ConfigError, TerrainConfig, TopBlockLayer,
};
use francegen::text::{is_blank, parse_u64, sanitize_for_filename};
use francegen::wmts::{extension_for_format, normalize_crs_identifier, FormatError,
    build_tile_url, clamp_coverage, first_matching_rule, hex_to_bytes, ColorError, ColorMatcher,
    RgbaColor, TileGrid, TileMatrixLimits, WmtsCacheDir,
};

#[test]
fn rgba_parse() {
    assert_eq!(RgbaColor::parse("#ff8000"), Ok(RgbaColor { r: 255, g: 128, b: 0, a: 255 }));
    assert_eq!(RgbaColor::parse("  00ff0080 "), Ok(RgbaColor { r: 0, g: 255, b: 0, a: 128 }));
    assert_eq!(RgbaColor::parse("#AbCdEf"), Ok(RgbaColor { r: 0xab, g: 0xcd, b: 0xef, a: 255 }));
    assert_eq!(RgbaColor::parse("#fff"), Err(ColorError::WrongLength));
    assert_eq!(RgbaColor::parse(""), Err(ColorError::WrongLength));
    assert_eq!(RgbaColor::parse("#gg0000"), Err(ColorError::InvalidDigit));
    assert_eq!(hex_to_bytes("0a1"), None);
    assert_eq!(hex_to_bytes("0a1B"), Some(vec![10, 27]));
}

#[test]
fn color_rules_first_match_wins() {
    let red = ColorMatcher::new(RgbaColor { r: 200, g: 0, b: 0, a: 255 }, Some(10), None);
    let any_red = ColorMatcher::new(RgbaColor { r: 200, g: 0, b: 0, a: 255 }, Some(60), None);
    let translucent = ColorMatcher::new(RgbaColor { r: 0, g: 0, b: 255, a: 100 }, Some(5), Some(50));
    assert_eq!(red.tolerance, 10);
    assert_eq!(red.alpha_threshold, 1);
    assert!(red.matches([205, 3, 0, 255]));
    assert!(!red.matches([215, 0, 0, 255]));
    assert!(!red.matches([200, 0, 0, 0]));
    assert!(translucent.matches([0, 2, 250, 104]));
    assert!(!translucent.matches([0, 2, 250, 110]));
    assert!(!translucent.matches([0, 0, 255, 40]));
    let rules = vec![red, any_red, translucent];
    assert_eq!(first_matching_rule(&rules, [205, 3, 0, 255]), Some(0));
    assert_eq!(first_matching_rule(&rules, [240, 20, 0, 255]), Some(1));
    assert_eq!(first_matching_rule(&rules, [0, 0, 0, 255]), None);
}

#[test]
fn tile_coverage_clamps() {
    let grid = TileGrid { tile_width: 256, tile_height: 256, matrix_width: 10, matrix_height: 8 };
    let c = clamp_coverage(3, 1, -4, 2, &grid, None);
    assert_eq!((c.col_start, c.col_end, c.row_start, c.row_end), (1, 3, 0, 2));
    assert_eq!(c.tiles.len(), 9);
    assert_eq!((c.tiles[4].row, c.tiles[4].col), (1, 2));
    assert!(c.contains(2, 1));
    assert!(!c.contains(4, 1));
    let c = clamp_coverage(5, 50, 7, 9, &grid, None);
    assert_eq!((c.col_start, c.col_end, c.row_start, c.row_end), (5, 9, 7, 7));
    let limits = TileMatrixLimits { min_row: 0, max_row: 1, min_col: 6, max_col: 8 };
    let c = clamp_coverage(0, 3, 0, 1, &grid, Some(limits));
    assert_eq!(c.tiles.len(), 0);
}

#[test]
fn tile_url_has_fixed_parameters() {
    let url = build_tile_url("https://example.org/wmts", "ORTHO IMAGERY", "normal", "PM", "18", 12, 345, "image/png");
    assert_eq!(
        url,
        "https://example.org/wmts?SERVICE=WMTS&REQUEST=GetTile&VERSION=1.0.0&LAYER=ORTHO%20IMAGERY&STYLE=normal&FORMAT=image%2Fpng&TileMatrixSet=PM&TileMatrix=18&TileRow=12&TileCol=345"
    );
    let url = build_tile_url("https://e.org/w?key=1", "L", "s", "M", "0", 0, 0, "image/jpeg");
    assert!(url.starts_with("https://e.org/w?key=1&SERVICE=WMTS&"));
    let url = build_tile_url("https://e.org/w?", "L", "s", "M", "0", 0, 0, "image/jpeg");
    assert!(url.starts_with("https://e.org/w?SERVICE=WMTS&"));
}

#[test]
fn cache_tile_paths() {
    let cache = WmtsCacheDir::new("/tmp/cache".to_string(), true);
    assert!(cache.auto_cleanup());
    assert_eq!(cache.root(), "/tmp/cache");
    assert_eq!(cache.tile_path("ORTHO.IMG", "PM:18", 7, 42, "png"), "/tmp/cache/ORTHO_IMG_PM_18_7_42.png");
    assert_eq!(sanitize_for_filename("a b/c-d_e"), "a_b_c-d_e");
}

#[test]
fn text_helpers() {
    assert!(is_blank("   \t"));
    assert!(is_blank(""));
    assert!(!is_blank(" x "));
    assert_eq!(parse_u64("42"), Some(42));
    assert_eq!(parse_u64("+7"), Some(7));
    assert_eq!(parse_u64("18446744073709551615"), Some(u64::MAX));
    assert_eq!(parse_u64("18446744073709551616"), None);
    assert_eq!(parse_u64("4x"), None);
    assert_eq!(parse_u64(""), None);
}

#[test]
fn thread_counts() {
    assert_eq!(parse_threads("8"), Ok(8));
    assert_eq!(parse_threads("0"), Err(ThreadCountError::Zero));
    assert_eq!(parse_threads("-1"), Err(ThreadCountError::Invalid));
    assert_eq!(parse_threads("eight"), Err(ThreadCountError::Invalid));
}

#[test]
fn cliff_config_validation() {
    let s = || "minecraft:stone".to_string();
    assert_eq!(CliffConfig::new(true, 0, s(), 1, 0).unwrap_err(), ConfigError::NonPositiveAngle);
    assert_eq!(CliffConfig::new(true, 45_000, "  ".to_string(), 1, 0).unwrap_err(), ConfigError::EmptyName);
    assert_eq!(CliffConfig::new(true, 45_000, s(), 0, 0).unwrap_err(), ConfigError::ZeroSmoothingRadius);
    assert_eq!(CliffConfig::new(true, 45_000, s(), 1, 1001).unwrap_err(), ConfigError::SmoothingFactorOutOfRange);
    let ok = CliffConfig::new(true, 45_000, s(), 2, 1000).unwrap();
    assert!(ok.enabled);
    assert_eq!(ok.default_settings.smoothing_radius, 2);
}

#[test]
fn terrain_policy_layers() {
    let mut t = TerrainConfig::default_config();
    t.cliffs = CliffConfig::new(true, 45_000, "minecraft:stone".to_string(), 2, 0).unwrap();
    t.biome_layers = vec![
        BiomeLayer { min: -2048, max: -1000, biome: "minecraft:ocean".to_string(), cliff_override: None },
        BiomeLayer {
            min: -1500,
            max: 0,
            biome: "minecraft:forest".to_string(),
            cliff_override: Some(CliffOverride { angle_threshold_mdeg: Some(30_000), block: Some("minecraft:andesite".to_string()), smoothing_radius: Some(5), smoothing_factor: None }),
        },
    ];
    t.top_block_layers = vec![TopBlockLayer { min: 100, max: 200, block: "minecraft:snow_block".to_string() }];
    let (b, c) = t.biome_and_cliff_for_height(-1200);
    assert_eq!(b, "minecraft:ocean");
    assert_eq!(c.unwrap().angle_threshold_mdeg, 45_000);
    let (b, c) = t.biome_and_cliff_for_height(-900);
    assert_eq!(b, "minecraft:forest");
    let c = c.unwrap();
    assert_eq!((c.angle_threshold_mdeg, c.block.as_str(), c.smoothing_radius), (30_000, "minecraft:andesite", 5));
    let (b, _) = t.biome_and_cliff_for_height(500);
    assert_eq!(b, "minecraft:plains");
    assert_eq!(t.top_block_for_height(150), "minecraft:snow_block");
    assert_eq!(t.top_block_for_height(201), "minecraft:grass_block");
    assert_eq!(t.max_smoothing_radius(), 5);
    t.cliffs.enabled = false;
    assert_eq!(t.max_smoothing_radius(), 0);
    assert!(t.biome_and_cliff_for_height(-900).1.is_none());
}

#[test]
fn overlay_style_validation_and_extrusion() {
    assert_eq!(OverlayStyle::new(None, None, None, None, None).unwrap_err(), ConfigError::EmptyStyle);
    assert_eq!(OverlayStyle::new(None, None, None, Some(0), None).unwrap_err(), ConfigError::ZeroTopThickness);
    assert_eq!(OverlayStyle::new(Some(" ".to_string()), None, None, None, None).unwrap_err(), ConfigError::EmptyName);
    assert_eq!(normalize_style_name(Some("x".to_string())), Ok(Some("x".to_string())));
    assert_eq!(normalize_style_name(None), Ok(None));
    let height = AttributeSource { default_mm: 6_000, min_mm: Some(1_000), max_mm: Some(30_000), sources: vec![] };
    assert_eq!(height.clamp(500), 1_000);
    assert_eq!(height.clamp(90_000), 30_000);
    assert_eq!(height.resolve(None), 6_000);
    assert_eq!(height.resolve(Some(12_400)), 12_400);
    let style = OverlayStyle::new(
        None,
        Some("minecraft:stone_bricks".to_string()),
        None,
        None,
        Some(ExtrusionStyle { height, block: None }),
    )
    .unwrap();
    assert_eq!(style.resolve_structure(12_400), (Some("minecraft:stone_bricks".to_string()), Some(12)));
    assert_eq!(style.resolve_structure(12_500), (Some("minecraft:stone_bricks".to_string()), Some(13)));
    assert_eq!(style.resolve_structure(400), (None, None));
    assert_eq!(style.resolve_structure(-3), (None, None));
    let o = style.column_overlay(-5, 9, 3_000);
    assert_eq!((o.layer_index, o.order, o.extrusion_height), (-5, 9, Some(3)));
    assert_eq!(OsmGeometry::Line, OsmGeometry::Line);
}

#[test]
fn layer_painting_order() {
    assert_eq!(compare_layer_order(Some(2), Some(1), 5, 0), -1);
    assert_eq!(compare_layer_order(None, Some(1), 0, 5), 1);
    assert_eq!(compare_layer_order(None, Some(0), 3, 5), -1);
    assert_eq!(compare_layer_order(Some(0), None, 5, 5), 0);
    let layers = vec![(None, 0), (Some(3), 1), (Some(-1), 2), (Some(3), 0)];
    assert_eq!(layer_order(&layers), vec![3, 1, 0, 2]);
}

#[test]
fn tile_format_extensions() {

    assert_eq!(extension_for_format("image/png"), Ok("png"));
    assert_eq!(extension_for_format("IMAGE/PNG"), Ok("png"));
    assert_eq!(extension_for_format("image/jpeg"), Ok("jpg"));
    assert_eq!(extension_for_format("image/JPG"), Ok("jpg"));
    assert_eq!(extension_for_format("image/webp"), Err(FormatError::Unsupported));
}

#[test]
fn crs_identifiers() {

    assert_eq!(normalize_crs_identifier("urn:ogc:def:crs:EPSG::3857"), "EPSG:3857");
    assert_eq!(normalize_crs_identifier("epsg:2154"), "EPSG:2154");
    assert_eq!(normalize_crs_identifier("EPSG:"), "EPSG:");
    assert_eq!(normalize_crs_identifier("CRS:84"), "CRS:84");
}
