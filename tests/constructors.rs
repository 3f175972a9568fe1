use francegen::config::{
    AttributeKeySource, AttributeSource, OsmConfig, OsmGeometry, OsmLayer, OverlayStyle, WmtsColorRule, WmtsConfig,
};
use francegen::terrain::{parse_biome_layer, parse_cliff_override, parse_top_block_layer, CliffConfig, ConfigError, TerrainConfig};
use francegen::wmts::ColorError;

fn style() -> OverlayStyle {
    OverlayStyle::new(Some("minecraft:river".to_string()), None, None, None, None).unwrap()
}

fn width() -> AttributeSource {
    AttributeSource::new(3_000, None, None, vec![], 500).unwrap()
}

#[test]
fn attribute_sources() {
    assert_eq!(AttributeSource::new(400, None, None, vec![], 500).unwrap_err(), ConfigError::BelowMinimum);
    assert_eq!(AttributeSource::new(600, Some(100), None, vec![], 500).unwrap_err(), ConfigError::BelowMinimum);
    assert_eq!(AttributeSource::new(600, Some(900), Some(700), vec![], 500).unwrap_err(), ConfigError::InvertedBounds);
    let key = AttributeKeySource::new("width".to_string(), 1000).unwrap();
    assert_eq!(key.key(), "width");
    assert_eq!(key.multiplier(), 1000);
    assert_eq!(AttributeKeySource::new(" ".to_string(), 1000).unwrap_err(), ConfigError::EmptyName);
    let src = AttributeSource::new(600, Some(500), Some(700), vec![key], 500).unwrap();
    assert_eq!(src.default_value(), 600);
    assert_eq!(src.sources().len(), 1);
}

#[test]
fn osm_layers_and_order() {
    assert_eq!(
        OsmLayer::new(" ".to_string(), OsmGeometry::Line, "way;".to_string(), width(), style(), None, None, 0).unwrap_err(),
        ConfigError::EmptyName
    );
    let a = OsmLayer::new("roads".to_string(), OsmGeometry::Line, "way;".to_string(), width(), style(), None, Some(2), 0).unwrap();
    assert_eq!(a.layer_index(), Some(2));
    assert_eq!(a.name(), "roads");
    assert_eq!(a.geometry(), OsmGeometry::Line);
    let b = OsmLayer::new("water".to_string(), OsmGeometry::Polygon, "rel;".to_string(), width(), style(), Some(5), Some(2), 1).unwrap();
    assert_eq!(b.layer_index(), Some(5));
    let cfg = OsmConfig::new(true, "https://o".to_string(), -7, vec![a, b]).unwrap();
    assert_eq!(cfg.bbox_margin_m(), 0);
    assert_eq!(cfg.paint_order, vec![1, 0]);
    assert_eq!(cfg.layers().len(), 2);
    assert_eq!(OsmConfig::new(true, "https://o".to_string(), 0, vec![]).unwrap_err(), ConfigError::NoLayers);
    assert!(OsmConfig::new(false, "https://o".to_string(), 0, vec![]).is_ok());
}

#[test]
fn wmts_configuration() {
    let rule = || WmtsColorRule::new("#00ff00", Some(4), None, style(), None, None, 0).unwrap();
    assert_eq!(WmtsColorRule::new("#00ff0", None, None, style(), None, None, 0).unwrap_err(), ColorError::WrongLength);
    let r = rule();
    assert!(r.matches([2, 251, 0, 255]));
    assert_eq!(r.original_order(), 0);
    let s = |v: &str| Some(v.to_string());
    let ok = WmtsConfig::new(true, s("https://w"), s("ORTHO"), None, s("PM"), s("18"), "image/png".to_string(), 10, 0, vec![rule()]).unwrap();
    assert_eq!((ok.max_tiles(), ok.layer().as_str(), ok.tile_matrix().as_str()), (1, "ORTHO", "18"));
    assert_eq!(
        WmtsConfig::new(true, None, s("ORTHO"), None, s("PM"), s("18"), "image/png".to_string(), 0, 5, vec![rule()]).unwrap_err(),
        ConfigError::MissingField
    );
    assert_eq!(
        WmtsConfig::new(true, s("https://w"), s(" "), None, s("PM"), s("18"), "image/png".to_string(), 0, 5, vec![rule()]).unwrap_err(),
        ConfigError::EmptyName
    );
    assert_eq!(
        WmtsConfig::new(true, s("https://w"), s("L"), None, s("PM"), None, "image/png".to_string(), 0, 5, vec![rule()]).unwrap_err(),
        ConfigError::MissingField
    );
    assert_eq!(
        WmtsConfig::new(true, s("https://w"), s("L"), None, s("PM"), s("1"), "image/png".to_string(), 0, 5, vec![]).unwrap_err(),
        ConfigError::NoColorRules
    );
    assert_eq!(
        WmtsConfig::new(true, s("https://w"), s("L"), s(""), s("PM"), s("1"), "image/png".to_string(), 0, 5, vec![rule()]).unwrap_err(),
        ConfigError::EmptyName
    );
    let off = WmtsConfig::new(false, None, None, None, None, None, "image/jpeg".to_string(), 10, 0, vec![]).unwrap();
    assert!(!off.enabled());
    assert_eq!(off.max_tiles(), 1);
}

#[test]
fn terrain_layers_and_policy() {
    assert!(parse_cliff_override(None, None, None, None).unwrap().is_none());
    assert_eq!(parse_cliff_override(Some(0), None, None, None).unwrap_err(), ConfigError::NonPositiveAngle);
    assert_eq!(parse_cliff_override(None, Some("".to_string()), None, None).unwrap_err(), ConfigError::EmptyName);
    assert_eq!(parse_cliff_override(None, None, Some(0), None).unwrap_err(), ConfigError::ZeroSmoothingRadius);
    assert_eq!(parse_cliff_override(None, None, None, Some(1001)).unwrap_err(), ConfigError::SmoothingFactorOutOfRange);
    let o = parse_cliff_override(Some(30_000), None, Some(3), None).unwrap().unwrap();
    assert_eq!((o.angle_threshold_mdeg, o.smoothing_radius), (Some(30_000), Some(3)));
    let layer = parse_biome_layer(Some("0 b"), Some("10 b"), "minecraft:forest".to_string(), None).unwrap();
    assert_eq!((layer.min, layer.max), (0, 10));
    assert_eq!(parse_biome_layer(None, None, " ".to_string(), None).unwrap_err(), ConfigError::EmptyName);
    assert_eq!(parse_top_block_layer(Some("5 b"), Some("1 b"), "minecraft:sand".to_string()).unwrap_err(), ConfigError::InvertedRange);
    let t = TerrainConfig::new("a".to_string(), "b".to_string(), 0, "c".to_string(), vec![], vec![], CliffConfig::disabled(), false, 0);
    assert_eq!(t.unwrap_err(), ConfigError::ZeroTopThickness);
    let t = TerrainConfig::new("a".to_string(), "b".to_string(), 2, "c".to_string(), vec![layer], vec![], CliffConfig::disabled(), true, 4).unwrap();
    assert_eq!((t.top_layer_thickness(), t.generate_features(), t.empty_chunk_radius()), (2, true, 4));
    assert_eq!(t.top_layer_block(), "a");
    assert_eq!(t.base_biome(), "c");
    assert_eq!(t.biome_and_cliff_for_height(5).0, "minecraft:forest");
}

#[test]
fn line_width_floor() {
    let w = AttributeSource::new(3_000, Some(500), Some(9_000), vec![], 500).unwrap();
    let layer = OsmLayer::new("paths".to_string(), OsmGeometry::Line, "way;".to_string(), w, style(), None, None, 0).unwrap();
    assert_eq!(layer.line_width_mm(None), 3_000);
    assert_eq!(layer.line_width_mm(Some(20_000)), 9_000);
    assert_eq!(layer.line_width_mm(Some(100)), 500);
}
