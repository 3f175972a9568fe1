//! Terrain policy: which biome, top block and cliff rule apply to a column,
//! as a function of its surface height.
use crate::slope::SmoothingSettings;
use crate::text::{blank, is_blank};
use vstd::prelude::*;

verus! {

/// Reasons a terrain configuration is refused.
#[derive(Clone, Copy, Debug, PartialEq, Eq)]
pub enum ConfigError {
    ZeroTopThickness,
    EmptyStyle,
    EmptyName,
    NonPositiveAngle,
    ZeroSmoothingRadius,
    SmoothingFactorOutOfRange,
    InvertedRange,
    EmptyHeight,
    MissingHeightNumber,
    InvalidHeightNumber,
    BelowMinimum,
    InvertedBounds,
    NoLayers,
    MissingField,
    NoColorRules,
}

/// A resolved cliff rule. The angle is in millidegrees and the smoothing
/// factor in thousandths.
#[derive(Debug)]
pub struct CliffSettings {
    pub angle_threshold_mdeg: u32,
    pub block: String,
    pub smoothing_radius: u32,
    pub smoothing_factor: u32,
}

pub struct CliffView {
    pub angle_threshold_mdeg: u32,
    pub block: Seq<char>,
    pub smoothing_radius: u32,
    pub smoothing_factor: u32,
}

impl View for CliffSettings {
    type V = CliffView;

    open spec fn view(&self) -> CliffView {
        CliffView {
            angle_threshold_mdeg: self.angle_threshold_mdeg,
            block: self.block@,
            smoothing_radius: self.smoothing_radius,
            smoothing_factor: self.smoothing_factor,
        }
    }
}

impl CliffSettings {
    pub fn duplicate(&self) -> (r: Self)
        ensures
            r@ == self@,
    {
        CliffSettings {
            angle_threshold_mdeg: self.angle_threshold_mdeg,
            block: self.block.clone(),
            smoothing_radius: self.smoothing_radius,
            smoothing_factor: self.smoothing_factor,
        }
    }

    /// The part of the rule that selects and mixes slope statistics.
    pub fn smoothing(&self) -> (r: SmoothingSettings)
        ensures
            r.smoothing_radius == self.smoothing_radius,
            r.smoothing_factor == self.smoothing_factor,
    {
        SmoothingSettings {
            smoothing_radius: self.smoothing_radius,
            smoothing_factor: self.smoothing_factor,
        }
    }
}

/// Per-layer replacements for parts of the default cliff rule.
#[derive(Debug)]
pub struct CliffOverride {
    pub angle_threshold_mdeg: Option<u32>,
    pub block: Option<String>,
    pub smoothing_radius: Option<u32>,
    pub smoothing_factor: Option<u32>,
}

/// Cliff generation: off, or a default rule.
#[derive(Debug)]
pub struct CliffConfig {
    pub enabled: bool,
    pub default_settings: CliffSettings,
}

/// A biome chosen for surfaces in `[min, max]`, with an optional cliff override.
#[derive(Debug)]
pub struct BiomeLayer {
    pub min: i32,
    pub max: i32,
    pub biome: String,
    pub cliff_override: Option<CliffOverride>,
}

/// A top block chosen for surfaces in `[min, max]`.
#[derive(Debug)]
pub struct TopBlockLayer {
    pub min: i32,
    pub max: i32,
    pub block: String,
}

/// The per-column material policy.
#[derive(Debug)]
pub struct TerrainConfig {
    pub top_layer_block: String,
    pub bottom_layer_block: String,
    pub top_layer_thickness: u32,
    pub base_biome: String,
    pub biome_layers: Vec<BiomeLayer>,
    pub top_block_layers: Vec<TopBlockLayer>,
    pub cliffs: CliffConfig,
    pub generate_features: bool,
    pub empty_chunk_radius: u32,
}

pub open spec fn in_range(min: i32, max: i32, h: i32) -> bool {
    min <= h && h <= max
}

/// Index of the first biome layer whose range holds `h`, if any.
pub open spec fn first_biome_layer(layers: Seq<BiomeLayer>, h: i32) -> Option<int>
    decreases layers.len(),
{
    if layers.len() == 0 {
        None
    } else if in_range(layers[0].min, layers[0].max, h) {
        Some(0)
    } else {
        match first_biome_layer(layers.drop_first(), h) {
            Some(i) => Some(i + 1),
            None => None,
        }
    }
}

/// Index of the first top-block layer whose range holds `h`, if any.
pub open spec fn first_top_layer(layers: Seq<TopBlockLayer>, h: i32) -> Option<int>
    decreases layers.len(),
{
    if layers.len() == 0 {
        None
    } else if in_range(layers[0].min, layers[0].max, h) {
        Some(0)
    } else {
        match first_top_layer(layers.drop_first(), h) {
            Some(i) => Some(i + 1),
            None => None,
        }
    }
}

/// The cliff rule that applies under an optional layer override.
pub open spec fn resolve_spec(c: CliffConfig, o: Option<CliffOverride>) -> Option<CliffView> {
    if !c.enabled {
        None
    } else {
        let d = c.default_settings@;
        match o {
            None => Some(d),
            Some(ov) => Some(
                CliffView {
                    angle_threshold_mdeg: match ov.angle_threshold_mdeg {
                        Some(a) => a,
                        None => d.angle_threshold_mdeg,
                    },
                    block: match ov.block {
                        Some(b) => b@,
                        None => d.block,
                    },
                    smoothing_radius: match ov.smoothing_radius {
                        Some(r) => r,
                        None => d.smoothing_radius,
                    },
                    smoothing_factor: match ov.smoothing_factor {
                        Some(f) => f,
                        None => d.smoothing_factor,
                    },
                },
            ),
        }
    }
}

pub open spec fn opt_cliff_view(o: Option<CliffSettings>) -> Option<CliffView> {
    match o {
        Some(c) => Some(c@),
        None => None,
    }
}

/// The largest smoothing radius that any active cliff rule asks for.
pub open spec fn max_radius_spec(cfg: TerrainConfig, n: int) -> u32
    decreases n,
{
    if n <= 0 {
        cfg.cliffs.default_settings.smoothing_radius
    } else {
        let prev = max_radius_spec(cfg, n - 1);
        match cfg.biome_layers@[n - 1].cliff_override {
            Some(o) => match o.smoothing_radius {
                Some(r) => if r > prev {
                    r
                } else {
                    prev
                },
                None => prev,
            },
            None => prev,
        }
    }
}

impl BiomeLayer {
    pub fn contains(&self, height: i32) -> (r: bool)
        ensures
            r == in_range(self.min, self.max, height),
    {
        height >= self.min && height <= self.max
    }
}

impl TopBlockLayer {
    pub fn contains(&self, height: i32) -> (r: bool)
        ensures
            r == in_range(self.min, self.max, height),
    {
        height >= self.min && height <= self.max
    }
}

fn find_biome_layer(layers: &Vec<BiomeLayer>, h: i32) -> (r: Option<usize>)
    ensures
        match r {
            Some(i) => first_biome_layer(layers@, h) == Some(i as int) && i < layers@.len(),
            None => first_biome_layer(layers@, h).is_none(),
        },
{
    let mut i: usize = 0;
    assert(layers@.subrange(0, layers@.len() as int) =~= layers@);
    while i < layers.len()
        invariant
            i <= layers.len(),
            first_biome_layer(layers@, h) == (match first_biome_layer(layers@.subrange(i as int, layers@.len() as int), h) {
                Some(k) => Some(k + i),
                None => None,
            }),
        decreases layers.len() - i,
    {
        let ghost rest = layers@.subrange(i as int, layers@.len() as int);
        assert(rest.drop_first() =~= layers@.subrange(i + 1, layers@.len() as int));
        if layers[i].contains(h) {
            return Some(i);
        }
        i = i + 1;
    }
    assert(layers@.subrange(i as int, layers@.len() as int).len() == 0);
    None
}

fn find_top_layer(layers: &Vec<TopBlockLayer>, h: i32) -> (r: Option<usize>)
    ensures
        match r {
            Some(i) => first_top_layer(layers@, h) == Some(i as int) && i < layers@.len(),
            None => first_top_layer(layers@, h).is_none(),
        },
{
    let mut i: usize = 0;
    assert(layers@.subrange(0, layers@.len() as int) =~= layers@);
    while i < layers.len()
        invariant
            i <= layers.len(),
            first_top_layer(layers@, h) == (match first_top_layer(layers@.subrange(i as int, layers@.len() as int), h) {
                Some(k) => Some(k + i),
                None => None,
            }),
        decreases layers.len() - i,
    {
        let ghost rest = layers@.subrange(i as int, layers@.len() as int);
        assert(rest.drop_first() =~= layers@.subrange(i + 1, layers@.len() as int));
        if layers[i].contains(h) {
            return Some(i);
        }
        i = i + 1;
    }
    assert(layers@.subrange(i as int, layers@.len() as int).len() == 0);
    None
}

impl CliffConfig {
    /// Cliff generation switched off, with the default rule: 60 degrees,
    /// stone, radius 1, no smoothing.
    pub fn disabled() -> (r: Self)
        ensures
            !r.enabled,
            r.default_settings@.angle_threshold_mdeg == 60_000,
            r.default_settings@.smoothing_radius == 1,
            r.default_settings@.smoothing_factor == 0,
    {
        CliffConfig {
            enabled: false,
            default_settings: CliffSettings {
                angle_threshold_mdeg: 60_000,
                block: String::from_str("minecraft:stone"),
                smoothing_radius: 1,
                smoothing_factor: 0,
            },
        }
    }

    /// A validated cliff rule: the angle must be positive, the block named,
    /// the radius at least 1 and the factor at most 1000 thousandths.
    pub fn new(
        enabled: bool,
        angle_threshold_mdeg: u32,
        block: String,
        smoothing_radius: u32,
        smoothing_factor: u32,
    ) -> (r: Result<Self, ConfigError>)
        ensures
            angle_threshold_mdeg == 0 ==> r == Err::<Self, ConfigError>(ConfigError::NonPositiveAngle),
            angle_threshold_mdeg > 0 && blank(block@) ==> r == Err::<Self, ConfigError>(ConfigError::EmptyName),
            angle_threshold_mdeg > 0 && !blank(block@) && smoothing_radius == 0 ==> r == Err::<Self, ConfigError>(ConfigError::ZeroSmoothingRadius),
            angle_threshold_mdeg > 0 && !blank(block@) && smoothing_radius > 0 && smoothing_factor > 1000 ==> r == Err::<Self, ConfigError>(ConfigError::SmoothingFactorOutOfRange),
            angle_threshold_mdeg > 0 && !blank(block@) && smoothing_radius > 0 && smoothing_factor <= 1000 ==> r.is_ok() && r.unwrap().enabled == enabled && r.unwrap().default_settings@ == (CliffView { angle_threshold_mdeg, block: block@, smoothing_radius, smoothing_factor }),
    {
        if angle_threshold_mdeg == 0 {
            return Err(ConfigError::NonPositiveAngle);
        }
        if is_blank(block.as_str()) {
            return Err(ConfigError::EmptyName);
        }
        if smoothing_radius == 0 {
            return Err(ConfigError::ZeroSmoothingRadius);
        }
        if smoothing_factor > 1000 {
            return Err(ConfigError::SmoothingFactorOutOfRange);
        }
        Ok(CliffConfig {
            enabled,
            default_settings: CliffSettings {
                angle_threshold_mdeg,
                block,
                smoothing_radius,
                smoothing_factor,
            },
        })
    }

    /// The rule that applies: none when cliffs are off, else the default with
    /// each field the override sets replaced.
    pub fn resolve(&self, override_settings: Option<&CliffOverride>) -> (r: Option<CliffSettings>)
        ensures
            opt_cliff_view(r) == resolve_spec(*self, match override_settings {
                Some(o) => Some(*o),
                None => None,
            }),
    {
        if !self.enabled {
            return None;
        }
        let mut resolved = self.default_settings.duplicate();
        match override_settings {
            Some(overrides) => {
                match overrides.angle_threshold_mdeg {
                    Some(angle) => {
                        resolved.angle_threshold_mdeg = angle;
                    },
                    None => {},
                }
                match &overrides.block {
                    Some(block) => {
                        resolved.block = block.clone();
                    },
                    None => {},
                }
                match overrides.smoothing_radius {
                    Some(radius) => {
                        resolved.smoothing_radius = radius;
                    },
                    None => {},
                }
                match overrides.smoothing_factor {
                    Some(factor) => {
                        resolved.smoothing_factor = factor;
                    },
                    None => {},
                }
            },
            None => {},
        }
        Some(resolved)
    }
}

impl TerrainConfig {
    /// Grass over stone, one block of top layer, plains, no layers, no cliffs,
    /// no features, and 32 chunks of empty padding.
    pub fn default_config() -> (r: Self)
        ensures
            r.top_layer_thickness == 1,
            r.biome_layers@.len() == 0,
            r.top_block_layers@.len() == 0,
            !r.cliffs.enabled,
            !r.generate_features,
            r.empty_chunk_radius == 32,
    {
        TerrainConfig {
            top_layer_block: String::from_str("minecraft:grass_block"),
            bottom_layer_block: String::from_str("minecraft:stone"),
            top_layer_thickness: 1,
            base_biome: String::from_str("minecraft:plains"),
            biome_layers: Vec::new(),
            top_block_layers: Vec::new(),
            cliffs: CliffConfig::disabled(),
            generate_features: false,
            empty_chunk_radius: 32,
        }
    }

    pub fn top_layer_block(&self) -> (r: String)
        ensures
            r@ == self.top_layer_block@,
    {
        self.top_layer_block.clone()
    }

    pub fn bottom_layer_block(&self) -> (r: String)
        ensures
            r@ == self.bottom_layer_block@,
    {
        self.bottom_layer_block.clone()
    }

    pub fn top_layer_thickness(&self) -> (r: u32)
        ensures
            r == self.top_layer_thickness,
    {
        self.top_layer_thickness
    }

    pub fn base_biome(&self) -> (r: String)
        ensures
            r@ == self.base_biome@,
    {
        self.base_biome.clone()
    }

    pub fn generate_features(&self) -> (r: bool)
        ensures
            r == self.generate_features,
    {
        self.generate_features
    }

    pub fn empty_chunk_radius(&self) -> (r: u32)
        ensures
            r == self.empty_chunk_radius,
    {
        self.empty_chunk_radius
    }

    /// The biome of the first biome layer holding `surface_height` (else the
    /// base biome), and the cliff rule with that layer's override.
    pub fn biome_and_cliff_for_height(&self, surface_height: i32) -> (r: (String, Option<CliffSettings>))
        ensures
            r.0@ == (match first_biome_layer(self.biome_layers@, surface_height) {
                Some(i) => self.biome_layers@[i].biome@,
                None => self.base_biome@,
            }),
            opt_cliff_view(r.1) == resolve_spec(self.cliffs, match first_biome_layer(self.biome_layers@, surface_height) {
                Some(i) => self.biome_layers@[i].cliff_override,
                None => None,
            }),
    {
        match find_biome_layer(&self.biome_layers, surface_height) {
            Some(i) => {
                let layer = &self.biome_layers[i];
                let cliff = match &layer.cliff_override {
                    Some(o) => self.cliffs.resolve(Some(o)),
                    None => self.cliffs.resolve(None),
                };
                (layer.biome.clone(), cliff)
            },
            None => (self.base_biome.clone(), self.cliffs.resolve(None)),
        }
    }

    /// The block of the first top-block layer holding `surface_height`, else
    /// the default top block.
    pub fn top_block_for_height(&self, surface_height: i32) -> (r: String)
        ensures
            r@ == (match first_top_layer(self.top_block_layers@, surface_height) {
                Some(i) => self.top_block_layers@[i].block@,
                None => self.top_layer_block@,
            }),
    {
        match find_top_layer(&self.top_block_layers, surface_height) {
            Some(i) => self.top_block_layers[i].block.clone(),
            None => self.top_layer_block.clone(),
        }
    }

    /// The largest smoothing radius any active cliff rule requests; 0 when
    /// cliffs are off.
    pub fn max_smoothing_radius(&self) -> (r: u32)
        ensures
            !self.cliffs.enabled ==> r == 0,
            self.cliffs.enabled ==> r == max_radius_spec(*self, self.biome_layers@.len() as int),
    {
        if !self.cliffs.enabled {
            return 0;
        }
        let mut max_radius = self.cliffs.default_settings.smoothing_radius;
        let mut i: usize = 0;
        while i < self.biome_layers.len()
            invariant
                i <= self.biome_layers.len(),
                max_radius == max_radius_spec(*self, i as int),
            decreases self.biome_layers.len() - i,
        {
            match &self.biome_layers[i].cliff_override {
                Some(o) => match o.smoothing_radius {
                    Some(radius) => {
                        if radius > max_radius {
                            max_radius = radius;
                        }
                    },
                    None => {},
                },
                None => {},
            }
            i = i + 1;
        }
        max_radius
    }
}

/// A cliff override, or none when no field is set. Each field set must be
/// valid: a positive angle, a named block, a radius of at least 1, a factor
/// of at most 1000 thousandths.
pub fn parse_cliff_override(
    angle_mdeg: Option<u32>,
    block: Option<String>,
    smoothing_radius: Option<u32>,
    smoothing_factor: Option<u32>,
) -> (r: Result<Option<CliffOverride>, ConfigError>)
    ensures
        angle_mdeg.is_none() && block.is_none() && smoothing_radius.is_none() && smoothing_factor.is_none()
            ==> r == Ok::<Option<CliffOverride>, ConfigError>(None),
        !(angle_mdeg.is_none() && block.is_none() && smoothing_radius.is_none() && smoothing_factor.is_none()) ==> {
            &&& angle_mdeg == Some(0u32) ==> r == Err::<Option<CliffOverride>, ConfigError>(ConfigError::NonPositiveAngle)
            &&& angle_mdeg != Some(0u32) && (match block { Some(b) => blank(b@), None => false })
                ==> r == Err::<Option<CliffOverride>, ConfigError>(ConfigError::EmptyName)
            &&& angle_mdeg != Some(0u32) && !(match block { Some(b) => blank(b@), None => false }) && smoothing_radius == Some(0u32)
                ==> r == Err::<Option<CliffOverride>, ConfigError>(ConfigError::ZeroSmoothingRadius)
            &&& angle_mdeg != Some(0u32) && !(match block { Some(b) => blank(b@), None => false }) && smoothing_radius != Some(0u32)
                && (match smoothing_factor { Some(f) => f > 1000, None => false })
                ==> r == Err::<Option<CliffOverride>, ConfigError>(ConfigError::SmoothingFactorOutOfRange)
            &&& angle_mdeg != Some(0u32) && !(match block { Some(b) => blank(b@), None => false }) && smoothing_radius != Some(0u32)
                && !(match smoothing_factor { Some(f) => f > 1000, None => false })
                ==> r.is_ok() && r.unwrap().is_some() && ({
                    let o = r.unwrap().unwrap();
                    &&& o.angle_threshold_mdeg == angle_mdeg
                    &&& o.block == block
                    &&& o.smoothing_radius == smoothing_radius
                    &&& o.smoothing_factor == smoothing_factor
                })
        },
{
    if angle_mdeg.is_none() && block.is_none() && smoothing_radius.is_none() && smoothing_factor.is_none() {
        return Ok(None);
    }
    if angle_mdeg == Some(0u32) {
        return Err(ConfigError::NonPositiveAngle);
    }
    let blank_block = match &block {
        Some(b) => is_blank(b.as_str()),
        None => false,
    };
    if blank_block {
        return Err(ConfigError::EmptyName);
    }
    if smoothing_radius == Some(0u32) {
        return Err(ConfigError::ZeroSmoothingRadius);
    }
    let bad_factor = match smoothing_factor {
        Some(f) => f > 1000,
        None => false,
    };
    if bad_factor {
        return Err(ConfigError::SmoothingFactorOutOfRange);
    }
    Ok(Some(CliffOverride { angle_threshold_mdeg: angle_mdeg, block, smoothing_radius, smoothing_factor }))
}

/// A biome layer: a named biome over a valid height range.
pub fn parse_biome_layer(min: Option<&str>, max: Option<&str>, biome: String, cliff_override: Option<CliffOverride>) -> (r: Result<BiomeLayer, ConfigError>)
    ensures
        blank(biome@) ==> r == Err::<BiomeLayer, ConfigError>(ConfigError::EmptyName),
        !blank(biome@) ==> match parse_range_spec(min, max) {
            Err(e) => r == Err::<BiomeLayer, ConfigError>(e),
            Ok((a, b)) => r.is_ok() && r.unwrap().min == a && r.unwrap().max == b && r.unwrap().biome == biome
                && r.unwrap().cliff_override == cliff_override,
        },
{
    if is_blank(biome.as_str()) {
        return Err(ConfigError::EmptyName);
    }
    let (lo, hi) = crate::config::parse_range(min, max)?;
    Ok(BiomeLayer { min: lo, max: hi, biome, cliff_override })
}

/// A top-block layer: a named block over a valid height range.
pub fn parse_top_block_layer(min: Option<&str>, max: Option<&str>, block: String) -> (r: Result<TopBlockLayer, ConfigError>)
    ensures
        blank(block@) ==> r == Err::<TopBlockLayer, ConfigError>(ConfigError::EmptyName),
        !blank(block@) ==> match parse_range_spec(min, max) {
            Err(e) => r == Err::<TopBlockLayer, ConfigError>(e),
            Ok((a, b)) => r.is_ok() && r.unwrap().min == a && r.unwrap().max == b && r.unwrap().block == block,
        },
{
    if is_blank(block.as_str()) {
        return Err(ConfigError::EmptyName);
    }
    let (lo, hi) = crate::config::parse_range(min, max)?;
    Ok(TopBlockLayer { min: lo, max: hi, block })
}

/// What `parse_range` gives.
pub open spec fn parse_range_spec(min: Option<&str>, max: Option<&str>) -> Result<(i32, i32), ConfigError> {
    let lo = match min { Some(s) => crate::config::height_spec(s@), None => Ok(i32::MIN) };
    let hi = match max { Some(s) => crate::config::height_spec(s@), None => Ok(i32::MAX) };
    match (lo, hi) {
        (Err(e), _) => Err(e),
        (Ok(_), Err(e)) => Err(e),
        (Ok(a), Ok(b)) => if a > b { Err(ConfigError::InvertedRange) } else { Ok((a, b)) },
    }
}

impl TerrainConfig {
    /// A terrain policy; the top layer must be at least one block thick.
    pub fn new(
        top_layer_block: String,
        bottom_layer_block: String,
        top_layer_thickness: u32,
        base_biome: String,
        biome_layers: Vec<BiomeLayer>,
        top_block_layers: Vec<TopBlockLayer>,
        cliffs: CliffConfig,
        generate_features: bool,
        empty_chunk_radius: u32,
    ) -> (r: Result<Self, ConfigError>)
        ensures
            top_layer_thickness == 0 ==> r == Err::<Self, ConfigError>(ConfigError::ZeroTopThickness),
            top_layer_thickness > 0 ==> r == Ok::<Self, ConfigError>(TerrainConfig {
                top_layer_block,
                bottom_layer_block,
                top_layer_thickness,
                base_biome,
                biome_layers,
                top_block_layers,
                cliffs,
                generate_features,
                empty_chunk_radius,
            }),
    {
        if top_layer_thickness == 0 {
            return Err(ConfigError::ZeroTopThickness);
        }
        Ok(TerrainConfig {
            top_layer_block,
            bottom_layer_block,
            top_layer_thickness,
            base_biome,
            biome_layers,
            top_block_layers,
            cliffs,
            generate_features,
            empty_chunk_radius,
        })
    }
}

} // verus!
