//! Chunk encoding: per-column material settings, the sections from bedrock
//! to the highest surface, and the MOTION_BLOCKING heightmap.
use crate::chunk::{max_height_spec, opt_overlay_view, ChunkHeights};
use crate::coords::{chunk_coord, BEDROCK_Y, MAX_WORLD_Y};
use crate::overlay::{opt_view, OverlayView};
use crate::packing::{bits_for_range, is_bits_for_range, is_packing, pack_unsigned};
use crate::section::{
    build_section, column_views, lemma_palette_fold_distinct, name_views, packed_indices,
    section_biomes, section_blocks, section_has_blocks, section_ok, section_palette,
    biome_palette_spec, BlockView, ColumnSettings, ColumnView, SectionData,
};
use crate::slope::{evaluate_spec, SlopeStats, SmoothingSettings};
use crate::terrain::{
    first_biome_layer, first_top_layer, resolve_spec, CliffView, TerrainConfig,
};
use vstd::prelude::*;

verus! {

/// Lowest section of a chunk.
pub const MIN_SECTION_Y: i32 = -128;

/// Width of a MOTION_BLOCKING entry.
pub const HEIGHTMAP_BITS: usize = 12;

/// The biome a column's surface height selects, before overlays.
pub open spec fn policy_biome(t: TerrainConfig, h: i32) -> Seq<char> {
    match first_biome_layer(t.biome_layers@, h) {
        Some(i) => t.biome_layers@[i].biome@,
        None => t.base_biome@,
    }
}

pub open spec fn policy_top(t: TerrainConfig, h: i32) -> Seq<char> {
    match first_top_layer(t.top_block_layers@, h) {
        Some(i) => t.top_block_layers@[i].block@,
        None => t.top_layer_block@,
    }
}

pub open spec fn policy_cliff(t: TerrainConfig, h: i32) -> Option<CliffView> {
    resolve_spec(
        t.cliffs,
        match first_biome_layer(t.biome_layers@, h) {
            Some(i) => t.biome_layers@[i].cliff_override,
            None => None,
        },
    )
}

pub open spec fn or_else<T>(o: Option<T>, d: T) -> T {
    match o {
        Some(v) => v,
        None => d,
    }
}

/// The settings of one column: overlay overrides first, then the terrain
/// policy at the column's height, then the configuration's defaults.
pub open spec fn column_spec(
    h: Option<i32>,
    ov: Option<OverlayView>,
    stats: Seq<SlopeStats>,
    t: TerrainConfig,
) -> ColumnView {
    let cliff = match h {
        Some(s) => policy_cliff(t, s),
        None => None,
    };
    let thickness: u32 = match ov {
        Some(o) => match o.top_thickness {
            Some(v) => v,
            None => t.top_layer_thickness,
        },
        None => t.top_layer_thickness,
    };
    let thickness: u32 = if thickness == 0 { 1 } else { thickness };
    ColumnView {
        height: h,
        biome: or_else(
            match ov {
                Some(o) => o.biome,
                None => None,
            },
            match h {
                Some(s) => policy_biome(t, s),
                None => t.base_biome@,
            },
        ),
        top_block: or_else(
            match ov {
                Some(o) => o.surface_block,
                None => None,
            },
            match h {
                Some(s) => policy_top(t, s),
                None => t.top_layer_block@,
            },
        ),
        slope_mdeg: match (h, cliff) {
            (Some(_), Some(c)) => evaluate_spec(
                stats,
                SmoothingSettings {
                    smoothing_radius: c.smoothing_radius,
                    smoothing_factor: c.smoothing_factor,
                },
            ) as u32,
            _ => 0,
        },
        cliff,
        top_thickness: thickness,
        bottom_block_override: match ov {
            Some(o) => o.subsurface_block,
            None => None,
        },
        biome_min_y: match h {
            Some(s) => Some(
                (if s - thickness + 1 < i32::MIN { i32::MIN as int } else { s - thickness
                    + 1 }) as i32,
            ),
            None => None,
        },
        extrusion_block: match ov {
            Some(o) => o.extrusion_block,
            None => None,
        },
        extrusion_height: match ov {
            Some(o) => match o.extrusion_height {
                Some(v) => v,
                None => 0,
            },
            None => 0,
        },
    }
}

/// The settings of every column of a chunk, in `z * 16 + x` order.
pub open spec fn chunk_columns_spec(c: ChunkHeights, t: TerrainConfig) -> Seq<ColumnView> {
    Seq::new(
        256,
        |i: int| column_spec(c.heights@[i], opt_overlay_view(c.overlays@[i]), c.slopes@[i].stats@, t),
    )
}

fn clone_opt(o: &Option<String>) -> (r: Option<String>)
    ensures
        opt_view(r) == opt_view(*o),
{
    match o {
        Some(s) => Some(s.clone()),
        None => None,
    }
}

/// Resolves the material settings of every column of a chunk.
pub fn column_settings(columns: &ChunkHeights, terrain: &TerrainConfig) -> (r: Vec<ColumnSettings>)
    requires
        columns.wf(),
    ensures
        r@.len() == 256,
        column_views(r@) == chunk_columns_spec(*columns, *terrain),
{
    let mut out: Vec<ColumnSettings> = Vec::new();
    let mut i: usize = 0;
    while i < 256
        invariant
            i <= 256,
            columns.wf(),
            out@.len() == i,
            forall|k: int| 0 <= k < i ==> (#[trigger] out@[k])@ == column_spec(columns.heights@[k], opt_overlay_view(columns.overlays@[k]), columns.slopes@[k].stats@, *terrain),
        decreases 256 - i,
    {
        let height = columns.heights[i];
        let overlay = columns.overlays[i].as_ref();
        let (biome, top_block, cliff) = match height {
            Some(surface) => {
                let (b, c) = terrain.biome_and_cliff_for_height(surface);
                (b, terrain.top_block_for_height(surface), c)
            },
            None => (terrain.base_biome(), terrain.top_layer_block(), None),
        };
        let biome = match overlay {
            Some(o) => match &o.biome {
                Some(b) => b.clone(),
                None => biome,
            },
            None => biome,
        };
        let top_block = match overlay {
            Some(o) => match &o.surface_block {
                Some(b) => b.clone(),
                None => top_block,
            },
            None => top_block,
        };
        let slope_mdeg: u32 = match (height, &cliff) {
            (Some(_), Some(settings)) => columns.slopes[i].evaluate(&settings.smoothing()),
            _ => 0,
        };
        let thickness: u32 = match overlay {
            Some(o) => match o.top_thickness {
                Some(v) => v,
                None => terrain.top_layer_thickness,
            },
            None => terrain.top_layer_thickness,
        };
        let thickness: u32 = if thickness == 0 { 1 } else { thickness };
        let biome_min_y: Option<i32> = match height {
            Some(s) => {
                let m: i64 = s as i64 - thickness as i64 + 1;
                Some(if m < i32::MIN as i64 { i32::MIN } else { m as i32 })
            },
            None => None,
        };
        let (bottom, ext_block, ext_height) = match overlay {
            Some(o) => (
                clone_opt(&o.subsurface_block),
                clone_opt(&o.extrusion_block),
                match o.extrusion_height {
                    Some(v) => v,
                    None => 0,
                },
            ),
            None => (None, None, 0),
        };
        out.push(
            ColumnSettings {
                height,
                biome,
                top_block,
                slope_mdeg,
                cliff,
                top_thickness: thickness,
                bottom_block_override: bottom,
                biome_min_y,
                extrusion_block: ext_block,
                extrusion_height: ext_height,
            },
        );
        i = i + 1;
    }
    assert(column_views(out@) =~= chunk_columns_spec(*columns, *terrain));
    out
}

/// Highest section encoded for a chunk whose highest surface is `y`: the
/// section holding `y`, but not below the lowest section.
pub open spec fn section_of(y: int) -> int {
    if y / 16 < MIN_SECTION_Y { MIN_SECTION_Y as int } else { y / 16 }
}

/// Encodes the sections of a chunk from bedrock up to the section holding
/// `max_height`, leaving out every all-air section, in ascending order.
pub fn build_sections(columns: &ChunkHeights, max_height: i32, terrain: &TerrainConfig) -> (r: Vec<
    SectionData,
>)
    requires
        columns.wf(),
        max_height <= MAX_WORLD_Y,
    ensures
        forall|k: int|
            0 <= k < r@.len() ==> MIN_SECTION_Y <= (#[trigger] r@[k]).y <= section_of(max_height as int)
                && section_ok(r@[k], r@[k].y as int, chunk_columns_spec(*columns, *terrain), terrain.bottom_layer_block@, terrain.base_biome@),
        forall|k: int, l: int| 0 <= k < l < r@.len() ==> (#[trigger] r@[k]).y < (#[trigger] r@[l]).y,
        forall|sy: int|
            MIN_SECTION_Y <= sy <= section_of(max_height as int) ==> (section_has_blocks(sy, chunk_columns_spec(*columns, *terrain), terrain.bottom_layer_block@)
                <==> exists|k: int| 0 <= k < r@.len() && (#[trigger] r@[k]).y == sy),
{
    let cols = column_settings(columns, terrain);
    let ghost cv = chunk_columns_spec(*columns, *terrain);
    let bottom = terrain.bottom_layer_block();
    let base = terrain.base_biome();
    let top: i32 = chunk_coord(max_height);
    let top: i32 = if top < MIN_SECTION_Y { MIN_SECTION_Y } else { top };
    let mut out: Vec<SectionData> = Vec::new();
    let mut sy: i32 = MIN_SECTION_Y;
    while sy <= top
        invariant
            MIN_SECTION_Y <= sy <= top + 1,
            top <= 127,
            column_views(cols@) == cv,
            cv == chunk_columns_spec(*columns, *terrain),
            cols@.len() == 256,
            bottom@ == terrain.bottom_layer_block@,
            base@ == terrain.base_biome@,
            forall|k: int|
                0 <= k < out@.len() ==> MIN_SECTION_Y <= (#[trigger] out@[k]).y < sy
                    && section_ok(out@[k], out@[k].y as int, cv, bottom@, base@),
            forall|k: int, l: int| 0 <= k < l < out@.len() ==> (#[trigger] out@[k]).y < (#[trigger] out@[l]).y,
            forall|s: int|
                MIN_SECTION_Y <= s < sy ==> (section_has_blocks(s, cv, bottom@)
                    <==> exists|k: int| 0 <= k < out@.len() && (#[trigger] out@[k]).y == s),
        decreases top + 1 - sy,
    {
        let section = build_section(sy as i8, &cols, &bottom, &base);
        let ghost before = out@;
        match section {
            Some(s) => {
                out.push(s);
                proof {
                    assert forall|t: int|
                        MIN_SECTION_Y <= t < sy + 1 implies (section_has_blocks(t, cv, bottom@)
                            <==> exists|k: int| 0 <= k < out@.len() && (#[trigger] out@[k]).y == t) by {
                        if t < sy {
                            if exists|k: int| 0 <= k < out@.len() && (#[trigger] out@[k]).y == t {
                                let k = choose|k: int| 0 <= k < out@.len() && (#[trigger] out@[k]).y == t;
                                assert(k < before.len());
                                assert(before[k] == out@[k]);
                            }
                            if exists|k: int| 0 <= k < before.len() && (#[trigger] before[k]).y == t {
                                let k = choose|k: int| 0 <= k < before.len() && (#[trigger] before[k]).y == t;
                                assert(out@[k] == before[k]);
                            }
                        } else {
                            assert(out@[before.len() as int].y == t);
                        }
                    }
                }
            },
            None => {
                proof {
                    assert forall|t: int|
                        MIN_SECTION_Y <= t < sy + 1 implies (section_has_blocks(t, cv, bottom@)
                            <==> exists|k: int| 0 <= k < out@.len() && (#[trigger] out@[k]).y == t) by {
                        if t == sy {
                            if exists|k: int| 0 <= k < out@.len() && (#[trigger] out@[k]).y == t {
                                let k = choose|k: int| 0 <= k < out@.len() && (#[trigger] out@[k]).y == t;
                                assert(out@[k].y < sy);
                            }
                        }
                    }
                }
            },
        }
        sy = sy + 1;
    }
    out
}

/// MOTION_BLOCKING value of a column: blocks above bedrock, counting the
/// surface, 1 for an unknown column.
pub open spec fn motion_blocking(h: Option<i32>) -> u64 {
    let s: int = match h {
        Some(v) => v as int,
        None => BEDROCK_Y as int,
    };
    if s - BEDROCK_Y + 1 < 0 {
        0
    } else {
        (s - BEDROCK_Y + 1) as u64
    }
}

/// The packed MOTION_BLOCKING heightmap of a chunk, `HEIGHTMAP_BITS` bits per
/// column.
pub fn build_heightmap(columns: &ChunkHeights) -> (r: Vec<u64>)
    requires
        columns.wf(),
    ensures
        is_packing(r@, columns.heights@.map_values(|h: Option<i32>| motion_blocking(h)), HEIGHTMAP_BITS as nat),
{
    let mut values: Vec<u64> = Vec::new();
    let mut i: usize = 0;
    while i < 256
        invariant
            i <= 256,
            columns.wf(),
            values@ == columns.heights@.subrange(0, i as int).map_values(|h: Option<i32>| motion_blocking(h)),
        decreases 256 - i,
    {
        let h: i64 = match columns.heights[i] {
            Some(v) => v as i64,
            None => BEDROCK_Y as i64,
        };
        let rel: i64 = h - BEDROCK_Y as i64 + 1;
        values.push(if rel < 0 { 0 } else { rel as u64 });
        i = i + 1;
        assert(values@ =~= columns.heights@.subrange(0, i as int).map_values(|h: Option<i32>| motion_blocking(h)));
    }
    assert(columns.heights@.subrange(0, 256) =~= columns.heights@);
    let bits = bits_for_range((MAX_WORLD_Y - BEDROCK_Y + 2) as usize);
    proof {
        vstd::arithmetic::power2::lemma2_to64();
        vstd::arithmetic::power2::lemma_pow2(11);
        vstd::arithmetic::power2::lemma_pow2(12);
        if bits < 12 {
            vstd::arithmetic::power::lemma_pow_increases(2, bits as nat, 11);
        }
        if bits > 12 {
            vstd::arithmetic::power::lemma_pow_increases(2, 12, (bits - 1) as nat);
        }
    }
    assert(bits == HEIGHTMAP_BITS);
    pack_unsigned(&values, bits)
}

/// An encoded chunk, ready to be written as NBT.
#[derive(Debug)]
pub struct ChunkData {
    pub x_pos: i32,
    pub z_pos: i32,
    pub y_pos: i32,
    /// `minecraft:full`, or `minecraft:liquid_carvers` when features are generated.
    pub status: String,
    pub sections: Vec<SectionData>,
    pub heightmap: Vec<u64>,
    /// Whether the chunk carries the 24 empty post-processing lists.
    pub post_processing: bool,
}

pub open spec fn status_spec(generate_features: bool) -> Seq<char> {
    if generate_features {
        "minecraft:liquid_carvers"@
    } else {
        "minecraft:full"@
    }
}

fn status_for(generate_features: bool) -> (r: String)
    ensures
        r@ == status_spec(generate_features),
{
    if generate_features {
        String::from_str("minecraft:liquid_carvers")
    } else {
        String::from_str("minecraft:full")
    }
}

/// What encoding chunk `(chunk_x, chunk_z)` gives: nothing when no column
/// is known; else the chunk's position and status, its packed heightmap, and
/// its non-air sections in ascending order, each encoded as `section_ok` says.
pub open spec fn chunk_encoding_ok(chunk_x: i32, chunk_z: i32, columns: ChunkHeights, terrain: TerrainConfig, r: Option<ChunkData>) -> bool {
    &&& (max_height_spec(columns.heights@).is_none() <==> r.is_none())
    &&& r.is_some() ==> {
        let c = r.unwrap();
        let cv = chunk_columns_spec(columns, terrain);
        let top = section_of(max_height_spec(columns.heights@).unwrap() as int);
        &&& c.x_pos == chunk_x
        &&& c.z_pos == chunk_z
        &&& c.y_pos == MIN_SECTION_Y
        &&& c.status@ == status_spec(terrain.generate_features)
        &&& c.post_processing == terrain.generate_features
        &&& c.sections@.len() > 0
        &&& is_packing(c.heightmap@, columns.heights@.map_values(|h: Option<i32>| motion_blocking(h)), HEIGHTMAP_BITS as nat)
        &&& forall|k: int| 0 <= k < c.sections@.len() ==> MIN_SECTION_Y <= (#[trigger] c.sections@[k]).y <= top
            && section_ok(c.sections@[k], c.sections@[k].y as int, cv, terrain.bottom_layer_block@, terrain.base_biome@)
        &&& forall|k: int, l: int| 0 <= k < l < c.sections@.len() ==> (#[trigger] c.sections@[k]).y < (#[trigger] c.sections@[l]).y
        &&& forall|sy: int| MIN_SECTION_Y <= sy <= top ==> (section_has_blocks(sy, cv, terrain.bottom_layer_block@)
            <==> exists|k: int| 0 <= k < c.sections@.len() && (#[trigger] c.sections@[k]).y == sy)
    }
}

/// Encodes a chunk; nothing when it has no known column.
pub fn encode_chunk(chunk_x: i32, chunk_z: i32, columns: &ChunkHeights, terrain: &TerrainConfig) -> (r:
    Option<ChunkData>)
    requires
        columns.wf(),
        forall|i: int| 0 <= i < 256 ==> match #[trigger] columns.heights@[i] {
            Some(h) => h <= MAX_WORLD_Y,
            None => true,
        },
    ensures
        chunk_encoding_ok(chunk_x, chunk_z, *columns, *terrain, r),
{
    let max_height = match columns.max_height() {
        Some(v) => v,
        None => {
            return None;
        },
    };
    proof {
        lemma_max_height_is_some_height(columns.heights@);
    }
    let sections = build_sections(columns, max_height, terrain);
    proof {
        let cv = chunk_columns_spec(*columns, *terrain);
        assert(crate::section::section_block(MIN_SECTION_Y as int, cv, terrain.bottom_layer_block@, 0) == BlockView::Bedrock);
        assert(section_has_blocks(MIN_SECTION_Y as int, cv, terrain.bottom_layer_block@));
    }
    if sections.len() == 0 {
        return None;
    }
    let heightmap = build_heightmap(columns);
    Some(ChunkData {
        x_pos: chunk_x,
        z_pos: chunk_z,
        y_pos: MIN_SECTION_Y,
        status: status_for(terrain.generate_features),
        sections,
        heightmap,
        post_processing: terrain.generate_features,
    })
}

proof fn lemma_max_height_is_some_height(hs: Seq<Option<i32>>)
    ensures
        match max_height_spec(hs) {
            Some(m) => exists|i: int| 0 <= i < hs.len() && hs[i] == Some(m),
            None => forall|i: int| 0 <= i < hs.len() ==> (#[trigger] hs[i]).is_none(),
        },
    decreases hs.len(),
{
    if hs.len() > 0 {
        let init = hs.drop_last();
        lemma_max_height_is_some_height(init);
        match max_height_spec(init) {
            Some(m) => {
                let i = choose|i: int| 0 <= i < init.len() && init[i] == Some(m);
                assert(hs[i] == init[i]);
            },
            None => {
                assert forall|i: int| 0 <= i < hs.len() - 1 implies (#[trigger] hs[i]).is_none() by {
                    assert(hs[i] == init[i]);
                }
            },
        }
    }
}

/// A chunk with no section and a flat heightmap, used to pad around the
/// generated area.
pub fn encode_empty_chunk(chunk_x: i32, chunk_z: i32, terrain: &TerrainConfig) -> (r: ChunkData)
    ensures
        r.x_pos == chunk_x,
        r.z_pos == chunk_z,
        r.y_pos == MIN_SECTION_Y,
        r.status@ == status_spec(terrain.generate_features),
        r.post_processing == terrain.generate_features,
        r.sections@.len() == 0,
        is_packing(r.heightmap@, Seq::new(256, |i: int| 1u64), HEIGHTMAP_BITS as nat),
{
    let empty = ChunkHeights::new(0);
    let heightmap = build_heightmap(&empty);
    assert(empty.heights@.map_values(|h: Option<i32>| motion_blocking(h)) =~= Seq::new(256, |i: int| 1u64));
    ChunkData {
        x_pos: chunk_x,
        z_pos: chunk_z,
        y_pos: MIN_SECTION_Y,
        status: status_for(terrain.generate_features),
        sections: Vec::new(),
        heightmap,
        post_processing: terrain.generate_features,
    }
}

/// Two encoded sections hold the same values.
pub open spec fn same_section(a: SectionData, b: SectionData) -> bool {
    &&& a.y == b.y
    &&& name_views(a.block_palette@) == name_views(b.block_palette@)
    &&& a.block_indices@ == b.block_indices@
    &&& name_views(a.biome_palette@) == name_views(b.biome_palette@)
    &&& a.biome_indices@ == b.biome_indices@
    &&& same_data(a.block_data, b.block_data)
    &&& same_data(a.biome_data, b.biome_data)
}

pub open spec fn same_data(a: Option<Vec<u64>>, b: Option<Vec<u64>>) -> bool {
    (a.is_none() && b.is_none()) || (a.is_some() && b.is_some() && a.unwrap()@ == b.unwrap()@)
}

/// Two encoded chunks hold the same values.
pub open spec fn same_chunk(a: ChunkData, b: ChunkData) -> bool {
    &&& a.x_pos == b.x_pos && a.z_pos == b.z_pos && a.y_pos == b.y_pos
    &&& a.status@ == b.status@
    &&& a.post_processing == b.post_processing
    &&& a.heightmap@ == b.heightmap@
    &&& a.sections@.len() == b.sections@.len()
    &&& forall|k: int| 0 <= k < a.sections@.len() ==> same_section(#[trigger] a.sections@[k], b.sections@[k])
}

proof fn lemma_bits_unique(n: nat, a: nat, b: nat)
    requires
        is_bits_for_range(n, a),
        is_bits_for_range(n, b),
    ensures
        a == b,
{
    if a < b {
        vstd::arithmetic::power::lemma_pow_increases(2, a, (b - 1) as nat);
    } else if b < a {
        vstd::arithmetic::power::lemma_pow_increases(2, b, (a - 1) as nat);
    }
}

proof fn lemma_packing_unique(w1: Seq<u64>, w2: Seq<u64>, vals: Seq<u64>, bits: nat)
    requires
        is_packing(w1, vals, bits),
        is_packing(w2, vals, bits),
    ensures
        w1 == w2,
{
    assert(w1 =~= w2);
}

proof fn lemma_packed_unique(d1: Option<Vec<u64>>, d2: Option<Vec<u64>>, idx: Seq<u16>, len: nat, min_bits: nat)
    requires
        packed_indices(d1, idx, len, min_bits),
        packed_indices(d2, idx, len, min_bits),
    ensures
        same_data(d1, d2),
{
    if d1.is_some() {
        let b1 = choose|b: nat| #![trigger is_bits_for_range(len, b)] is_bits_for_range(len, b) && is_packing(
            d1.unwrap()@, idx.map_values(|v: u16| v as u64), if b < min_bits { min_bits } else { b });
        let b2 = choose|b: nat| #![trigger is_bits_for_range(len, b)] is_bits_for_range(len, b) && is_packing(
            d2.unwrap()@, idx.map_values(|v: u16| v as u64), if b < min_bits { min_bits } else { b });
        lemma_bits_unique(len, b1, b2);
        lemma_packing_unique(d1.unwrap()@, d2.unwrap()@, idx.map_values(|v: u16| v as u64), if b1 < min_bits { min_bits } else { b1 });
    }
}

/// A section's encoding is fixed by what it holds.
pub proof fn lemma_section_determined(s1: SectionData, s2: SectionData, sy: int, cols: Seq<ColumnView>, bottom: Seq<char>, base: Seq<char>)
    requires
        section_ok(s1, sy, cols, bottom, base),
        section_ok(s2, sy, cols, bottom, base),
    ensures
        same_section(s1, s2),
{
    let fold = section_palette(sy, cols, bottom);
    assert(seq![BlockView::Air].no_duplicates());
    lemma_palette_fold_distinct(seq![BlockView::Air], section_blocks(sy, cols, bottom, 4096));
    assert forall|p: int| 0 <= p < 4096 implies s1.block_indices@[p] == s2.block_indices@[p] by {
        assert(fold[s1.block_indices@[p] as int] == fold[s2.block_indices@[p] as int]);
        assert(name_views(s1.block_palette@).len() == fold.len());
    }
    assert(s1.block_indices@ =~= s2.block_indices@);
    let bfold = biome_palette_spec(sy, cols, base);
    lemma_palette_fold_distinct(Seq::<Seq<char>>::empty(), section_biomes(sy, cols, base, 4096));
    assert forall|c: int| 0 <= c < 64 implies s1.biome_indices@[c] == s2.biome_indices@[c] by {
        assert(name_views(s1.biome_palette@)[s1.biome_indices@[c] as int] == s1.biome_palette@[s1.biome_indices@[c] as int]@);
        assert(name_views(s2.biome_palette@)[s2.biome_indices@[c] as int] == s2.biome_palette@[s2.biome_indices@[c] as int]@);
        assert(bfold[s1.biome_indices@[c] as int] == bfold[s2.biome_indices@[c] as int]);
    }
    assert(s1.biome_indices@ =~= s2.biome_indices@);
    assert(s1.block_palette@.len() == name_views(s1.block_palette@).len());
    assert(s2.block_palette@.len() == name_views(s2.block_palette@).len());
    assert(s1.biome_palette@.len() == name_views(s1.biome_palette@).len());
    assert(s2.biome_palette@.len() == name_views(s2.biome_palette@).len());
    lemma_packed_unique(s1.block_data, s2.block_data, s1.block_indices@, s1.block_palette@.len(), 4);
    lemma_packed_unique(s1.biome_data, s2.biome_data, s1.biome_indices@, s1.biome_palette@.len(), 1);
}

/// Two strictly increasing sequences with the same members are equal.
proof fn lemma_sorted_unique(a: Seq<i8>, b: Seq<i8>)
    requires
        forall|k: int, l: int| 0 <= k < l < a.len() ==> #[trigger] a[k] < #[trigger] a[l],
        forall|k: int, l: int| 0 <= k < l < b.len() ==> #[trigger] b[k] < #[trigger] b[l],
        forall|v: i8| a.contains(v) <==> b.contains(v),
    ensures
        a == b,
    decreases a.len() + b.len(),
{
    if a.len() == 0 {
        if b.len() > 0 {
            assert(b.contains(b[0]));
        }
        assert(a =~= b);
    } else if b.len() == 0 {
        assert(a.contains(a[0]));
    } else {
        assert(a.contains(a[0]));
        assert(b.contains(b[0]));
        let i = choose|i: int| 0 <= i < b.len() && b[i] == a[0];
        let j = choose|j: int| 0 <= j < a.len() && a[j] == b[0];
        if i > 0 {
            assert(b[0] < b[i]);
            if j > 0 {
                assert(a[0] < a[j]);
            }
        }
        assert(a[0] == b[0]);
        let a1 = a.drop_first();
        let b1 = b.drop_first();
        assert forall|v: i8| a1.contains(v) <==> b1.contains(v) by {
            if a1.contains(v) {
                let k = choose|k: int| 0 <= k < a1.len() && a1[k] == v;
                assert(a[k + 1] == v);
                assert(a[0] < a[k + 1]);
                assert(b.contains(v));
                let m = choose|m: int| 0 <= m < b.len() && b[m] == v;
                assert(m != 0);
                assert(b1[m - 1] == v);
            }
            if b1.contains(v) {
                let k = choose|k: int| 0 <= k < b1.len() && b1[k] == v;
                assert(b[k + 1] == v);
                assert(b[0] < b[k + 1]);
                assert(a.contains(v));
                let m = choose|m: int| 0 <= m < a.len() && a[m] == v;
                assert(m != 0);
                assert(a1[m - 1] == v);
            }
        }
        assert forall|k: int, l: int| 0 <= k < l < a1.len() implies #[trigger] a1[k] < #[trigger] a1[l] by {
            assert(a[k + 1] < a[l + 1]);
        }
        assert forall|k: int, l: int| 0 <= k < l < b1.len() implies #[trigger] b1[k] < #[trigger] b1[l] by {
            assert(b[k + 1] < b[l + 1]);
        }
        lemma_sorted_unique(a1, b1);
        assert(a =~= seq![a[0]].add(a1));
        assert(b =~= seq![b[0]].add(b1));
    }
}

/// Encoding the same chunk twice gives the same values: what the writer
/// stores does not depend on the run.
pub proof fn lemma_encode_deterministic(chunk_x: i32, chunk_z: i32, columns: ChunkHeights, terrain: TerrainConfig, r1: Option<ChunkData>, r2: Option<ChunkData>)
    requires
        columns.wf(),
        chunk_encoding_ok(chunk_x, chunk_z, columns, terrain, r1),
        chunk_encoding_ok(chunk_x, chunk_z, columns, terrain, r2),
    ensures
        r1.is_none() <==> r2.is_none(),
        r1.is_some() ==> same_chunk(r1.unwrap(), r2.unwrap()),
{
    if r1.is_some() {
        let c1 = r1.unwrap();
        let c2 = r2.unwrap();
        let cv = chunk_columns_spec(columns, terrain);
        let bottom = terrain.bottom_layer_block@;
        let top = section_of(max_height_spec(columns.heights@).unwrap() as int);
        let ys1 = c1.sections@.map_values(|s: SectionData| s.y);
        let ys2 = c2.sections@.map_values(|s: SectionData| s.y);
        assert forall|v: i8| ys1.contains(v) <==> ys2.contains(v) by {
            if ys1.contains(v) {
                let k = choose|k: int| 0 <= k < ys1.len() && ys1[k] == v;
                assert(c1.sections@[k].y == v);
                assert(section_has_blocks(v as int, cv, bottom));
                let m = choose|m: int| 0 <= m < c2.sections@.len() && (#[trigger] c2.sections@[m]).y == v as int;
                assert(ys2[m] == v);
            }
            if ys2.contains(v) {
                let k = choose|k: int| 0 <= k < ys2.len() && ys2[k] == v;
                assert(c2.sections@[k].y == v);
                assert(section_has_blocks(v as int, cv, bottom));
                let m = choose|m: int| 0 <= m < c1.sections@.len() && (#[trigger] c1.sections@[m]).y == v as int;
                assert(ys1[m] == v);
            }
        }
        assert forall|k: int, l: int| 0 <= k < l < ys1.len() implies #[trigger] ys1[k] < #[trigger] ys1[l] by {
            assert(c1.sections@[k].y < c1.sections@[l].y);
        }
        assert forall|k: int, l: int| 0 <= k < l < ys2.len() implies #[trigger] ys2[k] < #[trigger] ys2[l] by {
            assert(c2.sections@[k].y < c2.sections@[l].y);
        }
        lemma_sorted_unique(ys1, ys2);
        assert forall|k: int| 0 <= k < c1.sections@.len() implies same_section(#[trigger] c1.sections@[k], c2.sections@[k]) by {
            assert(ys1[k] == ys2[k]);
            lemma_section_determined(c1.sections@[k], c2.sections@[k], c1.sections@[k].y as int, cv, bottom, terrain.base_biome@);
        }
        lemma_packing_unique(c1.heightmap@, c2.heightmap@, columns.heights@.map_values(|h: Option<i32>| motion_blocking(h)), HEIGHTMAP_BITS as nat);
    }
}

} // verus!
