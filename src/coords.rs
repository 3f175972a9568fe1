//! World geometry: elevation-to-block mapping, model-to-world mapping and
//! chunk / region bucketing.
//!
//! Model coordinates and elevations are carried as integer millimetres, so
//! that every mapping is exact and can be stated over mathematical integers.
use vstd::prelude::*;

verus! {

/// Lowest block Y of the world; everything at or below it is bedrock.
pub const BEDROCK_Y: i32 = -2048;

/// Highest block Y that a surface may reach.
pub const MAX_WORLD_Y: i32 = 2031;

/// Side of a chunk and of a section, in blocks.
pub const SECTION_SIDE: usize = 16;

/// Number of blocks in one 16x16x16 section.
pub const BLOCKS_PER_SECTION: usize = 4096;

/// Side of a region, in chunks.
pub const REGION_SIDE: i32 = 32;

/// Millimetres per metre (and per block).
pub const MM_PER_M: i64 = 1000;

/// `n / d` rounded to the nearest integer, halves away from zero.
pub open spec fn round_div(n: int, d: int) -> int
    recommends
        d > 0,
{
    if n >= 0 {
        (2 * n + d) / (2 * d)
    } else {
        -((-2 * n + d) / (2 * d))
    }
}

pub open spec fn clamp_int(v: int, lo: int, hi: int) -> int {
    if v < lo {
        lo
    } else if v > hi {
        hi
    } else {
        v
    }
}

/// Block Y of a surface whose elevation is `mm` millimetres.
pub open spec fn dem_to_block_spec(mm: int) -> int {
    clamp_int(
        round_div(BEDROCK_Y as int * 1000 + mm, 1000),
        BEDROCK_Y as int,
        MAX_WORLD_Y as int,
    )
}

/// An integer saturated into the `i32` range.
pub open spec fn saturate_i32(v: int) -> int {
    clamp_int(v, i32::MIN as int, i32::MAX as int)
}

/// A model coordinate (Lambert93, y pointing north) in millimetres.
#[derive(Clone, Copy, Debug, PartialEq, Eq)]
pub struct ModelCoord {
    pub x_mm: i64,
    pub y_mm: i64,
}

/// World X of a model coordinate, relative to `origin`.
pub open spec fn world_x_spec(origin: ModelCoord, c: ModelCoord) -> int {
    saturate_i32(round_div(c.x_mm - origin.x_mm, 1000))
}

/// World Z of a model coordinate: model north is world -Z.
pub open spec fn world_z_spec(origin: ModelCoord, c: ModelCoord) -> int {
    saturate_i32(round_div(origin.y_mm - c.y_mm, 1000))
}

/// Chunk coordinate that holds block coordinate `w`.
pub open spec fn chunk_of(w: int) -> int {
    w / 16
}

/// Position of block coordinate `w` inside its chunk.
pub open spec fn local_of(w: int) -> int {
    w % 16
}

/// Region coordinate that holds chunk coordinate `c`.
pub open spec fn region_of(c: int) -> int {
    c / 32
}

/// Rounds `n / d` to the nearest integer, halves away from zero.
pub fn round_div_i128(n: i128, d: i128) -> (r: i128)
    requires
        0 < d <= 0x2_0000_0000,
        -0x1000_0000_0000_0000_0000 <= n <= 0x1000_0000_0000_0000_0000,
    ensures
        r == round_div(n as int, d as int),
{
    if n >= 0 {
        (2 * n + d) / (2 * d)
    } else {
        let m: i128 = 0 - n;
        let q: i128 = (2 * m + d) / (2 * d);
        0 - q
    }
}

fn clamp_i128(v: i128, lo: i128, hi: i128) -> (r: i128)
    requires
        lo <= hi,
    ensures
        r == clamp_int(v as int, lo as int, hi as int),
{
    if v < lo {
        lo
    } else if v > hi {
        hi
    } else {
        v
    }
}

/// Block Y of a surface at elevation `elevation_mm` millimetres:
/// `BEDROCK_Y + elevation` rounded, then clamped into `[BEDROCK_Y, MAX_WORLD_Y]`.
pub fn dem_to_minecraft(elevation_mm: i64) -> (y: i32)
    ensures
        y as int == dem_to_block_spec(elevation_mm as int),
        BEDROCK_Y <= y <= MAX_WORLD_Y,
{
    let total: i128 = (BEDROCK_Y as i128) * 1000 + elevation_mm as i128;
    let rounded = round_div_i128(total, 1000);
    clamp_i128(rounded, BEDROCK_Y as i128, MAX_WORLD_Y as i128) as i32
}

/// Maps a model coordinate to the world block `(x, z)`, given the model
/// coordinate that stands for block `(0, 0)`.
pub fn model_to_world(origin: &ModelCoord, coord: &ModelCoord) -> (r: (i32, i32))
    ensures
        r.0 as int == world_x_spec(*origin, *coord),
        r.1 as int == world_z_spec(*origin, *coord),
{
    let dx: i128 = coord.x_mm as i128 - origin.x_mm as i128;
    let dz: i128 = origin.y_mm as i128 - coord.y_mm as i128;
    let wx = clamp_i128(round_div_i128(dx, 1000), i32::MIN as i128, i32::MAX as i128);
    let wz = clamp_i128(round_div_i128(dz, 1000), i32::MIN as i128, i32::MAX as i128);
    (wx as i32, wz as i32)
}

/// Chunk coordinate of a block coordinate (division rounding down).
pub fn chunk_coord(w: i32) -> (c: i32)
    ensures
        c as int == chunk_of(w as int),
{
    let shifted: i64 = w as i64 + 0x8000_0000;
    let q: i64 = shifted / 16;
    (q - 0x800_0000) as i32
}

/// Position of a block coordinate inside its chunk, in `0..16`.
pub fn local_coord(w: i32) -> (l: usize)
    ensures
        l as int == local_of(w as int),
        l < 16,
{
    let shifted: i64 = w as i64 + 0x8000_0000;
    (shifted % 16) as usize
}

/// Region coordinate of a chunk coordinate (division rounding down).
pub fn region_coord(c: i32) -> (r: i32)
    ensures
        r as int == region_of(c as int),
{
    let shifted: i64 = c as i64 + 0x8000_0000;
    let q: i64 = shifted / 32;
    (q - 0x400_0000) as i32
}

/// Slot of a chunk inside its region, in `0..32`.
pub fn region_slot(c: i32) -> (s: usize)
    ensures
        s as int == c as int % 32,
        s < 32,
{
    let shifted: i64 = c as i64 + 0x8000_0000;
    (shifted % 32) as usize
}

} // verus!
