//! World metadata, point location and spawn placement.
use crate::chunk_map::ChunkMap;
use crate::chunk::column_index;
use crate::coords::{
    chunk_coord, chunk_of, dem_to_block_spec, dem_to_minecraft, local_coord, local_of,
    model_to_world, round_div, round_div_i128, saturate_i32, world_x_spec, world_z_spec, ModelCoord,
    BEDROCK_Y,
};
use crate::world::{stats_from, WorldStats};
use vstd::prelude::*;

verus! {

/// Name of the metadata file written beside the region directory.
pub const META_FILE: &'static str = "francegen_meta.json";

/// Spawn height used when the centre column is unknown.
pub const DEFAULT_SPAWN_Y: i32 = -8;

/// What a generated world records about itself.
#[derive(Clone, Copy, Debug, PartialEq, Eq)]
pub struct WorldMetadata {
    pub origin_model_x_mm: i64,
    pub origin_model_z_mm: i64,
    pub min_x: i32,
    pub max_x: i32,
    pub min_z: i32,
    pub max_z: i32,
    pub min_height_mm: i64,
    pub max_height_mm: i64,
}

impl WorldMetadata {
    pub fn from_stats(origin: ModelCoord, stats: &WorldStats) -> (r: Self)
        ensures
            r == (WorldMetadata {
                origin_model_x_mm: origin.x_mm,
                origin_model_z_mm: origin.y_mm,
                min_x: stats.min_x,
                max_x: stats.max_x,
                min_z: stats.min_z,
                max_z: stats.max_z,
                min_height_mm: stats.min_height_mm,
                max_height_mm: stats.max_height_mm,
            }),
    {
        WorldMetadata {
            origin_model_x_mm: origin.x_mm,
            origin_model_z_mm: origin.y_mm,
            min_x: stats.min_x,
            max_x: stats.max_x,
            min_z: stats.min_z,
            max_z: stats.max_z,
            min_height_mm: stats.min_height_mm,
            max_height_mm: stats.max_height_mm,
        }
    }

    /// The statistics the metadata describes.
    pub fn to_stats(&self) -> (r: WorldStats)
        ensures
            r == stats_from(self.min_x, self.max_x, self.min_z, self.max_z, self.min_height_mm, self.max_height_mm),
    {
        let w: i64 = self.max_x as i64 - self.min_x as i64 + 1;
        let d: i64 = self.max_z as i64 - self.min_z as i64 + 1;
        WorldStats {
            width: if w < 0 { 0 } else { w as usize },
            depth: if d < 0 { 0 } else { d as usize },
            min_height_mm: self.min_height_mm,
            max_height_mm: self.max_height_mm,
            min_x: self.min_x,
            max_x: self.max_x,
            min_z: self.min_z,
            max_z: self.max_z,
            center_x2: self.min_x as i64 + self.max_x as i64,
            center_z2: self.min_z as i64 + self.max_z as i64,
        }
    }

    pub fn origin(&self) -> (r: ModelCoord)
        ensures
            r == (ModelCoord { x_mm: self.origin_model_x_mm, y_mm: self.origin_model_z_mm }),
    {
        ModelCoord { x_mm: self.origin_model_x_mm, y_mm: self.origin_model_z_mm }
    }
}

/// Statistics written to metadata and read back are unchanged.
pub proof fn lemma_metadata_round_trip(origin: ModelCoord, min_x: i32, max_x: i32, min_z: i32, max_z: i32, min_h: i64, max_h: i64)
    ensures
        ({
            let s = stats_from(min_x, max_x, min_z, max_z, min_h, max_h);
            let m = WorldMetadata {
                origin_model_x_mm: origin.x_mm,
                origin_model_z_mm: origin.y_mm,
                min_x: s.min_x,
                max_x: s.max_x,
                min_z: s.min_z,
                max_z: s.max_z,
                min_height_mm: s.min_height_mm,
                max_height_mm: s.max_height_mm,
            };
            stats_from(m.min_x, m.max_x, m.min_z, m.max_z, m.min_height_mm, m.max_height_mm) == s
        }),
{
}

/// Where `base` keeps the metadata: inside it when it is a directory,
/// else `base` itself.
pub fn metadata_path(base: &String, base_is_dir: bool) -> (r: String)
    ensures
        !base_is_dir ==> r@ == base@,
        base_is_dir ==> r@ == (if base@.len() == 0 || base@.last() == '/' { base@ } else { base@.push('/') }) + META_FILE@,
{
    let mut p = base.clone();
    if base_is_dir {
        let n = base.unicode_len();
        if n > 0 && base.get_char(n - 1) != '/' {
            crate::text::push_char(&mut p, '/');
        }
        p.append(META_FILE);
    }
    p
}

/// A model point located in a world.
#[derive(Clone, Copy, Debug, PartialEq, Eq)]
pub struct Location {
    pub block_x: i32,
    pub block_z: i32,
    pub chunk_x: i32,
    pub chunk_z: i32,
    pub in_chunk_x: i32,
    pub in_chunk_z: i32,
    pub block_y: Option<i32>,
}

/// Locates model point `(real_x, real_z)` (millimetres), and optionally an
/// elevation, in the world the metadata describes.
pub fn locate(metadata: &WorldMetadata, real_x_mm: i64, real_z_mm: i64, real_height_mm: Option<i64>) -> (r: Location)
    ensures
        ({
            let o = ModelCoord { x_mm: metadata.origin_model_x_mm, y_mm: metadata.origin_model_z_mm };
            let p = ModelCoord { x_mm: real_x_mm, y_mm: real_z_mm };
            &&& r.block_x == world_x_spec(o, p)
            &&& r.block_z == world_z_spec(o, p)
            &&& r.chunk_x == chunk_of(r.block_x as int)
            &&& r.chunk_z == chunk_of(r.block_z as int)
            &&& r.in_chunk_x == local_of(r.block_x as int)
            &&& r.in_chunk_z == local_of(r.block_z as int)
            &&& r.block_y == (match real_height_mm {
                Some(h) => Some(dem_to_block_spec(h as int) as i32),
                None => None,
            })
        }),
{
    let origin = metadata.origin();
    let (x, z) = model_to_world(&origin, &ModelCoord { x_mm: real_x_mm, y_mm: real_z_mm });
    Location {
        block_x: x,
        block_z: z,
        chunk_x: chunk_coord(x),
        chunk_z: chunk_coord(z),
        in_chunk_x: local_coord(x) as i32,
        in_chunk_z: local_coord(z) as i32,
        block_y: match real_height_mm {
            Some(h) => Some(dem_to_minecraft(h)),
            None => None,
        },
    }
}

/// Converting a world block to model coordinates and back gives the block.
pub proof fn lemma_locate_round_trip(o: ModelCoord, wx: i32, wz: i32)
    requires
        i64::MIN <= o.x_mm + wx * 1000 <= i64::MAX,
        i64::MIN <= o.y_mm - wz * 1000 <= i64::MAX,
    ensures
        world_x_spec(o, ModelCoord { x_mm: (o.x_mm + wx * 1000) as i64, y_mm: (o.y_mm - wz * 1000) as i64 }) == wx,
        world_z_spec(o, ModelCoord { x_mm: (o.x_mm + wx * 1000) as i64, y_mm: (o.y_mm - wz * 1000) as i64 }) == wz,
{
    let n = wx * 1000;
    let m = wz * 1000;
    if n >= 0 {
        assert((2 * n + 1000) / 2000 == wx) by (nonlinear_arith)
            requires n == wx * 1000, n >= 0;
    } else {
        assert((-2 * n + 1000) / 2000 == -wx) by (nonlinear_arith)
            requires n == wx * 1000, n < 0;
    }
    if m >= 0 {
        assert((2 * m + 1000) / 2000 == wz) by (nonlinear_arith)
            requires m == wz * 1000, m >= 0;
    } else {
        assert((-2 * m + 1000) / 2000 == -wz) by (nonlinear_arith)
            requires m == wz * 1000, m < 0;
    }
}

/// The model origin maps to block `(0, 0)`, and elevation 0 to bedrock.
pub proof fn lemma_origin_and_sea_level(o: ModelCoord)
    ensures
        world_x_spec(o, o) == 0,
        world_z_spec(o, o) == 0,
        dem_to_block_spec(0) == BEDROCK_Y,
{
    assert((2 * 0int + 1000) / 2000 == 0);
    assert((2 * (BEDROCK_Y as int * 1000) * -1 + 1000) / 2000 == 2048);
}

/// Spawn point and name written into `level.dat`.
#[derive(Debug)]
pub struct SpawnSettings {
    pub spawn_x: i32,
    pub spawn_y: i32,
    pub spawn_z: i32,
    pub level_name: String,
}

/// `v / 2` rounded halves away from zero.
pub open spec fn half_round(v: int) -> int {
    round_div(v, 2)
}

/// Spawn above the world centre: the centre rounded, at the surface of that
/// column when known, else at mid height.
pub fn spawn_settings(stats: &WorldStats, chunks: &ChunkMap, level_name: String) -> (r: SpawnSettings)
    requires
        chunks.wf(),
    ensures
        r.spawn_x == saturate_i32(half_round(stats.center_x2 as int)),
        r.spawn_z == saturate_i32(half_round(stats.center_z2 as int)),
        r.level_name@ == level_name@,
        ({
            let s = chunks.slot(chunk_of(r.spawn_x as int) as i32, chunk_of(r.spawn_z as int) as i32);
            let h = match s {
                Some(i) => chunks.chunks@[i].heights@[column_index(local_of(r.spawn_x as int), local_of(r.spawn_z as int))],
                None => None,
            };
            r.spawn_y == match h { Some(v) => v, None => DEFAULT_SPAWN_Y }
        }),
{
    let sx = round_div_i128(stats.center_x2 as i128, 2);
    let sz = round_div_i128(stats.center_z2 as i128, 2);
    let spawn_x: i32 = if sx < i32::MIN as i128 { i32::MIN } else if sx > i32::MAX as i128 { i32::MAX } else { sx as i32 };
    let spawn_z: i32 = if sz < i32::MIN as i128 { i32::MIN } else if sz > i32::MAX as i128 { i32::MAX } else { sz as i32 };
    let spawn_y = match chunks.get(chunk_coord(spawn_x), chunk_coord(spawn_z)) {
        Some(chunk) => match chunk.column(local_coord(spawn_x), local_coord(spawn_z)) {
            Some(h) => h,
            None => DEFAULT_SPAWN_Y,
        },
        None => DEFAULT_SPAWN_Y,
    };
    SpawnSettings { spawn_x, spawn_y, spawn_z, level_name }
}

} // verus!
