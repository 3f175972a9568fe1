//! Building pillars from classified point clouds: each column under building
//! points gets an extrusion up to the highest point above its surface.
use crate::chunk::column_index;
use crate::chunk_map::ChunkMap;
use crate::coords::{chunk_coord, chunk_of, local_coord, local_of};
use crate::overlay::{ColumnOverlay, OverlayView};
use crate::raster::covered;
use crate::world::{column_key, column_key_exec, lemma_column_key_injective};
use std::collections::HashMap;
use vstd::prelude::*;
use vstd::std_specs::hash::axiom_u64_obeys_hash_table_key_model;

verus! {

/// Layer of building overlays: below every configured layer.
pub const BUILDING_LAYER_INDEX: i32 = -20;

/// Order of building overlays: above everything in their layer.
pub const BUILDING_ORDER: u32 = 0xffff_ffff;

/// Block that building pillars are made of.
pub const DEFAULT_BUILDING_BLOCK: &'static str = "minecraft:spruce_planks";

/// A building point in block coordinates.
#[derive(Clone, Copy, Debug, PartialEq, Eq)]
pub struct VoxelPoint {
    pub x: i32,
    pub y: i32,
    pub z: i32,
}

/// A block rectangle, bounds included.
#[derive(Clone, Copy, Debug, PartialEq, Eq)]
pub struct ChunkBounds {
    pub min_x: i32,
    pub max_x: i32,
    pub min_z: i32,
    pub max_z: i32,
}

pub open spec fn sat(v: int) -> int {
    if v < i32::MIN { i32::MIN as int } else if v > i32::MAX { i32::MAX as int } else { v }
}

impl ChunkBounds {
    /// The blocks of chunk `(chunk_x, chunk_z)` (saturating at the edges of `i32`).
    pub fn for_chunk(chunk_x: i32, chunk_z: i32) -> (r: Self)
        ensures
            r.min_x == sat(chunk_x * 16),
            r.min_z == sat(chunk_z * 16),
            r.max_x == sat(r.min_x + 15),
            r.max_z == sat(r.min_z + 15),
    {
        let mx: i64 = chunk_x as i64 * 16;
        let mz: i64 = chunk_z as i64 * 16;
        let min_x: i32 = if mx < i32::MIN as i64 { i32::MIN } else if mx > i32::MAX as i64 { i32::MAX } else { mx as i32 };
        let min_z: i32 = if mz < i32::MIN as i64 { i32::MIN } else if mz > i32::MAX as i64 { i32::MAX } else { mz as i32 };
        let max_x: i32 = if min_x as i64 + 15 > i32::MAX as i64 { i32::MAX } else { min_x + 15 };
        let max_z: i32 = if min_z as i64 + 15 > i32::MAX as i64 { i32::MAX } else { min_z + 15 };
        ChunkBounds { min_x, max_x, min_z, max_z }
    }

    /// The rectangle grown by `radius` on every side; unchanged for a radius of 0 or less.
    pub fn expanded(&self, radius: i32) -> (r: Self)
        ensures
            radius <= 0 ==> r == *self,
            radius > 0 ==> r == (ChunkBounds {
                min_x: sat(self.min_x - radius) as i32,
                max_x: sat(self.max_x + radius) as i32,
                min_z: sat(self.min_z - radius) as i32,
                max_z: sat(self.max_z + radius) as i32,
            }),
    {
        if radius <= 0 {
            return *self;
        }
        let s = |v: i64| -> (r: i32)
            ensures r == sat(v as int)
        {
            if v < i32::MIN as i64 { i32::MIN } else if v > i32::MAX as i64 { i32::MAX } else { v as i32 }
        };
        ChunkBounds {
            min_x: s(self.min_x as i64 - radius as i64),
            max_x: s(self.max_x as i64 + radius as i64),
            min_z: s(self.min_z as i64 - radius as i64),
            max_z: s(self.max_z as i64 + radius as i64),
        }
    }

    pub fn contains(&self, x: i32, z: i32) -> (r: bool)
        ensures
            r == (self.min_x <= x <= self.max_x && self.min_z <= z <= self.max_z),
    {
        x >= self.min_x && x <= self.max_x && z >= self.min_z && z <= self.max_z
    }
}

/// Surface of world column `(x, z)` in `m`, when its chunk and height are known.
pub open spec fn surface_at(m: ChunkMap, x: int, z: int) -> Option<i32> {
    let s = m.slot(chunk_of(x) as i32, chunk_of(z) as i32);
    if s.is_some() {
        m.chunks@[s.unwrap()].heights@[column_index(local_of(x), local_of(z))]
    } else {
        None
    }
}

/// Whether point `p` stands above a known surface.
pub open spec fn above_surface(m: ChunkMap, p: VoxelPoint) -> bool {
    match surface_at(m, p.x as int, p.z as int) {
        Some(s) => p.y > s,
        None => false,
    }
}

/// The top of one pillar.
#[derive(Clone, Copy, Debug, PartialEq, Eq)]
pub struct PillarTop {
    pub x: i32,
    pub z: i32,
    pub top: i32,
    pub surface: i32,
}

fn surface_of(m: &ChunkMap, x: i32, z: i32) -> (r: Option<i32>)
    requires
        m.wf(),
    ensures
        r == surface_at(*m, x as int, z as int),
{
    match m.get(chunk_coord(x), chunk_coord(z)) {
        Some(c) => c.column(local_coord(x), local_coord(z)),
        None => None,
    }
}

/// One pillar per column that has points above its surface, topped by the
/// highest of them.
pub fn pillar_tops(points: &Vec<VoxelPoint>, chunks: &ChunkMap) -> (r: Vec<PillarTop>)
    requires
        chunks.wf(),
    ensures
        forall|i: int| 0 <= i < r@.len() ==> {
            let t = #[trigger] r@[i];
            &&& surface_at(*chunks, t.x as int, t.z as int) == Some(t.surface)
            &&& t.top > t.surface
            &&& exists|k: int| 0 <= k < points@.len() && (#[trigger] points@[k]) == (VoxelPoint { x: t.x, y: t.top, z: t.z })
        },
        forall|k: int| 0 <= k < points@.len() && #[trigger] above_surface(*chunks, points@[k]) ==> exists|i: int|
            0 <= i < r@.len() && (#[trigger] r@[i]).x == points@[k].x && r@[i].z == points@[k].z && r@[i].top >= points@[k].y,
        forall|i: int, j: int| 0 <= i < j < r@.len() ==> (#[trigger] r@[i].x != #[trigger] r@[j].x || r@[i].z != r@[j].z),
{
    proof {
        broadcast use axiom_u64_obeys_hash_table_key_model;
    }
    let mut tops: Vec<PillarTop> = Vec::new();
    let mut index: HashMap<u64, usize> = HashMap::new();
    let mut k: usize = 0;
    while k < points.len()
        invariant
            chunks.wf(),
            k <= points@.len(),
            forall|i: int| 0 <= i < tops@.len() ==> {
                let t = #[trigger] tops@[i];
                &&& index@.contains_key(column_key(t.x, t.z))
                &&& index@[column_key(t.x, t.z)] == i
                &&& surface_at(*chunks, t.x as int, t.z as int) == Some(t.surface)
                &&& t.top > t.surface
                &&& exists|q: int| 0 <= q < points@.len() && (#[trigger] points@[q]) == (VoxelPoint { x: t.x, y: t.top, z: t.z })
            },
            forall|key: u64| #[trigger] index@.contains_key(key) ==> (index@[key] as int) < tops@.len()
                && column_key(tops@[index@[key] as int].x, tops@[index@[key] as int].z) == key,
            forall|q: int| 0 <= q < k && #[trigger] above_surface(*chunks, points@[q]) ==> exists|i: int|
                0 <= i < tops@.len() && (#[trigger] tops@[i]).x == points@[q].x && tops@[i].z == points@[q].z && tops@[i].top >= points@[q].y,
            forall|i: int, j: int| 0 <= i < j < tops@.len() ==> (#[trigger] tops@[i].x != #[trigger] tops@[j].x || tops@[i].z != tops@[j].z),
        decreases points@.len() - k,
    {
        let p = points[k];
        let ghost before = tops@;
        match surface_of(chunks, p.x, p.z) {
            Some(s) => {
                if p.y > s {
                    let key = column_key_exec(p.x, p.z);
                    match index.get(&key) {
                        Some(i) => {
                            let i = *i;
                            proof {
                                lemma_column_key_injective(tops@[i as int].x, tops@[i as int].z, p.x, p.z);
                            }
                            if p.y > tops[i].top {
                                tops.set(i, PillarTop { x: p.x, z: p.z, top: p.y, surface: s });
                                proof {
                                    assert(points@[k as int] == (VoxelPoint { x: p.x, y: p.y, z: p.z }));
                                }
                            }
                            proof {
                                assert forall|q: int| 0 <= q < k + 1 && #[trigger] above_surface(*chunks, points@[q]) implies exists|t: int|
                                    0 <= t < tops@.len() && (#[trigger] tops@[t]).x == points@[q].x && tops@[t].z == points@[q].z && tops@[t].top >= points@[q].y by {
                                    if q < k {
                                        let t = choose|t: int| 0 <= t < before.len() && (#[trigger] before[t]).x == points@[q].x && before[t].z == points@[q].z && before[t].top >= points@[q].y;
                                        assert(tops@[t].x == before[t].x && tops@[t].z == before[t].z && tops@[t].top >= before[t].top);
                                    } else {
                                        assert(tops@[i as int].x == p.x && tops@[i as int].z == p.z);
                                    }
                                }
                            }
                        },
                        None => {
                            let n = tops.len();
                            tops.push(PillarTop { x: p.x, z: p.z, top: p.y, surface: s });
                            index.insert(key, n);
                            proof {
                                assert(points@[k as int] == (VoxelPoint { x: p.x, y: p.y, z: p.z }));
                                assert forall|i: int| 0 <= i < tops@.len() implies {
                                    let t = #[trigger] tops@[i];
                                    &&& index@.contains_key(column_key(t.x, t.z))
                                    &&& index@[column_key(t.x, t.z)] == i
                                } by {
                                    if i < n && column_key(tops@[i].x, tops@[i].z) == key {
                                        assert(before[i] == tops@[i]);
                                    }
                                }
                                assert forall|i: int, j: int| 0 <= i < j < tops@.len() implies (#[trigger] tops@[i].x != #[trigger] tops@[j].x || tops@[i].z != tops@[j].z) by {
                                    if j == n && tops@[i].x == p.x && tops@[i].z == p.z {
                                        assert(index@.contains_key(column_key(before[i].x, before[i].z)));
                                    }
                                }
                                assert forall|q: int| 0 <= q < k + 1 && #[trigger] above_surface(*chunks, points@[q]) implies exists|t: int|
                                    0 <= t < tops@.len() && (#[trigger] tops@[t]).x == points@[q].x && tops@[t].z == points@[q].z && tops@[t].top >= points@[q].y by {
                                    if q < k {
                                        let t = choose|t: int| 0 <= t < before.len() && (#[trigger] before[t]).x == points@[q].x && before[t].z == points@[q].z && before[t].top >= points@[q].y;
                                        assert(tops@[t] == before[t]);
                                    } else {
                                        assert(tops@[n as int].x == p.x);
                                    }
                                }
                            }
                        },
                    }
                }
            },
            None => {},
        }
        k = k + 1;
    }
    tops
}

/// What a pillar overlay says: the building layer and order, the building
/// block stacked `top - surface` blocks high.
pub open spec fn pillar_overlay(t: PillarTop) -> OverlayView {
    OverlayView {
        layer_index: BUILDING_LAYER_INDEX,
        order: BUILDING_ORDER,
        biome: None,
        surface_block: None,
        subsurface_block: None,
        top_thickness: None,
        extrusion_block: Some(DEFAULT_BUILDING_BLOCK@),
        extrusion_height: Some((t.top - t.surface) as u32),
    }
}

/// Paints each pillar onto its column; returns how many were painted.
pub fn apply_pillars(tops: &Vec<PillarTop>, chunks: &mut ChunkMap) -> (r: usize)
    requires
        old(chunks).wf(),
        forall|i: int| 0 <= i < tops@.len() ==> (#[trigger] tops@[i]).top > tops@[i].surface,
        forall|i: int, j: int| 0 <= i < j < tops@.len() ==> (#[trigger] tops@[i].x != #[trigger] tops@[j].x || tops@[i].z != tops@[j].z),
    ensures
        final(chunks).wf(),
        final(chunks).keys@ == old(chunks).keys@,
        forall|i: int| 0 <= i < tops@.len() ==> covered(*final(chunks), (#[trigger] tops@[i]).x as int, tops@[i].z as int, pillar_overlay(tops@[i])),
        r <= tops@.len(),
{
    let mut painted: usize = 0;
    let mut i: usize = 0;
    while i < tops.len()
        invariant
            chunks.wf(),
            chunks.keys@ == old(chunks).keys@,
            chunks.index@ == old(chunks).index@,
            i <= tops@.len(),
            painted <= i,
            forall|k: int| 0 <= k < tops@.len() ==> (#[trigger] tops@[k]).top > tops@[k].surface,
            forall|a: int, b: int| 0 <= a < b < tops@.len() ==> (#[trigger] tops@[a].x != #[trigger] tops@[b].x || tops@[a].z != tops@[b].z),
            forall|k: int| 0 <= k < i ==> covered(*chunks, (#[trigger] tops@[k]).x as int, tops@[k].z as int, pillar_overlay(tops@[k])),
        decreases tops@.len() - i,
    {
        let t = tops[i];
        let height: u32 = (t.top as i64 - t.surface as i64) as u32;
        let overlay = ColumnOverlay::new(
            BUILDING_LAYER_INDEX,
            BUILDING_ORDER,
            None,
            None,
            None,
            None,
            Some(String::from_str(DEFAULT_BUILDING_BLOCK)),
            Some(height),
        );
        proof {
            reveal_strlit("minecraft:spruce_planks");
            assert(overlay@ == pillar_overlay(t));
        }
        let ghost before = *chunks;
        let done = chunks.apply_overlay_column(t.x, t.z, &overlay);
        proof {
            assert forall|k: int| 0 <= k < i + 1 implies covered(*chunks, (#[trigger] tops@[k]).x as int, tops@[k].z as int, pillar_overlay(tops@[k])) by {
                let u = tops@[k];
                if k < i {
                    assert(covered(before, u.x as int, u.z as int, pillar_overlay(u)));
                    assert(u.x != t.x || u.z != t.z);
                    if done {
                        let s = before.slot(chunk_of(t.x as int) as i32, chunk_of(t.z as int) as i32).unwrap();
                        let su = before.slot(chunk_of(u.x as int) as i32, chunk_of(u.z as int) as i32);
                        if su.is_some() && su.unwrap() == s {
                            let kk = before.keys@[s];
                            lemma_column_key_injective(kk.0, kk.1, chunk_of(u.x as int) as i32, chunk_of(u.z as int) as i32);
                            lemma_column_key_injective(kk.0, kk.1, chunk_of(t.x as int) as i32, chunk_of(t.z as int) as i32);
                            crate::chunk_map::lemma_local_distinct(u.x, u.z, t.x, t.z);
                            let d = column_index(local_of(u.x as int), local_of(u.z as int));
                            assert(0 <= d < 256) by {
                                vstd::arithmetic::div_mod::lemma_mod_bound(u.x as int, 16);
                                vstd::arithmetic::div_mod::lemma_mod_bound(u.z as int, 16);
                            }
                        } else if su.is_some() {
                            assert(chunks.chunks@[su.unwrap()] == before.chunks@[su.unwrap()]);
                        }
                    }
                }
            }
        }
        if done {
            painted = painted + 1;
        }
        i = i + 1;
    }
    painted
}

} // verus!
