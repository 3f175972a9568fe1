//! Raster ingest: elevation samples folded into a column-height map with a
//! shared world origin and running bounds and height statistics.
use crate::coords::{
    BEDROCK_Y, MAX_WORLD_Y, dem_to_block_spec, dem_to_minecraft, model_to_world, world_x_spec, world_z_spec, ModelCoord,
};
use std::collections::HashMap;
use vstd::prelude::*;
use vstd::std_specs::hash::axiom_u64_obeys_hash_table_key_model;

verus! {

/// A rectangle of model coordinates, bounds included.
#[derive(Clone, Copy, Debug, PartialEq, Eq)]
pub struct ModelBounds {
    pub min_x_mm: i64,
    pub max_x_mm: i64,
    pub min_z_mm: i64,
    pub max_z_mm: i64,
}

impl ModelBounds {
    pub open spec fn holds(&self, c: ModelCoord) -> bool {
        self.min_x_mm <= c.x_mm <= self.max_x_mm && self.min_z_mm <= c.y_mm <= self.max_z_mm
    }

    pub fn contains(&self, coord: &ModelCoord) -> (r: bool)
        ensures
            r == self.holds(*coord),
    {
        coord.x_mm >= self.min_x_mm && coord.x_mm <= self.max_x_mm && coord.y_mm >= self.min_z_mm
            && coord.y_mm <= self.max_z_mm
    }
}

/// One valid elevation sample of a tile.
#[derive(Clone, Copy, Debug, PartialEq, Eq)]
pub struct ElevationSample {
    pub coord: ModelCoord,
    pub elevation_mm: i64,
}

/// Extent and height range of what was ingested. The centre of the world is
/// `(min + max) / 2`; it is kept doubled so that it stays an integer.
#[derive(Clone, Copy, Debug, PartialEq, Eq)]
pub struct WorldStats {
    pub width: usize,
    pub depth: usize,
    pub min_height_mm: i64,
    pub max_height_mm: i64,
    pub min_x: i32,
    pub max_x: i32,
    pub min_z: i32,
    pub max_z: i32,
    pub center_x2: i64,
    pub center_z2: i64,
}

pub open spec fn span(lo: int, hi: int) -> int {
    if hi - lo + 1 < 0 {
        0
    } else {
        hi - lo + 1
    }
}

pub open spec fn imin(a: int, b: int) -> int {
    if a <= b {
        a
    } else {
        b
    }
}

pub open spec fn imax(a: int, b: int) -> int {
    if a >= b {
        a
    } else {
        b
    }
}

/// Statistics with the given bounds; width, depth and centre follow from them.
pub open spec fn stats_from(min_x: i32, max_x: i32, min_z: i32, max_z: i32, min_h: i64, max_h: i64) -> WorldStats {
    WorldStats {
        width: span(min_x as int, max_x as int) as usize,
        depth: span(min_z as int, max_z as int) as usize,
        min_height_mm: min_h,
        max_height_mm: max_h,
        min_x,
        max_x,
        min_z,
        max_z,
        center_x2: (min_x + max_x) as i64,
        center_z2: (min_z + max_z) as i64,
    }
}

/// Statistics of no sample at all.
pub open spec fn no_stats() -> WorldStats {
    stats_from(i32::MAX, i32::MIN, i32::MAX, i32::MIN, i64::MAX, i64::MIN)
}

/// Statistics after one more column `(x, z)` at elevation `h`.
pub open spec fn add_point(s: WorldStats, x: i32, z: i32, h: i64) -> WorldStats {
    stats_from(
        imin(s.min_x as int, x as int) as i32,
        imax(s.max_x as int, x as int) as i32,
        imin(s.min_z as int, z as int) as i32,
        imax(s.max_z as int, z as int) as i32,
        imin(s.min_height_mm as int, h as int) as i64,
        imax(s.max_height_mm as int, h as int) as i64,
    )
}

/// Statistics of a sequence of `(x, z, elevation)` points.
pub open spec fn stats_of(pts: Seq<(i32, i32, i64)>) -> WorldStats
    decreases pts.len(),
{
    if pts.len() == 0 {
        no_stats()
    } else {
        let p = pts.last();
        add_point(stats_of(pts.drop_last()), p.0, p.1, p.2)
    }
}

/// The statistics covering both arguments.
pub open spec fn union_spec(a: WorldStats, b: WorldStats) -> WorldStats {
    stats_from(
        imin(a.min_x as int, b.min_x as int) as i32,
        imax(a.max_x as int, b.max_x as int) as i32,
        imin(a.min_z as int, b.min_z as int) as i32,
        imax(a.max_z as int, b.max_z as int) as i32,
        imin(a.min_height_mm as int, b.min_height_mm as int) as i64,
        imax(a.max_height_mm as int, b.max_height_mm as int) as i64,
    )
}

fn make_stats(min_x: i32, max_x: i32, min_z: i32, max_z: i32, min_h: i64, max_h: i64) -> (r: WorldStats)
    ensures
        r == stats_from(min_x, max_x, min_z, max_z, min_h, max_h),
{
    let w: i64 = max_x as i64 - min_x as i64 + 1;
    let d: i64 = max_z as i64 - min_z as i64 + 1;
    WorldStats {
        width: if w < 0 { 0 } else { w as usize },
        depth: if d < 0 { 0 } else { d as usize },
        min_height_mm: min_h,
        max_height_mm: max_h,
        min_x,
        max_x,
        min_z,
        max_z,
        center_x2: min_x as i64 + max_x as i64,
        center_z2: min_z as i64 + max_z as i64,
    }
}

impl WorldStats {
    /// Statistics that cover both `self` and `other`.
    pub fn union(&self, other: &WorldStats) -> (r: WorldStats)
        ensures
            r == union_spec(*self, *other),
    {
        make_stats(
            if self.min_x <= other.min_x { self.min_x } else { other.min_x },
            if self.max_x >= other.max_x { self.max_x } else { other.max_x },
            if self.min_z <= other.min_z { self.min_z } else { other.min_z },
            if self.max_z >= other.max_z { self.max_z } else { other.max_z },
            if self.min_height_mm <= other.min_height_mm { self.min_height_mm } else { other.min_height_mm },
            if self.max_height_mm >= other.max_height_mm { self.max_height_mm } else { other.max_height_mm },
        )
    }
}

/// Merging the statistics of two sets of samples gives the statistics of
/// all the samples together.
pub proof fn lemma_stats_union(a: Seq<(i32, i32, i64)>, b: Seq<(i32, i32, i64)>)
    ensures
        union_spec(stats_of(a), stats_of(b)) == stats_of(a + b),
    decreases b.len(),
{
    if b.len() == 0 {
        assert(a + b =~= a);
        lemma_stats_shape(a);
    } else {
        let bi = b.drop_last();
        lemma_stats_union(a, bi);
        assert((a + b).drop_last() =~= a + bi);
        assert((a + b).last() == b.last());
    }
}

proof fn lemma_stats_shape(a: Seq<(i32, i32, i64)>)
    ensures
        union_spec(stats_of(a), no_stats()) == stats_of(a),
    decreases a.len(),
{
    if a.len() > 0 {
        lemma_stats_shape(a.drop_last());
    }
}

/// Key of column `(x, z)` in the column index.
pub open spec fn column_key(x: i32, z: i32) -> u64 {
    ((x as int + 0x8000_0000) * 0x1_0000_0000 + (z as int + 0x8000_0000)) as u64
}

pub(crate) fn column_key_exec(x: i32, z: i32) -> (k: u64)
    ensures
        k == column_key(x, z),
{
    let hi: u64 = (x as i64 + 0x8000_0000) as u64;
    let lo: u64 = (z as i64 + 0x8000_0000) as u64;
    assert(hi * 0x1_0000_0000 + lo <= u64::MAX) by (nonlinear_arith)
        requires hi < 0x1_0000_0000, lo < 0x1_0000_0000;
    hi * 0x1_0000_0000 + lo
}

pub proof fn lemma_column_key_injective(x1: i32, z1: i32, x2: i32, z2: i32)
    requires
        column_key(x1, z1) == column_key(x2, z2),
    ensures
        x1 == x2 && z1 == z2,
{
    let a1 = x1 as int + 0x8000_0000;
    let b1 = z1 as int + 0x8000_0000;
    let a2 = x2 as int + 0x8000_0000;
    let b2 = z2 as int + 0x8000_0000;
    assert(a1 * 0x1_0000_0000 + b1 == a2 * 0x1_0000_0000 + b2);
    if a1 < a2 {
        assert(a1 * 0x1_0000_0000 + b1 < a2 * 0x1_0000_0000 + b2) by (nonlinear_arith)
            requires a1 < a2, 0 <= b1 < 0x1_0000_0000, 0 <= b2;
    } else if a1 > a2 {
        assert(a1 * 0x1_0000_0000 + b1 > a2 * 0x1_0000_0000 + b2) by (nonlinear_arith)
            requires a1 > a2, 0 <= b2 < 0x1_0000_0000, 0 <= b1;
    }
}

/// One known column.
#[derive(Clone, Copy, Debug, PartialEq, Eq)]
pub struct ColumnEntry {
    pub x: i32,
    pub z: i32,
    pub height: i32,
}

/// The column map as the world sees it.
pub open spec fn column_map(entries: Seq<ColumnEntry>, index: Map<u64, usize>) -> Map<(i32, i32), i32> {
    Map::new(
        |k: (i32, i32)| index.contains_key(column_key(k.0, k.1)),
        |k: (i32, i32)| entries[index[column_key(k.0, k.1)] as int].height,
    )
}

/// Folds the world in samples.
pub struct WorldBuilder {
    pub bounds: Option<ModelBounds>,
    pub origin: Option<ModelCoord>,
    pub entries: Vec<ColumnEntry>,
    pub index: HashMap<u64, usize>,
    pub samples: usize,
    pub stats: WorldStats,
}

/// Whether the builder keeps a sample.
pub open spec fn accepts(bounds: Option<ModelBounds>, s: ElevationSample) -> bool {
    match bounds {
        Some(b) => b.holds(s.coord),
        None => true,
    }
}

/// The column map after the accepted samples of `s` are written in turn;
/// a later sample of a column overwrites an earlier one.
pub open spec fn ingest_map(
    m: Map<(i32, i32), i32>,
    origin: ModelCoord,
    bounds: Option<ModelBounds>,
    s: Seq<ElevationSample>,
) -> Map<(i32, i32), i32>
    decreases s.len(),
{
    if s.len() == 0 {
        m
    } else {
        let prev = ingest_map(m, origin, bounds, s.drop_last());
        let e = s.last();
        if accepts(bounds, e) {
            prev.insert(
                (world_x_spec(origin, e.coord) as i32, world_z_spec(origin, e.coord) as i32),
                dem_to_block_spec(e.elevation_mm as int) as i32,
            )
        } else {
            prev
        }
    }
}

/// The points that the accepted samples of `s` contribute to the statistics.
pub open spec fn ingest_points(origin: ModelCoord, bounds: Option<ModelBounds>, s: Seq<ElevationSample>) -> Seq<(i32, i32, i64)>
    decreases s.len(),
{
    if s.len() == 0 {
        Seq::empty()
    } else {
        let prev = ingest_points(origin, bounds, s.drop_last());
        let e = s.last();
        if accepts(bounds, e) {
            prev.push((world_x_spec(origin, e.coord) as i32, world_z_spec(origin, e.coord) as i32, e.elevation_mm))
        } else {
            prev
        }
    }
}

impl WorldBuilder {
    /// The entries, the index and the column map agree.
    pub open spec fn wf(&self) -> bool {
        &&& forall|i: int| 0 <= i < self.entries@.len() ==> {
            let e = #[trigger] self.entries@[i];
            &&& self.index@.contains_key(column_key(e.x, e.z))
            &&& self.index@[column_key(e.x, e.z)] == i
        }
        &&& forall|k: u64| #[trigger] self.index@.contains_key(k) ==> {
            &&& (self.index@[k] as int) < self.entries@.len()
            &&& column_key(self.entries@[self.index@[k] as int].x, self.entries@[self.index@[k] as int].z) == k
        }
    }

    /// The known columns, keyed by `(x, z)`.
    pub open spec fn columns(&self) -> Map<(i32, i32), i32> {
        column_map(self.entries@, self.index@)
    }

    /// An empty world, optionally limited to `bounds`.
    pub fn new(bounds: Option<ModelBounds>) -> (r: Self)
        ensures
            r.wf(),
            r.columns() == Map::<(i32, i32), i32>::empty(),
            r.bounds == bounds,
            r.origin.is_none(),
            r.samples == 0,
            r.stats == no_stats(),
    {
        let r = WorldBuilder {
            bounds,
            origin: None,
            entries: Vec::new(),
            index: HashMap::new(),
            samples: 0,
            stats: make_stats(i32::MAX, i32::MIN, i32::MAX, i32::MIN, i64::MAX, i64::MIN),
        };
        assert(r.columns() =~= Map::<(i32, i32), i32>::empty());
        r
    }

    /// Fixes the model coordinate of block `(0, 0)`.
    pub fn set_origin(&mut self, origin: ModelCoord)
        ensures
            final(self).origin == Some(origin),
            final(self).entries == old(self).entries,
            final(self).index == old(self).index,
            final(self).samples == old(self).samples,
            final(self).stats == old(self).stats,
            final(self).bounds == old(self).bounds,
    {
        self.origin = Some(origin);
    }

    pub fn sample_count(&self) -> (r: usize)
        ensures
            r == self.samples,
    {
        self.samples
    }

    pub fn column_count(&self) -> (r: usize)
        ensures
            r == self.entries@.len(),
    {
        self.entries.len()
    }

    pub fn origin_coord(&self) -> (r: Option<ModelCoord>)
        ensures
            r == self.origin,
    {
        self.origin
    }

    /// Height of column `(x, z)`, if known.
    pub fn column(&self, x: i32, z: i32) -> (r: Option<i32>)
        requires
            self.wf(),
        ensures
            r == (if self.columns().contains_key((x, z)) {
                Some(self.columns()[(x, z)])
            } else {
                None
            }),
    {
        proof {
            broadcast use axiom_u64_obeys_hash_table_key_model;
        }
        let key = column_key_exec(x, z);
        match self.index.get(&key) {
            Some(i) => Some(self.entries[*i].height),
            None => None,
        }
    }

    fn put(&mut self, x: i32, z: i32, height: i32)
        requires
            old(self).wf(),
        ensures
            final(self).wf(),
            final(self).columns() == old(self).columns().insert((x, z), height),
            final(self).bounds == old(self).bounds,
            final(self).origin == old(self).origin,
            final(self).samples == old(self).samples,
            final(self).stats == old(self).stats,
    {
        proof {
            broadcast use axiom_u64_obeys_hash_table_key_model;
        }
        let key = column_key_exec(x, z);
        let ghost before = self.columns();
        match self.index.get(&key) {
            Some(i) => {
                let i = *i;
                let ghost e = self.entries@[i as int];
                proof {
                    lemma_column_key_injective(e.x, e.z, x, z);
                }
                self.entries.set(i, ColumnEntry { x, z, height });
                proof {
                    assert forall|k: (i32, i32)| #[trigger] self.columns().contains_key(k) implies self.columns()[k] == before.insert((x, z), height)[k] by {
                        if k != (x, z) {
                            if self.index@[column_key(k.0, k.1)] == i {
                                lemma_column_key_injective(k.0, k.1, x, z);
                            }
                        }
                    }
                    assert(self.columns() =~= before.insert((x, z), height));
                }
            },
            None => {
                let n = self.entries.len();
                self.entries.push(ColumnEntry { x, z, height });
                self.index.insert(key, n);
                proof {
                    assert forall|i: int| 0 <= i < self.entries@.len() implies {
                        let e = #[trigger] self.entries@[i];
                        &&& self.index@.contains_key(column_key(e.x, e.z))
                        &&& self.index@[column_key(e.x, e.z)] == i
                    } by {
                        if i < n {
                            let e = self.entries@[i];
                            if column_key(e.x, e.z) == key {
                                assert(false);
                            }
                        }
                    }
                    assert forall|k: (i32, i32)| #[trigger] self.columns().contains_key(k) implies self.columns()[k] == before.insert((x, z), height)[k] by {
                        if k != (x, z) {
                            if column_key(k.0, k.1) == key {
                                lemma_column_key_injective(k.0, k.1, x, z);
                            }
                        }
                    }
                    assert forall|k: (i32, i32)| #[trigger] before.insert((x, z), height).contains_key(k) implies self.columns().contains_key(k) by {}
                    assert(self.columns() =~= before.insert((x, z), height));
                }
            },
        }
    }

    /// Folds the samples of one tile into the world. The first tile fixes the
    /// origin for good; each sample inside the bounds sets the height of its
    /// column and widens the statistics.
    pub fn ingest_tile(&mut self, tile_origin: ModelCoord, samples: &Vec<ElevationSample>)
        requires
            old(self).wf(),
            old(self).samples + samples@.len() <= usize::MAX,
        ensures
            final(self).wf(),
            final(self).origin == Some(match old(self).origin {
                Some(o) => o,
                None => tile_origin,
            }),
            final(self).columns() == ingest_map(old(self).columns(), final(self).origin.unwrap(), old(self).bounds, samples@),
            final(self).stats == stats_of_from(old(self).stats, ingest_points(final(self).origin.unwrap(), old(self).bounds, samples@)),
            final(self).samples == old(self).samples + ingest_points(final(self).origin.unwrap(), old(self).bounds, samples@).len(),
            final(self).bounds == old(self).bounds,
    {
        let origin = match self.origin {
            Some(o) => o,
            None => tile_origin,
        };
        self.origin = Some(origin);
        let ghost start_map = self.columns();
        let ghost start_stats = self.stats;
        let ghost start_samples = self.samples;
        let mut i: usize = 0;
        while i < samples.len()
            invariant
                i <= samples@.len(),
                self.wf(),
                self.origin == Some(origin),
                self.bounds == old(self).bounds,
                start_samples == old(self).samples,
                start_samples + samples@.len() <= usize::MAX,
                self.columns() == ingest_map(start_map, origin, self.bounds, samples@.subrange(0, i as int)),
                self.stats == stats_of_from(start_stats, ingest_points(origin, self.bounds, samples@.subrange(0, i as int))),
                self.samples == start_samples + ingest_points(origin, self.bounds, samples@.subrange(0, i as int)).len(),
                ingest_points(origin, self.bounds, samples@.subrange(0, i as int)).len() <= i,
            decreases samples@.len() - i,
        {
            let s = samples[i];
            proof {
                assert(samples@.subrange(0, i + 1).drop_last() =~= samples@.subrange(0, i as int));
            }
            let keep = match self.bounds {
                Some(b) => b.contains(&s.coord),
                None => true,
            };
            if keep {
                self.samples = self.samples + 1;
                let (wx, wz) = model_to_world(&origin, &s.coord);
                let h = dem_to_minecraft(s.elevation_mm);
                self.put(wx, wz, h);
                let st = self.stats;
                self.stats = make_stats(
                    if st.min_x <= wx { st.min_x } else { wx },
                    if st.max_x >= wx { st.max_x } else { wx },
                    if st.min_z <= wz { st.min_z } else { wz },
                    if st.max_z >= wz { st.max_z } else { wz },
                    if st.min_height_mm <= s.elevation_mm { st.min_height_mm } else { s.elevation_mm },
                    if st.max_height_mm >= s.elevation_mm { st.max_height_mm } else { s.elevation_mm },
                );
                proof {
                    let pts = ingest_points(origin, self.bounds, samples@.subrange(0, i as int));
                    let np = pts.push((wx, wz, s.elevation_mm));
                    assert(np.drop_last() =~= pts);
                    assert(ingest_points(origin, self.bounds, samples@.subrange(0, i + 1)) == np);
                }
            }
            i = i + 1;
        }
        assert(samples@.subrange(0, samples@.len() as int) =~= samples@);
    }

    /// Statistics of everything ingested; nothing when no column is known.
    pub fn stats(&self) -> (r: Option<WorldStats>)
        ensures
            self.entries@.len() == 0 <==> r.is_none(),
            r.is_some() ==> r.unwrap() == self.stats,
    {
        if self.entries.len() == 0 {
            None
        } else {
            Some(self.stats)
        }
    }
}

/// Statistics `s` widened by each of `pts` in turn.
pub open spec fn stats_of_from(s: WorldStats, pts: Seq<(i32, i32, i64)>) -> WorldStats
    decreases pts.len(),
{
    if pts.len() == 0 {
        s
    } else {
        let p = pts.last();
        add_point(stats_of_from(s, pts.drop_last()), p.0, p.1, p.2)
    }
}

/// Every height of a column map lies in `[BEDROCK_Y, MAX_WORLD_Y]`.
pub open spec fn heights_in_range(m: Map<(i32, i32), i32>) -> bool {
    forall|k: (i32, i32)| #[trigger] m.contains_key(k) ==> BEDROCK_Y <= m[k] <= MAX_WORLD_Y
}

proof fn lemma_dem_in_range(mm: int)
    ensures
        BEDROCK_Y <= dem_to_block_spec(mm) <= MAX_WORLD_Y,
{
}

/// Ingest keeps every surface between bedrock and the world's top.
pub proof fn lemma_ingest_heights_in_range(
    m: Map<(i32, i32), i32>,
    origin: ModelCoord,
    bounds: Option<ModelBounds>,
    s: Seq<ElevationSample>,
)
    requires
        heights_in_range(m),
    ensures
        heights_in_range(ingest_map(m, origin, bounds, s)),
    decreases s.len(),
{
    if s.len() > 0 {
        lemma_ingest_heights_in_range(m, origin, bounds, s.drop_last());
        lemma_dem_in_range(s.last().elevation_mm as int);
    }
}

/// A known neighbour of a column: its offset and the height difference.
#[derive(Clone, Copy, Debug, PartialEq, Eq)]
pub struct NeighborDiff {
    pub dx: i32,
    pub dz: i32,
    pub diff: u32,
}

pub open spec fn cheb(dx: int, dz: int) -> int {
    let a = if dx < 0 { -dx } else { dx };
    let b = if dz < 0 { -dz } else { dz };
    if a >= b { a } else { b }
}

/// Largest ring radius the slope profiler visits.
pub const MAX_RING_RADIUS: i32 = 65_536;

impl WorldBuilder {
    /// The known columns at Chebyshev distance exactly `r` from `(x, z)`,
    /// row by row, each with its absolute height difference to `height`.
    pub fn ring_neighbors(&self, x: i32, z: i32, height: i32, r: i32) -> (out: Vec<NeighborDiff>)
        requires
            self.wf(),
            1 <= r <= MAX_RING_RADIUS,
        ensures
            forall|i: int| 0 <= i < out@.len() ==> {
                let n = #[trigger] out@[i];
                &&& cheb(n.dx as int, n.dz as int) == r
                &&& self.columns().contains_key(((x + n.dx) as i32, (z + n.dz) as i32))
                &&& i32::MIN <= x + n.dx <= i32::MAX && i32::MIN <= z + n.dz <= i32::MAX
                &&& n.diff as int == {
                    let h = self.columns()[((x + n.dx) as i32, (z + n.dz) as i32)] as int;
                    if height >= h { height - h } else { h - height }
                }
            },
            forall|dx: int, dz: int|
                cheb(dx, dz) == r && i32::MIN <= x + dx <= i32::MAX && i32::MIN <= z + dz <= i32::MAX
                    && #[trigger] self.columns().contains_key(((x + dx) as i32, (z + dz) as i32))
                    ==> exists|i: int| 0 <= i < out@.len() && (#[trigger] out@[i]).dx == dx && out@[i].dz == dz,
    {
        let mut out: Vec<NeighborDiff> = Vec::new();
        let mut dz: i32 = -r;
        while dz <= r
            invariant
                self.wf(),
                1 <= r <= MAX_RING_RADIUS,
                -r <= dz <= r + 1,
                forall|i: int| 0 <= i < out@.len() ==> {
                    let n = #[trigger] out@[i];
                    &&& cheb(n.dx as int, n.dz as int) == r
                    &&& self.columns().contains_key(((x + n.dx) as i32, (z + n.dz) as i32))
                    &&& i32::MIN <= x + n.dx <= i32::MAX && i32::MIN <= z + n.dz <= i32::MAX
                    &&& n.diff as int == {
                        let h = self.columns()[((x + n.dx) as i32, (z + n.dz) as i32)] as int;
                        if height >= h { height - h } else { h - height }
                    }
                },
                forall|a: int, b: int|
                    cheb(a, b) == r && b < dz && i32::MIN <= x + a <= i32::MAX && i32::MIN <= z + b <= i32::MAX
                        && #[trigger] self.columns().contains_key(((x + a) as i32, (z + b) as i32))
                        ==> exists|i: int| 0 <= i < out@.len() && (#[trigger] out@[i]).dx == a && out@[i].dz == b,
            decreases r + 1 - dz,
        {
            let mut dx: i32 = -r;
            while dx <= r
                invariant
                    self.wf(),
                    1 <= r <= MAX_RING_RADIUS,
                    -r <= dz <= r,
                    -r <= dx <= r + 1,
                    forall|i: int| 0 <= i < out@.len() ==> {
                        let n = #[trigger] out@[i];
                        &&& cheb(n.dx as int, n.dz as int) == r
                        &&& self.columns().contains_key(((x + n.dx) as i32, (z + n.dz) as i32))
                        &&& i32::MIN <= x + n.dx <= i32::MAX && i32::MIN <= z + n.dz <= i32::MAX
                        &&& n.diff as int == {
                            let h = self.columns()[((x + n.dx) as i32, (z + n.dz) as i32)] as int;
                            if height >= h { height - h } else { h - height }
                        }
                    },
                    forall|a: int, b: int|
                        cheb(a, b) == r && (b < dz || (b == dz && a < dx)) && i32::MIN <= x + a <= i32::MAX && i32::MIN <= z + b <= i32::MAX
                            && #[trigger] self.columns().contains_key(((x + a) as i32, (z + b) as i32))
                            ==> exists|i: int| 0 <= i < out@.len() && (#[trigger] out@[i]).dx == a && out@[i].dz == b,
                decreases r + 1 - dx,
            {
                let adx: i32 = if dx < 0 { -dx } else { dx };
                let adz: i32 = if dz < 0 { -dz } else { dz };
                let m = if adx >= adz { adx } else { adz };
                let nx: i64 = x as i64 + dx as i64;
                let nz: i64 = z as i64 + dz as i64;
                let ghost before = out@;
                if m == r && nx >= i32::MIN as i64 && nx <= i32::MAX as i64 && nz >= i32::MIN as i64 && nz <= i32::MAX as i64 {
                    match self.column(nx as i32, nz as i32) {
                        Some(h) => {
                            let diff: i64 = height as i64 - h as i64;
                            let ad: i64 = if diff < 0 { -diff } else { diff };
                            out.push(NeighborDiff { dx, dz, diff: ad as u32 });
                            proof {
                                assert(out@[before.len() as int].dx == dx && out@[before.len() as int].dz == dz);
                            }
                        },
                        None => {},
                    }
                }
                proof {
                    assert forall|a: int, b: int|
                        cheb(a, b) == r && (b < dz || (b == dz && a < dx + 1)) && i32::MIN <= x + a <= i32::MAX && i32::MIN <= z + b <= i32::MAX
                            && #[trigger] self.columns().contains_key(((x + a) as i32, (z + b) as i32))
                            implies exists|i: int| 0 <= i < out@.len() && (#[trigger] out@[i]).dx == a && out@[i].dz == b by {
                        if b < dz || a < dx {
                            let i = choose|i: int| 0 <= i < before.len() && (#[trigger] before[i]).dx == a && before[i].dz == b;
                            assert(out@[i] == before[i]);
                        } else {
                            assert(out@[before.len() as int].dx == a);
                        }
                    }
                }
                dx = dx + 1;
            }
            dz = dz + 1;
        }
        out
    }
}

} // verus!
