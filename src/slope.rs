//! Per-column slope statistics: for each radius, the steepest angle seen so
//! far and the distance-weighted mean angle. Angles are in millidegrees and
//! mixing factors in thousandths.
use vstd::prelude::*;

verus! {

/// Steepest angle of a right angle, in millidegrees.
pub const MAX_ANGLE_MDEG: u32 = 90_000;

/// Largest weight a neighbour may carry.
pub const MAX_WEIGHT: u32 = 1_000_000;

/// Largest number of neighbours in one ring.
pub const MAX_RING_LEN: usize = 1_048_576;

/// Largest smoothing radius.
pub const MAX_RINGS: usize = 65_536;

/// Statistics at one radius, in millidegrees.
#[derive(Clone, Copy, Debug, PartialEq, Eq, Default)]
pub struct SlopeStats {
    pub max_angle: u32,
    pub weighted_average: u32,
}

/// One neighbour: its angle from the column (millidegrees) and its weight.
#[derive(Clone, Copy, Debug, PartialEq, Eq)]
pub struct SlopeSample {
    pub angle: u32,
    pub weight: u32,
}

/// Cliff parameters that select and mix the statistics.
#[derive(Clone, Copy, Debug, PartialEq, Eq)]
pub struct SmoothingSettings {
    pub smoothing_radius: u32,
    /// Mixing factor in thousandths; values above 1000 act as 1000.
    pub smoothing_factor: u32,
}

/// The statistics of a column for radii `1..=stats.len()`.
#[derive(Clone, Debug)]
pub struct SlopeProfile {
    pub stats: Vec<SlopeStats>,
}

pub open spec fn max_nat(a: nat, b: nat) -> nat {
    if a >= b {
        a
    } else {
        b
    }
}

/// Steepest angle of a ring (0 when empty).
pub open spec fn ring_max(ring: Seq<SlopeSample>) -> nat
    decreases ring.len(),
{
    if ring.len() == 0 {
        0
    } else {
        max_nat(ring_max(ring.drop_last()), ring.last().angle as nat)
    }
}

/// Sum of `angle * weight` over a ring.
pub open spec fn ring_wsum(ring: Seq<SlopeSample>) -> nat
    decreases ring.len(),
{
    if ring.len() == 0 {
        0
    } else {
        ring_wsum(ring.drop_last()) + ring.last().angle as nat * ring.last().weight as nat
    }
}

/// Sum of the weights of a ring.
pub open spec fn ring_wtotal(ring: Seq<SlopeSample>) -> nat
    decreases ring.len(),
{
    if ring.len() == 0 {
        0
    } else {
        ring_wtotal(ring.drop_last()) + ring.last().weight as nat
    }
}

/// Steepest angle over the first `n` rings.
pub open spec fn max_upto(rings: Seq<Seq<SlopeSample>>, n: int) -> nat
    decreases n,
{
    if n <= 0 {
        0
    } else {
        max_nat(max_upto(rings, n - 1), ring_max(rings[n - 1]))
    }
}

pub open spec fn wsum_upto(rings: Seq<Seq<SlopeSample>>, n: int) -> nat
    decreases n,
{
    if n <= 0 {
        0
    } else {
        wsum_upto(rings, n - 1) + ring_wsum(rings[n - 1])
    }
}

pub open spec fn wtotal_upto(rings: Seq<Seq<SlopeSample>>, n: int) -> nat
    decreases n,
{
    if n <= 0 {
        0
    } else {
        wtotal_upto(rings, n - 1) + ring_wtotal(rings[n - 1])
    }
}

/// The statistics at radius `n + 1` of the profile built from `rings`.
pub open spec fn stats_at(rings: Seq<Seq<SlopeSample>>, n: int) -> SlopeStats {
    SlopeStats {
        max_angle: max_upto(rings, n + 1) as u32,
        weighted_average: if wtotal_upto(rings, n + 1) > 0 {
            (wsum_upto(rings, n + 1) / wtotal_upto(rings, n + 1)) as u32
        } else {
            0
        },
    }
}

pub open spec fn rings_bounded(rings: Seq<Seq<SlopeSample>>) -> bool {
    &&& rings.len() <= MAX_RINGS
    &&& forall|i: int| 0 <= i < rings.len() ==> #[trigger] rings[i].len() <= MAX_RING_LEN
    &&& forall|i: int, j: int|
        0 <= i < rings.len() && 0 <= j < rings[i].len() ==> {
            &&& (#[trigger] rings[i][j]).angle <= MAX_ANGLE_MDEG
            &&& rings[i][j].weight <= MAX_WEIGHT
        }
}

/// `mix(max, mean, f) = max + f/1000 * (mean - max)`, rounded down.
pub open spec fn mix(max: int, mean: int, f: int) -> int {
    (max * (1000 - f) + mean * f) / 1000
}

/// What a profile evaluates to under the given settings.
pub open spec fn evaluate_spec(stats: Seq<SlopeStats>, s: SmoothingSettings) -> int {
    if stats.len() == 0 {
        0
    } else {
        let radius: int = if s.smoothing_radius == 0 { 1 } else { s.smoothing_radius as int };
        let idx: int = if radius - 1 < stats.len() - 1 { radius - 1 } else { stats.len() - 1 };
        let f: int = if s.smoothing_factor > 1000 { 1000 } else { s.smoothing_factor as int };
        mix(stats[idx].max_angle as int, stats[idx].weighted_average as int, f)
    }
}

proof fn lemma_ring_step(ring: Seq<SlopeSample>, m: nat)
    requires
        ring_max(ring) <= m,
        forall|j: int| 0 <= j < ring.len() ==> (#[trigger] ring[j]).weight <= MAX_WEIGHT,
    ensures
        ring_wsum(ring) <= m * ring_wtotal(ring),
        ring_wtotal(ring) <= ring.len() * MAX_WEIGHT,
    decreases ring.len(),
{
    if ring.len() > 0 {
        let init = ring.drop_last();
        assert(ring_max(init) <= m);
        assert forall|j: int| 0 <= j < init.len() implies (#[trigger] init[j]).weight <= MAX_WEIGHT by {
            assert(init[j] == ring[j]);
        }
        lemma_ring_step(init, m);
        let a = ring.last().angle as nat;
        let w = ring.last().weight as nat;
        assert(a * w <= m * w) by (nonlinear_arith)
            requires a <= m;
        assert(m * ring_wtotal(ring) == m * ring_wtotal(init) + m * w) by (nonlinear_arith)
            requires ring_wtotal(ring) == ring_wtotal(init) + w;
    }
}

impl SlopeProfile {
    /// A profile of `levels` radii whose statistics are all zero.
    pub fn empty(levels: usize) -> (r: Self)
        ensures
            r.stats@.len() == levels,
            forall|i: int| 0 <= i < levels ==> #[trigger] r.stats@[i] == (SlopeStats { max_angle: 0, weighted_average: 0 }),
    {
        let mut stats: Vec<SlopeStats> = Vec::new();
        let mut i: usize = 0;
        while i < levels
            invariant
                i <= levels,
                stats@.len() == i,
                forall|k: int| 0 <= k < i ==> #[trigger] stats@[k] == (SlopeStats { max_angle: 0, weighted_average: 0 }),
            decreases levels - i,
        {
            stats.push(SlopeStats { max_angle: 0, weighted_average: 0 });
            i = i + 1;
        }
        SlopeProfile { stats }
    }

    /// A profile holding the given statistics.
    pub fn from_stats(stats: Vec<SlopeStats>) -> (r: Self)
        ensures
            r.stats@ == stats@,
    {
        SlopeProfile { stats }
    }

    /// The slope of the column under `settings`: the statistics at radius
    /// `min(smoothing_radius, available)` (at least 1), with the maximum moved
    /// towards the mean by the smoothing factor. An empty profile gives 0.
    pub fn evaluate(&self, settings: &SmoothingSettings) -> (r: u32)
        ensures
            r as int == evaluate_spec(self.stats@, *settings),
    {
        if self.stats.len() == 0 {
            return 0;
        }
        let radius: usize = if settings.smoothing_radius == 0 {
            1
        } else {
            settings.smoothing_radius as usize
        };
        let idx: usize = if radius - 1 < self.stats.len() - 1 {
            radius - 1
        } else {
            self.stats.len() - 1
        };
        let f: u64 = if settings.smoothing_factor > 1000 {
            1000
        } else {
            settings.smoothing_factor as u64
        };
        let entry = self.stats[idx];
        assert(entry.max_angle as u64 * (1000 - f) <= 0xffff_ffff * 1000) by (nonlinear_arith)
            requires entry.max_angle <= 0xffff_ffff, f <= 1000;
        assert(entry.weighted_average as u64 * f <= 0xffff_ffff * 1000) by (nonlinear_arith)
            requires entry.weighted_average <= 0xffff_ffff, f <= 1000;
        let mixed: u64 = (entry.max_angle as u64 * (1000 - f) + entry.weighted_average as u64 * f)
            / 1000;
        proof {
            assert(mixed <= 0xffff_ffff) by (nonlinear_arith)
                requires
                    mixed == (entry.max_angle as u64 * (1000 - f) + entry.weighted_average as u64 * f) / 1000,
                    f <= 1000,
                    entry.max_angle <= 0xffff_ffff,
                    entry.weighted_average <= 0xffff_ffff;
        }
        mixed as u32
    }
}

/// Builds the slope profile of a column from its neighbours, ring by ring:
/// ring `r` holds the neighbours at Chebyshev distance `r + 1`. At each radius
/// the profile records the steepest angle over all rings so far and the
/// weighted mean (rounded down) of all their angles.
pub fn slope_profile_from_rings(rings: &Vec<Vec<SlopeSample>>) -> (p: SlopeProfile)
    requires
        rings_bounded(rings@.map_values(|r: Vec<SlopeSample>| r@)),
    ensures
        p.stats@.len() == rings@.len(),
        forall|i: int|
            0 <= i < rings@.len() ==> #[trigger] p.stats@[i] == stats_at(
                rings@.map_values(|r: Vec<SlopeSample>| r@),
                i,
            ),
{
    let ghost rs = rings@.map_values(|r: Vec<SlopeSample>| r@);
    let mut stats: Vec<SlopeStats> = Vec::new();
    let mut max_angle: u32 = 0;
    let mut wsum: u128 = 0;
    let mut wtotal: u128 = 0;
    let mut i: usize = 0;
    while i < rings.len()
        invariant
            i <= rings.len(),
            rs == rings@.map_values(|r: Vec<SlopeSample>| r@),
            rings_bounded(rs),
            stats@.len() == i,
            max_angle == max_upto(rs, i as int),
            max_angle <= MAX_ANGLE_MDEG,
            wsum == wsum_upto(rs, i as int),
            wtotal == wtotal_upto(rs, i as int),
            wtotal <= i * (MAX_RING_LEN * MAX_WEIGHT),
            wsum <= max_angle * wtotal,
            forall|k: int| 0 <= k < i ==> #[trigger] stats@[k] == stats_at(rs, k),
        decreases rings.len() - i,
    {
        let ring = &rings[i];
        assert(ring@ == rs[i as int]);
        let ghost ring_start_max = max_angle;
        let ghost ring_start_sum = wsum;
        let ghost ring_start_total = wtotal;
        let mut j: usize = 0;
        let mut rmax: u32 = 0;
        let mut rsum: u128 = 0;
        let mut rtotal: u128 = 0;
        while j < ring.len()
            invariant
                j <= ring.len() <= MAX_RING_LEN,
                ring@ == rs[i as int],
                i < rs.len(),
                rings_bounded(rs),
                rmax == ring_max(ring@.subrange(0, j as int)),
                rmax <= MAX_ANGLE_MDEG,
                rsum == ring_wsum(ring@.subrange(0, j as int)),
                rtotal == ring_wtotal(ring@.subrange(0, j as int)),
                rtotal <= j * MAX_WEIGHT,
                rsum <= j * (MAX_WEIGHT * MAX_ANGLE_MDEG),
            decreases ring.len() - j,
        {
            let s = ring[j];
            assert(s == rs[i as int][j as int]);
            assert(ring@.subrange(0, j + 1).drop_last() =~= ring@.subrange(0, j as int));
            assert(s.angle as u128 * s.weight as u128 <= MAX_WEIGHT * MAX_ANGLE_MDEG) by (nonlinear_arith)
                requires s.angle <= MAX_ANGLE_MDEG, s.weight <= MAX_WEIGHT;
            assert(rsum + s.angle as u128 * s.weight as u128 <= (j + 1) * (MAX_WEIGHT * MAX_ANGLE_MDEG)) by (nonlinear_arith)
                requires
                    rsum <= j * (MAX_WEIGHT * MAX_ANGLE_MDEG),
                    s.angle as u128 * s.weight as u128 <= MAX_WEIGHT * MAX_ANGLE_MDEG;
            assert((j + 1) * (MAX_WEIGHT * MAX_ANGLE_MDEG) <= MAX_RING_LEN * (MAX_WEIGHT * MAX_ANGLE_MDEG)) by (nonlinear_arith)
                requires j < MAX_RING_LEN;
            if s.angle > rmax {
                rmax = s.angle;
            }
            rsum = rsum + s.angle as u128 * s.weight as u128;
            rtotal = rtotal + s.weight as u128;
            j = j + 1;
        }
        assert(ring@.subrange(0, ring@.len() as int) =~= ring@);
        proof {
            lemma_upto(rs, i + 1);
            lemma_ring_step(ring@, max_nat(max_angle as nat, rmax as nat));
        }
        if rmax > max_angle {
            max_angle = rmax;
        }
        proof {
            assert(wsum <= max_angle * wtotal) by (nonlinear_arith)
                requires
                    wsum == ring_start_sum,
                    ring_start_sum <= ring_start_max * wtotal,
                    ring_start_max <= max_angle;
            assert((i + 1) * (MAX_RING_LEN * MAX_WEIGHT) == i * (MAX_RING_LEN * MAX_WEIGHT) + MAX_RING_LEN * MAX_WEIGHT) by (nonlinear_arith);
            assert(rtotal <= MAX_RING_LEN * MAX_WEIGHT) by (nonlinear_arith)
                requires rtotal <= ring@.len() * MAX_WEIGHT, ring@.len() <= MAX_RING_LEN;
            assert(i * (MAX_RING_LEN * MAX_WEIGHT) <= MAX_RINGS * (MAX_RING_LEN * MAX_WEIGHT)) by (nonlinear_arith)
                requires i <= MAX_RINGS;
            assert(wsum + rsum <= max_angle * (wtotal + rtotal)) by (nonlinear_arith)
                requires
                    wsum <= max_angle * wtotal,
                    rsum <= max_angle * rtotal;
            assert(max_angle * (wtotal + rtotal) <= MAX_ANGLE_MDEG * (MAX_RINGS * (MAX_RING_LEN * MAX_WEIGHT) + MAX_RING_LEN * MAX_WEIGHT)) by (nonlinear_arith)
                requires
                    max_angle <= MAX_ANGLE_MDEG,
                    wtotal + rtotal <= MAX_RINGS * (MAX_RING_LEN * MAX_WEIGHT) + MAX_RING_LEN * MAX_WEIGHT;
        }
        wsum = wsum + rsum;
        wtotal = wtotal + rtotal;
        let avg: u128 = if wtotal > 0 { wsum / wtotal } else { 0 };
        proof {
            if wtotal > 0 {
                assert(wsum / wtotal <= max_angle) by (nonlinear_arith)
                    requires wsum <= max_angle * wtotal, wtotal > 0;
            }
        }
        stats.push(SlopeStats { max_angle, weighted_average: avg as u32 });
        i = i + 1;
    }
    SlopeProfile { stats }
}

proof fn lemma_ring_max_bound(ring: Seq<SlopeSample>)
    requires
        forall|j: int| 0 <= j < ring.len() ==> (#[trigger] ring[j]).angle <= MAX_ANGLE_MDEG,
    ensures
        ring_max(ring) <= MAX_ANGLE_MDEG,
    decreases ring.len(),
{
    if ring.len() > 0 {
        let init = ring.drop_last();
        assert forall|j: int| 0 <= j < init.len() implies (#[trigger] init[j]).angle <= MAX_ANGLE_MDEG by {
            assert(init[j] == ring[j]);
        }
        lemma_ring_max_bound(init);
    }
}

proof fn lemma_upto(rings: Seq<Seq<SlopeSample>>, n: int)
    requires
        rings_bounded(rings),
        0 <= n <= rings.len(),
    ensures
        max_upto(rings, n) <= MAX_ANGLE_MDEG,
        wsum_upto(rings, n) <= max_upto(rings, n) * wtotal_upto(rings, n),
        forall|m: int| 0 <= m <= n ==> #[trigger] max_upto(rings, m) <= max_upto(rings, n),
    decreases n,
{
    if n > 0 {
        lemma_upto(rings, n - 1);
        let ring = rings[n - 1];
        assert forall|j: int| 0 <= j < ring.len() implies (#[trigger] ring[j]).angle <= MAX_ANGLE_MDEG
            && ring[j].weight <= MAX_WEIGHT by {
            assert(rings[n - 1][j] == ring[j]);
        }
        lemma_ring_max_bound(ring);
        let m = max_upto(rings, n);
        lemma_ring_step(ring, m);
        let pm = max_upto(rings, n - 1);
        let ps = wsum_upto(rings, n - 1);
        let pt = wtotal_upto(rings, n - 1);
        assert(ps <= m * pt) by (nonlinear_arith)
            requires ps <= pm * pt, pm <= m;
        assert(m * wtotal_upto(rings, n) == m * pt + m * ring_wtotal(ring)) by (nonlinear_arith)
            requires wtotal_upto(rings, n) == pt + ring_wtotal(ring);
    }
}

/// The steepest angle never decreases with the radius, and the weighted mean
/// at each radius lies between 0 and the steepest angle.
pub proof fn lemma_profile_shape(rings: Seq<Seq<SlopeSample>>)
    requires
        rings_bounded(rings),
    ensures
        forall|i: int, j: int|
            0 <= i <= j < rings.len() ==> #[trigger] stats_at(rings, i).max_angle
                <= #[trigger] stats_at(rings, j).max_angle,
        forall|i: int|
            0 <= i < rings.len() ==> #[trigger] stats_at(rings, i).weighted_average
                <= stats_at(rings, i).max_angle,
{
    assert forall|i: int, j: int|
        0 <= i <= j < rings.len() implies #[trigger] stats_at(rings, i).max_angle
            <= #[trigger] stats_at(rings, j).max_angle by {
        lemma_upto(rings, j + 1);
        lemma_upto(rings, i + 1);
    }
    assert forall|i: int|
        0 <= i < rings.len() implies #[trigger] stats_at(rings, i).weighted_average
            <= stats_at(rings, i).max_angle by {
        lemma_upto(rings, i + 1);
        let t = wtotal_upto(rings, i + 1);
        let m = max_upto(rings, i + 1);
        let w = wsum_upto(rings, i + 1);
        if t > 0 {
            assert(w / t <= m) by (nonlinear_arith)
                requires w <= m * t, t > 0;
        }
    }
}

/// An empty profile evaluates to 0 whatever the settings.
pub proof fn lemma_empty_profile_is_flat(s: SmoothingSettings)
    ensures
        evaluate_spec(Seq::empty(), s) == 0,
{
}

} // verus!
