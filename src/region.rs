//! Region planning: chunks bucketed by 32x32 region, plus the empty chunks
//! that pad the rectangular frame around the generated area.
use crate::coords::{region_coord, region_of};
use vstd::prelude::*;

verus! {

/// One chunk to write: a generated one, or an empty padding one.
#[derive(Clone, Copy, Debug, PartialEq, Eq, Structural)]
pub struct ChunkJob {
    pub chunk_x: i32,
    pub chunk_z: i32,
    pub is_empty: bool,
}

impl ChunkJob {
    pub fn filled(chunk_x: i32, chunk_z: i32) -> (r: Self)
        ensures
            r == (ChunkJob { chunk_x, chunk_z, is_empty: false }),
    {
        ChunkJob { chunk_x, chunk_z, is_empty: false }
    }

    pub fn empty(chunk_x: i32, chunk_z: i32) -> (r: Self)
        ensures
            r == (ChunkJob { chunk_x, chunk_z, is_empty: true }),
    {
        ChunkJob { chunk_x, chunk_z, is_empty: true }
    }
}

/// The chunks of one region file.
#[derive(Debug)]
pub struct RegionJobs {
    pub region_x: i32,
    pub region_z: i32,
    pub jobs: Vec<ChunkJob>,
}

/// Every job sits in the bucket of its region, and no region has two buckets.
pub open spec fn buckets_wf(rs: Seq<RegionJobs>) -> bool {
    &&& forall|r: int, k: int|
        0 <= r < rs.len() && 0 <= k < rs[r].jobs@.len() ==> region_of(
            (#[trigger] rs[r].jobs@[k]).chunk_x as int,
        ) == rs[r].region_x && region_of(rs[r].jobs@[k].chunk_z as int) == rs[r].region_z
    &&& forall|r: int, s: int|
        0 <= r < rs.len() && 0 <= s < rs.len() && r != s ==> (#[trigger] rs[r].region_x
            != #[trigger] rs[s].region_x || rs[r].region_z != rs[s].region_z)
}

/// Whether some bucket holds `j`.
pub open spec fn holds(rs: Seq<RegionJobs>, j: ChunkJob) -> bool {
    exists|r: int, k: int| 0 <= r < rs.len() && 0 <= k < rs[r].jobs@.len() && #[trigger] rs[r].jobs@[k] == j
}

/// Adds a job to the bucket of its region, opening the bucket if needed.
pub fn add_job(regions: &mut Vec<RegionJobs>, job: ChunkJob)
    requires
        buckets_wf(old(regions)@),
    ensures
        buckets_wf(final(regions)@),
        forall|j: ChunkJob| holds(final(regions)@, j) <==> (holds(old(regions)@, j) || j == job),
{
    let rx = region_coord(job.chunk_x);
    let rz = region_coord(job.chunk_z);
    let ghost before = regions@;
    let mut i: usize = 0;
    let mut found: Option<usize> = None;
    while i < regions.len()
        invariant
            i <= regions@.len(),
            regions@ == before,
            found.is_none() ==> forall|t: int| 0 <= t < i ==> (#[trigger] regions@[t].region_x != rx || regions@[t].region_z != rz),
            match found {
                Some(f) => f < regions@.len() && regions@[f as int].region_x == rx && regions@[f as int].region_z == rz,
                None => true,
            },
        decreases regions@.len() - i,
    {
        if found.is_none() && regions[i].region_x == rx && regions[i].region_z == rz {
            found = Some(i);
        }
        i = i + 1;
    }
    match found {
        Some(f) => {
            let mut bucket = RegionJobs { region_x: rx, region_z: rz, jobs: Vec::new() };
            std::mem::swap(&mut bucket, &mut regions[f]);
            assert(bucket.jobs@ == before[f as int].jobs@);
            let ghost old_jobs = bucket.jobs@;
            bucket.jobs.push(job);
            regions.set(f, bucket);
            proof {
                assert forall|j: ChunkJob| holds(regions@, j) <==> (holds(before, j) || j == job) by {
                    if holds(regions@, j) {
                        let (r, k) = choose|r: int, k: int| 0 <= r < regions@.len() && 0 <= k < regions@[r].jobs@.len() && #[trigger] regions@[r].jobs@[k] == j;
                        if r != f as int || k < old_jobs.len() {
                            assert(before[r].jobs@[k] == j);
                        }
                    }
                    if holds(before, j) {
                        let (r, k) = choose|r: int, k: int| 0 <= r < before.len() && 0 <= k < before[r].jobs@.len() && #[trigger] before[r].jobs@[k] == j;
                        assert(regions@[r].jobs@[k] == j);
                    }
                    if j == job {
                        assert(regions@[f as int].jobs@[old_jobs.len() as int] == j);
                    }
                }
            }
        },
        None => {
            let mut jobs: Vec<ChunkJob> = Vec::new();
            jobs.push(job);
            regions.push(RegionJobs { region_x: rx, region_z: rz, jobs });
            proof {
                assert forall|j: ChunkJob| holds(regions@, j) <==> (holds(before, j) || j == job) by {
                    if holds(regions@, j) {
                        let (r, k) = choose|r: int, k: int| 0 <= r < regions@.len() && 0 <= k < regions@[r].jobs@.len() && #[trigger] regions@[r].jobs@[k] == j;
                        if r < before.len() {
                            assert(before[r].jobs@[k] == j);
                        }
                    }
                    if holds(before, j) {
                        let (r, k) = choose|r: int, k: int| 0 <= r < before.len() && 0 <= k < before[r].jobs@.len() && #[trigger] before[r].jobs@[k] == j;
                        assert(regions@[r].jobs@[k] == j);
                    }
                    if j == job {
                        assert(regions@[before.len() as int].jobs@[0] == j);
                    }
                }
            }
        },
    }
}

pub open spec fn has_key(keys: Seq<(i32, i32)>, x: int, z: int) -> bool {
    exists|i: int| 0 <= i < keys.len() && (#[trigger] keys[i]).0 == x && keys[i].1 == z
}

/// Whether chunk `(x, z)` lies in the padding frame: inside the bounding box
/// of the keys grown by `pad`, outside the box itself, and not generated.
pub open spec fn in_frame(keys: Seq<(i32, i32)>, pad: int, x: int, z: int) -> bool {
    let (x0, x1, z0, z1) = key_bounds(keys);
    &&& pad > 0
    &&& keys.len() > 0
    &&& sat_i32(x0 - pad) <= x <= sat_i32(x1 + pad)
    &&& sat_i32(z0 - pad) <= z <= sat_i32(z1 + pad)
    &&& !(x0 <= x <= x1 && z0 <= z <= z1)
    &&& !has_key(keys, x, z)
}

pub open spec fn sat_i32(v: int) -> int {
    if v < i32::MIN { i32::MIN as int } else if v > i32::MAX { i32::MAX as int } else { v }
}

pub open spec fn min_i(a: int, b: int) -> int {
    if a <= b { a } else { b }
}

pub open spec fn max_i(a: int, b: int) -> int {
    if a >= b { a } else { b }
}

/// `(min x, max x, min z, max z)` over the keys.
pub open spec fn key_bounds(keys: Seq<(i32, i32)>) -> (int, int, int, int)
    decreases keys.len(),
{
    if keys.len() == 0 {
        (i32::MAX as int, i32::MIN as int, i32::MAX as int, i32::MIN as int)
    } else {
        let (a, b, c, d) = key_bounds(keys.drop_last());
        let k = keys.last();
        (min_i(a, k.0 as int), max_i(b, k.0 as int), min_i(c, k.1 as int), max_i(d, k.1 as int))
    }
}

proof fn lemma_key_bounds(keys: Seq<(i32, i32)>)
    ensures
        forall|i: int| 0 <= i < keys.len() ==> {
            let (a, b, c, d) = key_bounds(keys);
            a <= (#[trigger] keys[i]).0 <= b && c <= keys[i].1 <= d
        },
        keys.len() > 0 ==> {
            let (a, b, c, d) = key_bounds(keys);
            a <= b && c <= d
        },
        i32::MIN <= key_bounds(keys).0 <= i32::MAX,
        i32::MIN <= key_bounds(keys).1 <= i32::MAX,
        i32::MIN <= key_bounds(keys).2 <= i32::MAX,
        i32::MIN <= key_bounds(keys).3 <= i32::MAX,
    decreases keys.len(),
{
    if keys.len() > 0 {
        lemma_key_bounds(keys.drop_last());
        assert forall|i: int| 0 <= i < keys.len() - 1 implies keys.drop_last()[i] == keys[i] by {}
    }
}

/// Buckets every generated chunk by region and, when `padding > 0`, adds an
/// empty chunk for each slot of the padding frame.
pub fn plan_regions(keys: &Vec<(i32, i32)>, padding: u32) -> (r: Vec<RegionJobs>)
    requires
        padding <= i32::MAX,
    ensures
        buckets_wf(r@),
        forall|j: ChunkJob| holds(r@, j) <==> (if j.is_empty {
            in_frame(keys@, padding as int, j.chunk_x as int, j.chunk_z as int)
        } else {
            has_key(keys@, j.chunk_x as int, j.chunk_z as int)
        }),
{
    let mut regions: Vec<RegionJobs> = Vec::new();
    let mut min_x: i32 = i32::MAX;
    let mut max_x: i32 = i32::MIN;
    let mut min_z: i32 = i32::MAX;
    let mut max_z: i32 = i32::MIN;
    let mut i: usize = 0;
    while i < keys.len()
        invariant
            i <= keys@.len(),
            buckets_wf(regions@),
            (min_x as int, max_x as int, min_z as int, max_z as int) == key_bounds(keys@.subrange(0, i as int)),
            forall|j: ChunkJob| holds(regions@, j) <==> (!j.is_empty && has_key(keys@.subrange(0, i as int), j.chunk_x as int, j.chunk_z as int)),
        decreases keys@.len() - i,
    {
        let (cx, cz) = keys[i];
        let ghost before = regions@;
        add_job(&mut regions, ChunkJob::filled(cx, cz));
        if cx < min_x { min_x = cx; }
        if cx > max_x { max_x = cx; }
        if cz < min_z { min_z = cz; }
        if cz > max_z { max_z = cz; }
        proof {
            let s0 = keys@.subrange(0, i as int);
            let s1 = keys@.subrange(0, i + 1);
            assert(s1.drop_last() =~= s0);
            assert forall|j: ChunkJob| holds(regions@, j) <==> (!j.is_empty && has_key(s1, j.chunk_x as int, j.chunk_z as int)) by {
                if has_key(s0, j.chunk_x as int, j.chunk_z as int) {
                    let t = choose|t: int| 0 <= t < s0.len() && (#[trigger] s0[t]).0 == j.chunk_x as int && s0[t].1 == j.chunk_z as int;
                    assert(s1[t] == s0[t]);
                }
                if has_key(s1, j.chunk_x as int, j.chunk_z as int) {
                    let t = choose|t: int| 0 <= t < s1.len() && (#[trigger] s1[t]).0 == j.chunk_x as int && s1[t].1 == j.chunk_z as int;
                    if t < i {
                        assert(s0[t] == s1[t]);
                    } else {
                        assert(s1[t] == (cx, cz));
                        if !j.is_empty {
                            assert(j == ChunkJob { chunk_x: cx, chunk_z: cz, is_empty: false });
                        }
                    }
                }
                if j == (ChunkJob { chunk_x: cx, chunk_z: cz, is_empty: false }) {
                    assert(s1[i as int] == keys@[i as int]);
                }
            }
        }
        i = i + 1;
    }
    assert(keys@.subrange(0, keys@.len() as int) =~= keys@);
    proof {
        lemma_key_bounds(keys@);
    }
    let ghost filled_only = regions@;
    if padding == 0 || keys.len() == 0 {
        return regions;
    }
    let pad: i32 = padding as i32;
    let px0: i32 = if (min_x as i64 - pad as i64) < i32::MIN as i64 { i32::MIN } else { min_x - pad };
    let px1: i32 = if (max_x as i64 + pad as i64) > i32::MAX as i64 { i32::MAX } else { max_x + pad };
    let pz0: i32 = if (min_z as i64 - pad as i64) < i32::MIN as i64 { i32::MIN } else { min_z - pad };
    let pz1: i32 = if (max_z as i64 + pad as i64) > i32::MAX as i64 { i32::MAX } else { max_z + pad };
    let mut x: i64 = px0 as i64;
    while x <= px1 as i64
        invariant
            px0 <= x <= px1 as i64 + 1,
            px0 as int == sat_i32(min_x - pad as int),
            px1 as int == sat_i32(max_x + pad as int),
            pz0 as int == sat_i32(min_z - pad as int),
            pz1 as int == sat_i32(max_z + pad as int),
            pad as int == padding as int,
            pad > 0,
            keys@.len() > 0,
            (min_x as int, max_x as int, min_z as int, max_z as int) == key_bounds(keys@),
            buckets_wf(regions@),
            forall|j: ChunkJob| holds(regions@, j) <==> (if j.is_empty {
                in_frame(keys@, pad as int, j.chunk_x as int, j.chunk_z as int) && j.chunk_x < x
            } else {
                has_key(keys@, j.chunk_x as int, j.chunk_z as int)
            }),
        decreases px1 as i64 + 1 - x,
    {
        let mut z: i64 = pz0 as i64;
        while z <= pz1 as i64
            invariant
                px0 <= x <= px1,
                pz0 <= z <= pz1 as i64 + 1,
                px0 as int == sat_i32(min_x - pad as int),
                px1 as int == sat_i32(max_x + pad as int),
                pz0 as int == sat_i32(min_z - pad as int),
                pz1 as int == sat_i32(max_z + pad as int),
                pad as int == padding as int,
                pad > 0,
                keys@.len() > 0,
                (min_x as int, max_x as int, min_z as int, max_z as int) == key_bounds(keys@),
                buckets_wf(regions@),
                forall|j: ChunkJob| holds(regions@, j) <==> (if j.is_empty {
                    in_frame(keys@, pad as int, j.chunk_x as int, j.chunk_z as int) && (j.chunk_x < x || (j.chunk_x == x && j.chunk_z < z))
                } else {
                    has_key(keys@, j.chunk_x as int, j.chunk_z as int)
                }),
            decreases pz1 as i64 + 1 - z,
        {
            let cx = x as i32;
            let cz = z as i32;
            let inside = cx >= min_x && cx <= max_x && cz >= min_z && cz <= max_z;
            let mut known = false;
            if !inside {
                let mut t: usize = 0;
                while t < keys.len()
                    invariant
                        t <= keys@.len(),
                        known == has_key(keys@.subrange(0, t as int), cx as int, cz as int),
                    decreases keys@.len() - t,
                {
                    proof {
                        let s0 = keys@.subrange(0, t as int);
                        let s1 = keys@.subrange(0, t + 1);
                        if has_key(s0, cx as int, cz as int) {
                            let u = choose|u: int| 0 <= u < s0.len() && (#[trigger] s0[u]).0 == cx as int && s0[u].1 == cz as int;
                            assert(s1[u] == s0[u]);
                        }
                        if has_key(s1, cx as int, cz as int) && !(keys@[t as int].0 == cx && keys@[t as int].1 == cz) {
                            let u = choose|u: int| 0 <= u < s1.len() && (#[trigger] s1[u]).0 == cx as int && s1[u].1 == cz as int;
                            assert(s0[u] == s1[u]);
                        }
                        if keys@[t as int].0 == cx && keys@[t as int].1 == cz {
                            assert(s1[t as int] == keys@[t as int]);
                        }
                    }
                    if keys[t].0 == cx && keys[t].1 == cz {
                        known = true;
                    }
                    t = t + 1;
                }
                assert(keys@.subrange(0, keys@.len() as int) =~= keys@);
            }
            if !inside && !known {
                add_job(&mut regions, ChunkJob::empty(cx, cz));
            }
            z = z + 1;
        }
        x = x + 1;
    }
    regions
}

} // verus!
