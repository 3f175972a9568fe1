//! Vector rasterization: polylines stamped as disks along their segments,
//! polygons painted cell by cell.
use crate::chunk::column_index;
use crate::chunk_map::ChunkMap;
use crate::coords::{chunk_of, local_of, round_div, round_div_i128};
use crate::overlay::{outranks, ColumnOverlay, OverlayView};
use vstd::prelude::*;

verus! {

/// Largest disk radius; its square still fits an `i32`.
pub const MAX_DISK_RADIUS: i32 = 46340;

/// Whether `(dx, dz)` lies in the disk of radius `r` around the origin.
pub open spec fn in_disk(dx: int, dz: int, r: int) -> bool {
    dx * dx + dz * dz <= r * r
}

/// Every lattice point of the disk of radius `r` is among `offs`.
pub open spec fn disk_complete(offs: Seq<(i32, i32)>, r: int) -> bool {
    forall|a: int, b: int|
        -r <= a <= r && -r <= b <= r && #[trigger] in_disk(a, b, r) ==> offs.contains((a as i32, b as i32))
}

/// Every point of `offs` lies in the disk of radius `r`.
pub open spec fn disk_sound(offs: Seq<(i32, i32)>, r: int) -> bool {
    forall|i: int|
        0 <= i < offs.len() ==> -r <= (#[trigger] offs[i]).0 <= r && -r <= offs[i].1 <= r && in_disk(
            offs[i].0 as int,
            offs[i].1 as int,
            r,
        )
}

/// The lattice offsets of a disk of radius `radius`, row by row (`dz`
/// outer, `dx` inner); a radius of 0 or less gives the centre alone.
pub fn disk_offsets(radius: i32) -> (r: Vec<(i32, i32)>)
    requires
        radius <= MAX_DISK_RADIUS,
    ensures
        radius <= 0 ==> r@ == seq![(0i32, 0i32)],
        radius > 0 ==> disk_complete(r@, radius as int),
        radius > 0 ==> disk_sound(r@, radius as int),
{
    if radius <= 0 {
        let mut v = Vec::new();
        v.push((0i32, 0i32));
        return v;
    }
    assert(radius as i64 * radius as i64 <= 46340 * 46340) by (nonlinear_arith)
        requires 0 < radius <= 46340;
    let r2: i64 = radius as i64 * radius as i64;
    let mut offsets: Vec<(i32, i32)> = Vec::new();
    let mut dz: i32 = -radius;
    while dz <= radius
        invariant
            0 < radius <= MAX_DISK_RADIUS,
            r2 == radius * radius,
            -radius <= dz <= radius + 1,
            forall|i: int| 0 <= i < offsets@.len() ==> -radius <= (#[trigger] offsets@[i]).0 <= radius && -radius <= offsets@[i].1 < dz
                && in_disk(offsets@[i].0 as int, offsets@[i].1 as int, radius as int),
            forall|a: int, b: int| -radius <= a <= radius && -radius <= b < dz && #[trigger] in_disk(a, b, radius as int) ==> offsets@.contains((a as i32, b as i32)),
        decreases radius + 1 - dz,
    {
        let mut dx: i32 = -radius;
        while dx <= radius
            invariant
                0 < radius <= MAX_DISK_RADIUS,
                r2 == radius * radius,
                -radius <= dz <= radius,
                -radius <= dx <= radius + 1,
                forall|i: int| 0 <= i < offsets@.len() ==> -radius <= (#[trigger] offsets@[i]).0 <= radius && -radius <= offsets@[i].1 <= dz
                    && in_disk(offsets@[i].0 as int, offsets@[i].1 as int, radius as int),
                forall|a: int, b: int| -radius <= a <= radius && -radius <= b < dz && #[trigger] in_disk(a, b, radius as int) ==> offsets@.contains((a as i32, b as i32)),
                forall|a: int| -radius <= a < dx && #[trigger] in_disk(a, dz as int, radius as int) ==> offsets@.contains((a as i32, dz)),
            decreases radius + 1 - dx,
        {
            let dxl: i64 = dx as i64;
            let dzl: i64 = dz as i64;
            assert(0 <= dxl * dxl <= 46340 * 46340 && 0 <= dzl * dzl <= 46340 * 46340) by (nonlinear_arith)
                requires -46340 <= dxl <= 46340, -46340 <= dzl <= 46340;
            let d2: i64 = dxl * dxl + dzl * dzl;
            let ghost before = offsets@;
            if d2 <= r2 {
                offsets.push((dx, dz));
            }
            proof {
                assert forall|a: int, b: int| -radius <= a <= radius && -radius <= b < dz && #[trigger] in_disk(a, b, radius as int) implies offsets@.contains((a as i32, b as i32)) by {
                    let k = choose|k: int| 0 <= k < before.len() && before[k] == (a as i32, b as i32);
                    assert(offsets@[k] == before[k]);
                }
                assert forall|a: int| -radius <= a < dx + 1 && #[trigger] in_disk(a, dz as int, radius as int) implies offsets@.contains((a as i32, dz)) by {
                    if a < dx {
                        let k = choose|k: int| 0 <= k < before.len() && before[k] == (a as i32, dz);
                        assert(offsets@[k] == before[k]);
                    } else {
                        assert(offsets@[before.len() as int] == (dx, dz));
                    }
                }
            }
            dx = dx + 1;
        }
        dz = dz + 1;
    }
    offsets
}

/// Disk radius, in blocks, of a line `width_mm` millimetres wide:
/// `max(1, ceil(width / 2))`.
pub open spec fn line_radius_spec(width_mm: int) -> int {
    let r = (width_mm + 1999) / 2000;
    if r < 1 {
        1
    } else if r > MAX_DISK_RADIUS {
        MAX_DISK_RADIUS as int
    } else {
        r
    }
}

pub fn line_radius(width_mm: u64) -> (r: i32)
    ensures
        r as int == line_radius_spec(width_mm as int),
        1 <= r <= MAX_DISK_RADIUS,
{
    let q: u64 = width_mm / 2000 + if width_mm % 2000 == 0 { 0 } else { 1 };
    assert(q == (width_mm + 1999) / 2000) by (nonlinear_arith)
        requires q == width_mm / 2000 + if width_mm % 2000 == 0 { 0u64 } else { 1u64 };
    if q < 1 {
        1
    } else if q > MAX_DISK_RADIUS as u64 {
        MAX_DISK_RADIUS
    } else {
        q as i32
    }
}

pub open spec fn abs_int(v: int) -> int {
    if v < 0 { -v } else { v }
}

/// Number of steps along segment `(x0, z0) -> (x1, z1)`: its Chebyshev length, at least 1.
pub open spec fn seg_steps(x0: int, z0: int, x1: int, z1: int) -> int {
    let a = abs_int(x1 - x0);
    let b = abs_int(z1 - z0);
    let m = if a >= b { a } else { b };
    if m < 1 { 1 } else { m }
}

/// Lattice point `step` of a segment: the exact point rounded, halves away from zero.
pub open spec fn seg_point(x0: int, z0: int, x1: int, z1: int, step: int) -> (int, int) {
    let n = seg_steps(x0, z0, x1, z1);
    (round_div(x0 * n + (x1 - x0) * step, n), round_div(z0 * n + (z1 - z0) * step, n))
}

/// The `steps + 1` lattice points sampled along a segment, both ends included.
pub fn segment_points(x0: i32, z0: i32, x1: i32, z1: i32) -> (r: Vec<(i64, i64)>)
    ensures
        r@.len() == seg_steps(x0 as int, z0 as int, x1 as int, z1 as int) + 1,
        forall|s: int| 0 <= s < r@.len() ==> (#[trigger] r@[s]).0 == seg_point(x0 as int, z0 as int, x1 as int, z1 as int, s).0
            && r@[s].1 == seg_point(x0 as int, z0 as int, x1 as int, z1 as int, s).1,
{
    let dx: i64 = x1 as i64 - x0 as i64;
    let dz: i64 = z1 as i64 - z0 as i64;
    let ax: i64 = if dx < 0 { -dx } else { dx };
    let az: i64 = if dz < 0 { -dz } else { dz };
    let m: i64 = if ax >= az { ax } else { az };
    let n: i64 = if m < 1 { 1 } else { m };
    let mut out: Vec<(i64, i64)> = Vec::new();
    let mut step: i64 = 0;
    while step <= n
        invariant
            n == seg_steps(x0 as int, z0 as int, x1 as int, z1 as int),
            1 <= n <= 0x1_0000_0000,
            dx == x1 - x0,
            dz == z1 - z0,
            -0x1_0000_0000 <= dx <= 0x1_0000_0000,
            -0x1_0000_0000 <= dz <= 0x1_0000_0000,
            0 <= step <= n + 1,
            out@.len() == step,
            forall|s: int| 0 <= s < step ==> (#[trigger] out@[s]).0 == seg_point(x0 as int, z0 as int, x1 as int, z1 as int, s).0
                && out@[s].1 == seg_point(x0 as int, z0 as int, x1 as int, z1 as int, s).1,
        decreases n + 1 - step,
    {
        assert(-0x1_0000_0000_0000_0000 <= x0 as i128 * n as i128 <= 0x1_0000_0000_0000_0000
            && -0x1_0000_0000_0000_0000 <= z0 as i128 * n as i128 <= 0x1_0000_0000_0000_0000
            && -0x2_0000_0000_0000_0000 <= dx as i128 * step as i128 <= 0x2_0000_0000_0000_0000
            && -0x2_0000_0000_0000_0000 <= dz as i128 * step as i128 <= 0x2_0000_0000_0000_0000) by (nonlinear_arith)
            requires
                -0x8000_0000 <= x0 < 0x8000_0000,
                -0x8000_0000 <= z0 < 0x8000_0000,
                1 <= n <= 0x1_0000_0000,
                -0x1_0000_0000 <= dx <= 0x1_0000_0000,
                -0x1_0000_0000 <= dz <= 0x1_0000_0000,
                0 <= step <= 0x1_0000_0001;
        let tx: i128 = x0 as i128 * n as i128 + dx as i128 * step as i128;
        let tz: i128 = z0 as i128 * n as i128 + dz as i128 * step as i128;
        assert(-0x1000_0000_0000_0000_0000 <= tx <= 0x1000_0000_0000_0000_0000) by (nonlinear_arith)
            requires
                tx == x0 * n + dx * step,
                -0x8000_0000 <= x0 < 0x8000_0000,
                1 <= n <= 0x1_0000_0000,
                -0x1_0000_0000 <= dx <= 0x1_0000_0000,
                0 <= step <= 0x1_0000_0001;
        assert(-0x1000_0000_0000_0000_0000 <= tz <= 0x1000_0000_0000_0000_0000) by (nonlinear_arith)
            requires
                tz == z0 * n + dz * step,
                -0x8000_0000 <= z0 < 0x8000_0000,
                1 <= n <= 0x1_0000_0000,
                -0x1_0000_0000 <= dz <= 0x1_0000_0000,
                0 <= step <= 0x1_0000_0001;
        let px = round_div_i128(tx, n as i128);
        let pz = round_div_i128(tz, n as i128);
        proof {
            lemma_round_div_bounds(tx as int, n as int, x0 as int, x1 as int, step as int);
            lemma_round_div_bounds(tz as int, n as int, z0 as int, z1 as int, step as int);
        }
        out.push((px as i64, pz as i64));
        step = step + 1;
    }
    out
}

proof fn lemma_round_div_bounds(t: int, n: int, a: int, b: int, s: int)
    requires
        1 <= n,
        0 <= s <= n,
        t == a * n + (b - a) * s,
        -0x8000_0000 <= a < 0x8000_0000,
        -0x8000_0000 <= b < 0x8000_0000,
    ensures
        -0x8000_0001 <= round_div(t, n) <= 0x8000_0000,
{
    let lo = if a <= b { a } else { b };
    let hi = if a <= b { b } else { a };
    assert(lo * n <= t <= hi * n) by (nonlinear_arith)
        requires
            t == a * n + (b - a) * s, 0 <= s <= n, 1 <= n,
            lo == (if a <= b { a } else { b }), hi == (if a <= b { b } else { a });
    if t >= 0 {
        assert((2 * t + n) / (2 * n) <= hi + 1) by (nonlinear_arith)
            requires t <= hi * n, n >= 1, t >= 0;
        assert((2 * t + n) / (2 * n) >= 0) by (nonlinear_arith)
            requires t >= 0, n >= 1;
    } else {
        assert((-2 * t + n) / (2 * n) <= -lo + 1) by (nonlinear_arith)
            requires lo * n <= t, n >= 1, t < 0;
        assert((-2 * t + n) / (2 * n) >= 0) by (nonlinear_arith)
            requires t < 0, n >= 1;
    }
}

/// Whether world column `(x, z)` of `m` holds `ov` or an overlay that outranks it.
pub open spec fn covered(m: ChunkMap, x: int, z: int, ov: OverlayView) -> bool {
    let s = m.slot(chunk_of(x) as i32, chunk_of(z) as i32);
    s.is_some() ==> {
        let o = m.chunks@[s.unwrap()].overlays@[column_index(local_of(x), local_of(z))];
        o.is_some() && (o.unwrap()@ == ov || outranks(o.unwrap()@, ov))
    }
}

/// What painting keeps: the chunks, their heights, and every column that
/// already held an overlay at least as strong as `ov`.
pub open spec fn paint_keeps(before: ChunkMap, after: ChunkMap, ov: OverlayView) -> bool {
    &&& after.wf()
    &&& after.keys@ == before.keys@
    &&& after.index@ == before.index@
    &&& after.chunks@.len() == before.chunks@.len()
    &&& forall|i: int| 0 <= i < before.chunks@.len() ==> (#[trigger] after.chunks@[i]).heights@ == before.chunks@[i].heights@
    &&& forall|x: int, z: int| #[trigger] covered(before, x, z, ov) ==> covered(after, x, z, ov)
}

proof fn lemma_paint_keeps_trans(a: ChunkMap, b: ChunkMap, c: ChunkMap, ov: OverlayView)
    requires
        paint_keeps(a, b, ov),
        paint_keeps(b, c, ov),
    ensures
        paint_keeps(a, c, ov),
{
    assert forall|x: int, z: int| #[trigger] covered(a, x, z, ov) implies covered(c, x, z, ov) by {
        assert(covered(b, x, z, ov));
    }
}

/// Paints `overlay` on one world column; counts 1 when its chunk exists.
pub fn paint_column(chunks: &mut ChunkMap, x: i64, z: i64, overlay: &ColumnOverlay) -> (r: usize)
    requires
        old(chunks).wf(),
    ensures
        paint_keeps(*old(chunks), *final(chunks), overlay@),
        i32::MIN <= x <= i32::MAX && i32::MIN <= z <= i32::MAX ==> covered(*final(chunks), x as int, z as int, overlay@),
        r <= 1,
{
    if x < i32::MIN as i64 || x > i32::MAX as i64 || z < i32::MIN as i64 || z > i32::MAX as i64 {
        return 0;
    }
    let ghost before = *chunks;
    let painted = chunks.apply_overlay_column(x as i32, z as i32, overlay);
    proof {
        assert forall|i: int| 0 <= i < before.chunks@.len() implies (#[trigger] chunks.chunks@[i]).heights@ == before.chunks@[i].heights@ by {
            if painted {
                let s = before.slot(chunk_of(x as int) as i32, chunk_of(z as int) as i32).unwrap();
                if i != s {
                    assert(chunks.chunks@[i] == before.chunks@[i]);
                }
            }
        }
        assert forall|a: int, b: int| #[trigger] covered(before, a, b, overlay@) implies covered(*chunks, a, b, overlay@) by {
            if painted {
                let s = before.slot(chunk_of(x as int) as i32, chunk_of(z as int) as i32).unwrap();
                let t = before.slot(chunk_of(a) as i32, chunk_of(b) as i32);
                if t.is_some() && t.unwrap() == s {
                    let c = column_index(local_of(x as int), local_of(z as int));
                    let d = column_index(local_of(a), local_of(b));
                    if c != d {
                        assert(0 <= d < 256) by {
                            vstd::arithmetic::div_mod::lemma_mod_bound(a, 16);
                            vstd::arithmetic::div_mod::lemma_mod_bound(b, 16);
                        }
                        assert(chunks.chunks@[s].overlays@[d] == before.chunks@[s].overlays@[d]);
                    }
                } else if t.is_some() {
                    assert(chunks.chunks@[t.unwrap()] == before.chunks@[t.unwrap()]);
                }
            }
        }
    }
    if painted { 1 } else { 0 }
}

/// Stamps a disk of `offsets` around `(cx, cz)`; returns how many columns fell in existing chunks.
pub fn paint_disk(chunks: &mut ChunkMap, cx: i64, cz: i64, offsets: &Vec<(i32, i32)>, overlay: &ColumnOverlay) -> (r: usize)
    requires
        old(chunks).wf(),
        -0x1_0000_0000 <= cx <= 0x1_0000_0000,
        -0x1_0000_0000 <= cz <= 0x1_0000_0000,
    ensures
        paint_keeps(*old(chunks), *final(chunks), overlay@),
        forall|i: int| 0 <= i < offsets@.len() ==> {
            let x = cx + (#[trigger] offsets@[i]).0;
            let z = cz + offsets@[i].1;
            i32::MIN <= x <= i32::MAX && i32::MIN <= z <= i32::MAX ==> covered(*final(chunks), x, z, overlay@)
        },
        r <= offsets@.len(),
{
    let ghost start = *chunks;
    let mut painted: usize = 0;
    let mut i: usize = 0;
    while i < offsets.len()
        invariant
            i <= offsets@.len(),
            painted <= i,
            paint_keeps(start, *chunks, overlay@),
            -0x1_0000_0000 <= cx <= 0x1_0000_0000,
            -0x1_0000_0000 <= cz <= 0x1_0000_0000,
            forall|k: int| 0 <= k < i ==> {
                let x = cx + (#[trigger] offsets@[k]).0;
                let z = cz + offsets@[k].1;
                i32::MIN <= x <= i32::MAX && i32::MIN <= z <= i32::MAX ==> covered(*chunks, x, z, overlay@)
            },
        decreases offsets@.len() - i,
    {
        let (dx, dz) = offsets[i];
        let ghost before = *chunks;
        let n = paint_column(chunks, cx + dx as i64, cz + dz as i64, overlay);
        proof {
            lemma_paint_keeps_trans(start, before, *chunks, overlay@);
            assert forall|k: int| 0 <= k < i + 1 implies {
                let x = cx + (#[trigger] offsets@[k]).0;
                let z = cz + offsets@[k].1;
                i32::MIN <= x <= i32::MAX && i32::MIN <= z <= i32::MAX ==> covered(*chunks, x, z, overlay@)
            } by {
                if k < i {
                    let x = cx + offsets@[k].0;
                    let z = cz + offsets@[k].1;
                    if i32::MIN <= x <= i32::MAX && i32::MIN <= z <= i32::MAX {
                        assert(covered(before, x, z, overlay@));
                    }
                }
            }
        }
        painted = painted + n;
        i = i + 1;
    }
    painted
}

/// Rasterizes a polyline `width_mm` millimetres wide: along each segment,
/// at each of its lattice points, stamps a disk of radius
/// `max(1, ceil(width / 2))`. Returns how many stamps fell in existing chunks.
pub fn rasterize_line(path: &Vec<(i32, i32)>, width_mm: u64, overlay: &ColumnOverlay, chunks: &mut ChunkMap) -> (r: usize)
    requires
        old(chunks).wf(),
    ensures
        paint_keeps(*old(chunks), *final(chunks), overlay@),
        path@.len() < 2 ==> r == 0,
        forall|i: int, s: int, dx: int, dz: int|
            0 <= i < path@.len() - 1
            && 0 <= s <= seg_steps(path@[i].0 as int, path@[i].1 as int, path@[i + 1].0 as int, path@[i + 1].1 as int)
            && -line_radius_spec(width_mm as int) <= dx <= line_radius_spec(width_mm as int)
            && -line_radius_spec(width_mm as int) <= dz <= line_radius_spec(width_mm as int)
            && #[trigger] in_disk(dx, dz, line_radius_spec(width_mm as int))
            && #[trigger] seg_point(path@[i].0 as int, path@[i].1 as int, path@[i + 1].0 as int, path@[i + 1].1 as int, s) == (seg_point(path@[i].0 as int, path@[i].1 as int, path@[i + 1].0 as int, path@[i + 1].1 as int, s).0, seg_point(path@[i].0 as int, path@[i].1 as int, path@[i + 1].0 as int, path@[i + 1].1 as int, s).1)
            && i32::MIN <= seg_point(path@[i].0 as int, path@[i].1 as int, path@[i + 1].0 as int, path@[i + 1].1 as int, s).0 + dx <= i32::MAX
            && i32::MIN <= seg_point(path@[i].0 as int, path@[i].1 as int, path@[i + 1].0 as int, path@[i + 1].1 as int, s).1 + dz <= i32::MAX
            ==> covered(*final(chunks), seg_point(path@[i].0 as int, path@[i].1 as int, path@[i + 1].0 as int, path@[i + 1].1 as int, s).0 + dx, seg_point(path@[i].0 as int, path@[i].1 as int, path@[i + 1].0 as int, path@[i + 1].1 as int, s).1 + dz, overlay@),
{
    if path.len() < 2 {
        return 0;
    }
    let radius = line_radius(width_mm);
    let offsets = disk_offsets(radius);
    let ghost start = *chunks;
    let ghost rr = line_radius_spec(width_mm as int);
    let mut painted: usize = 0;
    let mut i: usize = 0;
    while i < path.len() - 1
        invariant
            1 <= path@.len(),
            i + 1 <= path@.len(),
            radius as int == rr,
            1 <= radius <= MAX_DISK_RADIUS,
            disk_complete(offsets@, radius as int),
            paint_keeps(start, *chunks, overlay@),
            forall|j: int, s: int, dx: int, dz: int|
                0 <= j < i
                && 0 <= s <= seg_steps(path@[j].0 as int, path@[j].1 as int, path@[j + 1].0 as int, path@[j + 1].1 as int)
                && -rr <= dx <= rr && -rr <= dz <= rr
                && #[trigger] in_disk(dx, dz, rr)
                && #[trigger] seg_point(path@[j].0 as int, path@[j].1 as int, path@[j + 1].0 as int, path@[j + 1].1 as int, s) == (seg_point(path@[j].0 as int, path@[j].1 as int, path@[j + 1].0 as int, path@[j + 1].1 as int, s).0, seg_point(path@[j].0 as int, path@[j].1 as int, path@[j + 1].0 as int, path@[j + 1].1 as int, s).1)
                && i32::MIN <= seg_point(path@[j].0 as int, path@[j].1 as int, path@[j + 1].0 as int, path@[j + 1].1 as int, s).0 + dx <= i32::MAX
                && i32::MIN <= seg_point(path@[j].0 as int, path@[j].1 as int, path@[j + 1].0 as int, path@[j + 1].1 as int, s).1 + dz <= i32::MAX
                ==> covered(*chunks, seg_point(path@[j].0 as int, path@[j].1 as int, path@[j + 1].0 as int, path@[j + 1].1 as int, s).0 + dx, seg_point(path@[j].0 as int, path@[j].1 as int, path@[j + 1].0 as int, path@[j + 1].1 as int, s).1 + dz, overlay@),
        decreases path@.len() - i,
    {
        let (x0, z0) = path[i];
        let (x1, z1) = path[i + 1];
        let points = segment_points(x0, z0, x1, z1);
        let ghost seg_start = *chunks;
        let mut k: usize = 0;
        while k < points.len()
            invariant
                i + 1 < path@.len(),
                (x0, z0) == path@[i as int],
                (x1, z1) == path@[i + 1],
                k <= points@.len(),
                points@.len() == seg_steps(x0 as int, z0 as int, x1 as int, z1 as int) + 1,
                forall|s: int| 0 <= s < points@.len() ==> (#[trigger] points@[s]).0 == seg_point(x0 as int, z0 as int, x1 as int, z1 as int, s).0
                    && points@[s].1 == seg_point(x0 as int, z0 as int, x1 as int, z1 as int, s).1,
                radius as int == rr,
                1 <= radius <= MAX_DISK_RADIUS,
                disk_complete(offsets@, radius as int),
                paint_keeps(start, seg_start, overlay@),
                paint_keeps(seg_start, *chunks, overlay@),
                forall|s: int, dx: int, dz: int|
                    0 <= s < k
                    && -rr <= dx <= rr && -rr <= dz <= rr
                    && #[trigger] in_disk(dx, dz, rr)
                    && i32::MIN <= points@[s].0 + dx <= i32::MAX
                    && i32::MIN <= points@[s].1 + dz <= i32::MAX
                    ==> covered(*chunks, #[trigger] points@[s].0 + dx, points@[s].1 + dz, overlay@),
            decreases points@.len() - k,
        {
            let (px, pz) = points[k];
            proof {
                lemma_seg_point_range(x0 as int, z0 as int, x1 as int, z1 as int, k as int);
            }
            let ghost before = *chunks;
            let n = paint_disk(chunks, px, pz, &offsets, overlay);
            proof {
                lemma_paint_keeps_trans(seg_start, before, *chunks, overlay@);
                assert forall|s: int, dx: int, dz: int|
                    0 <= s < k + 1
                    && -rr <= dx <= rr && -rr <= dz <= rr
                    && #[trigger] in_disk(dx, dz, rr)
                    && i32::MIN <= points@[s].0 + dx <= i32::MAX
                    && i32::MIN <= points@[s].1 + dz <= i32::MAX
                    implies covered(*chunks, #[trigger] points@[s].0 + dx, points@[s].1 + dz, overlay@) by {
                    if s < k {
                        assert(covered(before, points@[s].0 + dx, points@[s].1 + dz, overlay@));
                    } else {
                        assert(offsets@.contains((dx as i32, dz as i32)));
                        let t = choose|t: int| 0 <= t < offsets@.len() && offsets@[t] == (dx as i32, dz as i32);
                        assert(offsets@[t].0 == dx && offsets@[t].1 == dz);
                    }
                }
            }
            painted = if painted < usize::MAX - n { painted + n } else { usize::MAX };
            k = k + 1;
        }
        proof {
            lemma_paint_keeps_trans(start, seg_start, *chunks, overlay@);
            assert forall|j: int, s: int, dx: int, dz: int|
                0 <= j < i + 1
                && 0 <= s <= seg_steps(path@[j].0 as int, path@[j].1 as int, path@[j + 1].0 as int, path@[j + 1].1 as int)
                && -rr <= dx <= rr && -rr <= dz <= rr
                && #[trigger] in_disk(dx, dz, rr)
                && #[trigger] seg_point(path@[j].0 as int, path@[j].1 as int, path@[j + 1].0 as int, path@[j + 1].1 as int, s) == (seg_point(path@[j].0 as int, path@[j].1 as int, path@[j + 1].0 as int, path@[j + 1].1 as int, s).0, seg_point(path@[j].0 as int, path@[j].1 as int, path@[j + 1].0 as int, path@[j + 1].1 as int, s).1)
                && i32::MIN <= seg_point(path@[j].0 as int, path@[j].1 as int, path@[j + 1].0 as int, path@[j + 1].1 as int, s).0 + dx <= i32::MAX
                && i32::MIN <= seg_point(path@[j].0 as int, path@[j].1 as int, path@[j + 1].0 as int, path@[j + 1].1 as int, s).1 + dz <= i32::MAX
                implies covered(*chunks, seg_point(path@[j].0 as int, path@[j].1 as int, path@[j + 1].0 as int, path@[j + 1].1 as int, s).0 + dx, seg_point(path@[j].0 as int, path@[j].1 as int, path@[j + 1].0 as int, path@[j + 1].1 as int, s).1 + dz, overlay@) by {
                let p = seg_point(path@[j].0 as int, path@[j].1 as int, path@[j + 1].0 as int, path@[j + 1].1 as int, s);
                if j < i {
                    assert(covered(seg_start, p.0 + dx, p.1 + dz, overlay@));
                } else {
                    assert(points@[s].0 == p.0 && points@[s].1 == p.1);
                }
            }
        }
        i = i + 1;
    }
    painted
}

proof fn lemma_seg_point_range(x0: int, z0: int, x1: int, z1: int, s: int)
    requires
        i32::MIN <= x0 <= i32::MAX,
        i32::MIN <= z0 <= i32::MAX,
        i32::MIN <= x1 <= i32::MAX,
        i32::MIN <= z1 <= i32::MAX,
        0 <= s <= seg_steps(x0, z0, x1, z1),
    ensures
        -0x1_0000_0000 <= seg_point(x0, z0, x1, z1, s).0 <= 0x1_0000_0000,
        -0x1_0000_0000 <= seg_point(x0, z0, x1, z1, s).1 <= 0x1_0000_0000,
{
    let n = seg_steps(x0, z0, x1, z1);
    lemma_round_div_bounds(x0 * n + (x1 - x0) * s, n, x0, x1, s);
    lemma_round_div_bounds(z0 * n + (z1 - z0) * s, n, z0, z1, s);
}

/// Integer bounding box `(min_x, max_x, min_z, max_z)` of a polygon ring of
/// at least three points; nothing for fewer.
pub fn polygon_bounds(path: &Vec<(i32, i32)>) -> (r: Option<(i32, i32, i32, i32)>)
    ensures
        path@.len() < 3 <==> r.is_none(),
        r.is_some() ==> {
            let (a, b, c, d) = r.unwrap();
            &&& forall|i: int| 0 <= i < path@.len() ==> a <= (#[trigger] path@[i]).0 <= b && c <= path@[i].1 <= d
            &&& exists|i: int| 0 <= i < path@.len() && (#[trigger] path@[i]).0 == a
            &&& exists|i: int| 0 <= i < path@.len() && (#[trigger] path@[i]).0 == b
            &&& exists|i: int| 0 <= i < path@.len() && (#[trigger] path@[i]).1 == c
            &&& exists|i: int| 0 <= i < path@.len() && (#[trigger] path@[i]).1 == d
        },
{
    if path.len() < 3 {
        return None;
    }
    let (mut a, mut c) = path[0];
    let mut b = a;
    let mut d = c;
    let mut i: usize = 1;
    while i < path.len()
        invariant
            1 <= i <= path@.len(),
            forall|k: int| 0 <= k < i ==> a <= (#[trigger] path@[k]).0 <= b && c <= path@[k].1 <= d,
            exists|k: int| 0 <= k < i && (#[trigger] path@[k]).0 == a,
            exists|k: int| 0 <= k < i && (#[trigger] path@[k]).0 == b,
            exists|k: int| 0 <= k < i && (#[trigger] path@[k]).1 == c,
            exists|k: int| 0 <= k < i && (#[trigger] path@[k]).1 == d,
        decreases path@.len() - i,
    {
        let (x, z) = path[i];
        if x < a { a = x; }
        if x > b { b = x; }
        if z < c { c = z; }
        if z > d { d = z; }
        i = i + 1;
    }
    Some((a, b, c, d))
}

/// Paints `overlay` on each of `cells`; returns how many fell in existing chunks.
pub fn paint_cells(cells: &Vec<(i32, i32)>, overlay: &ColumnOverlay, chunks: &mut ChunkMap) -> (r: usize)
    requires
        old(chunks).wf(),
    ensures
        paint_keeps(*old(chunks), *final(chunks), overlay@),
        forall|i: int| 0 <= i < cells@.len() ==> covered(*final(chunks), (#[trigger] cells@[i]).0 as int, cells@[i].1 as int, overlay@),
        r <= cells@.len(),
{
    let ghost start = *chunks;
    let mut painted: usize = 0;
    let mut i: usize = 0;
    while i < cells.len()
        invariant
            i <= cells@.len(),
            painted <= i,
            paint_keeps(start, *chunks, overlay@),
            forall|k: int| 0 <= k < i ==> covered(*chunks, (#[trigger] cells@[k]).0 as int, cells@[k].1 as int, overlay@),
        decreases cells@.len() - i,
    {
        let (x, z) = cells[i];
        let ghost before = *chunks;
        let n = paint_column(chunks, x as i64, z as i64, overlay);
        proof {
            lemma_paint_keeps_trans(start, before, *chunks, overlay@);
            assert forall|k: int| 0 <= k < i + 1 implies covered(*chunks, (#[trigger] cells@[k]).0 as int, cells@[k].1 as int, overlay@) by {
                if k < i {
                    assert(covered(before, cells@[k].0 as int, cells@[k].1 as int, overlay@));
                }
            }
        }
        painted = painted + n;
        i = i + 1;
    }
    painted
}

} // verus!
