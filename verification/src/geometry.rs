//! Geometry primitives on canonical grid coordinates.
//!
//! All geometry here is exact integer arithmetic on the 1e-7 degree grid.
//! Longitudes are flattened by a fixed-point cosine of the latitude before
//! Euclidean measures are taken, as the flat-Earth reprojection asks; one
//! grid unit then corresponds to about 11.1 mm of arc (earth radius
//! 6,371,000 m), which fixes the constants for the metre thresholds.

use crate::coord::Coord;
use vstd::prelude::*;

verus! {

/// The floor of the square root.
pub open spec fn sqrt_floor(n: nat) -> nat
    decreases n,
{
    if n == 0 {
        0
    } else {
        let s = sqrt_floor((n - 1) as nat);
        if (s + 1) * (s + 1) <= n {
            s + 1
        } else {
            s
        }
    }
}

/// `sqrt_floor` is the integer square root.
pub proof fn lemma_sqrt_floor(n: nat)
    ensures
        sqrt_floor(n) * sqrt_floor(n) <= n,
        n < (sqrt_floor(n) + 1) * (sqrt_floor(n) + 1),
    decreases n,
{
    reveal_with_fuel(sqrt_floor, 2);
    if n == 0 {
        assert(sqrt_floor(n) == 0);
        assert((sqrt_floor(n) + 1) * (sqrt_floor(n) + 1) == 1) by (nonlinear_arith)
            requires
                sqrt_floor(n) == 0,
        ;
    } else {
        lemma_sqrt_floor((n - 1) as nat);
        let s = sqrt_floor((n - 1) as nat);
        let r = sqrt_floor(n);
        if (s + 1) * (s + 1) <= n {
            assert(r == s + 1);
            assert(r * r == (s + 1) * (s + 1)) by (nonlinear_arith)
                requires
                    r == s + 1,
            ;
            assert((r + 1) * (r + 1) == (s + 2) * (s + 2)) by (nonlinear_arith)
                requires
                    r == s + 1,
            ;
            assert((s + 1) * (s + 1) < (s + 2) * (s + 2)) by (nonlinear_arith);
        } else {
            assert(r == s);
            assert(r * r == s * s) by (nonlinear_arith)
                requires
                    r == s,
            ;
            assert((r + 1) * (r + 1) == (s + 1) * (s + 1)) by (nonlinear_arith)
                requires
                    r == s,
            ;
        }
    }
}

/// Any value with the square-root property is `sqrt_floor`.
pub proof fn lemma_sqrt_floor_unique(n: nat, r: nat)
    requires
        r * r <= n,
        n < (r + 1) * (r + 1),
    ensures
        r == sqrt_floor(n),
{
    lemma_sqrt_floor(n);
    let s = sqrt_floor(n);
    if r < s {
        assert((r + 1) * (r + 1) <= s * s) by (nonlinear_arith)
            requires
                r + 1 <= s,
        ;
    }
    if s < r {
        assert((s + 1) * (s + 1) <= r * r) by (nonlinear_arith)
            requires
                s + 1 <= r,
        ;
    }
}

/// Integer square root by bisection.
pub fn isqrt(n: u128) -> (r: u64)
    requires
        n < 0x1_0000_0000_0000_0000_0000,  // 2^80
    ensures
        r as nat == sqrt_floor(n as nat),
{
    let mut lo: u128 = 0;
    let mut hi: u128 = 0x1_0000_0000_0001;  // 2^48 + 1
    proof {
        assert(hi * hi > n) by (nonlinear_arith)
            requires
                hi == 0x1_0000_0000_0001u128 && n < 0x1_0000_0000_0000_0000_0000,
        ;
    }
    while lo + 1 < hi
        invariant
            lo < hi <= 0x1_0000_0000_0001,
            lo * lo <= n,
            n < hi * hi,
        decreases hi - lo,
    {
        let mid = lo + (hi - lo) / 2;
        proof {
            assert(mid * mid <= 0x1_0000_0000_0001u128 * 0x1_0000_0000_0001u128) by (
            nonlinear_arith)
                requires
                    0 <= mid <= 0x1_0000_0000_0001u128,
            ;
        }
        if mid * mid <= n {
            lo = mid;
        } else {
            hi = mid;
        }
    }
    proof {
        lemma_sqrt_floor_unique(n as nat, lo as nat);
    }
    lo as u64
}

/// A fixed-point cosine of the latitude, in units of 1/1024: the factor a
/// longitude span is compressed by at that latitude. Computed from the
/// first terms of the cosine series in integer arithmetic; the error is
/// well below one part in a thousand over the latitude range.
pub open spec fn cos_q10_spec(lat7: int) -> int {
    let mag = if lat7 < 0 {
        -lat7
    } else {
        lat7
    };
    let d = mag / 100_000;  // centidegrees, 0..=9000
    let x2_q40 = d * d * 33_495;  // (d * pi/18000)^2 in q40
    let t1 = x2_q40 / 1_048_576;  // q20
    let t2 = (t1 * t1 / 1_048_576) / 24;
    let t3 = ((t1 * t1 / 1_048_576) * t1 / 1_048_576) / 720;
    let t4 = (((t1 * t1 / 1_048_576) * t1 / 1_048_576) * t1 / 1_048_576) / 40_320;
    let pos = 1_048_576 + t2 + t4;
    let neg = t1 / 2 + t3;
    if pos > neg {
        let v = (pos - neg) / 1024;
        if v > 1024 {
            1024
        } else {
            v
        }
    } else {
        0
    }
}

/// Executable fixed-point cosine of the latitude, in units of 1/1024.
pub fn cos_q10(lat7: i64) -> (r: u64)
    requires
        -900_000_000 <= lat7 <= 900_000_000,
    ensures
        r as int == cos_q10_spec(lat7 as int),
        r <= 1024,
{
    let mag: u64 = if lat7 < 0 {
        (-lat7) as u64
    } else {
        lat7 as u64
    };
    let d: u64 = mag / 100_000;
    proof {
        vstd::arithmetic::div_mod::lemma_div_is_ordered(mag as int, 900_000_000int, 100_000);
        assert(d * d * 33_495 <= 9000 * 9000 * 33_495) by (nonlinear_arith)
            requires
                0 <= d <= 9000u64,
        ;
    }
    let x2_q40: u64 = d * d * 33_495;
    let t1: u64 = x2_q40 / 1_048_576;
    proof {
        vstd::arithmetic::div_mod::lemma_div_is_ordered(
            x2_q40 as int,
            9000int * 9000 * 33_495,
            1_048_576,
        );
        assert(t1 * t1 <= 2_587_409 * 2_587_409) by (nonlinear_arith)
            requires
                0 <= t1 <= 2_587_409u64,
        ;
    }
    let t1s: u64 = t1 * t1 / 1_048_576;
    let t2: u64 = t1s / 24;
    proof {
        vstd::arithmetic::div_mod::lemma_div_is_ordered(
            (t1 * t1) as int,
            2_587_409int * 2_587_409,
            1_048_576,
        );
        assert(t1s * t1 <= 6_384_549 * 2_587_409) by (nonlinear_arith)
            requires
                0 <= t1s <= 6_384_549u64 && 0 <= t1 <= 2_587_409u64,
        ;
    }
    let t1c: u64 = t1s * t1 / 1_048_576;
    let t3: u64 = t1c / 720;
    proof {
        vstd::arithmetic::div_mod::lemma_div_is_ordered(
            (t1s * t1) as int,
            6_384_549int * 2_587_409,
            1_048_576,
        );
        assert(t1c * t1 <= 15_754_165 * 2_587_409) by (nonlinear_arith)
            requires
                0 <= t1c <= 15_754_165u64 && 0 <= t1 <= 2_587_409u64,
        ;
    }
    let t4: u64 = t1c * t1 / 1_048_576 / 40_320;
    let pos: u64 = 1_048_576 + t2 + t4;
    let neg: u64 = t1 / 2 + t3;
    let r: u64 = if pos > neg {
        let v = (pos - neg) / 1024;
        if v > 1024 {
            1024
        } else {
            v
        }
    } else {
        0
    };
    proof {
        assert(r as int == cos_q10_spec(lat7 as int));
    }
    r
}

/// Truncating halving, toward zero.
pub open spec fn half_trunc(x: int) -> int {
    if x >= 0 {
        x / 2
    } else {
        -((-x) / 2)
    }
}

/// The projected easting of a coordinate: longitude compressed by the
/// cosine of the latitude, in grid units.
pub open spec fn proj_x_spec(c: Coord) -> int {
    let q = cos_q10_spec(c.lat7 as int);
    let m = if c.lon7 < 0 {
        -c.lon7
    } else {
        c.lon7 as int
    };
    let scaled = m * q / 1024;
    if c.lon7 < 0 {
        -scaled
    } else {
        scaled
    }
}

/// Executable projected easting.
pub fn proj_x(c: &Coord) -> (r: i64)
    requires
        c.wf(),
    ensures
        r as int == proj_x_spec(*c),
        -1_800_000_000 <= r <= 1_800_000_000,
{
    let q = cos_q10(c.lat7);
    let m: u64 = if c.lon7 < 0 {
        (-c.lon7) as u64
    } else {
        c.lon7 as u64
    };
    proof {
        assert(m * q <= 1_800_000_000 * 1024) by (nonlinear_arith)
            requires
                m <= 1_800_000_000u64 && q <= 1024u64,
        ;
    }
    let scaled: u64 = m * q / 1024;
    proof {
        vstd::arithmetic::div_mod::lemma_div_is_ordered(
            (m * q) as int,
            1_800_000_000int * 1024,
            1024,
        );
    }
    if c.lon7 < 0 {
        -(scaled as i64)
    } else {
        scaled as i64
    }
}

/// The squared flat distance between two projected coordinates.
pub open spec fn hop_d2(a: Coord, b: Coord) -> int {
    let dx = proj_x_spec(b) - proj_x_spec(a);
    let dy = b.lat7 - a.lat7;
    dx * dx + dy * dy
}

/// The flat distance between two coordinates, in grid units.
pub open spec fn hop_len(a: Coord, b: Coord) -> int {
    sqrt_floor(hop_d2(a, b) as nat) as int
}

/// The polyline length of a coordinate sequence, in grid units.
pub open spec fn length_of(coords: Seq<Coord>) -> int
    decreases coords.len(),
{
    if coords.len() < 2 {
        0
    } else {
        length_of(coords.drop_last()) + hop_len(coords[coords.len() - 2], coords.last())
    }
}

/// Compute the polyline length of a geometry, in grid units, capped at the
/// integer limit.
pub fn geometry_length(coords: &Vec<Coord>) -> (r: u64)
    requires
        forall|i: int| 0 <= i < coords@.len() ==> (#[trigger] coords@[i]).wf(),
    ensures
        r as int == if length_of(coords@) > u64::MAX {
            u64::MAX as int
        } else {
            length_of(coords@)
        },
{
    let n = coords.len();
    let mut sum: u128 = 0;
    let mut i: usize = 0;
    if n == 0 {
        return 0;
    }
    proof {
        assert(coords@.subrange(0, 1) =~= seq![coords@[0]]);
    }
    while i + 1 < n
        invariant
            i < n,
            n == coords@.len(),
            forall|k: int| 0 <= k < coords@.len() ==> (#[trigger] coords@[k]).wf(),
            sum == length_of(coords@.subrange(0, i + 1)),
            sum <= (i as int) * 0x2_0000_0000,
        decreases n - i,
    {
        let a = coords[i];
        let b = coords[i + 1];
        let ax = proj_x(&a);
        let bx = proj_x(&b);
        let dx: i64 = bx - ax;
        let dy: i64 = b.lat7 - a.lat7;
        proof {
            assert((dx as int) * (dx as int) <= 3_600_000_000int * 3_600_000_000 && (dx as int) * (
            dx as int) >= 0) by (nonlinear_arith)
                requires
                    -3_600_000_000 <= dx as int <= 3_600_000_000,
            ;
            assert((dy as int) * (dy as int) <= 3_600_000_000int * 3_600_000_000 && (dy as int) * (
            dy as int) >= 0) by (nonlinear_arith)
                requires
                    -3_600_000_000 <= dy as int <= 3_600_000_000,
            ;
        }
        let dx2: u128 = (dx as i128 * dx as i128) as u128;
        let dy2: u128 = (dy as i128 * dy as i128) as u128;
        let d2: u128 = dx2 + dy2;
        let h = isqrt(d2);
        proof {
            lemma_sqrt_floor(d2 as nat);
            assert((h as nat) * (h as nat) <= d2 as nat);
            assert(h <= 0x2_0000_0000) by (nonlinear_arith)
                requires
                    (h as nat) * (h as nat) <= d2 as nat,
                    d2 as nat <= 2 * (3_600_000_000 * 3_600_000_000),
            ;
            assert(coords@.subrange(0, i + 2).drop_last() =~= coords@.subrange(0, i + 1));
            assert(coords@.subrange(0, i + 2).last() == coords@[i + 1]);
            assert(coords@.subrange(0, i + 2)[i as int] == coords@[i as int]);
            assert(hop_d2(coords@[i as int], coords@[i + 1]) == d2 as int);
        }
        sum = sum + (h as u128);
        i = i + 1;
    }
    proof {
        assert(coords@.subrange(0, n as int) =~= coords@);
    }
    if sum > 0xFFFF_FFFF_FFFF_FFFF {
        u64::MAX
    } else {
        sum as u64
    }
}

/// The squared length of the chord from `a` to `b` in the projected plane.
pub open spec fn chord_len2(a: Coord, b: Coord) -> int {
    let cx = proj_x_spec(b) - proj_x_spec(a);
    let cy = b.lat7 - a.lat7;
    cx * cx + cy * cy
}

/// The denominator of the squared point-to-chord distance.
pub open spec fn dist2_den(a: Coord, b: Coord) -> int {
    if chord_len2(a, b) == 0 {
        1
    } else {
        chord_len2(a, b)
    }
}

/// The numerator of the squared distance from `p` to the chord `[a, b]` in
/// the projected plane, over the denominator `dist2_den(a, b)`: the
/// projection parameter is clamped to the chord, as point-to-segment
/// distance asks.
pub open spec fn dist2_num(a: Coord, b: Coord, p: Coord) -> int {
    let ax = proj_x_spec(p) - proj_x_spec(a);
    let ay = p.lat7 - a.lat7;
    let cx = proj_x_spec(b) - proj_x_spec(a);
    let cy = b.lat7 - a.lat7;
    let lsq = cx * cx + cy * cy;
    let dot = ax * cx + ay * cy;
    if lsq == 0 {
        ax * ax + ay * ay
    } else if dot < 0 {
        (ax * ax + ay * ay) * lsq
    } else if dot > lsq {
        let ex = proj_x_spec(p) - proj_x_spec(b);
        let ey = p.lat7 - b.lat7;
        (ex * ex + ey * ey) * lsq
    } else {
        (ax * ax + ay * ay) * lsq - dot * dot
    }
}

/// The squared product bound of two inner products (Cauchy-Schwarz).
#[verifier::rlimit(100)]
proof fn lemma_cauchy_schwarz(ax: int, ay: int, cx: int, cy: int)
    ensures
        (ax * cx + ay * cy) * (ax * cx + ay * cy) <= (ax * ax + ay * ay) * (cx * cx + cy * cy),
{
    let u = ax * cx;
    let v = ay * cy;
    let p = ax * cy;
    let q = ay * cx;
    assert((u + v) * (u + v) == u * u + 2 * (u * v) + v * v) by (nonlinear_arith);
    assert((p - q) * (p - q) == p * p - 2 * (p * q) + q * q) by (nonlinear_arith);
    assert((ax * ax + ay * ay) * (cx * cx + cy * cy) == (ax * ax) * (cx * cx) + (ax * ax) * (cy
        * cy) + (ay * ay) * (cx * cx) + (ay * ay) * (cy * cy)) by (nonlinear_arith);
    assert((ax * ax) * (cx * cx) == (ax * cx) * (ax * cx)) by (nonlinear_arith);
    assert((ax * ax) * (cy * cy) == (ax * cy) * (ax * cy)) by (nonlinear_arith);
    assert((ay * ay) * (cx * cx) == (ay * cx) * (ay * cx)) by (nonlinear_arith);
    assert((ay * ay) * (cy * cy) == (ay * cy) * (ay * cy)) by (nonlinear_arith);
    assert((ax * cy) * (ay * cx) == (ax * cx) * (ay * cy)) by (nonlinear_arith);
    assert((p - q) * (p - q) >= 0) by (nonlinear_arith);
}

/// The distance numerator is never negative.
pub proof fn lemma_dist2_num_nonneg(a: Coord, b: Coord, p: Coord)
    ensures
        dist2_num(a, b, p) >= 0,
        dist2_den(a, b) >= 1,
{
    let ax = proj_x_spec(p) - proj_x_spec(a);
    let ay = p.lat7 - a.lat7;
    let cx = proj_x_spec(b) - proj_x_spec(a);
    let cy = b.lat7 - a.lat7;
    let ex = proj_x_spec(p) - proj_x_spec(b);
    let ey = p.lat7 - b.lat7;
    assert(ax * ax >= 0 && ay * ay >= 0 && cx * cx >= 0 && cy * cy >= 0 && ex * ex >= 0 && ey * ey
        >= 0) by (nonlinear_arith);
    lemma_cauchy_schwarz(ax, ay, cx, cy);
    let lsq = cx * cx + cy * cy;
    assert((ax * ax + ay * ay) * lsq >= 0) by (nonlinear_arith)
        requires
            ax * ax + ay * ay >= 0 && lsq >= 0,
    ;
    assert((ex * ex + ey * ey) * lsq >= 0) by (nonlinear_arith)
        requires
            ex * ex + ey * ey >= 0 && lsq >= 0,
    ;
}

/// Squares of in-range easting differences stay within the working bound.
proof fn lemma_sq_bound(x: int)
    requires
        -3_600_000_000 <= x <= 3_600_000_000,
    ensures
        0 <= x * x <= 12_960_000_000_000_000_000,
{
    assert(0 <= x * x <= 3_600_000_000int * 3_600_000_000) by (nonlinear_arith)
        requires
            -3_600_000_000 <= x <= 3_600_000_000,
    ;
}

/// Squares of in-range northing differences stay within a tighter bound.
proof fn lemma_sq_bound_y(y: int)
    requires
        -1_800_000_000 <= y <= 1_800_000_000,
    ensures
        0 <= y * y <= 3_240_000_000_000_000_000,
{
    assert(0 <= y * y <= 1_800_000_000int * 1_800_000_000) by (nonlinear_arith)
        requires
            -1_800_000_000 <= y <= 1_800_000_000,
    ;
}

/// Dot products of in-range differences stay within the working bound.
proof fn lemma_dot_bound(ax: int, ay: int, cx: int, cy: int)
    requires
        -3_600_000_000 <= ax <= 3_600_000_000,
        -1_800_000_000 <= ay <= 1_800_000_000,
        -3_600_000_000 <= cx <= 3_600_000_000,
        -1_800_000_000 <= cy <= 1_800_000_000,
    ensures
        -16_200_000_000_000_000_000 <= ax * cx + ay * cy <= 16_200_000_000_000_000_000,
        -12_960_000_000_000_000_000 <= ax * cx <= 12_960_000_000_000_000_000,
        -3_240_000_000_000_000_000 <= ay * cy <= 3_240_000_000_000_000_000,
{
    assert(-3_600_000_000int * 3_600_000_000 <= ax * cx <= 3_600_000_000int * 3_600_000_000) by (
    nonlinear_arith)
        requires
            -3_600_000_000 <= ax <= 3_600_000_000 && -3_600_000_000 <= cx <= 3_600_000_000,
    ;
    assert(-1_800_000_000int * 1_800_000_000 <= ay * cy <= 1_800_000_000int * 1_800_000_000) by (
    nonlinear_arith)
        requires
            -1_800_000_000 <= ay <= 1_800_000_000 && -1_800_000_000 <= cy <= 1_800_000_000,
    ;
}

/// Exec computation of the distance numerator and denominator.
fn dist2_parts(a: &Coord, b: &Coord, p: &Coord) -> (r: (u128, u128))
    requires
        a.wf(),
        b.wf(),
        p.wf(),
    ensures
        r.0 as int == dist2_num(*a, *b, *p),
        r.1 as int == dist2_den(*a, *b),
        r.1 >= 1,
        r.1 <= 0x1_0000_0000_0000_0000,
{
    let pax = proj_x(a);
    let pbx = proj_x(b);
    let ppx = proj_x(p);
    let ax: i64 = ppx - pax;
    let ay: i64 = p.lat7 - a.lat7;
    let cx: i64 = pbx - pax;
    let cy: i64 = b.lat7 - a.lat7;
    let ex: i64 = ppx - pbx;
    let ey: i64 = p.lat7 - b.lat7;
    proof {
        lemma_sq_bound(ax as int);
        lemma_sq_bound_y(ay as int);
        lemma_sq_bound(cx as int);
        lemma_sq_bound_y(cy as int);
        lemma_sq_bound(ex as int);
        lemma_sq_bound_y(ey as int);
    }
    let aa: i128 = (ax as i128) * (ax as i128) + (ay as i128) * (ay as i128);
    let lsq: i128 = (cx as i128) * (cx as i128) + (cy as i128) * (cy as i128);
    let ee: i128 = (ex as i128) * (ex as i128) + (ey as i128) * (ey as i128);
    proof {
        lemma_dot_bound(ax as int, ay as int, cx as int, cy as int);
    }
    let dot: i128 = (ax as i128) * (cx as i128) + (ay as i128) * (cy as i128);
    proof {
        lemma_dist2_num_nonneg(*a, *b, *p);
        assert(0 <= aa <= 16_200_000_000_000_000_000i128);
        assert(0 <= lsq <= 16_200_000_000_000_000_000i128);
        assert(0 <= ee <= 16_200_000_000_000_000_000i128);
        assert((aa as int) * (lsq as int) <= 16_200_000_000_000_000_000int
            * 16_200_000_000_000_000_000) by (nonlinear_arith)
            requires
                0 <= aa <= 16_200_000_000_000_000_000i128 && 0 <= lsq
                    <= 16_200_000_000_000_000_000i128,
        ;
        assert((ee as int) * (lsq as int) <= 16_200_000_000_000_000_000int
            * 16_200_000_000_000_000_000) by (nonlinear_arith)
            requires
                0 <= ee <= 16_200_000_000_000_000_000i128 && 0 <= lsq
                    <= 16_200_000_000_000_000_000i128,
        ;
    }
    let aau: u128 = aa as u128;
    let lsqu: u128 = lsq as u128;
    let eeu: u128 = ee as u128;
    proof {
        assert(aau as int == aa as int && lsqu as int == lsq as int && eeu as int == ee as int);
        assert((aau as int) * (lsqu as int) <= 16_200_000_000_000_000_000int
            * 16_200_000_000_000_000_000) by (nonlinear_arith)
            requires
                0 <= aau as int <= 16_200_000_000_000_000_000 && 0 <= lsqu as int
                    <= 16_200_000_000_000_000_000,
        ;
        assert((eeu as int) * (lsqu as int) <= 16_200_000_000_000_000_000int
            * 16_200_000_000_000_000_000) by (nonlinear_arith)
            requires
                0 <= eeu as int <= 16_200_000_000_000_000_000 && 0 <= lsqu as int
                    <= 16_200_000_000_000_000_000,
        ;
    }
    if lsq == 0 {
        (aau, 1u128)
    } else if dot < 0 {
        let num: u128 = aau * lsqu;
        (num, lsqu)
    } else if dot > lsq {
        let num: u128 = eeu * lsqu;
        (num, lsqu)
    } else {
        proof {
            lemma_cauchy_schwarz(ax as int, ay as int, cx as int, cy as int);
            assert((dot as int) * (dot as int) <= (aa as int) * (lsq as int)) by (nonlinear_arith)
                requires
                    ((ax as int) * (cx as int) + (ay as int) * (cy as int)) * ((ax as int) * (
                    cx as int) + (ay as int) * (cy as int)) <= ((ax as int) * (ax as int) + (
                    ay as int) * (ay as int)) * ((cx as int) * (cx as int) + (cy as int) * (
                    cy as int)),
                    dot as int == (ax as int) * (cx as int) + (ay as int) * (cy as int),
                    aa as int == (ax as int) * (ax as int) + (ay as int) * (ay as int),
                    lsq as int == (cx as int) * (cx as int) + (cy as int) * (cy as int),
            ;
            assert((dot as int) * (dot as int) <= 16_200_000_000_000_000_000int
                * 16_200_000_000_000_000_000) by (nonlinear_arith)
                requires
                    0 <= dot <= 16_200_000_000_000_000_000i128,
            ;
        }
        let dotu: u128 = dot as u128;
        proof {
            assert(dotu as int == dot as int);
            assert((dotu as int) * (dotu as int) <= (aau as int) * (lsqu as int)) by (
            nonlinear_arith)
                requires
                    0 <= dotu as int,
                    (dot as int) * (dot as int) <= (aa as int) * (lsq as int),
                    dotu as int == dot as int,
                    aau as int == aa as int,
                    lsqu as int == lsq as int,
            ;
        }
        let aal: u128 = aau * lsqu;
        let d2: u128 = dotu * dotu;
        (aal - d2, lsqu)
    }
}

/// The interior point with the greatest distance numerator among positions
/// `lo+1 ..= j`, scanned in order, earlier winners kept on ties: the pair
/// (index, numerator), index 0 meaning none found yet.
pub open spec fn dp_best(coords: Seq<Coord>, lo: int, hi: int, j: int) -> (int, int)
    decreases j - lo,
{
    if j <= lo {
        (0, 0)
    } else {
        let prev = dp_best(coords, lo, hi, j - 1);
        let n = dist2_num(coords[lo], coords[hi], coords[j]);
        if n > prev.1 {
            (j, n)
        } else {
            prev
        }
    }
}

/// When the best numerator is positive, the best index is interior.
pub proof fn lemma_dp_best_props(coords: Seq<Coord>, lo: int, hi: int, j: int)
    requires
        lo < j < coords.len(),
    ensures
        dp_best(coords, lo, hi, j).1 >= 0,
        dp_best(coords, lo, hi, j).1 > 0 ==> lo < dp_best(coords, lo, hi, j).0 <= j && dp_best(
            coords,
            lo,
            hi,
            j,
        ).1 == dist2_num(coords[lo], coords[hi], coords[dp_best(coords, lo, hi, j).0]),
    decreases j - lo,
{
    if j - 1 > lo {
        lemma_dp_best_props(coords, lo, hi, j - 1);
    } else {
        assert(dp_best(coords, lo, hi, j - 1) == (0int, 0int));
    }
}

/// The threshold for keeping a point: twice the squared distance, over the
/// chord denominator, at least `eps2x` (twice the squared tolerance in
/// grid units).
pub open spec fn dp_keeps(num: int, den: int, eps2x: int) -> bool {
    2 * num >= eps2x * den
}

/// The simplification of the stretch `lo ..= hi` of `coords`: the classic
/// recursive split at the farthest interior point when it is at least the
/// tolerance away from the chord, else just the two endpoints.
pub open spec fn dp_spec(coords: Seq<Coord>, lo: int, hi: int, eps2x: int) -> Seq<Coord>
    decreases hi - lo,
{
    if hi - lo + 1 <= 2 {
        coords.subrange(lo, hi + 1)
    } else {
        let best = dp_best(coords, lo, hi, hi - 1);
        let den = dist2_den(coords[lo], coords[hi]);
        if dp_keeps(best.1, den, eps2x) && lo < best.0 < hi {
            dp_spec(coords, lo, best.0, eps2x).drop_last() + dp_spec(coords, best.0, hi, eps2x)
        } else {
            seq![coords[lo], coords[hi]]
        }
    }
}

/// The simplification keeps the endpoints, has at least two points, and
/// draws every point from the stretch it simplifies.
pub proof fn lemma_dp_spec_props(coords: Seq<Coord>, lo: int, hi: int, eps2x: int)
    requires
        0 <= lo < hi < coords.len(),
    ensures
        dp_spec(coords, lo, hi, eps2x).len() >= 2,
        dp_spec(coords, lo, hi, eps2x)[0] == coords[lo],
        dp_spec(coords, lo, hi, eps2x).last() == coords[hi],
        forall|i: int|
            0 <= i < dp_spec(coords, lo, hi, eps2x).len() ==> exists|j: int|
                lo <= j <= hi && #[trigger] dp_spec(coords, lo, hi, eps2x)[i] == coords[j],
    decreases hi - lo,
{
    let res = dp_spec(coords, lo, hi, eps2x);
    if hi - lo + 1 <= 2 {
        assert forall|i: int| 0 <= i < res.len() implies exists|j: int|
            lo <= j <= hi && #[trigger] res[i] == coords[j] by {
            assert(res[i] == coords[lo + i]);
        }
    } else {
        let best = dp_best(coords, lo, hi, hi - 1);
        let den = dist2_den(coords[lo], coords[hi]);
        if dp_keeps(best.1, den, eps2x) && lo < best.0 < hi {
            let m = best.0;
            lemma_dp_spec_props(coords, lo, m, eps2x);
            lemma_dp_spec_props(coords, m, hi, eps2x);
            let left = dp_spec(coords, lo, m, eps2x);
            let right = dp_spec(coords, m, hi, eps2x);
            assert(res == left.drop_last() + right);
            assert(res[0] == left[0]);
            assert(res.last() == right.last());
            assert forall|i: int| 0 <= i < res.len() implies exists|j: int|
                lo <= j <= hi && #[trigger] res[i] == coords[j] by {
                if i < left.len() - 1 {
                    assert(res[i] == left[i]);
                    let j = choose|j: int| lo <= j <= m && left[i] == coords[j];
                    assert(lo <= j <= hi && res[i] == coords[j]);
                } else {
                    assert(res[i] == right[i - (left.len() - 1)]);
                    let j = choose|j: int| m <= j <= hi && right[i - (left.len() - 1)] == coords[j];
                    assert(lo <= j <= hi && res[i] == coords[j]);
                }
            }
        } else {
            assert(res[0] == coords[lo]);
            assert(res.last() == coords[hi]);
            assert forall|i: int| 0 <= i < res.len() implies exists|j: int|
                lo <= j <= hi && #[trigger] res[i] == coords[j] by {
                if i == 0 {
                    assert(res[i] == coords[lo]);
                } else {
                    assert(res[i] == coords[hi]);
                }
            }
        }
    }
}

/// Exec recursive simplification of the stretch `lo ..= hi`.
fn dp_exec(coords: &Vec<Coord>, lo: usize, hi: usize, eps2x: u64) -> (r: Vec<Coord>)
    requires
        lo < hi < coords@.len(),
        eps2x <= 1_000_000,
        forall|i: int| 0 <= i < coords@.len() ==> (#[trigger] coords@[i]).wf(),
    ensures
        r@ == dp_spec(coords@, lo as int, hi as int, eps2x as int),
    decreases hi - lo,
{
    let clen = coords.len();
    if hi - lo + 1 <= 2 {
        let mut out: Vec<Coord> = Vec::new();
        out.push(coords[lo]);
        out.push(coords[hi]);
        proof {
            assert(out@ =~= coords@.subrange(lo as int, hi + 1));
        }
        return out;
    }
    let a = coords[lo];
    let b = coords[hi];
    let mut best_idx: usize = 0;
    let mut best_num: u128 = 0;
    let mut j: usize = lo + 1;
    while j < hi
        invariant
            lo < j <= hi < coords@.len(),
            eps2x <= 1_000_000,
            a == coords@[lo as int],
            b == coords@[hi as int],
            forall|i: int| 0 <= i < coords@.len() ==> (#[trigger] coords@[i]).wf(),
            (best_idx as int, best_num as int) == dp_best(coords@, lo as int, hi as int, j - 1),
            best_idx <= hi,
            best_num <= 0x1_0000_0000_0000_0000_0000_0000_0000_0000 - 1,
        decreases hi - j,
    {
        let parts = dist2_parts(&a, &b, &coords[j]);
        let num = parts.0;
        if num > best_num {
            best_idx = j;
            best_num = num;
        }
        j = j + 1;
    }
    let parts0 = dist2_parts(&a, &b, &a);
    let den = parts0.1;
    proof {
        lemma_dp_best_props(coords@, lo as int, hi as int, hi - 1);
    }
    proof {
        assert((eps2x as int) * (den as int) <= 1_000_000int * 0x1_0000_0000_0000_0000) by (
        nonlinear_arith)
            requires
                0 <= eps2x as int <= 1_000_000 && 0 <= den as int <= 0x1_0000_0000_0000_0000,
        ;
    }
    let k: u128 = (eps2x as u128) * den;
    let keeps = best_num >= k / 2 + k % 2;
    proof {
        assert(keeps == dp_keeps(best_num as int, den as int, eps2x as int)) by {
            assert(k == 2 * (k / 2) + k % 2 && (k % 2 == 0 || k % 2 == 1));
        }
    }
    if keeps && lo < best_idx && best_idx < hi {
        let left = dp_exec(coords, lo, best_idx, eps2x);
        let right = dp_exec(coords, best_idx, hi, eps2x);
        let mut out = left;
        out.pop();
        let mut i: usize = 0;
        let n = right.len();
        proof {
            lemma_dp_spec_props(coords@, lo as int, best_idx as int, eps2x as int);
            assert(out@ =~= dp_spec(coords@, lo as int, best_idx as int, eps2x as int).drop_last());
        }
        while i < n
            invariant
                i <= n,
                n == right@.len(),
                out@ == dp_spec(coords@, lo as int, best_idx as int, eps2x as int).drop_last()
                    + right@.subrange(0, i as int),
            decreases n - i,
        {
            out.push(right[i]);
            proof {
                assert(out@ =~= dp_spec(coords@, lo as int, best_idx as int, eps2x as int).drop_last()
                    + right@.subrange(0, i + 1));
            }
            i = i + 1;
        }
        proof {
            assert(right@.subrange(0, n as int) =~= right@);
        }
        out
    } else {
        let mut out: Vec<Coord> = Vec::new();
        out.push(a);
        out.push(b);
        proof {
            assert(out@ =~= seq![coords@[lo as int], coords@[hi as int]]);
        }
        out
    }
}

/// Twice the squared default tolerance (0.2 m) in squared grid units: the
/// tolerance is 17.986 grid units, its square 323.5.
pub const SIMPLIFY_EPS2_X2: u64 = 647;

/// The simplification of a whole coordinate sequence: geometries of at
/// most two points are kept as they are.
pub open spec fn simplify_spec(coords: Seq<Coord>, eps2x: int) -> Seq<Coord> {
    if coords.len() <= 2 {
        coords
    } else {
        dp_spec(coords, 0, coords.len() - 1, eps2x)
    }
}

/// Douglas-Peucker simplification of a polyline with the tolerance given
/// as twice its square in grid units; endpoints are never removed.
pub fn simplify_polygon(coords: &Vec<Coord>, eps2x: u64) -> (r: Vec<Coord>)
    requires
        eps2x <= 1_000_000,
        forall|i: int| 0 <= i < coords@.len() ==> (#[trigger] coords@[i]).wf(),
    ensures
        r@ == simplify_spec(coords@, eps2x as int),
{
    let n = coords.len();
    if n <= 2 {
        let mut out: Vec<Coord> = Vec::new();
        let mut i: usize = 0;
        while i < n
            invariant
                i <= n,
                n == coords@.len(),
                out@ =~= coords@.subrange(0, i as int),
            decreases n - i,
        {
            out.push(coords[i]);
            proof {
                assert(out@ =~= coords@.subrange(0, i + 1));
            }
            i = i + 1;
        }
        proof {
            assert(coords@.subrange(0, n as int) =~= coords@);
        }
        return out;
    }
    dp_exec(coords, 0, n - 1, eps2x)
}

/// The magnitude of a value.
pub open spec fn abs1(x: int) -> int {
    if x < 0 {
        -x
    } else {
        x
    }
}

/// A direction vector shrunk until both components fit 31 bits; the
/// direction is essentially preserved.
pub open spec fn shrink_vec(x: int, y: int) -> (int, int)
    decreases abs1(x) + abs1(y),
{
    if -0x4000_0000 <= x <= 0x4000_0000 && -0x4000_0000 <= y <= 0x4000_0000 {
        (x, y)
    } else {
        shrink_vec(half_trunc(x), half_trunc(y))
    }
}

/// The turn between direction `u` and direction `v` is strictly within 45
/// degrees: the dot product is positive and twice its square exceeds the
/// product of the squared norms (cosine squared above one half).
pub open spec fn turn_ok(ux: int, uy: int, vx: int, vy: int) -> bool {
    let u = shrink_vec(ux, uy);
    let v = shrink_vec(vx, vy);
    let dot = u.0 * v.0 + u.1 * v.1;
    dot > 0 && 2 * dot * dot > (u.0 * u.0 + u.1 * u.1) * (v.0 * v.0 + v.1 * v.1)
}

/// Truncating halving on machine integers.
fn half_exec(x: i64) -> (r: i64)
    ensures
        r as int == half_trunc(x as int),
        abs1(r as int) <= abs1(x as int),
        abs1(x as int) >= 1 ==> abs1(r as int) < abs1(x as int),
{
    if x >= 0 {
        x / 2
    } else if x == i64::MIN {
        -4_611_686_018_427_387_904i64
    } else {
        -((-x) / 2)
    }
}

/// Executable turn test.
pub fn turn_ok_exec(ux: i64, uy: i64, vx: i64, vy: i64) -> (r: bool)
    ensures
        r == turn_ok(ux as int, uy as int, vx as int, vy as int),
{
    let mut x = ux;
    let mut y = uy;
    while x < -0x4000_0000 || x > 0x4000_0000 || y < -0x4000_0000 || y > 0x4000_0000
        invariant
            shrink_vec(x as int, y as int) == shrink_vec(ux as int, uy as int),
        decreases abs1(x as int) + abs1(y as int),
    {
        x = half_exec(x);
        y = half_exec(y);
    }
    let mut zx = vx;
    let mut zy = vy;
    while zx < -0x4000_0000 || zx > 0x4000_0000 || zy < -0x4000_0000 || zy > 0x4000_0000
        invariant
            shrink_vec(zx as int, zy as int) == shrink_vec(vx as int, vy as int),
        decreases abs1(zx as int) + abs1(zy as int),
    {
        zx = half_exec(zx);
        zy = half_exec(zy);
    }
    proof {
        assert(shrink_vec(x as int, y as int) == (x as int, y as int));
        assert(shrink_vec(zx as int, zy as int) == (zx as int, zy as int));
    }
    proof {
        lemma_small_products(x as int, y as int, zx as int, zy as int);
    }
    let dot: i128 = (x as i128) * (zx as i128) + (y as i128) * (zy as i128);
    let nu: i128 = (x as i128) * (x as i128) + (y as i128) * (y as i128);
    let nv: i128 = (zx as i128) * (zx as i128) + (zy as i128) * (zy as i128);
    proof {
        assert(0 <= (dot as int) * (dot as int) <= 0x2000000000000000int * 0x2000000000000000) by (
        nonlinear_arith)
            requires
                -0x2000000000000000 <= dot as int <= 0x2000000000000000,
        ;
        assert(0 <= (nu as int) * (nv as int) <= 0x2000000000000000int * 0x2000000000000000) by (
        nonlinear_arith)
            requires
                0 <= nu as int <= 0x2000000000000000 && 0 <= nv as int <= 0x2000000000000000,
        ;
        assert(2 * ((dot as int) * (dot as int)) == (2 * (dot as int)) * (dot as int)) by (
        nonlinear_arith);
    }
    let dsq: i128 = dot * dot;
    let prod: i128 = nu * nv;
    dot > 0 && 2 * dsq > prod
}

/// Products of 31-bit quantities stay far within 128 bits.
proof fn lemma_small_products(x: int, y: int, zx: int, zy: int)
    requires
        -0x4000_0000 <= x <= 0x4000_0000,
        -0x4000_0000 <= y <= 0x4000_0000,
        -0x4000_0000 <= zx <= 0x4000_0000,
        -0x4000_0000 <= zy <= 0x4000_0000,
    ensures
        -0x1000000000000000 <= x * zx <= 0x1000000000000000,
        -0x1000000000000000 <= y * zy <= 0x1000000000000000,
        0 <= x * x <= 0x1000000000000000,
        0 <= y * y <= 0x1000000000000000,
        0 <= zx * zx <= 0x1000000000000000,
        0 <= zy * zy <= 0x1000000000000000,
        -0x2000000000000000 <= x * zx + y * zy <= 0x2000000000000000,
        0 <= x * x + y * y <= 0x2000000000000000,
        0 <= zx * zx + zy * zy <= 0x2000000000000000,
        (x * zx + y * zy) * (x * zx + y * zy) <= 0x4000000000000000000000000000000,
        (x * x + y * y) * (zx * zx + zy * zy) <= 0x4000000000000000000000000000000,
{
    assert(-0x4000_0000int * 0x4000_0000 <= x * zx <= 0x4000_0000int * 0x4000_0000) by (
    nonlinear_arith)
        requires
            -0x4000_0000 <= x <= 0x4000_0000 && -0x4000_0000 <= zx <= 0x4000_0000,
    ;
    assert(-0x4000_0000int * 0x4000_0000 <= y * zy <= 0x4000_0000int * 0x4000_0000) by (
    nonlinear_arith)
        requires
            -0x4000_0000 <= y <= 0x4000_0000 && -0x4000_0000 <= zy <= 0x4000_0000,
    ;
    assert(0 <= x * x <= 0x4000_0000int * 0x4000_0000) by (nonlinear_arith)
        requires
            -0x4000_0000 <= x <= 0x4000_0000,
    ;
    assert(0 <= y * y <= 0x4000_0000int * 0x4000_0000) by (nonlinear_arith)
        requires
            -0x4000_0000 <= y <= 0x4000_0000,
    ;
    assert(0 <= zx * zx <= 0x4000_0000int * 0x4000_0000) by (nonlinear_arith)
        requires
            -0x4000_0000 <= zx <= 0x4000_0000,
    ;
    assert(0 <= zy * zy <= 0x4000_0000int * 0x4000_0000) by (nonlinear_arith)
        requires
            -0x4000_0000 <= zy <= 0x4000_0000,
    ;
    let d = x * zx + y * zy;
    assert(d * d <= 0x2000000000000000int * 0x2000000000000000) by (nonlinear_arith)
        requires
            -0x2000000000000000 <= d <= 0x2000000000000000,
    ;
    let nu = x * x + y * y;
    let nv = zx * zx + zy * zy;
    assert(nu * nv <= 0x2000000000000000int * 0x2000000000000000) by (nonlinear_arith)
        requires
            0 <= nu <= 0x2000000000000000 && 0 <= nv <= 0x2000000000000000,
    ;
}

/// The simplification of a stretch never holds more points than the
/// stretch itself.
pub proof fn lemma_dp_spec_len(coords: Seq<Coord>, lo: int, hi: int, eps2x: int)
    requires
        0 <= lo <= hi < coords.len(),
    ensures
        dp_spec(coords, lo, hi, eps2x).len() <= hi - lo + 1,
    decreases hi - lo,
{
    if hi - lo + 1 <= 2 {
    } else {
        let best = dp_best(coords, lo, hi, hi - 1);
        let den = dist2_den(coords[lo], coords[hi]);
        if dp_keeps(best.1, den, eps2x) && lo < best.0 < hi {
            lemma_dp_spec_len(coords, lo, best.0, eps2x);
            lemma_dp_spec_len(coords, best.0, hi, eps2x);
            lemma_dp_spec_props(coords, lo, best.0, eps2x);
            lemma_dp_spec_props(coords, best.0, hi, eps2x);
        }
    }
}

/// Simplification never adds points.
pub proof fn lemma_simplify_spec_len(coords: Seq<Coord>, eps2x: int)
    ensures
        simplify_spec(coords, eps2x).len() <= coords.len(),
{
    if coords.len() > 2 {
        lemma_dp_spec_len(coords, 0, coords.len() - 1, eps2x);
    }
}

} // verus!
