//! Exact canonicalization of IEEE-754 double coordinates.
//!
//! A coordinate arrives as the 8-byte bit pattern of a double. Canonicalizing
//! it means computing `x * 1e7` the way double arithmetic does (round the
//! exact product to 53 significant bits, ties to even) and then rounding that
//! product to the nearest integer, ties to even. Both steps are carried out
//! here in exact integer arithmetic on the bit pattern, so the whole story is
//! provable: no floating point is involved.

use vstd::arithmetic::power2::{
    lemma2_to64, lemma2_to64_rest, lemma_pow2_adds, lemma_pow2_pos, lemma_pow2_strictly_increases,
    pow2,
};
use vstd::prelude::*;

verus! {

/// Round `n / d` to the nearest integer, ties to even.
/// Integer division on `int` rounds toward negative infinity, so this
/// definition covers negative numerators as well.
pub open spec fn rhe(n: int, d: int) -> int {
    let q = n / d;
    let r = n % d;
    if 2 * r < d {
        q
    } else if 2 * r > d {
        q + 1
    } else if q % 2 == 0 {
        q
    } else {
        q + 1
    }
}

/// Rounding an exact multiple changes nothing.
pub proof fn lemma_rhe_exact(i: int, d: int)
    requires
        d > 0,
    ensures
        rhe(i * d, d) == i,
{
    vstd::arithmetic::div_mod::lemma_fundamental_div_mod_converse(i * d, d, i, 0);
}

/// Round-to-nearest-even is a retraction: applying it to a value that is
/// already an exact multiple of the grid (the result of a previous rounding,
/// scaled back up) reproduces that result. This is the exact-arithmetic core
/// of the canonicalization round trip.
pub proof fn lemma_rhe_idempotent(n: int, d: int)
    requires
        d > 0,
    ensures
        rhe(rhe(n, d) * d, d) == rhe(n, d),
{
    lemma_rhe_exact(rhe(n, d), d);
}

/// Number of binary digits of `n`.
pub open spec fn bitlen(n: nat) -> nat
    decreases n,
{
    if n == 0 {
        0
    } else {
        1 + bitlen(n / 2)
    }
}

/// The fraction field of a double bit pattern.
pub open spec fn f64_frac(bits: u64) -> u64 {
    bits & 0xF_FFFF_FFFF_FFFF
}

/// The biased exponent field of a double bit pattern.
pub open spec fn f64_biased_exp(bits: u64) -> u64 {
    (bits >> 52) & 0x7FF
}

/// The sign bit of a double bit pattern.
pub open spec fn f64_is_neg(bits: u64) -> bool {
    (bits >> 63) == 1
}

/// True when the bit pattern encodes a finite number.
pub open spec fn f64_is_finite(bits: u64) -> bool {
    f64_biased_exp(bits) != 0x7FF
}

/// The integral significand of a finite double: the fraction with the hidden
/// bit added for normal numbers. The encoded magnitude is
/// `f64_mantissa(bits) * 2^(f64_biased_exp - 1075)` (with biased exponent 1
/// in place of 0 for subnormals).
pub open spec fn f64_mantissa(bits: u64) -> nat {
    if f64_biased_exp(bits) == 0 {
        f64_frac(bits) as nat
    } else {
        f64_frac(bits) as nat + 0x10_0000_0000_0000
    }
}

/// The exponent of two the significand is scaled by, as `p - 1075` where
/// `p` is the effective biased exponent.
pub open spec fn f64_pow_exp(bits: u64) -> int {
    if f64_biased_exp(bits) == 0 {
        -1074
    } else {
        f64_biased_exp(bits) - 1075
    }
}

/// Round a positive integer to at most 53 significant bits, ties to even:
/// exactly the rounding a double multiplication applies to an exact product.
/// The result is the pair (significand, shift): the rounded value is
/// `significand * 2^shift`.
pub open spec fn round_sig53(n: nat) -> (nat, nat) {
    if bitlen(n) <= 53 {
        (n, 0)
    } else {
        let s = (bitlen(n) - 53) as nat;
        (rhe(n as int, pow2(s) as int) as nat, s)
    }
}

/// The magnitude of the canonical value of a finite double `x`: the product
/// `|x| * 1e7` rounded to a double (53 significant bits, ties to even), then
/// rounded to the nearest integer, ties to even.
pub open spec fn canon_mag(bits: u64) -> int {
    let n = f64_mantissa(bits) * 10_000_000;
    let (m2, s) = round_sig53(n);
    let e2 = f64_pow_exp(bits) + s;
    if e2 >= 0 {
        m2 * pow2(e2 as nat) as int
    } else {
        rhe(m2 as int, pow2((-e2) as nat) as int)
    }
}

/// The canonical 1e-7 degree grid value of a double coordinate, when it is
/// finite and its rounding lies within the coordinate range; `None` for
/// NaN, infinities and out-of-range magnitudes.
pub open spec fn canon_spec(bits: u64) -> Option<i64> {
    if !f64_is_finite(bits) {
        Option::None
    } else {
        let mag = canon_mag(bits);
        if mag > 1_800_000_000 {
            Option::None
        } else if f64_is_neg(bits) {
            Option::Some((-mag) as i64)
        } else {
            Option::Some(mag as i64)
        }
    }
}

/// Round-to-nearest-even on machine integers.
fn rhe_u128(n: u128, d: u128) -> (r: u128)
    requires
        d >= 1,
        d < 0x1_0000_0000_0000_0000,  // 2^64
        n < 0x1_0000_0000_0000_0000_0000_0000_0000,  // 2^112
    ensures
        r as int == rhe(n as int, d as int),
{
    let q = n / d;
    let rem = n % d;
    if 2 * rem < d {
        q
    } else if 2 * rem > d {
        q + 1
    } else if q % 2 == 0 {
        q
    } else {
        q + 1
    }
}

/// 2 to the power `k`, as a machine integer.
fn pow2_u128(k: usize) -> (r: u128)
    requires
        k <= 120,
    ensures
        r as nat == pow2(k as nat),
{
    let mut r: u128 = 1;
    let mut i: usize = 0;
    proof {
        lemma2_to64();
    }
    while i < k
        invariant
            i <= k <= 120,
            r as nat == pow2(i as nat),
        decreases k - i,
    {
        proof {
            lemma_pow2_adds(i as nat, 1);
            lemma2_to64();
            lemma_pow2_strictly_increases(i as nat + 1, 128);
            lemma_pow2_adds(64, 64);
            assert(pow2(128) == 0x10000000000000000 * 0x10000000000000000);
        }
        r = r * 2;
        i = i + 1;
    }
    r
}

/// Number of binary digits of a machine integer.
fn bitlen_u128(n: u128) -> (r: usize)
    ensures
        r as nat == bitlen(n as nat),
        r <= 128,
{
    let mut t: u128 = n;
    let mut b: usize = 0;
    proof {
        lemma_bitlen_le_128(n as nat);
    }
    while t > 0
        invariant
            bitlen(t as nat) + b == bitlen(n as nat),
            b <= 128,
            bitlen(n as nat) <= 128,
        decreases t,
    {
        t = t / 2;
        b = b + 1;
    }
    b
}

/// `bitlen` of anything below 2^128 is at most 128.
proof fn lemma_bitlen_le_128(n: nat)
    requires
        n < 0x1_0000_0000_0000_0000_0000_0000_0000_0000,
    ensures
        bitlen(n) <= 128,
{
    assert(pow2(128) == 0x1_0000_0000_0000_0000_0000_0000_0000_0000) by {
        lemma_pow2_adds(64, 64);
        lemma2_to64();
    }
    lemma_bitlen_bound(n, 128);
}

/// `n < 2^k` implies `bitlen(n) <= k`.
proof fn lemma_bitlen_bound(n: nat, k: nat)
    requires
        n < pow2(k),
    ensures
        bitlen(n) <= k,
    decreases n,
{
    if n > 0 {
        if k == 0 {
            assert(pow2(0) == 1) by {
                lemma2_to64();
            }
        } else {
            assert(pow2(k) == 2 * pow2((k - 1) as nat)) by {
                lemma_pow2_adds((k - 1) as nat, 1);
                lemma2_to64();
            }
            lemma_bitlen_bound(n / 2, (k - 1) as nat);
        }
    }
}

/// `n >= 2^k` implies `bitlen(n) > k`.
proof fn lemma_bitlen_lower(n: nat, k: nat)
    requires
        n >= pow2(k),
    ensures
        bitlen(n) > k,
    decreases k,
{
    lemma_pow2_pos(k);
    if k == 0 {
    } else {
        assert(pow2(k) == 2 * pow2((k - 1) as nat)) by {
            lemma_pow2_adds((k - 1) as nat, 1);
            lemma2_to64();
        }
        lemma_bitlen_lower(n / 2, (k - 1) as nat);
    }
}

/// Canonicalize the bit pattern of a double coordinate to the 1e-7 degree
/// grid: `None` for NaN, infinity, or a magnitude beyond 180 degrees.
pub fn canon7_from_bits(bits: u64) -> (r: Option<i64>)
    ensures
        r == canon_spec(bits),
{
    let frac: u64 = bits & 0xF_FFFF_FFFF_FFFF;
    let bexp: u64 = (bits >> 52) & 0x7FF;
    let neg: bool = (bits >> 63) == 1;
    assert(frac == f64_frac(bits) && bexp == f64_biased_exp(bits) && neg == f64_is_neg(bits));
    assert(bexp <= 0x7FF && frac < 0x10_0000_0000_0000) by (bit_vector)
        requires
            frac == bits & 0xF_FFFF_FFFF_FFFF && bexp == (bits >> 52) & 0x7FF,
    ;
    if bexp == 0x7FF {
        return Option::None;
    }
    let m: u64 = if bexp == 0 {
        frac
    } else {
        frac + 0x10_0000_0000_0000
    };
    let e_num: i64 = if bexp == 0 {
        -1074
    } else {
        (bexp as i64) - 1075
    };
    assert(m as nat == f64_mantissa(bits) && e_num as int == f64_pow_exp(bits));
    // n = m * 1e7 < 2^54 * 2^24 = 2^78
    let n: u128 = (m as u128) * 10_000_000;
    assert(n < 0x4000_0000_0000_0000_0000) by (nonlinear_arith)  // 2^78
        requires
            n == m as u128 * 10_000_000 && m < 0x40_0000_0000_0000,
    ;
    // Step 1: round the product to 53 significant bits, ties to even.
    let b = bitlen_u128(n);
    proof {
        assert(pow2(78) == 0x4000_0000_0000_0000_0000) by {
            lemma_pow2_adds(64, 14);
            lemma2_to64();
        }
        lemma_bitlen_bound(n as nat, 78);
    }
    let (m2, s): (u128, usize) = if b > 53 {
        let s = b - 53;
        let p = pow2_u128(s);
        proof {
            lemma_pow2_pos(s as nat);
            lemma_rhe_mag_nonneg(n as int, p as int);
            lemma_pow2_strictly_increases(s as nat, 64);
            lemma2_to64();
        }
        (rhe_u128(n, p), s)
    } else {
        (n, 0)
    };
    assert((m2 as nat, s as nat) == round_sig53(n as nat));
    // m2 <= 2^53 (carry can reach exactly 2^53); bound it for the arithmetic below.
    proof {
        lemma_round_sig53_bound(n as nat);
        assert(pow2(53) == 0x20_0000_0000_0000) by {
            lemma2_to64_rest();
        }
    }
    let e2: i64 = e_num + (s as i64);
    // Step 2: round significand * 2^e2 to an integer, ties to even.
    if e2 >= 0 {
        // The value is an integer already; it is out of range unless tiny.
        if m2 == 0 {
            proof {
                lemma_pow2_pos(e2 as nat);
            }
            return Option::Some(0i64);
        }
        if e2 > 31 {
            proof {
                lemma_pow2_strictly_increases(31, e2 as nat);
                assert(pow2(31) == 0x8000_0000) by {
                    lemma2_to64();
                }
                let p = pow2(e2 as nat) as int;
                assert((m2 as int) * p > 1_800_000_000) by (nonlinear_arith)
                    requires
                        m2 as int >= 1,
                        p > 0x8000_0000,
                ;
            }
            return Option::None;
        }
        let p2 = pow2_u128(e2 as usize);
        assert(p2 <= 0x8000_0000) by {
            if e2 < 31 {
                lemma_pow2_strictly_increases(e2 as nat, 31);
            }
            assert(pow2(31) == 0x8000_0000) by {
                lemma2_to64();
            }
        }
        proof {
            assert((m2 as int) * (p2 as int) <= 0x20_0000_0000_0000 * 0x8000_0000) by (
            nonlinear_arith)
                requires
                    m2 as int <= 0x20_0000_0000_0000,
                    p2 as int <= 0x8000_0000,
                    m2 as int >= 0,
                    p2 as int >= 0,
            ;
        }
        let mag: u128 = m2 * p2;
        if mag > 1_800_000_000 {
            Option::None
        } else if neg {
            Option::Some(-(mag as i64))
        } else {
            Option::Some(mag as i64)
        }
    } else {
        let k: i64 = -e2;
        if k >= 55 {
            // The magnitude is below one half: it rounds to zero.
            proof {
                lemma_canon_tiny(m2 as nat, k as nat);
            }
            return Option::Some(0i64);
        }
        let p = pow2_u128(k as usize);
        proof {
            lemma_pow2_pos(k as nat);
            lemma_pow2_strictly_increases(k as nat, 64);
            lemma2_to64();
        }
        let mag = rhe_u128(m2, p);
        proof {
            lemma_rhe_mag_nonneg(m2 as int, p as int);
        }
        if mag > 1_800_000_000 {
            Option::None
        } else if neg {
            Option::Some(-(mag as i64))
        } else {
            Option::Some(mag as i64)
        }
    }
}

/// The rounded 53-bit significand never exceeds 2^53.
proof fn lemma_round_sig53_bound(n: nat)
    requires
        n < pow2(78),
    ensures
        round_sig53(n).0 <= pow2(53),
        round_sig53(n).1 <= 25,
{
    lemma_pow2_pos(53);
    if bitlen(n) <= 53 {
        if n > pow2(53) {
            lemma_bitlen_lower(n, 53);
        }
    } else {
        let s = (bitlen(n) - 53) as nat;
        lemma_bitlen_bound(n, 78);
        lemma_pow2_pos(s);
        let d = pow2(s) as int;
        let q = n as int / d;
        vstd::arithmetic::div_mod::lemma_fundamental_div_mod(n as int, d);
        // n has bitlen s + 53 digits, so n < 2^s * 2^53 and the quotient is
        // below 2^53; rounding adds at most one.
        lemma_bitlen_pow_upper(n);
        assert(pow2(bitlen(n)) == pow2(s) * pow2(53)) by {
            lemma_pow2_adds(s, 53);
        }
        assert(q + 1 <= pow2(53) as int) by (nonlinear_arith)
            requires
                d * q + (n as int) % d == n as int,
                0 <= (n as int) % d,
                (n as int) < pow2(s) as int * pow2(53) as int,
                d == pow2(s) as int,
                d > 0,
        ;
        assert(rhe(n as int, d) <= q + 1);
        lemma_rhe_mag_nonneg(n as int, d);
    }
}

/// `n < 2^bitlen(n)`.
proof fn lemma_bitlen_pow_upper(n: nat)
    ensures
        (n as int) < pow2(bitlen(n)) as int,
    decreases n,
{
    if n == 0 {
        lemma_pow2_pos(0);
    } else {
        lemma_bitlen_pow_upper(n / 2);
        assert(pow2(bitlen(n)) == 2 * pow2(bitlen(n / 2))) by {
            lemma_pow2_adds(bitlen(n / 2), 1);
            lemma2_to64();
        }
    }
}

/// A significand of at most 2^53 scaled down by 2^55 or more rounds to zero.
proof fn lemma_canon_tiny(m2: nat, k: nat)
    requires
        m2 <= pow2(53),
        k >= 55,
    ensures
        rhe(m2 as int, pow2(k) as int) == 0,
{
    lemma_pow2_strictly_increases(54, k);
    assert(pow2(54) == 2 * pow2(53)) by {
        lemma_pow2_adds(53, 1);
        lemma2_to64();
    }
    lemma_pow2_pos(k);
    let d = pow2(k) as int;
    vstd::arithmetic::div_mod::lemma_basic_div(m2 as int, d);
    vstd::arithmetic::div_mod::lemma_small_mod(m2, pow2(k));
}

/// Rounding a nonnegative numerator yields a nonnegative result.
pub proof fn lemma_rhe_mag_nonneg(n: int, d: int)
    requires
        n >= 0,
        d > 0,
    ensures
        rhe(n, d) >= 0,
        rhe(n, d) <= n,
{
    vstd::arithmetic::div_mod::lemma_fundamental_div_mod(n, d);
    let q = n / d;
    assert(q >= 0) by (nonlinear_arith)
        requires
            d * q + n % d == n,
            0 <= n % d < d,
            n >= 0,
            d > 0,
    ;
    if q + 1 > n {
        assert(d * q + n % d == n);
        assert(q <= n) by (nonlinear_arith)
            requires
                d * q <= n,
                d > 0,
                q >= 0,
        ;
        if rhe(n, d) == q + 1 {
            // q + 1 > n >= q means n == q, so d == 1 or n < d
            assert(n == q);
            assert(d * n + n % d == n);
            if d >= 2 {
                assert(n == 0) by (nonlinear_arith)
                    requires
                        d * n <= n,
                        n >= 0,
                        d >= 2,
                ;
                vstd::arithmetic::div_mod::lemma_small_mod(0nat, d as nat);
                assert(2 * (n % d) < d);
            } else {
                vstd::arithmetic::div_mod::lemma_small_mod(0nat, 1nat);
            }
        }
    }
}

/// A canonical value is within the coordinate range.
pub proof fn lemma_canon_range(bits: u64)
    requires
        canon_spec(bits) is Some,
    ensures
        -1_800_000_000 <= canon_spec(bits)->0 <= 1_800_000_000,
        canon_mag(bits) >= 0,
{
    let n = f64_mantissa(bits) * 10_000_000;
    let (m2, s) = round_sig53(n);
    let e2 = f64_pow_exp(bits) + s;
    if e2 >= 0 {
        assert(m2 * pow2(e2 as nat) >= 0);
    } else {
        lemma_pow2_pos((-e2) as nat);
        lemma_rhe_mag_nonneg(m2 as int, pow2((-e2) as nat) as int);
    }
}

} // verus!
