//! The 32-bit floats of a model and the 64-bit floats that store them. A
//! value is held as its IEEE 754 bits: the file stores a 64-bit float, which
//! is read as the nearest 32-bit float and written back by widening, which
//! is exact.

use vstd::prelude::*;
use vstd::arithmetic::power2::{
    pow2, lemma_pow2_adds, lemma_pow2_pos, lemma_pow2_strictly_increases, lemma_pow2_unfold,
    lemma2_to64,
};
use vstd::arithmetic::div_mod::{
    lemma_basic_div, lemma_small_mod, lemma_div_multiples_vanish, lemma_mod_multiples_basic,
};
use vstd::bits::{lemma_u64_shl_is_mul, lemma_u64_pow2_no_overflow};
use vstd::bytes::spec_u64_to_le_bytes;
use crate::le::{Cursor, read_as, take_u64, write_u64, lemma_take_u64};

verus! {

/// `n / 2^k` rounded to the nearest integer, a tie to the even one (for
/// `k >= 1`).
pub open spec fn round_shift(n: nat, k: nat) -> nat {
    let q = n / pow2(k);
    let r = n % pow2(k);
    let h = pow2((k - 1) as nat);
    if r > h || (r == h && q % 2 == 1) {
        q + 1
    } else {
        q
    }
}

/// The 23-bit payload `t` of a NaN with its quiet bit set.
pub open spec fn quiet(t: nat) -> nat {
    if t >= 0x40_0000 {
        t
    } else {
        t + 0x40_0000
    }
}

/// The bits of the 32-bit float that the 64-bit float with bits `w` converts
/// to, rounding to nearest with ties to even: the sign is kept; a value too
/// large for 32 bits becomes an infinity and one too small a zero; values
/// below the smallest normal become subnormal; a NaN stays a NaN, quiet,
/// with the top 23 bits of its payload.
pub open spec fn f32_of_f64_bits(w: u64) -> u32 {
    let sign: nat = if w >= 0x8000_0000_0000_0000 {
        0x8000_0000
    } else {
        0
    };
    let e = ((w / 0x10_0000_0000_0000) % 0x800) as nat;
    let m = (w % 0x10_0000_0000_0000) as nat;
    let mag: nat = if e == 0x7ff {
        if m == 0 {
            0x7f80_0000
        } else {
            0x7f80_0000 + quiet(m / 0x2000_0000)
        }
    } else if e == 0 {
        0
    } else {
        let sig: nat = 0x10_0000_0000_0000 + m;
        let b: nat = if e >= 897 {
            (e - 897) as nat * 0x80_0000 + round_shift(sig, 29)
        } else {
            round_shift(sig, (926 - e) as nat)
        };
        if b >= 0x7f80_0000 {
            0x7f80_0000
        } else {
            b
        }
    };
    (sign + mag) as u32
}

/// The position of the highest set bit of `m` (for `m >= 1`).
pub open spec fn top_bit(m: nat) -> nat
    decreases m,
{
    if m < 2 {
        0
    } else {
        1 + top_bit(m / 2)
    }
}

/// The bits of the 64-bit float of the same value as the 32-bit float with
/// bits `x`: the sign is kept, a subnormal becomes a normal 64-bit float,
/// and a NaN stays a NaN, quiet, with its payload in the top bits.
pub open spec fn f64_of_f32_bits(x: u32) -> u64 {
    let sign: nat = if x >= 0x8000_0000 {
        0x8000_0000_0000_0000
    } else {
        0
    };
    let e = ((x / 0x80_0000) % 0x100) as nat;
    let m = (x % 0x80_0000) as nat;
    let mag: nat = if e == 0xff {
        if m == 0 {
            0x7ff0_0000_0000_0000
        } else {
            0x7ff0_0000_0000_0000 + quiet(m) * 0x2000_0000
        }
    } else if e == 0 {
        if m == 0 {
            0
        } else {
            let p = top_bit(m);
            (p + 874) * 0x10_0000_0000_0000 + (m - pow2(p)) as nat * pow2((52 - p) as nat)
        }
    } else {
        (e + 896) * 0x10_0000_0000_0000 + m * 0x2000_0000
    };
    (sign + mag) as u64
}

/// Whether `x` holds the bits of a signalling NaN, which widening quietens.
pub open spec fn is_signaling(x: u32) -> bool {
    &&& (x / 0x80_0000) % 0x100 == 0xff
    &&& 0 < x % 0x80_0000 < 0x40_0000
}

/// The highest set bit of `m` is the one power of two that `m` lies between.
pub proof fn lemma_top_bit(m: nat)
    requires
        m >= 1,
    ensures
        pow2(top_bit(m)) <= m < pow2(top_bit(m) + 1),
    decreases m,
{
    if m < 2 {
        lemma2_to64();
    } else {
        lemma_top_bit(m / 2);
        lemma_pow2_unfold(top_bit(m));
        lemma_pow2_unfold(top_bit(m) + 1);
    }
}

/// Only one power of two bounds `m` so.
proof fn lemma_top_bit_unique(m: nat, p: nat)
    requires
        pow2(p) <= m < pow2(p + 1),
    ensures
        top_bit(m) == p,
{
    lemma_pow2_pos(p);
    lemma_top_bit(m);
    let t = top_bit(m);
    if t < p {
        if t + 1 < p {
            lemma_pow2_strictly_increases(t + 1, p);
        }
    } else if t > p {
        if p + 1 < t {
            lemma_pow2_strictly_increases(p + 1, t);
        }
    }
}

/// `2^k` in a `u64`.
fn pow2_u64(k: u64) -> (d: u64)
    requires
        k < 64,
    ensures
        d == pow2(k as nat),
{
    proof {
        lemma_u64_pow2_no_overflow(k as nat);
        lemma_u64_shl_is_mul(1, k);
    }
    1u64 << k
}

/// `n / 2^k` rounded to the nearest integer, a tie to the even one.
fn round_shift_u64(n: u64, k: u64) -> (r: u64)
    requires
        1 <= k < 64,
    ensures
        r == round_shift(n as nat, k as nat),
        r <= n as nat / pow2(k as nat) + 1,
{
    let d = pow2_u64(k);
    let h = pow2_u64(k - 1);
    proof {
        lemma_pow2_pos(k as nat);
        lemma_pow2_unfold(k as nat);
    }
    let q = n / d;
    let r = n % d;
    if r > h || (r == h && q % 2 == 1) {
        assert(q < u64::MAX) by (nonlinear_arith)
            requires
                q == n / d,
                d >= 2,
        ;
        q + 1
    } else {
        q
    }
}

/// A number below `2^53` rounds to zero when shifted by 55 bits or more.
proof fn lemma_round_shift_vanishes(n: nat, k: nat)
    requires
        n < 0x20_0000_0000_0000,
        k >= 55,
    ensures
        round_shift(n, k) == 0,
{
    lemma2_to64();
    lemma_pow2_adds(32, 21);
    lemma_pow2_strictly_increases(53, (k - 1) as nat);
    lemma_pow2_strictly_increases((k - 1) as nat, k);
    lemma_basic_div(n as int, pow2(k) as int);
    lemma_small_mod(n, pow2(k));
}

/// `round_shift(n, k)` is the integer nearest to `n / 2^k`: it is off by at
/// most half, and where `n / 2^k` lies halfway between two integers it is the
/// even one.
pub proof fn lemma_round_shift_nearest(n: nat, k: nat)
    requires
        k >= 1,
    ensures
        round_shift(n, k) * pow2(k) <= n + pow2((k - 1) as nat),
        n <= round_shift(n, k) * pow2(k) + pow2((k - 1) as nat),
        n + pow2((k - 1) as nat) == round_shift(n, k) * pow2(k) || n == round_shift(n, k) * pow2(k)
            + pow2((k - 1) as nat) ==> round_shift(n, k) % 2 == 0,
{
    let d = pow2(k);
    let h = pow2((k - 1) as nat);
    lemma_pow2_unfold(k);
    lemma_pow2_pos((k - 1) as nat);
    let q = n / d;
    let rem = n % d;
    assert(n == q * d + rem && 0 <= rem < d) by (nonlinear_arith)
        requires
            d > 0,
            q == n / d,
            rem == n % d,
    ;
    let r = round_shift(n, k);
    if rem > h || (rem == h && q % 2 == 1) {
        assert(r == q + 1);
        assert(r * d == q * d + d) by (nonlinear_arith)
            requires
                r == q + 1,
        ;
    } else {
        assert(r == q);
    }
}

/// The bits of the 32-bit float nearest to the 64-bit float with bits `w`,
/// as `f32_of_f64_bits` states it.
pub fn narrow_f64_bits(w: u64) -> (x: u32)
    ensures
        x == f32_of_f64_bits(w),
{
    let sign: u32 = if w >= 0x8000_0000_0000_0000 {
        0x8000_0000
    } else {
        0
    };
    let e: u64 = (w / 0x10_0000_0000_0000) % 0x800;
    let m: u64 = w % 0x10_0000_0000_0000;
    let mag: u32 = if e == 0x7ff {
        if m == 0 {
            0x7f80_0000
        } else {
            let t: u64 = m / 0x2000_0000;
            let q: u64 = if t >= 0x40_0000 {
                t
            } else {
                t + 0x40_0000
            };
            (0x7f80_0000 + q) as u32
        }
    } else if e == 0 {
        0
    } else {
        let sig: u64 = 0x10_0000_0000_0000 + m;
        let b: u64 = if e >= 897 {
            proof {
                lemma2_to64();
            }
            (e - 897) * 0x80_0000 + round_shift_u64(sig, 29)
        } else if e >= 872 {
            round_shift_u64(sig, 926 - e)
        } else {
            proof {
                lemma_round_shift_vanishes(sig as nat, (926 - e) as nat);
            }
            0
        };
        if b >= 0x7f80_0000 {
            0x7f80_0000
        } else {
            b as u32
        }
    };
    sign + mag
}

/// The bits of the 64-bit float of the same value as the 32-bit float with
/// bits `x`, as `f64_of_f32_bits` states it.
pub fn widen_f32_bits(x: u32) -> (w: u64)
    ensures
        w == f64_of_f32_bits(x),
{
    let sign: u64 = if x >= 0x8000_0000 {
        0x8000_0000_0000_0000
    } else {
        0
    };
    let e: u64 = ((x / 0x80_0000) % 0x100) as u64;
    let m: u64 = (x % 0x80_0000) as u64;
    let mag: u64 = if e == 0xff {
        if m == 0 {
            0x7ff0_0000_0000_0000
        } else {
            let q: u64 = if m >= 0x40_0000 {
                m
            } else {
                m + 0x40_0000
            };
            0x7ff0_0000_0000_0000 + q * 0x2000_0000
        }
    } else if e == 0 {
        if m == 0 {
            0
        } else {
            let mut sig: u64 = m;
            let mut p: u64 = 23;
            proof {
                lemma2_to64();
                assert(m * pow2(0) == m);
            }
            while sig < 0x80_0000
                invariant
                    1 <= m < 0x80_0000,
                    p <= 23,
                    sig == m * pow2((23 - p) as nat),
                    pow2((23 - p) as nat) <= sig < 0x100_0000,
                    pow2(23) == 0x80_0000,
                decreases p,
            {
                assert(p > 0);
                proof {
                    lemma_pow2_unfold((24 - p) as nat);
                    let d = pow2((23 - p) as nat);
                    assert(m * pow2((24 - p) as nat) == 2 * (m * d)) by (nonlinear_arith)
                        requires
                            pow2((24 - p) as nat) == 2 * d,
                    ;
                }
                sig = sig * 2;
                p = p - 1;
            }
            proof {
                let d = pow2((23 - p) as nat);
                lemma_pow2_pos((23 - p) as nat);
                lemma_pow2_adds(p as nat, (23 - p) as nat);
                lemma_pow2_adds((p + 1) as nat, (23 - p) as nat);
                lemma_pow2_unfold(24);
                lemma_pow2_adds((23 - p) as nat, 29);
                let lo = pow2(p as nat);
                let hi = pow2((p + 1) as nat);
                assert(lo <= m < hi) by (nonlinear_arith)
                    requires
                        sig == m * d,
                        0x80_0000 <= sig < 0x100_0000,
                        lo * d == 0x80_0000,
                        hi * d == 0x100_0000,
                        d > 0,
                ;
                lemma_top_bit_unique(m as nat, p as nat);
                assert((sig - 0x80_0000) * 0x2000_0000 == (m - lo) * pow2((52 - p) as nat))
                    by (nonlinear_arith)
                    requires
                        sig == m * d,
                        lo * d == 0x80_0000,
                        pow2((52 - p) as nat) == d * 0x2000_0000,
                ;
            }
            (p + 874) * 0x10_0000_0000_0000 + (sig - 0x80_0000) * 0x2000_0000
        }
    } else {
        (e + 896) * 0x10_0000_0000_0000 + m * 0x2000_0000
    };
    sign + mag
}

/// The fields of 64-bit float bits put together from a sign `s`, a biased
/// exponent `e` and a fraction `m` read back as those fields.
proof fn lemma_f64_fields(s: nat, e: nat, m: nat)
    requires
        s <= 1,
        e < 0x800,
        m < 0x10_0000_0000_0000,
    ensures
        ({
            let w = s * 0x8000_0000_0000_0000 + e * 0x10_0000_0000_0000 + m;
            &&& w < 0x1_0000_0000_0000_0000
            &&& (w / 0x10_0000_0000_0000) % 0x800 == e
            &&& w % 0x10_0000_0000_0000 == m
            &&& (w >= 0x8000_0000_0000_0000) == (s == 1)
        }),
{
    let w = s * 0x8000_0000_0000_0000 + e * 0x10_0000_0000_0000 + m;
    assert(w / 0x10_0000_0000_0000 == s * 0x800 + e) by (nonlinear_arith)
        requires
            w == s * 0x8000_0000_0000_0000 + e * 0x10_0000_0000_0000 + m,
            m < 0x10_0000_0000_0000,
    ;
    assert(w % 0x10_0000_0000_0000 == m) by (nonlinear_arith)
        requires
            w == s * 0x8000_0000_0000_0000 + e * 0x10_0000_0000_0000 + m,
            m < 0x10_0000_0000_0000,
    ;
    assert((s * 0x800 + e) % 0x800 == e) by (nonlinear_arith)
        requires
            e < 0x800,
    ;
}

/// The bits of a 32-bit float are its sign, biased exponent and fraction put
/// together.
proof fn lemma_f32_fields(x: u32)
    ensures
        x == (x / 0x8000_0000) * 0x8000_0000 + ((x / 0x80_0000) % 0x100) * 0x80_0000 + x
            % 0x80_0000,
        x / 0x8000_0000 <= 1,
        (x >= 0x8000_0000) == (x / 0x8000_0000 == 1),
{
    assert(x == (x / 0x8000_0000) * 0x8000_0000 + ((x / 0x80_0000) % 0x100) * 0x80_0000 + x
        % 0x80_0000) by (nonlinear_arith);
}

/// A 32-bit float that is no signalling NaN reads back as itself from the
/// 64-bit float that it is written as.
pub proof fn lemma_f32_round_trip(x: u32)
    requires
        !is_signaling(x),
    ensures
        f32_of_f64_bits(f64_of_f32_bits(x)) == x,
{
    lemma_f32_fields(x);
    lemma2_to64();
    let s = (x / 0x8000_0000) as nat;
    let e = ((x / 0x80_0000) % 0x100) as nat;
    let m = (x % 0x80_0000) as nat;
    if e == 0xff {
        let mm: nat = if m == 0 {
            0
        } else {
            quiet(m) * 0x2000_0000
        };
        lemma_f64_fields(s, 0x7ff, mm);
        if m != 0 {
            assert(mm / 0x2000_0000 == m);
        }
    } else if e == 0 {
        if m == 0 {
            lemma_f64_fields(s, 0, 0);
        } else {
            let p = top_bit(m);
            lemma_top_bit(m);
            if p >= 23 {
                if p > 23 {
                    lemma_pow2_strictly_increases(23, p);
                }
            }
            let d = pow2((52 - p) as nat);
            let lo = pow2(p);
            lemma_pow2_pos((52 - p) as nat);
            lemma_pow2_adds(p, (52 - p) as nat);
            lemma_pow2_adds(32, 20);
            lemma_pow2_unfold(p + 1);
            let mm: nat = (m - lo) as nat * d;
            assert(mm < 0x10_0000_0000_0000 && 0x10_0000_0000_0000 + mm == m * d)
                by (nonlinear_arith)
                requires
                    mm == (m - lo) * d,
                    lo <= m < 2 * lo,
                    lo * d == 0x10_0000_0000_0000,
                    d > 0,
            ;
            lemma_f64_fields(s, p + 874, mm);
            lemma_div_multiples_vanish(m as int, d as int);
            lemma_mod_multiples_basic(m as int, d as int);
            assert(m * d == d * m) by (nonlinear_arith);
            lemma_pow2_pos((51 - p) as nat);
        }
    } else {
        let mm: nat = m * 0x2000_0000;
        lemma_f64_fields(s, e + 896, mm);
        let sig: nat = 0x10_0000_0000_0000 + mm;
        assert(sig == 0x2000_0000 * (0x80_0000 + m));
        lemma_div_multiples_vanish((0x80_0000 + m) as int, 0x2000_0000);
        lemma_mod_multiples_basic((0x80_0000 + m) as int, 0x2000_0000);
    }
}

/// Rounding never gives a signalling NaN.
pub proof fn lemma_narrow_not_signaling(w: u64)
    ensures
        !is_signaling(f32_of_f64_bits(w)),
{
    let x = f32_of_f64_bits(w);
    let sign: nat = if w >= 0x8000_0000_0000_0000 {
        0x8000_0000
    } else {
        0
    };
    let e = ((w / 0x10_0000_0000_0000) % 0x800) as nat;
    let m = (w % 0x10_0000_0000_0000) as nat;
    if e == 0x7ff && m != 0 {
        let q = quiet(m / 0x2000_0000);
        assert(0x40_0000 <= q < 0x80_0000);
        let mag: nat = 0x7f80_0000 + q;
        assert(x == sign + mag);
        assert((x / 0x80_0000) % 0x100 == 0xff && x % 0x80_0000 == q) by (nonlinear_arith)
            requires
                x == sign + 0x7f80_0000 + q,
                sign == 0 || sign == 0x8000_0000,
                q < 0x80_0000,
        ;
    } else {
        let mag = (x - sign) as nat;
        assert(mag <= 0x7f80_0000);
        assert(!((x / 0x80_0000) % 0x100 == 0xff && x % 0x80_0000 != 0)) by (nonlinear_arith)
            requires
                x == sign + mag,
                sign == 0 || sign == 0x8000_0000,
                mag <= 0x7f80_0000,
        ;
    }
}

// ----------------------------------------------------------------------------
// Fields

/// A 32-bit float stored as a little-endian 64-bit float at the front of
/// `s`, and what follows it.
pub open spec fn take_f32(s: Seq<u8>) -> Option<(u32, Seq<u8>)> {
    match take_u64(s) {
        None => None,
        Some((w, s)) => Some((f32_of_f64_bits(w), s)),
    }
}

/// The bytes that store a 32-bit float: its 64-bit float, little-endian.
pub open spec fn f32_bytes(x: u32) -> Seq<u8> {
    spec_u64_to_le_bytes(f64_of_f32_bits(x))
}

/// Reads a 64-bit float field as the nearest 32-bit float.
pub fn read_f32(source: &mut Cursor) -> (r: Option<u32>)
    ensures
        read_as(r, final(source).rest(), take_f32(old(source).rest())),
{
    let w = source.read_u64()?;
    Some(narrow_f64_bits(w))
}

/// Appends a 32-bit float as a 64-bit float field.
pub fn write_f32(dest: &mut Vec<u8>, x: u32)
    ensures
        final(dest)@ == old(dest)@ + f32_bytes(x),
{
    write_u64(dest, widen_f32_bits(x));
}

/// A 32-bit float that is no signalling NaN reads back from its field as
/// itself.
pub proof fn lemma_take_f32(x: u32, rest: Seq<u8>)
    requires
        !is_signaling(x),
    ensures
        take_f32(f32_bytes(x) + rest) == Some((x, rest)),
{
    lemma_take_u64(f64_of_f32_bits(x), rest);
    lemma_f32_round_trip(x);
}

} // verus!
