//! Rounding of decoded values to integers: nearest integer, halves away from
//! zero, then saturated into a target range (NaN gives 0).
use crate::field::Scalar;
use vstd::arithmetic::div_mod::{
    lemma_basic_div, lemma_div_multiples_vanish_quotient, lemma_fundamental_div_mod, lemma_mod_pos_bound,
};
use vstd::arithmetic::power2::{lemma2_to64, lemma2_to64_rest, lemma_pow2_adds, lemma_pow2_pos, lemma_pow2_strictly_increases, pow2};
use vstd::bits::{lemma_u64_mul_pow2_le_max_iff_max_shr, lemma_u64_shl_is_mul, lemma_u64_shr_is_div};
use vstd::prelude::*;

verus! {

/// `v` brought into `[lo, hi]`.
pub open spec fn clamp(v: int, lo: int, hi: int) -> int {
    if v < lo {
        lo
    } else if v > hi {
        hi
    } else {
        v
    }
}

/// The integer nearest to `sig * 2^exp`, halves rounded up (away from zero,
/// as the number is not negative): `floor(sig * 2^exp + 1/2)`.
pub open spec fn round_magnitude(sig: nat, exp: int) -> nat {
    if exp >= 0 {
        sig * pow2(exp as nat)
    } else {
        (2 * sig + pow2((-exp) as nat)) / (2 * pow2((-exp) as nat))
    }
}

/// An IEEE-754 binary number with `mbits` fraction bits and `ebits` exponent
/// bits, given by its bit pattern, rounded to the nearest integer (halves
/// away from zero) and saturated into `[lo, hi]`; infinities saturate, NaN
/// gives 0.
pub open spec fn ieee_rounded(bits: nat, mbits: nat, ebits: nat, lo: int, hi: int) -> int {
    let frac = bits % pow2(mbits);
    let e = (bits / pow2(mbits)) % pow2(ebits);
    let neg = bits / pow2(mbits + ebits) == 1;
    let bias = pow2((ebits - 1) as nat) - 1;
    if e == pow2(ebits) - 1 {
        if frac != 0 {
            0
        } else if neg {
            lo
        } else {
            hi
        }
    } else {
        let sig: nat = if e == 0 {
            frac
        } else {
            frac + pow2(mbits)
        };
        let exp = if e == 0 {
            1 - bias - mbits
        } else {
            e - bias - mbits
        };
        let mag = round_magnitude(sig, exp);
        clamp(
            if neg {
                -mag
            } else {
                mag as int
            },
            lo,
            hi,
        )
    }
}

/// The value of `s` rounded to the nearest integer (halves away from zero)
/// and saturated into `[lo, hi]`.
pub open spec fn rounded_in(s: Scalar, lo: int, hi: int) -> int {
    match s {
        Scalar::Int(i) => clamp(i as int, lo, hi),
        Scalar::Float32(b) => ieee_rounded(b as nat, 23, 8, lo, hi),
        Scalar::Float64(b) => ieee_rounded(b as nat, 52, 11, lo, hi),
    }
}

/// `round_magnitude(sig, exp)`, saturated at `u64::MAX`.
fn rounded_magnitude(sig: u64, exp: i64) -> (r: u64)
    requires
        sig < 0x20_0000_0000_0000,
        -1100 <= exp <= 1000,
    ensures
        r as int == if round_magnitude(sig as nat, exp as int) > u64::MAX {
            u64::MAX as int
        } else {
            round_magnitude(sig as nat, exp as int) as int
        },
{
    proof {
        lemma2_to64();
        lemma2_to64_rest();
    }
    if exp >= 0 {
        if sig == 0 {
            assert(0 * pow2(exp as nat) == 0);
            return 0;
        }
        if exp >= 64 {
            proof {
                if exp > 64 {
                    lemma_pow2_strictly_increases(64, exp as nat);
                }
                assert(sig * pow2(exp as nat) >= pow2(exp as nat)) by (nonlinear_arith)
                    requires sig >= 1;
            }
            return u64::MAX;
        }
        let s = exp as u64;
        proof {
            lemma_u64_mul_pow2_le_max_iff_max_shr(sig, s, u64::MAX);
        }
        if sig > (u64::MAX >> s) {
            u64::MAX
        } else {
            proof {
                lemma_u64_shl_is_mul(sig, s);
            }
            sig << s
        }
    } else {
        let k: u64 = (-exp) as u64;
        let ghost p = pow2(k as nat);
        if k >= 64 {
            proof {
                lemma_pow2_strictly_increases(54, k as nat);
                assert(2 * sig + p < 2 * p);
                lemma_basic_div(2 * sig + p, (2 * p) as int);
            }
            return 0;
        }
        proof {
            lemma_pow2_adds(1, (k - 1) as nat);
            lemma_pow2_strictly_increases((k - 1) as nat, 63);
            assert(1 * pow2((k - 1) as u64 as nat) <= u64::MAX);
            lemma_u64_shl_is_mul(1, (k - 1) as u64);
        }
        let half: u64 = 1u64 << (k - 1);
        let t: u64 = sig + half;
        proof {
            lemma_u64_shr_is_div(t, k);
            lemma_div_multiples_vanish_quotient(2, t as int, p as int);
        }
        t >> k
    }
}

/// Rounds `±sig * 2^exp` and saturates into `[lo, hi]`.
fn round_parts(neg: bool, sig: u64, exp: i64, lo: i64, hi: i64) -> (r: i64)
    requires
        lo <= 0 <= hi,
        sig < 0x20_0000_0000_0000,
        -1100 <= exp <= 1000,
    ensures
        r == clamp(
            if neg {
                -round_magnitude(sig as nat, exp as int)
            } else {
                round_magnitude(sig as nat, exp as int) as int
            },
            lo as int,
            hi as int,
        ),
{
    let mag = rounded_magnitude(sig, exp);
    let v: i128 = if neg {
        -(mag as i128)
    } else {
        mag as i128
    };
    if v < lo as i128 {
        lo
    } else if v > hi as i128 {
        hi
    } else {
        v as i64
    }
}

fn round_f32(bits: u32, lo: i64, hi: i64) -> (r: i64)
    requires
        lo <= 0 <= hi,
    ensures
        r == ieee_rounded(bits as nat, 23, 8, lo as int, hi as int),
{
    proof {
        lemma2_to64();
        lemma2_to64_rest();
    }
    let frac = bits & 0x7f_ffff;
    let e = (bits >> 23) & 0xff;
    let neg = (bits >> 31) == 1;
    assert(bits & 0x7f_ffff == bits % 0x80_0000) by (bit_vector);
    assert((bits >> 23) & 0xff == (bits / 0x80_0000) % 0x100) by (bit_vector);
    assert((bits >> 31) == bits / 0x8000_0000) by (bit_vector);
    if e == 0xff {
        if frac != 0 {
            0
        } else if neg {
            lo
        } else {
            hi
        }
    } else if e == 0 {
        round_parts(neg, frac as u64, -149, lo, hi)
    } else {
        round_parts(neg, frac as u64 + 0x80_0000, e as i64 - 150, lo, hi)
    }
}

fn round_f64(bits: u64, lo: i64, hi: i64) -> (r: i64)
    requires
        lo <= 0 <= hi,
    ensures
        r == ieee_rounded(bits as nat, 52, 11, lo as int, hi as int),
{
    proof {
        lemma2_to64();
        lemma2_to64_rest();
    }
    let frac = bits & 0xf_ffff_ffff_ffff;
    let e = (bits >> 52) & 0x7ff;
    let neg = (bits >> 63) == 1;
    assert(bits & 0xf_ffff_ffff_ffff == bits % 0x10_0000_0000_0000) by (bit_vector);
    assert((bits >> 52) & 0x7ff == (bits / 0x10_0000_0000_0000) % 0x800) by (bit_vector);
    assert((bits >> 63) == bits / 0x8000_0000_0000_0000) by (bit_vector);
    if e == 0x7ff {
        if frac != 0 {
            0
        } else if neg {
            lo
        } else {
            hi
        }
    } else if e == 0 {
        round_parts(neg, frac, -1074, lo, hi)
    } else {
        round_parts(neg, frac + 0x10_0000_0000_0000, e as i64 - 1075, lo, hi)
    }
}

/// Rounds a decoded value to the nearest integer, halves away from zero, and
/// saturates it into `[lo, hi]`. NaN gives 0; an infinity gives the bound on
/// its side. Integer values are kept and only saturated.
pub fn round_scalar(s: Scalar, lo: i64, hi: i64) -> (r: i64)
    requires
        lo <= 0 <= hi,
    ensures
        r == rounded_in(s, lo as int, hi as int),
        lo <= r <= hi,
{
    match s {
        Scalar::Int(i) => {
            if i < lo {
                lo
            } else if i > hi {
                hi
            } else {
                i
            }
        },
        Scalar::Float32(b) => round_f32(b, lo, hi),
        Scalar::Float64(b) => round_f64(b, lo, hi),
    }
}

/// The rounding is to the nearest integer with halves going away from zero:
/// for `v = sig / 2^k`, the rounded magnitude `m` satisfies
/// `m - 1/2 <= v < m + 1/2`, so a value exactly halfway goes up to `m`.
pub proof fn lemma_round_half_away(sig: nat, k: nat)
    requires
        k > 0,
    ensures
        ({
            let d = pow2(k);
            let m = round_magnitude(sig, -k);
            2 * m * d - d <= 2 * sig < 2 * m * d + d
        }),
{
    let d = pow2(k) as int;
    lemma_pow2_pos(k);
    let m = round_magnitude(sig, -k) as int;
    assert(m == (2 * sig + d) / (2 * d));
    lemma_fundamental_div_mod(2 * sig + d, 2 * d);
    lemma_mod_pos_bound(2 * sig + d, 2 * d);
    assert(2 * d * m == 2 * m * d) by (nonlinear_arith);
}

} // verus!
