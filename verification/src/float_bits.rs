//! Facts about IEEE-754 double-precision bit patterns, read with integer
//! arithmetic only: classification and conversion to integers with the
//! saturating semantics of Rust's `as` casts.

use vstd::prelude::*;
use vstd::arithmetic::power2::{pow2, lemma2_to64, lemma2_to64_rest, lemma_pow2_strictly_increases, lemma_pow2_adds};
use vstd::arithmetic::mul::lemma_mul_inequality;
use vstd::bits::{lemma_u64_shr_is_div, lemma_u64_shl_is_mul, lemma_u64_low_bits_mask_is_mod, low_bits_mask};
use vstd::arithmetic::div_mod::{lemma_div_multiples_vanish, lemma_mod_multiples_basic, lemma_small_mod};

verus! {

/// Bit pattern of the canonical quiet NaN.
pub const CANONICAL_NAN_BITS: u64 = 0x7ff8_0000_0000_0000u64;
/// Mask of the 52 fraction bits.
pub const FRACTION_MASK: u64 = 0x000f_ffff_ffff_ffffu64;

/// The biased exponent field.
pub open spec fn exp_field(b: u64) -> u64 {
    (b >> 52u64) & 0x7ffu64
}

/// The fraction field.
pub open spec fn frac_field(b: u64) -> u64 {
    b & FRACTION_MASK
}

/// The sign bit is set.
pub open spec fn sign_negative(b: u64) -> bool {
    (b >> 63u64) == 1u64
}

pub open spec fn is_nan_bits(b: u64) -> bool {
    exp_field(b) == 0x7ffu64 && frac_field(b) != 0
}

pub open spec fn is_infinite_bits(b: u64) -> bool {
    exp_field(b) == 0x7ffu64 && frac_field(b) == 0
}

pub open spec fn is_finite_bits(b: u64) -> bool {
    exp_field(b) != 0x7ffu64
}

/// Both +0.0 and -0.0.
pub open spec fn is_zero_bits(b: u64) -> bool {
    exp_field(b) == 0 && frac_field(b) == 0
}

/// The significand as an integer (with the hidden bit for normal numbers).
pub open spec fn significand(b: u64) -> nat {
    if exp_field(b) == 0 { frac_field(b) as nat } else { (frac_field(b) + pow2(52)) as nat }
}

/// The effective biased exponent (subnormals use 1).
pub open spec fn effective_exp(b: u64) -> nat {
    if exp_field(b) == 0 { 1 } else { exp_field(b) as nat }
}

/// Magnitude of the value truncated toward zero, for finite patterns:
/// the value is `significand * 2^(effective_exp - 1075)`.
pub open spec fn trunc_magnitude(b: u64) -> nat {
    if effective_exp(b) >= 1075 {
        significand(b) * pow2((effective_exp(b) - 1075) as nat)
    } else {
        significand(b) / pow2((1075 - effective_exp(b)) as nat)
    }
}

/// The value truncated toward zero, for finite patterns.
pub open spec fn trunc_value(b: u64) -> int {
    if sign_negative(b) { -(trunc_magnitude(b) as int) } else { trunc_magnitude(b) as int }
}

/// The finite value has no fractional part.
pub open spec fn is_integral_bits(b: u64) -> bool {
    is_finite_bits(b) && (effective_exp(b) >= 1075 || significand(b) % pow2(
        (1075 - effective_exp(b)) as nat,
    ) == 0)
}

pub open spec fn clamp(x: int, lo: int, hi: int) -> int {
    if x < lo { lo } else if x > hi { hi } else { x }
}

/// What `x as I` gives in Rust for a double `x` and an integer type with
/// range `lo..=hi`: NaN becomes 0, everything else saturates.
pub open spec fn saturating_cast(b: u64, lo: int, hi: int) -> int {
    if is_nan_bits(b) {
        0
    } else if is_infinite_bits(b) {
        if sign_negative(b) { lo } else { hi }
    } else {
        clamp(trunc_value(b), lo, hi)
    }
}

proof fn lemma_fields(b: u64)
    ensures
        exp_field(b) <= 0x7ffu64,
        frac_field(b) < 0x10_0000_0000_0000u64,
        (b & FRACTION_MASK) | 0x10_0000_0000_0000u64 == (b & FRACTION_MASK) + 0x10_0000_0000_0000u64,
        (b >> 63u64) <= 1u64,
{
    assert(((b >> 52u64) & 0x7ffu64) <= 0x7ffu64 && (b & FRACTION_MASK) < 0x10_0000_0000_0000u64
        && (b & FRACTION_MASK) | 0x10_0000_0000_0000u64 == (b & FRACTION_MASK) + 0x10_0000_0000_0000u64
        && (b >> 63u64) <= 1u64) by (bit_vector);
}

/// Converts a double given by its bits to an integer of range `lo..=hi` as
/// Rust's saturating `as` cast does.
pub fn saturating_cast_bits(bits: u64, lo: i128, hi: i128) -> (r: i128)
    requires
        -0x1_0000_0000_0000_0000 < lo <= 0 <= hi < 0x1_0000_0000_0000_0000,
    ensures
        r == saturating_cast(bits, lo as int, hi as int),
{
    proof {
        lemma_fields(bits);
        lemma2_to64();
        lemma2_to64_rest();
    }
    let e: u64 = (bits >> 52) & 0x7ff;
    let frac: u64 = bits & FRACTION_MASK;
    let neg: bool = (bits >> 63) == 1;
    if e == 0x7ff {
        if frac != 0 {
            return 0;
        } else if neg {
            return lo;
        } else {
            return hi;
        }
    }
    if e < 1023 {
        proof {
            let k = (1075 - effective_exp(bits)) as nat;
            if k > 53 {
                lemma_pow2_strictly_increases(53, k);
            }
            assert(e == exp_field(bits) && frac == frac_field(bits));
            assert(pow2(52) == 0x10_0000_0000_0000 && pow2(53) == 0x20_0000_0000_0000);
            assert(significand(bits) < pow2(53));
            assert(trunc_magnitude(bits) == 0) by {
                vstd::arithmetic::div_mod::lemma_basic_div(significand(bits) as int, pow2(k) as int);
            }
        }
        return 0;
    }
    let sig: u64 = frac | 0x10_0000_0000_0000;
    assert(sig == significand(bits));
    let mag: u128;
    if e <= 1075 {
        let s: u64 = 1075 - e;
        proof {
            lemma_u64_shr_is_div(sig, s);
        }
        mag = (sig >> s) as u128;
        assert(effective_exp(bits) == e);
        assert(mag == sig as nat / pow2(s as nat));
        if e == 1075 {
            assert(sig as nat / pow2(0) == sig as nat * pow2(0));
        }
        assert(mag == trunc_magnitude(bits));
    } else if e < 1087 {
        let s: u64 = e - 1075;
        proof {
            lemma_pow2_strictly_increases(s as nat, 12);
            lemma_mul_inequality(sig as int, 0x20_0000_0000_0000int, pow2(s as nat) as int);
            lemma_mul_inequality(pow2(s as nat) as int, pow2(11) as int, 0x20_0000_0000_0000int);
            if s < 11 {
                lemma_pow2_strictly_increases(s as nat, 11);
            }
            assert(sig * pow2(s as nat) <= u64::MAX) by (nonlinear_arith)
                requires
                    sig < 0x20_0000_0000_0000,
                    pow2(s as nat) <= 2048,
            ;
            lemma_u64_shl_is_mul(sig, s);
        }
        mag = (sig << s) as u128;
        assert(effective_exp(bits) == e);
        assert(mag == trunc_magnitude(bits));
    } else {
        proof {
            let k = (e - 1075) as nat;
            lemma_pow2_adds(12, (k - 12) as nat);
            assert(pow2(k) >= pow2(12)) by {
                if k > 12 {
                    lemma_pow2_strictly_increases(12, k);
                }
            }
            assert(significand(bits) * pow2(k) >= 0x10_0000_0000_0000 * pow2(12)) by (nonlinear_arith)
                requires
                    significand(bits) >= 0x10_0000_0000_0000,
                    pow2(k) >= pow2(12),
            ;
        }
        if neg {
            return lo;
        } else {
            return hi;
        }
    }
    assert(mag <= u64::MAX);
    let v: i128 = if neg { -(mag as i128) } else { mag as i128 };
    assert(v == trunc_value(bits));
    if v < lo {
        lo
    } else if v > hi {
        hi
    } else {
        v
    }
}

/// The pattern denotes NaN.
pub fn bits_is_nan(bits: u64) -> (r: bool)
    ensures
        r == is_nan_bits(bits),
{
    ((bits >> 52) & 0x7ff) == 0x7ff && (bits & FRACTION_MASK) != 0
}

/// The pattern denotes an infinity.
pub fn bits_is_infinite(bits: u64) -> (r: bool)
    ensures
        r == is_infinite_bits(bits),
{
    ((bits >> 52) & 0x7ff) == 0x7ff && (bits & FRACTION_MASK) == 0
}

/// The pattern denotes +0.0 or -0.0.
pub fn bits_is_zero(bits: u64) -> (r: bool)
    ensures
        r == is_zero_bits(bits),
{
    ((bits >> 52) & 0x7ff) == 0 && (bits & FRACTION_MASK) == 0
}


/// The pattern denotes a finite value without fractional part.
pub fn bits_is_integral(bits: u64) -> (r: bool)
    ensures
        r == is_integral_bits(bits),
{
    proof {
        lemma_fields(bits);
        lemma2_to64();
        lemma2_to64_rest();
    }
    let e: u64 = (bits >> 52) & 0x7ff;
    let frac: u64 = bits & FRACTION_MASK;
    if e == 0x7ff {
        return false;
    }
    let eff: u64 = if e == 0 { 1 } else { e };
    let sig: u64 = if e == 0 { frac } else { frac | 0x10_0000_0000_0000 };
    assert(sig == significand(bits) && eff == effective_exp(bits));
    if eff >= 1075 {
        return true;
    }
    let k: u64 = 1075 - eff;
    if k >= 64 {
        proof {
            lemma_pow2_strictly_increases(53, k as nat);
            assert(sig < pow2(53));
            lemma_small_mod(sig as nat, pow2(k as nat));
        }
        return sig == 0;
    }
    proof {
        lemma_u64_shl_is_mul(1, k);
        vstd::bits::lemma_u64_pow2_no_overflow(k as nat);
        vstd::bits::lemma_low_bits_mask_unfold(k as nat);
        lemma_u64_low_bits_mask_is_mod(sig, k as nat);
    }
    let mask: u64 = (1u64 << k) - 1;
    assert(mask == low_bits_mask(k as nat));
    (sig & mask) == 0
}

proof fn lemma_compose(s: u64, e: u64, f: u64)
    requires
        s <= 1,
        e < 0x7ff,
        f < 0x10_0000_0000_0000,
    ensures
        exp_field((s << 63u64) | (e << 52u64) | f) == e,
        frac_field((s << 63u64) | (e << 52u64) | f) == f,
        sign_negative((s << 63u64) | (e << 52u64) | f) == (s == 1),
{
    assert(((((s << 63u64) | (e << 52u64) | f) >> 52u64) & 0x7ffu64) == e
        && (((s << 63u64) | (e << 52u64) | f) & FRACTION_MASK) == f
        && ((((s << 63u64) | (e << 52u64) | f) >> 63u64) == 1u64) == (s == 1u64)) by (bit_vector)
        requires
            s <= 1u64,
            e < 0x7ffu64,
            f < 0x10_0000_0000_0000u64,
    ;
}

/// The bits of the double whose value is the integer `i` (exactly
/// representable: |i| < 2^53); zero gives +0.0.
pub fn int_to_f64_bits(i: i64) -> (r: u64)
    requires
        -0x20_0000_0000_0000 < i < 0x20_0000_0000_0000,
    ensures
        is_finite_bits(r),
        is_integral_bits(r),
        trunc_value(r) == i,
        sign_negative(r) == (i < 0),
        is_zero_bits(r) == (i == 0),
{
    proof {
        lemma2_to64();
        lemma2_to64_rest();
    }
    let neg: bool = i < 0;
    let m: u64 = if neg { (0i64 - i) as u64 } else { i as u64 };
    if m == 0 {
        proof {
            lemma_compose(0, 0, 0);
            assert((0u64 << 63u64) | (0u64 << 52u64) | 0u64 == 0u64) by (bit_vector);
            vstd::arithmetic::power2::lemma_pow2_pos(1074);
            lemma_small_mod(0, pow2(1074));
        }
        return 0;
    }
    let mut k: u64 = 1;
    proof {
        lemma_u64_shr_is_div(m, 0);
    }
    while k < 53 && (m >> k) != 0
        invariant
            1 <= k <= 53,
            0 < m < 0x20_0000_0000_0000,
            m >= pow2((k - 1) as nat),
        decreases 53 - k,
    {
        proof {
            lemma_u64_shr_is_div(m, k);
            if m < pow2(k as nat) {
                vstd::arithmetic::div_mod::lemma_basic_div(m as int, pow2(k as nat) as int);
            }
        }
        k = k + 1;
    }
    proof {
        if k < 53 {
            assert((m >> k) == 0);
            lemma_u64_shr_is_div(m, k);
            vstd::arithmetic::power2::lemma_pow2_pos(k as nat);
            vstd::arithmetic::div_mod::lemma_fundamental_div_mod(m as int, pow2(k as nat) as int);
            vstd::arithmetic::div_mod::lemma_mod_pos_bound(m as int, pow2(k as nat) as int);
            assert(pow2(k as nat) * 0 == 0);
        } else {
            assert(pow2(53) == 0x20_0000_0000_0000);
        }
        assert(m < pow2(k as nat));
    }
    let shift: u64 = 53 - k;
    proof {
        vstd::arithmetic::power2::lemma_pow2_pos(shift as nat);
        lemma_pow2_adds(shift as nat, (k - 1) as nat);
        lemma_pow2_adds(shift as nat, k as nat);
        assert(pow2(shift as nat) * pow2(k as nat) == pow2(53));
        assert(pow2(shift as nat) * pow2((k - 1) as nat) == pow2(52));
        assert(m * pow2(shift as nat) < pow2(shift as nat) * pow2(k as nat)) by (nonlinear_arith)
            requires
                m < pow2(k as nat),
                pow2(shift as nat) > 0,
        ;
        assert(m * pow2(shift as nat) >= pow2(shift as nat) * pow2((k - 1) as nat)) by (nonlinear_arith)
            requires
                m >= pow2((k - 1) as nat),
                pow2(shift as nat) > 0,
        ;
        lemma_u64_shl_is_mul(m, shift);
    }
    let sig: u64 = m << shift;
    assert(0x10_0000_0000_0000 <= sig < 0x20_0000_0000_0000);
    let frac: u64 = sig - 0x10_0000_0000_0000;
    let e: u64 = 1022 + k;
    let s: u64 = if neg { 1 } else { 0 };
    let r: u64 = (s << 63) | (e << 52) | frac;
    proof {
        lemma_compose(s, e, frac);
        assert(significand(r) == sig);
        assert(effective_exp(r) == e);
        assert(1075 - effective_exp(r) == shift);
        lemma_div_multiples_vanish(m as int, pow2(shift as nat) as int);
        lemma_mod_multiples_basic(m as int, pow2(shift as nat) as int);
        assert(sig as int == pow2(shift as nat) * m);
        assert(trunc_magnitude(r) == m);
    }
    r
}

/// The integer value of a finite integral double, saturated to the range
/// of `i128` as Rust's `as i128` does; `None` for NaN, the infinities and
/// doubles with a fractional part.
pub fn integral_i128(bits: u64) -> (r: Option<i128>)
    ensures
        r == if is_integral_bits(bits) {
            Some(clamp(trunc_value(bits), i128::MIN as int, i128::MAX as int) as i128)
        } else {
            None::<i128>
        },
{
    if !bits_is_integral(bits) {
        return None;
    }
    proof {
        lemma_fields(bits);
        lemma2_to64();
        lemma2_to64_rest();
    }
    let e: u64 = (bits >> 52) & 0x7ff;
    let neg: bool = (bits >> 63) == 1;
    if e < 1075 {
        let small = saturating_cast_bits(bits, i64::MIN as i128, i64::MAX as i128);
        proof {
            assert(effective_exp(bits) < 1075);
            let k = (1075 - effective_exp(bits)) as nat;
            assert(significand(bits) < pow2(53)) by {
                assert(pow2(52) == 0x10_0000_0000_0000 && pow2(53) == 0x20_0000_0000_0000);
            }
            assert(trunc_magnitude(bits) <= significand(bits)) by {
                vstd::arithmetic::power2::lemma_pow2_pos(k);
                vstd::arithmetic::div_mod::lemma_div_is_ordered_by_denominator(
                    significand(bits) as int,
                    1,
                    pow2(k) as int,
                );
            }
        }
        return Some(small);
    }
    let frac: u64 = bits & FRACTION_MASK;
    let sig: u64 = frac | 0x10_0000_0000_0000;
    assert(sig == significand(bits));
    let s: u64 = e - 1075;
    if s >= 75 {
        proof {
            assert(effective_exp(bits) == e);
            lemma_pow2_adds(52, 75);
            assert(pow2(s as nat) >= pow2(75)) by {
                if s > 75 {
                    lemma_pow2_strictly_increases(75, s as nat);
                }
            }
            assert(significand(bits) * pow2(s as nat) >= pow2(52) * pow2(75)) by (nonlinear_arith)
                requires
                    significand(bits) >= pow2(52),
                    pow2(s as nat) >= pow2(75),
            ;
            vstd::arithmetic::power2::lemma2_to64();
            assert(pow2(127) == 0x8000_0000_0000_0000_0000_0000_0000_0000) by {
                lemma_pow2_adds(64, 63);
            }
        }
        if neg {
            return Some(i128::MIN);
        } else {
            return Some(i128::MAX);
        }
    }
    let mut m: u128 = sig as u128;
    let mut i: u64 = 0;
    proof {
        vstd::arithmetic::power2::lemma2_to64();
        lemma_pow2_adds(53, 74);
        lemma_pow2_adds(64, 63);
        vstd::arithmetic::power2::lemma_pow2_unfold(74);
    }
    while i < s
        invariant
            i <= s < 75,
            sig < 0x20_0000_0000_0000,
            m == sig * pow2(i as nat),
            pow2(53) == 0x20_0000_0000_0000,
            pow2(127) == pow2(53) * pow2(74),
            pow2(74) == 2 * pow2(73),
            pow2(127) == 0x8000_0000_0000_0000_0000_0000_0000_0000,
        decreases s - i,
    {
        proof {
            vstd::arithmetic::power2::lemma_pow2_unfold((i + 1) as nat);
            vstd::arithmetic::power2::lemma_pow2_pos(i as nat);
            assert(pow2(i as nat) <= pow2(73)) by {
                if i < 73 {
                    lemma_pow2_strictly_increases(i as nat, 73);
                }
            }
            assert(sig * pow2(i as nat) * 2 < pow2(53) * pow2(74)) by (nonlinear_arith)
                requires
                    sig < pow2(53),
                    0 < pow2(i as nat) <= pow2(73),
                    pow2(74) == 2 * pow2(73),
            ;
        }
        m = m * 2;
        proof {
            assert(m == sig * pow2((i + 1) as nat)) by (nonlinear_arith)
                requires
                    m == sig * pow2(i as nat) * 2,
                    pow2((i + 1) as nat) == 2 * pow2(i as nat),
            ;
        }
        i = i + 1;
    }
    proof {
        assert(effective_exp(bits) == e);
        assert(m == trunc_magnitude(bits));
        assert(m < pow2(127)) by {
            assert(pow2(s as nat) <= pow2(74)) by {
                if s < 74 {
                    lemma_pow2_strictly_increases(s as nat, 74);
                }
            }
            vstd::arithmetic::power2::lemma_pow2_pos(s as nat);
            assert(sig * pow2(s as nat) < pow2(53) * pow2(74)) by (nonlinear_arith)
                requires
                    sig < pow2(53),
                    pow2(s as nat) <= pow2(74),
                    pow2(s as nat) > 0,
            ;
        }
        assert(pow2(127) == 0x8000_0000_0000_0000_0000_0000_0000_0000);
    }
    let v: i128 = if neg { -(m as i128) } else { m as i128 };
    Some(v)
}

} // verus!
