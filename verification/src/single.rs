//! Single-precision real numbers by their bit patterns.
use vstd::arithmetic::power2::pow2;
use vstd::prelude::*;

verus! {

/// Whether a bit pattern is that of a finite number.
pub open spec fn finite_real(bits: u32) -> bool {
    (bits / 0x80_0000) % 256 != 255
}

pub fn is_finite_real(bits: u32) -> (r: bool)
    ensures
        r == finite_real(bits),
{
    (bits / 0x80_0000) % 256 != 255
}

/// What a number that is not finite is written as.
pub open spec fn nonfinite_text(bits: u32) -> Seq<char> {
    if bits % 0x80_0000 != 0 {
        "NaN"@
    } else if bits >= 0x8000_0000 {
        "-inf"@
    } else {
        "inf"@
    }
}

pub fn text_of_nonfinite(bits: u32) -> (r: &'static str)
    ensures
        r@ == nonfinite_text(bits),
{
    if bits % 0x80_0000 != 0 {
        "NaN"
    } else if bits >= 0x8000_0000 {
        "-inf"
    } else {
        "inf"
    }
}

/// The number of binary digits of `n`.
pub open spec fn bit_length(n: nat) -> nat
    decreases n,
{
    if n == 0 {
        0
    } else {
        1 + bit_length(n / 2)
    }
}

/// `n` over two to the power `shift`, rounded to the nearest whole number, and
/// to the even one of two that are equally near.
pub open spec fn rounded_shift(n: nat, shift: nat) -> nat {
    let unit = pow2(shift);
    let low = n / unit;
    let rest = n % unit;
    if 2 * rest > unit || (2 * rest == unit && low % 2 == 1) {
        low + 1
    } else {
        low
    }
}

/// The exponent of the last binary digit that a single-precision number of the
/// size of `n` times two to the power `exponent` keeps.
pub open spec fn last_digit(n: nat, exponent: int) -> int {
    if exponent + bit_length(n) - 24 >= -149 {
        exponent + bit_length(n) - 24
    } else {
        -149
    }
}

/// The bit pattern, without sign, of the single-precision number nearest to `n`
/// times two to the power `exponent`.
pub open spec fn nearest_single(n: nat, exponent: int) -> u32 {
    let at = last_digit(n, exponent);
    let digits = if at >= exponent {
        rounded_shift(n, (at - exponent) as nat)
    } else {
        n * pow2((exponent - at) as nat)
    };
    // One digit more than fits: a power of two, one place up.
    let (digits, at) = if digits == 0x100_0000 {
        (0x80_0000nat, at + 1)
    } else {
        (digits, at)
    };
    if at > 104 {
        0x7f80_0000
    } else if digits < 0x80_0000 {
        digits as u32
    } else {
        ((at + 150) * 0x80_0000 + (digits - 0x80_0000)) as u32
    }
}

/// The digits of a finite number, as a whole number.
pub open spec fn real_digits(bits: u32) -> nat {
    if (bits / 0x80_0000) % 256 == 0 {
        (bits % 0x80_0000) as nat
    } else {
        (bits % 0x80_0000 + 0x80_0000) as nat
    }
}

/// The exponent of the last digit of a finite number.
pub open spec fn real_exponent(bits: u32) -> int {
    if (bits / 0x80_0000) % 256 == 0 {
        -149
    } else {
        (bits / 0x80_0000) % 256 - 150
    }
}

/// The product of a finite number and the positive number `digits` times two to
/// the power `exponent`, to the nearest single.
pub open spec fn scaled(bits: u32, digits: nat, exponent: int) -> u32 {
    let magnitude = nearest_single(real_digits(bits) * digits, real_exponent(bits) + exponent);
    if bits >= 0x8000_0000 {
        (magnitude + 0x8000_0000) as u32
    } else {
        magnitude
    }
}

/// The digits and the exponent of the single nearest to a radian in degrees.
pub const DEGREES_DIGITS: u64 = 0xe5_2ee1;

/// The digits of the single nearest to a degree in radians.
pub const RADIANS_DIGITS: u64 = 0x8e_fa35;

/// A number of radians in degrees.
pub open spec fn in_degrees(bits: u32) -> u32 {
    scaled(bits, DEGREES_DIGITS as nat, -18)
}

/// A number of degrees in radians.
pub open spec fn in_radians(bits: u32) -> u32 {
    scaled(bits, RADIANS_DIGITS as nat, -29)
}

fn bit_length_of(n: u64) -> (r: u32)
    ensures
        r == bit_length(n as nat),
        r <= 64,
        n < pow2(r as nat),
        r > 0 ==> n >= pow2((r - 1) as nat),
        n < 0x1_0000_0000_0000 ==> r <= 48,
    decreases n,
{
    if n == 0 {
        proof {
            vstd::arithmetic::power2::lemma2_to64();
        }
        0
    } else {
        let rest: u32 = bit_length_of(n / 2);
        proof {
            vstd::arithmetic::power2::lemma_pow2_unfold((rest + 1) as nat);
            if rest > 0 {
                vstd::arithmetic::power2::lemma_pow2_unfold(rest as nat);
            } else {
                vstd::arithmetic::power2::lemma2_to64();
            }
            lemma_bit_length_bound(n as nat, rest as nat);
        }
        rest + 1
    }
}

/// A number of `k + 1` digits is at least two to the power `k`.
proof fn lemma_bit_length_bound(n: nat, k: nat)
    requires
        n > 0,
        n < 0x1_0000_0000_0000_0000,
        n >= pow2(k),
    ensures
        k < 64,
        n < 0x1_0000_0000_0000 ==> k < 48,
{
    vstd::arithmetic::power2::lemma2_to64();
    vstd::arithmetic::power2::lemma2_to64_rest();
    if k >= 64 {
        if k > 64 {
            vstd::arithmetic::power2::lemma_pow2_strictly_increases(64, k);
        }
    }
    if n < 0x1_0000_0000_0000 && k >= 48 {
        if k > 48 {
            vstd::arithmetic::power2::lemma_pow2_strictly_increases(48, k);
        }
    }
}

fn pow2_of(n: u32) -> (r: u64)
    requires
        n < 60,
    ensures
        r == pow2(n as nat),
        r > 0,
        r <= 0x800_0000_0000_0000,
    decreases n,
{
    proof {
        vstd::arithmetic::power2::lemma2_to64();
        vstd::arithmetic::power2::lemma2_to64_rest();
        vstd::arithmetic::power2::lemma_pow2_pos(n as nat);
        if n < 59 {
            vstd::arithmetic::power2::lemma_pow2_strictly_increases(n as nat, 59);
        }
    }
    if n == 0 {
        1
    } else {
        proof {
            vstd::arithmetic::power2::lemma_pow2_unfold(n as nat);
        }
        2 * pow2_of(n - 1)
    }
}

fn nearest_single_of(n: u64, exponent: i32) -> (r: u32)
    requires
        n < 0x1_0000_0000_0000,
        -200 <= exponent <= 120,
    ensures
        r == nearest_single(n as nat, exponent as int),
        r <= 0x7f80_0000,
{
    let length: u32 = bit_length_of(n);
    let wanted: i32 = exponent + (length as i32) - 24;
    let at: i32 = if wanted >= -149 {
        wanted
    } else {
        -149
    };
    let digits: u64 = if at >= exponent {
        let unit: u64 = pow2_of((at - exponent) as u32);
        let low: u64 = n / unit;
        let rest: u64 = n % unit;
        proof {
            lemma_quotient_small(n as nat, length as nat, (at - exponent) as nat);
        }
        if 2 * rest > unit || (2 * rest == unit && low % 2 == 1) {
            low + 1
        } else {
            low
        }
    } else {
        let unit: u64 = pow2_of((exponent - at) as u32);
        proof {
            lemma_product_small(n as nat, length as nat, (exponent - at) as nat);
        }
        n * unit
    };
    let (digits, at): (u64, i32) = if digits == 0x100_0000 {
        (0x80_0000, at + 1)
    } else {
        (digits, at)
    };
    if at > 104 {
        0x7f80_0000
    } else if digits < 0x80_0000 {
        digits as u32
    } else {
        ((at + 150) as u32) * 0x80_0000 + ((digits - 0x80_0000) as u32)
    }
}

proof fn lemma_quotient_small(n: nat, length: nat, shift: nat)
    requires
        n < pow2(length),
        length <= shift + 24,
    ensures
        n / pow2(shift) < 0x100_0000,
{
    vstd::arithmetic::power2::lemma2_to64();
    vstd::arithmetic::power2::lemma_pow2_pos(shift);
    vstd::arithmetic::power2::lemma_pow2_adds(24, shift);
    if length < shift + 24 {
        vstd::arithmetic::power2::lemma_pow2_strictly_increases(length, shift + 24);
    }
    let unit = pow2(shift);
    assert(n / unit < 0x100_0000) by (nonlinear_arith)
        requires
            n < 0x100_0000 * unit,
            unit > 0,
    ;
}

proof fn lemma_product_small(n: nat, length: nat, shift: nat)
    requires
        n < pow2(length),
        length + shift <= 24,
    ensures
        n * pow2(shift) < 0x100_0000,
{
    vstd::arithmetic::power2::lemma2_to64();
    vstd::arithmetic::power2::lemma_pow2_pos(shift);
    vstd::arithmetic::power2::lemma_pow2_adds(length, shift);
    if length + shift < 24 {
        vstd::arithmetic::power2::lemma_pow2_strictly_increases(length + shift, 24);
    }
    let unit = pow2(shift);
    let bound = pow2(length);
    assert(n * unit < bound * unit) by (nonlinear_arith)
        requires
            n < bound,
            unit > 0,
    ;
}

fn scaled_of(bits: u32, digits: u64, exponent: i32) -> (r: u32)
    requires
        finite_real(bits),
        digits < 0x100_0000,
        -30 <= exponent <= 0,
    ensures
        r == scaled(bits, digits as nat, exponent as int),
{
    let field: u32 = (bits / 0x80_0000) % 256;
    let own: u64 = if field == 0 {
        (bits % 0x80_0000) as u64
    } else {
        (bits % 0x80_0000 + 0x80_0000) as u64
    };
    let place: i32 = if field == 0 {
        -149
    } else {
        (field as i32) - 150
    };
    assert(own * digits < 0x1_0000_0000_0000) by (nonlinear_arith)
        requires
            own < 0x100_0000,
            digits < 0x100_0000,
    ;
    let magnitude: u32 = nearest_single_of(own * digits, place + exponent);
    if bits >= 0x8000_0000 {
        magnitude + 0x8000_0000
    } else {
        magnitude
    }
}

/// A finite number of radians in degrees.
pub fn degrees_of(bits: u32) -> (r: u32)
    requires
        finite_real(bits),
    ensures
        r == in_degrees(bits),
{
    scaled_of(bits, DEGREES_DIGITS, -18)
}

/// A finite number of degrees in radians.
pub fn radians_of(bits: u32) -> (r: u32)
    requires
        finite_real(bits),
    ensures
        r == in_radians(bits),
{
    scaled_of(bits, RADIANS_DIGITS, -29)
}

/// Rounding misses by at most half a unit of the last digit kept.
pub proof fn rounding_is_to_the_nearest(n: nat, shift: nat)
    ensures
        -(pow2(shift) as int) <= 2 * (rounded_shift(n, shift) * pow2(shift) - n) <= pow2(shift),
{
    vstd::arithmetic::power2::lemma_pow2_pos(shift);
    let unit = pow2(shift);
    let low = n / unit;
    let rest = n % unit;
    assert(n == low * unit + rest && 0 <= rest < unit) by (nonlinear_arith)
        requires
            unit > 0,
            low == n / unit,
            rest == n % unit,
    ;
    assert((low + 1) * unit == low * unit + unit) by (nonlinear_arith);
}

}
