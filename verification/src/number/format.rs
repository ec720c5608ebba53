//! Fixed-point storage format.

use vstd::prelude::*;
use vstd::arithmetic::power2::{pow2, lemma2_to64, lemma2_to64_rest, lemma_pow2_strictly_increases};
use vstd::bits::{lemma_u64_shl_is_mul, lemma_u64_pow2_no_overflow};
use crate::number::rounding::{RoundingMode, round_quotient, floor_div, fits_i64,
    lemma_rounding_modes_are_as_documented, lemma_exact_quotient};

verus! {

/// `2^e` as an integer.
pub open spec fn two_to(e: int) -> int {
    pow2(e as nat) as int
}

/// The stored scale `1 << frac_bits` of a format, as an `i64` holds it: `2^frac_bits`,
/// except for 63 fractional bits, where the shift reaches the sign bit and
/// gives `i64::MIN`.
pub open spec fn scale_of(frac_bits: u32) -> int {
    if frac_bits < 63 {
        two_to(frac_bits as int)
    } else {
        i64::MIN as int
    }
}

/// `value · 2^frac_bits` as a raw integer of `format`, when it fits in an `i64`.
pub open spec fn shifted_integer(value: int, format: Format) -> Option<i64> {
    if fits_i64(value * two_to(format@ as int)) {
        Some((value * two_to(format@ as int)) as i64)
    } else {
        None
    }
}

/// Facts about the powers of two up to `2^64`.
pub proof fn lemma_two_to_bounds(e: int)
    requires
        0 <= e <= 64,
    ensures
        two_to(e) >= 1,
        e <= 62 ==> two_to(e) <= i64::MAX,
        e <= 63 ==> two_to(e) <= u64::MAX,
        two_to(63) == 0x8000_0000_0000_0000,
        two_to(62) == 0x4000_0000_0000_0000,
        two_to(61) == 0x2000_0000_0000_0000,
        two_to(64) == 0x1_0000_0000_0000_0000,
        two_to(0) == 1,
        two_to(1) == 2,
{
    lemma2_to64();
    lemma2_to64_rest();
    if e < 62 {
        lemma_pow2_strictly_increases(e as nat, 62);
    }
    if e < 63 {
        lemma_pow2_strictly_increases(e as nat, 63);
    }
}

/// `2^exponent` for an exponent below 64.
pub(crate) fn power_of_two(exponent: u32) -> (r: u64)
    requires
        exponent < 64,
    ensures
        r == two_to(exponent as int),
{
    proof {
        lemma_u64_pow2_no_overflow(exponent as nat);
        lemma_u64_shl_is_mul(1, exponent as u64);
    }
    1u64 << (exponent as u64)
}

/// Description of a signed fixed-point format.
///
/// `frac_bits` determines how many low-order bits represent the
/// fractional portion of a stored integer.
#[derive(Clone, Copy, Debug, PartialEq, Eq, Structural, Hash)]
pub struct Format {
    frac_bits: u32,
}

impl View for Format {
    type V = u32;

    /// The number of fractional bits.
    closed spec fn view(&self) -> u32 {
        self.frac_bits
    }
}

impl Format {
    /// Every format keeps fewer fractional bits than an `i64` has bits.
    #[verifier::type_invariant]
    pub open spec fn fits_in_i64(self) -> bool {
        self@ < 64
    }

    /// The format with `frac_bits` fractional bits.
    pub closed spec fn spec_new(frac_bits: u32) -> Format {
        Format { frac_bits }
    }

    /// The integer format, with no fractional bits.
    pub fn integer() -> (format: Self)
        ensures
            format == Format::spec_new(0),
            format@ == 0,
    {
        Self { frac_bits: 0 }
    }

    pub fn new(frac_bits: u32) -> (format: Self)
        requires
            frac_bits < 64,
        ensures
            format == Format::spec_new(frac_bits),
            format@ == frac_bits,
    {
        Self { frac_bits }
    }

    pub fn frac_bits(self) -> (bits: u32)
        ensures
            bits == self@,
            bits < 64,
    {
        proof {
            use_type_invariant(&self);
        }
        self.frac_bits
    }

    pub fn integer_bits(self) -> (bits: u32)
        ensures
            bits == 64 - self@,
    {
        proof {
            use_type_invariant(&self);
        }
        64 - self.frac_bits
    }

    pub fn scale(self) -> (scale: i64)
        ensures
            scale == scale_of(self@),
    {
        proof {
            use_type_invariant(&self);
            lemma_two_to_bounds(self@ as int);
        }
        if self.frac_bits == 63 {
            i64::MIN
        } else {
            power_of_two(self.frac_bits) as i64
        }
    }

    /// The mask of the fractional bits, `2^frac_bits - 1`.
    ///
    /// With 63 fractional bits the stored scale is `i64::MIN` and the mask
    /// would overflow, so that format is excluded.
    pub fn fractional_mask(self) -> (mask: i64)
        requires
            self@ < 63,
        ensures
            mask == two_to(self@ as int) - 1,
    {
        proof {
            lemma_two_to_bounds(self@ as int);
        }
        if self.frac_bits == 0 {
            0
        } else {
            self.scale() - 1
        }
    }

    /// `value · 2^frac_bits`, when it fits in an `i64`.
    pub fn encode_integer(self, value: i64) -> (raw: Option<i64>)
        ensures
            raw == shifted_integer(value as int, self),
    {
        proof {
            use_type_invariant(&self);
            lemma_two_to_bounds(self@ as int);
        }
        let power = power_of_two(self.frac_bits) as i128;
        proof {
            assert(-0x8000_0000_0000_0000 * 0x8000_0000_0000_0000 <= value * power
                <= 0x8000_0000_0000_0000 * 0x8000_0000_0000_0000) by (nonlinear_arith)
                requires
                    i64::MIN <= value <= i64::MAX,
                    1 <= power <= 0x8000_0000_0000_0000,
            ;
        }
        let encoded = (value as i128) * power;
        if encoded < i64::MIN as i128 || encoded > i64::MAX as i128 {
            None
        } else {
            Some(encoded as i64)
        }
    }

    /// The integer part of `raw`, rounded toward negative infinity:
    /// `⌊raw / 2^frac_bits⌋`, as an arithmetic right shift gives it.
    pub fn decode_integer(self, raw: i64) -> (value: i64)
        ensures
            value == floor_div(raw as int, two_to(self@ as int)),
    {
        proof {
            use_type_invariant(&self);
            lemma_two_to_bounds(self@ as int);
        }
        let power = power_of_two(self.frac_bits) as i128;
        let quotient = round_quotient(raw as i128, power, RoundingMode::Floor);
        proof {
            lemma_rounding_modes_are_as_documented(raw as int, power as int);
            if quotient > 0 {
                assert(power * quotient >= quotient) by (nonlinear_arith)
                    requires
                        power >= 1,
                        quotient > 0,
                ;
            }
        }
        quotient as i64
    }
}

/// Decoding a raw integer that `Format::encode_integer` produced gives the
/// integer back.
pub proof fn lemma_format_round_trip(value: i64, format: Format)
    requires
        format@ < 64,
    ensures
        shifted_integer(value as int, format) matches Some(raw) ==> floor_div(raw as int, two_to(format@ as int)) == value,
{
    lemma_two_to_bounds(format@ as int);
    lemma_exact_quotient(value as int, two_to(format@ as int), RoundingMode::Floor);
}

impl Default for Format {
    fn default() -> (format: Self)
        ensures
            format@ == 0,
    {
        Self { frac_bits: 0 }
    }
}

} // verus!
