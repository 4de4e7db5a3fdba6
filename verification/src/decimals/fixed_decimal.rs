//! The default fixed-point decimal: a signed 64-bit raw value carrying
//! thirteen fractional digits, so `raw == value * 10^13`.  Addition and
//! subtraction saturate at the `i64` range; multiplication and division go
//! through a 128-bit intermediate and saturate on the way back.

use vstd::prelude::*;
use vstd::string::StringSliceAdditionalSpecFns;

use crate::decimals::arith::{
    lemma_i64_product_range, lemma_num_digits_bound, lemma_pow10_adds, lemma_pow10_increases,
    lemma_pow10_positive, lemma_pow10_step, lemma_tdiv_magnitude, num_digits, num_digits_u32,
    pow10, pow10_i64, sat_i64, sat_to_i64, tdiv, tdiv_i128, tdiv_i64, trem, trunc_multiple_i64,
};

verus! {

/// Number of fractional digits carried by [`FixedDecimal`].
pub const SCALE: u32 = 13;

/// `10^SCALE`: the raw value representing one whole unit.
pub const SCALE_FACTOR: i64 = 10_000_000_000_000;

/// A fixed-point decimal with thirteen fractional digits in a signed
/// 64-bit integer; the raw value is the real value scaled by `10^13`.
#[derive(Debug, Clone, Copy, PartialEq, Eq, PartialOrd, Ord, Hash, Structural)]
pub struct FixedDecimal {
    pub raw: i64,
}

impl View for FixedDecimal {
    type V = int;

    open spec fn view(&self) -> int {
        self.raw as int
    }
}

/// True of a raw value whose magnitude bits are all clear: zero itself, and
/// the sign-bit-only pattern `i64::MIN`.  [`FixedDecimal::is_zero`] and the
/// short-circuits of `mul` and `div` treat both as zero.
pub open spec fn zero_raw(x: int) -> bool {
    x == 0 || x == i64::MIN
}

/// Saturating raw addition.
pub open spec fn d_add(a: int, b: int) -> int {
    sat_i64(a + b)
}

/// Saturating raw subtraction.
pub open spec fn d_sub(a: int, b: int) -> int {
    sat_i64(a - b)
}

/// Raw multiplication: `(a * b) / 10^13` truncated, saturated to the `i64`
/// range, with zero-like operands short-circuiting to zero and `ONE`
/// operands passed through unchanged.
pub open spec fn d_mul(a: int, b: int) -> int {
    if zero_raw(a) || zero_raw(b) {
        0
    } else if a == SCALE_FACTOR {
        b
    } else if b == SCALE_FACTOR {
        a
    } else {
        sat_i64(tdiv(a * b, SCALE_FACTOR as int))
    }
}

/// Raw division: `(a * 10^13) / b` truncated, saturated to the `i64` range,
/// with a zero-like dividend short-circuiting to zero and a `ONE` divisor
/// passing the dividend through unchanged.
pub open spec fn d_div(a: int, b: int) -> int
    recommends
        !zero_raw(b),
{
    if zero_raw(a) {
        0
    } else if b == SCALE_FACTOR {
        a
    } else {
        sat_i64(tdiv(a * SCALE_FACTOR, b))
    }
}

/// What [`FixedDecimal::from_parts`] builds: the whole part scaled by
/// `10^13`, with `decimal` read as the first eight significant fraction
/// digits (left-aligned in an eight-digit field) and always added with a
/// positive sign.  A whole part whose scaling overflows saturates before
/// the fraction is considered.
pub open spec fn from_parts_spec(whole: int, decimal: nat) -> int {
    if whole == 0 && decimal == 0 {
        0
    } else if whole * SCALE_FACTOR > i64::MAX {
        i64::MAX as int
    } else if whole * SCALE_FACTOR < i64::MIN {
        i64::MIN as int
    } else {
        sat_i64(whole * SCALE_FACTOR + frac8_raw(decimal))
    }
}

/// The raw contribution of the fraction field of
/// [`FixedDecimal::from_parts`]: `decimal` padded or truncated on the
/// right to eight digits, then scaled to the thirteen-digit raw range.
pub open spec fn frac8_raw(decimal: nat) -> int {
    let d = num_digits(decimal);
    if d <= 8 {
        decimal * pow10((8 - d) as nat) * 100_000
    } else {
        ((decimal as int) / pow10((d - 8) as nat)) * 100_000
    }
}

/// What [`FixedDecimal::with_exponent`] builds: `value * 10^exponent`,
/// truncated toward zero when the exponent reaches below the fixed scale
/// and saturated to the `i64` range.
pub open spec fn with_exponent_spec(value: int, exponent: int) -> int {
    let adjustment = SCALE as int + exponent;
    if value == 0 {
        0
    } else if adjustment >= 0 {
        sat_i64(value * pow10(adjustment as nat))
    } else {
        tdiv(value, pow10((-adjustment) as nat))
    }
}

/// The value a parsed decimal string denotes, in raw units: the whole
/// part scaled by `10^13` plus the fraction, negated by a leading minus,
/// saturated to the `i64` range.
pub open spec fn parsed_raw(neg: bool, whole: int, frac: int) -> int {
    if neg {
        sat_i64(-(whole * SCALE_FACTOR + frac))
    } else {
        sat_i64(whole * SCALE_FACTOR + frac)
    }
}

impl FixedDecimal {
    /// Wrap a raw scaled value.
    pub fn new(raw: i64) -> (r: Self)
        ensures
            r@ == raw as int,
    {
        Self { raw }
    }

    /// The raw scaled value.
    pub fn raw_value(self) -> (r: i64)
        ensures
            r as int == self@,
    {
        self.raw
    }

    /// The value 0.
    pub fn zero() -> (r: Self)
        ensures
            r@ == 0,
    {
        Self { raw: 0 }
    }

    /// The value 1 (raw `10^13`).
    pub fn one() -> (r: Self)
        ensures
            r@ == SCALE_FACTOR as int,
    {
        Self { raw: SCALE_FACTOR }
    }

    /// The value 2.
    pub fn two() -> (r: Self)
        ensures
            r@ == 2 * SCALE_FACTOR as int,
    {
        Self { raw: 2 * SCALE_FACTOR }
    }

    /// The value 10.
    pub fn ten() -> (r: Self)
        ensures
            r@ == 10 * SCALE_FACTOR as int,
    {
        Self { raw: 10 * SCALE_FACTOR }
    }

    /// The value 100.
    pub fn one_hundred() -> (r: Self)
        ensures
            r@ == 100 * SCALE_FACTOR as int,
    {
        Self { raw: 100 * SCALE_FACTOR }
    }

    /// The value 1000.
    pub fn one_thousand() -> (r: Self)
        ensures
            r@ == 1000 * SCALE_FACTOR as int,
    {
        Self { raw: 1_000 * SCALE_FACTOR }
    }

    /// The least representable value (raw `i64::MIN`), the bid-side
    /// sentinel price.
    pub fn min_value() -> (r: Self)
        ensures
            r@ == i64::MIN as int,
    {
        Self { raw: i64::MIN }
    }

    /// The greatest representable value (raw `i64::MAX`), the ask-side
    /// sentinel price.
    pub fn max_value() -> (r: Self)
        ensures
            r@ == i64::MAX as int,
    {
        Self { raw: i64::MAX }
    }

    /// True when no magnitude bit of the raw value is set; the
    /// sign-bit-only pattern `i64::MIN` also reports zero.
    pub fn is_zero(self) -> (r: bool)
        ensures
            r == zero_raw(self@),
    {
        self.raw == 0 || self.raw == i64::MIN
    }

    /// True when the raw value is negative.
    pub fn is_negative(self) -> (r: bool)
        ensures
            r == (self@ < 0),
    {
        self.raw < 0
    }

    /// Magnitude of the value; `i64::MIN`, which has no positive
    /// counterpart, is returned unchanged (the wrapping behaviour of the
    /// two's-complement negation).
    pub fn abs(self) -> (r: Self)
        ensures
            r@ == (if self@ == i64::MIN {
                i64::MIN as int
            } else if self@ < 0 {
                -self@
            } else {
                self@
            }),
    {
        if self.raw == i64::MIN {
            self
        } else if self.raw < 0 {
            Self { raw: -self.raw }
        } else {
            self
        }
    }

    /// The smaller of the two values.
    pub fn min(self, other: Self) -> (r: Self)
        ensures
            r@ == (if self@ <= other@ {
                self@
            } else {
                other@
            }),
    {
        if self.raw <= other.raw {
            self
        } else {
            other
        }
    }

    /// The larger of the two values.
    pub fn max(self, other: Self) -> (r: Self)
        ensures
            r@ == (if self@ >= other@ {
                self@
            } else {
                other@
            }),
    {
        if self.raw >= other.raw {
            self
        } else {
            other
        }
    }

    /// A decimal from a whole number of units.  A value whose magnitude
    /// exceeds the scale factor is taken as an already scaled raw value;
    /// otherwise it is scaled by `10^13`, which limits the whole units to
    /// the range that scaling keeps inside `i64`.
    pub fn from_int(value: i64) -> (r: Self)
        requires
            -922_337 <= value <= 922_337 || value > SCALE_FACTOR || value < -SCALE_FACTOR,
        ensures
            r@ == (if -SCALE_FACTOR <= value <= SCALE_FACTOR {
                value * SCALE_FACTOR
            } else {
                value as int
            }),
    {
        if value > SCALE_FACTOR || value < -SCALE_FACTOR {
            Self { raw: value }
        } else {
            Self { raw: value * SCALE_FACTOR }
        }
    }

    /// [`FixedDecimal::from_int`] on an unsigned count.
    pub fn from_usize(value: usize) -> (r: Self)
        requires
            value <= 922_337 || SCALE_FACTOR < value <= i64::MAX,
        ensures
            r@ == (if value <= SCALE_FACTOR {
                value * SCALE_FACTOR
            } else {
                value as int
            }),
    {
        Self::from_int(value as i64)
    }

    /// A decimal from a whole part and a fraction field holding the first
    /// eight significant fraction digits: `from_parts(100, 50_000_000)` is
    /// `100.5`, and so is `from_parts(100, 5)`, the field being
    /// left-aligned.  The fraction is always added with a positive sign.
    pub fn from_parts(whole: i64, decimal: u32) -> (r: Self)
        ensures
            r@ == from_parts_spec(whole as int, decimal as nat),
    {
        if whole == 0 && decimal == 0 {
            return Self::zero();
        }
        let digits = num_digits_u32(decimal);
        proof {
            lemma_num_digits_bound(decimal as nat);
        }
        let decimal_value: i64 = if digits <= 8 {
            proof {
                lemma_pow10_adds(digits as nat, (8 - digits) as nat);
                lemma_pow10_positive((8 - digits) as nat);
                assert(pow10(8) == 100_000_000) by {
                    reveal_with_fuel(pow10, 9);
                }
                assert((decimal as int) * pow10((8 - digits) as nat) < pow10(digits as nat)
                    * pow10((8 - digits) as nat)) by (nonlinear_arith)
                    requires
                        (decimal as int) < pow10(digits as nat),
                        pow10((8 - digits) as nat) >= 1,
                ;
            }
            (decimal as i64) * pow10_i64(8 - digits) * 100_000
        } else {
            // nine or ten digits: keep the leading eight
            proof {
                let d = num_digits(decimal as nat);
                if d > 10 {
                    lemma_pow10_increases(10, (d - 1) as nat);
                    assert(pow10(10) == 10_000_000_000) by {
                        reveal_with_fuel(pow10, 11);
                    }
                    assert(false);
                }
                lemma_pow10_positive((digits - 8) as nat);
                vstd::arithmetic::div_mod::lemma_div_pos_is_pos(
                    decimal as int,
                    pow10((digits - 8) as nat),
                );
                lemma_pow10_adds(8, (digits - 8) as nat);
                assert(pow10(8) == 100_000_000) by {
                    reveal_with_fuel(pow10, 9);
                }
                vstd::arithmetic::div_mod::lemma_multiply_divide_lt(
                    decimal as int,
                    pow10((digits - 8) as nat),
                    pow10(8),
                );
            }
            let p = pow10_i64(digits - 8);
            tdiv_i64(decimal as i64, p) * 100_000
        };
        let whole_part = match whole.checked_mul(SCALE_FACTOR) {
            Some(w) => w,
            None => {
                return Self {
                    raw: if whole < 0 {
                        i64::MIN
                    } else {
                        i64::MAX
                    },
                };
            },
        };
        let part = Self { raw: whole_part };
        part.add(Self { raw: decimal_value })
    }

    /// Truncate in place to `scale` fractional digits (toward zero); a
    /// scale at or above the full thirteen digits leaves the value alone.
    pub fn rescale(&mut self, scale: u32)
        ensures
            final(self)@ == (if scale >= SCALE {
                old(self)@
            } else {
                tdiv(old(self)@, pow10((SCALE - scale) as nat)) * pow10((SCALE - scale) as nat)
            }),
    {
        if scale >= SCALE {
            return;
        }
        proof {
            lemma_pow10_positive((SCALE - scale) as nat);
            lemma_pow10_increases((SCALE - scale) as nat, 13);
            assert(pow10(13) == SCALE_FACTOR) by {
                reveal_with_fuel(pow10, 14);
            }
        }
        let divisor = pow10_i64(SCALE - scale);
        self.raw = trunc_multiple_i64(self.raw, divisor);
    }

    /// The decimal `value * 10^exponent`, truncated toward zero below the
    /// fixed scale and saturated at the `i64` range.
    pub fn with_exponent(value: i64, exponent: i32) -> (r: Self)
        ensures
            r@ == with_exponent_spec(value as int, exponent as int),
    {
        if value == 0 {
            return Self::zero();
        }
        let adjustment: i64 = (SCALE as i64) + (exponent as i64);
        if adjustment >= 0 {
            if adjustment >= 19 {
                proof {
                    lemma_pow10_increases(19, adjustment as nat);
                    assert(pow10(19) == 10_000_000_000_000_000_000) by {
                        reveal_with_fuel(pow10, 20);
                    }
                    let p = pow10(adjustment as nat);
                    assert(value >= 1 ==> (value as int) * p >= p) by (nonlinear_arith)
                        requires
                            p >= 1,
                    ;
                    assert(value <= -1 ==> (value as int) * p <= -p) by (nonlinear_arith)
                        requires
                            p >= 1,
                    ;
                }
                return Self {
                    raw: if value < 0 {
                        i64::MIN
                    } else {
                        i64::MAX
                    },
                };
            }
            proof {
                lemma_pow10_positive(adjustment as nat);
            }
            let p = pow10_i64(adjustment as u32);
            match value.checked_mul(p) {
                Some(raw) => Self { raw },
                None => {
                    proof {
                        let pi = pow10(adjustment as nat);
                        assert(value >= 1 ==> (value as int) * pi >= 1) by (nonlinear_arith)
                            requires
                                pi >= 1,
                        ;
                        assert(value <= -1 ==> (value as int) * pi <= -1) by (nonlinear_arith)
                            requires
                                pi >= 1,
                        ;
                    }
                    Self {
                        raw: if value < 0 {
                            i64::MIN
                        } else {
                            i64::MAX
                        },
                    }
                },
            }
        } else {
            let neg = -adjustment;
            if neg >= 19 {
                proof {
                    lemma_pow10_increases(19, neg as nat);
                    assert(pow10(19) == 10_000_000_000_000_000_000) by {
                        reveal_with_fuel(pow10, 20);
                    }
                    lemma_tdiv_magnitude(value as int, pow10(neg as nat));
                    vstd::arithmetic::div_mod::lemma_basic_div(
                        if value > 0 {
                            value as int
                        } else {
                            -(value as int)
                        },
                        pow10(neg as nat),
                    );
                }
                return Self::zero();
            }
            proof {
                lemma_pow10_positive(neg as nat);
            }
            let p = pow10_i64(neg as u32);
            Self { raw: tdiv_i64(value, p) }
        }
    }

    /// `10^n` as a raw value; exponents past the `i64` range are clamped
    /// to `i64::MAX`.
    pub fn power_of_ten(n: u32) -> (r: i64)
        ensures
            r as int == (if n < 19 {
                pow10(n as nat)
            } else {
                i64::MAX as int
            }),
    {
        if n < 19 {
            pow10_i64(n)
        } else {
            i64::MAX
        }
    }

    /// The canonical decimal rendering: no leading zeros, trailing
    /// fraction zeros trimmed, `-0` written as `0`.  The sentinel raw
    /// value `i64::MIN` has no rendering.
    pub fn to_string(&self) -> (r: String)
        requires
            self@ != i64::MIN,
        ensures
            r@ == crate::decimals::text::format_spec(self@, SCALE as nat),
    {
        crate::decimals::text::format_raw(self.raw, SCALE)
    }

    /// Parse `[-]W[.F]`: `W` with `i64::from_str` semantics, `F`
    /// truncated at thirteen digits and right-padded with zeros.  Each
    /// malformed part is rejected with its own message; a combination
    /// out of the raw range saturates.
    pub fn from_str(s: &str) -> (r: Result<Self, &'static str>)
        ensures
            ({
                let sb = s.spec_bytes();
                let neg = sb.len() > 0 && sb[0] == 45;
                let t = if neg {
                    sb.skip(1)
                } else {
                    sb
                };
                match r {
                    Ok(v) => crate::decimals::text::parse_ok(t, SCALE as nat) && v@ == parsed_raw(
                        neg,
                        crate::decimals::text::parsed_whole(t),
                        crate::decimals::text::parsed_frac(t, SCALE as nat),
                    ),
                    Err(e) => (e@ == "Invalid decimal format"@
                        && crate::decimals::text::parse_err_format(t)) || (e@
                        == "Invalid whole number"@ && crate::decimals::text::parse_err_whole(t))
                        || (e@ == "Invalid decimal part"@ && crate::decimals::text::parse_err_frac(
                        t,
                        SCALE as nat,
                    )),
                }
            }),
    {
        let bytes = s.as_bytes();
        match crate::decimals::text::split_decimal(bytes, SCALE) {
            Ok((neg, w, f)) => {
                proof {
                    lemma_i64_product_range(w as int, SCALE_FACTOR as int);
                }
                let c: i128 = (w as i128) * (SCALE_FACTOR as i128) + (f as i128);
                let signed: i128 = if neg {
                    -c
                } else {
                    c
                };
                Ok(Self { raw: sat_to_i64(signed) })
            },
            Err(e) => Err(e),
        }
    }

    /// Saturating addition.
    pub fn add(self, other: Self) -> (r: Self)
        ensures
            r@ == d_add(self@, other@),
    {
        let raw = match self.raw.checked_add(other.raw) {
            Some(v) => v,
            None => if self.raw < 0 {
                i64::MIN
            } else {
                i64::MAX
            },
        };
        Self { raw }
    }

    /// Saturating subtraction.
    pub fn sub(self, other: Self) -> (r: Self)
        ensures
            r@ == d_sub(self@, other@),
    {
        let raw = match self.raw.checked_sub(other.raw) {
            Some(v) => v,
            None => if self.raw < 0 {
                i64::MIN
            } else {
                i64::MAX
            },
        };
        Self { raw }
    }

    /// Saturating fixed-point multiplication: `(a * b) / 10^13` over a
    /// 128-bit intermediate.
    pub fn mul(self, other: Self) -> (r: Self)
        ensures
            r@ == d_mul(self@, other@),
    {
        if self.is_zero() || other.is_zero() {
            return Self::zero();
        }
        if self.raw == SCALE_FACTOR {
            return other;
        }
        if other.raw == SCALE_FACTOR {
            return self;
        }
        proof {
            lemma_i64_product_range(self@, other@);
        }
        let prod = (self.raw as i128) * (other.raw as i128);
        let q = tdiv_i128(prod, SCALE_FACTOR as i128);
        Self { raw: sat_to_i64(q) }
    }

    /// Saturating fixed-point division: `(a * 10^13) / b` over a 128-bit
    /// intermediate.  Dividing by a zero-like value is a caller error.
    pub fn div(self, other: Self) -> (r: Self)
        requires
            !zero_raw(other@),
        ensures
            r@ == d_div(self@, other@),
    {
        if self.is_zero() {
            return Self::zero();
        }
        if other.raw == SCALE_FACTOR {
            return self;
        }
        proof {
            lemma_i64_product_range(self@, SCALE_FACTOR as int);
        }
        let scaled = (self.raw as i128) * (SCALE_FACTOR as i128);
        let q = tdiv_i128(scaled, other.raw as i128);
        Self { raw: sat_to_i64(q) }
    }

    /// Remainder of the raw values, with the sign of the dividend.
    /// Taking the remainder by a zero-like value is a caller error, as is
    /// the one overflowing pair (`i64::MIN`, `-1`).
    pub fn rem(self, other: Self) -> (r: Self)
        requires
            !zero_raw(other@),
            !(self@ == i64::MIN && other@ == -1),
        ensures
            r@ == trem(self@, other@),
    {
        let raw = match self.raw.checked_rem(other.raw) {
            Some(v) => v,
            None => 0,  // unreachable under the preconditions
        };
        Self { raw }
    }

    /// Saturating subtraction in place.
    pub fn sub_assign(&mut self, other: Self)
        ensures
            final(self)@ == d_sub(old(self)@, other@),
    {
        let diff = *self;
        *self = diff.sub(other);
    }
}

} // verus!
