//! The compact fixed-point decimal: twelve fractional digits in a signed
//! 64-bit raw value, with the whole units capped at one million.  Within
//! that window addition and subtraction saturate; multiplication and
//! division truncate through a 128-bit intermediate and wrap on the cast
//! back, which the window keeps unreachable in ordinary use.

use vstd::prelude::*;
use vstd::string::StringSliceAdditionalSpecFns;

use crate::decimals::arith::{
    lemma_i64_product_range, lemma_num_digits_bound, lemma_pow10_adds, lemma_pow10_positive,
    num_digits, num_digits_u32, pow10, pow10_i64, sat_i64, sat_to_i64, tdiv, tdiv_i128,
    trunc_multiple_i64,
};
use crate::decimals::text;

verus! {

/// Number of fractional digits carried by this [`FixedDecimal`].
pub const SCALE: u32 = 12;

/// `10^SCALE`: the raw value representing one whole unit.
pub const SCALE_FACTOR: i64 = 1_000_000_000_000;

/// Largest whole-unit magnitude the type accepts.
pub const WHOLE_LIMIT: i64 = 1_000_000;

/// A fixed-point decimal with twelve fractional digits in a signed
/// 64-bit integer, for values within a million whole units.
#[derive(Debug, Clone, Copy, PartialEq, Eq, PartialOrd, Ord, Hash, Structural)]
pub struct FixedDecimal {
    pub raw: i64,
}

impl View for FixedDecimal {
    type V = int;

    open spec fn view(&self) -> int {
        self.raw as int
    }
}

/// The lower 64 bits of an integer read back as a signed value: what a
/// plain `as i64` cast of a 128-bit intermediate leaves.
pub open spec fn wrap_i64(x: int) -> int {
    (x as i64) as int
}

/// Raw multiplication: `(a * b) / 10^12` truncated, cast back to `i64`.
pub open spec fn c_mul(a: int, b: int) -> int {
    wrap_i64(tdiv(a * b, SCALE_FACTOR as int))
}

/// Raw division: `(a * 10^12) / b` truncated, cast back to `i64`.
pub open spec fn c_div(a: int, b: int) -> int
    recommends
        b != 0,
{
    wrap_i64(tdiv(a * SCALE_FACTOR, b))
}

/// The raw fraction contribution of [`FixedDecimal::from_parts`]: the
/// digits of `decimal` left-aligned in the twelve-digit fraction field.
pub open spec fn frac12_raw(decimal: nat) -> int {
    if decimal == 0 {
        0
    } else {
        decimal * pow10((SCALE as nat - num_digits(decimal)) as nat)
    }
}

impl FixedDecimal {
    /// Wrap a raw scaled value.
    pub fn new(raw: i64) -> (r: Self)
        ensures
            r@ == raw as int,
    {
        Self { raw }
    }

    /// The raw scaled value.
    pub fn raw_value(self) -> (r: i64)
        ensures
            r as int == self@,
    {
        self.raw
    }

    /// The value 0.
    pub fn zero() -> (r: Self)
        ensures
            r@ == 0,
    {
        Self { raw: 0 }
    }

    /// The value 1 (raw `10^12`).
    pub fn one() -> (r: Self)
        ensures
            r@ == SCALE_FACTOR as int,
    {
        Self { raw: SCALE_FACTOR }
    }

    /// True when the raw value is zero.
    pub fn is_zero(self) -> (r: bool)
        ensures
            r == (self@ == 0),
    {
        self.raw == 0
    }

    /// True when the raw value is negative.
    pub fn is_negative(self) -> (r: bool)
        ensures
            r == (self@ < 0),
    {
        self.raw < 0
    }

    /// Magnitude of the value; the sentinel `i64::MIN`, which has no
    /// positive counterpart, is a caller error.
    pub fn abs(self) -> (r: Self)
        requires
            self@ != i64::MIN,
        ensures
            r@ == (if self@ < 0 {
                -self@
            } else {
                self@
            }),
    {
        if self.raw < 0 {
            Self { raw: -self.raw }
        } else {
            Self { raw: self.raw }
        }
    }

    /// A decimal from a whole number of units, capped at one million.
    pub fn from_int(value: i64) -> (r: Self)
        requires
            -WHOLE_LIMIT <= value <= WHOLE_LIMIT,
        ensures
            r@ == value * SCALE_FACTOR,
    {
        Self { raw: value * SCALE_FACTOR }
    }

    /// A decimal from a whole part (capped at one million) and a
    /// fraction field read as the leading fraction digits: both
    /// `from_parts(100, 5)` and `from_parts(100, 500_000_000_000)` are
    /// `100.5`.  The fraction always pushes the value away from zero.
    pub fn from_parts(whole: i64, decimal: u32) -> (r: Self)
        requires
            -WHOLE_LIMIT <= whole <= WHOLE_LIMIT,
        ensures
            r@ == (if whole * SCALE_FACTOR < 0 {
                whole * SCALE_FACTOR - frac12_raw(decimal as nat)
            } else {
                whole * SCALE_FACTOR + frac12_raw(decimal as nat)
            }),
    {
        let raw = whole * SCALE_FACTOR;
        let contribution: i64 = if decimal == 0 {
            0
        } else {
            let digits = num_digits_u32(decimal);
            proof {
                lemma_num_digits_bound(decimal as nat);
                let d = num_digits(decimal as nat);
                if d > 10 {
                    crate::decimals::arith::lemma_pow10_increases(10, (d - 1) as nat);
                    assert(pow10(10) == 10_000_000_000) by {
                        reveal_with_fuel(pow10, 11);
                    }
                    assert(false);
                }
                lemma_pow10_adds(d, (SCALE as nat - d) as nat);
                lemma_pow10_positive((SCALE as nat - d) as nat);
                assert(pow10(SCALE as nat) == SCALE_FACTOR) by {
                    reveal_with_fuel(pow10, 13);
                }
                assert((decimal as int) * pow10((SCALE as nat - d) as nat) < pow10(d) * pow10(
                    (SCALE as nat - d) as nat,
                )) by (nonlinear_arith)
                    requires
                        (decimal as int) < pow10(d),
                        pow10((SCALE as nat - d) as nat) >= 1,
                ;
                vstd::arithmetic::mul::lemma_mul_nonnegative(
                    decimal as int,
                    pow10((SCALE as nat - d) as nat),
                );
            }
            (decimal as i64) * pow10_i64(SCALE - digits)
        };
        let raw = if raw < 0 {
            raw - contribution
        } else {
            raw + contribution
        };
        Self { raw }
    }

    /// Truncate to `places` fractional digits (toward zero).
    pub fn round_to(self, places: u32) -> (r: Self)
        requires
            places <= SCALE,
        ensures
            r@ == tdiv(self@, pow10((SCALE - places) as nat)) * pow10((SCALE - places) as nat),
    {
        proof {
            lemma_pow10_positive((SCALE - places) as nat);
            crate::decimals::arith::lemma_pow10_increases((SCALE - places) as nat, 12);
            assert(pow10(12) == SCALE_FACTOR) by {
                reveal_with_fuel(pow10, 13);
            }
        }
        let factor = pow10_i64(SCALE - places);
        Self { raw: trunc_multiple_i64(self.raw, factor) }
    }

    /// Saturating addition.
    pub fn add(self, other: Self) -> (r: Self)
        ensures
            r@ == sat_i64(self@ + other@),
    {
        let raw = match self.raw.checked_add(other.raw) {
            Some(v) => v,
            None => if self.raw < 0 {
                i64::MIN
            } else {
                i64::MAX
            },
        };
        Self { raw }
    }

    /// Saturating subtraction.
    pub fn sub(self, other: Self) -> (r: Self)
        ensures
            r@ == sat_i64(self@ - other@),
    {
        let raw = match self.raw.checked_sub(other.raw) {
            Some(v) => v,
            None => if self.raw < 0 {
                i64::MIN
            } else {
                i64::MAX
            },
        };
        Self { raw }
    }

    /// Fixed-point multiplication: `(a * b) / 10^12` truncated; the cast
    /// back wraps outside the raw range.
    pub fn mul(self, other: Self) -> (r: Self)
        ensures
            r@ == c_mul(self@, other@),
    {
        proof {
            lemma_i64_product_range(self@, other@);
        }
        let prod = (self.raw as i128) * (other.raw as i128);
        let q = tdiv_i128(prod, SCALE_FACTOR as i128);
        let raw = #[verifier::truncate] (q as i64);
        Self { raw }
    }

    /// Fixed-point division: `(a * 10^12) / b` truncated; the cast back
    /// wraps outside the raw range.  Dividing by zero is a caller error.
    pub fn div(self, other: Self) -> (r: Self)
        requires
            other@ != 0,
        ensures
            r@ == c_div(self@, other@),
    {
        proof {
            lemma_i64_product_range(self@, SCALE_FACTOR as int);
        }
        let scaled = (self.raw as i128) * (SCALE_FACTOR as i128);
        let q = tdiv_i128(scaled, other.raw as i128);
        let raw = #[verifier::truncate] (q as i64);
        Self { raw }
    }

    /// `self` as a percentage of `other`: `self * 100 / other`, zero
    /// when `other` is zero.
    pub fn percentage_of(self, other: Self) -> (r: Self)
        ensures
            r@ == (if other@ == 0 {
                0
            } else {
                c_div(c_mul(self@, 100 * SCALE_FACTOR), other@)
            }),
    {
        if other.is_zero() {
            Self::zero()
        } else {
            self.mul(Self::from_int(100)).div(other)
        }
    }

    /// The first `count` prices of a ladder starting at `self` and
    /// stepping by `tick_size`; every rung must stay in the raw range.
    pub fn price_levels(self, tick_size: Self, count: usize) -> (r: Vec<Self>)
        requires
            forall|i: int|
                0 <= i < count ==> i64::MIN <= self@ + #[trigger] (i * tick_size@) <= i64::MAX,
        ensures
            r@.len() == count,
            forall|i: int| 0 <= i < count ==> #[trigger] r@[i]@ == self@ + i * tick_size@,
    {
        let mut out: Vec<Self> = Vec::new();
        let mut i: usize = 0;
        while i < count
            invariant
                0 <= i <= count,
                out@.len() == i,
                forall|j: int| 0 <= j < i ==> #[trigger] out@[j]@ == self@ + j * tick_size@,
                forall|j: int|
                    0 <= j < count ==> i64::MIN <= self@ + #[trigger] (j * tick_size@)
                        <= i64::MAX,
            decreases count - i,
        {
            proof {
                assert(i64::MIN <= self@ + (i as int) * tick_size@ <= i64::MAX);
            }
            let prod = (i as i128) * (tick_size.raw as i128);
            let rung = (self.raw as i128) + prod;
            out.push(Self { raw: rung as i64 });
            i = i + 1;
        }
        out
    }

    /// Round down to the nearest multiple of `tick_size` (toward zero).
    pub fn round_down_to_tick(self, tick_size: Self) -> (r: Self)
        requires
            tick_size@ > 0,
        ensures
            r@ == tdiv(self@, tick_size@) * tick_size@,
    {
        Self { raw: trunc_multiple_i64(self.raw, tick_size.raw) }
    }

    /// Parse `[-]W[.F]`: `W` with `i64::from_str` semantics and capped
    /// at one million whole units, `F` truncated at twelve digits and
    /// right-padded with zeros.  Each malformed part is rejected with
    /// its own message; within the cap the result is exact.
    #[verifier::loop_isolation(false)]
    pub fn from_str(s: &str) -> (r: Result<Self, &'static str>)
        ensures
            ({
                let sb = s.spec_bytes();
                let neg = sb.len() > 0 && sb[0] == 45;
                let t = if neg {
                    sb.skip(1)
                } else {
                    sb
                };
                let w = text::parsed_whole(t);
                match r {
                    Ok(v) => text::parse_ok(t, SCALE as nat) && -WHOLE_LIMIT <= w <= WHOLE_LIMIT
                        && v@ == (if neg {
                        -(w * SCALE_FACTOR + text::parsed_frac(t, SCALE as nat))
                    } else {
                        w * SCALE_FACTOR + text::parsed_frac(t, SCALE as nat)
                    }),
                    Err(e) => (e@ == "Invalid decimal format"@ && text::parse_err_format(t)) || (
                    e@ == "Invalid whole number"@ && text::parse_err_whole(t)) || (e@
                        == "Whole number exceeds maximum value of 1 million"@ && !text::tail_has_dot(
                        t,
                    ) && text::int_str_ok(text::whole_part(t)) && text::int_fits_i64(
                        text::whole_part(t),
                    ) && !(-WHOLE_LIMIT <= w <= WHOLE_LIMIT)) || (e@ == "Invalid decimal part"@
                        && text::parse_err_frac(t, SCALE as nat) && -WHOLE_LIMIT <= w
                        <= WHOLE_LIMIT),
                }
            }),
    {
        let bytes = s.as_bytes();
        let n = bytes.len();
        let neg = n > 0 && *vstd::slice::slice_index_get(bytes, 0) == 45;
        let start: usize = if neg {
            1
        } else {
            0
        };
        let ghost t = if neg {
            bytes@.skip(1)
        } else {
            bytes@
        };
        proof {
            assert(t =~= bytes@.subrange(start as int, n as int));
        }
        let mut dot: usize = start;
        while dot < n && *vstd::slice::slice_index_get(bytes, dot) != 46
            invariant
                start <= dot <= n,
                forall|k: int| 0 <= k < dot - start ==> #[trigger] t[k] != 46,
            decreases n - dot,
        {
            dot = dot + 1;
        }
        proof {
            text::lemma_dot_or_len_of(t, dot - start);
        }
        if dot < n {
            let mut j: usize = dot + 1;
            while j < n
                invariant
                    dot + 1 <= j <= n,
                    forall|k: int| dot - start < k < j - start ==> #[trigger] t[k] != 46,
                decreases n - j,
            {
                if *vstd::slice::slice_index_get(bytes, j) == 46 {
                    proof {
                        assert(t[j - start] == 46);
                    }
                    return Err("Invalid decimal format");
                }
                j = j + 1;
            }
        }
        proof {
            assert(!text::tail_has_dot(t));
        }
        let whole_bytes = vstd::slice::slice_subrange(bytes, start, dot);
        proof {
            assert(whole_bytes@ =~= text::whole_part(t));
        }
        let w = match text::parse_i64_bytes(whole_bytes) {
            Some(w) => w,
            None => {
                return Err("Invalid whole number");
            },
        };
        if w > WHOLE_LIMIT || w < -WHOLE_LIMIT {
            return Err("Whole number exceeds maximum value of 1 million");
        }
        let f: i64 = if dot == n {
            proof {
                lemma_pow10_positive(SCALE as nat);
            }
            0
        } else {
            let frac_bytes = vstd::slice::slice_subrange(bytes, dot + 1, n);
            proof {
                assert(frac_bytes@ =~= text::frac_part(t));
            }
            match text::parse_frac_bytes(frac_bytes, SCALE) {
                Some(f) => f,
                None => {
                    return Err("Invalid decimal part");
                },
            }
        };
        proof {
            assert(pow10(SCALE as nat) == SCALE_FACTOR) by {
                reveal_with_fuel(pow10, 13);
            }
        }
        let raw = w * SCALE_FACTOR + f;
        Ok(Self {
            raw: if neg {
                -raw
            } else {
                raw
            },
        })
    }

    /// The canonical decimal rendering; the raw value `i64::MIN` has no
    /// rendering.
    pub fn to_string(&self) -> (r: String)
        requires
            self@ != i64::MIN,
        ensures
            r@ == text::format_spec(self@, SCALE as nat),
    {
        text::format_raw(self.raw, SCALE)
    }
}

} // verus!
