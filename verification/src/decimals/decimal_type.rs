//! The capability the books expect of a price/size scalar: the named
//! constants of a fixed-point value with some scale.  Each implementor
//! states its own scale through `scale_model`, and every constant is
//! pinned to it.

use vstd::prelude::*;

verus! {

/// A fixed-point decimal scalar with a raw integer model and a scale.
pub trait DecimalType: Sized {
    /// The raw integer a value stands for.
    spec fn raw_model(&self) -> int;

    /// The raw value of one whole unit.
    spec fn scale_model() -> int;

    /// The value 0.
    fn zero() -> (r: Self)
        ensures
            r.raw_model() == 0,
    ;

    /// The value 1.
    fn one() -> (r: Self)
        ensures
            r.raw_model() == Self::scale_model(),
    ;

    /// The value 2.
    fn two() -> (r: Self)
        ensures
            r.raw_model() == 2 * Self::scale_model(),
    ;

    /// The value 100.
    fn one_hundred() -> (r: Self)
        ensures
            r.raw_model() == 100 * Self::scale_model(),
    ;

    /// The least representable value.
    fn min_value() -> (r: Self)
        ensures
            r.raw_model() == i64::MIN as int,
    ;

    /// The greatest representable value.
    fn max_value() -> (r: Self)
        ensures
            r.raw_model() == i64::MAX as int,
    ;
}

impl DecimalType for crate::decimals::fixed_decimal::FixedDecimal {
    open spec fn raw_model(&self) -> int {
        self@
    }

    open spec fn scale_model() -> int {
        crate::decimals::fixed_decimal::SCALE_FACTOR as int
    }

    fn zero() -> (r: Self) {
        crate::decimals::fixed_decimal::FixedDecimal::zero()
    }

    fn one() -> (r: Self) {
        crate::decimals::fixed_decimal::FixedDecimal::one()
    }

    fn two() -> (r: Self) {
        crate::decimals::fixed_decimal::FixedDecimal::two()
    }

    fn one_hundred() -> (r: Self) {
        crate::decimals::fixed_decimal::FixedDecimal::one_hundred()
    }

    fn min_value() -> (r: Self) {
        crate::decimals::fixed_decimal::FixedDecimal::min_value()
    }

    fn max_value() -> (r: Self) {
        crate::decimals::fixed_decimal::FixedDecimal::max_value()
    }
}

impl DecimalType for crate::fixed_decimal::FixedDecimal {
    open spec fn raw_model(&self) -> int {
        self@
    }

    open spec fn scale_model() -> int {
        crate::fixed_decimal::SCALE_FACTOR as int
    }

    fn zero() -> (r: Self) {
        crate::fixed_decimal::FixedDecimal::zero()
    }

    fn one() -> (r: Self) {
        crate::fixed_decimal::FixedDecimal::one()
    }

    fn two() -> (r: Self) {
        crate::fixed_decimal::FixedDecimal::new(2 * crate::fixed_decimal::SCALE_FACTOR)
    }

    fn one_hundred() -> (r: Self) {
        crate::fixed_decimal::FixedDecimal::new(100 * crate::fixed_decimal::SCALE_FACTOR)
    }

    fn min_value() -> (r: Self) {
        crate::fixed_decimal::FixedDecimal::new(i64::MIN)
    }

    fn max_value() -> (r: Self) {
        crate::fixed_decimal::FixedDecimal::new(i64::MAX)
    }
}

} // verus!
