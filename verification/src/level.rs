use vstd::prelude::*;

use crate::decimals::fixed_decimal::FixedDecimal;

verus! {

/// One aggregated price level: the total resting size at one price.
#[derive(Debug, Clone, Copy, PartialEq, Eq, Structural)]
pub struct Level {
    pub price: FixedDecimal,
    pub size: FixedDecimal,
}

/// The sentinel level that pads unused buffer slots of one side: the
/// least representable price for bids, the greatest for asks, size zero.
pub open spec fn bound_level(is_min: bool) -> Level {
    Level {
        price: FixedDecimal {
            raw: if is_min {
                i64::MIN
            } else {
                i64::MAX
            },
        },
        size: FixedDecimal { raw: 0 },
    }
}

impl Level {
    /// A level at `price` with `size` resting.
    pub fn new(price: FixedDecimal, size: FixedDecimal) -> (r: Self)
        ensures
            r.price@ == price@,
            r.size@ == size@,
    {
        Self { price, size }
    }

    /// The sentinel level that pads unused buffer slots: the least
    /// representable price for the bid side (`is_min`), the greatest for
    /// the ask side, with size zero.
    pub fn bound(is_min: bool) -> (r: Self)
        ensures
            r == bound_level(is_min),
    {
        Self {
            price: if is_min {
                FixedDecimal::min_value()
            } else {
                FixedDecimal::max_value()
            },
            size: FixedDecimal::zero(),
        }
    }

    /// True when the level carries a positive price.
    pub fn is_valid(&self) -> (r: bool)
        ensures
            r == (self.price@ > 0),
    {
        !self.price.is_negative() && !(self.price.raw_value() == 0)
    }
}

} // verus!
