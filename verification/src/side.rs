use vstd::prelude::*;

verus! {

/// The side of the book an event targets: `Buy` updates bids, `Sell` asks.
#[derive(Debug, Clone, Copy, PartialEq, Eq, Structural)]
pub enum Side {
    Buy,
    Sell,
}

impl Side {
    /// The other side of the book.
    pub fn opposite(self) -> (r: Self)
        ensures
            r == (if self is Buy {
                Side::Sell
            } else {
                Side::Buy
            }),
    {
        match self {
            Self::Buy => Self::Sell,
            Self::Sell => Self::Buy,
        }
    }

    /// True exactly for the `Buy` side.
    pub fn is_buy(self) -> (r: bool)
        ensures
            r == (self is Buy),
    {
        matches!(self, Self::Buy)
    }
}

} // verus!
