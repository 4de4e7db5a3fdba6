use vstd::prelude::*;

verus! {

/// The three kinds of market-data events the book consumes.
#[derive(Debug, Clone, Copy, PartialEq, Eq, Structural)]
pub enum EventKind {
    /// A trade that consumes resting liquidity at one price.
    Trade,
    /// A best-bid/offer quote that sweeps stale better-priced levels.
    BBO,
    /// A level-2 depth update replacing the size at one price.
    L2,
}

} // verus!
