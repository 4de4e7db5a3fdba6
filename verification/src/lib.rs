//! Single-instrument aggregated limit-order-book engine.
//!
//! The crate maintains per-price bid and ask depth for one instrument while
//! consuming a stream of market-data events (L2 depth updates, trades and
//! best-bid/offer sweeps) gated by a timestamp and a monotonic sequence id.
//! Prices and sizes are fixed-point decimals backed by a signed 64-bit raw
//! value; two book representations are provided, a bounded sorted array and
//! an unbounded ordered level list, which agree level-for-level on any
//! stream that stays within the array's capacity.

pub mod books;
pub mod buffers;
pub mod decimals;
pub mod fixed_decimal;
pub mod side;
pub mod event_kind;
pub mod level;
pub mod event;
pub mod metrics;
