//! Microstructure indicators derived from the top of the book: mid
//! price, notional imbalance, spread, and simple price-impact figures,
//! all computed in the book's fixed-point arithmetic.

use vstd::prelude::*;

use crate::decimals::fixed_decimal::{d_add, d_div, d_mul, d_sub, FixedDecimal, SCALE_FACTOR};
use crate::level::Level;

verus! {

/// The indicator bundle produced by a metrics pass.
#[derive(Debug, Clone, Copy, PartialEq, Eq, Structural)]
pub struct OrderbookMetrics {
    /// Signed notional imbalance in the observed window, bids positive.
    pub quote_imbalance: FixedDecimal,
    /// Midpoint of the best bid and ask prices.
    pub mid_price: FixedDecimal,
    /// Absolute spread: best ask price minus best bid price.
    pub spread: FixedDecimal,
    /// The spread as a percentage of the mid price.
    pub spread_percentage: FixedDecimal,
    /// Estimated percentage impact of a market buy through the window.
    pub price_impact_buy: FixedDecimal,
    /// Estimated percentage impact of a market sell through the window.
    pub price_impact_sell: FixedDecimal,
}

/// The size column of a run of levels.
pub open spec fn sizes_of(s: Seq<Level>) -> Seq<FixedDecimal> {
    s.map_values(|l: Level| l.size)
}

/// The price column of a run of levels.
pub open spec fn prices_of(s: Seq<Level>) -> Seq<FixedDecimal> {
    s.map_values(|l: Level| l.price)
}

/// Total notional of the first `n` entries: the left-to-right saturating
/// sum of `size * price`.
pub open spec fn notional(sizes: Seq<FixedDecimal>, prices: Seq<FixedDecimal>, n: int) -> int
    decreases n,
{
    if n <= 0 {
        0
    } else {
        d_add(notional(sizes, prices, n - 1), d_mul(sizes[n - 1]@, prices[n - 1]@))
    }
}

/// The mid price: the average of the two best prices, zero when either
/// side is absent.
pub open spec fn mid_of(best_bid: Option<Level>, best_ask: Option<Level>) -> int {
    match (best_bid, best_ask) {
        (Some(b), Some(a)) => d_div(d_add(b.price@, a.price@), 2 * SCALE_FACTOR),
        _ => 0,
    }
}

/// The spread: best ask price minus best bid price, zero when either
/// side is absent.
pub open spec fn spread_of(best_bid: Option<Level>, best_ask: Option<Level>) -> int {
    match (best_bid, best_ask) {
        (Some(b), Some(a)) => d_sub(a.price@, b.price@),
        _ => 0,
    }
}

/// Everything [`calculate_metrics_internal`] returns, from the cached
/// bests and the four collected columns.
pub open spec fn metrics_spec(
    best_bid: Option<Level>,
    best_ask: Option<Level>,
    bid_sizes: Seq<FixedDecimal>,
    ask_sizes: Seq<FixedDecimal>,
    bid_prices: Seq<FixedDecimal>,
    ask_prices: Seq<FixedDecimal>,
) -> OrderbookMetrics {
    let mid = mid_of(best_bid, best_ask);
    let bid_value = notional(bid_sizes, bid_prices, bid_sizes.len() as int);
    let ask_value = notional(ask_sizes, ask_prices, ask_sizes.len() as int);
    let total = d_add(bid_value, ask_value);
    let spread = spread_of(best_bid, best_ask);
    OrderbookMetrics {
        quote_imbalance: FixedDecimal {
            raw: (if total > 0 {
                d_div(d_sub(bid_value, ask_value), total)
            } else {
                0
            }) as i64,
        },
        mid_price: FixedDecimal { raw: mid as i64 },
        spread: FixedDecimal { raw: spread as i64 },
        spread_percentage: FixedDecimal {
            raw: (if mid > 0 {
                d_mul(d_div(spread, mid), 100 * SCALE_FACTOR)
            } else {
                0
            }) as i64,
        },
        price_impact_buy: FixedDecimal {
            raw: (if ask_prices.len() > 0 && mid > 0 {
                d_mul(d_div(d_sub(ask_prices.last()@, mid), mid), 100 * SCALE_FACTOR)
            } else {
                0
            }) as i64,
        },
        price_impact_sell: FixedDecimal {
            raw: (if bid_prices.len() > 0 && mid > 0 {
                d_mul(d_div(d_sub(mid, bid_prices.last()@), mid), 100 * SCALE_FACTOR)
            } else {
                0
            }) as i64,
        },
    }
}

/// Fold the four collected columns and the cached bests into the
/// indicator bundle; shared by every book representation.
#[verifier::loop_isolation(false)]
pub fn calculate_metrics_internal(
    best_bid: Option<Level>,
    best_ask: Option<Level>,
    bid_sizes: Vec<FixedDecimal>,
    ask_sizes: Vec<FixedDecimal>,
    bid_prices: Vec<FixedDecimal>,
    ask_prices: Vec<FixedDecimal>,
) -> (r: OrderbookMetrics)
    requires
        bid_sizes@.len() == bid_prices@.len(),
        ask_sizes@.len() == ask_prices@.len(),
    ensures
        r == metrics_spec(best_bid, best_ask, bid_sizes@, ask_sizes@, bid_prices@, ask_prices@),
{
    let mid_price = match (best_bid, best_ask) {
        (Some(b), Some(a)) => b.price.add(a.price).div(FixedDecimal::two()),
        _ => FixedDecimal::zero(),
    };
    let bid_value = notional_sum(&bid_sizes, &bid_prices);
    let ask_value = notional_sum(&ask_sizes, &ask_prices);
    let total_value = bid_value.add(ask_value);
    let quote_imbalance = if total_value.raw_value() > 0 {
        bid_value.sub(ask_value).div(total_value)
    } else {
        FixedDecimal::zero()
    };
    let spread = match (best_bid, best_ask) {
        (Some(b), Some(a)) => a.price.sub(b.price),
        _ => FixedDecimal::zero(),
    };
    let spread_percentage = if mid_price.raw_value() > 0 {
        spread.div(mid_price).mul(FixedDecimal::one_hundred())
    } else {
        FixedDecimal::zero()
    };
    let price_impact_buy = if ask_prices.len() > 0 && mid_price.raw_value() > 0 {
        ask_prices[ask_prices.len() - 1].sub(mid_price).div(mid_price).mul(
            FixedDecimal::one_hundred(),
        )
    } else {
        FixedDecimal::zero()
    };
    let price_impact_sell = if bid_prices.len() > 0 && mid_price.raw_value() > 0 {
        mid_price.sub(bid_prices[bid_prices.len() - 1]).div(mid_price).mul(
            FixedDecimal::one_hundred(),
        )
    } else {
        FixedDecimal::zero()
    };
    OrderbookMetrics {
        quote_imbalance,
        mid_price,
        spread,
        spread_percentage,
        price_impact_buy,
        price_impact_sell,
    }
}

/// The saturating sum of `size * price` over two equal-length columns.
#[verifier::loop_isolation(false)]
fn notional_sum(sizes: &Vec<FixedDecimal>, prices: &Vec<FixedDecimal>) -> (r: FixedDecimal)
    requires
        sizes@.len() == prices@.len(),
    ensures
        r@ == notional(sizes@, prices@, sizes@.len() as int),
{
    let mut acc = FixedDecimal::zero();
    let mut i: usize = 0;
    while i < sizes.len()
        invariant
            0 <= i <= sizes@.len(),
            acc@ == notional(sizes@, prices@, i as int),
        decreases sizes@.len() - i,
    {
        acc = acc.add(sizes[i].mul(prices[i]));
        i = i + 1;
    }
    acc
}

/// The shared metrics pass over a book's cached bests: implementors
/// supply the bests, the provided fold does the rest.
pub trait MetricsCalculator {
    /// The cached best bid.
    fn best_bid(&self) -> Option<Level>;

    /// The cached best ask.
    fn best_ask(&self) -> Option<Level>;

    /// Fold the four collected columns against this book's bests.
    fn calculate_metrics_internal(
        &self,
        bid_sizes: Vec<FixedDecimal>,
        ask_sizes: Vec<FixedDecimal>,
        bid_prices: Vec<FixedDecimal>,
        ask_prices: Vec<FixedDecimal>,
    ) -> OrderbookMetrics
        requires
            bid_sizes@.len() == bid_prices@.len(),
            ask_sizes@.len() == ask_prices@.len(),
    {
        calculate_metrics_internal(
            self.best_bid(),
            self.best_ask(),
            bid_sizes,
            ask_sizes,
            bid_prices,
            ask_prices,
        )
    }
}

} // verus!
