//! The unbounded book: each side is an ordered level list keyed by
//! price, kept best first, with the best level of each side cached.  It
//! follows the same admission rule and event steps as the bounded book
//! and never drops depth, which is what the behavioural-equivalence law
//! in [`crate::books::laws`] is about.

use vstd::prelude::*;

use crate::books::interface::OrderBook;
use crate::books::model::{admits, bbo_step, l2_step, next_sequence, positive_sizes, side_step,
    targets_bids, trade_step, valid_event};
use crate::buffers::buffer::{better, find_pos, has_price, inner_price, lemma_find_pos,
    sorted_levels};
use crate::decimals::fixed_decimal::FixedDecimal;
use crate::event::Event;
use crate::event_kind::EventKind;
use crate::level::Level;
use crate::metrics::{calculate_metrics_internal, metrics_spec, MetricsCalculator,
    OrderbookMetrics};
use crate::side::Side;

verus! {

/// An unbounded aggregated book: per-side ordered level lists, cached
/// bests, and the admission watermarks.
pub struct BTreeOrderBook {
    /// Cache of the highest-priced bid level.
    pub best_bid: Option<Level>,
    /// Cache of the lowest-priced ask level.
    pub best_ask: Option<Level>,
    /// Bid levels, descending by price.
    pub bids: Vec<Level>,
    /// Ask levels, ascending by price.
    pub asks: Vec<Level>,
    /// High-watermark of accepted event timestamps.
    pub ts: i64,
    /// Last accepted non-zero sequence id, zero before the first.
    pub sequence_id: u64,
}

impl BTreeOrderBook {
    /// Well-formed: both sides sorted best first with inner prices and
    /// positive sizes, and each cached best mirroring its side's first
    /// level.
    pub open spec fn wf(&self) -> bool {
        &&& sorted_levels(self.bids@, true)
        &&& sorted_levels(self.asks@, false)
        &&& positive_sizes(self.bids@)
        &&& positive_sizes(self.asks@)
        &&& self.best_bid == (if self.bids@.len() > 0 {
            Some(self.bids@[0])
        } else {
            Option::<Level>::None
        })
        &&& self.best_ask == (if self.asks@.len() > 0 {
            Some(self.asks@[0])
        } else {
            Option::<Level>::None
        })
    }

    /// An empty book.
    pub fn new() -> (r: Self)
        ensures
            r.wf(),
            r.bids@ =~= Seq::<Level>::empty(),
            r.asks@ =~= Seq::<Level>::empty(),
            r.ts == 0,
            r.sequence_id == 0,
    {
        Self {
            best_bid: None,
            best_ask: None,
            bids: Vec::new(),
            asks: Vec::new(),
            ts: 0,
            sequence_id: 0,
        }
    }

    /// Consume one event, with the same admission rule and event steps
    /// as the bounded book but no depth cap.
    pub fn process(&mut self, event: Event)
        requires
            old(self).wf(),
            valid_event(event),
        ensures
            final(self).wf(),
            !admits(old(self).ts as int, old(self).sequence_id as int, event) ==> *final(self)
                == *old(self),
            admits(old(self).ts as int, old(self).sequence_id as int, event) ==> {
                &&& final(self).ts == event.timestamp
                &&& final(self).sequence_id as int == next_sequence(
                    old(self).sequence_id as int,
                    event,
                )
                &&& (targets_bids(event) ==> final(self).bids@ == side_step(
                    old(self).bids@,
                    event,
                    true,
                ) && final(self).asks == old(self).asks)
                &&& (!targets_bids(event) ==> final(self).asks@ == side_step(
                    old(self).asks@,
                    event,
                    false,
                ) && final(self).bids == old(self).bids)
            },
    {
        let ts = event.timestamp;
        if ts < self.ts {
            return;
        }
        if event.sequence_id == 0 || self.sequence_id == 0 || event.sequence_id
            == self.sequence_id || event.sequence_id > self.sequence_id {
            self.ts = ts;
            if event.sequence_id != 0 {
                self.sequence_id = event.sequence_id;
            }
            match event.kind {
                EventKind::Trade => self.process_trade(event),
                EventKind::BBO => self.process_bbo(event),
                EventKind::L2 => self.process_l2(event),
            }
        }
    }

    /// Apply a depth update to its side.
    pub fn process_l2(&mut self, event: Event)
        requires
            old(self).wf(),
            valid_event(event),
        ensures
            final(self).wf(),
            final(self).ts == old(self).ts,
            final(self).sequence_id == old(self).sequence_id,
            targets_bids(event) ==> final(self).bids@ == l2_step(
                old(self).bids@,
                event.price,
                event.size,
                true,
            ) && final(self).asks == old(self).asks,
            !targets_bids(event) ==> final(self).asks@ == l2_step(
                old(self).asks@,
                event.price,
                event.size,
                false,
            ) && final(self).bids == old(self).bids,
    {
        match event.side {
            Side::Buy => {
                Self::side_l2(&mut self.bids, &mut self.best_bid, event.price, event.size, true);
            },
            Side::Sell => {
                Self::side_l2(&mut self.asks, &mut self.best_ask, event.price, event.size, false);
            },
        }
    }

    /// The depth update against one side's list and cached best.
    fn side_l2(
        side: &mut Vec<Level>,
        best_price: &mut Option<Level>,
        price: FixedDecimal,
        size: FixedDecimal,
        is_bid: bool,
    )
        requires
            sorted_levels(old(side)@, is_bid),
            positive_sizes(old(side)@),
            inner_price(price@),
            size@ >= 0,
        ensures
            sorted_levels(final(side)@, is_bid),
            positive_sizes(final(side)@),
            final(side)@ == l2_step(old(side)@, price, size, is_bid),
            *final(best_price) == (if final(side)@.len() > 0 {
                Some(final(side)@[0])
            } else {
                Option::<Level>::None
            }),
    {
        let ghost s = side@;
        proof {
            lemma_find_pos(s, price@, is_bid);
            crate::books::model::lemma_l2_step_wf(s, price, size, is_bid);
        }
        match Self::locate(side, price, is_bid) {
            Ok(i) => {
                if size.raw_value() == 0 {
                    let _ = side.remove(i);
                } else {
                    let price_kept = side[i].price;
                    let slot = vstd::std_specs::vec::vec_index_mut(side, i);
                    *slot = Level { price: price_kept, size };
                }
            },
            Err(i) => {
                if size.raw_value() != 0 {
                    proof {
                        let fp = find_pos(s, price@, is_bid);
                        assert(forall|j: int|
                            fp <= j < s.len() ==> better(is_bid, price@, #[trigger] s[j].price@));
                    }
                    side.insert(i, Level::new(price, size));
                }
            },
        }
        *best_price = Self::first_of(side);
    }

    /// Apply a trade to its side.
    pub fn process_trade(&mut self, event: Event)
        requires
            old(self).wf(),
            valid_event(event),
        ensures
            final(self).wf(),
            final(self).ts == old(self).ts,
            final(self).sequence_id == old(self).sequence_id,
            targets_bids(event) ==> final(self).bids@ == trade_step(
                old(self).bids@,
                event.price,
                event.size,
                true,
            ) && final(self).asks == old(self).asks,
            !targets_bids(event) ==> final(self).asks@ == trade_step(
                old(self).asks@,
                event.price,
                event.size,
                false,
            ) && final(self).bids == old(self).bids,
    {
        match event.side {
            Side::Buy => {
                Self::side_trade(&mut self.bids, &mut self.best_bid, event.price, event.size, true);
            },
            Side::Sell => {
                Self::side_trade(
                    &mut self.asks,
                    &mut self.best_ask,
                    event.price,
                    event.size,
                    false,
                );
            },
        }
    }

    /// The trade against one side's list and cached best.
    fn side_trade(
        side: &mut Vec<Level>,
        best_price: &mut Option<Level>,
        price: FixedDecimal,
        size: FixedDecimal,
        is_bid: bool,
    )
        requires
            sorted_levels(old(side)@, is_bid),
            positive_sizes(old(side)@),
            inner_price(price@),
            size@ >= 0,
        ensures
            sorted_levels(final(side)@, is_bid),
            positive_sizes(final(side)@),
            final(side)@ == trade_step(old(side)@, price, size, is_bid),
            *final(best_price) == (if final(side)@.len() > 0 {
                Some(final(side)@[0])
            } else {
                Option::<Level>::None
            }),
    {
        let ghost s = side@;
        proof {
            lemma_find_pos(s, price@, is_bid);
            crate::books::model::lemma_trade_step_wf(s, price, size, is_bid);
        }
        if let Ok(i) = Self::locate(side, price, is_bid) {
            let level = side[i];
            if size.raw_value() >= level.size.raw_value() {
                let _ = side.remove(i);
            } else {
                let slot = vstd::std_specs::vec::vec_index_mut(side, i);
                *slot = Level { price: level.price, size: level.size.sub(size) };
            }
        }
        *best_price = Self::first_of(side);
    }

    /// Apply a best-bid/offer quote to its side: sweep away every level
    /// strictly better than the quoted price, then apply the quote.
    pub fn process_bbo(&mut self, event: Event)
        requires
            old(self).wf(),
            valid_event(event),
        ensures
            final(self).wf(),
            final(self).ts == old(self).ts,
            final(self).sequence_id == old(self).sequence_id,
            targets_bids(event) ==> final(self).bids@ == bbo_step(
                old(self).bids@,
                event.price,
                event.size,
                true,
            ) && final(self).asks == old(self).asks,
            !targets_bids(event) ==> final(self).asks@ == bbo_step(
                old(self).asks@,
                event.price,
                event.size,
                false,
            ) && final(self).bids == old(self).bids,
    {
        match event.side {
            Side::Buy => {
                Self::side_bbo(&mut self.bids, &mut self.best_bid, event.price, event.size, true);
            },
            Side::Sell => {
                Self::side_bbo(&mut self.asks, &mut self.best_ask, event.price, event.size, false);
            },
        }
    }

    /// The sweep and quote against one side's list and cached best.
    #[verifier::loop_isolation(false)]
    fn side_bbo(
        side: &mut Vec<Level>,
        best_price: &mut Option<Level>,
        price: FixedDecimal,
        size: FixedDecimal,
        is_bid: bool,
    )
        requires
            sorted_levels(old(side)@, is_bid),
            positive_sizes(old(side)@),
            inner_price(price@),
            size@ >= 0,
        ensures
            sorted_levels(final(side)@, is_bid),
            positive_sizes(final(side)@),
            final(side)@ == bbo_step(old(side)@, price, size, is_bid),
            *final(best_price) == (if final(side)@.len() > 0 {
                Some(final(side)@[0])
            } else {
                Option::<Level>::None
            }),
    {
        let ghost s = side@;
        proof {
            lemma_find_pos(s, price@, is_bid);
        }
        let ghost fp = find_pos(s, price@, is_bid);
        proof {
            assert(s.skip(0) =~= s);
        }
        let mut swept: usize = 0;
        while swept < side.len() && Self::level_beats(side, swept, price, is_bid)
            invariant
                0 <= swept <= fp,
                side@ == s,
                forall|j: int| 0 <= j < swept ==> better(is_bid, #[trigger] s[j].price@, price@),
            decreases side@.len() - swept,
        {
            proof {
                if swept + 1 > fp {
                    assert(!better(is_bid, s[fp].price@, price@));
                }
            }
            swept = swept + 1;
        }
        proof {
            if swept < fp {
                assert(better(is_bid, s[swept as int].price@, price@));
            }
            assert(swept == fp);
        }
        // Drop the strictly better prefix in one block.
        let mut kept: Vec<Level> = Vec::new();
        let mut i: usize = swept;
        while i < side.len()
            invariant
                swept <= i <= side@.len(),
                side@ == s,
                kept@ =~= s.subrange(swept as int, i as int),
            decreases side@.len() - i,
        {
            kept.push(side[i]);
            i = i + 1;
        }
        proof {
            assert(kept@ =~= s.skip(fp));
        }
        let ghost t = s.skip(fp);
        proof {
            assert(sorted_levels(t, is_bid) && positive_sizes(t)) by {
                assert(forall|k: int| 0 <= k < t.len() ==> t[k] == s[k + fp]);
            }
            lemma_find_pos(t, price@, is_bid);
            crate::books::model::lemma_l2_step_wf(t, price, size, is_bid);
        }
        *side = kept;
        match Self::locate(side, price, is_bid) {
            Ok(i) => {
                if size.raw_value() == 0 {
                    let _ = side.remove(i);
                } else {
                    let price_kept = side[i].price;
                    let slot = vstd::std_specs::vec::vec_index_mut(side, i);
                    *slot = Level { price: price_kept, size };
                }
            },
            Err(i) => {
                if size.raw_value() != 0 {
                    proof {
                        let fpt = find_pos(t, price@, is_bid);
                        assert(forall|j: int|
                            fpt <= j < t.len() ==> better(is_bid, price@, #[trigger] t[j].price@));
                    }
                    side.insert(i, Level::new(price, size));
                }
            },
        }
        *best_price = Self::first_of(side);
    }

    /// True when the level in slot `i` is strictly better than `price`.
    fn level_beats(side: &Vec<Level>, i: usize, price: FixedDecimal, is_bid: bool) -> (r: bool)
        requires
            i < side@.len(),
        ensures
            r == better(is_bid, side@[i as int].price@, price@),
    {
        let l = side[i];
        if is_bid {
            l.price.raw_value() > price.raw_value()
        } else {
            l.price.raw_value() < price.raw_value()
        }
    }

    /// The first (best) level of a side, if any.
    fn first_of(side: &Vec<Level>) -> (r: Option<Level>)
        ensures
            r == (if side@.len() > 0 {
                Some(side@[0])
            } else {
                Option::<Level>::None
            }),
    {
        if side.len() > 0 {
            Some(side[0])
        } else {
            None
        }
    }

    /// Locate `price` in a sorted side by scanning from the best level:
    /// `Ok(i)` when slot `i` holds it, else `Err(i)` with its insertion
    /// index.
    #[verifier::loop_isolation(false)]
    fn locate(side: &Vec<Level>, price: FixedDecimal, is_bid: bool) -> (r: Result<usize, usize>)
        requires
            sorted_levels(side@, is_bid),
        ensures
            ({
                let s = side@;
                let fp = find_pos(s, price@, is_bid);
                match r {
                    Ok(i) => i as int == fp && i < s.len() && s[i as int].price@ == price@,
                    Err(i) => i as int == fp && !has_price(s, price@),
                }
            }),
    {
        proof {
            lemma_find_pos(side@, price@, is_bid);
        }
        let ghost s = side@;
        let ghost fp = find_pos(s, price@, is_bid);
        let mut i: usize = 0;
        while i < side.len() && Self::level_beats(side, i, price, is_bid)
            invariant
                0 <= i <= fp,
                forall|j: int| 0 <= j < i ==> better(is_bid, #[trigger] s[j].price@, price@),
            decreases side@.len() - i,
        {
            proof {
                if i + 1 > fp {
                    assert(!better(is_bid, s[fp].price@, price@));
                }
            }
            i = i + 1;
        }
        proof {
            if i < fp {
                assert(better(is_bid, s[i as int].price@, price@));
            }
            assert(i == fp);
        }
        if i < side.len() {
            let l = side[i];
            if l.price.raw_value() == price.raw_value() {
                return Ok(i);
            }
        }
        proof {
            if has_price(s, price@) {
                assert(s[fp].price@ == price@);
            }
        }
        Err(i)
    }

    /// The current best bid.
    pub fn best_bid(&mut self) -> (r: Option<Level>)
        requires
            old(self).wf(),
        ensures
            *final(self) == *old(self),
            r == old(self).best_bid,
    {
        self.best_bid
    }

    /// The current best ask.
    pub fn best_ask(&mut self) -> (r: Option<Level>)
        requires
            old(self).wf(),
        ensures
            *final(self) == *old(self),
            r == old(self).best_ask,
    {
        self.best_ask
    }

    /// Indicators over the top `depth` levels of each side.
    #[verifier::loop_isolation(false)]
    pub fn calculate_metrics(&self, depth: usize) -> (r: OrderbookMetrics)
        requires
            self.wf(),
        ensures
            ({
                let db = if depth <= self.bids@.len() {
                    depth as int
                } else {
                    self.bids@.len() as int
                };
                let da = if depth <= self.asks@.len() {
                    depth as int
                } else {
                    self.asks@.len() as int
                };
                r == metrics_spec(
                    self.best_bid,
                    self.best_ask,
                    crate::metrics::sizes_of(self.bids@.take(db)),
                    crate::metrics::sizes_of(self.asks@.take(da)),
                    crate::metrics::prices_of(self.bids@.take(db)),
                    crate::metrics::prices_of(self.asks@.take(da)),
                )
            }),
    {
        let mut bid_sizes: Vec<FixedDecimal> = Vec::new();
        let mut ask_sizes: Vec<FixedDecimal> = Vec::new();
        let mut bid_prices: Vec<FixedDecimal> = Vec::new();
        let mut ask_prices: Vec<FixedDecimal> = Vec::new();
        let mut i: usize = 0;
        while i < depth
            invariant
                0 <= i <= depth,
                bid_sizes@.len() == bid_prices@.len(),
                ask_sizes@.len() == ask_prices@.len(),
                bid_sizes@.len() == (if i <= self.bids@.len() {
                    i as int
                } else {
                    self.bids@.len() as int
                }),
                ask_sizes@.len() == (if i <= self.asks@.len() {
                    i as int
                } else {
                    self.asks@.len() as int
                }),
                forall|k: int|
                    0 <= k < bid_sizes@.len() ==> #[trigger] bid_sizes@[k] == self.bids@[k].size,
                forall|k: int|
                    0 <= k < bid_prices@.len() ==> #[trigger] bid_prices@[k] == self.bids@[k].price,
                forall|k: int|
                    0 <= k < ask_sizes@.len() ==> #[trigger] ask_sizes@[k] == self.asks@[k].size,
                forall|k: int|
                    0 <= k < ask_prices@.len() ==> #[trigger] ask_prices@[k] == self.asks@[k].price,
            decreases depth - i,
        {
            if i < self.bids.len() {
                let level = self.bids[i];
                bid_sizes.push(level.size);
                bid_prices.push(level.price);
            }
            if i < self.asks.len() {
                let level = self.asks[i];
                ask_sizes.push(level.size);
                ask_prices.push(level.price);
            }
            i = i + 1;
        }
        proof {
            let db = if depth <= self.bids@.len() {
                depth as int
            } else {
                self.bids@.len() as int
            };
            let da = if depth <= self.asks@.len() {
                depth as int
            } else {
                self.asks@.len() as int
            };
            assert(bid_sizes@ =~= crate::metrics::sizes_of(self.bids@.take(db)));
            assert(bid_prices@ =~= crate::metrics::prices_of(self.bids@.take(db)));
            assert(ask_sizes@ =~= crate::metrics::sizes_of(self.asks@.take(da)));
            assert(ask_prices@ =~= crate::metrics::prices_of(self.asks@.take(da)));
        }
        calculate_metrics_internal(
            self.best_bid,
            self.best_ask,
            bid_sizes,
            ask_sizes,
            bid_prices,
            ask_prices,
        )
    }
}

impl OrderBook for BTreeOrderBook {
    open spec fn inv(&self) -> bool {
        self.wf()
    }

    open spec fn bids_model(&self) -> Seq<Level> {
        self.bids@
    }

    open spec fn asks_model(&self) -> Seq<Level> {
        self.asks@
    }

    open spec fn ts_model(&self) -> int {
        self.ts as int
    }

    open spec fn sequence_model(&self) -> int {
        self.sequence_id as int
    }

    open spec fn depth_cap(&self) -> int {
        usize::MAX as int
    }

    fn process(&mut self, event: Event) {
        self.process(event);
        proof {
            // A level list is a real vector, so its length is in `usize`
            // range and the capacity cap never truncates it.
            vstd::std_specs::vec::axiom_spec_len(&self.bids);
            vstd::std_specs::vec::axiom_spec_len(&self.asks);
        }
    }

    fn best_bid(&mut self) -> (r: Option<Level>) {
        self.best_bid()
    }

    fn best_ask(&mut self) -> (r: Option<Level>) {
        self.best_ask()
    }

    fn calculate_metrics(&self, depth: usize) -> (r: OrderbookMetrics) {
        self.calculate_metrics(depth)
    }
}

impl MetricsCalculator for BTreeOrderBook {
    fn best_bid(&self) -> Option<Level> {
        self.best_bid
    }

    fn best_ask(&self) -> Option<Level> {
        self.best_ask
    }
}

impl Default for BTreeOrderBook {
    /// An empty book.
    fn default() -> (r: Self)
        ensures
            r.wf(),
            r.bids@.len() == 0,
            r.asks@.len() == 0,
            r.ts == 0,
            r.sequence_id == 0,
    {
        Self::new()
    }
}

} // verus!
