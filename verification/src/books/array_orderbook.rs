//! The bounded book: two sorted `N`-slot buffers, one per side, with the
//! best level of each side cached and a `has_moved` flag raised when a
//! depth removal displaces the cached best.  Insertions that would
//! overflow a side keep its best `N` levels.

use vstd::prelude::*;

use crate::books::interface::OrderBook;
use crate::books::model::{admits, bbo_step, capped, l2_step, next_sequence, positive_sizes,
    side_step, targets_bids, trade_step, valid_event};
use crate::buffers::buffer::{better, find_pos, inner_price, lemma_find_pos, Buffer};
use crate::decimals::fixed_decimal::FixedDecimal;
use crate::event::Event;
use crate::event_kind::EventKind;
use crate::level::Level;
use crate::metrics::{calculate_metrics_internal, metrics_spec, MetricsCalculator,
    OrderbookMetrics};
use crate::side::Side;

verus! {

/// A bounded aggregated book: per-side sorted buffers of capacity `N`,
/// cached bests, the admission watermarks, and the movement flag.
pub struct ArrayOrderbook<const N: usize> {
    /// Cache of the highest-priced bid level.
    pub best_bid: Option<Level>,
    /// Cache of the lowest-priced ask level.
    pub best_ask: Option<Level>,
    /// Bid levels, descending by price.
    pub bids: Buffer<N>,
    /// Ask levels, ascending by price.
    pub asks: Buffer<N>,
    /// High-watermark of accepted event timestamps.
    pub ts: i64,
    /// Last accepted non-zero sequence id, zero before the first.
    pub sequence_id: u64,
    /// Raised when a depth removal displaced a cached best; cleared by
    /// observing either best.
    pub has_moved: bool,
}

impl<const N: usize> ArrayOrderbook<N> {
    /// Well-formed: both buffers sound and side-ordered, every stored
    /// size positive, and each cached best mirroring its side's first
    /// level.
    pub open spec fn wf(&self) -> bool {
        &&& self.bids.wf()
        &&& self.asks.wf()
        &&& self.bids.is_bid()
        &&& !self.asks.is_bid()
        &&& positive_sizes(self.bids.levels())
        &&& positive_sizes(self.asks.levels())
        &&& self.best_bid == (if self.bids.len > 0 {
            Some(self.bids.levels()[0])
        } else {
            Option::<Level>::None
        })
        &&& self.best_ask == (if self.asks.len > 0 {
            Some(self.asks.levels()[0])
        } else {
            Option::<Level>::None
        })
    }

    /// An empty book.
    pub fn new() -> (r: Self)
        ensures
            r.wf(),
            r.bids.levels() =~= Seq::<Level>::empty(),
            r.asks.levels() =~= Seq::<Level>::empty(),
            r.ts == 0,
            r.sequence_id == 0,
            !r.has_moved,
    {
        Self {
            best_bid: None,
            best_ask: None,
            bids: Buffer::new(true),
            asks: Buffer::new(false),
            ts: 0,
            sequence_id: 0,
            has_moved: false,
        }
    }

    /// Consume one event.  Events older than the timestamp watermark,
    /// and sequenced events behind the sequence watermark, are dropped
    /// without a trace; an admitted event advances the watermarks and
    /// applies its kind's step to its own side, truncated to the side's
    /// capacity.
    pub fn process(&mut self, event: Event)
        requires
            old(self).wf(),
            valid_event(event),
        ensures
            final(self).wf(),
            !admits(old(self).ts as int, old(self).sequence_id as int, event) ==> *final(self)
                == *old(self),
            admits(old(self).ts as int, old(self).sequence_id as int, event) ==> {
                &&& final(self).ts == event.timestamp
                &&& final(self).sequence_id as int == next_sequence(
                    old(self).sequence_id as int,
                    event,
                )
                &&& (targets_bids(event) ==> final(self).bids.levels() == capped(
                    side_step(old(self).bids.levels(), event, true),
                    N as int,
                ) && final(self).asks == old(self).asks)
                &&& (!targets_bids(event) ==> final(self).asks.levels() == capped(
                    side_step(old(self).asks.levels(), event, false),
                    N as int,
                ) && final(self).bids == old(self).bids)
                &&& final(self).has_moved == (old(self).has_moved || (event.kind is L2
                    && event.size@ == 0 && {
                    let s = if targets_bids(event) {
                        old(self).bids.levels()
                    } else {
                        old(self).asks.levels()
                    };
                    s.len() > 0 && s[0].price@ == event.price@
                }))
            },
    {
        let ts = event.timestamp;
        if ts < self.ts {
            return;
        }
        if event.sequence_id == 0 || self.sequence_id == 0 || event.sequence_id
            == self.sequence_id || event.sequence_id > self.sequence_id {
            self.ts = ts;
            if event.sequence_id != 0 {
                self.sequence_id = event.sequence_id;
            }
            match event.kind {
                EventKind::Trade => self.process_trade(event),
                EventKind::BBO => self.process_bbo(event),
                EventKind::L2 => self.process_lvl2(event),
            }
        }
    }

    /// Apply a depth update to its side.
    pub fn process_lvl2(&mut self, event: Event)
        requires
            old(self).wf(),
            valid_event(event),
        ensures
            final(self).wf(),
            final(self).ts == old(self).ts,
            final(self).sequence_id == old(self).sequence_id,
            targets_bids(event) ==> final(self).bids.levels() == capped(
                l2_step(old(self).bids.levels(), event.price, event.size, true),
                N as int,
            ) && final(self).asks == old(self).asks,
            !targets_bids(event) ==> final(self).asks.levels() == capped(
                l2_step(old(self).asks.levels(), event.price, event.size, false),
                N as int,
            ) && final(self).bids == old(self).bids,
            final(self).has_moved == (old(self).has_moved || (event.size@ == 0 && {
                let s = if targets_bids(event) {
                    old(self).bids.levels()
                } else {
                    old(self).asks.levels()
                };
                s.len() > 0 && s[0].price@ == event.price@
            })),
    {
        match event.side {
            Side::Buy => {
                Self::apply_l2(
                    &mut self.bids,
                    &mut self.best_bid,
                    &mut self.has_moved,
                    event.price,
                    event.size,
                    true,
                );
            },
            Side::Sell => {
                Self::apply_l2(
                    &mut self.asks,
                    &mut self.best_ask,
                    &mut self.has_moved,
                    event.price,
                    event.size,
                    false,
                );
            },
        }
    }

    /// The depth update against one side's buffer and cached best.
    fn apply_l2(
        buffer: &mut Buffer<N>,
        best_price: &mut Option<Level>,
        has_moved: &mut bool,
        price: FixedDecimal,
        size: FixedDecimal,
        is_bid: bool,
    )
        requires
            old(buffer).wf(),
            positive_sizes(old(buffer).levels()),
            is_bid == old(buffer).is_bid(),
            inner_price(price@),
            size@ >= 0,
            *old(best_price) == (if old(buffer).len > 0 {
                Some(old(buffer).levels()[0])
            } else {
                Option::<Level>::None
            }),
        ensures
            final(buffer).wf(),
            final(buffer).is_bid() == is_bid,
            positive_sizes(final(buffer).levels()),
            final(buffer).levels() == capped(
                l2_step(old(buffer).levels(), price, size, is_bid),
                N as int,
            ),
            *final(best_price) == (if final(buffer).len > 0 {
                Some(final(buffer).levels()[0])
            } else {
                Option::<Level>::None
            }),
            *final(has_moved) == (*old(has_moved) || (size@ == 0 && old(buffer).len > 0 && old(
                buffer,
            ).levels()[0].price@ == price@)),
    {
        let ghost s = buffer.levels();
        proof {
            lemma_find_pos(s, price@, is_bid);
            crate::books::model::lemma_l2_step_wf(s, price, size, is_bid);
        }
        if size.raw_value() == 0 {
            if let Ok(to_remove) = buffer.find_index(price, is_bid) {
                let removed = buffer.remove(to_remove);
                proof {
                    if to_remove > 0 {
                        assert(buffer.levels()[0] == s[0]);
                    }
                }
                if let Some(best) = *best_price {
                    if removed.raw_value() == best.price.raw_value() {
                        *best_price = buffer.first();
                        *has_moved = true;
                    }
                }
            }
            return;
        }
        match buffer.find_index(price, is_bid) {
            Ok(to_modify) => {
                buffer.modify(to_modify, size);
                proof {
                    if to_modify > 0 {
                        assert(buffer.levels()[0] == s[0]);
                    }
                }
                if to_modify == 0 {
                    *best_price = buffer.first();
                }
            },
            Err(to_insert) => {
                proof {
                    let fp = find_pos(s, price@, is_bid);
                    assert(forall|j: int|
                        fp <= j < s.len() ==> better(is_bid, price@, #[trigger] s[j].price@));
                    if to_insert >= N {
                        assert(s.insert(fp, Level { price, size }).take(N as int) =~= s);
                    }
                }
                buffer.insert(to_insert, Level::new(price, size));
                proof {
                    if 0 < to_insert && to_insert < N {
                        assert(buffer.levels()[0] == s.insert(
                            find_pos(s, price@, is_bid),
                            Level { price, size },
                        )[0]);
                    }
                }
                if to_insert == 0 {
                    *best_price = buffer.first();
                }
            },
        }
    }
}

impl<const N: usize> ArrayOrderbook<N> {
    /// Apply a trade to its side: decrement the resting level at the
    /// traded price, removing it when the trade consumes it entirely.
    pub fn process_trade(&mut self, event: Event)
        requires
            old(self).wf(),
            valid_event(event),
        ensures
            final(self).wf(),
            final(self).ts == old(self).ts,
            final(self).sequence_id == old(self).sequence_id,
            final(self).has_moved == old(self).has_moved,
            targets_bids(event) ==> final(self).bids.levels() == trade_step(
                old(self).bids.levels(),
                event.price,
                event.size,
                true,
            ) && final(self).asks == old(self).asks,
            !targets_bids(event) ==> final(self).asks.levels() == trade_step(
                old(self).asks.levels(),
                event.price,
                event.size,
                false,
            ) && final(self).bids == old(self).bids,
    {
        match event.side {
            Side::Buy => {
                Self::apply_trade(&mut self.bids, &mut self.best_bid, event.price, event.size, true);
            },
            Side::Sell => {
                Self::apply_trade(
                    &mut self.asks,
                    &mut self.best_ask,
                    event.price,
                    event.size,
                    false,
                );
            },
        }
    }

    /// The trade against one side's buffer and cached best.
    fn apply_trade(
        buffer: &mut Buffer<N>,
        best_price: &mut Option<Level>,
        price: FixedDecimal,
        size: FixedDecimal,
        is_bid: bool,
    )
        requires
            old(buffer).wf(),
            positive_sizes(old(buffer).levels()),
            is_bid == old(buffer).is_bid(),
            inner_price(price@),
            size@ >= 0,
            *old(best_price) == (if old(buffer).len > 0 {
                Some(old(buffer).levels()[0])
            } else {
                Option::<Level>::None
            }),
        ensures
            final(buffer).wf(),
            final(buffer).is_bid() == is_bid,
            positive_sizes(final(buffer).levels()),
            final(buffer).levels() == trade_step(old(buffer).levels(), price, size, is_bid),
            *final(best_price) == (if final(buffer).len > 0 {
                Some(final(buffer).levels()[0])
            } else {
                Option::<Level>::None
            }),
    {
        let ghost s = buffer.levels();
        proof {
            lemma_find_pos(s, price@, is_bid);
            crate::books::model::lemma_trade_step_wf(s, price, size, is_bid);
        }
        if let Ok(index) = buffer.find_index(price, is_bid) {
            let level = buffer.get(index);
            if size.raw_value() >= level.size.raw_value() {
                let _ = buffer.remove(index);
            } else {
                buffer.modify(index, level.size.sub(size));
            }
            proof {
                if index > 0 {
                    assert(buffer.levels()[0] == s[0]);
                }
            }
            if index == 0 {
                *best_price = buffer.first();
            }
        }
    }

    /// Apply a best-bid/offer quote to its side: sweep away every level
    /// strictly better than the quoted price, then apply the quote.
    pub fn process_bbo(&mut self, event: Event)
        requires
            old(self).wf(),
            valid_event(event),
        ensures
            final(self).wf(),
            final(self).ts == old(self).ts,
            final(self).sequence_id == old(self).sequence_id,
            final(self).has_moved == old(self).has_moved,
            targets_bids(event) ==> final(self).bids.levels() == capped(
                bbo_step(old(self).bids.levels(), event.price, event.size, true),
                N as int,
            ) && final(self).asks == old(self).asks,
            !targets_bids(event) ==> final(self).asks.levels() == capped(
                bbo_step(old(self).asks.levels(), event.price, event.size, false),
                N as int,
            ) && final(self).bids == old(self).bids,
    {
        if event.side.is_buy() {
            Self::apply_bbo(&mut self.bids, &mut self.best_bid, event.price, event.size, true);
        } else {
            Self::apply_bbo(&mut self.asks, &mut self.best_ask, event.price, event.size, false);
        }
    }

    /// True when the side's best level is strictly better than `price`.
    fn beats(buffer: &Buffer<N>, price: FixedDecimal, is_bid: bool) -> (r: bool)
        requires
            buffer.wf(),
            buffer.len > 0,
            is_bid == buffer.is_bid(),
        ensures
            r == better(is_bid, buffer.levels()[0].price@, price@),
    {
        let best = buffer.get(0);
        if is_bid {
            best.price.raw_value() > price.raw_value()
        } else {
            best.price.raw_value() < price.raw_value()
        }
    }

    /// The quote against one side's buffer and cached best.
    #[verifier::loop_isolation(false)]
    fn apply_bbo(
        buffer: &mut Buffer<N>,
        best_price: &mut Option<Level>,
        price: FixedDecimal,
        size: FixedDecimal,
        is_bid: bool,
    )
        requires
            old(buffer).wf(),
            positive_sizes(old(buffer).levels()),
            is_bid == old(buffer).is_bid(),
            inner_price(price@),
            size@ >= 0,
        ensures
            final(buffer).wf(),
            final(buffer).is_bid() == is_bid,
            positive_sizes(final(buffer).levels()),
            final(buffer).levels() == capped(
                bbo_step(old(buffer).levels(), price, size, is_bid),
                N as int,
            ),
            *final(best_price) == (if final(buffer).len > 0 {
                Some(final(buffer).levels()[0])
            } else {
                Option::<Level>::None
            }),
    {
        let ghost s = buffer.levels();
        proof {
            lemma_find_pos(s, price@, is_bid);
        }
        let ghost fp = find_pos(s, price@, is_bid);
        proof {
            assert(s.skip(0) =~= s);
            assert(buffer.levels() == s.skip(0));
        }
        // Sweep: drop the strictly better prefix one level at a time.
        while buffer.len > 0 && Self::beats(buffer, price, is_bid)
            invariant
                buffer.wf(),
                positive_sizes(buffer.levels()),
                buffer.is_bid() == is_bid,
                buffer.limit == old(buffer).limit,
                exists|m: int|
                    0 <= m <= fp && buffer.levels() == #[trigger] s.skip(m) && forall|j: int|
                        0 <= j < m ==> better(is_bid, s[j].price@, price@),
            decreases buffer.len,
        {
            let ghost m = choose|m: int|
                0 <= m <= fp && buffer.levels() == #[trigger] s.skip(m) && forall|j: int|
                    0 <= j < m ==> better(is_bid, s[j].price@, price@);
            let _ = buffer.remove(0);
            proof {
                assert(buffer.levels() =~= s.skip(m + 1));
                assert(better(is_bid, s[m].price@, price@));
                if m + 1 > fp {
                    assert(!better(is_bid, s[fp].price@, price@));
                }
            }
        }
        proof {
            let m = choose|m: int|
                0 <= m <= fp && buffer.levels() == #[trigger] s.skip(m) && forall|j: int|
                    0 <= j < m ==> better(is_bid, s[j].price@, price@);
            if m < fp {
                assert(better(is_bid, s[m].price@, price@));
                assert(buffer.levels()[0] == s[m]);
            }
            assert(buffer.levels() == s.skip(fp));
        }
        let ghost t = buffer.levels();
        proof {
            lemma_find_pos(t, price@, is_bid);
            crate::books::model::lemma_l2_step_wf(t, price, size, is_bid);
        }
        // Quote: apply the price level like a depth update.
        if size.raw_value() == 0 {
            if let Ok(index) = buffer.find_index(price, is_bid) {
                let _ = buffer.remove(index);
            }
        } else {
            match buffer.find_index(price, is_bid) {
                Ok(index) => buffer.modify(index, size),
                Err(index) => {
                    proof {
                        let fpt = find_pos(t, price@, is_bid);
                        assert(forall|j: int|
                            fpt <= j < t.len() ==> better(is_bid, price@, #[trigger] t[j].price@));
                        if index >= N {
                            assert(t.insert(fpt, Level { price, size }).take(N as int) =~= t);
                        }
                    }
                    buffer.insert(index, Level::new(price, size));
                },
            }
        }
        *best_price = buffer.first();
    }
}

impl<const N: usize> ArrayOrderbook<N> {
    /// The cached best bid; observing it clears the movement flag.
    pub fn best_bid(&mut self) -> (r: Option<Level>)
        requires
            old(self).wf(),
        ensures
            *final(self) == (ArrayOrderbook { has_moved: false, ..*old(self) }),
            r == old(self).best_bid,
    {
        self.has_moved = false;
        self.best_bid
    }

    /// The cached best ask; observing it clears the movement flag.
    pub fn best_ask(&mut self) -> (r: Option<Level>)
        requires
            old(self).wf(),
        ensures
            *final(self) == (ArrayOrderbook { has_moved: false, ..*old(self) }),
            r == old(self).best_ask,
    {
        self.has_moved = false;
        self.best_ask
    }

    /// Indicators over the top `depth` levels of each side.
    #[verifier::loop_isolation(false)]
    pub fn calculate_metrics(&self, depth: usize) -> (r: OrderbookMetrics)
        requires
            self.wf(),
        ensures
            ({
                let db = if depth <= self.bids.len {
                    depth as int
                } else {
                    self.bids.len as int
                };
                let da = if depth <= self.asks.len {
                    depth as int
                } else {
                    self.asks.len as int
                };
                r == metrics_spec(
                    self.best_bid,
                    self.best_ask,
                    crate::metrics::sizes_of(self.bids.levels().take(db)),
                    crate::metrics::sizes_of(self.asks.levels().take(da)),
                    crate::metrics::prices_of(self.bids.levels().take(db)),
                    crate::metrics::prices_of(self.asks.levels().take(da)),
                )
            }),
    {
        let mut bid_sizes: Vec<FixedDecimal> = Vec::new();
        let mut ask_sizes: Vec<FixedDecimal> = Vec::new();
        let mut bid_prices: Vec<FixedDecimal> = Vec::new();
        let mut ask_prices: Vec<FixedDecimal> = Vec::new();
        let mut i: usize = 0;
        while i < depth
            invariant
                0 <= i <= depth,
                bid_sizes@.len() == bid_prices@.len(),
                ask_sizes@.len() == ask_prices@.len(),
                bid_sizes@.len() == (if i <= self.bids.len {
                    i as int
                } else {
                    self.bids.len as int
                }),
                ask_sizes@.len() == (if i <= self.asks.len {
                    i as int
                } else {
                    self.asks.len as int
                }),
                forall|k: int|
                    0 <= k < bid_sizes@.len() ==> #[trigger] bid_sizes@[k]
                        == self.bids.levels()[k].size,
                forall|k: int|
                    0 <= k < bid_prices@.len() ==> #[trigger] bid_prices@[k]
                        == self.bids.levels()[k].price,
                forall|k: int|
                    0 <= k < ask_sizes@.len() ==> #[trigger] ask_sizes@[k]
                        == self.asks.levels()[k].size,
                forall|k: int|
                    0 <= k < ask_prices@.len() ==> #[trigger] ask_prices@[k]
                        == self.asks.levels()[k].price,
            decreases depth - i,
        {
            if i < self.bids.len {
                let level = self.bids.get(i);
                bid_sizes.push(level.size);
                bid_prices.push(level.price);
            }
            if i < self.asks.len {
                let level = self.asks.get(i);
                ask_sizes.push(level.size);
                ask_prices.push(level.price);
            }
            i = i + 1;
        }
        proof {
            let db = if depth <= self.bids.len {
                depth as int
            } else {
                self.bids.len as int
            };
            let da = if depth <= self.asks.len {
                depth as int
            } else {
                self.asks.len as int
            };
            assert(bid_sizes@ =~= crate::metrics::sizes_of(self.bids.levels().take(db)));
            assert(bid_prices@ =~= crate::metrics::prices_of(self.bids.levels().take(db)));
            assert(ask_sizes@ =~= crate::metrics::sizes_of(self.asks.levels().take(da)));
            assert(ask_prices@ =~= crate::metrics::prices_of(self.asks.levels().take(da)));
        }
        calculate_metrics_internal(
            self.best_bid,
            self.best_ask,
            bid_sizes,
            ask_sizes,
            bid_prices,
            ask_prices,
        )
    }
}

impl<const N: usize> OrderBook for ArrayOrderbook<N> {
    open spec fn inv(&self) -> bool {
        self.wf()
    }

    open spec fn bids_model(&self) -> Seq<Level> {
        self.bids.levels()
    }

    open spec fn asks_model(&self) -> Seq<Level> {
        self.asks.levels()
    }

    open spec fn ts_model(&self) -> int {
        self.ts as int
    }

    open spec fn sequence_model(&self) -> int {
        self.sequence_id as int
    }

    open spec fn depth_cap(&self) -> int {
        N as int
    }

    fn process(&mut self, event: Event) {
        self.process(event)
    }

    fn best_bid(&mut self) -> (r: Option<Level>) {
        self.best_bid()
    }

    fn best_ask(&mut self) -> (r: Option<Level>) {
        self.best_ask()
    }

    fn calculate_metrics(&self, depth: usize) -> (r: OrderbookMetrics) {
        self.calculate_metrics(depth)
    }
}

impl<const N: usize> MetricsCalculator for ArrayOrderbook<N> {
    fn best_bid(&self) -> Option<Level> {
        self.best_bid
    }

    fn best_ask(&self) -> Option<Level> {
        self.best_ask
    }
}

impl Default for ArrayOrderbook<300> {
    /// An empty book at the default depth.
    fn default() -> (r: Self)
        ensures
            r.wf(),
            r.bids.len == 0,
            r.asks.len == 0,
            r.ts == 0,
            r.sequence_id == 0,
            !r.has_moved,
    {
        Self::new()
    }
}

} // verus!
