//! The shared order-book interface, specified against a common model:
//! each implementation exposes its two sides as level sequences, its
//! watermarks, and its depth capacity, and every method's behaviour is
//! stated over that model.  The unbounded book reports the largest
//! representable capacity, which no real level list reaches.

use vstd::prelude::*;

use crate::books::model::{admits, capped, next_sequence, side_step, targets_bids, valid_event};
use crate::event::Event;
use crate::level::Level;
use crate::metrics::{metrics_spec, prices_of, sizes_of, OrderbookMetrics};

verus! {

/// A single-instrument aggregated book consuming the event stream.
pub trait OrderBook {
    /// The implementation's well-formedness invariant.
    spec fn inv(&self) -> bool;

    /// The bid side, best (highest price) first.
    spec fn bids_model(&self) -> Seq<Level>;

    /// The ask side, best (lowest price) first.
    spec fn asks_model(&self) -> Seq<Level>;

    /// The timestamp high-watermark.
    spec fn ts_model(&self) -> int;

    /// The sequence watermark.
    spec fn sequence_model(&self) -> int;

    /// How many levels a side can hold.
    spec fn depth_cap(&self) -> int;

    /// Consume one event: drop it when the admission rule refuses it,
    /// otherwise advance the watermarks and apply the event's step to
    /// its own side, truncated to the book's capacity.
    fn process(&mut self, event: Event)
        requires
            old(self).inv(),
            valid_event(event),
        ensures
            final(self).inv(),
            final(self).depth_cap() == old(self).depth_cap(),
            !admits(old(self).ts_model(), old(self).sequence_model(), event) ==> {
                &&& final(self).bids_model() == old(self).bids_model()
                &&& final(self).asks_model() == old(self).asks_model()
                &&& final(self).ts_model() == old(self).ts_model()
                &&& final(self).sequence_model() == old(self).sequence_model()
            },
            admits(old(self).ts_model(), old(self).sequence_model(), event) ==> {
                &&& final(self).ts_model() == event.timestamp as int
                &&& final(self).sequence_model() == next_sequence(
                    old(self).sequence_model(),
                    event,
                )
                &&& (targets_bids(event) ==> final(self).bids_model() == capped(
                    side_step(old(self).bids_model(), event, true),
                    old(self).depth_cap(),
                ) && final(self).asks_model() == old(self).asks_model())
                &&& (!targets_bids(event) ==> final(self).asks_model() == capped(
                    side_step(old(self).asks_model(), event, false),
                    old(self).depth_cap(),
                ) && final(self).bids_model() == old(self).bids_model())
            },
    ;

    /// The current best bid: the first bid level, if any.
    fn best_bid(&mut self) -> (r: Option<Level>)
        requires
            old(self).inv(),
        ensures
            final(self).inv(),
            final(self).bids_model() == old(self).bids_model(),
            final(self).asks_model() == old(self).asks_model(),
            final(self).ts_model() == old(self).ts_model(),
            final(self).sequence_model() == old(self).sequence_model(),
            final(self).depth_cap() == old(self).depth_cap(),
            r == (if old(self).bids_model().len() > 0 {
                Some(old(self).bids_model()[0])
            } else {
                Option::<Level>::None
            }),
    ;

    /// The current best ask: the first ask level, if any.
    fn best_ask(&mut self) -> (r: Option<Level>)
        requires
            old(self).inv(),
        ensures
            final(self).inv(),
            final(self).bids_model() == old(self).bids_model(),
            final(self).asks_model() == old(self).asks_model(),
            final(self).ts_model() == old(self).ts_model(),
            final(self).sequence_model() == old(self).sequence_model(),
            final(self).depth_cap() == old(self).depth_cap(),
            r == (if old(self).asks_model().len() > 0 {
                Some(old(self).asks_model()[0])
            } else {
                Option::<Level>::None
            }),
    ;

    /// Indicators over the top `depth` levels of each side.
    fn calculate_metrics(&self, depth: usize) -> (r: OrderbookMetrics)
        requires
            self.inv(),
        ensures
            ({
                let db = if depth as int <= self.bids_model().len() {
                    depth as int
                } else {
                    self.bids_model().len() as int
                };
                let da = if depth as int <= self.asks_model().len() {
                    depth as int
                } else {
                    self.asks_model().len() as int
                };
                let bb = if self.bids_model().len() > 0 {
                    Some(self.bids_model()[0])
                } else {
                    Option::<Level>::None
                };
                let ba = if self.asks_model().len() > 0 {
                    Some(self.asks_model()[0])
                } else {
                    Option::<Level>::None
                };
                r == metrics_spec(
                    bb,
                    ba,
                    sizes_of(self.bids_model().take(db)),
                    sizes_of(self.asks_model().take(da)),
                    prices_of(self.bids_model().take(db)),
                    prices_of(self.asks_model().take(da)),
                )
            }),
    ;
}

} // verus!
