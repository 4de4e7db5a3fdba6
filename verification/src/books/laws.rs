//! The book-level guarantees, stated once over the shared event model:
//! what every sequence of accepted events preserves, and the round-trip,
//! no-op, sweep and equivalence facts that relate the event steps.

use vstd::prelude::*;

use crate::books::array_orderbook::ArrayOrderbook;
use crate::books::btree_orderbook::BTreeOrderBook;
use crate::books::model::{admits, bbo_step, capped, l2_step, next_sequence, positive_sizes,
    side_step, targets_bids, trade_step, valid_event};
use crate::buffers::buffer::{better, find_pos, has_price, inner_price, lemma_find_pos,
    lemma_has_price_at, sorted_levels};
use crate::event::Event;
use crate::event_kind::EventKind;
use crate::level::Level;

verus! {

/// The book is not crossed: when both sides quote, the best bid is
/// strictly below the best ask.
pub open spec fn uncrossed(bids: Seq<Level>, asks: Seq<Level>) -> bool {
    bids.len() > 0 && asks.len() > 0 ==> bids[0].price@ < asks[0].price@
}

/// Depth sanity: a well-formed bounded book stores only positive sizes.
///
/// This restates what `process` maintains through the invariant.
pub proof fn law_depth_sanity<const N: usize>(b: ArrayOrderbook<N>)
    requires
        b.wf(),
    ensures
        positive_sizes(b.bids.levels()),
        positive_sizes(b.asks.levels()),
{
}

/// Monotonicity: a well-formed book's bids descend strictly by price
/// and its asks ascend strictly.
pub proof fn law_monotonic_sides<const N: usize>(b: ArrayOrderbook<N>)
    requires
        b.wf(),
    ensures
        sorted_levels(b.bids.levels(), true),
        sorted_levels(b.asks.levels(), false),
{
}

/// Sentinel padding: in a well-formed bounded book the slots behind the
/// stored levels hold exactly the side's sentinel bound.
pub proof fn law_sentinel_padding<const N: usize>(b: ArrayOrderbook<N>)
    requires
        b.wf(),
    ensures
        forall|i: int|
            b.bids.len <= i < N ==> #[trigger] b.bids.buf@[i]
                == crate::level::bound_level(true),
        forall|i: int|
            b.asks.len <= i < N ==> #[trigger] b.asks.buf@[i] == crate::level::bound_level(
                false,
            ),
{
}

/// Watermarks never move backwards: an admitted event's timestamp is at
/// or after the book's, and the next sequence watermark is at or after
/// the current one.
pub proof fn law_watermarks_monotonic(ts: int, sequence_id: int, e: Event)
    requires
        admits(ts, sequence_id, e),
        sequence_id >= 0,
    ensures
        e.timestamp as int >= ts,
        next_sequence(sequence_id, e) >= sequence_id,
{
}

/// The sequence gate: a sequenced event behind the book's non-zero
/// sequence watermark is never admitted, whatever its timestamp.
pub proof fn law_sequence_gate(ts: int, sequence_id: int, e: Event)
    requires
        e.sequence_id != 0,
        sequence_id != 0,
        (e.sequence_id as int) < sequence_id,
    ensures
        !admits(ts, sequence_id, e),
{
}

/// The timestamp gate: an event older than the book's high-watermark is
/// never admitted.
pub proof fn law_timestamp_gate(ts: int, sequence_id: int, e: Event)
    requires
        (e.timestamp as int) < ts,
    ensures
        !admits(ts, sequence_id, e),
{
}

/// A trade at a price with no resting level leaves the side untouched.
pub proof fn law_trade_missing_price(s: Seq<Level>, price: crate::decimals::fixed_decimal::FixedDecimal, size: crate::decimals::fixed_decimal::FixedDecimal, is_bid: bool)
    requires
        sorted_levels(s, is_bid),
        !has_price(s, price@),
    ensures
        trade_step(s, price, size, is_bid) == s,
{
    lemma_find_pos(s, price@, is_bid);
}

/// Round trip: a depth update that adds a level at a fresh price,
/// followed by a size-zero update at that price, returns the side to
/// its prior state.
pub proof fn law_l2_round_trip(s: Seq<Level>, price: crate::decimals::fixed_decimal::FixedDecimal, size: crate::decimals::fixed_decimal::FixedDecimal, is_bid: bool)
    requires
        sorted_levels(s, is_bid),
        positive_sizes(s),
        inner_price(price@),
        size@ > 0,
        !has_price(s, price@),
    ensures
        l2_step(l2_step(s, price, size, is_bid), price, crate::decimals::fixed_decimal::FixedDecimal { raw: 0 }, is_bid) == s,
{
    lemma_find_pos(s, price@, is_bid);
    let fp = find_pos(s, price@, is_bid);
    let lvl = Level { price, size };
    let s1 = s.insert(fp, lvl);
    assert(l2_step(s, price, size, is_bid) == s1);
    crate::books::model::lemma_l2_step_wf(s, price, size, is_bid);
    lemma_find_pos(s1, price@, is_bid);
    let fp1 = find_pos(s1, price@, is_bid);
    assert(forall|k: int| 0 <= k < fp ==> s1[k] == s[k]);
    assert(s1[fp] == lvl);
    assert(forall|k: int| fp < k < s1.len() ==> s1[k] == s[k - 1]);
    if fp1 < fp {
        assert(better(is_bid, s1[fp1].price@, price@));
    }
    if fp1 > fp {
        assert(!better(is_bid, s1[fp].price@, price@));
        assert(better(is_bid, s1[fp].price@, price@));
    }
    assert(fp1 == fp);
    assert(s1.remove(fp) =~= s);
}

/// The BBO sweep: after a quote with a positive size, the quoted level
/// sits at the top of its side with exactly the quoted size, and no
/// level strictly better than the quote survives.
pub proof fn law_bbo_sweep(s: Seq<Level>, price: crate::decimals::fixed_decimal::FixedDecimal, size: crate::decimals::fixed_decimal::FixedDecimal, is_bid: bool)
    requires
        sorted_levels(s, is_bid),
        positive_sizes(s),
        inner_price(price@),
        size@ > 0,
    ensures
        ({
            let r = bbo_step(s, price, size, is_bid);
            &&& r.len() > 0
            &&& r[0] == Level { price, size }
            &&& forall|k: int| 0 <= k < r.len() ==> !better(is_bid, #[trigger] r[k].price@, price@)
        }),
{
    lemma_find_pos(s, price@, is_bid);
    let fp = find_pos(s, price@, is_bid);
    let t = s.skip(fp);
    assert(sorted_levels(t, is_bid) && positive_sizes(t)) by {
        assert(forall|k: int| 0 <= k < t.len() ==> t[k] == s[k + fp]);
    }
    lemma_find_pos(t, price@, is_bid);
    let fpt = find_pos(t, price@, is_bid);
    assert(forall|k: int| 0 <= k < t.len() ==> !better(is_bid, #[trigger] t[k].price@, price@)) by {
        assert(forall|k: int| 0 <= k < t.len() ==> t[k] == s[k + fp]);
    }
    if fpt > 0 {
        assert(better(is_bid, t[0].price@, price@));
    }
    let r = bbo_step(s, price, size, is_bid);
    let present = 0 < t.len() && t[0].price@ == price@;
    if present {
        assert(r == t.update(0, Level { price: t[0].price, size }));
        assert(t[0].price == price) by {
            assert(t[0].price@ == price@);
            assert(t[0].price.raw == price.raw);
        }
        assert(forall|k: int| 1 <= k < r.len() ==> r[k] == t[k]);
    } else {
        assert(r == t.insert(0, Level { price, size }));
        assert(forall|k: int| 1 <= k < r.len() ==> r[k] == t[k - 1]);
    }
}

/// Every level of a stepped side carries either a price the side
/// already quoted or, when the event carries size, the event's price.
pub proof fn lemma_step_prices(s: Seq<Level>, e: Event, is_bid: bool)
    requires
        sorted_levels(s, is_bid),
        e.size@ >= 0,
    ensures
        forall|k: int|
            0 <= k < side_step(s, e, is_bid).len() ==> has_price(
                s,
                (#[trigger] side_step(s, e, is_bid)[k]).price@,
            ) || (side_step(s, e, is_bid)[k].price@ == e.price@ && e.size@ > 0),
{
    lemma_find_pos(s, e.price@, is_bid);
    let fp = find_pos(s, e.price@, is_bid);
    let r = side_step(s, e, is_bid);
    match e.kind {
        EventKind::L2 => {
            let present = fp < s.len() && s[fp].price@ == e.price@;
            assert forall|k: int| 0 <= k < r.len() implies has_price(
                s,
                (#[trigger] r[k]).price@,
            ) || (r[k].price@ == e.price@ && e.size@ > 0) by {
                if e.size@ == 0 {
                    if present {
                        if k < fp {
                            assert(r[k] == s[k]);
                            lemma_has_price_at(s, k);
                        } else {
                            assert(r[k] == s[k + 1]);
                            lemma_has_price_at(s, k + 1);
                        }
                    } else {
                        lemma_has_price_at(s, k);
                    }
                } else if present {
                    assert(r[k].price@ == s[k].price@);
                    lemma_has_price_at(s, k);
                } else {
                    if k < fp {
                        assert(r[k] == s[k]);
                        lemma_has_price_at(s, k);
                    } else if k > fp {
                        assert(r[k] == s[k - 1]);
                        lemma_has_price_at(s, k - 1);
                    }
                }
            }
        },
        EventKind::Trade => {
            let present = fp < s.len() && s[fp].price@ == e.price@;
            assert forall|k: int| 0 <= k < r.len() implies has_price(
                s,
                (#[trigger] r[k]).price@,
            ) || (r[k].price@ == e.price@ && e.size@ > 0) by {
                if present {
                    if e.size@ >= s[fp].size@ {
                        if k < fp {
                            assert(r[k] == s[k]);
                            lemma_has_price_at(s, k);
                        } else {
                            assert(r[k] == s[k + 1]);
                            lemma_has_price_at(s, k + 1);
                        }
                    } else {
                        assert(r[k].price@ == s[k].price@);
                        lemma_has_price_at(s, k);
                    }
                } else {
                    lemma_has_price_at(s, k);
                }
            }
        },
        EventKind::BBO => {
            let t = s.skip(fp);
            assert(sorted_levels(t, is_bid)) by {
                assert(forall|k: int| 0 <= k < t.len() ==> t[k] == s[k + fp]);
            }
            lemma_find_pos(t, e.price@, is_bid);
            let fpt = find_pos(t, e.price@, is_bid);
            let present = fpt < t.len() && t[fpt].price@ == e.price@;
            assert forall|k: int| 0 <= k < r.len() implies has_price(
                s,
                (#[trigger] r[k]).price@,
            ) || (r[k].price@ == e.price@ && e.size@ > 0) by {
                if e.size@ == 0 {
                    if present {
                        if k < fpt {
                            assert(r[k] == t[k] && t[k] == s[k + fp]);
                            lemma_has_price_at(s, k + fp);
                        } else {
                            assert(r[k] == t[k + 1] && t[k + 1] == s[k + 1 + fp]);
                            lemma_has_price_at(s, k + 1 + fp);
                        }
                    } else {
                        assert(r[k] == t[k] && t[k] == s[k + fp]);
                        lemma_has_price_at(s, k + fp);
                    }
                } else if present {
                    assert(r[k].price@ == t[k].price@ && t[k] == s[k + fp]);
                    lemma_has_price_at(s, k + fp);
                } else {
                    if k < fpt {
                        assert(r[k] == t[k] && t[k] == s[k + fp]);
                        lemma_has_price_at(s, k + fp);
                    } else if k > fpt {
                        assert(r[k] == t[k - 1] && t[k - 1] == s[k - 1 + fp]);
                        lemma_has_price_at(s, k - 1 + fp);
                    }
                }
            }
        },
    }
}

/// Cross prevention: a book that is not crossed stays uncrossed under
/// any admitted event whose quote, if it carries size, does not itself
/// cross the opposite best.  A quote that does cross (the protocol does
/// not sweep the opposite side) is the one way to cross the book.
pub proof fn law_no_cross(s_bids: Seq<Level>, s_asks: Seq<Level>, e: Event, cap: int)
    requires
        sorted_levels(s_bids, true),
        sorted_levels(s_asks, false),
        positive_sizes(s_bids),
        positive_sizes(s_asks),
        valid_event(e),
        uncrossed(s_bids, s_asks),
        cap >= 0,
        e.size@ > 0 && targets_bids(e) && s_asks.len() > 0 ==> e.price@ < s_asks[0].price@,
        e.size@ > 0 && !targets_bids(e) && s_bids.len() > 0 ==> e.price@ > s_bids[0].price@,
    ensures
        targets_bids(e) ==> uncrossed(capped(side_step(s_bids, e, true), cap), s_asks),
        !targets_bids(e) ==> uncrossed(s_bids, capped(side_step(s_asks, e, false), cap)),
{
    if targets_bids(e) {
        lemma_step_prices(s_bids, e, true);
        let r = side_step(s_bids, e, true);
        let c = capped(r, cap);
        if c.len() > 0 && s_asks.len() > 0 {
            assert(c[0] == r[0]);
            if has_price(s_bids, r[0].price@) {
                let j = choose|j: int| 0 <= j < s_bids.len() && s_bids[j].price@ == r[0].price@;
                if j > 0 {
                    assert(better(true, s_bids[0].price@, s_bids[j].price@));
                }
            }
        }
    } else {
        lemma_step_prices(s_asks, e, false);
        let r = side_step(s_asks, e, false);
        let c = capped(r, cap);
        if c.len() > 0 && s_bids.len() > 0 {
            assert(c[0] == r[0]);
            if has_price(s_asks, r[0].price@) {
                let j = choose|j: int| 0 <= j < s_asks.len() && s_asks[j].price@ == r[0].price@;
                if j > 0 {
                    assert(better(false, s_asks[0].price@, s_asks[j].price@));
                }
            }
        }
    }
}

/// Behavioural equivalence: a bounded and an unbounded book holding the
/// same levels and watermarks agree on admission, and, so long as the
/// stepped side has room in the bounded book, process any valid event
/// to the same levels on both sides — so their bests and their first
/// `N` levels stay equal, stream step by stream step.
pub proof fn law_behavioural_equivalence<const N: usize>(
    a: ArrayOrderbook<N>,
    m: BTreeOrderBook,
    e: Event,
)
    requires
        a.wf(),
        m.wf(),
        a.bids.levels() == m.bids@,
        a.asks.levels() == m.asks@,
        a.ts == m.ts,
        a.sequence_id == m.sequence_id,
        valid_event(e),
        targets_bids(e) ==> m.bids@.len() < N,
        !targets_bids(e) ==> m.asks@.len() < N,
    ensures
        admits(a.ts as int, a.sequence_id as int, e) == admits(m.ts as int, m.sequence_id as int, e),
        targets_bids(e) ==> capped(side_step(a.bids.levels(), e, true), N as int) == side_step(
            m.bids@,
            e,
            true,
        ),
        !targets_bids(e) ==> capped(side_step(a.asks.levels(), e, false), N as int) == side_step(
            m.asks@,
            e,
            false,
        ),
{
    if targets_bids(e) {
        crate::books::model::lemma_side_step_wf(m.bids@, e, true);
    } else {
        crate::books::model::lemma_side_step_wf(m.asks@, e, false);
    }
}

} // verus!
