//! The event protocol as mathematics: which events a book admits, and
//! what one admitted event does to one side, written over the sequence
//! of stored levels, best first.  Both book representations are proved
//! against these functions, which is what makes them interchangeable.

use vstd::prelude::*;

use crate::buffers::buffer::{better, find_pos, inner_price, lemma_find_pos, sorted_levels};
use crate::decimals::fixed_decimal::FixedDecimal;
use crate::event::Event;
use crate::event_kind::EventKind;
use crate::level::Level;

verus! {

/// An event the books accept: a price strictly inside the raw range
/// (the two extremes are the buffers' sentinels) and a non-negative
/// size.
pub open spec fn valid_event(e: Event) -> bool {
    inner_price(e.price@) && e.size@ >= 0
}

/// The admission rule: drop anything older than the high-watermark
/// timestamp, then admit when the event is unsequenced, the book has
/// never seen a sequence, or the event's sequence is at or after the
/// book's.
pub open spec fn admits(ts: int, sequence_id: int, e: Event) -> bool {
    &&& e.timestamp as int >= ts
    &&& (e.sequence_id == 0 || sequence_id == 0 || e.sequence_id as int >= sequence_id)
}

/// The sequence watermark after an admitted event: a non-zero sequence
/// id advances it, an unsequenced event leaves it alone.
pub open spec fn next_sequence(sequence_id: int, e: Event) -> int {
    if e.sequence_id != 0 {
        e.sequence_id as int
    } else {
        sequence_id
    }
}

/// Every stored level carries a positive size.
pub open spec fn positive_sizes(s: Seq<Level>) -> bool {
    forall|i: int| 0 <= i < s.len() ==> (#[trigger] s[i]).size@ > 0
}

/// A level-2 depth update at one price: size zero removes the level if
/// present, a positive size overwrites it or inserts it at its sorted
/// position.
pub open spec fn l2_step(s: Seq<Level>, price: FixedDecimal, size: FixedDecimal, is_bid: bool) -> Seq<
    Level,
> {
    let i = find_pos(s, price@, is_bid);
    let present = i < s.len() && s[i].price@ == price@;
    if size@ == 0 {
        if present {
            s.remove(i)
        } else {
            s
        }
    } else if present {
        s.update(i, Level { price: s[i].price, size })
    } else {
        s.insert(i, Level { price, size })
    }
}

/// A trade at one price: nothing happens without a resting level; a
/// trade at or above the resting size removes the level, a smaller one
/// decrements it.
pub open spec fn trade_step(s: Seq<Level>, price: FixedDecimal, size: FixedDecimal, is_bid: bool) -> Seq<
    Level,
> {
    let i = find_pos(s, price@, is_bid);
    let present = i < s.len() && s[i].price@ == price@;
    if !present {
        s
    } else if size@ >= s[i].size@ {
        s.remove(i)
    } else {
        s.update(i, Level { price: s[i].price, size: FixedDecimal { raw: (s[i].size@ - size@) as i64 } })
    }
}

/// A best-bid/offer quote: sweep away every level strictly better than
/// the quoted price, then apply the quote like a depth update.
pub open spec fn bbo_step(s: Seq<Level>, price: FixedDecimal, size: FixedDecimal, is_bid: bool) -> Seq<
    Level,
> {
    l2_step(s.skip(find_pos(s, price@, is_bid)), price, size, is_bid)
}

/// What one admitted event does to its own side of the book.
pub open spec fn side_step(s: Seq<Level>, e: Event, is_bid: bool) -> Seq<Level> {
    match e.kind {
        EventKind::L2 => l2_step(s, e.price, e.size, is_bid),
        EventKind::Trade => trade_step(s, e.price, e.size, is_bid),
        EventKind::BBO => bbo_step(s, e.price, e.size, is_bid),
    }
}

/// A side truncated to a depth capacity: what survives in a bounded
/// book.
pub open spec fn capped(s: Seq<Level>, cap: int) -> Seq<Level> {
    if s.len() <= cap {
        s
    } else {
        s.take(cap)
    }
}

/// The side a given event touches targets bids exactly when the event
/// is a buy.
pub open spec fn targets_bids(e: Event) -> bool {
    e.side is Buy
}

/// A step preserves sortedness, keeps prices inner, keeps sizes
/// positive, and grows the side by at most one level.
pub proof fn lemma_side_step_wf(s: Seq<Level>, e: Event, is_bid: bool)
    requires
        sorted_levels(s, is_bid),
        positive_sizes(s),
        valid_event(e),
    ensures
        sorted_levels(side_step(s, e, is_bid), is_bid),
        positive_sizes(side_step(s, e, is_bid)),
        side_step(s, e, is_bid).len() <= s.len() + 1,
{
    match e.kind {
        EventKind::L2 => {
            lemma_l2_step_wf(s, e.price, e.size, is_bid);
        },
        EventKind::Trade => {
            lemma_trade_step_wf(s, e.price, e.size, is_bid);
        },
        EventKind::BBO => {
            lemma_bbo_step_wf(s, e.price, e.size, is_bid);
        },
    }
}

/// [`l2_step`] keeps a side well formed.
pub proof fn lemma_l2_step_wf(s: Seq<Level>, price: FixedDecimal, size: FixedDecimal, is_bid: bool)
    requires
        sorted_levels(s, is_bid),
        positive_sizes(s),
        inner_price(price@),
        size@ >= 0,
    ensures
        sorted_levels(l2_step(s, price, size, is_bid), is_bid),
        positive_sizes(l2_step(s, price, size, is_bid)),
        l2_step(s, price, size, is_bid).len() <= s.len() + 1,
{
    lemma_find_pos(s, price@, is_bid);
    let i = find_pos(s, price@, is_bid);
    let present = i < s.len() && s[i].price@ == price@;
    let r = l2_step(s, price, size, is_bid);
    if size@ == 0 {
        if present {
            lemma_remove_wf(s, i, is_bid);
        }
    } else if present {
        assert(forall|k: int| 0 <= k < s.len() ==> (#[trigger] r[k]).price@ == s[k].price@);
    } else {
        lemma_insert_wf(s, i, Level { price, size }, is_bid);
    }
}

/// [`trade_step`] keeps a side well formed.
pub proof fn lemma_trade_step_wf(s: Seq<Level>, price: FixedDecimal, size: FixedDecimal, is_bid: bool)
    requires
        sorted_levels(s, is_bid),
        positive_sizes(s),
        inner_price(price@),
        size@ >= 0,
    ensures
        sorted_levels(trade_step(s, price, size, is_bid), is_bid),
        positive_sizes(trade_step(s, price, size, is_bid)),
        trade_step(s, price, size, is_bid).len() <= s.len(),
{
    lemma_find_pos(s, price@, is_bid);
    let i = find_pos(s, price@, is_bid);
    let present = i < s.len() && s[i].price@ == price@;
    let r = trade_step(s, price, size, is_bid);
    if present {
        if size@ >= s[i].size@ {
            lemma_remove_wf(s, i, is_bid);
        } else {
            assert(forall|k: int| 0 <= k < s.len() ==> (#[trigger] r[k]).price@ == s[k].price@);
        }
    }
}

/// [`bbo_step`] keeps a side well formed.
pub proof fn lemma_bbo_step_wf(s: Seq<Level>, price: FixedDecimal, size: FixedDecimal, is_bid: bool)
    requires
        sorted_levels(s, is_bid),
        positive_sizes(s),
        inner_price(price@),
        size@ >= 0,
    ensures
        sorted_levels(bbo_step(s, price, size, is_bid), is_bid),
        positive_sizes(bbo_step(s, price, size, is_bid)),
        bbo_step(s, price, size, is_bid).len() <= s.len() + 1,
{
    lemma_find_pos(s, price@, is_bid);
    let i = find_pos(s, price@, is_bid);
    let t = s.skip(i);
    assert(sorted_levels(t, is_bid) && positive_sizes(t)) by {
        assert(forall|k: int| 0 <= k < t.len() ==> t[k] == s[k + i]);
    }
    lemma_l2_step_wf(t, price, size, is_bid);
}

/// Removing one level keeps a side well formed.
proof fn lemma_remove_wf(s: Seq<Level>, i: int, is_bid: bool)
    requires
        sorted_levels(s, is_bid),
        positive_sizes(s),
        0 <= i < s.len(),
    ensures
        sorted_levels(s.remove(i), is_bid),
        positive_sizes(s.remove(i)),
{
    let r = s.remove(i);
    assert(forall|k: int| 0 <= k < i ==> r[k] == s[k]);
    assert(forall|k: int| i <= k < r.len() ==> r[k] == s[k + 1]);
}

/// Inserting a level at its sorted position keeps a side well formed.
proof fn lemma_insert_wf(s: Seq<Level>, i: int, l: Level, is_bid: bool)
    requires
        sorted_levels(s, is_bid),
        positive_sizes(s),
        inner_price(l.price@),
        l.size@ > 0,
        0 <= i <= s.len(),
        forall|j: int| 0 <= j < i ==> better(is_bid, #[trigger] s[j].price@, l.price@),
        forall|j: int| i <= j < s.len() ==> better(is_bid, l.price@, #[trigger] s[j].price@),
    ensures
        sorted_levels(s.insert(i, l), is_bid),
        positive_sizes(s.insert(i, l)),
{
    let r = s.insert(i, l);
    assert(forall|k: int| 0 <= k < i ==> r[k] == s[k]);
    assert(r[i] == l);
    assert(forall|k: int| i < k < r.len() ==> r[k] == s[k - 1]);
}

} // verus!
