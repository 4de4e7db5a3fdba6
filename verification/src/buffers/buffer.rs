//! A bounded contiguous sorted array of price levels.  The `N` slots are
//! always materialised: the first `len` hold real levels in strictly
//! "better-first" order (descending prices for the bid side, ascending
//! for the ask side), the rest hold the side's sentinel bound.  The first
//! slot is mirrored in a cache so the top of book is one read away.

use vstd::prelude::*;

use crate::decimals::fixed_decimal::FixedDecimal;
use crate::level::{bound_level, Level};

verus! {

/// `a` is strictly better than `b` for the given side: higher for bids,
/// lower for asks.
pub open spec fn better(is_bid: bool, a: int, b: int) -> bool {
    if is_bid {
        a > b
    } else {
        a < b
    }
}

/// A price strictly inside the raw range, distinct from both sentinels.
pub open spec fn inner_price(p: int) -> bool {
    i64::MIN < p < i64::MAX
}

/// A sequence of levels in strictly better-first order with inner prices.
pub open spec fn sorted_levels(s: Seq<Level>, is_bid: bool) -> bool {
    &&& forall|i: int, j: int|
        0 <= i < j < s.len() ==> better(is_bid, #[trigger] s[i].price@, #[trigger] s[j].price@)
    &&& forall|i: int| 0 <= i < s.len() ==> inner_price(#[trigger] s[i].price@)
}

/// Index at which `p` sits or would be inserted: the number of levels
/// strictly better than `p`.
pub open spec fn find_pos(s: Seq<Level>, p: int, is_bid: bool) -> int
    decreases s.len(),
{
    if s.len() == 0 {
        0
    } else if better(is_bid, s[0].price@, p) {
        1 + find_pos(s.skip(1), p, is_bid)
    } else {
        0
    }
}

/// Some stored level carries the price `p`.
pub open spec fn has_price(s: Seq<Level>, p: int) -> bool {
    exists|i: int| 0 <= i < s.len() && #[trigger] s[i].price@ == p
}

/// A stored level's price is a price the side quotes.
pub proof fn lemma_has_price_at(s: Seq<Level>, j: int)
    requires
        0 <= j < s.len(),
    ensures
        has_price(s, s[j].price@),
{
    assert(0 <= j < s.len() && s[j].price@ == s[j].price@);
}

/// What `find_pos` finds in a sorted sequence: everything before it is
/// strictly better than `p`, everything from it on is not, and `p`
/// itself can only sit exactly there.
pub proof fn lemma_find_pos(s: Seq<Level>, p: int, is_bid: bool)
    requires
        sorted_levels(s, is_bid),
    ensures
        0 <= find_pos(s, p, is_bid) <= s.len(),
        forall|j: int| 0 <= j < find_pos(s, p, is_bid) ==> better(is_bid, #[trigger] s[j].price@, p),
        forall|j: int|
            find_pos(s, p, is_bid) <= j < s.len() ==> !better(is_bid, #[trigger] s[j].price@, p),
        has_price(s, p) <==> (find_pos(s, p, is_bid) < s.len() && s[find_pos(s, p, is_bid)].price@
            == p),
    decreases s.len(),
{
    if s.len() > 0 {
        let t = s.skip(1);
        assert(sorted_levels(t, is_bid)) by {
            assert(forall|i: int| 0 <= i < t.len() ==> t[i] == s[i + 1]);
        }
        lemma_find_pos(t, p, is_bid);
        let fp = find_pos(s, p, is_bid);
        if better(is_bid, s[0].price@, p) {
            assert(forall|j: int| 1 <= j < fp ==> s[j] == t[j - 1]);
            assert(forall|j: int| fp <= j < s.len() ==> s[j] == t[j - 1]);
            if has_price(s, p) {
                let i = choose|i: int| 0 <= i < s.len() && s[i].price@ == p;
                assert(i >= 1);
                assert(t[i - 1].price@ == p);
                assert(has_price(t, p));
            }
            if has_price(t, p) {
                let i = choose|i: int| 0 <= i < t.len() && t[i].price@ == p;
                assert(s[i + 1].price@ == p);
            }
        } else {
            // fp == 0: nothing before it; sortedness puts every later
            // level at or below s[0], which is already not better.
            assert(forall|j: int|
                0 <= j < s.len() && better(is_bid, #[trigger] s[j].price@, p) ==> false) by {
                assert(forall|j: int|
                    1 <= j < s.len() ==> better(is_bid, s[0].price@, #[trigger] s[j].price@));
            }
            if has_price(s, p) {
                let i = choose|i: int| 0 <= i < s.len() && s[i].price@ == p;
                if i > 0 {
                    assert(better(is_bid, s[0].price@, s[i].price@));
                }
            }
        }
    }
}

/// A bounded sorted array of levels for one side of the book.
pub struct Buffer<const N: usize> {
    /// Backing storage, always exactly `N` slots.
    pub buf: Vec<Level>,
    /// The side's sentinel price: least for bids, greatest for asks.
    pub limit: FixedDecimal,
    /// Number of leading slots holding real levels.
    pub len: usize,
    /// Mirror of the first slot, absent when the buffer is empty.
    pub cached_first: Option<Level>,
}

impl<const N: usize> Buffer<N> {
    /// Whether this buffer orders for the bid side.
    pub open spec fn is_bid(&self) -> bool {
        self.limit@ == i64::MIN
    }

    /// The stored levels, best first.
    pub open spec fn levels(&self) -> Seq<Level> {
        self.buf@.take(self.len as int)
    }

    /// Well-formed: exactly `N` slots, real sorted levels with inner
    /// prices up front, sentinels behind, and a faithful first-slot
    /// cache.
    pub open spec fn wf(&self) -> bool {
        &&& self.buf@.len() == N
        &&& self.len <= N
        &&& (self.limit@ == i64::MIN || self.limit@ == i64::MAX)
        &&& sorted_levels(self.levels(), self.is_bid())
        &&& forall|i: int|
            self.len <= i < N ==> #[trigger] self.buf@[i] == bound_level(self.is_bid())
        &&& self.cached_first == (if self.len > 0 {
            Some(self.buf@[0])
        } else {
            Option::<Level>::None
        })
    }

    /// An empty buffer for one side, padded with that side's sentinel.
    #[verifier::loop_isolation(false)]
    pub fn new(is_bid: bool) -> (r: Self)
        ensures
            r.wf(),
            r.is_bid() == is_bid,
            r.len == 0,
            r.levels() =~= Seq::<Level>::empty(),
    {
        let bound = Level::bound(is_bid);
        let mut buf: Vec<Level> = Vec::new();
        let mut i: usize = 0;
        while i < N
            invariant
                i <= N,
                buf@.len() == i,
                forall|k: int| 0 <= k < i ==> #[trigger] buf@[k] == bound_level(is_bid),
            decreases N - i,
        {
            buf.push(bound);
            i = i + 1;
        }
        Self {
            buf,
            limit: if is_bid {
                FixedDecimal::min_value()
            } else {
                FixedDecimal::max_value()
            },
            len: 0,
            cached_first: None,
        }
    }

    /// The cached first level: the best stored level, absent when empty.
    pub fn first(&self) -> (r: Option<Level>)
        requires
            self.wf(),
        ensures
            r == (if self.len > 0 {
                Some(self.levels()[0])
            } else {
                Option::<Level>::None
            }),
    {
        self.cached_first
    }

    /// The level in slot `index`; only the first `len` slots hold real
    /// levels.
    pub fn get(&self, index: usize) -> (r: Level)
        requires
            self.wf(),
            index < self.len,
        ensures
            r == self.levels()[index as int],
    {
        self.buf[index]
    }

    /// Locate `price`: `Ok(i)` when slot `i` holds it, else `Err(i)`
    /// with the insertion index that keeps the side sorted.
    pub fn find_index(&self, price: FixedDecimal, is_bid: bool) -> (r: Result<usize, usize>)
        requires
            self.wf(),
            is_bid == self.is_bid(),
        ensures
            ({
                let s = self.levels();
                let fp = find_pos(s, price@, is_bid);
                match r {
                    Ok(i) => i as int == fp && i < self.len && s[i as int].price@ == price@,
                    Err(i) => i as int == fp && !has_price(s, price@),
                }
            }),
    {
        proof {
            lemma_find_pos(self.levels(), price@, is_bid);
        }
        let ghost s = self.levels();
        let ghost fp = find_pos(s, price@, is_bid);
        if self.len == 0 {
            return Err(0);
        }
        let first = self.buf[0];
        let last = self.buf[self.len - 1];
        if is_bid {
            if price.raw_value() > first.price.raw_value() {
                return Err(0);
            }
            if price.raw_value() < last.price.raw_value() {
                proof {
                    assert(s[self.len - 1] == self.buf@[self.len - 1]);
                    assert(better(is_bid, s[self.len - 1].price@, price@));
                    if fp < s.len() {
                        if fp < s.len() - 1 {
                            assert(better(is_bid, s[fp].price@, s[self.len - 1].price@));
                        }
                        assert(better(is_bid, s[fp].price@, price@));
                    }
                }
                return Err(self.len);
            }
        } else {
            if price.raw_value() < first.price.raw_value() {
                return Err(0);
            }
            if price.raw_value() > last.price.raw_value() {
                proof {
                    assert(s[self.len - 1] == self.buf@[self.len - 1]);
                    assert(better(is_bid, s[self.len - 1].price@, price@));
                    if fp < s.len() {
                        if fp < s.len() - 1 {
                            assert(better(is_bid, s[fp].price@, s[self.len - 1].price@));
                        }
                        assert(better(is_bid, s[fp].price@, price@));
                    }
                }
                return Err(self.len);
            }
        }
        if self.len >= 32 {
            self.branchless_binary_search(price, is_bid)
        } else {
            self.guarded_binary_search(price, is_bid)
        }
    }

    /// Plain guarded binary search, used below the width where the wide
    /// window pays off.
    #[verifier::loop_isolation(false)]
    fn guarded_binary_search(&self, price: FixedDecimal, is_bid: bool) -> (r: Result<
        usize,
        usize,
    >)
        requires
            self.wf(),
            is_bid == self.is_bid(),
            self.len > 0,
        ensures
            ({
                let s = self.levels();
                let fp = find_pos(s, price@, is_bid);
                match r {
                    Ok(i) => i as int == fp && i < self.len && s[i as int].price@ == price@,
                    Err(i) => i as int == fp && !has_price(s, price@),
                }
            }),
    {
        proof {
            lemma_find_pos(self.levels(), price@, is_bid);
        }
        let ghost s = self.levels();
        let ghost fp = find_pos(s, price@, is_bid);
        let mut left: usize = 0;
        let mut right: usize = self.len;
        while left < right
            invariant
                0 <= left <= right <= self.len,
                forall|j: int| 0 <= j < left ==> better(is_bid, #[trigger] s[j].price@, price@),
                forall|j: int|
                    right <= j < self.len ==> better(is_bid, price@, #[trigger] s[j].price@),
            decreases right - left,
        {
            let mid = left + (right - left) / 2;
            let level_price = self.buf[mid].price;
            if price.raw_value() == level_price.raw_value() {
                proof {
                    assert(forall|j: int|
                        0 <= j < mid ==> better(is_bid, #[trigger] s[j].price@, s[mid as int].price@));
                    if fp < mid {
                        assert(better(is_bid, s[fp].price@, price@));
                    }
                    if fp > mid {
                        assert(!better(is_bid, s[mid as int].price@, price@));
                    }
                }
                return Ok(mid);
            }
            let price_better = if is_bid {
                price.raw_value() > level_price.raw_value()
            } else {
                price.raw_value() < level_price.raw_value()
            };
            if price_better {
                proof {
                    assert(forall|j: int|
                        mid <= j < self.len ==> !better(
                            is_bid,
                            #[trigger] s[j].price@,
                            s[mid as int].price@,
                        ));
                }
                right = mid;
            } else {
                proof {
                    assert(forall|j: int|
                        0 <= j <= mid ==> !better(
                            is_bid,
                            s[mid as int].price@,
                            #[trigger] s[j].price@,
                        ));
                }
                left = mid + 1;
            }
        }
        proof {
            if fp < left {
                assert(better(is_bid, s[fp].price@, price@));
            }
            if fp > left {
                assert(better(is_bid, price@, s[left as int].price@));
                assert(!better(is_bid, s[left as int].price@, price@));
            }
            if has_price(s, price@) {
                assert(s[fp].price@ == price@);
                assert(!better(is_bid, s[fp].price@, price@) && !better(
                    is_bid,
                    price@,
                    s[fp].price@,
                ));
            }
        }
        Err(left)
    }

    /// Wide-window binary search for long buffers: the window shrinks by
    /// halves with a single conditional move of its base, so the loop
    /// body has no hard-to-predict branch.
    #[verifier::loop_isolation(false)]
    fn branchless_binary_search(&self, price: FixedDecimal, is_bid: bool) -> (r: Result<
        usize,
        usize,
    >)
        requires
            self.wf(),
            is_bid == self.is_bid(),
            self.len > 0,
            !better(is_bid, price@, self.levels()[0].price@),
            !better(is_bid, self.levels()[self.len - 1].price@, price@),
        ensures
            ({
                let s = self.levels();
                let fp = find_pos(s, price@, is_bid);
                match r {
                    Ok(i) => i as int == fp && i < self.len && s[i as int].price@ == price@,
                    Err(i) => i as int == fp && !has_price(s, price@),
                }
            }),
    {
        proof {
            lemma_find_pos(self.levels(), price@, is_bid);
        }
        let ghost s = self.levels();
        let ghost fp = find_pos(s, price@, is_bid);
        let mut size: usize = self.len;
        let mut left: usize = 0;
        while size > 1
            invariant
                1 <= size,
                left + size <= self.len,
                !better(is_bid, price@, s[left as int].price@),
                forall|k: int|
                    left + size <= k < self.len ==> better(is_bid, price@, #[trigger] s[k].price@),
            decreases size,
        {
            let half = size / 2;
            let mid = left + half;
            let level_price = self.buf[mid].price;
            let keep_looking_right = if is_bid {
                price.raw_value() <= level_price.raw_value()
            } else {
                price.raw_value() >= level_price.raw_value()
            };
            if keep_looking_right {
                left = mid;
            } else {
                proof {
                    assert(forall|k: int|
                        mid <= k < self.len ==> !better(
                            is_bid,
                            #[trigger] s[k].price@,
                            s[mid as int].price@,
                        ));
                }
            }
            size = size - half;
        }
        let found = self.buf[left];
        proof {
            assert(forall|j: int|
                0 <= j < left ==> better(is_bid, #[trigger] s[j].price@, s[left as int].price@));
        }
        if found.price.raw_value() == price.raw_value() {
            proof {
                if fp < left {
                    assert(better(is_bid, s[fp].price@, price@));
                }
                if fp > left {
                    assert(!better(is_bid, s[left as int].price@, price@));
                }
            }
            Ok(left)
        } else {
            proof {
                assert(better(is_bid, s[left as int].price@, price@));
                if fp < left + 1 {
                    assert(!better(is_bid, s[fp].price@, price@));
                }
                if fp > left + 1 {
                    assert(better(is_bid, price@, s[left + 1].price@));
                    assert(!better(is_bid, s[left + 1].price@, price@));
                }
                if has_price(s, price@) {
                    assert(s[fp].price@ == price@);
                    assert(!better(is_bid, s[fp].price@, price@) && !better(
                        is_bid,
                        price@,
                        s[fp].price@,
                    ));
                }
            }
            Err(left + 1)
        }
    }

    /// Insert `level` at slot `index`, shifting worse levels back; the
    /// worst level falls off a full buffer, and an insertion at or past
    /// the capacity is a no-op.  The caller supplies the sorted position
    /// (`find_index`'s `Err` value).
    pub fn insert(&mut self, index: usize, level: Level)
        requires
            old(self).wf(),
            index <= old(self).len,
            inner_price(level.price@),
            forall|j: int|
                0 <= j < index ==> better(
                    old(self).is_bid(),
                    #[trigger] old(self).levels()[j].price@,
                    level.price@,
                ),
            forall|j: int|
                index <= j < old(self).len ==> better(
                    old(self).is_bid(),
                    level.price@,
                    #[trigger] old(self).levels()[j].price@,
                ),
        ensures
            final(self).wf(),
            final(self).limit == old(self).limit,
            index >= N ==> *final(self) == *old(self),
            index < N ==> final(self).len == (if old(self).len < N {
                old(self).len + 1
            } else {
                N as int
            }),
            index < N ==> final(self).levels() == old(self).levels().insert(
                index as int,
                level,
            ).take(final(self).len as int),
    {
        if index >= N {
            return;
        }
        let ghost olds = old(self).levels();
        let _ = self.buf.remove(N - 1);
        self.buf.insert(index, level);
        if self.len < N {
            self.len = self.len + 1;
        }
        proof {
            let news = self.buf@.take(self.len as int);
            let target = olds.insert(index as int, level).take(self.len as int);
            assert(forall|k: int| 0 <= k < index ==> news[k] == olds[k]);
            assert(news[index as int] == level);
            assert(forall|k: int| index < k < self.len ==> news[k] == olds[k - 1]);
            assert(news =~= target);
            assert(sorted_levels(news, self.is_bid())) by {
                assert(forall|k: int| 0 <= k < index ==> news[k] == olds[k]);
                assert(forall|k: int| index < k < self.len ==> news[k] == olds[k - 1]);
            }
            assert(forall|i: int|
                self.len <= i < N ==> #[trigger] self.buf@[i] == bound_level(self.is_bid()));
        }
        self.refresh_cache();
    }

    /// Remove the level in slot `index`, shifting the rest forward and
    /// re-padding the tail with the sentinel; the erased price comes
    /// back.
    pub fn remove(&mut self, index: usize) -> (r: FixedDecimal)
        requires
            old(self).wf(),
            index < old(self).len,
        ensures
            final(self).wf(),
            final(self).limit == old(self).limit,
            r@ == old(self).levels()[index as int].price@,
            final(self).len == old(self).len - 1,
            final(self).levels() == old(self).levels().remove(index as int),
    {
        let ghost olds = old(self).levels();
        let removed = self.buf[index].price;
        let _ = self.buf.remove(index);
        let is_min = self.limit.raw_value() == i64::MIN;
        self.buf.push(Level::bound(is_min));
        self.len = self.len - 1;
        proof {
            let news = self.buf@.take(self.len as int);
            assert(forall|k: int| 0 <= k < index ==> news[k] == olds[k]);
            assert(forall|k: int| index <= k < self.len ==> news[k] == olds[k + 1]);
            assert(news =~= olds.remove(index as int));
            assert(sorted_levels(news, self.is_bid()));
            assert(forall|i: int|
                self.len <= i < N ==> #[trigger] self.buf@[i] == bound_level(self.is_bid()));
            if self.len > 0 {
                assert(inner_price(news[0].price@));
                assert(self.buf@[0].price@ == news[0].price@);
            }
        }
        self.refresh_cache();
        removed
    }

    /// Overwrite the size stored in slot `index`.
    pub fn modify(&mut self, index: usize, size: FixedDecimal)
        requires
            old(self).wf(),
            index < old(self).len,
        ensures
            final(self).wf(),
            final(self).limit == old(self).limit,
            final(self).len == old(self).len,
            final(self).levels() == old(self).levels().update(
                index as int,
                Level { price: old(self).levels()[index as int].price, size },
            ),
    {
        let ghost olds = old(self).levels();
        let price = self.buf[index].price;
        let slot = vstd::std_specs::vec::vec_index_mut(&mut self.buf, index);
        *slot = Level { price, size };
        proof {
            let news = self.buf@.take(self.len as int);
            assert(news =~= olds.update(index as int, Level { price, size }));
            assert(sorted_levels(news, self.is_bid())) by {
                assert(forall|k: int|
                    0 <= k < self.len ==> (#[trigger] news[k]).price@ == olds[k].price@);
            }
            assert(inner_price(olds[0].price@));
            assert(self.buf@[0].price@ == olds[0].price@);
        }
        if index == 0 {
            self.refresh_cache();
        }
    }

    /// Append as many of the given levels as fit behind the current
    /// contents; the caller keeps the combined order sorted.
    #[verifier::loop_isolation(false)]
    pub fn bulk_insert(&mut self, levels: &[Level])
        requires
            old(self).wf(),
            ({
                let cnt = if levels@.len() <= N - old(self).len {
                    levels@.len() as int
                } else {
                    N - old(self).len
                };
                sorted_levels(old(self).levels() + levels@.take(cnt), old(self).is_bid())
            }),
        ensures
            final(self).wf(),
            final(self).limit == old(self).limit,
            ({
                let cnt = if levels@.len() <= N - old(self).len {
                    levels@.len() as int
                } else {
                    N - old(self).len
                };
                final(self).len == old(self).len + cnt && final(self).levels() == old(
                    self,
                ).levels() + levels@.take(cnt)
            }),
    {
        let ghost olds = old(self).levels();
        let available: usize = N - self.len;
        let count: usize = if levels.len() <= available {
            levels.len()
        } else {
            available
        };
        let ghost cnt = count as int;
        let base = self.len;
        let mut i: usize = 0;
        while i < count
            invariant
                0 <= i <= count,
                count == cnt,
                base == old(self).len,
                base + count <= N,
                self.limit == old(self).limit,
                self.len == old(self).len,
                self.buf@.len() == N,
                count <= levels@.len(),
                forall|k: int| 0 <= k < base ==> #[trigger] self.buf@[k] == old(self).buf@[k],
                forall|k: int|
                    base <= k < base + i ==> #[trigger] self.buf@[k] == levels@[k - base],
                forall|k: int|
                    base + i <= k < N ==> #[trigger] self.buf@[k] == bound_level(
                        old(self).is_bid(),
                    ),
            decreases count - i,
        {
            let slot = vstd::std_specs::vec::vec_index_mut(&mut self.buf, base + i);
            *slot = *vstd::slice::slice_index_get(levels, i);
            i = i + 1;
        }
        self.len = self.len + count;
        proof {
            let news = self.buf@.take(self.len as int);
            assert(news =~= olds + levels@.take(cnt));
            let combined = olds + levels@.take(cnt);
            if self.len > 0 {
                assert(inner_price(combined[0].price@));
                assert(self.buf@[0].price@ == combined[0].price@);
            }
        }
        self.refresh_cache();
    }

    /// Refresh the first-slot mirror.
    fn refresh_cache(&mut self)
        requires
            old(self).buf@.len() == N,
            old(self).len <= N,
            old(self).len > 0 ==> old(self).buf@[0].price@ != old(self).limit@,
        ensures
            *final(self) == (Buffer {
                cached_first: if old(self).len > 0 {
                    Some(old(self).buf@[0])
                } else {
                    Option::<Level>::None
                },
                ..*old(self)
            }),
    {
        self.cached_first = if self.len > 0 {
            let l = self.buf[0];
            if l.price.raw_value() != self.limit.raw_value() {
                Some(l)
            } else {
                None
            }
        } else {
            None
        };
    }
}

} // verus!
