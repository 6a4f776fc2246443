//! One side of the book: price levels sorted best price first, each a
//! FIFO queue of resting orders sharing that price.

use vstd::prelude::*;
use crate::order::Side;
use crate::order::Order;
use crate::order::better;
use crate::order::better_eq;
use crate::order::is_better;

verus! {

/// A price and the FIFO queue of resting orders at that price,
/// oldest first.
pub struct PriceLevel {
    pub px: u64,
    pub orders: Vec<Order>,
}

/// What the book maintains of one level: a positive price, at least one
/// order, and every order valid, on this side, at this price.
pub open spec fn level_wf(lv: PriceLevel, side: Side) -> bool {
    &&& lv.px >= 1
    &&& lv.orders@.len() > 0
    &&& forall|k: int|
        0 <= k < lv.orders@.len() ==> {
            &&& (#[trigger] lv.orders@[k]).wf()
            &&& lv.orders@[k].px == lv.px
            &&& lv.orders@[k].side == side
        }
}

/// A well-formed level sequence: every level well formed, and prices
/// strictly improving-to-worsening (best first, no duplicates).
pub open spec fn levels_wf(ls: Seq<PriceLevel>, side: Side) -> bool {
    &&& forall|i: int| 0 <= i < ls.len() ==> level_wf(#[trigger] ls[i], side)
    &&& forall|i: int, j: int|
        0 <= i < j < ls.len() ==> better(side, (#[trigger] ls[i]).px, (#[trigger] ls[j]).px)
}

/// The resting orders of a level sequence, flattened in priority order:
/// best price first, FIFO within a price.
pub open spec fn flat_orders(ls: Seq<PriceLevel>) -> Seq<Order>
    decreases ls.len(),
{
    if ls.len() == 0 {
        Seq::empty()
    } else {
        ls[0].orders@ + flat_orders(ls.skip(1))
    }
}

/// Flattening distributes over concatenation of level sequences.
pub proof fn lemma_flat_concat(a: Seq<PriceLevel>, b: Seq<PriceLevel>)
    ensures
        flat_orders(a + b) == flat_orders(a) + flat_orders(b),
    decreases a.len(),
{
    if a.len() == 0 {
        assert(a + b =~= b);
        assert(flat_orders(a) + flat_orders(b) =~= flat_orders(b));
    } else {
        assert((a + b).skip(1) =~= a.skip(1) + b);
        lemma_flat_concat(a.skip(1), b);
        assert(flat_orders(a + b) =~= flat_orders(a) + flat_orders(b));
    }
}

/// A single level flattens to its own queue.
pub proof fn lemma_flat_singleton(lv: PriceLevel)
    ensures
        flat_orders(seq![lv]) == lv.orders@,
{
    assert(seq![lv].skip(1) =~= Seq::<PriceLevel>::empty());
    assert(flat_orders(Seq::<PriceLevel>::empty()) == Seq::<Order>::empty());
    assert(flat_orders(seq![lv]) == seq![lv][0].orders@ + flat_orders(seq![lv].skip(1)));
    assert(flat_orders(seq![lv]) =~= lv.orders@);
}

/// Properties of the flattened priority sequence of a well-formed side:
/// all orders are valid and on this side; the sequence is sorted from
/// best to worst price; its head is the oldest order of the best level.
pub proof fn lemma_flat_props(ls: Seq<PriceLevel>, side: Side)
    requires
        levels_wf(ls, side),
    ensures
        forall|k: int|
            0 <= k < flat_orders(ls).len() ==> (#[trigger] flat_orders(ls)[k]).wf()
                && flat_orders(ls)[k].side == side,
        forall|a: int, b: int|
            0 <= a < b < flat_orders(ls).len() ==> better_eq(
                side,
                flat_orders(ls)[a].px,
                flat_orders(ls)[b].px,
            ),
        (flat_orders(ls).len() == 0) == (ls.len() == 0),
        ls.len() > 0 ==> flat_orders(ls)[0] == ls[0].orders@[0] && forall|k: int|
            0 <= k < flat_orders(ls).len() ==> better_eq(
                side,
                ls[0].px,
                (#[trigger] flat_orders(ls)[k]).px,
            ),
    decreases ls.len(),
{
    if ls.len() > 0 {
        let tail = ls.skip(1);
        assert(levels_wf(tail, side));
        lemma_flat_props(tail, side);
        let flat = flat_orders(ls);
        let head = ls[0].orders@;
        assert(flat == head + flat_orders(tail));
        assert(level_wf(ls[0], side));
        assert forall|k: int| 0 <= k < flat.len() implies (#[trigger] flat[k]).wf()
            && flat[k].side == side && better_eq(side, ls[0].px, flat[k].px) by {
            if k < head.len() {
                assert(flat[k] == head[k]);
            } else {
                assert(flat[k] == flat_orders(tail)[k - head.len()]);
                if tail.len() > 0 {
                    assert(better(side, ls[0].px, tail[0].px));
                }
            }
        }
        assert forall|a: int, b: int| 0 <= a < b < flat.len() implies better_eq(
            side,
            flat[a].px,
            flat[b].px,
        ) by {
            if a < head.len() && b < head.len() {
                assert(flat[a].px == ls[0].px && flat[b].px == ls[0].px);
            } else if a < head.len() {
                assert(flat[a].px == ls[0].px);
            } else {
                assert(flat[a] == flat_orders(tail)[a - head.len()]);
                assert(flat[b] == flat_orders(tail)[b - head.len()]);
            }
        }
    }
}

/// Splitting a level sequence splits its flattened orders.
pub proof fn lemma_flat_decompose(ls: Seq<PriceLevel>, i: int)
    requires
        0 <= i <= ls.len(),
    ensures
        flat_orders(ls) == flat_orders(ls.take(i)) + flat_orders(ls.skip(i)),
{
    assert(ls =~= ls.take(i) + ls.skip(i));
    lemma_flat_concat(ls.take(i), ls.skip(i));
}

/// A strict price bound that holds of every level holds of every
/// flattened order, since each order carries its level's price.
pub proof fn lemma_flat_better_than(ls: Seq<PriceLevel>, side: Side, px: u64)
    requires
        forall|i: int| 0 <= i < ls.len() ==> level_wf(#[trigger] ls[i], side),
        forall|i: int| 0 <= i < ls.len() ==> better(side, (#[trigger] ls[i]).px, px),
    ensures
        forall|m: int|
            0 <= m < flat_orders(ls).len() ==> better(
                side,
                (#[trigger] flat_orders(ls)[m]).px,
                px,
            ),
    decreases ls.len(),
{
    if ls.len() > 0 {
        let tail = ls.skip(1);
        lemma_flat_better_than(tail, side, px);
        let flat = flat_orders(ls);
        let head = ls[0].orders@;
        assert forall|m: int| 0 <= m < flat.len() implies better(
            side,
            (#[trigger] flat[m]).px,
            px,
        ) by {
            if m < head.len() {
                assert(flat[m] == head[m]);
                assert(head[m].px == ls[0].px);
            } else {
                assert(flat[m] == flat_orders(tail)[m - head.len()]);
            }
        }
    }
}

/// The mirror image of [`lemma_flat_better_than`]: a price strictly
/// better than every level price is strictly better than every
/// flattened order's price.
pub proof fn lemma_flat_worse_than(ls: Seq<PriceLevel>, side: Side, px: u64)
    requires
        forall|i: int| 0 <= i < ls.len() ==> level_wf(#[trigger] ls[i], side),
        forall|i: int| 0 <= i < ls.len() ==> better(side, px, (#[trigger] ls[i]).px),
    ensures
        forall|m: int|
            0 <= m < flat_orders(ls).len() ==> better(
                side,
                px,
                (#[trigger] flat_orders(ls)[m]).px,
            ),
    decreases ls.len(),
{
    if ls.len() > 0 {
        let tail = ls.skip(1);
        lemma_flat_worse_than(tail, side, px);
        let flat = flat_orders(ls);
        let head = ls[0].orders@;
        assert forall|m: int| 0 <= m < flat.len() implies better(
            side,
            px,
            (#[trigger] flat[m]).px,
        ) by {
            if m < head.len() {
                assert(flat[m] == head[m]);
                assert(head[m].px == ls[0].px);
            } else {
                assert(flat[m] == flat_orders(tail)[m - head.len()]);
            }
        }
    }
}

/// One side of the book.
pub struct PriceLevelBook {
    pub side: Side,
    pub levels: Vec<PriceLevel>,
}

impl PriceLevelBook {
    /// The side's structural invariant.
    pub open spec fn wf(self) -> bool {
        levels_wf(self.levels@, self.side)
    }

    /// All resting orders on this side in match-priority order.
    pub open spec fn orders_in_priority(self) -> Seq<Order> {
        flat_orders(self.levels@)
    }

    pub open spec fn spec_is_empty(self) -> bool {
        self.levels@.len() == 0
    }

    /// The best (first) price of a non-empty side.
    pub open spec fn spec_best_px(self) -> u64
        recommends
            !self.spec_is_empty(),
    {
        self.levels@[0].px
    }

    /// An empty side.
    pub fn new(side: Side) -> (r: PriceLevelBook)
        ensures
            r.wf(),
            r.side == side,
            r.spec_is_empty(),
            r.orders_in_priority() == Seq::<Order>::empty(),
    {
        PriceLevelBook { side, levels: Vec::new() }
    }

    pub fn is_empty(&self) -> (r: bool)
        ensures
            r == self.spec_is_empty(),
    {
        self.levels.len() == 0
    }

    /// The current best price for this side, or `None` if the side is
    /// empty: the maximum resting price for bids, the minimum for offers.
    pub fn best_price(&self) -> (r: Option<u64>)
        ensures
            self.spec_is_empty() ==> r is None,
            !self.spec_is_empty() ==> r == Some(self.spec_best_px()),
    {
        if self.levels.len() == 0 {
            None
        } else {
            Some(self.levels[0].px)
        }
    }

    /// The levels from best to worst price; the ordering is structural,
    /// so this is the sequence as stored.
    pub fn levels_in_priority_order(&self) -> (r: &Vec<PriceLevel>)
        ensures
            r == &self.levels,
    {
        &self.levels
    }

    /// Appends `o` to the FIFO at its price, creating the level in its
    /// sorted position if absent. The witness `i` of [`inserted_shape`]
    /// pins exactly where the order went: after every order at a better
    /// or equal price, before every order at a worse one.
    #[verifier::rlimit(60)]
    pub fn insert(&mut self, o: Order)
        requires
            old(self).wf(),
            o.wf(),
            o.side == old(self).side,
        ensures
            final(self).wf(),
            final(self).side == old(self).side,
            exists|i: int|
                inserted_shape(
                    old(self).levels@,
                    final(self).levels@,
                    old(self).side,
                    o,
                    i,
                ),
            !final(self).spec_is_empty(),
            final(self).spec_best_px() == if old(self).spec_is_empty() || better(
                old(self).side,
                o.px,
                old(self).spec_best_px(),
            ) {
                o.px
            } else {
                old(self).spec_best_px()
            },
            exists|p: int|
                #![trigger old(self).orders_in_priority().insert(p, o)]
                {
                    &&& 0 <= p <= old(self).orders_in_priority().len()
                    &&& final(self).orders_in_priority() == old(self).orders_in_priority().insert(
                        p,
                        o,
                    )
                    &&& forall|m: int|
                        0 <= m < p ==> better_eq(
                            old(self).side,
                            (#[trigger] old(self).orders_in_priority()[m]).px,
                            o.px,
                        )
                    &&& forall|m: int|
                        p <= m < old(self).orders_in_priority().len() ==> better(
                            old(self).side,
                            o.px,
                            (#[trigger] old(self).orders_in_priority()[m]).px,
                        )
                },
    {
        let side = self.side;
        let ghost olds = self.levels@;
        let mut i: usize = 0;
        loop
            invariant
                i <= self.levels@.len(),
                self.levels@ == olds,
                forall|j: int| 0 <= j < i ==> better(side, (#[trigger] olds[j]).px, o.px),
            ensures
                i <= olds.len(),
                forall|j: int| 0 <= j < i ==> better(side, (#[trigger] olds[j]).px, o.px),
                i == olds.len() || !better(side, olds[i as int].px, o.px),
            decreases self.levels@.len() - i,
        {
            if i == self.levels.len() {
                break ;
            }
            if !is_better(side, self.levels[i].px, o.px) {
                break ;
            }
            i = i + 1;
        }
        if i < self.levels.len() && self.levels[i].px == o.px {
            let mut lv: PriceLevel = self.levels.remove(i);
            lv.orders.push(o);
            self.levels.insert(i, lv);
            proof {
                assert(self.levels@ =~= olds.update(i as int, self.levels@[i as int]));
                assert(self.levels@[i as int].orders@ == olds[i as int].orders@.push(o));
                assert(inserted_shape(olds, self.levels@, side, o, i as int));
                assert forall|a: int, b: int|
                    0 <= a < b < self.levels@.len() implies better(
                    side,
                    self.levels@[a].px,
                    self.levels@[b].px,
                ) by {
                    assert(better(side, olds[a].px, olds[b].px));
                }
                let ii = i as int;
                let flat0 = flat_orders(olds);
                let p = flat_orders(olds.take(ii)).len() + olds[ii].orders@.len() as int;
                lemma_flat_decompose(olds, ii);
                assert(olds.skip(ii)[0] == olds[ii]);
                assert(olds.skip(ii).skip(1) =~= olds.skip(ii + 1));
                assert(flat_orders(olds.skip(ii)) == olds[ii].orders@ + flat_orders(
                    olds.skip(ii + 1),
                ));
                lemma_flat_decompose(self.levels@, ii);
                assert(self.levels@.take(ii) =~= olds.take(ii));
                assert(self.levels@.skip(ii)[0] == self.levels@[ii]);
                assert(self.levels@.skip(ii).skip(1) =~= olds.skip(ii + 1));
                assert(flat_orders(self.levels@.skip(ii)) == olds[ii].orders@.push(o)
                    + flat_orders(olds.skip(ii + 1)));
                assert(flat0.take(p) =~= flat_orders(olds.take(ii)) + olds[ii].orders@);
                assert(flat0.skip(p) =~= flat_orders(olds.skip(ii + 1)));
                assert(flat_orders(self.levels@) =~= flat0.insert(p, o));
                lemma_flat_better_than(olds.take(ii), side, o.px);
                assert(forall|j: int|
                    0 <= j < olds.skip(ii + 1).len() ==> better(
                        side,
                        o.px,
                        (#[trigger] olds.skip(ii + 1)[j]).px,
                    ));
                lemma_flat_worse_than(olds.skip(ii + 1), side, o.px);
                assert forall|m: int| 0 <= m < p implies better_eq(
                    side,
                    (#[trigger] flat0[m]).px,
                    o.px,
                ) by {
                    if m < flat_orders(olds.take(ii)).len() {
                        assert(flat0[m] == flat_orders(olds.take(ii))[m]);
                    } else {
                        assert(flat0[m] == olds[ii].orders@[m - flat_orders(
                            olds.take(ii),
                        ).len()]);
                    }
                }
                assert forall|m: int| p <= m < flat0.len() implies better(
                    side,
                    o.px,
                    (#[trigger] flat0[m]).px,
                ) by {
                    assert(flat0[m] == flat0.skip(p)[m - p]);
                }
                assert(old(self).orders_in_priority() == flat0);
                assert(self.orders_in_priority() == old(self).orders_in_priority().insert(p, o));
            }
        } else {
            let lv = PriceLevel { px: o.px, orders: vec![o] };
            let ghost lvg = lv;
            self.levels.insert(i, lv);
            proof {
                olds.insert_ensures(i as int, lvg);
                assert(self.levels@ == olds.insert(i as int, lvg));
                assert(self.levels@[i as int] == lvg);
                if i < olds.len() {
                    assert(!better(side, olds[i as int].px, o.px));
                    assert(olds[i as int].px != o.px);
                    assert(better(side, o.px, olds[i as int].px));
                }
                assert(forall|j: int|
                    0 <= j < i ==> self.levels@[j] == olds[j]);
                assert(forall|j: int|
                    i <= j < olds.len() ==> self.levels@[j + 1] == olds[j]);
                assert(lvg.orders@ == seq![o]);
                assert(inserted_shape(olds, self.levels@, side, o, i as int));
                assert forall|a: int, b: int|
                    0 <= a < b < self.levels@.len() implies better(
                    side,
                    self.levels@[a].px,
                    self.levels@[b].px,
                ) by {
                    if a < i && b == i {
                    } else if a == i && b > i {
                        assert(better(side, o.px, olds[i as int].px));
                        if b > i + 1 {
                            assert(better(side, olds[i as int].px, olds[b - 1].px));
                        }
                    } else if a < i && b > i {
                        assert(better(side, olds[a].px, olds[b - 1].px));
                    } else if a > i || b < i {
                        assert(better(side, olds[if a < i { a } else { a - 1 }].px,
                            olds[if b < i { b } else { b - 1 }].px));
                    }
                }
                let ii = i as int;
                let flat0 = flat_orders(olds);
                let p = flat_orders(olds.take(ii)).len() as int;
                lemma_flat_decompose(olds, ii);
                lemma_flat_decompose(self.levels@, ii);
                assert(self.levels@.take(ii) =~= olds.take(ii));
                assert(self.levels@.skip(ii)[0] == lvg);
                assert(self.levels@.skip(ii).skip(1) =~= olds.skip(ii));
                assert(flat_orders(self.levels@.skip(ii)) == seq![o] + flat_orders(
                    olds.skip(ii),
                ));
                assert(flat0.take(p) =~= flat_orders(olds.take(ii)));
                assert(flat0.skip(p) =~= flat_orders(olds.skip(ii)));
                assert(flat_orders(self.levels@) =~= flat0.insert(p, o));
                lemma_flat_better_than(olds.take(ii), side, o.px);
                assert(forall|j: int|
                    0 <= j < olds.skip(ii).len() ==> better(
                        side,
                        o.px,
                        (#[trigger] olds.skip(ii)[j]).px,
                    ));
                lemma_flat_worse_than(olds.skip(ii), side, o.px);
                assert forall|m: int| 0 <= m < p implies better_eq(
                    side,
                    (#[trigger] flat0[m]).px,
                    o.px,
                ) by {
                    assert(flat0[m] == flat_orders(olds.take(ii))[m]);
                }
                assert forall|m: int| p <= m < flat0.len() implies better(
                    side,
                    o.px,
                    (#[trigger] flat0[m]).px,
                ) by {
                    assert(flat0[m] == flat0.skip(p)[m - p]);
                }
                assert(old(self).orders_in_priority() == flat0);
                assert(self.orders_in_priority() == old(self).orders_in_priority().insert(p, o));
            }
        }
    }

    /// Decrements the remaining quantity of the best level's oldest
    /// order by `q`; removes the order if it is exhausted, and the level
    /// if its queue empties. In priority order, the head order is
    /// reduced or dropped and nothing else moves.
    pub fn reduce_or_remove_front(&mut self, q: u64)
        requires
            old(self).wf(),
            !old(self).spec_is_empty(),
            1 <= q <= old(self).levels@[0].orders@[0].rest,
        ensures
            final(self).wf(),
            final(self).side == old(self).side,
            ({
                let flat0 = old(self).orders_in_priority();
                let head = old(self).levels@[0].orders@[0];
                if q == head.rest {
                    final(self).orders_in_priority() == flat0.skip(1)
                } else {
                    final(self).orders_in_priority() == flat0.update(
                        0,
                        head.with_rest((head.rest - q) as u64),
                    )
                }
            }),
            !final(self).spec_is_empty() ==> better_eq(
                old(self).side,
                old(self).spec_best_px(),
                final(self).spec_best_px(),
            ),
    {
        let ghost olds = self.levels@;
        let ghost side = self.side;
        let ghost flat0 = flat_orders(olds);
        proof {
            assert(flat0 == olds[0].orders@ + flat_orders(olds.skip(1)));
        }
        let mut lv: PriceLevel = self.levels.remove(0);
        let front: Order = lv.orders.remove(0);
        proof {
            assert(self.levels@ =~= olds.skip(1));
        }
        if q < front.rest {
            let mut o: Order = front;
            o.rest = front.rest - q;
            lv.orders.insert(0, o);
            self.levels.insert(0, lv);
            proof {
                assert(self.levels@[0].orders@ =~= olds[0].orders@.update(0, o));
                assert(self.levels@ =~= olds.update(0, self.levels@[0]));
                assert(self.levels@.skip(1) =~= olds.skip(1));
                assert(flat_orders(self.levels@) == self.levels@[0].orders@ + flat_orders(
                    self.levels@.skip(1),
                ));
                assert(flat_orders(self.levels@) =~= flat0.update(0, o));
                assert forall|a: int, b: int|
                    0 <= a < b < self.levels@.len() implies better(
                    side,
                    self.levels@[a].px,
                    self.levels@[b].px,
                ) by {
                    assert(better(side, olds[a].px, olds[b].px));
                }
            }
        } else {
            if lv.orders.len() > 0 {
                self.levels.insert(0, lv);
                proof {
                    assert(self.levels@[0].orders@ =~= olds[0].orders@.skip(1));
                    assert(self.levels@.skip(1) =~= olds.skip(1));
                    assert(flat_orders(self.levels@) == self.levels@[0].orders@ + flat_orders(
                        self.levels@.skip(1),
                    ));
                    assert(flat_orders(self.levels@) =~= flat0.skip(1));
                    assert forall|a: int, b: int|
                        0 <= a < b < self.levels@.len() implies better(
                        side,
                        self.levels@[a].px,
                        self.levels@[b].px,
                    ) by {
                        assert(better(side, olds[a].px, olds[b].px));
                    }
                }
            } else {
                proof {
                    assert(olds[0].orders@.len() == 1);
                    assert(flat_orders(self.levels@) =~= flat0.skip(1));
                    if self.levels@.len() > 0 {
                        assert(better(side, olds[0].px, olds[1].px));
                    }
                }
            }
        }
    }
}

/// The exact shape of a FIFO insert of `o` with witness position `i`:
/// the levels before `i` keep a strictly better price; either `o` was
/// pushed onto the back of the existing level at its price, or a fresh
/// single-order level was created at position `i`, everything else
/// unchanged.
pub open spec fn inserted_shape(
    olds: Seq<PriceLevel>,
    news: Seq<PriceLevel>,
    side: Side,
    o: Order,
    i: int,
) -> bool {
    &&& 0 <= i <= olds.len()
    &&& forall|j: int|
        0 <= j < i ==> level_unchanged(olds[j], #[trigger] news[j]) && better(
            side,
            olds[j].px,
            o.px,
        )
    &&& if i < olds.len() && olds[i].px == o.px {
        &&& news.len() == olds.len()
        &&& news[i].px == o.px
        &&& news[i].orders@ == olds[i].orders@.push(o)
        &&& forall|j: int| i < j < olds.len() ==> level_unchanged(olds[j], #[trigger] news[j])
    } else {
        &&& (i == olds.len() || better(side, o.px, olds[i].px))
        &&& news.len() == olds.len() + 1
        &&& news[i].px == o.px
        &&& news[i].orders@ == seq![o]
        &&& forall|j: int| i <= j < olds.len() ==> level_unchanged(olds[j], #[trigger] news[j + 1])
    }
}

/// Two levels that hold the same price and the same queue.
pub open spec fn level_unchanged(a: PriceLevel, b: PriceLevel) -> bool {
    a.px == b.px && a.orders@ == b.orders@
}

} // verus!
