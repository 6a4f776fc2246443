//! The composition root: the order-id allocator, both sides of the
//! book, the event log, and `submit_limit`, the sole entry point.
//!
//! Matching walks the opposite side best price first, oldest order
//! first within a price, and records one fill event per resting order
//! touched, before the mutation it describes becomes permanent.

use vstd::prelude::*;
use crate::order::Side;
use crate::order::Order;
use crate::order::better_eq;
use crate::order::spec_marketable;
use crate::order::marketable;
use crate::event_log::Event;
use crate::event_log::EventKind;
use crate::event_log::EventLog;
use crate::level_book::PriceLevelBook;
use crate::level_book::inserted_shape;
use crate::level_book::lemma_flat_props;
use crate::order_id::OrderIdAllocator;

verus! {

/// Why a submission was rejected. Invalid input never mutates the book
/// and never consumes an order id.
#[derive(Clone, Copy, PartialEq, Eq, Structural, Debug)]
pub enum SubmitError {
    /// The submitted quantity was zero.
    InvalidQuantity,
    /// The submitted limit price was zero.
    InvalidPrice,
}

/// The total quantity traded by a sequence of fill events.
pub open spec fn sum_fill_qty(es: Seq<Event>) -> int
    decreases es.len(),
{
    if es.len() == 0 {
        0
    } else {
        sum_fill_qty(es.drop_last()) + es.last().fill_qty
    }
}

pub proof fn lemma_sum_fill_qty_nonneg(es: Seq<Event>)
    ensures
        0 <= sum_fill_qty(es),
    decreases es.len(),
{
    if es.len() > 0 {
        lemma_sum_fill_qty_nonneg(es.drop_last());
    }
}

pub proof fn lemma_sum_fill_qty_push(es: Seq<Event>, e: Event)
    ensures
        sum_fill_qty(es.push(e)) == sum_fill_qty(es) + e.fill_qty,
{
    assert(es.push(e).drop_last() =~= es);
    assert(es.push(e).last() == e);
}

/// The fill events of one submission, against the opposite side as it
/// stood when the order arrived (`olds`, in priority order). The i-th
/// fill trades with the i-th resting order: at that order's price, for
/// at least 1 and at most its remaining quantity, marketable against
/// the incoming limit, and every fill but the last consumes its resting
/// order completely — time priority within a price, price priority
/// across prices. Each event records the aggressor's remaining quantity
/// after it: the initial remaining minus the fills so far.
pub open spec fn fills_match_prefix(
    fills: Seq<Event>,
    olds: Seq<Order>,
    id: u64,
    side: Side,
    px: u64,
    qty: u64,
    rest0: u64,
) -> bool {
    &&& fills.len() <= olds.len()
    &&& forall|i: int|
        0 <= i < fills.len() ==> {
            let e = #[trigger] fills[i];
            &&& e.kind == EventKind::Fill
            &&& e.id == id
            &&& e.side == side
            &&& e.px == px
            &&& e.qty == qty
            &&& e.fill_px == olds[i].px
            &&& 1 <= e.fill_qty <= olds[i].rest
            &&& spec_marketable(side, px, olds[i].px)
            &&& e.rest == rest0 - sum_fill_qty(fills.take(i + 1))
        }
    &&& forall|i: int|
        0 <= i < fills.len() - 1 ==> (#[trigger] fills[i]).fill_qty == olds[i].rest
}

/// The opposite side's priority sequence after the fills: the touched
/// prefix is consumed; only the last touched order may survive with its
/// remaining quantity reduced; everything behind it is untouched.
pub open spec fn consumed_book(olds: Seq<Order>, fills: Seq<Event>) -> Seq<Order> {
    let k = fills.len() as int;
    if fills.len() > 0 && fills.last().fill_qty < olds[k - 1].rest {
        seq![olds[k - 1].with_rest((olds[k - 1].rest - fills.last().fill_qty) as u64)]
            + olds.skip(k)
    } else {
        olds.skip(k)
    }
}

/// The fill events of one submission's appended log slice: all of it,
/// unless a final `New` record closes the episode.
pub open spec fn submit_fills(appended: Seq<Event>) -> Seq<Event> {
    if appended.len() > 0 && appended.last().kind == EventKind::New {
        appended.drop_last()
    } else {
        appended
    }
}

/// Consumes an incoming order against the opposite-side book,
/// best price first and FIFO within a price, recording one fill event
/// per resting order touched, in the order the fills happen and before
/// the book mutation each one describes. Stops when the order is
/// exhausted, the book is empty, or its best price is no longer
/// marketable against the incoming limit.
pub fn match_order(incoming: &mut Order, opp: &mut PriceLevelBook, log: &mut EventLog)
    requires
        old(incoming).px >= 1,
        old(incoming).qty >= 1,
        old(incoming).rest <= old(incoming).qty,
        old(opp).wf(),
        old(opp).side == old(incoming).side.spec_opposite(),
        old(log).wf(),
    ensures
        final(incoming).id == old(incoming).id,
        final(incoming).side == old(incoming).side,
        final(incoming).px == old(incoming).px,
        final(incoming).qty == old(incoming).qty,
        final(incoming).rest <= old(incoming).rest,
        final(opp).side == old(opp).side,
        final(opp).wf(),
        final(log).wf(),
        final(log).last_ts >= old(log).last_ts,
        final(log).events@.len() >= old(log).events@.len(),
        final(log).events@.take(old(log).events@.len() as int) == old(log).events@,
        ({
            let fills = final(log).events@.skip(old(log).events@.len() as int);
            let olds = old(opp).orders_in_priority();
            &&& fills_match_prefix(
                fills,
                olds,
                old(incoming).id,
                old(incoming).side,
                old(incoming).px,
                old(incoming).qty,
                old(incoming).rest,
            )
            &&& final(incoming).rest == old(incoming).rest - sum_fill_qty(fills)
            &&& final(opp).orders_in_priority() == consumed_book(olds, fills)
        }),
        final(incoming).rest == 0 || final(opp).spec_is_empty() || !spec_marketable(
            old(incoming).side,
            old(incoming).px,
            final(opp).spec_best_px(),
        ),
        old(opp).spec_is_empty() ==> final(opp).spec_is_empty(),
        !old(opp).spec_is_empty() && !final(opp).spec_is_empty() ==> better_eq(
            old(opp).side,
            old(opp).spec_best_px(),
            final(opp).spec_best_px(),
        ),
{
    let ghost olds = opp.orders_in_priority();
    let ghost base = log.events@.len() as int;
    let ghost ev0 = log.events@;
    let ghost id0 = incoming.id;
    let ghost side0 = incoming.side;
    let ghost px0 = incoming.px;
    let ghost qty0 = incoming.qty;
    let ghost rest0 = incoming.rest;
    let ghost lts0 = log.last_ts;
    proof {
        assert(ev0.skip(base) =~= Seq::<Event>::empty());
        assert(consumed_book(olds, Seq::<Event>::empty()) =~= olds);
        assert(ev0.take(base) =~= ev0);
        lemma_flat_props(opp.levels@, opp.side);
    }
    loop
        invariant
            incoming.id == id0,
            incoming.side == side0,
            incoming.px == px0,
            incoming.qty == qty0,
            incoming.rest <= rest0,
            opp.wf(),
            opp.side == side0.spec_opposite(),
            log.wf(),
            log.last_ts >= lts0,
            base == ev0.len(),
            log.events@.len() >= base,
            log.events@.take(base) == ev0,
            fills_match_prefix(log.events@.skip(base), olds, id0, side0, px0, qty0, rest0),
            incoming.rest == rest0 - sum_fill_qty(log.events@.skip(base)),
            opp.orders_in_priority() == consumed_book(olds, log.events@.skip(base)),
            incoming.rest > 0 ==> (log.events@.skip(base).len() == 0 || log.events@.skip(
                base,
            ).last().fill_qty == olds[log.events@.skip(base).len() - 1].rest),
        ensures
            incoming.rest == 0 || opp.spec_is_empty() || !spec_marketable(
                side0,
                px0,
                opp.spec_best_px(),
            ),
        decreases opp.orders_in_priority().len(), incoming.rest,
    {
        if incoming.rest == 0 {
            break ;
        }
        if opp.is_empty() {
            break ;
        }
        let ghost fills = log.events@.skip(base);
        let ghost k = fills.len() as int;
        proof {
            assert(opp.orders_in_priority() == olds.skip(k));
            lemma_flat_props(opp.levels@, opp.side);
            assert(opp.orders_in_priority().len() > 0);
            assert(k < olds.len());
        }
        let best: u64 = best_px(opp);
        if !marketable(incoming.side, incoming.px, best) {
            break ;
        }
        let front: Order = front_order(opp);
        proof {
            assert(opp.orders_in_priority()[0] == opp.levels@[0].orders@[0]);
            assert(olds.skip(k)[0] == olds[k]);
            assert(front == olds[k]);
            assert(front.px == opp.levels@[0].px);
            assert(front.wf());
        }
        let q: u64 = if incoming.rest < front.rest {
            incoming.rest
        } else {
            front.rest
        };
        let ghost rest_before = incoming.rest;
        incoming.rest = incoming.rest - q;
        log.record(
            EventKind::Fill,
            incoming.id,
            incoming.side,
            incoming.px,
            incoming.qty,
            incoming.rest,
            best,
            q,
        );
        let ghost e = log.events@.last();
        let ghost fills2 = log.events@.skip(base);
        proof {
            assert(fills2 =~= fills.push(e));
            assert(log.events@.take(base) =~= ev0);
            lemma_sum_fill_qty_push(fills, e);
            assert(fills2.take(k + 1) =~= fills2);
            assert(e.rest == rest0 - sum_fill_qty(fills2.take(k + 1)));
            assert forall|i: int| 0 <= i < fills2.len() implies {
                let ei = #[trigger] fills2[i];
                &&& ei.kind == EventKind::Fill
                &&& ei.id == id0
                &&& ei.side == side0
                &&& ei.px == px0
                &&& ei.qty == qty0
                &&& ei.fill_px == olds[i].px
                &&& 1 <= ei.fill_qty <= olds[i].rest
                &&& spec_marketable(side0, px0, olds[i].px)
                &&& ei.rest == rest0 - sum_fill_qty(fills2.take(i + 1))
            } by {
                if i < k {
                    assert(fills2[i] == fills[i]);
                    assert(fills2.take(i + 1) =~= fills.take(i + 1));
                } else {
                    assert(fills2[i] == e);
                }
            }
            assert(fills_match_prefix(fills2, olds, id0, side0, px0, qty0, rest0));
        }
        let ghost flat_cur = opp.orders_in_priority();
        opp.reduce_or_remove_front(q);
        proof {
            if q == front.rest {
                assert(opp.orders_in_priority() == flat_cur.skip(1));
                assert(opp.orders_in_priority() =~= olds.skip(k + 1));
                assert(consumed_book(olds, fills2) =~= olds.skip(k + 1));
            } else {
                assert(incoming.rest == 0);
                assert(q == rest_before);
                assert(opp.orders_in_priority() == flat_cur.update(
                    0,
                    front.with_rest((front.rest - q) as u64),
                ));
                assert(consumed_book(olds, fills2) == seq![
                    olds[k].with_rest((olds[k].rest - q) as u64),
                ] + olds.skip(k + 1));
                assert(opp.orders_in_priority() =~= consumed_book(olds, fills2));
            }
        }
    }
    proof {
        let fills = log.events@.skip(base);
        lemma_sum_fill_qty_nonneg(fills);
        if olds.len() > 0 && !opp.spec_is_empty() {
            lemma_flat_props(opp.levels@, opp.side);
            let flat = opp.orders_in_priority();
            assert(flat.len() > 0);
            assert(flat[0] == opp.levels@[0].orders@[0]);
            assert(flat == consumed_book(olds, fills));
            let k = fills.len() as int;
            if fills.len() > 0 && fills.last().fill_qty < olds[k - 1].rest {
                assert(flat[0] == olds[k - 1].with_rest(
                    (olds[k - 1].rest - fills.last().fill_qty) as u64,
                ));
                assert(flat[0].px == olds[k - 1].px);
            } else {
                assert(flat[0] == olds.skip(k)[0]);
                assert(flat[0].px == olds[k].px);
            }
            lemma_flat_props(old(opp).levels@, old(opp).side);
            assert(olds[0].px == old(opp).spec_best_px() || olds.len() == 0);
            assert(better_eq(opp.side, old(opp).spec_best_px(), opp.spec_best_px()));
        }
        if olds.len() == 0 {
            assert(fills.len() == 0);
            assert(opp.orders_in_priority() =~= Seq::<Order>::empty());
            lemma_flat_props(opp.levels@, opp.side);
        }
    }
}

/// The matching engine: the id allocator, both sides of the book, and
/// the event log, owned together so that one `submit_limit` call runs
/// to completion with no intermediate state visible.
pub struct Book {
    pub ids: OrderIdAllocator,
    pub buys: PriceLevelBook,
    pub sells: PriceLevelBook,
    pub log: EventLog,
}

impl Book {
    /// The book's invariant: the next id is at least 1, each side is a
    /// well-formed price-level book of its own side, the log's
    /// timestamps never decrease, and the book never crosses.
    pub open spec fn wf(self) -> bool {
        &&& self.ids.wf()
        &&& self.buys.side == Side::Buy
        &&& self.sells.side == Side::Sell
        &&& self.buys.wf()
        &&& self.sells.wf()
        &&& self.log.wf()
        &&& self.no_cross()
    }

    /// The best bid is strictly below the best ask, or a side is empty.
    pub open spec fn no_cross(self) -> bool {
        self.buys.spec_is_empty() || self.sells.spec_is_empty() || self.buys.spec_best_px()
            < self.sells.spec_best_px()
    }

    /// The side an incoming order of side `side` matches against.
    pub open spec fn spec_opp_book(self, side: Side) -> PriceLevelBook {
        match side {
            Side::Buy => self.sells,
            Side::Sell => self.buys,
        }
    }

    /// The side an incoming order of side `side` rests on.
    pub open spec fn spec_same_book(self, side: Side) -> PriceLevelBook {
        match side {
            Side::Buy => self.buys,
            Side::Sell => self.sells,
        }
    }

    /// An empty book over an in-memory event log. Ids start at 1.
    pub fn new() -> (r: Book)
        ensures
            r.wf(),
            r.ids.next == 1,
            r.buys.spec_is_empty(),
            r.sells.spec_is_empty(),
            r.log.events@.len() == 0,
    {
        Book {
            ids: OrderIdAllocator::new(),
            buys: PriceLevelBook::new(Side::Buy),
            sells: PriceLevelBook::new(Side::Sell),
            log: EventLog::new(),
        }
    }

    /// Submits a limit order. A zero quantity or a zero price is
    /// rejected before any allocator or log interaction. Otherwise the
    /// order takes the next id, matches against the opposite side
    /// (fills logged in the order they happen), and any residual rests
    /// on its own side under a single `New` record. The appended log
    /// slice and both sides' new contents are pinned exactly by the
    /// contract; the book never crosses afterwards.
    pub fn submit_limit(&mut self, side: Side, px: u64, qty: u64) -> (r: Result<u64, SubmitError>)
        requires
            old(self).wf(),
            old(self).ids.next < u64::MAX,
        ensures
            final(self).wf(),
            final(self).no_cross(),
            final(self).log.events@.len() >= old(self).log.events@.len(),
            qty == 0 ==> r == Err::<u64, SubmitError>(SubmitError::InvalidQuantity) && *final(self)
                == *old(self),
            qty >= 1 && px == 0 ==> r == Err::<u64, SubmitError>(SubmitError::InvalidPrice)
                && *final(self) == *old(self),
            qty >= 1 && px >= 1 ==> ({
                let appended = final(self).log.events@.skip(old(self).log.events@.len() as int);
                let fills = submit_fills(appended);
                let olds = old(self).spec_opp_book(side).orders_in_priority();
                let resid = qty - sum_fill_qty(fills);
                &&& r == Ok::<u64, SubmitError>(old(self).ids.next)
                &&& final(self).ids.next == old(self).ids.next + 1
                &&& final(self).log.events@.take(old(self).log.events@.len() as int) == old(
                    self,
                ).log.events@
                &&& final(self).log.last_ts >= old(self).log.last_ts
                &&& fills_match_prefix(fills, olds, old(self).ids.next, side, px, qty, qty)
                &&& final(self).spec_opp_book(side).orders_in_priority() == consumed_book(
                    olds,
                    fills,
                )
                &&& 0 <= resid <= qty
                &&& (resid > 0 ==> {
                    let e = appended.last();
                    &&& appended.len() == fills.len() + 1
                    &&& e.kind == EventKind::New
                    &&& e.id == old(self).ids.next
                    &&& e.side == side
                    &&& e.px == px
                    &&& e.qty == qty
                    &&& e.rest == resid
                    &&& e.fill_px == 0
                    &&& e.fill_qty == 0
                    &&& exists|i: int|
                        #[trigger] inserted_shape(
                            old(self).spec_same_book(side).levels@,
                            final(self).spec_same_book(side).levels@,
                            side,
                            Order { id: old(self).ids.next, side, px, qty, rest: resid as u64 },
                            i,
                        )
                })
                &&& (resid == 0 ==> appended == fills && final(self).spec_same_book(side) == old(
                    self,
                ).spec_same_book(side))
                &&& (resid > 0 ==> final(self).spec_opp_book(side).spec_is_empty()
                    || !spec_marketable(side, px, final(self).spec_opp_book(side).spec_best_px()))
            }),
    {
        if qty == 0 {
            return Err(SubmitError::InvalidQuantity);
        }
        if px == 0 {
            return Err(SubmitError::InvalidPrice);
        }
        let ghost base = self.log.events@.len() as int;
        let ghost ev0 = self.log.events@;
        let ghost pre = *self;
        let id = self.ids.next_id();
        let mut order = Order { id, side, px, qty, rest: qty };
        match side {
            Side::Buy => {
                match_order(&mut order, &mut self.sells, &mut self.log);
            },
            Side::Sell => {
                match_order(&mut order, &mut self.buys, &mut self.log);
            },
        }
        let ghost fills = self.log.events@.skip(base);
        proof {
            lemma_sum_fill_qty_nonneg(fills);
            if fills.len() > 0 {
                assert(fills.last() == fills[fills.len() - 1]);
                assert(fills.last().kind == EventKind::Fill);
            }
        }
        if order.rest > 0 {
            self.log.record(EventKind::New, id, side, px, qty, order.rest, 0, 0);
            let ghost appended = self.log.events@.skip(base);
            proof {
                assert(appended =~= fills.push(self.log.events@.last()));
                assert(appended.drop_last() =~= fills);
                assert(submit_fills(appended) == fills);
                assert(self.log.events@.take(base) =~= ev0);
            }
            match side {
                Side::Buy => {
                    proof {
                        assert(order == Order { id, side, px, qty, rest: order.rest });
                    }
                    self.buys.insert(order);
                    proof {
                        if !self.sells.spec_is_empty() {
                            assert(!spec_marketable(Side::Buy, px, self.sells.spec_best_px()));
                            assert(px < self.sells.spec_best_px());
                            if !pre.buys.spec_is_empty() {
                                assert(pre.buys.spec_best_px() < pre.sells.spec_best_px());
                                assert(better_eq(
                                    Side::Sell,
                                    pre.sells.spec_best_px(),
                                    self.sells.spec_best_px(),
                                ));
                            }
                        }
                    }
                },
                Side::Sell => {
                    proof {
                        assert(order == Order { id, side, px, qty, rest: order.rest });
                    }
                    self.sells.insert(order);
                    proof {
                        if !self.buys.spec_is_empty() {
                            assert(!spec_marketable(Side::Sell, px, self.buys.spec_best_px()));
                            assert(px > self.buys.spec_best_px());
                            if !pre.sells.spec_is_empty() {
                                assert(pre.buys.spec_best_px() < pre.sells.spec_best_px());
                                assert(better_eq(
                                    Side::Buy,
                                    pre.buys.spec_best_px(),
                                    self.buys.spec_best_px(),
                                ));
                            }
                        }
                    }
                },
            }
        } else {
            proof {
                assert(submit_fills(fills) == fills);
                match side {
                    Side::Buy => {
                        if !self.buys.spec_is_empty() && !self.sells.spec_is_empty() {
                            assert(!pre.sells.spec_is_empty());
                            assert(better_eq(
                                Side::Sell,
                                pre.sells.spec_best_px(),
                                self.sells.spec_best_px(),
                            ));
                        }
                    },
                    Side::Sell => {
                        if !self.buys.spec_is_empty() && !self.sells.spec_is_empty() {
                            assert(!pre.buys.spec_is_empty());
                            assert(better_eq(
                                Side::Buy,
                                pre.buys.spec_best_px(),
                                self.buys.spec_best_px(),
                            ));
                        }
                    },
                }
            }
        }
        Ok(id)
    }
}

/// The best (first) price of a non-empty side; a helper for the
/// matching loop.
fn best_px(opp: &PriceLevelBook) -> (r: u64)
    requires
        opp.wf(),
        !opp.spec_is_empty(),
    ensures
        r == opp.spec_best_px(),
{
    opp.levels[0].px
}

/// The oldest order at the best price of a non-empty side.
fn front_order(opp: &PriceLevelBook) -> (r: Order)
    requires
        opp.wf(),
        !opp.spec_is_empty(),
    ensures
        r == opp.levels@[0].orders@[0],
{
    opp.levels[0].orders[0]
}

} // verus!
