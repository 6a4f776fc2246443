//! The engine's stated laws, proved from the same spec predicates that
//! `submit_limit` and `match_order` promise in their contracts.

use vstd::prelude::*;
use crate::order::Side;
use crate::order::Order;
use crate::order::better;
use crate::order::better_eq;
use crate::event_log::Event;
use crate::level_book::PriceLevelBook;
use crate::level_book::lemma_flat_props;
use crate::book::Book;
use crate::book::fills_match_prefix;
use crate::book::consumed_book;
use crate::book::sum_fill_qty;

verus! {

/// What remains of resting order `i` after the fills of one submission:
/// every touched order ahead of the last touched one is exhausted, the
/// last touched one keeps what the final fill left, and orders behind
/// the touched prefix are untouched.
pub open spec fn rest_after(olds: Seq<Order>, fills: Seq<Event>, i: int) -> int {
    if i < fills.len() - 1 {
        0
    } else if i == fills.len() - 1 {
        olds[i].rest - fills[i].fill_qty
    } else {
        olds[i].rest as int
    }
}

/// The quantity resting order `i` traded in the fills of one submission.
pub open spec fn fill_received(fills: Seq<Event>, i: int) -> int {
    if 0 <= i < fills.len() {
        fills[i].fill_qty as int
    } else {
        0
    }
}

/// Conservation: for the aggressor of one submission, the original
/// quantity equals the residual plus the sum of its fill quantities;
/// and every resting order's prior remaining quantity equals what it
/// traded plus what remains of it afterwards. So no quantity is ever
/// created or lost by matching.
pub proof fn lemma_conservation(
    fills: Seq<Event>,
    olds: Seq<Order>,
    id: u64,
    side: Side,
    px: u64,
    qty: u64,
    resid: int,
)
    requires
        fills_match_prefix(fills, olds, id, side, px, qty, qty),
        resid == qty - sum_fill_qty(fills),
    ensures
        qty == resid + sum_fill_qty(fills),
        forall|i: int|
            0 <= i < olds.len() ==> (#[trigger] olds[i]).rest == fill_received(fills, i)
                + rest_after(olds, fills, i),
        fills.len() > 0 && fills.last().fill_qty < olds[fills.len() - 1].rest ==> consumed_book(
            olds,
            fills,
        )[0].rest == rest_after(olds, fills, fills.len() - 1),
{
    assert forall|i: int|
        0 <= i < olds.len() implies (#[trigger] olds[i]).rest == fill_received(fills, i)
        + rest_after(olds, fills, i) by {
        if i < fills.len() - 1 {
            assert(fills[i].fill_qty == olds[i].rest);
        }
    }
}

/// The total remaining quantity of a sequence of resting orders.
pub open spec fn sum_rest(s: Seq<Order>) -> int
    decreases s.len(),
{
    if s.len() == 0 {
        0
    } else {
        s[0].rest + sum_rest(s.skip(1))
    }
}

/// Book-level conservation: across one submission, the total resting
/// quantity the opposite side loses equals the total quantity traded —
/// matching moves quantity, it never creates or destroys it.
pub proof fn lemma_book_conservation(
    fills: Seq<Event>,
    olds: Seq<Order>,
    id: u64,
    side: Side,
    px: u64,
    qty: u64,
    rest0: u64,
)
    requires
        fills_match_prefix(fills, olds, id, side, px, qty, rest0),
    ensures
        sum_rest(olds) == sum_rest(consumed_book(olds, fills)) + sum_fill_qty(fills),
    decreases fills.len(),
{
    let k = fills.len() as int;
    if k == 0 {
        assert(olds.skip(0) =~= olds);
        assert(consumed_book(olds, fills) == olds);
    } else {
        let fills2 = fills.drop_last();
        assert forall|i: int| 0 <= i < fills2.len() implies {
            let e = #[trigger] fills2[i];
            &&& e.kind == crate::event_log::EventKind::Fill
            &&& e.id == id
            &&& e.side == side
            &&& e.px == px
            &&& e.qty == qty
            &&& e.fill_px == olds[i].px
            &&& 1 <= e.fill_qty <= olds[i].rest
            &&& crate::order::spec_marketable(side, px, olds[i].px)
            &&& e.rest == rest0 - sum_fill_qty(fills2.take(i + 1))
        } by {
            assert(fills2[i] == fills[i]);
            assert(fills2.take(i + 1) =~= fills.take(i + 1));
        }
        assert(fills_match_prefix(fills2, olds, id, side, px, qty, rest0));
        lemma_book_conservation(fills2, olds, id, side, px, qty, rest0);
        assert(sum_fill_qty(fills) == sum_fill_qty(fills2) + fills.last().fill_qty);
        // the first k - 1 fills are full, so the previous consumption is
        // exactly the suffix from k - 1
        if fills2.len() > 0 {
            assert(fills2.last() == fills[k - 2]);
            assert(fills[k - 2].fill_qty == olds[k - 2].rest);
        }
        assert(consumed_book(olds, fills2) == olds.skip(k - 1));
        // peel the head of that suffix
        assert(olds.skip(k - 1).len() > 0);
        assert(olds.skip(k - 1)[0] == olds[k - 1]);
        assert(olds.skip(k - 1).skip(1) =~= olds.skip(k));
        assert(sum_rest(olds.skip(k - 1)) == olds[k - 1].rest + sum_rest(olds.skip(k)));
        let q = fills.last().fill_qty;
        assert(fills.last() == fills[k - 1]);
        if q < olds[k - 1].rest {
            let head = olds[k - 1].with_rest((olds[k - 1].rest - q) as u64);
            let consumed = consumed_book(olds, fills);
            assert(consumed == seq![head] + olds.skip(k));
            assert(consumed[0] == head);
            assert(consumed.skip(1) =~= olds.skip(k));
            assert(sum_rest(consumed) == head.rest + sum_rest(olds.skip(k)));
        } else {
            assert(consumed_book(olds, fills) == olds.skip(k));
        }
    }
}

/// Price priority: a resting order receives a fill only if every order
/// at a strictly better price on its side was consumed completely
/// first — a worse price never trades while a better one still has
/// remaining quantity.
pub proof fn lemma_price_priority(
    book: PriceLevelBook,
    fills: Seq<Event>,
    id: u64,
    side: Side,
    px: u64,
    qty: u64,
    rest0: u64,
)
    requires
        book.wf(),
        fills_match_prefix(fills, book.orders_in_priority(), id, side, px, qty, rest0),
    ensures
        forall|i: int, j: int|
            #![trigger book.orders_in_priority()[i], fills[j]]
            0 <= i < book.orders_in_priority().len() && 0 <= j < fills.len() && better(
                book.side,
                book.orders_in_priority()[i].px,
                book.orders_in_priority()[j].px,
            ) ==> i < j && fills[i].fill_qty == book.orders_in_priority()[i].rest,
{
    let flat = book.orders_in_priority();
    lemma_flat_props(book.levels@, book.side);
    assert forall|i: int, j: int|
        #![trigger flat[i], fills[j]]
        0 <= i < flat.len() && 0 <= j < fills.len() && better(
            book.side,
            flat[i].px,
            flat[j].px,
        ) implies i < j && fills[i].fill_qty == flat[i].rest by {
        if i > j {
            assert(better_eq(book.side, flat[j].px, flat[i].px));
            assert(false);
        }
        if i == j {
            assert(false);
        }
        assert(i < fills.len() - 1);
        assert(fills[i].fill_qty == flat[i].rest);
    }
}

/// Time priority: among resting orders at the same price, a later
/// arrival receives a fill only after every earlier arrival at that
/// price was consumed completely.
pub proof fn lemma_time_priority(
    book: PriceLevelBook,
    fills: Seq<Event>,
    id: u64,
    side: Side,
    px: u64,
    qty: u64,
    rest0: u64,
)
    requires
        book.wf(),
        fills_match_prefix(fills, book.orders_in_priority(), id, side, px, qty, rest0),
    ensures
        forall|i: int, j: int|
            #![trigger fills[i], fills[j]]
            0 <= i < j < fills.len() && book.orders_in_priority()[i].px
                == book.orders_in_priority()[j].px ==> fills[i].fill_qty
                == book.orders_in_priority()[i].rest,
{
}

/// Replaying the log reconstructs the live remaining-quantity
/// trajectory: the remaining quantity each fill event records equals
/// the original quantity minus the sum of the fill quantities up to and
/// including it, and it strictly decreases from fill to fill.
pub proof fn lemma_log_replay(
    fills: Seq<Event>,
    olds: Seq<Order>,
    id: u64,
    side: Side,
    px: u64,
    qty: u64,
)
    requires
        fills_match_prefix(fills, olds, id, side, px, qty, qty),
    ensures
        forall|k: int|
            0 <= k < fills.len() ==> (#[trigger] fills[k]).rest == qty - sum_fill_qty(
                fills.take(k + 1),
            ),
        forall|k: int|
            1 <= k < fills.len() ==> (#[trigger] fills[k]).rest < fills[k - 1].rest,
{
    assert forall|k: int|
        1 <= k < fills.len() implies (#[trigger] fills[k]).rest < fills[k - 1].rest by {
        assert(fills.take(k + 1).drop_last() =~= fills.take(k));
        assert(fills.take(k + 1).last() == fills[k]);
        assert(sum_fill_qty(fills.take(k + 1)) == sum_fill_qty(fills.take(k))
            + fills[k].fill_qty);
        assert(fills[k].rest == qty - sum_fill_qty(fills.take(k + 1)));
        assert(fills[k - 1].rest == qty - sum_fill_qty(fills.take(k)));
        assert(fills[k].fill_qty >= 1);
    }
}

/// Id uniqueness and monotonicity: `submit_limit` returns the
/// allocator's next id and increments it, so across two successive
/// successful submissions the ids are distinct and strictly
/// increasing; across N submissions, N distinct, strictly increasing
/// ids are returned.
pub proof fn lemma_ids_strictly_increase(b0: Book, b1: Book, b2: Book, id1: u64, id2: u64)
    requires
        id1 == b0.ids.next,
        b1.ids.next == b0.ids.next + 1,
        id2 == b1.ids.next,
        b2.ids.next == b1.ids.next + 1,
    ensures
        id1 < id2,
{
}

} // verus!
