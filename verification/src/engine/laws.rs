//! What holds of every book and of every match, proved of the model.
use crate::engine::book_proofs::lemma_remove_value;
use crate::engine::book_proofs::lemma_rest_inv;
use crate::engine::book_proofs::lemma_rest_not_crossed;
use crate::engine::book_proofs::lemma_set_qty_inv;
use crate::engine::book_proofs::lemma_unrest_inv;
use crate::engine::book_view::BookView;
use crate::engine::book_view::crosses;
use crate::engine::book_view::is_best;
use crate::engine::book_view::rest_event;
use crate::engine::book_view::trade_event;
use crate::engine::book_view::trades_of;
use crate::engine::execution::Execution;
use crate::engine::execution::ExecutionType;
use crate::engine::order::Order;
use crate::engine::order::OrderSide;
use vstd::prelude::*;

verus! {

/// A resting order is held by the level at its price on its side, and by no
/// other: wherever a level holds the id of an order, it is that level, and it
/// holds the id once.
pub proof fn law_index_coherence(v: BookView, id: u128)
    requires
        v.inv(),
        v.index.contains_key(id),
    ensures
        v.index[id].price is Some,
        v.ladder(v.index[id].order_side).contains_key(v.index[id].price->0),
        v.ladder(v.index[id].order_side)[v.index[id].price->0].contains(id),
        forall|side: OrderSide, p: i64, i: int|
            v.ladder(side).contains_key(p) && 0 <= i < v.ladder(side)[p].len() && v.ladder(
                side,
            )[p][i] == id ==> side == v.index[id].order_side && Some(p) == v.index[id].price && i
                == v.ladder(side)[p].index_of(id),
{
    assert(v.order_inv(id));
    assert forall|side: OrderSide, p: i64, i: int|
        v.ladder(side).contains_key(p) && 0 <= i < v.ladder(side)[p].len() && v.ladder(side)[p][i]
            == id implies side == v.index[id].order_side && Some(p) == v.index[id].price && i
        == v.ladder(side)[p].index_of(id) by {
        assert(v.level_inv(side, p));
        assert(v.rests_at(v.ladder(side)[p][i], side, p));
    }
}

/// Every order that a level holds is in the index, on the level's side and
/// at its price, with a quantity of at least 1.
pub proof fn law_level_orders_rest(v: BookView, side: OrderSide, p: i64, i: int)
    requires
        v.inv(),
        v.ladder(side).contains_key(p),
        0 <= i < v.ladder(side)[p].len(),
    ensures
        v.index.contains_key(v.ladder(side)[p][i]),
        v.index[v.ladder(side)[p][i]].order_id == v.ladder(side)[p][i],
        v.index[v.ladder(side)[p][i]].order_side == side,
        v.index[v.ladder(side)[p][i]].price == Some(p),
        v.index[v.ladder(side)[p][i]].qty >= 1,
{
    assert(v.level_inv(side, p));
    assert(v.rests_at(v.ladder(side)[p][i], side, p));
    assert(v.order_inv(v.ladder(side)[p][i]));
}

/// A side that has levels, and not endlessly many, has a best price.
pub proof fn lemma_best_exists(ladder: Map<i64, Seq<u128>>, side: OrderSide)
    requires
        ladder.dom().finite(),
        ladder.dom().len() > 0,
    ensures
        exists|p: i64| is_best(ladder, side, p),
    decreases ladder.dom().len(),
{
    let x = ladder.dom().choose();
    let rest = ladder.remove(x);
    assert(rest.dom() =~= ladder.dom().remove(x));
    if rest.dom().len() == 0 {
        assert forall|q: i64| #[trigger] ladder.contains_key(q) implies q == x by {
            if q != x {
                assert(rest.dom().contains(q));
            }
        }
        assert(is_best(ladder, side, x));
    } else {
        lemma_best_exists(rest, side);
        let m = choose|p: i64| is_best(rest, side, p);
        let best = match side {
            OrderSide::BID => if x >= m {
                x
            } else {
                m
            },
            OrderSide::ASK => if x <= m {
                x
            } else {
                m
            },
        };
        assert forall|q: i64| #[trigger] ladder.contains_key(q) implies match side {
            OrderSide::BID => q <= best,
            OrderSide::ASK => best <= q,
        } by {
            if q != x {
                assert(rest.contains_key(q));
            }
        }
        assert(is_best(ladder, side, best));
    }
}

/// A side of a sound book has a best price just when it has a level, and
/// that price is one of its levels, with no level of the side beyond it.
pub proof fn law_best_price(v: BookView, side: OrderSide)
    requires
        v.inv(),
    ensures
        v.best(side) is None <==> forall|q: i64| !v.ladder(side).contains_key(q),
        v.best(side) matches Some(p) ==> is_best(v.ladder(side), side, p),
{
    let ladder = v.ladder(side);
    if exists|q: i64| ladder.contains_key(q) {
        let q = choose|q: i64| ladder.contains_key(q);
        assert(ladder.dom().contains(q));
        assert(ladder.dom().len() > 0);
        lemma_best_exists(ladder, side);
    }
}

/// A sound book is uncrossed just when its best bid is below its best ask,
/// or one of the two is missing.
pub proof fn law_best_prices_apart(v: BookView)
    requires
        v.inv(),
    ensures
        v.not_crossed() <==> (v.best_bid() is Some && v.best_ask() is Some ==> v.best_bid()->0
            < v.best_ask()->0),
{
    law_best_price(v, OrderSide::BID);
    law_best_price(v, OrderSide::ASK);
    if v.best_bid() is Some && v.best_ask() is Some {
        let b = v.best_bid()->0;
        let a = v.best_ask()->0;
        assert(v.bids.contains_key(b) && v.asks.contains_key(a));
        if b < a {
            assert forall|x: i64, y: i64| #[trigger]
                v.bids.contains_key(x) && #[trigger] v.asks.contains_key(y) implies x < y by {
                assert(v.ladder(OrderSide::BID).contains_key(x));
                assert(v.ladder(OrderSide::ASK).contains_key(y));
            }
        }
    } else if v.best_bid() is None {
        assert forall|x: i64, y: i64| #[trigger]
            v.bids.contains_key(x) && #[trigger] v.asks.contains_key(y) implies x < y by {
            assert(v.ladder(OrderSide::BID).contains_key(x));
        }
    } else {
        assert forall|x: i64, y: i64| #[trigger]
            v.bids.contains_key(x) && #[trigger] v.asks.contains_key(y) implies x < y by {
            assert(v.ladder(OrderSide::ASK).contains_key(y));
        }
    }
}

/// One trade keeps the book sound.
pub proof fn lemma_fill_inv(v: BookView, o: Order)
    requires
        v.inv(),
        v.can_fill(o),
    ensures
        v.fill(o).0.inv(),
{
    let side = o.order_side.opposite();
    let p = v.best(side)->0;
    let id = v.counterparty(o.order_side);
    assert(is_best(v.ladder(side), side, p));
    assert(v.level_inv(side, p));
    assert(v.rests_at(v.ladder(side)[p][0], side, p));
    assert(v.order_inv(id));
    let r = v.index[id];
    if o.qty < r.qty {
        lemma_set_qty_inv(v, id, (r.qty - o.qty) as i32);
    } else {
        lemma_unrest_inv(v, id);
    }
}

/// A trade takes the same quantity, at least 1, from the incoming order and
/// from the resting order that it trades with, and leaves every other resting
/// order as it was. The resting order leaves the book where nothing is left
/// of it.
pub proof fn law_trade_conserves_quantity(v: BookView, o: Order)
    requires
        v.inv(),
        v.can_fill(o),
    ensures
        ({
            let (w, rest, left) = v.fill(o);
            let head = v.counterparty(o.order_side);
            &&& o.qty - rest.qty == v.index[head].qty - left.qty
            &&& o.qty - rest.qty >= 1
            &&& rest.qty >= 0
            &&& left.qty >= 0
            &&& rest.qty == 0 || left.qty == 0
            &&& left.qty > 0 ==> w.index.contains_key(head) && w.index[head] == left
            &&& left.qty == 0 ==> !w.index.contains_key(head)
            &&& forall|id: u128|
                id != head ==> (w.index.contains_key(id) <==> v.index.contains_key(id))
                    && w.index[id] == v.index[id]
        }),
{
}

/// The quantity that the trades of an incoming order take from resting
/// orders, summed over the trades.
pub open spec fn resting_volume(v: BookView, o: Order) -> int
    decreases o.qty,
{
    if v.can_fill(o) {
        let (w, rest, left) = v.fill(o);
        (v.index[v.counterparty(o.order_side)].qty - left.qty) + resting_volume(w, rest)
    } else {
        0
    }
}

/// What the trades of an incoming order take from it is what they take from
/// the resting orders.
pub proof fn law_match_conserves_quantity(v: BookView, o: Order, last: Option<Order>)
    requires
        v.inv(),
    ensures
        o.qty - v.sweep(o, last).1.qty == resting_volume(v, o),
    decreases o.qty,
{
    if v.can_fill(o) {
        let (w, rest, left) = v.fill(o);
        lemma_fill_inv(v, o);
        law_trade_conserves_quantity(v, o);
        law_match_conserves_quantity(w, rest, Some(left));
    }
}

/// A trade is made at the price of the resting order, which is the best
/// price of its side, and that price becomes the last trade price.
pub proof fn law_trade_sets_last_price(v: BookView, o: Order)
    requires
        v.inv(),
        v.can_fill(o),
    ensures
        ({
            let (w, rest, left) = v.fill(o);
            &&& w.last_price == left.price
            &&& w.last_price == v.best(o.order_side.opposite())
            &&& w.last_price == v.index[v.counterparty(o.order_side)].price
        }),
{
    let side = o.order_side.opposite();
    let p = v.best(side)->0;
    assert(is_best(v.ladder(side), side, p));
    assert(v.level_inv(side, p));
    assert(v.rests_at(v.ladder(side)[p][0], side, p));
}

/// What the trades of an incoming order make of a sound book: a sound book,
/// in which no order rests that did not rest before, none has more quantity
/// than before, and the ladders have no new prices. Where there was a trade,
/// there is a last counterparty and a last trade price. When the trades end,
/// the order cannot trade any more.
pub proof fn lemma_sweep(v: BookView, o: Order, last: Option<Order>)
    requires
        v.inv(),
    ensures
        ({
            let (w, rest, end) = v.sweep(o, last);
            &&& w.inv()
            &&& !w.can_fill(rest)
            &&& rest == (Order { qty: rest.qty, ..o })
            &&& 0 <= rest.qty <= o.qty || rest == o
            &&& forall|id: u128| #[trigger]
                w.index.contains_key(id) ==> v.index.contains_key(id) && w.index[id].qty
                    <= v.index[id].qty
            &&& forall|q: i64| #[trigger] w.bids.contains_key(q) ==> v.bids.contains_key(q)
            &&& forall|q: i64| #[trigger] w.asks.contains_key(q) ==> v.asks.contains_key(q)
            &&& w.ladder(o.order_side) == v.ladder(o.order_side)
            &&& v.can_fill(o) ==> end is Some && w.last_price is Some && w.last_price
                == end->0.price
            &&& !v.can_fill(o) ==> end == last && w == v && rest == o
            &&& (last matches Some(l) && v.last_price == l.price && l.price is Some) ==> end is Some
                && w.last_price is Some && w.last_price == end->0.price
        }),
    decreases o.qty,
{
    if v.can_fill(o) {
        let (b, r, left) = v.fill(o);
        lemma_fill_inv(v, o);
        law_trade_conserves_quantity(v, o);
        law_trade_sets_last_price(v, o);
        lemma_sweep(b, r, Some(left));
        let id = v.counterparty(o.order_side);
        let side = o.order_side.opposite();
        let p = v.best(side)->0;
        assert(is_best(v.ladder(side), side, p));
        assert(v.level_inv(side, p));
        assert(v.rests_at(v.ladder(side)[p][0], side, p));
        assert(v.order_inv(id));
        assert(b.ladder(o.order_side) == v.ladder(o.order_side));
        assert forall|q: i64| #[trigger] b.bids.contains_key(q) implies v.bids.contains_key(q) by {}
        assert forall|q: i64| #[trigger] b.asks.contains_key(q) implies v.asks.contains_key(q) by {}
    }
}

/// The last counterparty of the trades of an incoming order is the resting
/// order of the last of the events of its trades, and that event shows the
/// incoming order as the trades leave it.
pub proof fn lemma_sweep_events(v: BookView, o: Order, last: Option<Order>)
    ensures
        ({
            let (w, rest, end) = v.sweep(o, last);
            let events = v.trade_events(o);
            &&& events.len() == 0 ==> w == v && rest == o && end == last
            &&& events.len() > 0 ==> events.last() == trade_event(rest, end->0) && end is Some
            &&& forall|i: int|
                0 <= i < events.len() ==> (#[trigger] events[i]).exec_type == ExecutionType::MATCH
                    && events[i].matched_order is Some
        }),
    decreases o.qty,
{
    if v.can_fill(o) {
        let (b, r, left) = v.fill(o);
        lemma_sweep_events(b, r, Some(left));
        let tail = b.trade_events(r);
        let events = v.trade_events(o);
        assert(events == seq![trade_event(r, left)] + tail);
        if tail.len() > 0 {
            assert(events.last() == tail.last());
        } else {
            assert(events.last() == trade_event(r, left));
        }
        assert forall|i: int| 0 <= i < events.len() implies (#[trigger] events[i]).exec_type
            == ExecutionType::MATCH && events[i].matched_order is Some by {
            if i > 0 {
                assert(events[i] == tail[i - 1]);
            }
        }
    }
}

/// The event that a match reports is the last of the events of its trades
/// and of its coming to rest; the book is the same, and so is a refusal.
pub proof fn law_match_reports_last_event(v: BookView, o: Order)
    ensures
        match v.match_order_trades(o) {
            Ok((book, events)) => events.len() > 0 && v.match_order(o) == Ok::<
                (BookView, Execution),
                crate::errors::OrderError,
            >((book, events.last())) && (forall|i: int|
                0 <= i < trades_of(events).len() ==> (#[trigger] trades_of(events)[i]).exec_type
                    == ExecutionType::MATCH && trades_of(events)[i].matched_order is Some)
                && trades_of(events) == v.trade_events(o),
            Err(e) => v.match_order(o) == Err::<(BookView, Execution), crate::errors::OrderError>(
                e,
            ),
        },
{
    lemma_sweep_events(v, o, None);
    if v.accept(o) is Ok {
        let (w, rest, end) = v.sweep(o, None);
        let events = v.trade_events(o);
        if rest.qty > 0 {
            if w.working_price(rest) is Some {
                assert(events.push(rest_event(rest)).drop_last() =~= events);
            }
        } else {
            assert(events.len() > 0);
        }
    }
}

/// An incoming order that the book takes and that can trade trades first
/// with the oldest order at the best price of the other side: the match
/// takes from that order as much as the incoming order has, or all of it,
/// and no other resting order is touched before it is filled.
pub proof fn law_price_time_priority(v: BookView, o: Order)
    requires
        v.inv(),
        v.accept(o) is Ok,
        v.can_fill(o),
    ensures
        ({
            let side = o.order_side.opposite();
            let head = v.counterparty(o.order_side);
            &&& is_best(v.ladder(side), side, v.best(side)->0)
            &&& head == v.ladder(side)[v.best(side)->0][0]
            &&& v.match_order(o) is Ok
            &&& ({
                let w = v.match_order(o)->Ok_0.0;
                &&& o.qty < v.index[head].qty ==> w.index.contains_key(head) && w.index[head].qty
                    == v.index[head].qty - o.qty
                &&& o.qty >= v.index[head].qty ==> !w.index.contains_key(head)
                &&& o.qty <= v.index[head].qty ==> forall|id: u128|
                    id != head ==> (w.index.contains_key(id) <==> v.index.contains_key(id))
                        && w.index[id] == v.index[id]
            })
        }),
{
    let side = o.order_side.opposite();
    let head = v.counterparty(o.order_side);
    let (b, r, left) = v.fill(o);
    lemma_fill_inv(v, o);
    law_trade_conserves_quantity(v, o);
    law_trade_sets_last_price(v, o);
    lemma_sweep(v, o, None);
    lemma_sweep(b, r, Some(left));
    let (w, rest, end) = v.sweep(o, None);
    assert((w, rest, end) == b.sweep(r, Some(left)));
    assert(is_best(v.ladder(side), side, v.best(side)->0));
    if o.qty <= v.index[head].qty {
        assert(r.qty == 0);
        assert(!b.can_fill(r));
        assert(w == b);
    } else {
        assert(!b.index.contains_key(head));
        assert(!w.index.contains_key(head));
    }
}

/// An order that is put on the book and then deleted leaves the book as it
/// was: the index, the ladders and with them the totals of the levels.
pub proof fn law_add_then_delete(v: BookView, o: Order)
    requires
        v.inv(),
        v.add_order(o) is Ok,
    ensures
        v.add_order(o)->Ok_0.delete_order(o.order_id) == Ok::<BookView, crate::errors::OrderError>(
            v,
        ),
{
    let p = v.working_price(o)->0;
    let resting = Order { price: Some(p), ..o };
    let w = v.rest(resting);
    let side = o.order_side;
    let id = o.order_id;
    let ladder = v.ladder(side);
    let ids = w.ladder(side)[p];
    if ladder.contains_key(p) {
        assert(v.level_inv(side, p));
        assert forall|i: int| 0 <= i < ladder[p].len() implies ladder[p][i] != id by {
            assert(v.rests_at(ladder[p][i], side, p));
        }
    }
    assert(ids[ids.len() - 1] == id);
    assert(ids.no_duplicates());
    lemma_remove_value(ids, id);
    let k = ids.index_of(id);
    assert(k == ids.len() - 1);
    if ladder.contains_key(p) {
        assert(ids.remove(k) =~= ladder[p]);
    } else {
        assert(ids.remove(k) =~= Seq::<u128>::empty());
    }
    let back = w.unrest(id);
    assert(back.index =~= v.index);
    assert(back.ladder(side) =~= ladder);
    assert(back.ladder(side.opposite()) == v.ladder(side.opposite()));
    assert(back.bids == v.bids && back.asks == v.asks);
    assert(back == v);
}

/// To modify a resting order to the quantity and the price that it has
/// changes nothing.
pub proof fn law_modify_same(v: BookView, id: u128)
    requires
        v.inv(),
        v.index.contains_key(id),
    ensures
        v.modify_order(id, v.index[id].qty, v.index[id].price) == Ok::<
            BookView,
            crate::errors::OrderError,
        >(v),
{
    assert(v.order_inv(id));
    let o = v.index[id];
    assert(Order { qty: o.qty, ..o } == o);
    assert(v.set_qty(id, o.qty).index =~= v.index);
}

/// A match keeps the book sound.
pub proof fn law_match_keeps_sound(v: BookView, o: Order)
    requires
        v.inv(),
        v.match_order(o) is Ok,
    ensures
        v.match_order(o)->Ok_0.0.inv(),
{
    lemma_sweep(v, o, None);
    let (w, rest, end) = v.sweep(o, None);
    if rest.qty > 0 {
        let p = w.working_price(rest)->0;
        lemma_rest_inv(w, Order { price: Some(p), ..rest });
    }
}

/// A match leaves a book uncrossed that was not crossed: what is left of the
/// incoming order rests clear of the other side.
pub proof fn law_match_keeps_uncrossed(v: BookView, o: Order)
    requires
        v.inv(),
        v.not_crossed(),
        v.match_order(o) is Ok,
    ensures
        v.match_order(o)->Ok_0.0.not_crossed(),
{
    lemma_sweep(v, o, None);
    let (w, rest, end) = v.sweep(o, None);
    assert(w.not_crossed());
    if rest.qty > 0 {
        let p = w.working_price(rest)->0;
        let other = o.order_side.opposite();
        law_best_price(w, other);
        if w.best(other) is Some {
            let b = w.best(other)->0;
            assert(w.level_inv(other, b));
            assert(w.rests_at(w.ladder(other)[b][0], other, b));
            assert(w.order_inv(w.ladder(other)[b][0]));
            assert(!crosses(rest, b));
        }
        let resting = Order { price: Some(p), ..rest };
        assert(w.clear_of(resting.order_side, p));
        lemma_rest_not_crossed(w, resting);
    }
}

} // verus!
