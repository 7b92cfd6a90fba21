//! Proofs about the model of a book: how the total of a level follows its
//! orders, and that each change of a book keeps what holds of it at rest.
use crate::engine::book_view::BookView;
use crate::engine::book_view::is_best;
use crate::engine::book_view::level_total;
use crate::engine::order::Order;
use crate::engine::order::OrderSide;
use vstd::prelude::*;

verus! {

/// An order that joins the tail of a level adds its quantity to the total.
pub proof fn lemma_total_push(index: Map<u128, Order>, ids: Seq<u128>, id: u128)
    ensures
        level_total(index, ids.push(id)) == level_total(index, ids) + index[id].qty,
{
    assert(ids.push(id).drop_last() =~= ids);
}

/// Two indexes that agree on the quantities of a level's orders give the
/// level the same total.
pub proof fn lemma_total_agree(a: Map<u128, Order>, b: Map<u128, Order>, ids: Seq<u128>)
    requires
        forall|i: int| 0 <= i < ids.len() ==> a[#[trigger] ids[i]].qty == b[ids[i]].qty,
    ensures
        level_total(a, ids) == level_total(b, ids),
    decreases ids.len(),
{
    if ids.len() > 0 {
        let front = ids.drop_last();
        assert forall|i: int| 0 <= i < front.len() implies a[#[trigger] front[i]].qty
            == b[front[i]].qty by {
            assert(front[i] == ids[i]);
        }
        lemma_total_agree(a, b, front);
        assert(ids.last() == ids[ids.len() - 1]);
    }
}

/// An order that leaves a level takes its quantity off the total.
pub proof fn lemma_total_remove(index: Map<u128, Order>, ids: Seq<u128>, k: int)
    requires
        0 <= k < ids.len(),
    ensures
        level_total(index, ids.remove(k)) == level_total(index, ids) - index[ids[k]].qty,
    decreases ids.len(),
{
    if k == ids.len() - 1 {
        assert(ids.remove(k) =~= ids.drop_last());
    } else {
        let front = ids.drop_last();
        lemma_total_remove(index, front, k);
        assert(ids.remove(k).drop_last() =~= front.remove(k));
        assert(ids.remove(k).last() == ids.last());
        assert(front[k] == ids[k]);
    }
}

/// Where every order of a level has a quantity of at least 1, the total is
/// at least the number of orders, and no more than that many orders can hold.
pub proof fn lemma_total_bounds(index: Map<u128, Order>, ids: Seq<u128>)
    requires
        forall|i: int| 0 <= i < ids.len() ==> index[#[trigger] ids[i]].qty >= 1,
    ensures
        ids.len() <= level_total(index, ids) <= ids.len() * i32::MAX,
    decreases ids.len(),
{
    if ids.len() > 0 {
        let front = ids.drop_last();
        assert forall|i: int| 0 <= i < front.len() implies index[#[trigger] front[i]].qty >= 1 by {
            assert(front[i] == ids[i]);
        }
        lemma_total_bounds(index, front);
        assert(ids.last() == ids[ids.len() - 1]);
        assert(front.len() * i32::MAX + i32::MAX == ids.len() * i32::MAX) by (nonlinear_arith)
            requires
                front.len() + 1 == ids.len(),
        ;
    }
}

/// A change of the index at one order of a level, which the level holds
/// once, changes the total by as much as that order's quantity.
pub proof fn lemma_total_update(a: Map<u128, Order>, b: Map<u128, Order>, ids: Seq<u128>, k: int)
    requires
        0 <= k < ids.len(),
        forall|i: int| 0 <= i < ids.len() && i != k ==> a[#[trigger] ids[i]].qty == b[ids[i]].qty,
    ensures
        level_total(b, ids) == level_total(a, ids) - a[ids[k]].qty + b[ids[k]].qty,
{
    let others = ids.remove(k);
    lemma_total_remove(a, ids, k);
    lemma_total_remove(b, ids, k);
    assert forall|i: int| 0 <= i < others.len() implies a[#[trigger] others[i]].qty
        == b[others[i]].qty by {
        if i < k {
            assert(others[i] == ids[i]);
        } else {
            assert(others[i] == ids[i + 1]);
        }
    }
    lemma_total_agree(a, b, others);
}

/// Taking an id out of a level that holds it once leaves the other ids, in
/// their order.
pub proof fn lemma_remove_value(ids: Seq<u128>, id: u128)
    requires
        ids.no_duplicates(),
        ids.contains(id),
    ensures
        ids.remove_value(id) == ids.remove(ids.index_of(id)),
        ids.remove_value(id).len() == ids.len() - 1,
        ids.remove_value(id).no_duplicates(),
        !ids.remove_value(id).contains(id),
        forall|x: u128| x != id && ids.contains(x) ==> ids.remove_value(id).contains(x),
        forall|i: int|
            0 <= i < ids.remove_value(id).len() ==> ids.contains(
                #[trigger] ids.remove_value(id)[i],
            ),
{
    let k = ids.index_of(id);
    ids.index_of_first_ensures(id);
    let out = ids.remove(k);
    assert(ids.index_of_first(id) == Some(k));
    assert forall|i: int| 0 <= i < out.len() implies ids.contains(#[trigger] out[i]) && out[i]
        != id by {
        if i < k {
            assert(out[i] == ids[i]);
        } else {
            assert(out[i] == ids[i + 1]);
        }
    }
    assert forall|x: u128| x != id && ids.contains(x) implies out.contains(x) by {
        let j = ids.index_of(x);
        if j < k {
            assert(out[j] == x);
        } else {
            assert(out[j - 1] == x);
        }
    }
    assert forall|i: int, j: int| 0 <= i < out.len() && 0 <= j < out.len() && i != j implies out[i]
        != out[j] by {
        let a = if i < k {
            i
        } else {
            i + 1
        };
        let b = if j < k {
            j
        } else {
            j + 1
        };
        assert(out[i] == ids[a] && out[j] == ids[b]);
    }
}

/// An order with a quantity of at least 1 and an id that the book does not
/// know can rest: the book stays sound.
pub proof fn lemma_rest_inv(v: BookView, o: Order)
    requires
        v.inv(),
        !v.index.contains_key(o.order_id),
        o.qty >= 1,
        o.price matches Some(p) && p > 0,
    ensures
        v.rest(o).inv(),
{
    let w = v.rest(o);
    let p = o.price->0;
    let side = o.order_side;
    let old_ladder = v.ladder(side);
    let new_ids = w.ladder(side)[p];
    assert(w.ladder(side.opposite()) == v.ladder(side.opposite()));
    assert(w.ladder(side) == old_ladder.insert(p, new_ids));
    if old_ladder.contains_key(p) {
        assert(v.level_inv(side, p));
        assert(new_ids == old_ladder[p].push(o.order_id));
        assert forall|i: int| 0 <= i < old_ladder[p].len() implies old_ladder[p][i]
            != o.order_id by {
            assert(v.rests_at(old_ladder[p][i], side, p));
        }
    }
    assert(new_ids.last() == o.order_id);
    assert(w.level_inv(side, p)) by {
        assert forall|i: int| 0 <= i < new_ids.len() implies w.rests_at(
            #[trigger] new_ids[i],
            side,
            p,
        ) by {
            if i < new_ids.len() - 1 {
                assert(v.rests_at(old_ladder[p][i], side, p));
            }
        }
    }
    assert forall|s: OrderSide, q: i64| w.ladder(s).contains_key(q) implies w.level_inv(s, q) by {
        if !(s == side && q == p) {
            assert(v.ladder(s).contains_key(q));
            assert(v.level_inv(s, q));
            let ids = v.ladder(s)[q];
            assert(w.ladder(s)[q] == ids);
            assert forall|i: int| 0 <= i < ids.len() implies w.rests_at(#[trigger] ids[i], s, q) by {
                assert(v.rests_at(ids[i], s, q));
            }
        }
    }
    assert forall|id: u128| #[trigger] w.index.contains_key(id) implies w.order_inv(id) by {
        if id == o.order_id {
            assert(new_ids[new_ids.len() - 1] == id);
        } else {
            assert(v.index.contains_key(id));
            assert(v.order_inv(id));
            let x = v.index[id];
            if x.order_side == side && x.price == Some(p) {
                let j = old_ladder[p].index_of(id);
                assert(new_ids[j] == id);
            }
        }
    }
    assert forall|q: i64| #[trigger] w.bids.contains_key(q) implies w.level_inv(
        OrderSide::BID,
        q,
    ) by {
        assert(w.ladder(OrderSide::BID).contains_key(q));
    }
    assert forall|q: i64| #[trigger] w.asks.contains_key(q) implies w.level_inv(
        OrderSide::ASK,
        q,
    ) by {
        assert(w.ladder(OrderSide::ASK).contains_key(q));
    }
}

/// A resting order can leave: the book stays sound.
pub proof fn lemma_unrest_inv(v: BookView, id: u128)
    requires
        v.inv(),
        v.index.contains_key(id),
    ensures
        v.unrest(id).inv(),
{
    let w = v.unrest(id);
    let o = v.index[id];
    let p = o.price->0;
    let side = o.order_side;
    let old_ladder = v.ladder(side);
    assert(v.order_inv(id));
    assert(v.level_inv(side, p));
    let old_ids = old_ladder[p];
    let new_ids = old_ids.remove_value(id);
    lemma_remove_value(old_ids, id);
    assert(w.ladder(side.opposite()) == v.ladder(side.opposite()));
    assert forall|s: OrderSide, q: i64| w.ladder(s).contains_key(q) implies w.level_inv(s, q) by {
        assert(v.ladder(s).contains_key(q));
        assert(v.level_inv(s, q));
        if s == side && q == p {
            assert(w.ladder(s)[q] == new_ids);
            assert forall|i: int| 0 <= i < new_ids.len() implies w.rests_at(
                #[trigger] new_ids[i],
                s,
                q,
            ) by {
                let j = old_ids.index_of(new_ids[i]);
                assert(v.rests_at(old_ids[j], s, q));
            }
        } else {
            let ids = v.ladder(s)[q];
            assert(w.ladder(s)[q] == ids);
            assert forall|i: int| 0 <= i < ids.len() implies w.rests_at(#[trigger] ids[i], s, q) by {
                assert(v.rests_at(ids[i], s, q));
                if ids[i] == id {
                    assert(s == side && q == p);
                }
            }
        }
    }
    assert forall|x: u128| #[trigger] w.index.contains_key(x) implies w.order_inv(x) by {
        assert(v.index.contains_key(x));
        assert(v.order_inv(x));
        let y = v.index[x];
        if y.order_side == side && y.price == Some(p) {
            assert(new_ids.contains(x));
            assert(new_ids.len() > 0);
        }
    }
    assert forall|q: i64| #[trigger] w.bids.contains_key(q) implies w.level_inv(
        OrderSide::BID,
        q,
    ) by {
        assert(w.ladder(OrderSide::BID).contains_key(q));
    }
    assert forall|q: i64| #[trigger] w.asks.contains_key(q) implies w.level_inv(
        OrderSide::ASK,
        q,
    ) by {
        assert(w.ladder(OrderSide::ASK).contains_key(q));
    }
}

/// A resting order can get another quantity of at least 1: the book stays
/// sound.
pub proof fn lemma_set_qty_inv(v: BookView, id: u128, qty: i32)
    requires
        v.inv(),
        v.index.contains_key(id),
        qty >= 1,
    ensures
        v.set_qty(id, qty).inv(),
{
    let w = v.set_qty(id, qty);
    assert(v.order_inv(id));
    assert forall|s: OrderSide, q: i64| w.ladder(s).contains_key(q) implies w.level_inv(s, q) by {
        assert(v.ladder(s).contains_key(q));
        assert(v.level_inv(s, q));
        let ids = v.ladder(s)[q];
        assert forall|i: int| 0 <= i < ids.len() implies w.rests_at(#[trigger] ids[i], s, q) by {
            assert(v.rests_at(ids[i], s, q));
        }
    }
    assert forall|x: u128| #[trigger] w.index.contains_key(x) implies w.order_inv(x) by {
        assert(v.index.contains_key(x));
        assert(v.order_inv(x));
    }
    assert forall|q: i64| #[trigger] w.bids.contains_key(q) implies w.level_inv(
        OrderSide::BID,
        q,
    ) by {
        assert(w.ladder(OrderSide::BID).contains_key(q));
    }
    assert forall|q: i64| #[trigger] w.asks.contains_key(q) implies w.level_inv(
        OrderSide::ASK,
        q,
    ) by {
        assert(w.ladder(OrderSide::ASK).contains_key(q));
    }
}

/// A price that is the best of its side is the one that `best` gives.
pub proof fn lemma_best_is(v: BookView, side: OrderSide, p: i64)
    requires
        is_best(v.ladder(side), side, p),
    ensures
        v.best(side) == Some(p),
{
    let chosen = choose|q: i64| is_best(v.ladder(side), side, q);
    assert(is_best(v.ladder(side), side, chosen));
    assert(v.ladder(side).contains_key(chosen));
    assert(v.ladder(side).contains_key(p));
}

/// A side without levels has no best price.
pub proof fn lemma_no_best(v: BookView, side: OrderSide)
    requires
        forall|q: i64| !v.ladder(side).contains_key(q),
    ensures
        v.best(side) is None,
{
}

/// An order that rests clear of the other side leaves the book uncrossed.
pub proof fn lemma_rest_not_crossed(v: BookView, o: Order)
    requires
        v.not_crossed(),
        o.price is Some,
        v.clear_of(o.order_side, o.price->0),
    ensures
        v.rest(o).not_crossed(),
{
    let w = v.rest(o);
    assert forall|b: i64, a: i64| #[trigger]
        w.bids.contains_key(b) && #[trigger] w.asks.contains_key(a) implies b < a by {
        match o.order_side {
            OrderSide::BID => {
                assert(v.ladder(OrderSide::BID.opposite()).contains_key(a));
                if b != o.price->0 {
                    assert(v.bids.contains_key(b));
                }
            },
            OrderSide::ASK => {
                assert(v.ladder(OrderSide::ASK.opposite()).contains_key(b));
                if a != o.price->0 {
                    assert(v.asks.contains_key(a));
                }
            },
        }
    }
}

/// An order that leaves the book leaves it uncrossed.
pub proof fn lemma_unrest_not_crossed(v: BookView, id: u128)
    requires
        v.inv(),
        v.index.contains_key(id),
        v.not_crossed(),
    ensures
        v.unrest(id).not_crossed(),
{
    let w = v.unrest(id);
    assert(v.order_inv(id));
    assert forall|b: i64, a: i64| #[trigger]
        w.bids.contains_key(b) && #[trigger] w.asks.contains_key(a) implies b < a by {
        assert(v.bids.contains_key(b));
        assert(v.asks.contains_key(a));
    }
}

/// The trades of an incoming order leave the queue alone.
pub proof fn lemma_sweep_keeps_queue(v: BookView, o: Order, last: Option<Order>)
    ensures
        v.sweep(o, last).0.queue == v.queue,
    decreases o.qty,
{
    if v.can_fill(o) {
        let (book, rest, left) = v.fill(o);
        lemma_sweep_keeps_queue(book, rest, Some(left));
    }
}

/// A match leaves the queue alone.
pub proof fn lemma_match_keeps_queue(v: BookView, o: Order)
    ensures
        v.match_order(o) matches Ok((book, _)) ==> book.queue == v.queue,
{
    lemma_sweep_keeps_queue(v, o, None);
}

} // verus!
