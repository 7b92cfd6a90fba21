//! The order book of one instrument.
use crate::engine::book_proofs::lemma_best_is;
use crate::engine::book_proofs::lemma_match_keeps_queue;
use crate::engine::book_proofs::lemma_no_best;
use crate::engine::book_proofs::lemma_remove_value;
use crate::engine::book_proofs::lemma_rest_inv;
use crate::engine::book_proofs::lemma_rest_not_crossed;
use crate::engine::book_proofs::lemma_set_qty_inv;
use crate::engine::book_proofs::lemma_total_agree;
use crate::engine::book_proofs::lemma_total_bounds;
use crate::engine::book_proofs::lemma_total_push;
use crate::engine::book_proofs::lemma_total_remove;
use crate::engine::book_proofs::lemma_total_update;
use crate::engine::book_proofs::lemma_unrest_inv;
use crate::engine::book_proofs::lemma_unrest_not_crossed;
use crate::engine::book_view::BookView;
use crate::engine::book_view::crosses;
use crate::engine::book_view::is_best;
use crate::engine::book_view::level_total;
use crate::engine::book_view::rest_event;
use crate::engine::book_view::trade_event;
use crate::engine::book_view::trades_of;
use crate::engine::execution::Execution;
use crate::engine::execution::ExecutionType;
use crate::engine::keys::ascending_price_list;
use crate::engine::keys::sorted_ids;
use crate::engine::keys::sorted_prices;
use crate::engine::laws::law_match_reports_last_event;
use crate::engine::order::Order;
use crate::engine::order::OrderSide;
use crate::engine::order::OrderType;
use crate::engine::order::Stock;
use crate::engine::price_level::PriceLevel;
use crate::engine::price_level::head_cut;
use crate::errors::OrderError;
use crate::errors::StockError;
use crate::helpers::decimal;
use crate::helpers::decimal_text;
use crate::helpers::price_text;
use crate::helpers::price_to_string;
use std::collections::BTreeMap;
use std::collections::VecDeque;
use vstd::prelude::*;
use vstd::string::StringExecFns;

verus! {

/// The book of one instrument: the bids and the asks by price, every resting
/// order by its id, the orders that wait to be matched, and the price of the
/// last trade.
#[derive(Debug, PartialEq)]
pub struct OrderBook {
    pub stock_id: u128,
    pub stock_info: Stock,
    pub bid_price_levels: BTreeMap<i64, PriceLevel>,
    pub ask_price_levels: BTreeMap<i64, PriceLevel>,
    pub oid_map: BTreeMap<u128, Order>,
    pub order_queue: VecDeque<Order>,
    pub last_market_price: Option<i64>,
}

/// A ladder as the model has it: the ids of each level, by price.
pub open spec fn ladder_view(levels: Map<i64, PriceLevel>) -> Map<i64, Seq<u128>> {
    Map::new(|p: i64| levels.contains_key(p), |p: i64| levels[p].orders@)
}

/// Each level is kept under its own price, and its aggregate quantity is the
/// sum of the quantities of its orders, which is at least 1.
pub open spec fn ladder_wf(levels: Map<i64, PriceLevel>, index: Map<u128, Order>) -> bool {
    forall|p: i64| #[trigger]
        levels.contains_key(p) ==> {
            &&& levels[p].price == p
            &&& levels[p].qty == level_total(index, levels[p].orders@)
            &&& levels[p].qty >= 1
        }
}

impl View for OrderBook {
    type V = BookView;

    open spec fn view(&self) -> BookView {
        BookView {
            stock_id: self.stock_id,
            stock_info: self.stock_info,
            bids: ladder_view(self.bid_price_levels@),
            asks: ladder_view(self.ask_price_levels@),
            index: self.oid_map@,
            queue: self.order_queue@,
            last_price: self.last_market_price,
        }
    }
}

impl Clone for OrderBook {
    fn clone(&self) -> (book: Self)
        ensures
            book@ == self@,
            book.bid_price_levels@ == self.bid_price_levels@,
            book.ask_price_levels@ == self.ask_price_levels@,
            self.wf() ==> book.wf(),
    {
        let order_queue = self.order_queue.clone();
        assert(order_queue@ =~= self.order_queue@);
        OrderBook {
            stock_id: self.stock_id,
            stock_info: self.stock_info.clone(),
            bid_price_levels: self.bid_price_levels.clone(),
            ask_price_levels: self.ask_price_levels.clone(),
            oid_map: self.oid_map.clone(),
            order_queue,
            last_market_price: self.last_market_price,
        }
    }
}

/// A level in a cell of a table: its aggregate quantity, ` @ `, and its
/// price with two decimal places.
pub open spec fn cell_text(level: PriceLevel) -> Seq<char> {
    decimal_text(level.qty as int) + " @ "@ + price_text(level.price as int)
}

fn level_cell(level: &PriceLevel) -> (s: String)
    ensures
        s@ == cell_text(*level),
{
    let mut s = decimal(level.qty);
    s.append(" @ ");
    s.append(price_to_string(level.price).as_str());
    s
}

/// Puts `order` at the tail of the level at price `p`, which is made where
/// the ladder lacks it.
fn ladder_add(ladder: &mut BTreeMap<i64, PriceLevel>, p: i64, order: Order)
    requires
        old(ladder)@.contains_key(p) ==> i128::MIN <= old(ladder)@[p].qty + order.qty <= i128::MAX,
    ensures
        final(ladder)@ == old(ladder)@.insert(p, final(ladder)@[p]),
        final(ladder)@[p].price == if old(ladder)@.contains_key(p) {
            old(ladder)@[p].price
        } else {
            p
        },
        final(ladder)@[p].orders@ == if old(ladder)@.contains_key(p) {
            old(ladder)@[p].orders@.push(order.order_id)
        } else {
            seq![order.order_id]
        },
        final(ladder)@[p].qty == order.qty + if old(ladder)@.contains_key(p) {
            old(ladder)@[p].qty
        } else {
            0
        },
{
    let mut level = match ladder.remove(&p) {
        Some(level) => level,
        None => PriceLevel::new(p, 0),
    };
    level.add_order(order);
    ladder.insert(p, level);
    assert(final(ladder)@ =~= old(ladder)@.insert(p, final(ladder)@[p]));
    assert(Seq::<u128>::empty().push(order.order_id) =~= seq![order.order_id]);
}

/// The levels of a ladder keep their totals under a change of the index that
/// leaves the quantities of their orders alone.
proof fn lemma_ladder_keeps(levels: Map<i64, PriceLevel>, a: Map<u128, Order>, b: Map<u128, Order>)
    requires
        ladder_wf(levels, a),
        forall|p: i64, i: int|
            levels.contains_key(p) && 0 <= i < levels[p].orders@.len() ==> a[#[trigger] levels[p].orders@[i]].qty
                == b[levels[p].orders@[i]].qty,
    ensures
        ladder_wf(levels, b),
{
    assert forall|p: i64| #[trigger] levels.contains_key(p) implies levels[p].qty == level_total(
        b,
        levels[p].orders@,
    ) by {
        lemma_total_agree(a, b, levels[p].orders@);
    }
}

impl OrderBook {
    /// What holds of a book between operations: the index and the ladders
    /// agree on which orders rest where, and each level caches the total of
    /// its orders.
    pub open spec fn wf(&self) -> bool {
        &&& self@.inv()
        &&& ladder_wf(self.bid_price_levels@, self.oid_map@)
        &&& ladder_wf(self.ask_price_levels@, self.oid_map@)
    }

    /// The price levels of a side.
    pub open spec fn levels(&self, side: OrderSide) -> Map<i64, PriceLevel> {
        match side {
            OrderSide::BID => self.bid_price_levels@,
            OrderSide::ASK => self.ask_price_levels@,
        }
    }

    /// An empty book for the given instrument.
    pub fn new(stock: Stock) -> (book: Self)
        ensures
            book.wf(),
            book@ == BookView::empty(stock),
    {
        let book = OrderBook {
            stock_id: stock.stock_id,
            stock_info: stock,
            bid_price_levels: BTreeMap::new(),
            ask_price_levels: BTreeMap::new(),
            oid_map: BTreeMap::new(),
            order_queue: VecDeque::new(),
            last_market_price: None,
        };
        assert(book@.bids =~= Map::<i64, Seq<u128>>::empty());
        assert(book@.asks =~= Map::<i64, Seq<u128>>::empty());
        book
    }

    /// Puts an order that the book may take on its ladder and in the index.
    fn rest_order(&mut self, order: Order)
        requires
            old(self).wf(),
            !old(self)@.index.contains_key(order.order_id),
            order.qty >= 1,
            order.price matches Some(p) && p > 0,
        ensures
            final(self).wf(),
            final(self)@ == old(self)@.rest(order),
    {
        let p = order.price.unwrap();
        let id = order.order_id;
        let copy = order.clone();
        let ghost before = self@;
        proof {
            if self.levels(order.order_side).contains_key(p) {
                assert(before.ladder(order.order_side).contains_key(p));
                self.law_level_aggregate(order.order_side, p);
            }
        }
        match order.order_side {
            OrderSide::BID => ladder_add(&mut self.bid_price_levels, p, copy),
            OrderSide::ASK => ladder_add(&mut self.ask_price_levels, p, copy),
        }
        self.oid_map.insert(id, order);
        proof {
            let after = self@;
            let want = before.rest(order);
            lemma_rest_inv(before, order);
            assert(after.bids =~= want.bids);
            assert(after.asks =~= want.asks);
            assert(after == want);
            self.lemma_rested(*old(self), order);
        }
    }

    /// After an order has come to rest, the levels cache the right totals.
    proof fn lemma_rested(self, before: OrderBook, order: Order)
        requires
            before.wf(),
            !before@.index.contains_key(order.order_id),
            order.qty >= 1,
            order.price is Some,
            self@ == before@.rest(order),
            self.oid_map@ == before.oid_map@.insert(order.order_id, order),
            ({
                let p = order.price->0;
                let was = before.levels(order.order_side);
                let now = self.levels(order.order_side);
                &&& now == was.insert(p, now[p])
                &&& now[p].price == p
                &&& now[p].qty == order.qty + if was.contains_key(p) {
                    was[p].qty
                } else {
                    0
                }
                &&& now[p].orders@ == if was.contains_key(p) {
                    was[p].orders@.push(order.order_id)
                } else {
                    seq![order.order_id]
                }
            }),
            self.levels(order.order_side.opposite()) == before.levels(order.order_side.opposite()),
        ensures
            ladder_wf(self.bid_price_levels@, self.oid_map@),
            ladder_wf(self.ask_price_levels@, self.oid_map@),
    {
        let p = order.price->0;
        let id = order.order_id;
        let a = before.oid_map@;
        let b = self.oid_map@;
        let v = before@;
        assert forall|s: OrderSide, q: i64, i: int|
            v.ladder(s).contains_key(q) && 0 <= i < v.ladder(s)[q].len() implies a[#[trigger] v.ladder(
            s,
        )[q][i]].qty == b[v.ladder(s)[q][i]].qty by {
            assert(v.level_inv(s, q));
            assert(v.rests_at(v.ladder(s)[q][i], s, q));
        }
        assert forall|q: i64, i: int|
            before.bid_price_levels@.contains_key(q) && 0 <= i
                < before.bid_price_levels@[q].orders@.len() implies a[#[trigger] before.bid_price_levels@[q].orders@[i]].qty
            == b[before.bid_price_levels@[q].orders@[i]].qty by {
            assert(v.ladder(OrderSide::BID).contains_key(q));
            assert(v.ladder(OrderSide::BID)[q][i] == before.bid_price_levels@[q].orders@[i]);
        }
        assert forall|q: i64, i: int|
            before.ask_price_levels@.contains_key(q) && 0 <= i
                < before.ask_price_levels@[q].orders@.len() implies a[#[trigger] before.ask_price_levels@[q].orders@[i]].qty
            == b[before.ask_price_levels@[q].orders@[i]].qty by {
            assert(v.ladder(OrderSide::ASK).contains_key(q));
            assert(v.ladder(OrderSide::ASK)[q][i] == before.ask_price_levels@[q].orders@[i]);
        }
        lemma_ladder_keeps(before.bid_price_levels@, a, b);
        lemma_ladder_keeps(before.ask_price_levels@, a, b);
        let was = before.levels(order.order_side);
        let now = self.levels(order.order_side);
        if was.contains_key(p) {
            lemma_total_push(b, was[p].orders@, id);
        } else {
            lemma_total_push(b, Seq::<u128>::empty(), id);
            assert(Seq::<u128>::empty().push(id) =~= seq![id]);
        }
        assert(ladder_wf(now, b));
    }

    /// Validates the order and puts it at the back of the queue.
    pub fn queue_order(&mut self, order: Order) -> (r: Result<(), OrderError>)
        requires
            old(self).wf(),
        ensures
            final(self).wf(),
            match old(self)@.queue_order(order) {
                Ok(v) => r is Ok && final(self)@ == v,
                Err(e) => r == Err::<(), OrderError>(e) && final(self)@ == old(self)@,
            },
    {
        match order.validate() {
            Ok(_) => {},
            Err(e) => {
                return Err(e);
            },
        }
        self.order_queue.push_back(order);
        Ok(())
    }

    /// The level of the given side at the given price, if orders rest there.
    pub fn get_price_level(&self, order_side: OrderSide, price: i64) -> (level: Option<&PriceLevel>)
        ensures
            level is Some <==> self.levels(order_side).contains_key(price),
            level matches Some(l) ==> *l == self.levels(order_side)[price],
    {
        match order_side {
            OrderSide::BID => self.bid_price_levels.get(&price),
            OrderSide::ASK => self.ask_price_levels.get(&price),
        }
    }

    /// The resting orders by id.
    pub fn get_oid_map(&self) -> (index: &BTreeMap<u128, Order>)
        ensures
            *index == self.oid_map,
    {
        &self.oid_map
    }

    /// The instrument of this book.
    pub fn get_stock(&self) -> (r: Result<Stock, StockError>)
        ensures
            r == Ok::<Stock, StockError>(self.stock_info),
    {
        Ok(self.stock_info.clone())
    }

    /// The highest price at which a bid rests.
    pub fn best_bid(&self) -> (best: Option<i64>)
        ensures
            best == self@.best_bid(),
    {
        let best = highest_price(&self.bid_price_levels);
        proof {
            match best {
                Some(p) => lemma_best_is(self@, OrderSide::BID, p),
                None => lemma_no_best(self@, OrderSide::BID),
            }
        }
        best
    }

    /// The lowest price at which an ask rests.
    pub fn best_ask(&self) -> (best: Option<i64>)
        ensures
            best == self@.best_ask(),
    {
        let best = lowest_price(&self.ask_price_levels);
        proof {
            match best {
                Some(p) => lemma_best_is(self@, OrderSide::ASK, p),
                None => lemma_no_best(self@, OrderSide::ASK),
            }
        }
        best
    }

    /// Puts an order on the book without matching it: at the tail of the
    /// level at its price, which is the last trade price for a market order.
    /// Fails, and changes nothing, for an order that is not valid, whose id a
    /// resting order has, or that is a market order while nothing has traded.
    /// The book stays uncrossed where the order rests clear of the other
    /// side.
    pub fn add_order(&mut self, order: Order) -> (r: Result<(), OrderError>)
        requires
            old(self).wf(),
        ensures
            final(self).wf(),
            match old(self)@.add_order(order) {
                Ok(v) => r is Ok && final(self)@ == v,
                Err(e) => r == Err::<(), OrderError>(e) && final(self)@ == old(self)@,
            },
            r is Ok && old(self)@.not_crossed() && old(self)@.clear_of(
                order.order_side,
                old(self)@.working_price(order)->0,
            ) ==> final(self)@.not_crossed(),
    {
        match order.validate() {
            Ok(_) => {},
            Err(e) => {
                return Err(e);
            },
        }
        if self.oid_map.contains_key(&order.order_id) {
            return Err(OrderError::InvalidOrderID);
        }
        let price = match order.order_type {
            OrderType::MARKET => match self.last_market_price {
                Some(price) => price,
                None => {
                    return Err(OrderError::InvalidPrice);
                },
            },
            OrderType::LIMIT => order.price.unwrap(),
        };
        let mut order = order;
        order.price = Some(price);
        proof {
            if self@.not_crossed() && self@.clear_of(order.order_side, price) {
                lemma_rest_not_crossed(self@, order);
            }
        }
        self.rest_order(order);
        Ok(())
    }

    fn _delete_order(&mut self, order_id: u128) -> (r: Result<(), OrderError>)
        requires
            old(self).wf(),
        ensures
            final(self).wf(),
            match old(self)@.delete_order(order_id) {
                Ok(v) => r is Ok && final(self)@ == v,
                Err(e) => r == Err::<(), OrderError>(e) && final(self)@ == old(self)@,
            },
            old(self)@.not_crossed() ==> final(self)@.not_crossed(),
    {
        if !self.oid_map.contains_key(&order_id) {
            return Err(OrderError::UnknownOrder);
        }
        proof {
            if self@.not_crossed() {
                lemma_unrest_not_crossed(self@, order_id);
            }
        }
        let _ = self.take_order(order_id);
        Ok(())
    }

    /// Takes a resting order off the book. Fails, and changes nothing, where
    /// no resting order has the id.
    pub fn delete_order(&mut self, order_id: u128) -> (r: Result<(), OrderError>)
        requires
            old(self).wf(),
        ensures
            final(self).wf(),
            match old(self)@.delete_order(order_id) {
                Ok(v) => r is Ok && final(self)@ == v,
                Err(e) => r == Err::<(), OrderError>(e) && final(self)@ == old(self)@,
            },
            old(self)@.not_crossed() ==> final(self)@.not_crossed(),
    {
        self._delete_order(order_id)
    }

    fn _modify_order(&mut self, order_id: u128, new_qty: i32, new_price: Option<i64>) -> (r: Result<
        (),
        OrderError,
    >)
        requires
            old(self).wf(),
        ensures
            final(self).wf(),
            match old(self)@.modify_order(order_id, new_qty, new_price) {
                Ok(v) => r is Ok && final(self)@ == v,
                Err(e) => r == Err::<(), OrderError>(e) && final(self)@ == old(self)@,
            },
            r is Ok && old(self)@.not_crossed() && (new_qty <= 0 || old(self)@.clear_of(
                old(self)@.index[order_id].order_side,
                new_price->0,
            )) ==> final(self)@.not_crossed(),
    {
        if new_qty <= 0 {
            return self._delete_order(order_id);
        }
        let (qty, price) = match self.oid_map.get(&order_id) {
            Some(order) => (order.qty, order.price),
            None => {
                return Err(OrderError::UnknownOrder);
            },
        };
        let to = match new_price {
            Some(to) => to,
            None => {
                return Err(OrderError::InvalidPrice);
            },
        };
        if to <= 0 {
            return Err(OrderError::InvalidPrice);
        }
        proof {
            assert(self@.order_inv(order_id));
        }
        if price.unwrap() == to && new_qty <= qty {
            self.reduce_order(order_id, new_qty);
        } else {
            let ghost before = self@;
            let mut order = self.take_order(order_id);
            order.qty = new_qty;
            order.price = new_price;
            proof {
                if before.not_crossed() && before.clear_of(order.order_side, to) {
                    lemma_unrest_not_crossed(before, order_id);
                    assert(self@.ladder(order.order_side.opposite()) == before.ladder(
                        order.order_side.opposite(),
                    ));
                    lemma_rest_not_crossed(self@, order);
                }
            }
            self.rest_order(order);
        }
        Ok(())
    }

    /// Gives a resting order a new quantity and price. A quantity below 1
    /// deletes the order. An order that keeps its price and gets no more
    /// quantity than it had keeps its place in the queue of its level; any
    /// other leaves its level and joins the tail of the level at the new
    /// price. Fails, and changes nothing, where no resting order has the id,
    /// or where the new price is absent or not positive.
    pub fn modify_order(&mut self, order_id: u128, new_qty: i32, new_price: Option<i64>) -> (r:
        Result<(), OrderError>)
        requires
            old(self).wf(),
        ensures
            final(self).wf(),
            match old(self)@.modify_order(order_id, new_qty, new_price) {
                Ok(v) => r is Ok && final(self)@ == v,
                Err(e) => r == Err::<(), OrderError>(e) && final(self)@ == old(self)@,
            },
            r is Ok && old(self)@.not_crossed() && (new_qty <= 0 || old(self)@.clear_of(
                old(self)@.index[order_id].order_side,
                new_price->0,
            )) ==> final(self)@.not_crossed(),
    {
        self._modify_order(order_id, new_qty, new_price)
    }

    /// Matches an incoming order against the other side of the book, best
    /// price first and within a price the oldest order first, each trade at
    /// the resting order's price. What is left of the order then rests on its
    /// own side and is reported as `ADD`; an order that is filled is reported
    /// as `MATCH`, with the last resting order that it traded with. Fails,
    /// and changes nothing, for an order that is not valid, whose id a
    /// resting order has, or that is a market order which found nothing to
    /// trade with while nothing has traded before.
    pub fn match_order(&mut self, order: Order) -> (r: Result<Execution, OrderError>)
        requires
            old(self).wf(),
        ensures
            final(self).wf(),
            match old(self)@.match_order(order) {
                Ok((v, e)) => r == Ok::<Execution, OrderError>(e) && final(self)@ == v,
                Err(e) => r == Err::<Execution, OrderError>(e) && final(self)@ == old(self)@,
            },
            old(self)@.not_crossed() ==> final(self)@.not_crossed(),
            r matches Ok(e) ==> (e.exec_type == ExecutionType::MATCH ==> e.matched_order is Some
                && final(self)@.last_price is Some && final(self)@.last_price
                == e.matched_order->0.price),
            final(self).stock_id == old(self).stock_id,
            final(self).stock_info == old(self).stock_info,
    {
        proof {
            law_match_reports_last_event(self@, order);
        }
        match self.match_order_trades(order) {
            Ok(mut events) => Ok(events.pop().unwrap()),
            Err(e) => Err(e),
        }
    }

    /// Matches an incoming order as `match_order` does, and reports every
    /// trade: one `MATCH` for each resting order that the incoming order
    /// trades with, in the order of the trades, each with the two orders as
    /// the trade left them, and behind them an `ADD` where something is left
    /// of the order, which rests on its own side. The last trade leaves its
    /// price as the last trade price.
    pub fn match_order_trades(&mut self, order: Order) -> (r: Result<Vec<Execution>, OrderError>)
        requires
            old(self).wf(),
        ensures
            final(self).wf(),
            match old(self)@.match_order_trades(order) {
                Ok((v, es)) => r is Ok && r->Ok_0@ == es && final(self)@ == v,
                Err(e) => r == Err::<Vec<Execution>, OrderError>(e) && final(self)@ == old(self)@,
            },
            old(self)@.not_crossed() ==> final(self)@.not_crossed(),
            r matches Ok(es) ==> trades_of(es@).len() > 0 ==> final(self)@.last_price is Some
                && final(self)@.last_price == trades_of(es@).last().matched_order->0.price,
            final(self).stock_id == old(self).stock_id,
            final(self).stock_info == old(self).stock_info,
    {
        match order.validate() {
            Ok(_) => {},
            Err(e) => {
                return Err(e);
            },
        }
        if self.oid_map.contains_key(&order.order_id) {
            return Err(OrderError::InvalidOrderID);
        }
        let ghost incoming = order;
        let mut order = order;
        let ghost mut last: Option<Order> = None;
        let mut events: Vec<Execution> = Vec::new();
        proof {
            assert(events@ + self@.trade_events(order) =~= self@.trade_events(order));
        }
        loop
            invariant
                self.wf(),
                old(self)@.sweep(incoming, None) == self@.sweep(order, last),
                old(self)@.trade_events(incoming) == events@ + self@.trade_events(order),
                order == (Order { qty: order.qty, ..incoming }),
                0 <= order.qty <= incoming.qty,
                last is None ==> self@ == old(self)@ && order == incoming && events@.len() == 0,
                last matches Some(left) ==> self@.last_price is Some && self@.last_price
                    == left.price && events@.len() > 0 && events@.last() == trade_event(
                    order,
                    left,
                ),
                old(self)@.not_crossed() ==> self@.not_crossed(),
                !self@.index.contains_key(order.order_id),
                (order.order_type == OrderType::LIMIT) ==> order.price is Some,
                self.stock_id == old(self).stock_id,
                self.stock_info == old(self).stock_info,
            ensures
                !self@.can_fill(order),
                order.qty > 0 ==> self@.best(order.order_side.opposite()) is None || !crosses(
                    order,
                    self@.best(order.order_side.opposite())->0,
                ),
                order.qty > 0 && self@.best(order.order_side.opposite()) is None ==> forall|q: i64|
                    !self@.ladder(order.order_side.opposite()).contains_key(q),
                order.qty > 0 && self@.best(order.order_side.opposite()) is Some ==> is_best(
                    self@.ladder(order.order_side.opposite()),
                    order.order_side.opposite(),
                    self@.best(order.order_side.opposite())->0,
                ),
            decreases order.qty,
        {
            if order.qty == 0 {
                break ;
            }
            let best = match order.order_side {
                OrderSide::BID => lowest_price(&self.ask_price_levels),
                OrderSide::ASK => highest_price(&self.bid_price_levels),
            };
            proof {
                match best {
                    Some(p) => lemma_best_is(self@, order.order_side.opposite(), p),
                    None => lemma_no_best(self@, order.order_side.opposite()),
                }
            }
            if best.is_none() {
                break ;
            }
            let p = best.unwrap();
            let beyond = match order.order_type {
                OrderType::MARKET => false,
                OrderType::LIMIT => match order.order_side {
                    OrderSide::BID => p > order.price.unwrap(),
                    OrderSide::ASK => p < order.price.unwrap(),
                },
            };
            if beyond {
                break ;
            }
            let ghost before = self@;
            let ghost coming = order;
            proof {
                assert(before.level_inv(order.order_side.opposite(), p));
                assert(before.rests_at(
                    before.counterparty(order.order_side),
                    order.order_side.opposite(),
                    p,
                ));
                assert(before.order_inv(before.counterparty(order.order_side)));
                assert(before.can_fill(order));
            }
            let resting_id = match order.order_side {
                OrderSide::BID => self.ask_price_levels.get(&p).unwrap().orders[0],
                OrderSide::ASK => self.bid_price_levels.get(&p).unwrap().orders[0],
            };
            let resting_qty = self.oid_map.get(&resting_id).unwrap().qty;
            proof {
                if before.not_crossed() && resting_qty <= order.qty {
                    lemma_unrest_not_crossed(before, resting_id);
                }
            }
            let left = if resting_qty > order.qty {
                let left = self.fill_head(other_side(order.order_side), p, resting_id, order.qty);
                order.qty = 0;
                left
            } else {
                let mut left = self.take_order(resting_id);
                left.qty = 0;
                order.qty = order.qty - resting_qty;
                left
            };
            self.last_market_price = Some(p);
            proof {
                last = Some(left);
                let tail = self@.trade_events(order);
                assert(before.trade_events(coming) == seq![trade_event(order, left)] + tail);
                assert(events@.push(trade_event(order, left)) + tail =~= events@ + (seq![
                    trade_event(order, left),
                ] + tail));
            }
            events.push(
                Execution::new(
                    ExecutionType::MATCH,
                    order.creator_id,
                    order.time_created,
                    order.clone(),
                    Some(left),
                ),
            );
        }
        proof {
            assert(self@.trade_events(order) =~= Seq::<Execution>::empty());
            assert(events@ + Seq::<Execution>::empty() =~= events@);
        }
        if order.qty > 0 {
            let price = match order.order_type {
                OrderType::MARKET => match self.last_market_price {
                    Some(price) => price,
                    None => {
                        return Err(OrderError::InvalidPrice);
                    },
                },
                OrderType::LIMIT => order.price.unwrap(),
            };
            let mut resting = order.clone();
            resting.price = Some(price);
            proof {
                if self@.not_crossed() {
                    assert(self@.clear_of(resting.order_side, price));
                    lemma_rest_not_crossed(self@, resting);
                }
                assert(events@.push(rest_event(order)).drop_last() =~= events@);
            }
            self.rest_order(resting);
            events.push(
                Execution::new(
                    ExecutionType::ADD,
                    order.creator_id,
                    order.time_created,
                    order,
                    None,
                ),
            );
        }
        Ok(events)
    }

    /// Takes the oldest order off the queue and matches it. An order that
    /// the book refuses is dropped with its error.
    pub fn execute_order(&mut self) -> (r: Result<Execution, OrderError>)
        requires
            old(self).wf(),
        ensures
            final(self).wf(),
            final(self)@ == old(self)@.execute_order().0,
            r == old(self)@.execute_order().1,
            old(self)@.not_crossed() ==> final(self)@.not_crossed(),
            r matches Ok(e) ==> (e.exec_type == ExecutionType::MATCH ==> e.matched_order is Some
                && final(self)@.last_price is Some && final(self)@.last_price
                == e.matched_order->0.price),
            final(self).stock_id == old(self).stock_id,
            final(self).stock_info == old(self).stock_info,
    {
        let order = match self.order_queue.pop_front() {
            Some(order) => order,
            None => {
                return Err(OrderError::OrderQueueEmpty);
            },
        };
        self.match_order(order)
    }

    /// Matches the orders of the queue, the oldest first, until the queue is
    /// empty, and gives the events in that order. The first order that the
    /// book refuses ends the run with its error; the orders behind it stay in
    /// the queue.
    pub fn execute_all_orders(&mut self) -> (r: Result<Vec<Execution>, OrderError>)
        requires
            old(self).wf(),
        ensures
            final(self).wf(),
            final(self)@ == old(self)@.execute_all_orders().0,
            match old(self)@.execute_all_orders().1 {
                Ok(es) => r is Ok && r->Ok_0@ == es,
                Err(e) => r == Err::<Vec<Execution>, OrderError>(e),
            },
            old(self)@.not_crossed() ==> final(self)@.not_crossed(),
            r is Ok ==> final(self)@.queue.len() == 0,
            final(self).stock_id == old(self).stock_id,
            final(self).stock_info == old(self).stock_info,
    {
        let mut executions: Vec<Execution> = Vec::new();
        while self.order_queue.len() > 0
            invariant
                self.wf(),
                self.stock_id == old(self).stock_id,
                self.stock_info == old(self).stock_info,
                old(self)@.not_crossed() ==> self@.not_crossed(),
                old(self)@.execute_all_orders().0 == self@.execute_all_orders().0,
                old(self)@.execute_all_orders().1 == match self@.execute_all_orders().1 {
                    Ok(es) => Ok::<Seq<Execution>, OrderError>(executions@ + es),
                    Err(e) => Err::<Seq<Execution>, OrderError>(e),
                },
            decreases self.order_queue@.len(),
        {
            let ghost before = self@;
            match self.execute_order() {
                Ok(exec) => {
                    proof {
                        lemma_match_keeps_queue(before.popped(), before.queue[0]);
                        let (_end, rest) = self@.run(self@.queue);
                        if let Ok(es) = rest {
                            assert(executions@.push(exec) + es =~= executions@ + (seq![exec] + es));
                        }
                    }
                    executions.push(exec);
                },
                Err(e) => {
                    return Err(e);
                },
            }
        }
        proof {
            assert(self@.queue =~= Seq::<Order>::empty());
            assert(self@ == (BookView { queue: self@.queue, ..self@ }));
            assert(executions@ + Seq::<Execution>::empty() =~= executions@);
        }
        Ok(executions)
    }

    /// A trade for less than the order at the head of a level has: the order
    /// keeps its place, with what the trade leaves of it.
    fn fill_head(&mut self, side: OrderSide, p: i64, order_id: u128, by: i32) -> (left: Order)
        requires
            old(self).wf(),
            old(self)@.ladder(side).contains_key(p),
            old(self)@.ladder(side)[p][0] == order_id,
            1 <= by < old(self)@.index[order_id].qty,
        ensures
            final(self).wf(),
            final(self)@ == old(self)@.set_qty(
                order_id,
                (old(self)@.index[order_id].qty - by) as i32,
            ),
            left == final(self)@.index[order_id],
    {
        let ghost before = self@;
        proof {
            assert(before.level_inv(side, p));
            assert(before.rests_at(before.ladder(side)[p][0], side, p));
            assert(before.order_inv(order_id));
            old(self).law_level_aggregate(side, p);
        }
        let mut order = self.oid_map.remove(&order_id).unwrap();
        match side {
            OrderSide::BID => ladder_decrement_head(&mut self.bid_price_levels, p, &mut order, by),
            OrderSide::ASK => ladder_decrement_head(&mut self.ask_price_levels, p, &mut order, by),
        }
        let left = order.clone();
        self.oid_map.insert(order_id, order);
        proof {
            let after = self@;
            let want = before.set_qty(order_id, left.qty);
            lemma_set_qty_inv(before, order_id, left.qty);
            assert(self.oid_map@ =~= old(self).oid_map@.insert(order_id, order));
            assert(after.bids =~= want.bids);
            assert(after.asks =~= want.asks);
            assert(after == want);
            self.lemma_changed(*old(self), order_id);
        }
        left
    }

    /// The book as a table for reading: one row for each rank of price, with
    /// the bid level of that rank on the left, the best bid first, and the
    /// ask level of that rank on the right, the best ask first. A side that
    /// has fewer levels than the other leaves its cells empty.
    pub fn table_rows(&self) -> (rows: Vec<(String, String)>)
        ensures
            ({
                let bids = ascending_price_list(self.bid_price_levels@.dom());
                let asks = ascending_price_list(self.ask_price_levels@.dom());
                &&& rows@.len() == if bids.len() >= asks.len() {
                    bids.len()
                } else {
                    asks.len()
                }
                &&& forall|k: int|
                    0 <= k < rows@.len() ==> (#[trigger] rows@[k]).0@ == if k < bids.len() {
                        cell_text(self.bid_price_levels@[bids[bids.len() - 1 - k]])
                    } else {
                        Seq::<char>::empty()
                    }
                &&& forall|k: int|
                    0 <= k < rows@.len() ==> (#[trigger] rows@[k]).1@ == if k < asks.len() {
                        cell_text(self.ask_price_levels@[asks[k]])
                    } else {
                        Seq::<char>::empty()
                    }
            }),
    {
        let bids = sorted_prices(&self.bid_price_levels);
        let asks = sorted_prices(&self.ask_price_levels);
        let n = if bids.len() >= asks.len() {
            bids.len()
        } else {
            asks.len()
        };
        let mut rows: Vec<(String, String)> = Vec::new();
        let mut k: usize = 0;
        while k < n
            invariant
                k <= n,
                n == if bids.len() >= asks.len() {
                    bids.len()
                } else {
                    asks.len()
                },
                rows@.len() == k,
                forall|p: i64| self.bid_price_levels@.contains_key(p) <==> bids@.contains(p),
                forall|p: i64| self.ask_price_levels@.contains_key(p) <==> asks@.contains(p),
                forall|j: int|
                    0 <= j < k ==> (#[trigger] rows@[j]).0@ == if j < bids.len() {
                        cell_text(self.bid_price_levels@[bids@[bids.len() - 1 - j]])
                    } else {
                        Seq::<char>::empty()
                    },
                forall|j: int|
                    0 <= j < k ==> (#[trigger] rows@[j]).1@ == if j < asks.len() {
                        cell_text(self.ask_price_levels@[asks@[j]])
                    } else {
                        Seq::<char>::empty()
                    },
            decreases n - k,
        {
            let bid = if k < bids.len() {
                let p = bids[bids.len() - 1 - k];
                assert(bids@.contains(p));
                level_cell(self.bid_price_levels.get(&p).unwrap())
            } else {
                String::new()
            };
            let ask = if k < asks.len() {
                let p = asks[k];
                assert(asks@.contains(p));
                level_cell(self.ask_price_levels.get(&p).unwrap())
            } else {
                String::new()
            };
            rows.push((bid, ask));
            k = k + 1;
        }
        rows
    }

    /// What `wf` asks of the level at price `p` of a side, and of its orders.
    pub open spec fn level_sound(&self, side: OrderSide, p: i64) -> bool {
        let level = self.levels(side)[p];
        &&& self@.level_inv(side, p)
        &&& level.price == p
        &&& level.qty == level_total(self.oid_map@, level.orders@)
        &&& level.qty >= 1
        &&& forall|i: int|
            0 <= i < level.orders@.len() ==> self.oid_map@[#[trigger] level.orders@[i]].qty >= 1
    }

    /// Tests what `wf` asks of the level at price `p` of a side.
    fn level_is_sound(&self, side: OrderSide, p: i64) -> (ok: bool)
        requires
            self.levels(side).contains_key(p),
        ensures
            ok == self.level_sound(side, p),
    {
        let level = match side {
            OrderSide::BID => self.bid_price_levels.get(&p).unwrap(),
            OrderSide::ASK => self.ask_price_levels.get(&p).unwrap(),
        };
        assert(*level == self.levels(side)[p]);
        assert(level.orders@ == self@.ladder(side)[p]);
        if level.price != p {
            return false;
        }
        let n = level.orders.len();
        if n == 0 {
            return false;
        }
        let mut total: i128 = 0;
        let mut i: usize = 0;
        while i < n
            invariant
                i <= n,
                n == level.orders@.len(),
                *level == self.levels(side)[p],
                level.orders@ == self@.ladder(side)[p],
                total == level_total(self.oid_map@, level.orders@.subrange(0, i as int)),
                i <= total <= i * i32::MAX,
                forall|k: int|
                    0 <= k < i ==> self@.rests_at(#[trigger] level.orders@[k], side, p)
                        && self.oid_map@[level.orders@[k]].qty >= 1,
                forall|k: int, l: int| 0 <= k < l < i ==> level.orders@[k] != level.orders@[l],
            decreases n - i,
        {
            let id = level.orders[i];
            match self.oid_map.get(&id) {
                None => {
                    assert(!self@.rests_at(level.orders@[i as int], side, p));
                    return false;
                },
                Some(order) => {
                    if order.order_side != side || order.price != Some(p) {
                        assert(!self@.rests_at(level.orders@[i as int], side, p));
                        return false;
                    }
                    if order.qty < 1 {
                        assert(self.oid_map@[level.orders@[i as int]].qty < 1);
                        return false;
                    }
                    proof {
                        let front = level.orders@.subrange(0, i as int);
                        lemma_total_push(self.oid_map@, front, id);
                        assert(front.push(id) =~= level.orders@.subrange(0, i + 1));
                        assert(i * i32::MAX + i32::MAX == (i + 1) * i32::MAX) by (nonlinear_arith);
                        assert(i * i32::MAX <= usize::MAX * i32::MAX) by (nonlinear_arith)
                            requires
                                i <= usize::MAX,
                        ;
                    }
                    total = total + order.qty as i128;
                },
            }
            let mut j: usize = 0;
            while j < i
                invariant
                    j <= i < n,
                    n == level.orders@.len(),
                    id == level.orders@[i as int],
                    level.orders@ == self@.ladder(side)[p],
                    forall|k: int| 0 <= k < j ==> level.orders@[k] != id,
                decreases i - j,
            {
                if level.orders[j] == id {
                    assert(level.orders@[j as int] == level.orders@[i as int]);
                    assert(!level.orders@.no_duplicates());
                    return false;
                }
                j = j + 1;
            }
            i = i + 1;
        }
        assert(level.orders@.subrange(0, n as int) =~= level.orders@);
        total == level.qty
    }

    /// Tests what `wf` asks of the levels of a side.
    fn ladder_is_sound(&self, side: OrderSide) -> (ok: bool)
        ensures
            ok == forall|p: i64| #[trigger]
                self.levels(side).contains_key(p) ==> self.level_sound(side, p),
    {
        let prices = match side {
            OrderSide::BID => sorted_prices(&self.bid_price_levels),
            OrderSide::ASK => sorted_prices(&self.ask_price_levels),
        };
        let mut i: usize = 0;
        while i < prices.len()
            invariant
                i <= prices.len(),
                forall|p: i64| self.levels(side).contains_key(p) <==> prices@.contains(p),
                forall|k: int| 0 <= k < i ==> self.level_sound(side, #[trigger] prices@[k]),
            decreases prices.len() - i,
        {
            let p = prices[i];
            assert(prices@.contains(p));
            if !self.level_is_sound(side, p) {
                return false;
            }
            i = i + 1;
        }
        proof {
            assert forall|p: i64| #[trigger] self.levels(side).contains_key(p) implies self.level_sound(
                side,
                p,
            ) by {
                assert(prices@.contains(p));
                let k = prices@.index_of(p);
                assert(self.level_sound(side, prices@[k]));
            }
        }
        true
    }

    /// Tests what `wf` asks of the orders of the index.
    fn index_is_sound(&self) -> (ok: bool)
        ensures
            ok == forall|id: u128| #[trigger]
                self.oid_map@.contains_key(id) ==> self@.order_inv(id),
    {
        let ids = sorted_ids(&self.oid_map);
        let mut i: usize = 0;
        while i < ids.len()
            invariant
                i <= ids.len(),
                forall|id: u128| self.oid_map@.contains_key(id) <==> ids@.contains(id),
                forall|k: int| 0 <= k < i ==> self@.order_inv(#[trigger] ids@[k]),
            decreases ids.len() - i,
        {
            let id = ids[i];
            assert(ids@.contains(id));
            let order = self.oid_map.get(&id).unwrap();
            if order.order_id != id || order.qty < 1 {
                return false;
            }
            let p = match order.price {
                Some(p) => p,
                None => {
                    return false;
                },
            };
            if p <= 0 {
                return false;
            }
            let level = match self.get_price_level(order.order_side, p) {
                Some(level) => level,
                None => {
                    assert(!self@.ladder(order.order_side).contains_key(p));
                    return false;
                },
            };
            assert(level.orders@ == self@.ladder(order.order_side)[p]);
            let n = level.orders.len();
            let mut j: usize = 0;
            while j < n && level.orders[j] != id
                invariant
                    j <= n,
                    n == level.orders@.len(),
                    forall|k: int| 0 <= k < j ==> level.orders@[k] != id,
                decreases n - j,
            {
                j = j + 1;
            }
            if j == n {
                assert(!level.orders@.contains(id));
                return false;
            }
            assert(level.orders@[j as int] == id);
            i = i + 1;
        }
        proof {
            assert forall|id: u128| #[trigger] self.oid_map@.contains_key(id) implies self@.order_inv(
                id,
            ) by {
                assert(ids@.contains(id));
                let k = ids@.index_of(id);
                assert(self@.order_inv(ids@[k]));
            }
        }
        true
    }

    /// Whether the book is as `wf` asks: a test for a caller that cannot
    /// prove it.
    pub fn is_sound(&self) -> (ok: bool)
        ensures
            ok == self.wf(),
    {
        let last = match self.last_market_price {
            Some(p) => p > 0,
            None => true,
        };
        let ok = last && self.index_is_sound() && self.ladder_is_sound(OrderSide::BID)
            && self.ladder_is_sound(OrderSide::ASK);
        proof {
            assert(self@.bids.dom() =~= self.bid_price_levels@.dom());
            assert(self@.asks.dom() =~= self.ask_price_levels@.dom());
            if ok {
                assert forall|p: i64| #[trigger] self@.bids.contains_key(p) implies self@.level_inv(
                    OrderSide::BID,
                    p,
                ) by {
                    assert(self.levels(OrderSide::BID).contains_key(p));
                    assert(self.level_sound(OrderSide::BID, p));
                }
                assert forall|p: i64| #[trigger] self@.asks.contains_key(p) implies self@.level_inv(
                    OrderSide::ASK,
                    p,
                ) by {
                    assert(self.levels(OrderSide::ASK).contains_key(p));
                    assert(self.level_sound(OrderSide::ASK, p));
                }
                assert forall|p: i64| #[trigger]
                    self.bid_price_levels@.contains_key(p) implies self.bid_price_levels@[p].price
                    == p && self.bid_price_levels@[p].qty == level_total(
                    self.oid_map@,
                    self.bid_price_levels@[p].orders@,
                ) && self.bid_price_levels@[p].qty >= 1 by {
                    assert(self.levels(OrderSide::BID).contains_key(p));
                    assert(self.level_sound(OrderSide::BID, p));
                }
                assert forall|p: i64| #[trigger]
                    self.ask_price_levels@.contains_key(p) implies self.ask_price_levels@[p].price
                    == p && self.ask_price_levels@[p].qty == level_total(
                    self.oid_map@,
                    self.ask_price_levels@[p].orders@,
                ) && self.ask_price_levels@[p].qty >= 1 by {
                    assert(self.levels(OrderSide::ASK).contains_key(p));
                    assert(self.level_sound(OrderSide::ASK, p));
                }
            } else if self.wf() {
                assert forall|side: OrderSide, p: i64| #[trigger]
                    self.levels(side).contains_key(p) implies self.level_sound(side, p) by {
                    assert(self@.ladder(side).contains_key(p));
                    self.law_level_aggregate(side, p);
                }
            }
        }
        ok
    }

    /// Whether every bid is below every ask.
    pub fn is_not_crossed(&self) -> (ok: bool)
        ensures
            ok == self@.not_crossed(),
    {
        let best_bid = highest_price(&self.bid_price_levels);
        let best_ask = lowest_price(&self.ask_price_levels);
        match (best_bid, best_ask) {
            (Some(bid), Some(ask)) => {
                proof {
                    if bid < ask {
                        assert forall|b: i64, a: i64| #[trigger]
                            self@.bids.contains_key(b) && #[trigger] self@.asks.contains_key(
                                a,
                            ) implies b < a by {
                            assert(self.bid_price_levels@.contains_key(b));
                            assert(self.ask_price_levels@.contains_key(a));
                        }
                    } else {
                        assert(self@.bids.contains_key(bid) && self@.asks.contains_key(ask));
                    }
                }
                bid < ask
            },
            _ => true,
        }
    }

    /// Lowers the quantity of a resting order to `qty`, where it is.
    fn reduce_order(&mut self, order_id: u128, qty: i32)
        requires
            old(self).wf(),
            old(self)@.index.contains_key(order_id),
            1 <= qty <= old(self)@.index[order_id].qty,
        ensures
            final(self).wf(),
            final(self)@ == old(self)@.set_qty(order_id, qty),
    {
        let ghost before = self@;
        let mut order = self.oid_map.remove(&order_id).unwrap();
        let p = order.price.unwrap();
        let by = order.qty - qty;
        proof {
            assert(before.order_inv(order_id));
            assert(before.level_inv(order.order_side, p));
            old(self).law_level_aggregate(order.order_side, p);
        }
        match order.order_side {
            OrderSide::BID => ladder_reduce(&mut self.bid_price_levels, p, by),
            OrderSide::ASK => ladder_reduce(&mut self.ask_price_levels, p, by),
        }
        order.qty = qty;
        self.oid_map.insert(order_id, order);
        proof {
            let after = self@;
            let want = before.set_qty(order_id, qty);
            lemma_set_qty_inv(before, order_id, qty);
            assert(self.oid_map@ =~= old(self).oid_map@.insert(order_id, order));
            assert(after.bids =~= want.bids);
            assert(after.asks =~= want.asks);
            assert(after == want);
            self.lemma_changed(*old(self), order_id);
        }
    }

    /// Takes a resting order off its ladder and out of the index, and gives
    /// it back.
    fn take_order(&mut self, order_id: u128) -> (order: Order)
        requires
            old(self).wf(),
            old(self)@.index.contains_key(order_id),
        ensures
            final(self).wf(),
            final(self)@ == old(self)@.unrest(order_id),
            order == old(self)@.index[order_id],
    {
        let ghost before = self@;
        let order = self.oid_map.remove(&order_id).unwrap();
        let p = order.price.unwrap();
        let copy = order.clone();
        proof {
            assert(before.order_inv(order_id));
            assert(before.level_inv(order.order_side, p));
            old(self).law_level_aggregate(order.order_side, p);
        }
        match order.order_side {
            OrderSide::BID => ladder_remove(&mut self.bid_price_levels, p, copy),
            OrderSide::ASK => ladder_remove(&mut self.ask_price_levels, p, copy),
        }
        proof {
            let after = self@;
            let want = before.unrest(order_id);
            lemma_unrest_inv(before, order_id);
            let ids = before.ladder(order.order_side)[p];
            lemma_remove_value(ids, order_id);
            lemma_total_remove(old(self).oid_map@, ids, ids.index_of(order_id));
            old(self).lemma_level_rest_bounds(order_id);
            assert(after.bids =~= want.bids);
            assert(after.asks =~= want.asks);
            assert(after == want);
            self.lemma_changed(*old(self), order_id);
        }
        order
    }

    /// A level is kept under its own price and holds the ids that the model
    /// has for it; the aggregate that it caches is the sum of the quantities
    /// of its orders, each of which is at least 1, so that the aggregate is
    /// at least 1 too.
    pub proof fn law_level_aggregate(self, side: OrderSide, p: i64)
        requires
            self.wf(),
            self@.ladder(side).contains_key(p),
        ensures
            ({
                let level = self.levels(side)[p];
                &&& level.price == p
                &&& 1 <= level.qty <= usize::MAX * i32::MAX
                &&& level.orders@ == self@.ladder(side)[p]
                &&& level.qty == level_total(self.oid_map@, level.orders@)
                &&& forall|i: int|
                    0 <= i < level.orders@.len() ==> 1 <= self.oid_map@[#[trigger] level.orders@[i]].qty
                        <= level.qty
            }),
    {
        let level = self.levels(side)[p];
        let ids = level.orders@;
        let v = self@;
        assert(v.level_inv(side, p));
        assert forall|i: int| 0 <= i < ids.len() implies self.oid_map@[#[trigger] ids[i]].qty
            >= 1 by {
            assert(v.rests_at(ids[i], side, p));
            assert(v.order_inv(ids[i]));
        }
        lemma_total_bounds(self.oid_map@, ids);
        assert(ids.len() == level.orders.len());
        assert(ids.len() * i32::MAX <= usize::MAX * i32::MAX) by (nonlinear_arith)
            requires
                ids.len() <= usize::MAX,
        ;
        assert forall|i: int| 0 <= i < ids.len() implies self.oid_map@[#[trigger] ids[i]].qty
            <= level.qty by {
            lemma_total_remove(self.oid_map@, ids, i);
            let others = ids.remove(i);
            assert forall|j: int| 0 <= j < others.len() implies self.oid_map@[#[trigger] others[j]].qty
                >= 1 by {
                if j < i {
                    assert(others[j] == ids[j]);
                } else {
                    assert(others[j] == ids[j + 1]);
                }
            }
            lemma_total_bounds(self.oid_map@, others);
        }
    }

    /// What a level keeps when one of its orders leaves: a total of zero
    /// where that was the last order, and of at least 1 otherwise.
    proof fn lemma_level_rest_bounds(self, order_id: u128)
        requires
            self.wf(),
            self@.index.contains_key(order_id),
        ensures
            ({
                let o = self@.index[order_id];
                let ids = self@.ladder(o.order_side)[o.price->0];
                let rest = level_total(self.oid_map@, ids) - o.qty;
                &&& ids.contains(order_id)
                &&& rest == level_total(self.oid_map@, ids.remove_value(order_id))
                &&& ids.remove_value(order_id).len() == 0 ==> rest == 0
                &&& ids.remove_value(order_id).len() > 0 ==> rest >= 1
            }),
    {
        let v = self@;
        let o = v.index[order_id];
        let p = o.price->0;
        assert(v.order_inv(order_id));
        assert(v.level_inv(o.order_side, p));
        let ids = v.ladder(o.order_side)[p];
        lemma_remove_value(ids, order_id);
        lemma_total_remove(self.oid_map@, ids, ids.index_of(order_id));
        let others = ids.remove_value(order_id);
        assert forall|j: int| 0 <= j < others.len() implies self.oid_map@[#[trigger] others[j]].qty
            >= 1 by {
            assert(ids.contains(others[j]));
            let k = ids.index_of(others[j]);
            assert(v.rests_at(ids[k], o.order_side, p));
            assert(v.order_inv(ids[k]));
        }
        lemma_total_bounds(self.oid_map@, others);
    }

    /// After a change to the order `order_id` alone, by which it has left the
    /// book or has another quantity, the levels cache the right totals.
    proof fn lemma_changed(self, before: OrderBook, order_id: u128)
        requires
            before.wf(),
            before@.index.contains_key(order_id),
            self@ == before@.unrest(order_id) || (self@ == before@.set_qty(
                order_id,
                self.oid_map@[order_id].qty,
            ) && self.oid_map@[order_id].qty >= 1),
            ({
                let o = before@.index[order_id];
                let p = o.price->0;
                let was = before.levels(o.order_side);
                let now = self.levels(o.order_side);
                let by = o.qty - if self.oid_map@.contains_key(order_id) {
                    self.oid_map@[order_id].qty
                } else {
                    0
                };
                &&& forall|q: i64| q != p ==> (now.contains_key(q) <==> was.contains_key(q))
                &&& forall|q: i64| q != p && was.contains_key(q) ==> now[q] == was[q]
                &&& now.contains_key(p) ==> now[p].price == p && now[p].qty == was[p].qty - by
            }),
            self.levels(before@.index[order_id].order_side.opposite()) == before.levels(
                before@.index[order_id].order_side.opposite(),
            ),
        ensures
            ladder_wf(self.bid_price_levels@, self.oid_map@),
            ladder_wf(self.ask_price_levels@, self.oid_map@),
    {
        let a = before.oid_map@;
        let b = self.oid_map@;
        let v = before@;
        let w = self@;
        let o = v.index[order_id];
        let p = o.price->0;
        let side = o.order_side;
        assert(v.order_inv(order_id));
        assert(v.level_inv(side, p));
        let ids = v.ladder(side)[p];
        lemma_remove_value(ids, order_id);
        before.lemma_level_rest_bounds(order_id);
        before.law_level_aggregate(side, p);
        assert forall|s: OrderSide, q: i64|
            v.ladder(s).contains_key(q) && !(s == side && q == p) implies level_total(
            a,
            v.ladder(s)[q],
        ) == level_total(b, v.ladder(s)[q]) by {
            let other = v.ladder(s)[q];
            assert(v.level_inv(s, q));
            assert forall|i: int| 0 <= i < other.len() implies a[#[trigger] other[i]].qty
                == b[other[i]].qty by {
                assert(v.rests_at(other[i], s, q));
            }
            lemma_total_agree(a, b, other);
        }
        let was = before.levels(side);
        let now = self.levels(side);
        let far = self.levels(side.opposite());
        assert forall|q: i64| #[trigger] far.contains_key(q) implies far[q].qty == level_total(
            b,
            far[q].orders@,
        ) by {
            assert(v.ladder(side.opposite()).contains_key(q));
            assert(v.ladder(side.opposite())[q] == far[q].orders@);
        }
        assert forall|q: i64| #[trigger] now.contains_key(q) implies now[q].price == q && now[q].qty
            == level_total(b, now[q].orders@) && now[q].qty >= 1 by {
            assert(w.ladder(side).contains_key(q));
            if q != p {
                assert(was.contains_key(q));
                assert(now[q] == was[q]);
                assert(v.ladder(side) == ladder_view(was));
                assert(v.ladder(side).contains_key(q));
                assert(v.ladder(side)[q] == now[q].orders@);
            } else {
                assert(now[p].orders@ == w.ladder(side)[p]);
                if w == v.unrest(order_id) {
                    let others = ids.remove_value(order_id);
                    assert(w.ladder(side)[p] == others);
                    assert forall|i: int| 0 <= i < others.len() implies a[#[trigger] others[i]].qty
                        == b[others[i]].qty by {}
                    lemma_total_agree(a, b, others);
                } else {
                    let k = ids.index_of(order_id);
                    assert(w.ladder(side)[p] == ids);
                    assert forall|i: int| 0 <= i < ids.len() && i != k implies a[#[trigger] ids[i]].qty
                        == b[ids[i]].qty by {}
                    lemma_total_update(a, b, ids, k);
                    assert forall|i: int| 0 <= i < ids.len() implies b[#[trigger] ids[i]].qty
                        >= 1 by {
                        assert(v.rests_at(ids[i], side, p));
                        assert(v.order_inv(ids[i]));
                    }
                    lemma_total_bounds(b, ids);
                }
            }
        }
    }
}

/// Takes `order` out of the level at price `p`. A level without quantity
/// leaves the ladder.
fn ladder_remove(ladder: &mut BTreeMap<i64, PriceLevel>, p: i64, order: Order)
    requires
        old(ladder)@.contains_key(p),
        old(ladder)@[p].orders@.contains(order.order_id),
        i128::MIN <= old(ladder)@[p].qty - order.qty <= i128::MAX,
    ensures
        old(ladder)@[p].qty - order.qty <= 0 ==> final(ladder)@ == old(ladder)@.remove(p),
        old(ladder)@[p].qty - order.qty > 0 ==> {
            &&& final(ladder)@ == old(ladder)@.insert(p, final(ladder)@[p])
            &&& final(ladder)@[p].price == old(ladder)@[p].price
            &&& final(ladder)@[p].orders@ == old(ladder)@[p].orders@.remove_value(order.order_id)
            &&& final(ladder)@[p].qty == old(ladder)@[p].qty - order.qty
        },
{
    let mut level = ladder.remove(&p).unwrap();
    let _ = level.remove_order(order);
    if !level.is_empty() {
        ladder.insert(p, level);
        assert(final(ladder)@ =~= old(ladder)@.insert(p, final(ladder)@[p]));
    }
}

/// Takes `by` off the aggregate of the level at price `p`.
fn ladder_reduce(ladder: &mut BTreeMap<i64, PriceLevel>, p: i64, by: i32)
    requires
        old(ladder)@.contains_key(p),
        i128::MIN <= old(ladder)@[p].qty - by <= i128::MAX,
    ensures
        final(ladder)@ == old(ladder)@.insert(p, final(ladder)@[p]),
        final(ladder)@[p].price == old(ladder)@[p].price,
        final(ladder)@[p].orders@ == old(ladder)@[p].orders@,
        final(ladder)@[p].qty == old(ladder)@[p].qty - by,
{
    let mut level = ladder.remove(&p).unwrap();
    level.qty = level.qty - by as i128;
    ladder.insert(p, level);
    assert(final(ladder)@ =~= old(ladder)@.insert(p, final(ladder)@[p]));
}

/// Calls `BTreeMap::first_key_value`, which gives the entry with the smallest
/// key, and nothing for an empty map; hands on the key.
#[verifier::external_body]
fn lowest_price(levels: &BTreeMap<i64, PriceLevel>) -> (best: Option<i64>)
    ensures
        best is None ==> forall|q: i64| !levels@.contains_key(q),
        best matches Some(p) ==> levels@.contains_key(p) && forall|q: i64|
            levels@.contains_key(q) ==> p <= q,
{
    match levels.first_key_value() {
        Some((price, _)) => Some(*price),
        None => None,
    }
}

/// Calls `BTreeMap::last_key_value`, which gives the entry with the largest
/// key, and nothing for an empty map; hands on the key.
#[verifier::external_body]
fn highest_price(levels: &BTreeMap<i64, PriceLevel>) -> (best: Option<i64>)
    ensures
        best is None ==> forall|q: i64| !levels@.contains_key(q),
        best matches Some(p) ==> levels@.contains_key(p) && forall|q: i64|
            levels@.contains_key(q) ==> q <= p,
{
    match levels.last_key_value() {
        Some((price, _)) => Some(*price),
        None => None,
    }
}

/// The side across the book.
fn other_side(side: OrderSide) -> (other: OrderSide)
    ensures
        other == side.opposite(),
{
    match side {
        OrderSide::BID => OrderSide::ASK,
        OrderSide::ASK => OrderSide::BID,
    }
}

/// A partial fill of `head`, the order at the head of the level at price `p`.
fn ladder_decrement_head(ladder: &mut BTreeMap<i64, PriceLevel>, p: i64, head: &mut Order, by: i32)
    requires
        old(ladder)@.contains_key(p),
        old(ladder)@[p].orders@.len() > 0,
        old(ladder)@[p].orders@[0] == old(head).order_id,
        i128::MIN <= old(ladder)@[p].qty - head_cut(old(head).qty as int, by as int),
    ensures
        final(ladder)@ == old(ladder)@.insert(p, final(ladder)@[p]),
        final(ladder)@[p].price == old(ladder)@[p].price,
        final(ladder)@[p].orders@ == old(ladder)@[p].orders@,
        final(ladder)@[p].qty == old(ladder)@[p].qty - head_cut(old(head).qty as int, by as int),
        *final(head) == (Order {
            qty: (old(head).qty - head_cut(old(head).qty as int, by as int)) as i32,
            ..*old(head)
        }),
{
    let mut level = ladder.remove(&p).unwrap();
    level.decrement_head(head, by);
    ladder.insert(p, level);
    assert(final(ladder)@ =~= old(ladder)@.insert(p, final(ladder)@[p]));
}

} // verus!
