//! The mathematical model of an order book: what a book is, what holds of it
//! at rest, and what each operation makes of it.
use crate::engine::execution::Execution;
use crate::engine::execution::ExecutionType;
use crate::engine::order::Order;
use crate::engine::order::OrderSide;
use crate::engine::order::OrderType;
use crate::engine::order::Stock;
use crate::errors::OrderError;
use vstd::prelude::*;

verus! {

/// A book as a value. A ladder maps each price that has resting orders to
/// their ids, the oldest first; `index` holds every resting order by its id;
/// `queue` holds the orders that wait to be matched, the oldest first.
pub struct BookView {
    pub stock_id: u128,
    pub stock_info: Stock,
    pub bids: Map<i64, Seq<u128>>,
    pub asks: Map<i64, Seq<u128>>,
    pub index: Map<u128, Order>,
    pub queue: Seq<Order>,
    pub last_price: Option<i64>,
}

/// The sum of the quantities that `index` has for the orders `ids`.
pub open spec fn level_total(index: Map<u128, Order>, ids: Seq<u128>) -> int
    decreases ids.len(),
{
    if ids.len() == 0 {
        0
    } else {
        level_total(index, ids.drop_last()) + index[ids.last()].qty
    }
}

/// Whether `p` is the best price of a ladder of the given side: the highest
/// bid, the lowest ask.
pub open spec fn is_best(ladder: Map<i64, Seq<u128>>, side: OrderSide, p: i64) -> bool {
    &&& ladder.contains_key(p)
    &&& forall|q: i64| #[trigger]
        ladder.contains_key(q) ==> match side {
            OrderSide::BID => q <= p,
            OrderSide::ASK => p <= q,
        }
}

/// Whether an incoming order may trade at the price `p` of the other side: a
/// market order at any price, a limit bid at its price or below, a limit ask
/// at its price or above.
pub open spec fn crosses(o: Order, p: i64) -> bool {
    match o.order_type {
        OrderType::MARKET => true,
        OrderType::LIMIT => match o.order_side {
            OrderSide::BID => p <= o.price->0,
            OrderSide::ASK => p >= o.price->0,
        },
    }
}

/// The event of a trade: a `MATCH` of the incoming order `rest` with the
/// resting order `left`, both as the trade left them.
pub open spec fn trade_event(rest: Order, left: Order) -> Execution {
    Execution {
        exec_type: ExecutionType::MATCH,
        executor_id: rest.creator_id,
        time_executed: rest.time_created,
        order: rest,
        matched_order: Some(left),
    }
}

/// The event of an order that comes to rest: an `ADD` of what is left of it.
pub open spec fn rest_event(rest: Order) -> Execution {
    Execution {
        exec_type: ExecutionType::ADD,
        executor_id: rest.creator_id,
        time_executed: rest.time_created,
        order: rest,
        matched_order: None,
    }
}

/// The trades among the events of a match: all of them but an `ADD` at the
/// end.
pub open spec fn trades_of(events: Seq<Execution>) -> Seq<Execution> {
    if events.len() > 0 && events.last().exec_type == ExecutionType::ADD {
        events.drop_last()
    } else {
        events
    }
}

impl BookView {
    /// The book of the given instrument before any order has come.
    pub open spec fn empty(stock: Stock) -> BookView {
        BookView {
            stock_id: stock.stock_id,
            stock_info: stock,
            bids: Map::empty(),
            asks: Map::empty(),
            index: Map::empty(),
            queue: Seq::empty(),
            last_price: None,
        }
    }

    /// Whether the book has neither resting nor waiting orders.
    pub open spec fn idle(self) -> bool {
        self.index.is_empty() && self.queue.len() == 0
    }

    /// The ladder of a side.
    pub open spec fn ladder(self, side: OrderSide) -> Map<i64, Seq<u128>> {
        match side {
            OrderSide::BID => self.bids,
            OrderSide::ASK => self.asks,
        }
    }

    /// The book with `ladder` as the ladder of a side.
    pub open spec fn with_ladder(self, side: OrderSide, ladder: Map<i64, Seq<u128>>) -> BookView {
        match side {
            OrderSide::BID => BookView { bids: ladder, ..self },
            OrderSide::ASK => BookView { asks: ladder, ..self },
        }
    }

    /// The index has the order `id`, on the given side at the given price.
    pub open spec fn rests_at(self, id: u128, side: OrderSide, p: i64) -> bool {
        &&& self.index.contains_key(id)
        &&& self.index[id].order_side == side
        &&& self.index[id].price == Some(p)
    }

    /// A level has at least one order, none twice, and each of them is in the
    /// index with the level's side and price.
    pub open spec fn level_inv(self, side: OrderSide, p: i64) -> bool {
        let ids = self.ladder(side)[p];
        &&& ids.len() > 0
        &&& ids.no_duplicates()
        &&& forall|i: int| 0 <= i < ids.len() ==> self.rests_at(#[trigger] ids[i], side, p)
    }

    /// An order of the index is kept under its own id, has a quantity of at
    /// least 1 and a positive price, and the level at that price on its side
    /// holds it.
    pub open spec fn order_inv(self, id: u128) -> bool {
        let o = self.index[id];
        &&& o.order_id == id
        &&& o.qty >= 1
        &&& o.price matches Some(p) && p > 0
        &&& self.ladder(o.order_side).contains_key(o.price->0)
        &&& self.ladder(o.order_side)[o.price->0].contains(id)
    }

    /// What holds of a book whenever an operation has returned: the ladders
    /// have finitely many levels, the index and the two ladders agree on
    /// which orders rest where, and the last trade price, if there is one, is
    /// positive.
    pub open spec fn inv(self) -> bool {
        &&& self.bids.dom().finite()
        &&& self.asks.dom().finite()
        &&& self.last_price matches Some(p) ==> p > 0
        &&& forall|id: u128| #[trigger] self.index.contains_key(id) ==> self.order_inv(id)
        &&& forall|p: i64| #[trigger] self.bids.contains_key(p) ==> self.level_inv(OrderSide::BID, p)
        &&& forall|p: i64| #[trigger] self.asks.contains_key(p) ==> self.level_inv(OrderSide::ASK, p)
    }

    /// Every bid is below every ask.
    pub open spec fn not_crossed(self) -> bool {
        forall|b: i64, a: i64| #[trigger]
            self.bids.contains_key(b) && #[trigger] self.asks.contains_key(a) ==> b < a
    }

    /// The best price of a side, if the side has any order.
    pub open spec fn best(self, side: OrderSide) -> Option<i64> {
        if exists|p: i64| is_best(self.ladder(side), side, p) {
            Some(choose|p: i64| is_best(self.ladder(side), side, p))
        } else {
            None
        }
    }

    pub open spec fn best_bid(self) -> Option<i64> {
        self.best(OrderSide::BID)
    }

    pub open spec fn best_ask(self) -> Option<i64> {
        self.best(OrderSide::ASK)
    }

    /// The book with the order `o` at the tail of the level at its price, on
    /// its side, and in the index.
    pub open spec fn rest(self, o: Order) -> BookView {
        let p = o.price->0;
        let ladder = self.ladder(o.order_side);
        let ids = if ladder.contains_key(p) {
            ladder[p].push(o.order_id)
        } else {
            seq![o.order_id]
        };
        BookView {
            index: self.index.insert(o.order_id, o),
            ..self.with_ladder(o.order_side, ladder.insert(p, ids))
        }
    }

    /// The book without the resting order `id`. A level that loses its last
    /// order leaves the ladder.
    pub open spec fn unrest(self, id: u128) -> BookView {
        let o = self.index[id];
        let p = o.price->0;
        let ladder = self.ladder(o.order_side);
        let ids = ladder[p].remove_value(id);
        BookView {
            index: self.index.remove(id),
            ..self.with_ladder(
                o.order_side,
                if ids.len() == 0 {
                    ladder.remove(p)
                } else {
                    ladder.insert(p, ids)
                },
            )
        }
    }

    /// The book with the quantity of the resting order `id` set to `qty`. The
    /// order keeps its place in its level.
    pub open spec fn set_qty(self, id: u128, qty: i32) -> BookView {
        BookView { index: self.index.insert(id, Order { qty, ..self.index[id] }), ..self }
    }

    /// Whether the book takes the order `o` at all: it must be valid, and no
    /// resting order may have its id.
    pub open spec fn accept(self, o: Order) -> Result<(), OrderError> {
        match o.check() {
            Err(e) => Err(e),
            Ok(_) => if self.index.contains_key(o.order_id) {
                Err(OrderError::InvalidOrderID)
            } else {
                Ok(())
            },
        }
    }

    /// The price at which `o` would rest: its own for a limit order, the last
    /// trade price for a market order.
    pub open spec fn working_price(self, o: Order) -> Option<i64> {
        match o.order_type {
            OrderType::LIMIT => o.price,
            OrderType::MARKET => self.last_price,
        }
    }

    /// An order is put on the book without matching.
    pub open spec fn add_order(self, o: Order) -> Result<BookView, OrderError> {
        match self.accept(o) {
            Err(e) => Err(e),
            Ok(_) => match self.working_price(o) {
                None => Err(OrderError::InvalidPrice),
                Some(p) => Ok(self.rest(Order { price: Some(p), ..o })),
            },
        }
    }

    /// A resting order is taken off the book.
    pub open spec fn delete_order(self, id: u128) -> Result<BookView, OrderError> {
        if self.index.contains_key(id) {
            Ok(self.unrest(id))
        } else {
            Err(OrderError::UnknownOrder)
        }
    }

    /// A resting order gets a new quantity and price. A quantity below 1
    /// deletes it. At the same price and with no more quantity than before it
    /// keeps its place in the queue; otherwise it leaves its level and joins
    /// the tail of the level at the new price.
    pub open spec fn modify_order(self, id: u128, new_qty: i32, new_price: Option<i64>) -> Result<
        BookView,
        OrderError,
    > {
        if new_qty <= 0 {
            self.delete_order(id)
        } else if !self.index.contains_key(id) {
            Err(OrderError::UnknownOrder)
        } else if !(new_price matches Some(p) && p > 0) {
            Err(OrderError::InvalidPrice)
        } else {
            let o = self.index[id];
            if new_price == o.price && new_qty <= o.qty {
                Ok(self.set_qty(id, new_qty))
            } else {
                Ok(self.unrest(id).rest(Order { qty: new_qty, price: new_price, ..o }))
            }
        }
    }

    /// The resting order that an incoming order of the given side trades with
    /// first: the head of the level at the best price across the book.
    pub open spec fn counterparty(self, side: OrderSide) -> u128 {
        self.ladder(side.opposite())[self.best(side.opposite())->0][0]
    }

    /// Whether the incoming order `o` can trade now: it has quantity left,
    /// and the other side has a best price that `o` crosses.
    pub open spec fn can_fill(self, o: Order) -> bool {
        let other = o.order_side.opposite();
        &&& o.qty > 0
        &&& self.best(other) matches Some(p) && crosses(o, p) && self.ladder(other)[p].len() > 0
        &&& self.index.contains_key(self.counterparty(o.order_side))
        &&& self.index[self.counterparty(o.order_side)].qty > 0
    }

    /// One trade of the incoming order `o` with its counterparty, for the
    /// smaller of the two quantities, at the resting order's price. Gives the
    /// book, `o` and the counterparty as the trade leaves them: a
    /// counterparty that is filled leaves the book, one that is not keeps its
    /// place.
    pub open spec fn fill(self, o: Order) -> (BookView, Order, Order) {
        let p = self.best(o.order_side.opposite())->0;
        let id = self.counterparty(o.order_side);
        let r = self.index[id];
        let traded = if o.qty <= r.qty {
            o.qty
        } else {
            r.qty
        };
        let left = Order { qty: (r.qty - traded) as i32, ..r };
        let book = if left.qty == 0 {
            self.unrest(id)
        } else {
            self.set_qty(id, left.qty)
        };
        (BookView { last_price: Some(p), ..book }, Order { qty: (o.qty - traded) as i32, ..o }, left)
    }

    /// All the trades of the incoming order `o`, best price first and within
    /// a price the oldest order first, until `o` is filled or nothing is left
    /// that it crosses. Gives the book and `o` as the trades leave them, and
    /// the last counterparty (`last` where there was no trade).
    pub open spec fn sweep(self, o: Order, last: Option<Order>) -> (BookView, Order, Option<Order>)
        decreases o.qty,
    {
        if self.can_fill(o) {
            let (book, rest, left) = self.fill(o);
            book.sweep(rest, Some(left))
        } else {
            (self, o, last)
        }
    }

    /// An incoming order is matched against the book. What is left of it
    /// after its trades rests on the book and is reported as `ADD`; an order
    /// that is filled is reported as `MATCH`, with its last counterparty.
    pub open spec fn match_order(self, o: Order) -> Result<(BookView, Execution), OrderError> {
        match self.accept(o) {
            Err(e) => Err(e),
            Ok(_) => {
                let (book, rest, last) = self.sweep(o, None);
                if rest.qty > 0 {
                    match book.working_price(rest) {
                        None => Err(OrderError::InvalidPrice),
                        Some(p) => Ok((book.rest(Order { price: Some(p), ..rest }), rest_event(rest))),
                    }
                } else {
                    Ok(
                        (
                            book,
                            Execution {
                                exec_type: ExecutionType::MATCH,
                                executor_id: rest.creator_id,
                                time_executed: rest.time_created,
                                order: rest,
                                matched_order: last,
                            },
                        ),
                    )
                }
            },
        }
    }

    /// The events of the trades of an incoming order `o`, one `MATCH` for
    /// each trade, in the order of the trades: each shows `o` and the resting
    /// order that it traded with as the trade left them.
    pub open spec fn trade_events(self, o: Order) -> Seq<Execution>
        decreases o.qty,
    {
        if self.can_fill(o) {
            let (book, rest, left) = self.fill(o);
            seq![trade_event(rest, left)] + book.trade_events(rest)
        } else {
            Seq::empty()
        }
    }

    /// An incoming order is matched against the book, and every trade is
    /// reported: the events of its trades, and behind them an `ADD` where
    /// something is left of the order, which rests on the book.
    pub open spec fn match_order_trades(self, o: Order) -> Result<
        (BookView, Seq<Execution>),
        OrderError,
    > {
        match self.accept(o) {
            Err(e) => Err(e),
            Ok(_) => {
                let (book, rest, _last) = self.sweep(o, None);
                if rest.qty > 0 {
                    match book.working_price(rest) {
                        None => Err(OrderError::InvalidPrice),
                        Some(p) => Ok(
                            (
                                book.rest(Order { price: Some(p), ..rest }),
                                self.trade_events(o).push(rest_event(rest)),
                            ),
                        ),
                    }
                } else {
                    Ok((book, self.trade_events(o)))
                }
            },
        }
    }

    /// An order joins the queue, if it is valid.
    pub open spec fn queue_order(self, o: Order) -> Result<BookView, OrderError> {
        match o.check() {
            Err(e) => Err(e),
            Ok(_) => Ok(BookView { queue: self.queue.push(o), ..self }),
        }
    }

    /// The book without the order at the head of its queue.
    pub open spec fn popped(self) -> BookView {
        BookView { queue: self.queue.drop_first(), ..self }
    }

    /// The oldest order of the queue leaves it and is matched. An order that
    /// the book refuses is lost, and the book is otherwise as it was.
    pub open spec fn execute_order(self) -> (BookView, Result<Execution, OrderError>) {
        if self.queue.len() == 0 {
            (self, Err(OrderError::OrderQueueEmpty))
        } else {
            match self.popped().match_order(self.queue[0]) {
                Ok((book, e)) => (book, Ok(e)),
                Err(e) => (self.popped(), Err(e)),
            }
        }
    }

    /// The orders `pending` are matched one after the other, the first one
    /// first, while the rest of them wait in the queue. Gives the events in
    /// the order of the matches. The first order that the book refuses ends
    /// the run with its error, and the orders behind it stay in the queue.
    pub open spec fn run(self, pending: Seq<Order>) -> (BookView, Result<Seq<Execution>, OrderError>)
        decreases pending.len(),
    {
        if pending.len() == 0 {
            (BookView { queue: pending, ..self }, Ok(Seq::empty()))
        } else {
            let waiting = BookView { queue: pending.drop_first(), ..self };
            match waiting.match_order(pending[0]) {
                Err(e) => (waiting, Err(e)),
                Ok((book, e)) => {
                    let (end, rest) = book.run(pending.drop_first());
                    (
                        end,
                        match rest {
                            Ok(es) => Ok(seq![e] + es),
                            Err(x) => Err(x),
                        },
                    )
                },
            }
        }
    }

    /// The whole queue is matched, the oldest order first.
    pub open spec fn execute_all_orders(self) -> (BookView, Result<Seq<Execution>, OrderError>) {
        self.run(self.queue)
    }

    /// Whether an order that comes to rest on `side` at the price `p` stays
    /// clear of the other side: below every ask, or above every bid.
    pub open spec fn clear_of(self, side: OrderSide, p: i64) -> bool {
        forall|q: i64| #[trigger]
            self.ladder(side.opposite()).contains_key(q) ==> match side {
                OrderSide::BID => p < q,
                OrderSide::ASK => q < p,
            }
    }
}

} // verus!
