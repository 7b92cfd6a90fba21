//! The mathematical model of the exchange: its participants, instruments,
//! holdings and books, and what each operation makes of them.
use crate::engine::account::User;
use crate::engine::account::UserStocks;
use crate::engine::book_view::BookView;
use crate::engine::execution::Execution;
use crate::engine::iteration::ids_by_ticker;
use crate::engine::iteration::InstrumentIteration;
use crate::engine::keys::ascending_ids;
use crate::engine::order::Order;
use crate::engine::order::Stock;
use crate::errors::OrderError;
use crate::errors::StockError;
use vstd::prelude::*;

verus! {

/// The exchange as a value: the participants and the instruments by id, what
/// each participant holds of each instrument, and the book of each
/// instrument.
pub struct ExchangeView {
    pub users: Map<u128, User>,
    pub stocks: Map<u128, Stock>,
    pub holdings: Map<u128, Map<u128, UserStocks>>,
    pub books: Map<u128, BookView>,
}

impl ExchangeView {
    /// The exchange with `book` in place of the book of the instrument `id`.
    pub open spec fn with_book(self, id: u128, book: BookView) -> ExchangeView {
        ExchangeView { books: self.books.insert(id, book), ..self }
    }

    /// No book of the exchange is crossed.
    pub open spec fn not_crossed(self) -> bool {
        forall|id: u128| #[trigger] self.books.contains_key(id) ==> self.books[id].not_crossed()
    }

    /// An instrument is registered: it gets an empty book, its issuer is
    /// registered unless a participant with that id is, and the issuer holds
    /// the outstanding shares.
    pub open spec fn add_stock(self, stock: Stock, issuer: User) -> Result<
        ExchangeView,
        StockError,
    > {
        if self.stocks.contains_key(stock.stock_id) {
            Err(StockError::DuplicateStockID)
        } else {
            match stock.check() {
                Err(e) => Err(e),
                Ok(_) => {
                    let held = if self.holdings.contains_key(issuer.user_id) {
                        self.holdings[issuer.user_id]
                    } else {
                        Map::empty()
                    };
                    let shares = UserStocks {
                        user_id: issuer.user_id,
                        stock_id: stock.stock_id,
                        quantity: match stock.outstanding_shares {
                            Some(n) => n,
                            None => 0,
                        },
                    };
                    Ok(
                        ExchangeView {
                            users: if self.users.contains_key(issuer.user_id) {
                                self.users
                            } else {
                                self.users.insert(issuer.user_id, issuer)
                            },
                            stocks: self.stocks.insert(stock.stock_id, stock),
                            holdings: self.holdings.insert(
                                issuer.user_id,
                                held.insert(stock.stock_id, shares),
                            ),
                            books: self.books.insert(stock.stock_id, BookView::empty(stock)),
                        },
                    )
                },
            }
        }
    }

    /// The instrument with the given id, if it is registered.
    pub open spec fn get_stock(self, stock_id: u128) -> Result<Stock, StockError> {
        if self.stocks.contains_key(stock_id) {
            Ok(self.stocks[stock_id])
        } else {
            Err(StockError::UnknownStock)
        }
    }

    /// A registered instrument gets another name, another ticker, or both.
    pub open spec fn modify_stock(
        self,
        stock_id: u128,
        new_name: Option<String>,
        new_ticker: Option<String>,
    ) -> Result<ExchangeView, StockError> {
        if !self.stocks.contains_key(stock_id) {
            Err(StockError::UnknownStock)
        } else {
            let was = self.stocks[stock_id];
            let stock = Stock {
                name: match new_name {
                    Some(name) => name,
                    None => was.name,
                },
                ticker: match new_ticker {
                    Some(ticker) => ticker,
                    None => was.ticker,
                },
                ..was
            };
            Ok(
                ExchangeView {
                    stocks: self.stocks.insert(stock_id, stock),
                    books: self.books.insert(
                        stock_id,
                        BookView { stock_info: stock, ..self.books[stock_id] },
                    ),
                    ..self
                },
            )
        }
    }

    /// A registered instrument whose book is idle leaves the exchange, with
    /// its book and with what anyone holds of it.
    pub open spec fn remove_stock(self, stock_id: u128) -> Result<ExchangeView, StockError> {
        if !self.stocks.contains_key(stock_id) {
            Err(StockError::UnknownStock)
        } else if !self.books[stock_id].idle() {
            Err(StockError::StockInUse)
        } else {
            Ok(
                ExchangeView {
                    users: self.users,
                    stocks: self.stocks.remove(stock_id),
                    holdings: Map::new(
                        |u: u128| self.holdings.contains_key(u),
                        |u: u128| self.holdings[u].remove(stock_id),
                    ),
                    books: self.books.remove(stock_id),
                },
            )
        }
    }

    /// An order is sent to the book of its instrument: it joins the queue,
    /// and the oldest order of the queue is matched.
    pub open spec fn execute_order(self, order: Order) -> (
        ExchangeView,
        Result<Execution, OrderError>,
    ) {
        let id = order.stock.stock_id;
        if !self.books.contains_key(id) {
            (self, Err(OrderError::UnknownStock))
        } else {
            match self.books[id].queue_order(order) {
                Err(e) => (self, Err(e)),
                Ok(book) => (self.with_book(id, book.execute_order().0), book.execute_order().1),
            }
        }
    }

    /// The queues of the books `ids` are matched, book after book. The first
    /// order that its book refuses ends the run with its error.
    pub open spec fn run_books(self, ids: Seq<u128>) -> (
        ExchangeView,
        Result<Seq<Execution>, OrderError>,
    )
        decreases ids.len(),
    {
        if ids.len() == 0 {
            (self, Ok(Seq::empty()))
        } else {
            let (book, r) = self.books[ids[0]].execute_all_orders();
            let next = self.with_book(ids[0], book);
            match r {
                Err(e) => (next, Err(e)),
                Ok(es) => {
                    let (end, rest) = next.run_books(ids.drop_first());
                    (
                        end,
                        match rest {
                            Ok(more) => Ok(es + more),
                            Err(e) => Err(e),
                        },
                    )
                },
            }
        }
    }

    /// The instruments in the given order: by id, or by ticker and among
    /// equal tickers by id.
    pub open spec fn iteration_ids(self, iteration: InstrumentIteration) -> Seq<u128> {
        match iteration {
            InstrumentIteration::IdAsc => ascending_ids(self.books.dom()),
            InstrumentIteration::TickerAsc => ids_by_ticker(self.stocks),
        }
    }

    /// The queues of all books are matched, the books in the given order of
    /// their instruments.
    pub open spec fn execute_all_orders_in(self, iteration: InstrumentIteration) -> (
        ExchangeView,
        Result<Seq<Execution>, OrderError>,
    ) {
        self.run_books(self.iteration_ids(iteration))
    }

    /// The queues of all books are matched, the books in the order of their
    /// instruments' ids.
    pub open spec fn execute_all_orders(self) -> (ExchangeView, Result<Seq<Execution>, OrderError>) {
        self.execute_all_orders_in(InstrumentIteration::IdAsc)
    }

    /// A resting order of an instrument gets a new quantity and price.
    pub open spec fn modify_order(
        self,
        stock_id: u128,
        order_id: u128,
        new_qty: i32,
        new_price: Option<i64>,
    ) -> Result<ExchangeView, OrderError> {
        if !self.books.contains_key(stock_id) {
            Err(OrderError::UnknownStock)
        } else {
            match self.books[stock_id].modify_order(order_id, new_qty, new_price) {
                Err(e) => Err(e),
                Ok(book) => Ok(self.with_book(stock_id, book)),
            }
        }
    }

    /// A resting order of an instrument is taken off its book.
    pub open spec fn delete_order(self, stock_id: u128, order_id: u128) -> Result<
        ExchangeView,
        OrderError,
    > {
        if !self.books.contains_key(stock_id) {
            Err(OrderError::UnknownStock)
        } else {
            match self.books[stock_id].delete_order(order_id) {
                Err(e) => Err(e),
                Ok(book) => Ok(self.with_book(stock_id, book)),
            }
        }
    }
}

} // verus!
