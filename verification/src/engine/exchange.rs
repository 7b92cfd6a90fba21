//! The exchange: the instruments, their books, the participants and what
//! they hold.
use crate::engine::account::User;
use crate::engine::account::UserStocks;
use crate::engine::book_view::BookView;
use crate::engine::exchange_view::ExchangeView;
use crate::engine::execution::Execution;
use crate::engine::iteration::sorted_by_ticker;
use crate::engine::iteration::InstrumentIteration;
use crate::engine::keys::ascending;
use crate::engine::keys::ids_of;
use crate::engine::keys::sorted_ids;
use crate::engine::order::Order;
use crate::engine::order::Stock;
use crate::engine::orderbook::OrderBook;
use crate::errors::OrderError;
use crate::errors::StockError;
use std::collections::BTreeMap;
use std::collections::HashMap;
use vstd::prelude::*;

verus! {

/// The exchange: participants and instruments by id, what each participant
/// holds of each instrument, and the book of each instrument.
#[derive(Debug, PartialEq)]
pub struct Exchange {
    pub users: BTreeMap<u128, User>,
    pub stocks: BTreeMap<u128, Stock>,
    pub user_stocks: BTreeMap<u128, HashMap<u128, UserStocks>>,
    pub orderbooks: BTreeMap<u128, OrderBook>,
}

/// The books as the model has them.
pub open spec fn books_view(books: Map<u128, OrderBook>) -> Map<u128, BookView> {
    Map::new(|id: u128| books.contains_key(id), |id: u128| books[id]@)
}

/// The holdings as the model has them.
pub open spec fn holdings_view(held: Map<u128, HashMap<u128, UserStocks>>) -> Map<
    u128,
    Map<u128, UserStocks>,
> {
    Map::new(|u: u128| held.contains_key(u), |u: u128| held[u]@)
}

impl Clone for Exchange {
    fn clone(&self) -> (exchange: Self)
        ensures
            exchange@ == self@,
            self.wf() ==> exchange.wf(),
    {
        Exchange {
            users: self.users.clone(),
            stocks: self.stocks.clone(),
            user_stocks: self.user_stocks.clone(),
            orderbooks: self.orderbooks.clone(),
        }
    }
}

impl View for Exchange {
    type V = ExchangeView;

    open spec fn view(&self) -> ExchangeView {
        ExchangeView {
            users: self.users@,
            stocks: self.stocks@,
            holdings: holdings_view(self.user_stocks@),
            books: books_view(self.orderbooks@),
        }
    }
}

impl Exchange {
    /// Every instrument has a sound book under its id, which carries the
    /// instrument as it is registered.
    pub open spec fn books_wf(&self) -> bool {
        &&& forall|id: u128| #[trigger]
            self.orderbooks@.contains_key(id) ==> {
                &&& self.orderbooks@[id].wf()
                &&& self.orderbooks@[id].stock_id == id
                &&& self.stocks@.contains_key(id)
                &&& self.orderbooks@[id].stock_info.same_as(self.stocks@[id])
            }
        &&& forall|id: u128| #[trigger]
            self.stocks@.contains_key(id) ==> {
                &&& self.orderbooks@.contains_key(id)
                &&& self.stocks@[id].stock_id == id
            }
    }

    /// Every participant is kept under its id. Whoever holds something is a
    /// participant, and each holding is kept under its participant and its
    /// instrument, which is registered, and is not negative.
    pub open spec fn holdings_wf(&self) -> bool {
        &&& forall|u: u128| #[trigger] self.users@.contains_key(u) ==> self.users@[u].user_id == u
        &&& forall|u: u128| #[trigger]
            self.user_stocks@.contains_key(u) ==> self.users@.contains_key(u)
        &&& forall|u: u128, s: u128|
            self.user_stocks@.contains_key(u) && #[trigger] self.user_stocks@[u]@.contains_key(s)
                ==> {
                &&& self.user_stocks@[u]@[s].user_id == u
                &&& self.user_stocks@[u]@[s].stock_id == s
                &&& self.user_stocks@[u]@[s].quantity >= 0
                &&& self.stocks@.contains_key(s)
            }
    }

    /// What holds of the exchange between operations.
    pub open spec fn wf(&self) -> bool {
        self.books_wf() && self.holdings_wf()
    }

    /// Tests what `wf` asks of the instruments and their books.
    fn books_are_sound(&self) -> (ok: bool)
        ensures
            ok == self.books_wf(),
    {
        let ids = sorted_ids(&self.orderbooks);
        let mut i: usize = 0;
        while i < ids.len()
            invariant
                i <= ids.len(),
                forall|id: u128| self.orderbooks@.contains_key(id) <==> ids@.contains(id),
                forall|k: int|
                    0 <= k < i ==> {
                        &&& self.orderbooks@[#[trigger] ids@[k]].wf()
                        &&& self.orderbooks@[ids@[k]].stock_id == ids@[k]
                        &&& self.stocks@.contains_key(ids@[k])
                        &&& self.orderbooks@[ids@[k]].stock_info.same_as(self.stocks@[ids@[k]])
                    },
            decreases ids.len() - i,
        {
            let id = ids[i];
            assert(ids@.contains(id));
            let book = self.orderbooks.get(&id).unwrap();
            if !book.is_sound() || book.stock_id != id {
                return false;
            }
            match self.stocks.get(&id) {
                None => {
                    return false;
                },
                Some(stock) => {
                    if !book.stock_info.is_same_as(stock) {
                        return false;
                    }
                },
            }
            i = i + 1;
        }
        proof {
            assert forall|id: u128| #[trigger] self.orderbooks@.contains_key(id) implies {
                &&& self.orderbooks@[id].wf()
                &&& self.orderbooks@[id].stock_id == id
                &&& self.stocks@.contains_key(id)
                &&& self.orderbooks@[id].stock_info.same_as(self.stocks@[id])
            } by {
                assert(ids@.contains(id));
                let k = ids@.index_of(id);
                assert(self.orderbooks@[ids@[k]].wf());
            }
        }
        let stocks = sorted_ids(&self.stocks);
        let mut j: usize = 0;
        while j < stocks.len()
            invariant
                j <= stocks.len(),
                forall|id: u128| self.stocks@.contains_key(id) <==> stocks@.contains(id),
                forall|k: int|
                    0 <= k < j ==> {
                        &&& self.orderbooks@.contains_key(#[trigger] stocks@[k])
                        &&& self.stocks@[stocks@[k]].stock_id == stocks@[k]
                    },
                forall|id: u128| #[trigger]
                    self.orderbooks@.contains_key(id) ==> {
                        &&& self.orderbooks@[id].wf()
                        &&& self.orderbooks@[id].stock_id == id
                        &&& self.stocks@.contains_key(id)
                        &&& self.orderbooks@[id].stock_info.same_as(self.stocks@[id])
                    },
            decreases stocks.len() - j,
        {
            let id = stocks[j];
            assert(stocks@.contains(id));
            if !self.orderbooks.contains_key(&id) || self.stocks.get(&id).unwrap().stock_id != id {
                return false;
            }
            j = j + 1;
        }
        proof {
            assert forall|id: u128| #[trigger] self.stocks@.contains_key(id) implies {
                &&& self.orderbooks@.contains_key(id)
                &&& self.stocks@[id].stock_id == id
            } by {
                assert(stocks@.contains(id));
                let k = stocks@.index_of(id);
                assert(self.orderbooks@.contains_key(stocks@[k]));
            }
        }
        true
    }

    /// Tests what `wf` asks of the holdings of one participant.
    fn held_is_sound(&self, user_id: u128) -> (ok: bool)
        requires
            self.user_stocks@.contains_key(user_id),
        ensures
            ok == forall|s: u128| #[trigger]
                self.user_stocks@[user_id]@.contains_key(s) ==> {
                    &&& self.user_stocks@[user_id]@[s].user_id == user_id
                    &&& self.user_stocks@[user_id]@[s].stock_id == s
                    &&& self.user_stocks@[user_id]@[s].quantity >= 0
                    &&& self.stocks@.contains_key(s)
                },
    {
        let held = self.user_stocks.get(&user_id).unwrap();
        let ids = ids_of(held);
        let mut i: usize = 0;
        while i < ids.len()
            invariant
                i <= ids.len(),
                *held == self.user_stocks@[user_id],
                forall|s: u128| held@.contains_key(s) <==> ids@.contains(s),
                forall|k: int|
                    0 <= k < i ==> {
                        &&& held@[#[trigger] ids@[k]].user_id == user_id
                        &&& held@[ids@[k]].stock_id == ids@[k]
                        &&& held@[ids@[k]].quantity >= 0
                        &&& self.stocks@.contains_key(ids@[k])
                    },
            decreases ids.len() - i,
        {
            let s = ids[i];
            assert(ids@.contains(s));
            let shares = held.get(&s).unwrap();
            if shares.user_id != user_id || shares.stock_id != s || shares.quantity < 0
                || !self.stocks.contains_key(&s) {
                return false;
            }
            i = i + 1;
        }
        proof {
            assert forall|s: u128| #[trigger] held@.contains_key(s) implies {
                &&& held@[s].user_id == user_id
                &&& held@[s].stock_id == s
                &&& held@[s].quantity >= 0
                &&& self.stocks@.contains_key(s)
            } by {
                assert(ids@.contains(s));
                let k = ids@.index_of(s);
                assert(held@[ids@[k]].user_id == user_id);
            }
        }
        true
    }

    /// Tests what `wf` asks of the participants and their holdings.
    fn holdings_are_sound(&self) -> (ok: bool)
        ensures
            ok == self.holdings_wf(),
    {
        let users = sorted_ids(&self.users);
        let mut i: usize = 0;
        while i < users.len()
            invariant
                i <= users.len(),
                forall|u: u128| self.users@.contains_key(u) <==> users@.contains(u),
                forall|k: int| 0 <= k < i ==> self.users@[#[trigger] users@[k]].user_id == users@[k],
            decreases users.len() - i,
        {
            let u = users[i];
            assert(users@.contains(u));
            if self.users.get(&u).unwrap().user_id != u {
                return false;
            }
            i = i + 1;
        }
        proof {
            assert forall|u: u128| #[trigger] self.users@.contains_key(u) implies self.users@[u].user_id
                == u by {
                assert(users@.contains(u));
                let k = users@.index_of(u);
                assert(self.users@[users@[k]].user_id == users@[k]);
            }
        }
        let holders = sorted_ids(&self.user_stocks);
        let mut j: usize = 0;
        while j < holders.len()
            invariant
                j <= holders.len(),
                forall|u: u128| self.user_stocks@.contains_key(u) <==> holders@.contains(u),
                forall|u: u128| #[trigger]
                    self.users@.contains_key(u) ==> self.users@[u].user_id == u,
                forall|k: int|
                    0 <= k < j ==> {
                        &&& self.users@.contains_key(#[trigger] holders@[k])
                        &&& forall|s: u128| #[trigger]
                            self.user_stocks@[holders@[k]]@.contains_key(s) ==> {
                                &&& self.user_stocks@[holders@[k]]@[s].user_id == holders@[k]
                                &&& self.user_stocks@[holders@[k]]@[s].stock_id == s
                                &&& self.user_stocks@[holders@[k]]@[s].quantity >= 0
                                &&& self.stocks@.contains_key(s)
                            }
                    },
            decreases holders.len() - j,
        {
            let u = holders[j];
            assert(holders@.contains(u));
            if !self.users.contains_key(&u) || !self.held_is_sound(u) {
                return false;
            }
            j = j + 1;
        }
        proof {
            assert forall|u: u128| #[trigger]
                self.user_stocks@.contains_key(u) implies self.users@.contains_key(u) by {
                assert(holders@.contains(u));
                let k = holders@.index_of(u);
                assert(self.users@.contains_key(holders@[k]));
            }
            assert forall|u: u128, s: u128|
                self.user_stocks@.contains_key(u) && #[trigger] self.user_stocks@[u]@.contains_key(
                    s,
                ) implies {
                &&& self.user_stocks@[u]@[s].user_id == u
                &&& self.user_stocks@[u]@[s].stock_id == s
                &&& self.user_stocks@[u]@[s].quantity >= 0
                &&& self.stocks@.contains_key(s)
            } by {
                assert(holders@.contains(u));
                let k = holders@.index_of(u);
                assert(self.users@.contains_key(holders@[k]));
            }
        }
        true
    }

    /// Whether the exchange is as `wf` asks: a test for a caller that cannot
    /// prove it.
    pub fn is_sound(&self) -> (ok: bool)
        ensures
            ok == self.wf(),
    {
        self.books_are_sound() && self.holdings_are_sound()
    }

    /// Whether no book of the exchange is crossed.
    pub fn is_not_crossed(&self) -> (ok: bool)
        ensures
            ok == self@.not_crossed(),
    {
        let ids = sorted_ids(&self.orderbooks);
        let mut i: usize = 0;
        while i < ids.len()
            invariant
                i <= ids.len(),
                forall|id: u128| self.orderbooks@.contains_key(id) <==> ids@.contains(id),
                forall|k: int| 0 <= k < i ==> self.orderbooks@[#[trigger] ids@[k]]@.not_crossed(),
            decreases ids.len() - i,
        {
            let id = ids[i];
            assert(ids@.contains(id));
            if !self.orderbooks.get(&id).unwrap().is_not_crossed() {
                assert(self@.books.contains_key(id));
                return false;
            }
            i = i + 1;
        }
        proof {
            assert forall|id: u128| #[trigger] self@.books.contains_key(id) implies self@.books[id].not_crossed() by {
                assert(ids@.contains(id));
                let k = ids@.index_of(id);
                assert(self.orderbooks@[ids@[k]]@.not_crossed());
            }
        }
        true
    }

    /// An exchange without instruments and participants.
    pub fn new() -> (exchange: Self)
        ensures
            exchange.wf(),
            exchange@ == (ExchangeView {
                users: Map::<u128, User>::empty(),
                stocks: Map::<u128, Stock>::empty(),
                holdings: Map::<u128, Map<u128, UserStocks>>::empty(),
                books: Map::<u128, BookView>::empty(),
            }),
    {
        let exchange = Exchange {
            users: BTreeMap::new(),
            stocks: BTreeMap::new(),
            user_stocks: BTreeMap::new(),
            orderbooks: BTreeMap::new(),
        };
        assert(exchange@.holdings =~= Map::<u128, Map<u128, UserStocks>>::empty());
        assert(exchange@.books =~= Map::<u128, BookView>::empty());
        exchange
    }

    /// Registers an instrument: gives it an empty book, registers the issuer
    /// unless a participant with that id is registered, and lets the issuer
    /// hold the outstanding shares. Fails, and changes nothing, where an
    /// instrument with this id is registered or the instrument is not valid.
    pub fn add_stock(&mut self, stock: Stock, issuer: User) -> (r: Result<(), StockError>)
        requires
            old(self).wf(),
        ensures
            final(self).wf(),
            match old(self)@.add_stock(stock, issuer) {
                Ok(v) => r is Ok && final(self)@ == v,
                Err(e) => r == Err::<(), StockError>(e) && final(self)@ == old(self)@,
            },
    {
        if self.stocks.contains_key(&stock.stock_id) {
            return Err(StockError::DuplicateStockID);
        }
        match stock.validate() {
            Ok(_) => {},
            Err(e) => {
                return Err(e);
            },
        }
        let stock_id = stock.stock_id;
        let user_id = issuer.user_id;
        let quantity = match stock.outstanding_shares {
            Some(n) => n,
            None => 0,
        };
        self.orderbooks.insert(stock_id, OrderBook::new(stock.clone()));
        self.stocks.insert(stock_id, stock);
        if !self.users.contains_key(&user_id) {
            self.users.insert(user_id, issuer);
        }
        let mut held = match self.user_stocks.remove(&user_id) {
            Some(held) => held,
            None => HashMap::new(),
        };
        held.insert(stock_id, UserStocks::new(user_id, stock_id, quantity));
        self.user_stocks.insert(user_id, held);
        proof {
            let want = old(self)@.add_stock(stock, issuer)->Ok_0;
            assert(self@.holdings =~= want.holdings);
            assert(self@.books =~= want.books);
            assert(self@.users =~= want.users);
        }
        Ok(())
    }

    /// The instrument with the given id, as it is registered.
    pub fn get_stock(&self, stock_id: u128) -> (r: Result<Stock, StockError>)
        ensures
            r == self@.get_stock(stock_id),
    {
        match self.stocks.get(&stock_id) {
            Some(stock) => Ok(stock.clone()),
            None => Err(StockError::UnknownStock),
        }
    }

    /// The instrument on whose book the order with the given id rests; where
    /// several books hold such an order, the instrument with the smallest id.
    pub fn stock_of_order(&self, order_id: u128) -> (r: Option<u128>)
        ensures
            match r {
                Some(stock_id) => {
                    &&& self@.books.contains_key(stock_id)
                    &&& self@.books[stock_id].index.contains_key(order_id)
                    &&& forall|other: u128|
                        other < stock_id && #[trigger] self@.books.contains_key(other)
                            ==> !self@.books[other].index.contains_key(order_id)
                },
                None => forall|other: u128| #[trigger]
                    self@.books.contains_key(other) ==> !self@.books[other].index.contains_key(
                        order_id,
                    ),
            },
    {
        let ids = sorted_ids(&self.orderbooks);
        let mut i: usize = 0;
        while i < ids.len()
            invariant
                i <= ids.len(),
                ascending(ids@),
                forall|id: u128| self.orderbooks@.contains_key(id) <==> ids@.contains(id),
                forall|k: int|
                    0 <= k < i ==> !self.orderbooks@[#[trigger] ids@[k]].oid_map@.contains_key(
                        order_id,
                    ),
            decreases ids.len() - i,
        {
            let stock_id = ids[i];
            assert(ids@.contains(stock_id));
            if self.orderbooks.get(&stock_id).unwrap().oid_map.contains_key(&order_id) {
                proof {
                    assert forall|other: u128|
                        other < stock_id && #[trigger] self@.books.contains_key(
                            other,
                        ) implies !self@.books[other].index.contains_key(order_id) by {
                        assert(ids@.contains(other));
                        let k = ids@.index_of(other);
                        if k >= i {
                            assert(ids@[i as int] <= ids@[k]);
                        }
                    }
                }
                return Some(stock_id);
            }
            i = i + 1;
        }
        proof {
            assert forall|other: u128| #[trigger]
                self@.books.contains_key(other) implies !self@.books[other].index.contains_key(
                order_id,
            ) by {
                assert(ids@.contains(other));
                let k = ids@.index_of(other);
                assert(!self.orderbooks@[ids@[k]].oid_map@.contains_key(order_id));
            }
        }
        None
    }

    /// The book of the instrument with the given id, as it stands.
    pub fn get_book_snapshot(&self, stock_id: u128) -> (r: Result<OrderBook, StockError>)
        requires
            self.wf(),
        ensures
            match r {
                Ok(book) => self@.books.contains_key(stock_id) && book@ == self@.books[stock_id]
                    && book.wf() && book.bid_price_levels@
                    == self.orderbooks@[stock_id].bid_price_levels@ && book.ask_price_levels@
                    == self.orderbooks@[stock_id].ask_price_levels@,
                Err(e) => !self@.books.contains_key(stock_id) && e == StockError::UnknownStock,
            },
    {
        match self.orderbooks.get(&stock_id) {
            Some(book) => Ok(book.clone()),
            None => Err(StockError::UnknownStock),
        }
    }

    /// Gives a registered instrument another name, another ticker, or both,
    /// on the exchange and on its book. Fails, and changes nothing, where no
    /// instrument has the id.
    pub fn modify_stock(
        &mut self,
        stock_id: u128,
        new_name: Option<String>,
        new_ticker: Option<String>,
    ) -> (r: Result<(), StockError>)
        requires
            old(self).wf(),
        ensures
            final(self).wf(),
            match old(self)@.modify_stock(stock_id, new_name, new_ticker) {
                Ok(v) => r is Ok && final(self)@ == v,
                Err(e) => r == Err::<(), StockError>(e) && final(self)@ == old(self)@,
            },
    {
        let mut stock = match self.stocks.remove(&stock_id) {
            Some(stock) => stock,
            None => {
                assert(self.stocks@ =~= old(self).stocks@);
                return Err(StockError::UnknownStock);
            },
        };
        match new_name {
            Some(name) => {
                stock.name = name;
            },
            None => {},
        }
        match new_ticker {
            Some(ticker) => {
                stock.ticker = ticker;
            },
            None => {},
        }
        let mut book = self.orderbooks.remove(&stock_id).unwrap();
        book.stock_info = stock.clone();
        self.orderbooks.insert(stock_id, book);
        self.stocks.insert(stock_id, stock);
        proof {
            let want = old(self)@.modify_stock(stock_id, new_name, new_ticker)->Ok_0;
            assert(self@.books =~= want.books);
            assert(self@.stocks =~= want.stocks);
            assert(self.user_stocks@ == old(self).user_stocks@);
        }
        Ok(())
    }

    /// Takes an instrument off the exchange, with its book and with what
    /// anyone holds of it. Fails, and changes nothing, where no instrument
    /// has the id, or where its book has resting or waiting orders.
    pub fn remove_stock(&mut self, stock_id: u128) -> (r: Result<(), StockError>)
        requires
            old(self).wf(),
        ensures
            final(self).wf(),
            match old(self)@.remove_stock(stock_id) {
                Ok(v) => r is Ok && final(self)@ == v,
                Err(e) => r == Err::<(), StockError>(e) && final(self)@ == old(self)@,
            },
    {
        match self.orderbooks.get(&stock_id) {
            None => {
                return Err(StockError::UnknownStock);
            },
            Some(book) => {
                if !book.oid_map.is_empty() || book.order_queue.len() > 0 {
                    return Err(StockError::StockInUse);
                }
            },
        }
        self.orderbooks.remove(&stock_id);
        self.stocks.remove(&stock_id);
        let holders = sorted_ids(&self.user_stocks);
        let mut i: usize = 0;
        while i < holders.len()
            invariant
                i <= holders.len(),
                forall|u: u128| old(self).user_stocks@.contains_key(u) <==> holders@.contains(u),
                ascending(holders@),
                self.users == old(self).users,
                self.stocks@ == old(self).stocks@.remove(stock_id),
                self.orderbooks@ == old(self).orderbooks@.remove(stock_id),
                forall|u: u128|
                    self.user_stocks@.contains_key(u) <==> old(self).user_stocks@.contains_key(u),
                forall|j: int|
                    0 <= j < i ==> self.user_stocks@[#[trigger] holders@[j]]@ == old(
                        self,
                    ).user_stocks@[holders@[j]]@.remove(stock_id),
                forall|j: int|
                    i <= j < holders.len() ==> self.user_stocks@[#[trigger] holders@[j]] == old(
                        self,
                    ).user_stocks@[holders@[j]],
            decreases holders.len() - i,
        {
            let holder = holders[i];
            assert(holders@.contains(holder));
            assert forall|j: int| 0 <= j < holders.len() && j != i implies holders@[j] != holder by {
                if j < i {
                    assert(holders@[j] < holders@[i as int]);
                } else {
                    assert(holders@[i as int] < holders@[j]);
                }
            }
            let mut held = self.user_stocks.remove(&holder).unwrap();
            held.remove(&stock_id);
            self.user_stocks.insert(holder, held);
            i = i + 1;
        }
        proof {
            let want = old(self)@.remove_stock(stock_id)->Ok_0;
            assert forall|u: u128| #[trigger] self.user_stocks@.contains_key(u) implies self.user_stocks@[u]@
                == old(self).user_stocks@[u]@.remove(stock_id) by {
                assert(old(self).user_stocks@.contains_key(u));
                assert(holders@.contains(u));
                let j = holders@.index_of(u);
                assert(holders@[j] == u);
            }
            assert(self@.holdings =~= want.holdings);
            assert(self@.books =~= want.books);
        }
        Ok(())
    }

    /// Sends an order to the book of its instrument: the order joins the
    /// queue of the book, and the oldest order of that queue is matched.
    /// Fails, and changes nothing, where no instrument has the id that the
    /// order names or the order is not valid.
    pub fn execute_order(&mut self, order: Order) -> (r: Result<Execution, OrderError>)
        requires
            old(self).wf(),
        ensures
            final(self).wf(),
            final(self)@ == old(self)@.execute_order(order).0,
            r == old(self)@.execute_order(order).1,
            old(self)@.not_crossed() ==> final(self)@.not_crossed(),
    {
        let stock_id = order.stock.stock_id;
        let mut book = match self.orderbooks.remove(&stock_id) {
            Some(book) => book,
            None => {
                assert(self.orderbooks@ =~= old(self).orderbooks@);
                return Err(OrderError::UnknownStock);
            },
        };
        let r = match book.queue_order(order) {
            Ok(_) => book.execute_order(),
            Err(e) => Err(e),
        };
        self.orderbooks.insert(stock_id, book);
        proof {
            assert(self@.books =~= old(self)@.execute_order(order).0.books);
        }
        r
    }

    /// Matches the queues of all books, the books in the order of their
    /// instruments' ids, and gives the events in the order of the matches.
    /// The first order that its book refuses ends the run with its error.
    pub fn execute_all_orders(&mut self) -> (r: Result<Vec<Execution>, OrderError>)
        requires
            old(self).wf(),
        ensures
            final(self).wf(),
            final(self)@ == old(self)@.execute_all_orders().0,
            match old(self)@.execute_all_orders().1 {
                Ok(es) => r is Ok && r->Ok_0@ == es,
                Err(e) => r == Err::<Vec<Execution>, OrderError>(e),
            },
            old(self)@.not_crossed() ==> final(self)@.not_crossed(),
    {
        self.execute_all_orders_in(InstrumentIteration::IdAsc)
    }

    /// Matches the queues of all books, the books in the given order of their
    /// instruments, and gives the events in the order of the matches. The
    /// first order that its book refuses ends the run with its error.
    pub fn execute_all_orders_in(&mut self, iteration: InstrumentIteration) -> (r: Result<
        Vec<Execution>,
        OrderError,
    >)
        requires
            old(self).wf(),
        ensures
            final(self).wf(),
            final(self)@ == old(self)@.execute_all_orders_in(iteration).0,
            match old(self)@.execute_all_orders_in(iteration).1 {
                Ok(es) => r is Ok && r->Ok_0@ == es,
                Err(e) => r == Err::<Vec<Execution>, OrderError>(e),
            },
            old(self)@.not_crossed() ==> final(self)@.not_crossed(),
    {
        let ids = match iteration {
            InstrumentIteration::IdAsc => sorted_ids(&self.orderbooks),
            InstrumentIteration::TickerAsc => sorted_by_ticker(&self.stocks),
        };
        proof {
            assert(books_view(self.orderbooks@).dom() =~= self.orderbooks@.dom());
            assert forall|j: int| 0 <= j < ids.len() implies self.orderbooks@.contains_key(
                #[trigger] ids@[j],
            ) by {
                assert(ids@.contains(ids@[j]));
            }
        }
        self.run_books(&ids)
    }

    /// Matches the queues of the given books, book after book.
    fn run_books(&mut self, ids: &Vec<u128>) -> (r: Result<Vec<Execution>, OrderError>)
        requires
            old(self).wf(),
            forall|j: int| 0 <= j < ids.len() ==> old(self).orderbooks@.contains_key(#[trigger] ids@[j]),
        ensures
            final(self).wf(),
            final(self)@ == old(self)@.run_books(ids@).0,
            match old(self)@.run_books(ids@).1 {
                Ok(es) => r is Ok && r->Ok_0@ == es,
                Err(e) => r == Err::<Vec<Execution>, OrderError>(e),
            },
            old(self)@.not_crossed() ==> final(self)@.not_crossed(),
    {
        let mut executions: Vec<Execution> = Vec::new();
        let mut i: usize = 0;
        proof {
            assert(ids@.subrange(0, ids@.len() as int) =~= ids@);
            assert(executions@ + Seq::<Execution>::empty() =~= executions@);
        }
        while i < ids.len()
            invariant
                i <= ids.len(),
                self.wf(),
                forall|j: int| 0 <= j < ids.len() ==> self.orderbooks@.contains_key(#[trigger] ids@[j]),
                old(self)@.not_crossed() ==> self@.not_crossed(),
                old(self)@.run_books(ids@).0 == self@.run_books(
                    ids@.subrange(i as int, ids@.len() as int),
                ).0,
                old(self)@.run_books(ids@).1 == match self@.run_books(
                    ids@.subrange(i as int, ids@.len() as int),
                ).1 {
                    Ok(es) => Ok::<Seq<Execution>, OrderError>(executions@ + es),
                    Err(e) => Err::<Seq<Execution>, OrderError>(e),
                },
            decreases ids.len() - i,
        {
            let stock_id = ids[i];
            let ghost before = self@;
            let ghost rest = ids@.subrange(i as int, ids@.len() as int);
            proof {
                assert(rest[0] == stock_id);
                assert(rest.drop_first() =~= ids@.subrange(i + 1, ids@.len() as int));
            }
            let mut book = self.orderbooks.remove(&stock_id).unwrap();
            let r = book.execute_all_orders();
            self.orderbooks.insert(stock_id, book);
            proof {
                assert(self@.books =~= before.with_book(stock_id, book@).books);
                assert(self@ == before.with_book(stock_id, book@));
            }
            match r {
                Ok(mut es) => {
                    proof {
                        let (_end, more) = self@.run_books(rest.drop_first());
                        if let Ok(tail) = more {
                            assert((executions@ + es@) + tail =~= executions@ + (es@ + tail));
                        }
                    }
                    executions.append(&mut es);
                },
                Err(e) => {
                    return Err(e);
                },
            }
            i = i + 1;
        }
        proof {
            assert(ids@.subrange(i as int, ids@.len() as int) =~= Seq::<u128>::empty());
            assert(executions@ + Seq::<Execution>::empty() =~= executions@);
        }
        Ok(executions)
    }

    /// Gives a resting order of the instrument a new quantity and price.
    pub fn modify_order(
        &mut self,
        stock: Stock,
        order_id: u128,
        new_qty: i32,
        new_price: Option<i64>,
    ) -> (r: Result<(), OrderError>)
        requires
            old(self).wf(),
        ensures
            final(self).wf(),
            match old(self)@.modify_order(stock.stock_id, order_id, new_qty, new_price) {
                Ok(v) => r is Ok && final(self)@ == v,
                Err(e) => r == Err::<(), OrderError>(e) && final(self)@ == old(self)@,
            },
    {
        let mut book = match self.orderbooks.remove(&stock.stock_id) {
            Some(book) => book,
            None => {
                assert(self.orderbooks@ =~= old(self).orderbooks@);
                return Err(OrderError::UnknownStock);
            },
        };
        let r = book.modify_order(order_id, new_qty, new_price);
        self.orderbooks.insert(stock.stock_id, book);
        proof {
            match old(self)@.modify_order(stock.stock_id, order_id, new_qty, new_price) {
                Ok(v) => {
                    assert(self@.books =~= v.books);
                },
                Err(_) => {
                    assert(self@.books =~= old(self)@.books);
                },
            }
        }
        r
    }

    /// Takes a resting order of the instrument off its book.
    pub fn delete_order(&mut self, stock: Stock, order_id: u128) -> (r: Result<(), OrderError>)
        requires
            old(self).wf(),
        ensures
            final(self).wf(),
            match old(self)@.delete_order(stock.stock_id, order_id) {
                Ok(v) => r is Ok && final(self)@ == v,
                Err(e) => r == Err::<(), OrderError>(e) && final(self)@ == old(self)@,
            },
            old(self)@.not_crossed() ==> final(self)@.not_crossed(),
    {
        let mut book = match self.orderbooks.remove(&stock.stock_id) {
            Some(book) => book,
            None => {
                assert(self.orderbooks@ =~= old(self).orderbooks@);
                return Err(OrderError::UnknownStock);
            },
        };
        let r = book.delete_order(order_id);
        self.orderbooks.insert(stock.stock_id, book);
        proof {
            match old(self)@.delete_order(stock.stock_id, order_id) {
                Ok(v) => {
                    assert(self@.books =~= v.books);
                },
                Err(_) => {
                    assert(self@.books =~= old(self)@.books);
                },
            }
        }
        r
    }
}

} // verus!
