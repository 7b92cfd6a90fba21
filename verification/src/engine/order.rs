//! Instruments and orders, and the rules that make them valid.
use crate::errors::OrderError;
use crate::errors::StockError;
use crate::helpers::decimal;
use crate::helpers::decimal_text;
use crate::helpers::is_nil;
use crate::helpers::uuid_text;
use crate::helpers::uuid_to_string;
use vstd::prelude::*;
use vstd::string::StringExecFns;

verus! {

/// The largest quantity that one order may have.
pub const MAX_ORDER_QTY: i32 = 1_000_000;

/// The side of the book that an order is on.
#[derive(Debug, Clone, Copy, PartialEq, Eq, Structural, PartialOrd, Ord)]
pub enum OrderSide {
    BID,
    ASK,
}

#[derive(Debug, Clone, Copy, PartialEq, Eq, Structural, PartialOrd, Ord)]
pub enum OrderType {
    MARKET,
    LIMIT,
}

/// An instrument that the exchange trades.
#[derive(Debug, PartialEq, Eq, PartialOrd, Ord, Hash)]
pub struct Stock {
    pub stock_id: u128,
    pub name: String,
    pub ticker: String,
    pub total_issued: Option<i32>,
    pub outstanding_shares: Option<i32>,
    pub time_created: Option<u32>,
}

/// An order. A price is in hundredths. A limit order needs one; on a market
/// order it is not read when the order comes in, and a market order that
/// rests carries the price it rests at.
#[derive(Debug, PartialEq)]
pub struct Order {
    pub order_id: u128,
    pub creator_id: u128,
    pub stock: Stock,
    pub order_side: OrderSide,
    pub order_type: OrderType,
    pub qty: i32,
    pub time_created: u32,
    pub price: Option<i64>,
}

impl OrderSide {
    pub open spec fn text(self) -> Seq<char> {
        match self {
            OrderSide::BID => "BID"@,
            OrderSide::ASK => "ASK"@,
        }
    }

    /// The side across the book.
    pub open spec fn opposite(self) -> OrderSide {
        match self {
            OrderSide::BID => OrderSide::ASK,
            OrderSide::ASK => OrderSide::BID,
        }
    }

    pub fn to_string(&self) -> (s: String)
        ensures
            s@ == self.text(),
    {
        match self {
            OrderSide::BID => String::from_str("BID"),
            OrderSide::ASK => String::from_str("ASK"),
        }
    }
}

impl OrderType {
    pub open spec fn text(self) -> Seq<char> {
        match self {
            OrderType::MARKET => "MARKET"@,
            OrderType::LIMIT => "LIMIT"@,
        }
    }

    pub fn to_string(&self) -> (s: String)
        ensures
            s@ == self.text(),
    {
        match self {
            OrderType::MARKET => String::from_str("MARKET"),
            OrderType::LIMIT => String::from_str("LIMIT"),
        }
    }
}

impl Clone for Stock {
    fn clone(&self) -> (s: Self)
        ensures
            s == *self,
    {
        Stock {
            stock_id: self.stock_id,
            name: self.name.clone(),
            ticker: self.ticker.clone(),
            total_issued: self.total_issued,
            outstanding_shares: self.outstanding_shares,
            time_created: self.time_created,
        }
    }
}

impl Stock {
    /// The first rule that the instrument breaks, if any: a nil id, an empty
    /// name, an empty ticker, and, where they are given, a number of issued
    /// or outstanding shares below 1 and a creation time of zero.
    pub open spec fn check(self) -> Result<(), StockError> {
        if self.stock_id == 0 {
            Err(StockError::InvalidStockID)
        } else if self.name@.len() == 0 {
            Err(StockError::InvalidName)
        } else if self.ticker@.len() == 0 {
            Err(StockError::InvalidTicker)
        } else if self.total_issued matches Some(n) && n <= 0 {
            Err(StockError::InvalidTotalIssued)
        } else if self.outstanding_shares matches Some(n) && n <= 0 {
            Err(StockError::InvalidOutstandingShares)
        } else if self.time_created == Some(0u32) {
            Err(StockError::InvalidTimeCreated)
        } else {
            Ok(())
        }
    }

    /// Whether two instruments read the same: the same id, numbers and
    /// creation time, and the same text as name and as ticker.
    pub open spec fn same_as(self, other: Stock) -> bool {
        &&& self.stock_id == other.stock_id
        &&& self.name@ == other.name@
        &&& self.ticker@ == other.ticker@
        &&& self.total_issued == other.total_issued
        &&& self.outstanding_shares == other.outstanding_shares
        &&& self.time_created == other.time_created
    }

    /// Whether the two instruments read the same.
    pub fn is_same_as(&self, other: &Stock) -> (same: bool)
        ensures
            same == self.same_as(*other),
    {
        self.stock_id == other.stock_id && self.name == other.name && self.ticker == other.ticker
            && self.total_issued == other.total_issued && self.outstanding_shares
            == other.outstanding_shares && self.time_created == other.time_created
    }

    /// Holds the instrument to its rules.
    pub fn validate(&self) -> (r: Result<(), StockError>)
        ensures
            r == self.check(),
    {
        if is_nil(self.stock_id) {
            return Err(StockError::InvalidStockID);
        }
        if self.name.as_str().is_empty() {
            return Err(StockError::InvalidName);
        }
        if self.ticker.as_str().is_empty() {
            return Err(StockError::InvalidTicker);
        }
        if let Some(total_issued) = self.total_issued {
            if total_issued <= 0 {
                return Err(StockError::InvalidTotalIssued);
            }
        }
        if let Some(outstanding_shares) = self.outstanding_shares {
            if outstanding_shares <= 0 {
                return Err(StockError::InvalidOutstandingShares);
            }
        }
        if let Some(time_created) = self.time_created {
            if time_created == 0 {
                return Err(StockError::InvalidTimeCreated);
            }
        }
        Ok(())
    }

    /// Makes an instrument of the given parts, valid or not.
    pub fn new(
        stock_id: u128,
        name: String,
        ticker: String,
        total_issued: Option<i32>,
        outstanding_shares: Option<i32>,
        time_created: Option<u32>,
    ) -> (stock: Self)
        ensures
            stock == (Stock {
                stock_id,
                name,
                ticker,
                total_issued,
                outstanding_shares,
                time_created,
            }),
    {
        Stock { stock_id, name, ticker, total_issued, outstanding_shares, time_created }
    }
}

impl Clone for Order {
    fn clone(&self) -> (o: Self)
        ensures
            o == *self,
    {
        Order {
            order_id: self.order_id,
            creator_id: self.creator_id,
            stock: self.stock.clone(),
            order_side: self.order_side,
            order_type: self.order_type,
            qty: self.qty,
            time_created: self.time_created,
            price: self.price,
        }
    }
}

impl Order {
    /// The first rule that the order breaks, if any: a nil order id, a nil
    /// creator id, a nil instrument id, a limit order without a positive
    /// price, a quantity outside `1..=MAX_ORDER_QTY`, a creation time of
    /// zero. The price of a market order is not looked at.
    pub open spec fn check(self) -> Result<(), OrderError> {
        if self.order_id == 0 {
            Err(OrderError::InvalidOrderID)
        } else if self.creator_id == 0 {
            Err(OrderError::InvalidCreatorID)
        } else if self.stock.stock_id == 0 {
            Err(OrderError::InvalidStockID)
        } else if self.order_type == OrderType::LIMIT && !(self.price matches Some(p) && p > 0) {
            Err(OrderError::InvalidPrice)
        } else if self.qty <= 0 || self.qty > MAX_ORDER_QTY {
            Err(OrderError::InvalidQuantity)
        } else if self.time_created == 0 {
            Err(OrderError::InvalidTimeCreated)
        } else {
            Ok(())
        }
    }

    /// Holds the order to its rules.
    pub fn validate(&self) -> (r: Result<(), OrderError>)
        ensures
            r == self.check(),
    {
        if is_nil(self.order_id) {
            return Err(OrderError::InvalidOrderID);
        }
        if is_nil(self.creator_id) {
            return Err(OrderError::InvalidCreatorID);
        }
        if is_nil(self.stock.stock_id) {
            return Err(OrderError::InvalidStockID);
        }
        match self.order_type {
            OrderType::LIMIT => {
                match self.price {
                    Some(price) => {
                        if price <= 0 {
                            return Err(OrderError::InvalidPrice);
                        }
                    },
                    None => {
                        return Err(OrderError::InvalidPrice);
                    },
                }
            },
            OrderType::MARKET => {},
        }
        if self.qty <= 0 || self.qty > MAX_ORDER_QTY {
            return Err(OrderError::InvalidQuantity);
        }
        if self.time_created == 0 {
            return Err(OrderError::InvalidTimeCreated);
        }
        Ok(())
    }

    /// Makes an order of the given parts, valid or not.
    pub fn new(
        order_id: u128,
        creator_id: u128,
        stock: Stock,
        order_side: OrderSide,
        order_type: OrderType,
        qty: i32,
        time_created: u32,
        price: Option<i64>,
    ) -> (order: Self)
        ensures
            order == (Order {
                order_id,
                creator_id,
                stock,
                order_side,
                order_type,
                qty,
                time_created,
                price,
            }),
    {
        Order { order_id, creator_id, stock, order_side, order_type, qty, time_created, price }
    }

    /// The order in one line: its id, its creator, its instrument with name
    /// and ticker, its type, its side and its quantity.
    pub open spec fn text(self) -> Seq<char> {
        "Order: "@ + uuid_text(self.order_id) + " "@ + uuid_text(self.creator_id) + " "@
            + uuid_text(self.stock.stock_id) + " "@ + self.stock.name@ + " "@ + self.stock.ticker@
            + " "@ + self.order_type.text() + " "@ + self.order_side.text() + " "@ + decimal_text(
            self.qty as int,
        )
    }

    pub fn to_string(&self) -> (s: String)
        ensures
            s@ == self.text(),
    {
        let mut s = String::from_str("Order: ");
        s.append(uuid_to_string(self.order_id).as_str());
        s.append(" ");
        s.append(uuid_to_string(self.creator_id).as_str());
        s.append(" ");
        s.append(uuid_to_string(self.stock.stock_id).as_str());
        s.append(" ");
        s.append(self.stock.name.as_str());
        s.append(" ");
        s.append(self.stock.ticker.as_str());
        s.append(" ");
        s.append(self.order_type.to_string().as_str());
        s.append(" ");
        s.append(self.order_side.to_string().as_str());
        s.append(" ");
        s.append(decimal(self.qty as i128).as_str());
        s
    }
}

} // verus!
