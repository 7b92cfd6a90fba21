//! The errors that the engine returns. None of them is fatal to a book or to
//! the exchange: a failed operation leaves the state as its contract says.
use vstd::prelude::*;
use vstd::string::StringExecFns;

verus! {

/// What can go wrong with an order or with an operation on an order book.
#[derive(Debug, PartialEq, Eq)]
pub enum OrderError {
    /// The order id is nil, or an order with this id already rests on the book.
    InvalidOrderID,
    /// The creator id is nil.
    InvalidCreatorID,
    /// The instrument id of the order is nil.
    InvalidStockID,
    /// A limit price is absent or not positive, or a market order found no
    /// last trade price to rest at.
    InvalidPrice,
    /// The quantity is below 1 or above the largest order size.
    InvalidQuantity,
    InvalidOrderSide,
    /// The creation time is zero.
    InvalidTimeCreated,
    /// No order waits in the queue.
    OrderQueueEmpty,
    /// No resting order has the given id.
    UnknownOrder,
    /// The exchange has no book for the instrument.
    UnknownStock,
    /// A price level does not hold the given order id.
    NotFound,
    /// Anything else, with a message.
    Other(String),
}

/// What can go wrong with an instrument.
#[derive(Debug, PartialEq, Eq)]
pub enum StockError {
    InvalidStockID,
    InvalidName,
    InvalidTicker,
    InvalidTimeCreated,
    InvalidTotalIssued,
    InvalidOutstandingShares,
    /// An instrument with this id is already registered.
    DuplicateStockID,
    /// No instrument with this id is registered.
    UnknownStock,
    /// The instrument still has resting or queued orders.
    StockInUse,
    /// Anything else, with a message.
    Other(String),
}

/// The ways in which taking an order from a queue can fail.
#[derive(Debug, PartialEq, Eq)]
pub enum OrderQueueError {
    OrderQueueEmpty,
    /// Anything else, with a message.
    Other(String),
}

impl OrderError {
    /// The text of the error: the variant's name, and for `Other` its message.
    pub open spec fn text(self) -> Seq<char> {
        match self {
            OrderError::InvalidOrderID => "InvalidOrderID"@,
            OrderError::InvalidCreatorID => "InvalidCreatorID"@,
            OrderError::InvalidStockID => "InvalidStockID"@,
            OrderError::InvalidPrice => "InvalidPrice"@,
            OrderError::InvalidQuantity => "InvalidQuantity"@,
            OrderError::InvalidOrderSide => "InvalidOrderSide"@,
            OrderError::InvalidTimeCreated => "InvalidTimeCreated"@,
            OrderError::OrderQueueEmpty => "OrderQueueEmpty"@,
            OrderError::UnknownOrder => "UnknownOrder"@,
            OrderError::UnknownStock => "UnknownStock"@,
            OrderError::NotFound => "NotFound"@,
            OrderError::Other(e) => "Other: "@ + e@,
        }
    }

    pub fn to_string(&self) -> (s: String)
        ensures
            s@ == self.text(),
    {
        match self {
            OrderError::InvalidOrderID => String::from_str("InvalidOrderID"),
            OrderError::InvalidCreatorID => String::from_str("InvalidCreatorID"),
            OrderError::InvalidStockID => String::from_str("InvalidStockID"),
            OrderError::InvalidPrice => String::from_str("InvalidPrice"),
            OrderError::InvalidQuantity => String::from_str("InvalidQuantity"),
            OrderError::InvalidOrderSide => String::from_str("InvalidOrderSide"),
            OrderError::InvalidTimeCreated => String::from_str("InvalidTimeCreated"),
            OrderError::OrderQueueEmpty => String::from_str("OrderQueueEmpty"),
            OrderError::UnknownOrder => String::from_str("UnknownOrder"),
            OrderError::UnknownStock => String::from_str("UnknownStock"),
            OrderError::NotFound => String::from_str("NotFound"),
            OrderError::Other(e) => {
                let mut s = String::from_str("Other: ");
                s.append(e.as_str());
                s
            },
        }
    }
}

impl StockError {
    /// The text of the error: the variant's name, and for `Other` its message.
    pub open spec fn text(self) -> Seq<char> {
        match self {
            StockError::InvalidStockID => "InvalidStockID"@,
            StockError::InvalidName => "InvalidName"@,
            StockError::InvalidTicker => "InvalidTicker"@,
            StockError::InvalidTimeCreated => "InvalidTimeCreated"@,
            StockError::InvalidTotalIssued => "InvalidTotalIssued"@,
            StockError::InvalidOutstandingShares => "InvalidOutstandingShares"@,
            StockError::DuplicateStockID => "DuplicateStockID"@,
            StockError::UnknownStock => "UnknownStock"@,
            StockError::StockInUse => "StockInUse"@,
            StockError::Other(e) => "Other: "@ + e@,
        }
    }

    pub fn to_string(&self) -> (s: String)
        ensures
            s@ == self.text(),
    {
        match self {
            StockError::InvalidStockID => String::from_str("InvalidStockID"),
            StockError::InvalidName => String::from_str("InvalidName"),
            StockError::InvalidTicker => String::from_str("InvalidTicker"),
            StockError::InvalidTimeCreated => String::from_str("InvalidTimeCreated"),
            StockError::InvalidTotalIssued => String::from_str("InvalidTotalIssued"),
            StockError::InvalidOutstandingShares => String::from_str("InvalidOutstandingShares"),
            StockError::DuplicateStockID => String::from_str("DuplicateStockID"),
            StockError::UnknownStock => String::from_str("UnknownStock"),
            StockError::StockInUse => String::from_str("StockInUse"),
            StockError::Other(e) => {
                let mut s = String::from_str("Other: ");
                s.append(e.as_str());
                s
            },
        }
    }
}

} // verus!
