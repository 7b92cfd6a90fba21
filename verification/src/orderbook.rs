//! A plain record of orders by integer ids and integer prices, with the
//! rules that make such an order valid.
use crate::errors::OrderError;
use std::collections::HashMap;
use std::collections::VecDeque;
use vstd::prelude::*;

verus! {

#[derive(Debug, Clone, Copy, PartialEq, Eq, Structural)]
pub enum OrderType {
    BUY,
    SELL,
}

#[derive(Debug, Clone, Copy, PartialEq, Eq, Structural)]
pub struct Order {
    pub order_id: i32,
    pub creator_id: i32,
    pub stock_id: i32,
    pub order_type: OrderType,
    pub price: i32,
    pub qty: i32,
    pub time_created: u32,
}

#[derive(Debug)]
pub struct PriceLevel {
    pub price: i32,
    pub qty: i32,
    pub orders: VecDeque<Order>,
}

#[derive(Debug)]
pub struct OrderBook {
    pub stock_id: i32,
    pub price_levels: HashMap<i32, PriceLevel>,
    pub oid_map: HashMap<i32, Order>,
}

pub struct OrderBooks {
    pub order_books: HashMap<i32, OrderBook>,
}

impl Order {
    /// The first rule that the order breaks, if any: an order id, a creator
    /// id, an instrument id or a price below 1, a quantity of zero, a
    /// creation time of zero.
    pub open spec fn check(self) -> Result<(), OrderError> {
        if self.order_id <= 0 {
            Err(OrderError::InvalidOrderID)
        } else if self.creator_id <= 0 {
            Err(OrderError::InvalidCreatorID)
        } else if self.stock_id <= 0 {
            Err(OrderError::InvalidStockID)
        } else if self.price <= 0 {
            Err(OrderError::InvalidPrice)
        } else if self.qty == 0 {
            Err(OrderError::InvalidQuantity)
        } else if self.time_created == 0 {
            Err(OrderError::InvalidTimeCreated)
        } else {
            Ok(())
        }
    }

    /// Holds the order to its rules.
    pub fn validate(&self) -> (r: Result<(), OrderError>)
        ensures
            r == self.check(),
    {
        if self.order_id <= 0 {
            return Err(OrderError::InvalidOrderID);
        }
        if self.creator_id <= 0 {
            return Err(OrderError::InvalidCreatorID);
        }
        if self.stock_id <= 0 {
            return Err(OrderError::InvalidStockID);
        }
        if self.price <= 0 {
            return Err(OrderError::InvalidPrice);
        }
        if self.qty == 0 {
            return Err(OrderError::InvalidQuantity);
        }
        if self.time_created == 0 {
            return Err(OrderError::InvalidTimeCreated);
        }
        Ok(())
    }

    /// Makes an order of the given parts, valid or not.
    pub fn new(
        order_id: i32,
        creator_id: i32,
        stock_id: i32,
        order_type: OrderType,
        price: i32,
        qty: i32,
        time_created: u32,
    ) -> (order: Self)
        ensures
            order == (Order { order_id, creator_id, stock_id, order_type, price, qty, time_created }),
    {
        Order { order_id, creator_id, stock_id, order_type, price, qty, time_created }
    }
}

impl OrderBook {
    /// A book without orders for the instrument with the given id.
    pub fn new(id: i32) -> (book: OrderBook)
        ensures
            book.stock_id == id,
            book.price_levels@ == Map::<i32, PriceLevel>::empty(),
            book.oid_map@ == Map::<i32, Order>::empty(),
    {
        OrderBook {
            stock_id: id,
            price_levels: HashMap::<i32, PriceLevel>::new(),
            oid_map: HashMap::<i32, Order>::new(),
        }
    }
}

} // verus!
