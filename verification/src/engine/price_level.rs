//! A price level: the orders that rest at one price, first come first served.
use crate::engine::order::Order;
use crate::errors::OrderError;
use std::collections::VecDeque;
use vstd::prelude::*;

verus! {

/// The resting orders of one side at one price. `orders` holds their ids, the
/// oldest at the head; `qty` is the aggregate quantity that the level caches.
/// The orders themselves, with their quantities, are kept by the book.
#[derive(Debug, PartialEq)]
pub struct PriceLevel {
    pub price: i64,
    pub qty: i128,
    pub orders: VecDeque<u128>,
}

/// What a partial fill of `by` takes from an order of quantity `qty`: nothing
/// where either is below 1, and never more than the order has.
pub open spec fn head_cut(qty: int, by: int) -> int {
    if by <= 0 || qty <= 0 {
        0
    } else if by >= qty {
        qty
    } else {
        by
    }
}

impl Clone for PriceLevel {
    fn clone(&self) -> (level: Self)
        ensures
            level.price == self.price,
            level.qty == self.qty,
            level.orders@ == self.orders@,
    {
        let orders = self.orders.clone();
        assert(orders@ =~= self.orders@);
        PriceLevel { price: self.price, qty: self.qty, orders }
    }
}

impl PriceLevel {
    /// A level without orders, at the given price and aggregate quantity.
    pub fn new(price: i64, qty: i128) -> (level: Self)
        ensures
            level.price == price,
            level.qty == qty,
            level.orders@ == Seq::<u128>::empty(),
    {
        PriceLevel { price, qty, orders: VecDeque::new() }
    }

    /// Puts the order at the tail of the queue and adds its quantity to the
    /// aggregate.
    pub fn add_order(&mut self, order: Order)
        requires
            i128::MIN <= old(self).qty + order.qty <= i128::MAX,
        ensures
            final(self).price == old(self).price,
            final(self).orders@ == old(self).orders@.push(order.order_id),
            final(self).qty == old(self).qty + order.qty,
    {
        self.orders.push_back(order.order_id);
        self.qty = self.qty + order.qty as i128;
    }

    /// Takes the first occurrence of the order's id out of the queue and its
    /// quantity off the aggregate. Fails, and changes nothing, where the
    /// level does not hold the id.
    pub fn remove_order(&mut self, order: Order) -> (r: Result<(), OrderError>)
        requires
            old(self).orders@.contains(order.order_id) ==> i128::MIN <= old(self).qty - order.qty
                <= i128::MAX,
        ensures
            final(self).price == old(self).price,
            old(self).orders@.contains(order.order_id) ==> r is Ok && final(self).orders@ == old(
                self,
            ).orders@.remove_value(order.order_id) && final(self).qty == old(self).qty - order.qty,
            !old(self).orders@.contains(order.order_id) ==> r == Err::<(), OrderError>(
                OrderError::NotFound,
            ) && final(self).orders@ == old(self).orders@ && final(self).qty == old(self).qty,
    {
        let n = self.orders.len();
        let mut i: usize = 0;
        while i < n
            invariant
                n == self.orders@.len(),
                i <= n,
                *self == *old(self),
                forall|j: int| 0 <= j < i ==> self.orders@[j] != order.order_id,
                self.orders@.contains(order.order_id) ==> i128::MIN <= self.qty - order.qty
                    <= i128::MAX,
            decreases n - i,
        {
            if self.orders[i] == order.order_id {
                proof {
                    self.orders@.index_of_first_ensures(order.order_id);
                }
                self.orders.remove(i);
                self.qty = self.qty - order.qty as i128;
                return Ok(());
            }
            i = i + 1;
        }
        Err(OrderError::NotFound)
    }

    /// A partial fill of the order at the head of the queue: takes `by` from
    /// the quantity of `head`, which stays at zero or above, and the same
    /// from the aggregate. The queue keeps its order.
    pub fn decrement_head(&mut self, head: &mut Order, by: i32)
        requires
            old(self).orders@.len() > 0,
            old(self).orders@[0] == old(head).order_id,
            i128::MIN <= old(self).qty - head_cut(old(head).qty as int, by as int),
        ensures
            final(self).price == old(self).price,
            final(self).orders@ == old(self).orders@,
            final(self).qty == old(self).qty - head_cut(old(head).qty as int, by as int),
            *final(head) == (Order {
                qty: (old(head).qty - head_cut(old(head).qty as int, by as int)) as i32,
                ..*old(head)
            }),
    {
        let cut: i32 = if by <= 0 || head.qty <= 0 {
            0
        } else if by >= head.qty {
            head.qty
        } else {
            by
        };
        head.qty = head.qty - cut;
        self.qty = self.qty - cut as i128;
    }

    /// Whether nothing is left at this price: the aggregate is zero or below.
    pub fn is_empty(&self) -> (empty: bool)
        ensures
            empty == (self.qty <= 0),
    {
        self.qty <= 0
    }
}

} // verus!
