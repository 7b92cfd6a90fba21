//! The events that a book reports.
use crate::engine::engine::channel_name;
use crate::engine::engine::channel_text;
use crate::engine::order::Order;
use crate::helpers::decimal;
use crate::helpers::decimal_text;
use crate::helpers::uuid_text;
use crate::helpers::uuid_to_string;
use vstd::prelude::*;
use vstd::string::StringExecFns;

verus! {

#[derive(Debug, Clone, Copy, PartialEq, Eq, Structural, PartialOrd, Ord)]
pub enum ExecutionType {
    ADD,
    MODIFY,
    DELETE,
    MATCH,
}

/// What happened to an order: `order` is the order as the event left it, and
/// a `MATCH` names in `matched_order` the last resting order that it traded
/// with, as the trade left that one.
#[derive(Debug, PartialEq)]
pub struct Execution {
    pub exec_type: ExecutionType,
    pub executor_id: u128,
    pub time_executed: u32,
    pub order: Order,
    pub matched_order: Option<Order>,
}

impl ExecutionType {
    pub open spec fn text(self) -> Seq<char> {
        match self {
            ExecutionType::ADD => "ADD"@,
            ExecutionType::MODIFY => "MODIFY"@,
            ExecutionType::DELETE => "DELETE"@,
            ExecutionType::MATCH => "MATCH"@,
        }
    }

    pub fn to_string(&self) -> (s: String)
        ensures
            s@ == self.text(),
    {
        match self {
            ExecutionType::ADD => String::from_str("ADD"),
            ExecutionType::MODIFY => String::from_str("MODIFY"),
            ExecutionType::DELETE => String::from_str("DELETE"),
            ExecutionType::MATCH => String::from_str("MATCH"),
        }
    }
}

impl Clone for Execution {
    fn clone(&self) -> (e: Self)
        ensures
            e == *self,
    {
        Execution {
            exec_type: self.exec_type,
            executor_id: self.executor_id,
            time_executed: self.time_executed,
            order: self.order.clone(),
            matched_order: match &self.matched_order {
                Some(o) => Some(o.clone()),
                None => None,
            },
        }
    }
}

impl Execution {
    pub fn new(
        exec_type: ExecutionType,
        executor_id: u128,
        time_executed: u32,
        order: Order,
        matched_order: Option<Order>,
    ) -> (e: Self)
        ensures
            e == (Execution { exec_type, executor_id, time_executed, order, matched_order }),
    {
        Execution { exec_type, executor_id, time_executed, order, matched_order }
    }

    /// The event in one line: its kind, who caused it and when, and of its
    /// order the id, the creator, the instrument, the side, the type and the
    /// quantity.
    pub open spec fn text(self) -> Seq<char> {
        "Execution: "@ + self.exec_type.text() + " "@ + uuid_text(self.executor_id) + " "@
            + decimal_text(self.time_executed as int) + " "@ + uuid_text(self.order.order_id) + " "@
            + uuid_text(self.order.creator_id) + " "@ + uuid_text(self.order.stock.stock_id) + " "@
            + self.order.order_side.text() + " "@ + self.order.order_type.text() + " "@
            + decimal_text(self.order.qty as int)
    }

    pub fn to_string(&self) -> (s: String)
        ensures
            s@ == self.text(),
    {
        let mut s = String::from_str("Execution: ");
        s.append(self.exec_type.to_string().as_str());
        s.append(" ");
        s.append(uuid_to_string(self.executor_id).as_str());
        s.append(" ");
        s.append(decimal(self.time_executed as i128).as_str());
        s.append(" ");
        s.append(uuid_to_string(self.order.order_id).as_str());
        s.append(" ");
        s.append(uuid_to_string(self.order.creator_id).as_str());
        s.append(" ");
        s.append(uuid_to_string(self.order.stock.stock_id).as_str());
        s.append(" ");
        s.append(self.order.order_side.to_string().as_str());
        s.append(" ");
        s.append(self.order.order_type.to_string().as_str());
        s.append(" ");
        s.append(decimal(self.order.qty as i128).as_str());
        s
    }

    /// The channel on which the event goes out: that of the instrument of
    /// its order.
    pub fn channel(&self) -> (channel: String)
        ensures
            channel@ == channel_text(self.order.stock.ticker@),
    {
        channel_name(self.order.stock.ticker.as_str())
    }
}

} // verus!
