//! What a deployment around the exchange needs from it: the kinds of change
//! that it reports, and the channel on which the events of an instrument go
//! out.
use vstd::prelude::*;
use vstd::string::StringExecFns;

verus! {

/// The kinds of change to the exchange.
#[derive(Debug, Clone, Copy, PartialEq, Eq, Structural)]
pub enum ChangeType {
    Transaction,
    OrderModification,
    OrderCancellation,
    OrderAddition,
    OrderMatch,
    StockAddition,
    StockDeleteion,
}

/// The name of the channel for the events of the instrument with the given
/// ticker.
pub open spec fn channel_text(ticker: Seq<char>) -> Seq<char> {
    "stock:"@ + ticker
}

/// The name of the channel for the events of the instrument with the given
/// ticker: `stock:` and the ticker.
pub fn channel_name(ticker: &str) -> (channel: String)
    ensures
        channel@ == channel_text(ticker@),
{
    let mut channel = String::from_str("stock:");
    channel.append(ticker);
    channel
}

} // verus!
