//! Order quantity resolution and the append-only fill history.

use vstd::prelude::*;

use crate::model::{OrderArgs, OrderArgsV};
use crate::text::str_eq;

verus! {

/// Why executing a job stopped. Each variant names the step that failed.
#[derive(Clone, Copy, Debug, PartialEq, Eq, Structural)]
pub enum ExecError {
    /// The market-open query itself failed.
    MarketCheck,
    /// The market is closed for this symbol; the job stays due.
    MarketClosed,
    /// No usable quote came back for the symbol.
    QuoteLookup,
    /// Neither a share count nor an amount is set on the order.
    Resolution,
    /// The order submission failed.
    OrderPlacement,
    /// The broker reported an order without a fill price.
    MissingFillPrice,
    /// The command has no execution path (funds transfers).
    NotImplemented,
}

impl ExecError {
    /// A short description, for callers that surface errors as text.
    pub fn message(&self) -> (r: &'static str)
        ensures
            r@ == match self {
                ExecError::MarketCheck => "error checking market status"@,
                ExecError::MarketClosed => "market is closed"@,
                ExecError::QuoteLookup => "error while getting price"@,
                ExecError::Resolution => "either quantity or amount should be set"@,
                ExecError::OrderPlacement => "error while placing order"@,
                ExecError::MissingFillPrice => "order came back without a fill price"@,
                ExecError::NotImplemented => "this command is not implemented"@,
            },
    {
        match self {
            ExecError::MarketCheck => "error checking market status",
            ExecError::MarketClosed => "market is closed",
            ExecError::QuoteLookup => "error while getting price",
            ExecError::Resolution => "either quantity or amount should be set",
            ExecError::OrderPlacement => "error while placing order",
            ExecError::MissingFillPrice => "order came back without a fill price",
            ExecError::NotImplemented => "this command is not implemented",
        }
    }
}

/// The share count an order resolves to, given the quote (in cents) the
/// caller obtained when one was needed. An amount wins over a share count;
/// the affordable count is the floor of amount over price.
pub open spec fn get_qty_spec(a: OrderArgsV, quote: Option<u64>) -> Result<u64, ExecError> {
    match a.amount {
        Some(amount) => match quote {
            Some(price) => if price > 0 {
                Ok((amount / price) as u64)
            } else {
                Err(ExecError::QuoteLookup)
            },
            None => Err(ExecError::QuoteLookup),
        },
        None => match a.quantity {
            Some(quantity) => Ok(quantity),
            None => Err(ExecError::Resolution),
        },
    }
}

impl OrderArgs {
    /// Resolves the share count to trade. When the order carries an amount
    /// (in cents), the caller passes the live last price (in cents) it
    /// fetched for the symbol, or `None` if the lookup failed; a quote of
    /// zero is as unusable as none. Partial shares are never produced: the
    /// division floors.
    pub fn get_qty(&self, quote: Option<u64>) -> (r: Result<u64, ExecError>)
        ensures
            r == get_qty_spec(self@, quote),
    {
        match self.amount {
            Some(amount) => match quote {
                Some(price) => if price > 0 {
                    Ok(amount / price)
                } else {
                    Err(ExecError::QuoteLookup)
                },
                None => Err(ExecError::QuoteLookup),
            },
            None => match self.quantity {
                Some(quantity) => Ok(quantity),
                None => Err(ExecError::Resolution),
            },
        }
    }
}

/// The side of an order.
#[derive(Clone, Copy, Debug, PartialEq, Eq, Structural)]
pub enum OrderSide {
    Buy,
    Sell,
}

/// The side named by an order's `side` text, if any.
pub open spec fn side_spec(side: Seq<char>) -> Option<OrderSide> {
    if side == "buy"@ {
        Some(OrderSide::Buy)
    } else if side == "sell"@ {
        Some(OrderSide::Sell)
    } else {
        None
    }
}

/// Reads an order's `side` text.
pub fn parse_side(side: &str) -> (r: Option<OrderSide>)
    ensures
        r == side_spec(side@),
{
    if str_eq(side, "buy") {
        Some(OrderSide::Buy)
    } else if str_eq(side, "sell") {
        Some(OrderSide::Sell)
    } else {
        None
    }
}

/// A resolved, executed fill. The history of these is append-only.
#[derive(Debug, Clone)]
pub struct OrderPassed {
    /// The order id the broker assigned.
    pub id: String,
    /// The fill price, in cents.
    pub price: u64,
    pub args: OrderArgs,
}

/// Mathematical value of an [`OrderPassed`].
pub struct OrderPassedV {
    pub id: Seq<char>,
    pub price: u64,
    pub args: OrderArgsV,
}

impl View for OrderPassed {
    type V = OrderPassedV;

    open spec fn view(&self) -> OrderPassedV {
        OrderPassedV { id: self.id@, price: self.price, args: self.args@ }
    }
}

/// Appends one fill to the history. The history is never rewritten in
/// place: the entries already present come out unchanged, in their order.
pub fn record_fill(history: &mut Vec<OrderPassed>, fill: OrderPassed)
    ensures
        final(history)@ == old(history)@.push(fill),
{
    history.push(fill);
}

} // verus!
