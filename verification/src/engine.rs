//! The execution engine: one job's run as a step machine.
//!
//! Executing an order needs three answers from the broker — is the market
//! open, what does the instrument quote at (only when the order carries an
//! amount), and what did the order fill at. The caller obtains each answer
//! and hands it in as a plain value; the machine decides every step. A run
//! that reaches [`ExecPhase::Done`] passed the market gate, resolved exactly
//! one concrete share count, and carries the fill to append to the history;
//! any earlier failure leaves the job untouched and still due.

use vstd::prelude::*;

use crate::model::{Command, CommandV, Job, OrderArgsV, OrderArgs};
use crate::orders::{get_qty_spec, ExecError, OrderPassed, OrderPassedV};

verus! {

/// Where a run stands.
pub enum ExecPhase {
    /// Waiting for the market-open answer for the order's symbol.
    AwaitingMarket,
    /// Waiting for a quote, because the order carries an amount.
    AwaitingQuote,
    /// Waiting for the broker's reply to the placed order.
    AwaitingOrder { quantity: u64 },
    /// The order filled; the fill is ready to record.
    Done { fill: OrderPassed },
    /// The run stopped; the job's last run must not advance.
    Failed { error: ExecError },
}

/// One job execution in flight.
pub struct ExecMachine {
    pub args: OrderArgs,
    pub phase: ExecPhase,
}

impl ExecMachine {
    /// A quote is only ever awaited when the order carries an amount.
    pub open spec fn wf(self) -> bool {
        self.phase is AwaitingQuote ==> self.args.amount is Some
    }

    /// Starts executing a job's command. Only orders have an execution
    /// path: a transfer fails explicitly, it never runs as a no-op.
    pub fn start(job: &Job) -> (r: Result<ExecMachine, ExecError>)
        ensures
            match job@.command {
                CommandV::Order(a) => r matches Ok(m) && m.args@ == a && m.phase
                    is AwaitingMarket && m.wf(),
                CommandV::Transfer(_) => r == Err::<ExecMachine, ExecError>(
                    ExecError::NotImplemented,
                ),
            },
    {
        match &job.command {
            Command::Order(a) => Ok(
                ExecMachine { args: a.duplicate(), phase: ExecPhase::AwaitingMarket },
            ),
            Command::Transfer(_) => Err(ExecError::NotImplemented),
        }
    }

    /// The phase that follows a market-open answer: an unanswered check or
    /// a closed market stops the run; an open market moves to the quote
    /// when an amount must be resolved, else straight to the order with the
    /// share count, and to a resolution failure when the order carries
    /// neither figure.
    pub open spec fn phase_after_market(a: OrderArgsV, status: Option<bool>) -> ExecPhase {
        match status {
            None => ExecPhase::Failed { error: ExecError::MarketCheck },
            Some(false) => ExecPhase::Failed { error: ExecError::MarketClosed },
            Some(true) => if a.amount is Some {
                ExecPhase::AwaitingQuote
            } else {
                match a.quantity {
                    Some(q) => ExecPhase::AwaitingOrder { quantity: q },
                    None => ExecPhase::Failed { error: ExecError::Resolution },
                }
            },
        }
    }

    /// Feeds in the market-open answer, `None` when the check itself
    /// failed. The market gate comes before any quote or order work.
    pub fn on_market_status(&mut self, status: Option<bool>)
        requires
            old(self).phase is AwaitingMarket,
        ensures
            final(self).args == old(self).args,
            final(self).phase == Self::phase_after_market(old(self).args@, status),
            final(self).wf(),
    {
        match status {
            None => self.phase = ExecPhase::Failed { error: ExecError::MarketCheck },
            Some(false) => self.phase = ExecPhase::Failed { error: ExecError::MarketClosed },
            Some(true) => {
                if self.args.amount.is_some() {
                    self.phase = ExecPhase::AwaitingQuote;
                } else {
                    match self.args.quantity {
                        Some(q) => self.phase = ExecPhase::AwaitingOrder { quantity: q },
                        None => self.phase = ExecPhase::Failed { error: ExecError::Resolution },
                    }
                }
            },
        }
    }

    /// Feeds in the quote (last price in cents, `None` when the lookup
    /// failed). The share count becomes the floor of amount over price.
    pub fn on_quote(&mut self, quote: Option<u64>)
        requires
            old(self).phase is AwaitingQuote,
            old(self).wf(),
        ensures
            final(self).args == old(self).args,
            final(self).phase == match get_qty_spec(old(self).args@, quote) {
                Ok(q) => ExecPhase::AwaitingOrder { quantity: q },
                Err(e) => ExecPhase::Failed { error: e },
            },
            final(self).wf(),
    {
        match self.args.get_qty(quote) {
            Ok(q) => self.phase = ExecPhase::AwaitingOrder { quantity: q },
            Err(e) => self.phase = ExecPhase::Failed { error: e },
        }
    }

    /// Feeds in the broker's reply to the placed order: the order id and
    /// the fill price in cents, `None` when the submission failed. A reply
    /// without a fill price is a broken broker promise, fatal for this job.
    pub fn on_order_result(&mut self, result: Option<(String, Option<u64>)>)
        requires
            old(self).phase matches ExecPhase::AwaitingOrder { .. },
        ensures
            final(self).args == old(self).args,
            match result {
                None => final(self).phase == ExecPhase::Failed {
                    error: ExecError::OrderPlacement,
                },
                Some((id, price_opt)) => match price_opt {
                    None => final(self).phase == ExecPhase::Failed {
                        error: ExecError::MissingFillPrice,
                    },
                    Some(price) => final(self).phase matches ExecPhase::Done { fill } && fill@
                        == (OrderPassedV { id: id@, price, args: old(self).args@ }),
                },
            },
            final(self).wf(),
    {
        match result {
            None => self.phase = ExecPhase::Failed { error: ExecError::OrderPlacement },
            Some((id, price_opt)) => match price_opt {
                None => self.phase = ExecPhase::Failed { error: ExecError::MissingFillPrice },
                Some(price) => {
                    let fill = OrderPassed { id, price, args: self.args.duplicate() };
                    self.phase = ExecPhase::Done { fill };
                },
            },
        }
    }
}

} // verus!
