//! The job model: schedules, commands, and the due-date rule.

use vstd::prelude::*;

use crate::dates::{date_after, date_info_of, ts_in_range, timestamp_date_info, DateInfo};
use crate::numstr::{cents_str, dec_str, emit_cents, emit_u64};
use crate::text::{push_str_chars, string_from_chars};

verus! {

/// When a job recurs. The `day` fields are accepted input but do not take
/// part in the due-date decision: only crossing a calendar boundary does.
#[derive(Clone, Copy, Debug, PartialEq, Eq, Structural)]
pub enum Schedule {
    Daily,
    Weekly { day: u8 },
    Monthly { day: u32 },
}

/// A funds transfer between two accounts. Accepted into the model; its
/// execution path is not implemented and fails explicitly.
#[derive(Debug, Clone)]
pub struct Transfer {
    pub from: String,
    pub to: String,
    pub amount: String,
}

/// Mathematical value of a [`Transfer`].
pub struct TransferV {
    pub from: Seq<char>,
    pub to: Seq<char>,
    pub amount: Seq<char>,
}

impl View for Transfer {
    type V = TransferV;

    open spec fn view(&self) -> TransferV {
        TransferV { from: self.from@, to: self.to@, amount: self.amount@ }
    }
}

/// What a recurring order asks for. Money is held in cents, so a share
/// count resolved from an amount is an exact integer division.
/// Exactly one of `quantity` / `amount` is expected to carry the user's
/// intent; when both are set, `amount` wins during resolution.
#[derive(Debug, Clone)]
pub struct OrderArgs {
    pub account: String,
    pub symbol: String,
    /// Number of shares to trade.
    pub quantity: Option<u64>,
    /// Money to spend, in cents.
    pub amount: Option<u64>,
    /// `"buy"` or `"sell"`.
    pub side: String,
}

/// Mathematical value of an [`OrderArgs`].
pub struct OrderArgsV {
    pub account: Seq<char>,
    pub symbol: Seq<char>,
    pub quantity: Option<u64>,
    pub amount: Option<u64>,
    pub side: Seq<char>,
}

impl View for OrderArgs {
    type V = OrderArgsV;

    open spec fn view(&self) -> OrderArgsV {
        OrderArgsV {
            account: self.account@,
            symbol: self.symbol@,
            quantity: self.quantity,
            amount: self.amount,
            side: self.side@,
        }
    }
}

/// What a job does when it runs.
#[derive(Debug, Clone)]
pub enum Command {
    Order(OrderArgs),
    Transfer(Transfer),
}

/// Mathematical value of a [`Command`].
pub enum CommandV {
    Order(OrderArgsV),
    Transfer(TransferV),
}

impl View for Command {
    type V = CommandV;

    open spec fn view(&self) -> CommandV {
        match self {
            Command::Order(args) => CommandV::Order(args@),
            Command::Transfer(t) => CommandV::Transfer(t@),
        }
    }
}

/// A recurring job. `id` is the unique key for upsert and delete; it is
/// assigned at creation and the stored value stays authoritative afterward.
#[derive(Debug, Clone)]
pub struct Job {
    pub id: String,
    pub schedule: Schedule,
    /// Unix timestamp of the last successful run.
    pub last_run: i64,
    pub command: Command,
}

/// Mathematical value of a [`Job`].
pub struct JobV {
    pub id: Seq<char>,
    pub schedule: Schedule,
    pub last_run: i64,
    pub command: CommandV,
}

impl View for Job {
    type V = JobV;

    open spec fn view(&self) -> JobV {
        JobV {
            id: self.id@,
            schedule: self.schedule,
            last_run: self.last_run,
            command: self.command@,
        }
    }
}

impl Job {
    /// A job the library can evaluate: its last run is an in-range timestamp.
    pub open spec fn wf(self) -> bool {
        ts_in_range(self.last_run)
    }
}

impl Transfer {
    /// A copy holding the same values.
    pub fn duplicate(&self) -> (r: Transfer)
        ensures
            r@ == self@,
    {
        Transfer { from: self.from.clone(), to: self.to.clone(), amount: self.amount.clone() }
    }
}

impl OrderArgs {
    /// A copy holding the same values.
    pub fn duplicate(&self) -> (r: OrderArgs)
        ensures
            r@ == self@,
    {
        OrderArgs {
            account: self.account.clone(),
            symbol: self.symbol.clone(),
            quantity: self.quantity,
            amount: self.amount,
            side: self.side.clone(),
        }
    }
}

impl Command {
    /// A copy holding the same values.
    pub fn duplicate(&self) -> (r: Command)
        ensures
            r@ == self@,
    {
        match self {
            Command::Order(a) => Command::Order(a.duplicate()),
            Command::Transfer(t) => Command::Transfer(t.duplicate()),
        }
    }
}

impl Job {
    /// A copy holding the same values.
    pub fn duplicate(&self) -> (r: Job)
        ensures
            r@ == self@,
    {
        Job {
            id: self.id.clone(),
            schedule: self.schedule,
            last_run: self.last_run,
            command: self.command.duplicate(),
        }
    }

    /// Advances the last run to `now_ts` after a successful execution; no
    /// other field moves. The last run only ever moves forward.
    pub fn mark_ran(&mut self, now_ts: i64)
        requires
            ts_in_range(now_ts),
            now_ts >= old(self).last_run,
        ensures
            final(self).id == old(self).id,
            final(self).schedule == old(self).schedule,
            final(self).command == old(self).command,
            final(self).last_run == now_ts,
            final(self).wf(),
    {
        self.last_run = now_ts;
    }
}

/// A command whose order carries a share count or an amount; transfers
/// always qualify. Job ids are derived only from such commands.
pub open spec fn command_resolvable(c: CommandV) -> bool {
    match c {
        CommandV::Order(a) => a.quantity is Some || a.amount is Some,
        CommandV::Transfer(_) => true,
    }
}

/// The word naming a schedule kind.
pub open spec fn schedule_label(s: Schedule) -> Seq<char> {
    match s {
        Schedule::Daily => "daily"@,
        Schedule::Weekly { .. } => "weekly"@,
        Schedule::Monthly { .. } => "monthly"@,
    }
}

/// The share count if one is set, else the amount: the figure a job id
/// displays.
pub open spec fn qty_or_amount_text(a: OrderArgsV) -> Seq<char> {
    match a.quantity {
        Some(q) => dec_str(q as nat),
        None => match a.amount {
            Some(c) => cents_str(c as nat),
            None => Seq::<char>::empty(),
        },
    }
}

/// The text naming a command inside a job id.
pub open spec fn command_label(c: CommandV) -> Seq<char> {
    match c {
        CommandV::Order(a) => "order_"@ + a.side + "_"@ + qty_or_amount_text(a) + "_"@ + a.symbol,
        CommandV::Transfer(t) => "transfer_"@ + t.from + "_"@ + t.to,
    }
}

/// The id a new job receives, derived from its schedule and command.
pub open spec fn job_id_of(s: Schedule, c: CommandV) -> Seq<char> {
    schedule_label(s) + command_label(c)
}

impl Job {
    /// Builds a job created at `now_ts`, with its id derived from the
    /// schedule and command. The stored id stays authoritative afterward.
    pub fn new(schedule: Schedule, command: Command, now_ts: i64) -> (r: Job)
        requires
            ts_in_range(now_ts),
            command_resolvable(command@),
        ensures
            r.schedule == schedule,
            r.last_run == now_ts,
            r.command == command,
            r@.id == job_id_of(schedule, command@),
            r.wf(),
    {
        let mut chars: Vec<char> = Vec::new();
        match schedule {
            Schedule::Daily => push_str_chars(&mut chars, "daily"),
            Schedule::Weekly { .. } => push_str_chars(&mut chars, "weekly"),
            Schedule::Monthly { .. } => push_str_chars(&mut chars, "monthly"),
        }
        match &command {
            Command::Order(a) => {
                push_str_chars(&mut chars, "order_");
                push_str_chars(&mut chars, a.side.as_str());
                push_str_chars(&mut chars, "_");
                match a.quantity {
                    Some(q) => emit_u64(&mut chars, q),
                    None => match a.amount {
                        Some(c) => emit_cents(&mut chars, c),
                        None => (),
                    },
                }
                push_str_chars(&mut chars, "_");
                push_str_chars(&mut chars, a.symbol.as_str());
            },
            Command::Transfer(t) => {
                push_str_chars(&mut chars, "transfer_");
                push_str_chars(&mut chars, t.from.as_str());
                push_str_chars(&mut chars, "_");
                push_str_chars(&mut chars, t.to.as_str());
            },
        }
        proof {
            assert(chars@ =~= job_id_of(schedule, command@));
        }
        let id = string_from_chars(&chars);
        Job { id, schedule, last_run: now_ts, command }
    }
}

/// The due-date rule, over calendar fields.
///
/// Every kind fires once the calendar date of `now` is past the date of the
/// last run. Weekly and monthly jobs also compare the raw ISO week and month
/// numbers without their year, so a week or month boundary that wraps a year
/// (December into January) is not seen by those two clauses.
pub open spec fn due_spec(schedule: Schedule, now: DateInfo, last: DateInfo) -> bool {
    match schedule {
        Schedule::Daily => date_after(now, last),
        Schedule::Weekly { .. } => date_after(now, last) || now.iso_week > last.iso_week,
        Schedule::Monthly { .. } => date_after(now, last) || now.month > last.month,
    }
}

/// A job's due-date rule over timestamps, through chrono's calendar fields.
pub open spec fn due_at_spec(job: JobV, now_ts: i64) -> bool {
    due_spec(job.schedule, date_info_of(now_ts as int), date_info_of(job.last_run as int))
}

impl Job {
    /// Decides whether this job is due when the calendar reads `now`, given
    /// the calendar fields of its last run.
    pub fn should_run(&self, now: &DateInfo, last_run: &DateInfo) -> (r: bool)
        ensures
            r == due_spec(self.schedule, *now, *last_run),
    {
        match &self.schedule {
            Schedule::Daily => crate::dates::date_is_after(now, last_run),
            Schedule::Weekly { day: _ } => {
                crate::dates::date_is_after(now, last_run) || now.iso_week > last_run.iso_week
            },
            Schedule::Monthly { day: _ } => {
                crate::dates::date_is_after(now, last_run) || now.month > last_run.month
            },
        }
    }

    /// Decides whether this job is due at the instant `now_ts`.
    pub fn should_run_now(&self, now_ts: i64) -> (r: bool)
        requires
            ts_in_range(now_ts),
            self.wf(),
        ensures
            r == due_at_spec(self@, now_ts),
    {
        let now = timestamp_date_info(now_ts);
        let last = timestamp_date_info(self.last_run);
        self.should_run(&now, &last)
    }
}

} // verus!
