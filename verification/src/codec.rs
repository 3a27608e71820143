//! The durable form of the job list: one JSON array, one job per entry.
//!
//! The writer is verified against a full mathematical description of the
//! text ([`jobs_json`]). The reader owes success on the encoding of any
//! in-range list, and accepts a candidate only after writing it back out
//! and comparing with the input, so a successful load proves the input was
//! exactly the encoding of the returned list: a saved list always loads,
//! and loads to itself.

use vstd::prelude::*;
use vstd::string::StrSliceExecFns;

use crate::model::{Command, CommandV, Job, JobV, OrderArgs, OrderArgsV, Schedule, Transfer, TransferV};
use crate::numstr::{cents_str, dec_str, digit, digit_val, digits_val, emit_cents, emit_u64, is_digit_char, lemma_dec_str_digits, lemma_dec_str_prefix_val, lemma_dec_str_val};
use crate::store::{job_views, jobs_wf};
use crate::text::{is_blank, push_str_chars, string_from_chars, text_is_blank, to_char_vec};
use crate::dates::TS_MAX;

verus! {

/// Reading or writing the store failed.
#[derive(Clone, Copy, Debug, PartialEq, Eq, Structural)]
pub enum PersistenceError {
    /// The file's content is not an encoding this library writes.
    Malformed,
}

impl PersistenceError {
    /// A short description, for callers that surface errors as text.
    pub fn message(&self) -> (r: &'static str)
        ensures
            r@ == "malformed job store content"@,
    {
        match self {
            PersistenceError::Malformed => "malformed job store content",
        }
    }
}

/// How one character stands inside a JSON string: quotes and backslashes
/// are escaped, everything else passes through.
pub open spec fn esc_char(c: char) -> Seq<char> {
    if c == '"' || c == '\\' {
        seq!['\\', c]
    } else {
        seq![c]
    }
}

/// A string's characters, each escaped.
pub open spec fn escaped(s: Seq<char>) -> Seq<char>
    decreases s.len(),
{
    if s.len() == 0 {
        Seq::empty()
    } else {
        escaped(s.drop_last()) + esc_char(s.last())
    }
}

/// A JSON string literal: quoted, escaped text.
pub open spec fn str_json(s: Seq<char>) -> Seq<char> {
    seq!['"'] + escaped(s) + seq!['"']
}

/// An optional share count: `null` or a decimal.
pub open spec fn opt_qty_json(o: Option<u64>) -> Seq<char> {
    match o {
        None => "null"@,
        Some(n) => dec_str(n as nat),
    }
}

/// An optional amount: `null` or a decimal of currency units.
pub open spec fn opt_amt_json(o: Option<u64>) -> Seq<char> {
    match o {
        None => "null"@,
        Some(c) => cents_str(c as nat),
    }
}

/// A schedule: a bare word for daily, a one-key object for the others.
pub open spec fn sched_json(s: Schedule) -> Seq<char> {
    match s {
        Schedule::Daily => "\"daily\""@,
        Schedule::Weekly { day } => "{\"weekly\":{\"day\":"@ + dec_str(day as nat) + "}}"@,
        Schedule::Monthly { day } => "{\"monthly\":{\"day\":"@ + dec_str(day as nat) + "}}"@,
    }
}

/// An order's arguments.
pub open spec fn order_json(a: OrderArgsV) -> Seq<char> {
    "{\"order\":{\"account\":"@ + str_json(a.account) + ",\"symbol\":"@ + str_json(a.symbol)
        + ",\"quantity\":"@ + opt_qty_json(a.quantity) + ",\"amount\":"@ + opt_amt_json(a.amount)
        + ",\"side\":"@ + str_json(a.side) + "}}"@
}

/// A transfer's arguments.
pub open spec fn transfer_json(t: TransferV) -> Seq<char> {
    "{\"transfer\":{\"from\":"@ + str_json(t.from) + ",\"to\":"@ + str_json(t.to) + ",\"amount\":"@
        + str_json(t.amount) + "}}"@
}

/// A command, tagged by its kind.
pub open spec fn cmd_json(c: CommandV) -> Seq<char> {
    match c {
        CommandV::Order(a) => order_json(a),
        CommandV::Transfer(t) => transfer_json(t),
    }
}

/// One job record.
pub open spec fn job_json(j: JobV) -> Seq<char> {
    "{\"id\":"@ + str_json(j.id) + ",\"schedule\":"@ + sched_json(j.schedule) + ",\"last_run\":"@
        + dec_str(j.last_run as nat) + ",\"command\":"@ + cmd_json(j.command) + "}"@
}

/// The comma-joined job records.
pub open spec fn jobs_inner(l: Seq<JobV>) -> Seq<char>
    decreases l.len(),
{
    if l.len() == 0 {
        Seq::empty()
    } else if l.len() == 1 {
        job_json(l[0])
    } else {
        jobs_inner(l.drop_last()) + seq![','] + job_json(l.last())
    }
}

/// The whole file: a JSON array of job records.
pub open spec fn jobs_json(l: Seq<JobV>) -> Seq<char> {
    seq!['['] + jobs_inner(l) + seq![']']
}

/// Appends a JSON string literal.
pub(crate) fn emit_str_json(out: &mut Vec<char>, s: &str)
    ensures
        final(out)@ == old(out)@ + str_json(s@),
{
    out.push('"');
    let n = s.unicode_len();
    let mut i: usize = 0;
    while i < n
        invariant
            n == s@.len(),
            i <= n,
            out@ == old(out)@ + seq!['"'] + escaped(s@.take(i as int)),
        decreases n - i,
    {
        let c = s.get_char(i);
        if c == '"' || c == '\\' {
            out.push('\\');
            out.push(c);
        } else {
            out.push(c);
        }
        i = i + 1;
        proof {
            let t = s@.take(i as int);
            assert(t.drop_last() =~= s@.take(i - 1));
            assert(t.last() == s@[i - 1]);
            assert(out@ =~= old(out)@ + seq!['"'] + escaped(t));
        }
    }
    out.push('"');
    proof {
        assert(s@.take(n as int) =~= s@);
        assert(out@ =~= old(out)@ + str_json(s@));
    }
}

/// Appends `null` or a decimal share count.
pub(crate) fn emit_opt_qty(out: &mut Vec<char>, o: &Option<u64>)
    ensures
        final(out)@ == old(out)@ + opt_qty_json(*o),
{
    match o {
        None => push_str_chars(out, "null"),
        Some(n) => emit_u64(out, *n),
    }
}

/// Appends `null` or a decimal amount.
pub(crate) fn emit_opt_amt(out: &mut Vec<char>, o: &Option<u64>)
    ensures
        final(out)@ == old(out)@ + opt_amt_json(*o),
{
    match o {
        None => push_str_chars(out, "null"),
        Some(c) => emit_cents(out, *c),
    }
}

/// Appends a schedule.
fn emit_sched(out: &mut Vec<char>, s: &Schedule)
    ensures
        final(out)@ == old(out)@ + sched_json(*s),
{
    match s {
        Schedule::Daily => push_str_chars(out, "\"daily\""),
        Schedule::Weekly { day } => {
            push_str_chars(out, "{\"weekly\":{\"day\":");
            emit_u64(out, *day as u64);
            push_str_chars(out, "}}");
            proof {
                assert(out@ =~= old(out)@ + sched_json(*s));
            }
        },
        Schedule::Monthly { day } => {
            push_str_chars(out, "{\"monthly\":{\"day\":");
            emit_u64(out, *day as u64);
            push_str_chars(out, "}}");
            proof {
                assert(out@ =~= old(out)@ + sched_json(*s));
            }
        },
    }
}

/// Appends a command.
fn emit_cmd(out: &mut Vec<char>, c: &Command)
    ensures
        final(out)@ == old(out)@ + cmd_json(c@),
{
    match c {
        Command::Order(a) => {
            push_str_chars(out, "{\"order\":{\"account\":");
            emit_str_json(out, a.account.as_str());
            push_str_chars(out, ",\"symbol\":");
            emit_str_json(out, a.symbol.as_str());
            push_str_chars(out, ",\"quantity\":");
            emit_opt_qty(out, &a.quantity);
            push_str_chars(out, ",\"amount\":");
            emit_opt_amt(out, &a.amount);
            push_str_chars(out, ",\"side\":");
            emit_str_json(out, a.side.as_str());
            push_str_chars(out, "}}");
            proof {
                assert(out@ =~= old(out)@ + cmd_json(c@));
            }
        },
        Command::Transfer(t) => {
            push_str_chars(out, "{\"transfer\":{\"from\":");
            emit_str_json(out, t.from.as_str());
            push_str_chars(out, ",\"to\":");
            emit_str_json(out, t.to.as_str());
            push_str_chars(out, ",\"amount\":");
            emit_str_json(out, t.amount.as_str());
            push_str_chars(out, "}}");
            proof {
                assert(out@ =~= old(out)@ + cmd_json(c@));
            }
        },
    }
}

/// Appends one job record.
fn emit_job(out: &mut Vec<char>, j: &Job)
    requires
        j.wf(),
    ensures
        final(out)@ == old(out)@ + job_json(j@),
{
    push_str_chars(out, "{\"id\":");
    emit_str_json(out, j.id.as_str());
    push_str_chars(out, ",\"schedule\":");
    emit_sched(out, &j.schedule);
    push_str_chars(out, ",\"last_run\":");
    emit_u64(out, j.last_run as u64);
    push_str_chars(out, ",\"command\":");
    emit_cmd(out, &j.command);
    push_str_chars(out, "}");
    proof {
        assert(out@ =~= old(out)@ + job_json(j@));
    }
}

/// Serializes the whole job list: the text [`jobs_json`] describes, exactly.
pub fn save_jobs(jobs: &Vec<Job>) -> (r: String)
    requires
        jobs_wf(jobs@),
    ensures
        r@ == jobs_json(job_views(jobs@)),
{
    let mut out: Vec<char> = Vec::new();
    out.push('[');
    let n = jobs.len();
    let mut i: usize = 0;
    proof {
        assert(out@ =~= seq!['['] + jobs_inner(job_views(jobs@.take(0))));
    }
    while i < n
        invariant
            n == jobs@.len(),
            i <= n,
            jobs_wf(jobs@),
            out@ == seq!['['] + jobs_inner(job_views(jobs@.take(i as int))),
        decreases n - i,
    {
        let ghost prefix = job_views(jobs@.take(i as int));
        if i > 0 {
            out.push(',');
        }
        emit_job(&mut out, &jobs[i]);
        i = i + 1;
        proof {
            let step = job_views(jobs@.take(i as int));
            assert(step.drop_last() =~= prefix);
            assert(step.last() == jobs@[i - 1]@);
            if i == 1 {
                assert(jobs_inner(step) == job_json(step[0]));
                assert(out@ =~= seq!['['] + jobs_inner(step));
            } else {
                assert(jobs_inner(step) == jobs_inner(prefix) + seq![','] + job_json(step.last()));
                assert(out@ =~= seq!['['] + jobs_inner(step));
            }
        }
    }
    out.push(']');
    proof {
        assert(jobs@.take(n as int) =~= jobs@);
        assert(out@ =~= jobs_json(job_views(jobs@)));
    }
    string_from_chars(&out)
}

/// The text holds exactly `x` at position `pos`.
pub(crate) open spec fn is_seg(s: Seq<char>, pos: int, x: Seq<char>) -> bool {
    &&& 0 <= pos
    &&& pos + x.len() <= s.len()
    &&& s.subrange(pos, pos + x.len()) == x
}

/// Position `e` ends the text or carries a non-digit: a decimal read from
/// earlier text stops there.
pub(crate) open spec fn stop_after(s: Seq<char>, e: int) -> bool {
    e == s.len() || (0 <= e < s.len() && !is_digit_char(s[e]))
}

/// A nonempty segment pins the character at its start.
pub(crate) proof fn lemma_seg_head(s: Seq<char>, pos: int, x: Seq<char>)
    requires
        is_seg(s, pos, x),
        x.len() > 0,
    ensures
        s[pos] == x[0],
{
    assert(s.subrange(pos, pos + x.len())[0] == x[0]);
}

/// A segment made of two parts splits into a segment for each.
pub(crate) proof fn lemma_seg_split(s: Seq<char>, pos: int, x: Seq<char>, y: Seq<char>)
    requires
        is_seg(s, pos, x + y),
    ensures
        is_seg(s, pos, x),
        is_seg(s, pos + x.len(), y),
{
    assert forall|i: int| 0 <= i < x.len() implies s.subrange(pos, pos + x.len())[i] == x[i] by {
        assert(s.subrange(pos, pos + (x + y).len())[i] == (x + y)[i]);
    }
    assert(s.subrange(pos, pos + x.len()) =~= x);
    assert forall|i: int|
        0 <= i < y.len() implies s.subrange(pos + x.len(), pos + x.len() + y.len())[i] == y[i] by {
        assert(s.subrange(pos, pos + (x + y).len())[x.len() + i] == (x + y)[x.len() + i]);
    }
    assert(s.subrange(pos + x.len(), pos + x.len() + y.len()) =~= y);
}

/// Advances past `lit` exactly when the text at `pos` spells it out.
pub(crate) fn p_lit(chars: &Vec<char>, pos: usize, lit: &str) -> (r: Option<usize>)
    ensures
        r matches Some(np) ==> pos <= np <= chars@.len() && np == pos + lit@.len(),
        r == if is_seg(chars@, pos as int, lit@) {
            Some((pos + lit@.len()) as usize)
        } else {
            None::<usize>
        },
{
    if pos > chars.len() {
        return None;
    }
    let n = lit.unicode_len();
    if n > chars.len() - pos {
        return None;
    }
    let mut k: usize = 0;
    while k < n
        invariant
            n == lit@.len(),
            pos + n <= chars@.len(),
            chars@.len() <= usize::MAX,
            k <= n,
            forall|j: int| 0 <= j < k ==> chars@[pos + j] == lit@[j],
        decreases n - k,
    {
        if chars[pos + k] != lit.get_char(k) {
            proof {
                if is_seg(chars@, pos as int, lit@) {
                    assert(chars@.subrange(pos as int, pos + lit@.len())[k as int] == lit@[k as int]);
                }
            }
            return None;
        }
        k = k + 1;
    }
    proof {
        assert(chars@.subrange(pos as int, pos + lit@.len()) =~= lit@);
    }
    Some(pos + n)
}

/// The value of a decimal digit character, and nothing of any other.
pub(crate) fn digit_of(c: char) -> (r: Option<u64>)
    ensures
        r == if is_digit_char(c) {
            Some(digit_val(c) as u64)
        } else {
            None::<u64>
        },
        r matches Some(d) ==> d < 10 && c == digit(d as int),
{
    match c {
        '0' => Some(0),
        '1' => Some(1),
        '2' => Some(2),
        '3' => Some(3),
        '4' => Some(4),
        '5' => Some(5),
        '6' => Some(6),
        '7' => Some(7),
        '8' => Some(8),
        '9' => Some(9),
        _ => None,
    }
}

/// Reads a quoted, escaped string. When the caller knows the text at `pos`
/// is the quoted form of `v`, the read returns exactly `v` and stops right
/// after the closing quote.
#[verifier::loop_isolation(false)]
pub(crate) fn p_string(
    chars: &Vec<char>,
    pos: usize,
    Ghost(hint): Ghost<Option<Seq<char>>>,
) -> (r: Option<(String, usize)>)
    ensures
        r matches Some((_, np)) ==> pos < np <= chars@.len(),
        hint matches Some(v) ==> (is_seg(chars@, pos as int, str_json(v)) ==> (r matches Some(
            (sv, np),
        ) && sv@ == v && np == pos + str_json(v).len())),
{
    let ghost active = match hint {
        Some(v) => is_seg(chars@, pos as int, str_json(v)),
        None => false,
    };
    let ghost vw: Seq<char> = match hint {
        Some(v) => v,
        None => Seq::empty(),
    };
    let ghost ew: int = escaped(vw).len() as int;
    proof {
        if active {
            assert(str_json(vw).len() == ew + 2);
            assert forall|j: int|
                0 <= j < str_json(vw).len() implies chars@[pos + j] == str_json(vw)[j] by {
                assert(chars@.subrange(pos as int, pos + str_json(vw).len())[j] == str_json(vw)[j]);
            }
            assert(str_json(vw)[0] == '"');
            assert forall|j: int| 0 <= j < ew implies str_json(vw)[1 + j] == escaped(vw)[j] by {
                assert((seq!['"'] + escaped(vw))[1 + j] == escaped(vw)[j]);
                assert(str_json(vw)[1 + j] == (seq!['"'] + escaped(vw))[1 + j]);
            }
            assert(str_json(vw)[1 + ew] == '"');
        }
    }
    if pos >= chars.len() {
        proof {
            if active {
                assert(false);
            }
        }
        return None;
    }
    if chars[pos] != '"' {
        proof {
            if active {
                assert(chars@[pos + 0] == str_json(vw)[0]);
                assert(false);
            }
        }
        return None;
    }
    let mut buf: Vec<char> = Vec::new();
    let mut i: usize = pos + 1;
    let ghost mut m: int = 0;
    loop
        invariant
            pos < i <= chars@.len(),
            active ==> (0 <= m <= vw.len() && buf@ == vw.take(m) && i == pos + 1 + escaped(
                vw.take(m),
            ).len()),
        decreases chars@.len() - i,
    {
        proof {
            if active {
                assert(vw.take(m) + vw.skip(m) =~= vw);
                crate::codec_laws::lemma_escaped_concat(vw.take(m), vw.skip(m));
                if m < vw.len() {
                    crate::codec_laws::lemma_escaped_head(vw.skip(m));
                    assert(vw.skip(m)[0] == vw[m]);
                }
            }
        }
        let ghost off: int = i - pos - 1;
        if i >= chars.len() {
            proof {
                if active {
                    assert(escaped(vw.take(m)).len() <= ew);
                    assert(i <= pos + 1 + ew);
                    assert(pos + 1 + ew < pos + str_json(vw).len());
                    assert(false);
                }
            }
            return None;
        }
        let c = chars[i];
        proof {
            if active {
                if m < vw.len() {
                    assert(escaped(vw)[off] == esc_char(vw[m])[0]) by {
                        assert(vw.skip(m).skip(1) =~= vw.skip(m + 1));
                        assert(escaped(vw) == escaped(vw.take(m)) + (esc_char(vw[m]) + escaped(
                            vw.skip(m + 1),
                        )));
                        assert(escaped(vw)[off] == (esc_char(vw[m]) + escaped(vw.skip(m + 1)))[0]);
                    }
                    assert(c == esc_char(vw[m])[0]);
                } else {
                    assert(vw.take(m) =~= vw);
                    assert(off == ew);
                    assert(c == '"');
                }
            }
        }
        if c == '"' {
            proof {
                if active {
                    if m < vw.len() {
                        assert(esc_char(vw[m])[0] != '"');
                        assert(false);
                    }
                    assert(buf@ == vw);
                    assert(i + 1 == pos + str_json(vw).len());
                }
            }
            return Some((string_from_chars(&buf), i + 1));
        }
        if c == '\\' {
            proof {
                if active {
                    assert(m < vw.len());
                    assert(vw[m] == '"' || vw[m] == '\\') by {
                        if !(vw[m] == '"' || vw[m] == '\\') {
                            assert(esc_char(vw[m])[0] == vw[m]);
                        }
                    }
                    assert(esc_char(vw[m]).len() == 2);
                    assert(escaped(vw.skip(m)).len() >= 2);
                    assert(i + 1 < pos + 1 + ew + 1);
                    assert(escaped(vw)[off + 1] == esc_char(vw[m])[1]) by {
                        assert(vw.skip(m).skip(1) =~= vw.skip(m + 1));
                        assert(escaped(vw) == escaped(vw.take(m)) + (esc_char(vw[m]) + escaped(
                            vw.skip(m + 1),
                        )));
                        assert(escaped(vw)[off + 1] == (esc_char(vw[m]) + escaped(
                            vw.skip(m + 1),
                        ))[1]);
                    }
                    assert(chars@[i + 1] == escaped(vw)[off + 1]);
                    assert(chars@[i + 1] == vw[m]);
                }
            }
            if i + 1 >= chars.len() {
                proof {
                    if active {
                        assert(false);
                    }
                }
                return None;
            }
            buf.push(chars[i + 1]);
            i = i + 2;
            proof {
                if active {
                    assert(vw.take(m).push(vw[m]) =~= vw.take(m + 1));
                    assert(vw.take(m + 1) =~= vw.take(m) + seq![vw[m]]);
                    crate::codec_laws::lemma_escaped_concat(vw.take(m), seq![vw[m]]);
                    assert(seq![vw[m]].drop_last() =~= Seq::<char>::empty());
                    assert(escaped(seq![vw[m]].drop_last()).len() == 0);
                    assert(seq![vw[m]].last() == vw[m]);
                    assert(escaped(seq![vw[m]]) =~= esc_char(vw[m]));
                    m = m + 1;
                }
            }
        } else {
            proof {
                if active {
                    assert(m < vw.len());
                    assert(!(vw[m] == '"' || vw[m] == '\\')) by {
                        if vw[m] == '"' || vw[m] == '\\' {
                            assert(esc_char(vw[m])[0] == '\\');
                        }
                    }
                    assert(c == vw[m]);
                }
            }
            buf.push(c);
            i = i + 1;
            proof {
                if active {
                    assert(vw.take(m).push(vw[m]) =~= vw.take(m + 1));
                    assert(vw.take(m + 1) =~= vw.take(m) + seq![vw[m]]);
                    crate::codec_laws::lemma_escaped_concat(vw.take(m), seq![vw[m]]);
                    assert(seq![vw[m]].drop_last() =~= Seq::<char>::empty());
                    assert(escaped(seq![vw[m]].drop_last()).len() == 0);
                    assert(seq![vw[m]].last() == vw[m]);
                    assert(escaped(seq![vw[m]]) =~= esc_char(vw[m]));
                    m = m + 1;
                }
            }
        }
    }
}

/// Reads a decimal integer, rejecting values over `u64::MAX`. When the
/// caller knows the text at `pos` is the decimal of `n`, followed by a
/// non-digit, the read returns exactly `n` and stops right after it.
#[verifier::loop_isolation(false)]
pub(crate) fn p_u64(chars: &Vec<char>, pos: usize, Ghost(hint): Ghost<Option<nat>>) -> (r: Option<
    (u64, usize),
>)
    ensures
        r matches Some((_, np)) ==> pos < np <= chars@.len(),
        hint matches Some(n) ==> ((n <= u64::MAX && is_seg(chars@, pos as int, dec_str(n))
            && stop_after(chars@, pos + dec_str(n).len())) ==> (r matches Some((v, np)) && v as nat
            == n && np == pos + dec_str(n).len())),
{
    let ghost active = match hint {
        Some(n) => n <= u64::MAX && is_seg(chars@, pos as int, dec_str(n)) && stop_after(
            chars@,
            pos + dec_str(n).len(),
        ),
        None => false,
    };
    let ghost nw: nat = match hint {
        Some(n) => n,
        None => 0,
    };
    let ghost lw: int = dec_str(nw).len() as int;
    proof {
        if active {
            lemma_dec_str_digits(nw);
            assert forall|j: int| 0 <= j < lw implies chars@[pos + j] == dec_str(nw)[j] by {
                assert(chars@.subrange(pos as int, pos + lw)[j] == dec_str(nw)[j]);
            }
        }
    }
    if pos >= chars.len() {
        proof {
            if active {
                assert(false);
            }
        }
        return None;
    }
    let first = match digit_of(chars[pos]) {
        Some(d) => d,
        None => {
            proof {
                if active {
                    assert(chars@[pos as int] == dec_str(nw)[0]);
                    assert(is_digit_char(chars@[pos as int]));
                    assert(false);
                }
            }
            return None
        },
    };
    let mut acc: u64 = first;
    let mut i: usize = pos + 1;
    proof {
        if active {
            assert(chars@[pos + 0] == dec_str(nw)[0]);
            assert(is_digit_char(dec_str(nw)[0]));
            assert(first == digit_val(chars@[pos as int]) as u64);
            assert(digit_val(chars@[pos as int]) <= 9);
            assert(acc as nat == digit_val(dec_str(nw)[0]));
            let t1 = dec_str(nw).take(1);
            assert(t1.drop_last() =~= Seq::<char>::empty());
            assert(digits_val(t1.drop_last()) == 0);
            assert(t1.last() == dec_str(nw)[0]);
            assert(digits_val(t1) == digit_val(dec_str(nw)[0]));
            assert(acc as nat == digits_val(dec_str(nw).take(1)));
        }
    }
    loop
        invariant
            pos < i <= chars@.len(),
            active ==> (i <= pos + lw && acc as nat == digits_val(dec_str(nw).take(i - pos))),
            active ==> (nw <= u64::MAX && is_seg(chars@, pos as int, dec_str(nw)) && stop_after(
                chars@,
                pos + lw,
            ) && lw == dec_str(nw).len() && (forall|j: int|
                0 <= j < lw ==> chars@[pos + j] == dec_str(nw)[j]) && (forall|j: int|
                0 <= j < lw ==> is_digit_char(#[trigger] dec_str(nw)[j]))),
        decreases chars@.len() - i,
    {
        if i >= chars.len() {
            proof {
                if active {
                    assert(i == pos + lw);
                    assert(dec_str(nw).take(lw) =~= dec_str(nw));
                    lemma_dec_str_val(nw);
                }
            }
            return Some((acc, i));
        }
        let d = match digit_of(chars[i]) {
            Some(d) => d,
            None => {
                proof {
                    if active {
                        if i < pos + lw {
                            assert(chars@[i as int] == dec_str(nw)[i - pos]);
                            assert(is_digit_char(chars@[i as int]));
                            assert(false);
                        }
                        assert(i == pos + lw);
                        assert(dec_str(nw).take(lw) =~= dec_str(nw));
                        lemma_dec_str_val(nw);
                    }
                }
                return Some((acc, i))
            },
        };
        proof {
            if active {
                if i == pos + lw {
                    assert(!is_digit_char(chars@[i as int]));
                    assert(false);
                }
                let t = dec_str(nw).take(i + 1 - pos);
                assert(t.drop_last() =~= dec_str(nw).take(i - pos));
                assert(t.last() == dec_str(nw)[i - pos]);
                assert(chars@[i as int] == dec_str(nw)[i - pos]);
                assert(d == digit_val(dec_str(nw)[i - pos]));
                assert(digits_val(t) == (acc as nat) * 10 + d);
                lemma_dec_str_prefix_val(nw, i + 1 - pos);
                assert((acc as nat) * 10 + d <= nw);
            }
        }
        if acc < 1844674407370955161 {
            acc = acc * 10 + d;
        } else if acc == 1844674407370955161 && d <= 5 {
            acc = acc * 10 + d;
        } else {
            proof {
                if active {
                    assert((acc as nat) * 10 + d > u64::MAX);
                    assert(false);
                }
            }
            return None;
        }
        i = i + 1;
    }
}

/// A cent amount's text ends here: the next character exists and is
/// neither a digit nor a decimal point.
pub(crate) open spec fn cents_stop(s: Seq<char>, e: int) -> bool {
    0 <= e < s.len() && !is_digit_char(s[e]) && s[e] != '.'
}

/// Reads a cent amount: whole currency units with up to two decimals. When
/// the caller knows the text at `pos` is the cent text of `c`, the read
/// returns exactly `c` and stops right after it.
pub(crate) fn p_cents(chars: &Vec<char>, pos: usize, Ghost(hint): Ghost<Option<nat>>) -> (r: Option<
    (u64, usize),
>)
    ensures
        r matches Some((_, np)) ==> pos < np <= chars@.len(),
        hint matches Some(c) ==> ((c <= u64::MAX && is_seg(chars@, pos as int, cents_str(c))
            && cents_stop(chars@, pos + cents_str(c).len())) ==> (r matches Some((v, np)) && v as nat
            == c && np == pos + cents_str(c).len())),
{
    let ghost active = match hint {
        Some(c) => c <= u64::MAX && is_seg(chars@, pos as int, cents_str(c)) && cents_stop(
            chars@,
            pos + cents_str(c).len(),
        ),
        None => false,
    };
    let ghost cw: nat = match hint {
        Some(c) => c,
        None => 0,
    };
    let ghost ww: nat = cw / 100;
    let ghost fw: nat = cw % 100;
    let ghost dlen: int = dec_str(ww).len() as int;
    let ghost tail: Seq<char> = if fw == 0 {
        Seq::empty()
    } else if fw % 10 == 0 {
        seq!['.', digit((fw / 10) as int)]
    } else {
        seq!['.', digit((fw / 10) as int), digit((fw % 10) as int)]
    };
    proof {
        if active {
            assert(cents_str(cw) =~= dec_str(ww) + tail);
            lemma_seg_split(chars@, pos as int, dec_str(ww), tail);
            lemma_dec_str_digits(ww);
            assert forall|j: int| 0 <= j < tail.len() implies chars@[pos + dlen + j] == tail[j] by {
                assert(chars@.subrange(pos + dlen, pos + dlen + tail.len())[j] == tail[j]);
            }
            if fw == 0 {
                assert(stop_after(chars@, pos + dlen));
            } else {
                assert(chars@[pos + dlen] == '.');
                assert(stop_after(chars@, pos + dlen));
            }
        }
    }
    let (whole, mut i) = match p_u64(
        chars,
        pos,
        Ghost(
            match hint {
                Some(c) => Some(c / 100),
                None => None,
            },
        ),
    ) {
        Some(x) => x,
        None => {
            proof {
                if active {
                    assert(false);
                }
            }
            return None
        },
    };
    proof {
        if active {
            assert(whole as nat == ww);
            assert(i == pos + dlen);
        }
    }
    let mut frac: u64 = 0;
    if i < chars.len() {
        if chars[i] == '.' {
            proof {
                if active {
                    assert(fw != 0) by {
                        if fw == 0 {
                            assert(cents_stop(chars@, pos + dlen));
                        }
                    }
                    assert(tail.len() >= 2);
                    assert(pos + dlen + tail.len() < chars@.len());
                    assert(chars@[i + 1] == tail[1]);
                    assert(is_digit_char(digit((fw / 10) as int)));
                    assert(digit_val(digit((fw / 10) as int)) == fw / 10);
                }
            }
            if i + 1 >= chars.len() {
                proof {
                    if active {
                        assert(false);
                    }
                }
                return None;
            }
            let d1 = match digit_of(chars[i + 1]) {
                Some(d) => d,
                None => {
                    proof {
                        if active {
                            assert(false);
                        }
                    }
                    return None
                },
            };
            proof {
                if active {
                    assert(d1 as nat == fw / 10);
                }
            }
            frac = d1 * 10;
            i = i + 2;
            if i < chars.len() {
                proof {
                    if active {
                        if fw % 10 == 0 {
                            assert(i == pos + cents_str(cw).len());
                            assert(!is_digit_char(chars@[i as int]));
                        } else {
                            assert(chars@[i as int] == tail[2]);
                            assert(is_digit_char(digit((fw % 10) as int)));
                            assert(digit_val(digit((fw % 10) as int)) == fw % 10);
                        }
                    }
                }
                match digit_of(chars[i]) {
                    Some(d2) => {
                        proof {
                            if active {
                                assert(fw % 10 != 0);
                                assert(d2 as nat == fw % 10);
                            }
                        }
                        frac = frac + d2;
                        i = i + 1;
                    },
                    None => (),
                }
            }
            proof {
                if active {
                    assert(frac as nat == fw);
                    assert(i == pos + cents_str(cw).len());
                }
            }
        }
    }
    proof {
        if active {
            assert(frac as nat == fw);
            assert(i == pos + cents_str(cw).len());
            assert(cw == ww * 100 + fw);
        }
    }
    if whole <= 184467440737095515 {
        Some((whole * 100 + frac, i))
    } else if whole == 184467440737095516 && frac <= 15 {
        Some((whole * 100 + frac, i))
    } else {
        proof {
            if active {
                assert(frac < 100);
                assert((whole as nat) * 100 + frac > u64::MAX);
                assert(false);
            }
        }
        None
    }
}

/// Reads `null` or a share count, completely on either canonical form.
pub(crate) fn p_opt_qty(
    chars: &Vec<char>,
    pos: usize,
    Ghost(hint): Ghost<Option<Option<u64>>>,
) -> (r: Option<(Option<u64>, usize)>)
    ensures
        r matches Some((_, np)) ==> pos <= np <= chars@.len(),
        hint matches Some(o) ==> ((match o {
            None => is_seg(chars@, pos as int, "null"@),
            Some(n) => is_seg(chars@, pos as int, dec_str(n as nat)) && stop_after(
                chars@,
                pos + dec_str(n as nat).len(),
            ),
        }) ==> (r matches Some((vo, np)) && vo == o && np == pos + opt_qty_json(o).len())),
{
    proof {
        reveal_strlit("null");
        match hint {
            Some(Some(n)) => {
                lemma_dec_str_digits(n as nat);
                if is_seg(chars@, pos as int, dec_str(n as nat)) && is_seg(
                    chars@,
                    pos as int,
                    "null"@,
                ) {
                    assert(chars@.subrange(pos as int, pos + dec_str(n as nat).len())[0]
                        == dec_str(n as nat)[0]);
                    assert(chars@.subrange(pos as int, pos + "null"@.len())[0] == 'n');
                    assert(is_digit_char('n'));
                    assert(false);
                }
            },
            _ => {},
        }
    }
    match p_lit(chars, pos, "null") {
        Some(np) => Some((None, np)),
        None => match p_u64(
            chars,
            pos,
            Ghost(
                match hint {
                    Some(Some(n)) => Some(n as nat),
                    _ => None,
                },
            ),
        ) {
            Some((v, np)) => Some((Some(v), np)),
            None => None,
        },
    }
}

/// Reads `null` or an amount, completely on either canonical form.
pub(crate) fn p_opt_amt(
    chars: &Vec<char>,
    pos: usize,
    Ghost(hint): Ghost<Option<Option<u64>>>,
) -> (r: Option<(Option<u64>, usize)>)
    ensures
        r matches Some((_, np)) ==> pos <= np <= chars@.len(),
        hint matches Some(o) ==> ((match o {
            None => is_seg(chars@, pos as int, "null"@),
            Some(c) => is_seg(chars@, pos as int, cents_str(c as nat)) && cents_stop(
                chars@,
                pos + cents_str(c as nat).len(),
            ),
        }) ==> (r matches Some((vo, np)) && vo == o && np == pos + opt_amt_json(o).len())),
{
    proof {
        reveal_strlit("null");
        match hint {
            Some(Some(c)) => {
                lemma_dec_str_digits((c as nat) / 100);
                assert(cents_str(c as nat)[0] == dec_str((c as nat) / 100)[0]);
                if is_seg(chars@, pos as int, cents_str(c as nat)) && is_seg(
                    chars@,
                    pos as int,
                    "null"@,
                ) {
                    assert(chars@.subrange(pos as int, pos + cents_str(c as nat).len())[0]
                        == cents_str(c as nat)[0]);
                    assert(chars@.subrange(pos as int, pos + "null"@.len())[0] == 'n');
                    assert(is_digit_char('n'));
                    assert(false);
                }
            },
            _ => {},
        }
    }
    match p_lit(chars, pos, "null") {
        Some(np) => Some((None, np)),
        None => match p_cents(
            chars,
            pos,
            Ghost(
                match hint {
                    Some(Some(c)) => Some(c as nat),
                    _ => None,
                },
            ),
        ) {
            Some((v, np)) => Some((Some(v), np)),
            None => None,
        },
    }
}

/// Reads a schedule, completely on any schedule's canonical form.
pub(crate) fn p_sched(chars: &Vec<char>, pos: usize, Ghost(hint): Ghost<Option<Schedule>>) -> (r:
    Option<(Schedule, usize)>)
    ensures
        r matches Some((_, np)) ==> pos <= np <= chars@.len(),
        hint matches Some(x) ==> (is_seg(chars@, pos as int, sched_json(x)) ==> (r matches Some(
            (sv, np),
        ) && sv == x && np == pos + sched_json(x).len())),
{
    let ghost active = match hint {
        Some(x) => is_seg(chars@, pos as int, sched_json(x)),
        None => false,
    };
    proof {
        reveal_strlit("\"daily\"");
        reveal_strlit("{\"weekly\":{\"day\":");
        reveal_strlit("{\"monthly\":{\"day\":");
        reveal_strlit("}}");
        if active {
            let x = hint->Some_0;
            assert forall|j: int|
                0 <= j < sched_json(x).len() implies chars@[pos + j] == sched_json(x)[j] by {
                assert(chars@.subrange(pos as int, pos + sched_json(x).len())[j]
                    == sched_json(x)[j]);
            }
            match x {
                Schedule::Daily => {
                    assert(chars@.subrange(pos as int, pos + sched_json(x).len())[0]
                        == sched_json(x)[0]);
                    assert(chars@[pos as int] == '"');
                },
                Schedule::Weekly { day } => {
                    let lit = "{\"weekly\":{\"day\":"@;
                    assert(sched_json(x) =~= lit + (dec_str(day as nat) + "}}"@));
                    lemma_seg_split(chars@, pos as int, lit, dec_str(day as nat) + "}}"@);
                    lemma_seg_split(
                        chars@,
                        pos + lit.len(),
                        dec_str(day as nat),
                        "}}"@,
                    );
                    assert(chars@[pos + lit.len() + dec_str(day as nat).len()] == '}') by {
                        assert(chars@.subrange(
                            pos + lit.len() + dec_str(day as nat).len(),
                            pos + lit.len() + dec_str(day as nat).len() + 2,
                        )[0] == '}');
                    }
                    assert(stop_after(chars@, pos + lit.len() + dec_str(day as nat).len()));
                    assert(chars@.subrange(pos as int, pos + sched_json(x).len())[0]
                        == sched_json(x)[0]);
                    assert((lit + (dec_str(day as nat) + "}}"@))[0] == lit[0]);
                    assert(chars@[pos as int] == '{');
                    assert(chars@.subrange(pos as int, pos + sched_json(x).len())[2]
                        == sched_json(x)[2]);
                    assert((lit + (dec_str(day as nat) + "}}"@))[2] == lit[2]);
                    assert(chars@[pos + 2] == 'w');
                },
                Schedule::Monthly { day } => {
                    let lit = "{\"monthly\":{\"day\":"@;
                    assert(sched_json(x) =~= lit + (dec_str(day as nat) + "}}"@));
                    lemma_seg_split(chars@, pos as int, lit, dec_str(day as nat) + "}}"@);
                    lemma_seg_split(
                        chars@,
                        pos + lit.len(),
                        dec_str(day as nat),
                        "}}"@,
                    );
                    assert(chars@[pos + lit.len() + dec_str(day as nat).len()] == '}') by {
                        assert(chars@.subrange(
                            pos + lit.len() + dec_str(day as nat).len(),
                            pos + lit.len() + dec_str(day as nat).len() + 2,
                        )[0] == '}');
                    }
                    assert(stop_after(chars@, pos + lit.len() + dec_str(day as nat).len()));
                    assert(chars@.subrange(pos as int, pos + sched_json(x).len())[0]
                        == sched_json(x)[0]);
                    assert((lit + (dec_str(day as nat) + "}}"@))[0] == lit[0]);
                    assert(chars@[pos as int] == '{');
                    assert(chars@.subrange(pos as int, pos + sched_json(x).len())[2]
                        == sched_json(x)[2]);
                    assert((lit + (dec_str(day as nat) + "}}"@))[2] == lit[2]);
                    assert(chars@[pos + 2] == 'm');
                },
            }
        }
    }
    if let Some(np) = p_lit(chars, pos, "\"daily\"") {
        proof {
            if active && !(hint->Some_0 is Daily) {
                assert(chars@.subrange(pos as int, pos + "\"daily\""@.len())[0] == '"');
                assert(false);
            }
        }
        return Some((Schedule::Daily, np));
    }
    if let Some(np) = p_lit(chars, pos, "{\"weekly\":{\"day\":") {
        proof {
            if active && (hint->Some_0 matches Schedule::Monthly { .. }) {
                assert(chars@.subrange(pos as int, pos + "{\"weekly\":{\"day\":"@.len())[2] == 'w');
                assert(false);
            }
        }
        let (v, np) = match p_u64(
            chars,
            np,
            Ghost(
                match hint {
                    Some(Schedule::Weekly { day }) => Some(day as nat),
                    _ => None,
                },
            ),
        ) {
            Some(x) => x,
            None => {
                proof {
                    if active {
                        assert(false);
                    }
                }
                return None
            },
        };
        if v > 255 {
            proof {
                if active {
                    assert(false);
                }
            }
            return None;
        }
        let np = match p_lit(chars, np, "}}") {
            Some(x) => x,
            None => {
                proof {
                    if active {
                        assert(false);
                    }
                }
                return None
            },
        };
        return Some((Schedule::Weekly { day: v as u8 }, np));
    }
    if let Some(np) = p_lit(chars, pos, "{\"monthly\":{\"day\":") {
        let (v, np) = match p_u64(
            chars,
            np,
            Ghost(
                match hint {
                    Some(Schedule::Monthly { day }) => Some(day as nat),
                    _ => None,
                },
            ),
        ) {
            Some(x) => x,
            None => {
                proof {
                    if active {
                        assert(false);
                    }
                }
                return None
            },
        };
        if v > 4294967295 {
            proof {
                if active {
                    assert(false);
                }
            }
            return None;
        }
        let np = match p_lit(chars, np, "}}") {
            Some(x) => x,
            None => {
                proof {
                    if active {
                        assert(false);
                    }
                }
                return None
            },
        };
        return Some((Schedule::Monthly { day: v as u32 }, np));
    }
    proof {
        if active {
            assert(false);
        }
    }
    None
}

/// Reads a command, completely on any command's canonical form.
pub(crate) fn p_cmd(chars: &Vec<char>, pos: usize, Ghost(hint): Ghost<Option<CommandV>>) -> (r:
    Option<(Command, usize)>)
    ensures
        r matches Some((_, np)) ==> pos <= np <= chars@.len(),
        hint matches Some(c) ==> (is_seg(chars@, pos as int, cmd_json(c)) ==> (r matches Some(
            (cv, np),
        ) && cv@ == c && np == pos + cmd_json(c).len())),
{
    let ghost active = match hint {
        Some(c) => is_seg(chars@, pos as int, cmd_json(c)),
        None => false,
    };
    proof {
        reveal_strlit("{\"order\":{\"account\":");
        reveal_strlit("{\"transfer\":{\"from\":");
        reveal_strlit(",\"symbol\":");
        reveal_strlit(",\"quantity\":");
        reveal_strlit(",\"amount\":");
        reveal_strlit(",\"side\":");
        reveal_strlit(",\"to\":");
        reveal_strlit("}}");
        if active {
            match hint->Some_0 {
                CommandV::Order(a) => {
                    let l1 = "{\"order\":{\"account\":"@;
                    let l2 = ",\"symbol\":"@;
                    let l3 = ",\"quantity\":"@;
                    let l4 = ",\"amount\":"@;
                    let l5 = ",\"side\":"@;
                    let e9 = str_json(a.side) + "}}"@;
                    let e8 = l5 + e9;
                    let e7 = opt_amt_json(a.amount) + e8;
                    let e6 = l4 + e7;
                    let e5 = opt_qty_json(a.quantity) + e6;
                    let e4 = l3 + e5;
                    let e3 = str_json(a.symbol) + e4;
                    let e2 = l2 + e3;
                    let e1 = str_json(a.account) + e2;
                    assert(cmd_json(hint->Some_0) =~= l1 + e1);
                    lemma_seg_split(chars@, pos as int, l1, e1);
                    let q1 = pos + l1.len();
                    lemma_seg_split(chars@, q1, str_json(a.account), e2);
                    let q2 = q1 + str_json(a.account).len();
                    lemma_seg_split(chars@, q2, l2, e3);
                    let q3 = q2 + l2.len();
                    lemma_seg_split(chars@, q3, str_json(a.symbol), e4);
                    let q4 = q3 + str_json(a.symbol).len();
                    lemma_seg_split(chars@, q4, l3, e5);
                    let q5 = q4 + l3.len();
                    lemma_seg_split(chars@, q5, opt_qty_json(a.quantity), e6);
                    let q6 = q5 + opt_qty_json(a.quantity).len();
                    lemma_seg_split(chars@, q6, l4, e7);
                    let q7 = q6 + l4.len();
                    lemma_seg_split(chars@, q7, opt_amt_json(a.amount), e8);
                    let q8 = q7 + opt_amt_json(a.amount).len();
                    lemma_seg_split(chars@, q8, l5, e9);
                    let q9 = q8 + l5.len();
                    lemma_seg_split(chars@, q9, str_json(a.side), "}}"@);
                    // the comma after each optional field stops a decimal read
                    assert(chars@[q6] == ',') by {
                        assert(chars@.subrange(q6, q6 + l4.len())[0] == l4[0]);
                    }
                    assert(stop_after(chars@, q6));
                    assert(chars@[q8] == ',') by {
                        assert(chars@.subrange(q8, q8 + l5.len())[0] == l5[0]);
                    }
                    assert(cents_stop(chars@, q8));
                    assert(chars@[pos + 2] == 'o') by {
                        assert(chars@.subrange(pos as int, pos + l1.len())[2] == l1[2]);
                    }
                },
                CommandV::Transfer(t) => {
                    let l1 = "{\"transfer\":{\"from\":"@;
                    let l2 = ",\"to\":"@;
                    let l3 = ",\"amount\":"@;
                    let e5 = str_json(t.amount) + "}}"@;
                    let e4 = l3 + e5;
                    let e3 = str_json(t.to) + e4;
                    let e2 = l2 + e3;
                    let e1 = str_json(t.from) + e2;
                    assert(cmd_json(hint->Some_0) =~= l1 + e1);
                    lemma_seg_split(chars@, pos as int, l1, e1);
                    let q1 = pos + l1.len();
                    lemma_seg_split(chars@, q1, str_json(t.from), e2);
                    let q2 = q1 + str_json(t.from).len();
                    lemma_seg_split(chars@, q2, l2, e3);
                    let q3 = q2 + l2.len();
                    lemma_seg_split(chars@, q3, str_json(t.to), e4);
                    let q4 = q3 + str_json(t.to).len();
                    lemma_seg_split(chars@, q4, l3, e5);
                    let q5 = q4 + l3.len();
                    lemma_seg_split(chars@, q5, str_json(t.amount), "}}"@);
                    assert(chars@[pos + 2] == 't') by {
                        assert(chars@.subrange(pos as int, pos + l1.len())[2] == l1[2]);
                    }
                },
            }
        }
    }
    if let Some(np) = p_lit(chars, pos, "{\"order\":{\"account\":") {
        proof {
            if active && (hint->Some_0 matches CommandV::Transfer(_)) {
                assert(chars@.subrange(pos as int, pos + "{\"order\":{\"account\":"@.len())[2]
                    == 'o');
                assert(false);
            }
        }
        let (account, np) = match p_string(
            chars,
            np,
            Ghost(
                match hint {
                    Some(CommandV::Order(a)) => Some(a.account),
                    _ => None,
                },
            ),
        ) {
            Some(x) => x,
            None => {
                proof {
                    if active {
                        assert(false);
                    }
                }
                return None
            },
        };
        let np = match p_lit(chars, np, ",\"symbol\":") {
            Some(x) => x,
            None => {
                proof {
                    if active {
                        assert(false);
                    }
                }
                return None
            },
        };
        let (symbol, np) = match p_string(
            chars,
            np,
            Ghost(
                match hint {
                    Some(CommandV::Order(a)) => Some(a.symbol),
                    _ => None,
                },
            ),
        ) {
            Some(x) => x,
            None => {
                proof {
                    if active {
                        assert(false);
                    }
                }
                return None
            },
        };
        let np = match p_lit(chars, np, ",\"quantity\":") {
            Some(x) => x,
            None => {
                proof {
                    if active {
                        assert(false);
                    }
                }
                return None
            },
        };
        let (quantity, np) = match p_opt_qty(
            chars,
            np,
            Ghost(
                match hint {
                    Some(CommandV::Order(a)) => Some(a.quantity),
                    _ => None,
                },
            ),
        ) {
            Some(x) => x,
            None => {
                proof {
                    if active {
                        assert(false);
                    }
                }
                return None
            },
        };
        let np = match p_lit(chars, np, ",\"amount\":") {
            Some(x) => x,
            None => {
                proof {
                    if active {
                        assert(false);
                    }
                }
                return None
            },
        };
        let (amount, np) = match p_opt_amt(
            chars,
            np,
            Ghost(
                match hint {
                    Some(CommandV::Order(a)) => Some(a.amount),
                    _ => None,
                },
            ),
        ) {
            Some(x) => x,
            None => {
                proof {
                    if active {
                        assert(false);
                    }
                }
                return None
            },
        };
        let np = match p_lit(chars, np, ",\"side\":") {
            Some(x) => x,
            None => {
                proof {
                    if active {
                        assert(false);
                    }
                }
                return None
            },
        };
        let (side, np) = match p_string(
            chars,
            np,
            Ghost(
                match hint {
                    Some(CommandV::Order(a)) => Some(a.side),
                    _ => None,
                },
            ),
        ) {
            Some(x) => x,
            None => {
                proof {
                    if active {
                        assert(false);
                    }
                }
                return None
            },
        };
        let np = match p_lit(chars, np, "}}") {
            Some(x) => x,
            None => {
                proof {
                    if active {
                        assert(false);
                    }
                }
                return None
            },
        };
        return Some((
            Command::Order(OrderArgs { account, symbol, quantity, amount, side }),
            np,
        ));
    }
    if let Some(np) = p_lit(chars, pos, "{\"transfer\":{\"from\":") {
        let (from, np) = match p_string(
            chars,
            np,
            Ghost(
                match hint {
                    Some(CommandV::Transfer(t)) => Some(t.from),
                    _ => None,
                },
            ),
        ) {
            Some(x) => x,
            None => {
                proof {
                    if active {
                        assert(false);
                    }
                }
                return None
            },
        };
        let np = match p_lit(chars, np, ",\"to\":") {
            Some(x) => x,
            None => {
                proof {
                    if active {
                        assert(false);
                    }
                }
                return None
            },
        };
        let (to, np) = match p_string(
            chars,
            np,
            Ghost(
                match hint {
                    Some(CommandV::Transfer(t)) => Some(t.to),
                    _ => None,
                },
            ),
        ) {
            Some(x) => x,
            None => {
                proof {
                    if active {
                        assert(false);
                    }
                }
                return None
            },
        };
        let np = match p_lit(chars, np, ",\"amount\":") {
            Some(x) => x,
            None => {
                proof {
                    if active {
                        assert(false);
                    }
                }
                return None
            },
        };
        let (amount, np) = match p_string(
            chars,
            np,
            Ghost(
                match hint {
                    Some(CommandV::Transfer(t)) => Some(t.amount),
                    _ => None,
                },
            ),
        ) {
            Some(x) => x,
            None => {
                proof {
                    if active {
                        assert(false);
                    }
                }
                return None
            },
        };
        let np = match p_lit(chars, np, "}}") {
            Some(x) => x,
            None => {
                proof {
                    if active {
                        assert(false);
                    }
                }
                return None
            },
        };
        return Some((Command::Transfer(Transfer { from, to, amount }), np));
    }
    proof {
        if active {
            assert(false);
        }
    }
    None
}

/// A job value every stored job satisfies: its last run is in range.
pub open spec fn job_view_wf(j: JobV) -> bool {
    0 <= j.last_run <= TS_MAX
}

/// Reads one job record, rejecting a last run outside the supported range;
/// complete on the canonical form of any in-range job.
pub(crate) fn p_job(chars: &Vec<char>, pos: usize, Ghost(hint): Ghost<Option<JobV>>) -> (r: Option<
    (Job, usize),
>)
    ensures
        r matches Some((j, np)) ==> pos < np <= chars@.len() && j.wf(),
        hint matches Some(jv) ==> ((job_view_wf(jv) && is_seg(chars@, pos as int, job_json(jv)))
            ==> (r matches Some((j, np)) && j@ == jv && np == pos + job_json(jv).len())),
{
    let ghost active = match hint {
        Some(jv) => job_view_wf(jv) && is_seg(chars@, pos as int, job_json(jv)),
        None => false,
    };
    proof {
        reveal_strlit("{\"id\":");
        reveal_strlit(",\"schedule\":");
        reveal_strlit(",\"last_run\":");
        reveal_strlit(",\"command\":");
        reveal_strlit("}");
        if active {
            let jv = hint->Some_0;
            let l1 = "{\"id\":"@;
            let l2 = ",\"schedule\":"@;
            let l3 = ",\"last_run\":"@;
            let l4 = ",\"command\":"@;
            let e7 = cmd_json(jv.command) + "}"@;
            let e6 = l4 + e7;
            let e5 = dec_str(jv.last_run as nat) + e6;
            let e4 = l3 + e5;
            let e3 = sched_json(jv.schedule) + e4;
            let e2 = l2 + e3;
            let e1 = str_json(jv.id) + e2;
            assert(job_json(jv) =~= l1 + e1);
            lemma_seg_split(chars@, pos as int, l1, e1);
            let q1 = pos + l1.len();
            lemma_seg_split(chars@, q1, str_json(jv.id), e2);
            let q2 = q1 + str_json(jv.id).len();
            lemma_seg_split(chars@, q2, l2, e3);
            let q3 = q2 + l2.len();
            lemma_seg_split(chars@, q3, sched_json(jv.schedule), e4);
            let q4 = q3 + sched_json(jv.schedule).len();
            lemma_seg_split(chars@, q4, l3, e5);
            let q5 = q4 + l3.len();
            lemma_seg_split(chars@, q5, dec_str(jv.last_run as nat), e6);
            let q6 = q5 + dec_str(jv.last_run as nat).len();
            lemma_seg_split(chars@, q6, l4, e7);
            let q7 = q6 + l4.len();
            lemma_seg_split(chars@, q7, cmd_json(jv.command), "}"@);
            assert(chars@[q6] == ',') by {
                assert(chars@.subrange(q6, q6 + l4.len())[0] == l4[0]);
            }
            assert(stop_after(chars@, q6));
        }
    }
    let np = match p_lit(chars, pos, "{\"id\":") {
        Some(x) => x,
        None => {
            proof {
                if active {
                    assert(false);
                }
            }
            return None
        },
    };
    let (id, np) = match p_string(
        chars,
        np,
        Ghost(
            match hint {
                Some(jv) => Some(jv.id),
                None => None,
            },
        ),
    ) {
        Some(x) => x,
        None => {
            proof {
                if active {
                    assert(false);
                }
            }
            return None
        },
    };
    let np = match p_lit(chars, np, ",\"schedule\":") {
        Some(x) => x,
        None => {
            proof {
                if active {
                    assert(false);
                }
            }
            return None
        },
    };
    let (schedule, np) = match p_sched(
        chars,
        np,
        Ghost(
            match hint {
                Some(jv) => Some(jv.schedule),
                None => None,
            },
        ),
    ) {
        Some(x) => x,
        None => {
            proof {
                if active {
                    assert(false);
                }
            }
            return None
        },
    };
    let np = match p_lit(chars, np, ",\"last_run\":") {
        Some(x) => x,
        None => {
            proof {
                if active {
                    assert(false);
                }
            }
            return None
        },
    };
    let (last_run, np) = match p_u64(
        chars,
        np,
        Ghost(
            match hint {
                Some(jv) => Some(jv.last_run as nat),
                None => None,
            },
        ),
    ) {
        Some(x) => x,
        None => {
            proof {
                if active {
                    assert(false);
                }
            }
            return None
        },
    };
    if last_run > TS_MAX as u64 {
        proof {
            if active {
                assert(false);
            }
        }
        return None;
    }
    let np = match p_lit(chars, np, ",\"command\":") {
        Some(x) => x,
        None => {
            proof {
                if active {
                    assert(false);
                }
            }
            return None
        },
    };
    let (command, np) = match p_cmd(
        chars,
        np,
        Ghost(
            match hint {
                Some(jv) => Some(jv.command),
                None => None,
            },
        ),
    ) {
        Some(x) => x,
        None => {
            proof {
                if active {
                    assert(false);
                }
            }
            return None
        },
    };
    let np = match p_lit(chars, np, "}") {
        Some(x) => x,
        None => {
            proof {
                if active {
                    assert(false);
                }
            }
            return None
        },
    };
    let job = Job { id, schedule, last_run: last_run as i64, command };
    proof {
        if active {
            assert(job@ == hint->Some_0);
        }
    }
    Some((job, np))
}

/// Every stored job value has an in-range last run.
pub open spec fn job_views_wf(l: Seq<JobV>) -> bool {
    forall|i: int| 0 <= i < l.len() ==> job_view_wf(#[trigger] l[i])
}

/// Reads a whole job array, demanding that it spans the entire text;
/// complete on the canonical encoding of any in-range job list.
pub(crate) fn p_jobs_array(chars: &Vec<char>) -> (r: Option<Vec<Job>>)
    ensures
        r matches Some(l) ==> jobs_wf(l@),
        (exists|l: Seq<JobV>| job_views_wf(l) && chars@ == jobs_json(l)) ==> (r matches Some(out)
            && jobs_json(job_views(out@)) == chars@),
{
    let ghost canonical = exists|l: Seq<JobV>| job_views_wf(l) && chars@ == jobs_json(l);
    let ghost lw: Seq<JobV> = if canonical {
        choose|l: Seq<JobV>| job_views_wf(l) && chars@ == jobs_json(l)
    } else {
        Seq::empty()
    };
    proof {
        reveal_strlit("[");
        if canonical {
            assert(jobs_json(lw) =~= "["@ + (jobs_inner(lw) + seq![']']));
            assert(chars@.subrange(0, chars@.len() as int) =~= chars@);
            assert(is_seg(chars@, 0, "["@ + (jobs_inner(lw) + seq![']'])));
            lemma_seg_split(chars@, 0, "["@, jobs_inner(lw) + seq![']']);
            if lw.len() > 0 {
                crate::codec_laws::lemma_inner_head(lw);
                crate::codec_laws::lemma_job_json_head(lw[0]);
            }
        }
    }
    let mut pos = match p_lit(chars, 0, "[") {
        Some(x) => x,
        None => {
            proof {
                if canonical {
                    assert(false);
                }
            }
            return None
        },
    };
    let mut jobs: Vec<Job> = Vec::new();
    if pos < chars.len() {
        if chars[pos] == ']' {
            proof {
                if canonical && lw.len() > 0 {
                    assert(chars@[1] == (jobs_inner(lw) + seq![']'])[0]) by {
                        assert(chars@.subrange(1, 1 + (jobs_inner(lw) + seq![']']).len() as int)[0]
                            == (jobs_inner(lw) + seq![']'])[0]);
                    }
                    assert((jobs_inner(lw) + seq![']'])[0] == job_json(lw[0])[0]) by {
                        assert(jobs_inner(lw) == job_json(lw[0]) + crate::codec_laws::sep_tail(
                            lw.skip(1),
                        ));
                    }
                    assert(false);
                }
            }
            if pos + 1 == chars.len() {
                proof {
                    if canonical {
                        assert(job_views(jobs@) =~= lw);
                        assert(jobs_json(job_views(jobs@)) == chars@);
                    }
                }
                return Some(jobs);
            }
            proof {
                if canonical {
                    assert(chars@.len() == 1 + (jobs_inner(lw) + seq![']']).len());
                    assert(false);
                }
            }
            return None;
        }
    }
    proof {
        if canonical {
            if lw.len() == 0 {
                assert(chars@.len() == 2);
                assert(chars@[1] == (jobs_inner(lw) + seq![']'])[0]) by {
                    assert(chars@.subrange(1, 2)[0] == (jobs_inner(lw) + seq![']'])[0]);
                }
                assert(false);
            }
        }
    }
    proof {
        if canonical {
            assert(jobs_inner(lw) + seq![']'] =~= job_json(lw[0]) + (crate::codec_laws::sep_tail(
                lw.skip(1),
            ) + seq![']']));
            lemma_seg_split(
                chars@,
                1,
                job_json(lw[0]),
                crate::codec_laws::sep_tail(lw.skip(1)) + seq![']'],
            );
            assert(pos == 1);
            assert(job_views(jobs@) =~= lw.take(0));
        }
    }
    p_jobs_tail(chars, pos, jobs, Ghost(canonical), Ghost(lw))
}

/// Stepping past a comma-led job record: how the remaining text splits.
proof fn lemma_jobs_step(s: Seq<char>, pos: int, lw: Seq<JobV>, k: int)
    requires
        0 <= k,
        k + 1 < lw.len(),
        is_seg(s, pos, crate::codec_laws::sep_tail(lw.skip(k + 1)) + seq![']']),
    ensures
        s[pos] == ',',
        is_seg(s, pos + 1, job_json(lw[k + 1])),
        is_seg(
            s,
            pos + 1 + job_json(lw[k + 1]).len(),
            crate::codec_laws::sep_tail(lw.skip(k + 2)) + seq![']'],
        ),
        (crate::codec_laws::sep_tail(lw.skip(k + 1)) + seq![']']).len() == 1 + job_json(
            lw[k + 1],
        ).len() + (crate::codec_laws::sep_tail(lw.skip(k + 2)) + seq![']']).len(),
{
    let st = crate::codec_laws::sep_tail(lw.skip(k + 1));
    assert(lw.skip(k + 1).len() > 0);
    assert(lw.skip(k + 1)[0] == lw[k + 1]);
    assert(lw.skip(k + 1).skip(1) =~= lw.skip(k + 2));
    assert(st == seq![','] + job_json(lw[k + 1]) + crate::codec_laws::sep_tail(lw.skip(k + 2)));
    lemma_seg_head(s, pos, st + seq![']']);
    assert((st + seq![']'])[0] == ',');
    assert(st + seq![']'] =~= seq![','] + (job_json(lw[k + 1]) + (crate::codec_laws::sep_tail(
        lw.skip(k + 2),
    ) + seq![']'])));
    lemma_seg_split(
        s,
        pos,
        seq![','],
        job_json(lw[k + 1]) + (crate::codec_laws::sep_tail(lw.skip(k + 2)) + seq![']']),
    );
    lemma_seg_split(
        s,
        pos + 1,
        job_json(lw[k + 1]),
        crate::codec_laws::sep_tail(lw.skip(k + 2)) + seq![']'],
    );
}

/// After the last record only the closing bracket remains.
proof fn lemma_jobs_end(s: Seq<char>, pos: int, lw: Seq<JobV>, k: int)
    requires
        k + 1 == lw.len(),
        is_seg(s, pos, crate::codec_laws::sep_tail(lw.skip(k + 1)) + seq![']']),
        pos + (crate::codec_laws::sep_tail(lw.skip(k + 1)) + seq![']']).len() == s.len(),
    ensures
        s[pos] == ']',
        pos + 1 == s.len(),
{
    assert(lw.skip(k + 1).len() == 0);
    assert(crate::codec_laws::sep_tail(lw.skip(k + 1)).len() == 0);
    assert(crate::codec_laws::sep_tail(lw.skip(k + 1)) + seq![']'] =~= seq![']']);
    lemma_seg_head(s, pos, seq![']']);
}

/// Reads the records of a job array from the first one on, demanding that
/// the text ends right after the closing bracket.
fn p_jobs_tail(
    chars: &Vec<char>,
    start: usize,
    jobs: Vec<Job>,
    Ghost(canonical): Ghost<bool>,
    Ghost(lw): Ghost<Seq<JobV>>,
) -> (r: Option<Vec<Job>>)
    requires
        start <= chars@.len(),
        jobs_wf(jobs@),
        canonical ==> (chars@ == jobs_json(lw) && job_views_wf(lw) && lw.len() >= 1 && job_views(
            jobs@,
        ) == lw.take(0) && is_seg(chars@, start as int, job_json(lw[0])) && is_seg(
            chars@,
            start + job_json(lw[0]).len(),
            crate::codec_laws::sep_tail(lw.skip(1)) + seq![']'],
        ) && start + job_json(lw[0]).len() + (crate::codec_laws::sep_tail(lw.skip(1))
            + seq![']']).len() == chars@.len()),
    ensures
        r matches Some(l) ==> jobs_wf(l@),
        canonical ==> (r matches Some(out) && jobs_json(job_views(out@)) == chars@),
{
    let mut jobs = jobs;
    let mut pos = start;
    let ghost mut k: int = 0;
    loop
        invariant
            pos <= chars@.len(),
            jobs_wf(jobs@),
            canonical ==> (chars@ == jobs_json(lw) && job_views_wf(lw) && 0 <= k < lw.len()
                && job_views(jobs@) == lw.take(k) && is_seg(chars@, pos as int, job_json(lw[k]))
                && is_seg(
                chars@,
                pos + job_json(lw[k]).len(),
                crate::codec_laws::sep_tail(lw.skip(k + 1)) + seq![']'],
            ) && pos + job_json(lw[k]).len() + (crate::codec_laws::sep_tail(lw.skip(k + 1))
                + seq![']']).len() == chars@.len()),
        decreases chars@.len() - pos,
    {
        match p_job(
            chars,
            pos,
            Ghost(
                if canonical {
                    Some(lw[k])
                } else {
                    None
                },
            ),
        ) {
            None => {
                proof {
                    if canonical {
                        assert(job_view_wf(lw[k]));
                        assert(false);
                    }
                }
                return None
            },
            Some((job, np)) => {
                proof {
                    if canonical {
                        assert(job@ == lw[k]);
                        assert(job_views(jobs@.push(job)) =~= lw.take(k + 1));
                    }
                }
                jobs.push(job);
                pos = np;
            },
        }
        proof {
            if canonical {
                if k + 1 == lw.len() {
                    lemma_jobs_end(chars@, pos as int, lw, k);
                } else {
                    lemma_jobs_step(chars@, pos as int, lw, k);
                }
            }
        }
        if pos >= chars.len() {
            proof {
                if canonical {
                    assert(false);
                }
            }
            return None;
        }
        let c = chars[pos];
        if c == ']' {
            proof {
                if canonical {
                    assert(k + 1 == lw.len()) by {
                        if k + 1 < lw.len() {
                            assert(chars@[pos as int] == ',');
                        }
                    }
                }
            }
            if pos + 1 == chars.len() {
                proof {
                    if canonical {
                        assert(job_views(jobs@) =~= lw);
                        assert(jobs_json(job_views(jobs@)) == chars@);
                    }
                }
                return Some(jobs);
            }
            proof {
                if canonical {
                    assert(false);
                }
            }
            return None;
        }
        if c != ',' {
            proof {
                if canonical {
                    assert(false);
                }
            }
            return None;
        }
        pos = pos + 1;
        proof {
            if canonical {
                assert(k + 1 < lw.len()) by {
                    if k + 1 == lw.len() {
                        assert(chars@[pos - 1] == ']');
                    }
                }
                k = k + 1;
            }
        }
    }
}

/// Deserializes a job list. A candidate reading is accepted only if writing
/// it back out reproduces the input exactly, so a successful result is the
/// one list whose encoding the input is; and on the encoding of any
/// in-range list, the read succeeds.
pub fn parse_jobs(content: &str) -> (r: Option<Vec<Job>>)
    ensures
        r matches Some(l) ==> content@ == jobs_json(job_views(l@)) && jobs_wf(l@),
        (exists|l: Seq<JobV>| job_views_wf(l) && content@ == jobs_json(l)) ==> r is Some,
{
    let ghost canonical = exists|l: Seq<JobV>| job_views_wf(l) && content@ == jobs_json(l);
    let chars = to_char_vec(content);
    let candidate = match p_jobs_array(&chars) {
        Some(l) => l,
        None => {
            proof {
                if canonical {
                    assert(false);
                }
            }
            return None
        },
    };
    proof {
        if canonical {
            assert(jobs_json(job_views(candidate@)) == content@);
        }
    }
    let reemitted = save_jobs(&candidate);
    let owned = content.to_owned();
    if reemitted == owned {
        Some(candidate)
    } else {
        proof {
            if canonical {
                assert(false);
            }
        }
        None
    }
}

/// The text written for a well-formed job list is an encoding the loader
/// owes success on: saving and then loading can never fail, and by
/// [`crate::codec_laws::lemma_jobs_json_injective`] only the saved list can
/// come back.
pub proof fn lemma_saved_text_loads(jobs: Seq<Job>)
    requires
        jobs_wf(jobs),
    ensures
        job_views_wf(job_views(jobs)),
        exists|l: Seq<JobV>| job_views_wf(l) && jobs_json(job_views(jobs)) == jobs_json(l),
        !is_blank(jobs_json(job_views(jobs))),
        crate::codec_laws::views_last_run_ok(job_views(jobs)),
{
    assert forall|i: int| 0 <= i < job_views(jobs).len() implies job_view_wf(
        #[trigger] job_views(jobs)[i],
    ) by {
        assert(jobs[i].wf());
    }
    assert(job_views_wf(job_views(jobs)) && jobs_json(job_views(jobs)) == jobs_json(
        job_views(jobs),
    ));
    assert(jobs_json(job_views(jobs))[0] == '[');
    assert(!is_blank(jobs_json(job_views(jobs))));
    assert forall|i: int|
        0 <= i < job_views(jobs).len() implies (#[trigger] job_views(jobs)[i]).last_run >= 0 by {
        assert(job_view_wf(job_views(jobs)[i]));
    }
}

/// Loads the job store from what the backing file held: no file at all or a
/// blank file is an empty store; the encoding of any in-range job list
/// loads to that list; anything else is malformed.
pub fn load_jobs(content: Option<&str>) -> (r: Result<Vec<Job>, PersistenceError>)
    ensures
        content is None ==> (r matches Ok(l) && l@.len() == 0),
        content matches Some(s) ==> (if is_blank(s@) {
            r matches Ok(l) && l@.len() == 0
        } else {
            match r {
                Ok(l) => s@ == jobs_json(job_views(l@)),
                Err(e) => e == PersistenceError::Malformed,
            }
        }),
        content matches Some(s) ==> ((exists|l: Seq<JobV>| job_views_wf(l) && s@ == jobs_json(l))
            ==> r is Ok),
        r matches Ok(l) ==> jobs_wf(l@),
{
    match content {
        None => Ok(Vec::new()),
        Some(s) => {
            if text_is_blank(s) {
                return Ok(Vec::new());
            }
            match parse_jobs(s) {
                Some(l) => Ok(l),
                None => Err(PersistenceError::Malformed),
            }
        },
    }
}

} // verus!
