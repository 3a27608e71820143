//! The round-trip laws of the stored formats.
//!
//! The writers emit exactly [`jobs_json`] and [`history_json`]; the loaders
//! owe success on any such encoding and only accept text that is exactly
//! the encoding of what they return. The missing piece, proved here, is
//! that no two lists share an encoding: together, loading a saved list
//! gives back exactly the list that was saved.

use vstd::prelude::*;

use crate::codec::{
    cmd_json, esc_char, escaped, job_json, jobs_inner, jobs_json, opt_amt_json, opt_qty_json,
    order_json, sched_json, str_json, transfer_json,
};
use crate::history::{
    args_json, fill_json, fills_inner, fsep_tail, history_json, lemma_fill_json_head,
    lemma_fills_inner_head,
};
use crate::model::{CommandV, JobV, OrderArgsV, Schedule, TransferV};
use crate::numstr::{cents_str, dec_str, digit, is_digit_char, lemma_dec_str_digits};
use crate::orders::OrderPassedV;

verus! {

/// How many digit characters the text starts with.
pub open spec fn digit_prefix_len(s: Seq<char>) -> nat
    decreases s.len(),
{
    if s.len() > 0 && is_digit_char(s[0]) {
        1 + digit_prefix_len(s.skip(1))
    } else {
        0
    }
}

/// All-digit text followed by a non-digit head pins the digit prefix.
proof fn lemma_digit_prefix_of_concat(x: Seq<char>, r: Seq<char>)
    requires
        forall|i: int| 0 <= i < x.len() ==> is_digit_char(#[trigger] x[i]),
        r.len() > 0,
        !is_digit_char(r[0]),
    ensures
        digit_prefix_len(x + r) == x.len(),
    decreases x.len(),
{
    if x.len() == 0 {
        assert(x + r =~= r);
    } else {
        assert((x + r)[0] == x[0]);
        assert((x + r).skip(1) =~= x.skip(1) + r);
        lemma_digit_prefix_of_concat(x.skip(1), r);
    }
}

/// No two numbers share their decimal text.
proof fn lemma_dec_str_inj(n1: nat, n2: nat)
    requires
        dec_str(n1) == dec_str(n2),
    ensures
        n1 == n2,
    decreases n1,
{
    lemma_dec_str_digits(n1);
    lemma_dec_str_digits(n2);
    if n1 < 10 && n2 < 10 {
        assert(dec_str(n1)[0] == digit(n1 as int));
        assert(dec_str(n2)[0] == digit(n2 as int));
    } else if n1 >= 10 && n2 >= 10 {
        let p1 = dec_str(n1 / 10);
        let p2 = dec_str(n2 / 10);
        assert(dec_str(n1).last() == digit((n1 % 10) as int));
        assert(dec_str(n2).last() == digit((n2 % 10) as int));
        assert(n1 % 10 == n2 % 10);
        assert(dec_str(n1).drop_last() =~= p1);
        assert(dec_str(n2).drop_last() =~= p2);
        lemma_dec_str_inj(n1 / 10, n2 / 10);
    } else {
        // One text is a single digit, the other at least two characters.
        assert(false);
    }
}

/// Decimal text is a prefix code when followed by a non-digit: equal texts
/// split into equal numbers and equal rests.
proof fn lemma_num_prefix(n1: nat, n2: nat, r1: Seq<char>, r2: Seq<char>)
    requires
        dec_str(n1) + r1 == dec_str(n2) + r2,
        r1.len() > 0,
        !is_digit_char(r1[0]),
        r2.len() > 0,
        !is_digit_char(r2[0]),
    ensures
        n1 == n2,
        r1 == r2,
{
    lemma_dec_str_digits(n1);
    lemma_dec_str_digits(n2);
    lemma_digit_prefix_of_concat(dec_str(n1), r1);
    lemma_digit_prefix_of_concat(dec_str(n2), r2);
    let s = dec_str(n1) + r1;
    assert(dec_str(n1).len() == dec_str(n2).len());
    assert(dec_str(n1) =~= s.take(dec_str(n1).len() as int));
    assert(dec_str(n2) =~= (dec_str(n2) + r2).take(dec_str(n2).len() as int));
    lemma_dec_str_inj(n1, n2);
    assert(r1 =~= s.skip(dec_str(n1).len() as int));
    assert(r2 =~= (dec_str(n2) + r2).skip(dec_str(n2).len() as int));
}

/// Escaped text also unfolds from the front, one escaped character at a
/// time.
pub(crate) proof fn lemma_escaped_head(s: Seq<char>)
    requires
        s.len() >= 1,
    ensures
        escaped(s) == esc_char(s[0]) + escaped(s.skip(1)),
    decreases s.len(),
{
    if s.len() == 1 {
        assert(s.drop_last().len() == 0);
        assert(s.skip(1).len() == 0);
        assert(escaped(s) =~= esc_char(s[0]) + escaped(s.skip(1)));
    } else {
        lemma_escaped_head(s.drop_last());
        assert(s.drop_last()[0] == s[0]);
        assert(s.drop_last().skip(1) =~= s.skip(1).drop_last());
        assert(s.skip(1).last() == s.last());
        assert(escaped(s.skip(1)) == escaped(s.skip(1).drop_last()) + esc_char(s.skip(1).last()));
        assert(escaped(s) == escaped(s.drop_last()) + esc_char(s.last()));
        assert(escaped(s) =~= esc_char(s[0]) + escaped(s.skip(1)));
    }
}

/// Escaping distributes over joining texts.
pub(crate) proof fn lemma_escaped_concat(a: Seq<char>, b: Seq<char>)
    ensures
        escaped(a + b) == escaped(a) + escaped(b),
    decreases b.len(),
{
    if b.len() == 0 {
        assert(a + b =~= a);
        assert(escaped(a) + escaped(b) =~= escaped(a));
    } else {
        assert((a + b).drop_last() =~= a + b.drop_last());
        lemma_escaped_concat(a, b.drop_last());
        assert((a + b).last() == b.last());
        assert(escaped(a + b) =~= escaped(a) + escaped(b));
    }
}

/// A quoted, escaped string is a prefix code: equal texts split into equal
/// strings and equal rests.
proof fn lemma_str_prefix(s1: Seq<char>, s2: Seq<char>, r1: Seq<char>, r2: Seq<char>)
    requires
        str_json(s1) + r1 == str_json(s2) + r2,
    ensures
        s1 == s2,
        r1 == r2,
    decreases s1.len(),
{
    // Strip the opening quote: the bodies plus closing quote plus rests
    // are equal.
    let t1 = escaped(s1) + seq!['"'] + r1;
    let t2 = escaped(s2) + seq!['"'] + r2;
    assert(seq!['"'] + t1 =~= str_json(s1) + r1);
    assert(seq!['"'] + t2 =~= str_json(s2) + r2);
    lemma_strip(seq!['"'], t1, t2);
    lemma_body_prefix(s1, s2, r1, r2);
}

/// The body of a quoted string — escaped characters up to the closing
/// quote — determines the string and what follows the quote.
proof fn lemma_body_prefix(s1: Seq<char>, s2: Seq<char>, r1: Seq<char>, r2: Seq<char>)
    requires
        escaped(s1) + seq!['"'] + r1 == escaped(s2) + seq!['"'] + r2,
    ensures
        s1 == s2,
        r1 == r2,
    decreases s1.len(),
{
    let t = escaped(s1) + seq!['"'] + r1;
    if s1.len() == 0 && s2.len() == 0 {
        assert(escaped(s1).len() == 0);
        assert(escaped(s2).len() == 0);
        assert(t =~= seq!['"'] + r1);
        assert(escaped(s2) + seq!['"'] + r2 =~= seq!['"'] + r2);
        lemma_strip(seq!['"'], r1, r2);
    } else if s1.len() == 0 {
        // The text starts with a quote on one side and with the first
        // escaped character of `s2` on the other; an escaped character
        // never starts with a quote.
        lemma_escaped_head(s2);
        assert(t[0] == '"');
        assert((escaped(s2) + seq!['"'] + r2)[0] == esc_char(s2[0])[0]);
        assert(esc_char(s2[0])[0] != '"');
        assert(false);
    } else if s2.len() == 0 {
        lemma_escaped_head(s1);
        assert(t[0] == esc_char(s1[0])[0]);
        assert((escaped(s2) + seq!['"'] + r2)[0] == '"');
        assert(esc_char(s1[0])[0] != '"');
        assert(false);
    } else {
        lemma_escaped_head(s1);
        lemma_escaped_head(s2);
        let c1 = s1[0];
        let c2 = s2[0];
        let e1 = c1 == '"' || c1 == '\\';
        let e2 = c2 == '"' || c2 == '\\';
        assert(t == esc_char(c1) + (escaped(s1.skip(1)) + seq!['"'] + r1)) by {
            assert(t =~= esc_char(c1) + (escaped(s1.skip(1)) + seq!['"'] + r1));
        }
        assert(escaped(s2) + seq!['"'] + r2 == esc_char(c2) + (escaped(s2.skip(1)) + seq!['"']
            + r2)) by {
            assert(escaped(s2) + seq!['"'] + r2 =~= esc_char(c2) + (escaped(s2.skip(1)) + seq!['"']
                + r2));
        }
        assert(t[0] == esc_char(c1)[0]);
        assert(t[0] == esc_char(c2)[0]);
        if e1 && e2 {
            assert(t[1] == esc_char(c1)[1]);
            assert(t[1] == esc_char(c2)[1]);
            assert(c1 == c2);
            lemma_strip(esc_char(c1), escaped(s1.skip(1)) + seq!['"'] + r1, escaped(s2.skip(1))
                + seq!['"'] + r2);
            lemma_body_prefix(s1.skip(1), s2.skip(1), r1, r2);
            assert(s1.len() == s2.len());
            assert forall|i: int| 0 <= i < s1.len() implies s1[i] == s2[i] by {
                if i > 0 {
                    assert(s1.skip(1)[i - 1] == s2.skip(1)[i - 1]);
                }
            }
            assert(s1 =~= s2);
        } else if !e1 && !e2 {
            assert(esc_char(c1)[0] == c1);
            assert(esc_char(c2)[0] == c2);
            assert(c1 == c2);
            lemma_strip(esc_char(c1), escaped(s1.skip(1)) + seq!['"'] + r1, escaped(s2.skip(1))
                + seq!['"'] + r2);
            lemma_body_prefix(s1.skip(1), s2.skip(1), r1, r2);
            assert(s1.len() == s2.len());
            assert forall|i: int| 0 <= i < s1.len() implies s1[i] == s2[i] by {
                if i > 0 {
                    assert(s1.skip(1)[i - 1] == s2.skip(1)[i - 1]);
                }
            }
            assert(s1 =~= s2);
        } else if e1 {
            // A backslash head against an unescaped character: that
            // character would have to be the backslash itself, which is
            // always escaped.
            assert(esc_char(c1)[0] == '\\');
            assert(esc_char(c2)[0] == c2);
            assert(c2 == '\\');
            assert(false);
        } else {
            assert(esc_char(c2)[0] == '\\');
            assert(esc_char(c1)[0] == c1);
            assert(c1 == '\\');
            assert(false);
        }
    }
}

/// Equal texts with one common prefix have equal remainders.
proof fn lemma_strip(x: Seq<char>, a: Seq<char>, b: Seq<char>)
    requires
        x + a == x + b,
    ensures
        a == b,
{
    assert(a =~= (x + a).skip(x.len() as int));
    assert(b =~= (x + b).skip(x.len() as int));
}

/// A cent amount's decimal text is a prefix code when what follows is
/// neither a digit nor a decimal point.
proof fn lemma_cents_prefix(c1: nat, c2: nat, r1: Seq<char>, r2: Seq<char>)
    requires
        cents_str(c1) + r1 == cents_str(c2) + r2,
        r1.len() > 0,
        !is_digit_char(r1[0]),
        r1[0] != '.',
        r2.len() > 0,
        !is_digit_char(r2[0]),
        r2[0] != '.',
    ensures
        c1 == c2,
        r1 == r2,
{
    let w1 = c1 / 100;
    let f1 = c1 % 100;
    let w2 = c2 / 100;
    let f2 = c2 % 100;
    // The fraction (if any) plus the rest, standing after the whole part.
    let tail1 = if f1 == 0 {
        r1
    } else if f1 % 10 == 0 {
        seq!['.', digit((f1 / 10) as int)] + r1
    } else {
        seq!['.', digit((f1 / 10) as int), digit((f1 % 10) as int)] + r1
    };
    let tail2 = if f2 == 0 {
        r2
    } else if f2 % 10 == 0 {
        seq!['.', digit((f2 / 10) as int)] + r2
    } else {
        seq!['.', digit((f2 / 10) as int), digit((f2 % 10) as int)] + r2
    };
    assert(dec_str(w1) + tail1 =~= cents_str(c1) + r1);
    assert(dec_str(w2) + tail2 =~= cents_str(c2) + r2);
    assert(tail1[0] == '.' || tail1[0] == r1[0]);
    assert(tail2[0] == '.' || tail2[0] == r2[0]);
    lemma_num_prefix(w1, w2, tail1, tail2);
    if f1 == 0 && f2 == 0 {
        assert(c1 == w1 * 100 + f1);
        assert(c2 == w2 * 100 + f2);
    } else if f1 == 0 {
        assert(tail1[0] == r1[0]);
        assert(tail2[0] == '.');
        assert(false);
    } else if f2 == 0 {
        assert(false);
    } else {
        // Both carry a fraction; the first fraction digits agree.
        assert(tail1[1] == digit((f1 / 10) as int));
        assert(tail2[1] == digit((f2 / 10) as int));
        assert(f1 / 10 == f2 / 10);
        if f1 % 10 == 0 && f2 % 10 == 0 {
            assert(r1 =~= tail1.skip(2));
            assert(r2 =~= tail2.skip(2));
            assert(c1 == w1 * 100 + f1);
            assert(c2 == w2 * 100 + f2);
        } else if f1 % 10 == 0 {
            assert(tail1[2] == r1[0]);
            assert(tail2[2] == digit((f2 % 10) as int));
            assert(false);
        } else if f2 % 10 == 0 {
            assert(tail1[2] == digit((f1 % 10) as int));
            assert(tail2[2] == r2[0]);
            assert(false);
        } else {
            assert(tail1[2] == digit((f1 % 10) as int));
            assert(tail2[2] == digit((f2 % 10) as int));
            assert(f1 % 10 == f2 % 10);
            assert(r1 =~= tail1.skip(3));
            assert(r2 =~= tail2.skip(3));
            assert(c1 == w1 * 100 + f1);
            assert(c2 == w2 * 100 + f2);
        }
    }
}

/// An optional share count (`null` or a decimal) is a prefix code before a
/// non-digit.
proof fn lemma_opt_qty_prefix(o1: Option<u64>, o2: Option<u64>, r1: Seq<char>, r2: Seq<char>)
    requires
        opt_qty_json(o1) + r1 == opt_qty_json(o2) + r2,
        r1.len() > 0,
        !is_digit_char(r1[0]),
        r2.len() > 0,
        !is_digit_char(r2[0]),
    ensures
        o1 == o2,
        r1 == r2,
{
    reveal_strlit("null");
    match (o1, o2) {
        (None, None) => {
            lemma_strip("null"@, r1, r2);
        },
        (Some(n1), Some(n2)) => {
            lemma_num_prefix(n1 as nat, n2 as nat, r1, r2);
        },
        (None, Some(n2)) => {
            lemma_dec_str_digits(n2 as nat);
            assert((opt_qty_json(o1) + r1)[0] == 'n');
            assert((opt_qty_json(o2) + r2)[0] == dec_str(n2 as nat)[0]);
            assert(false);
        },
        (Some(n1), None) => {
            lemma_dec_str_digits(n1 as nat);
            assert((opt_qty_json(o1) + r1)[0] == dec_str(n1 as nat)[0]);
            assert((opt_qty_json(o2) + r2)[0] == 'n');
            assert(false);
        },
    }
}

/// An optional amount (`null` or a cent amount) is a prefix code before a
/// character that is neither a digit nor a decimal point.
proof fn lemma_opt_amt_prefix(o1: Option<u64>, o2: Option<u64>, r1: Seq<char>, r2: Seq<char>)
    requires
        opt_amt_json(o1) + r1 == opt_amt_json(o2) + r2,
        r1.len() > 0,
        !is_digit_char(r1[0]),
        r1[0] != '.',
        r2.len() > 0,
        !is_digit_char(r2[0]),
        r2[0] != '.',
    ensures
        o1 == o2,
        r1 == r2,
{
    reveal_strlit("null");
    match (o1, o2) {
        (None, None) => {
            lemma_strip("null"@, r1, r2);
        },
        (Some(c1), Some(c2)) => {
            lemma_cents_prefix(c1 as nat, c2 as nat, r1, r2);
        },
        (None, Some(c2)) => {
            lemma_dec_str_digits((c2 as nat) / 100);
            assert(cents_str(c2 as nat)[0] == dec_str((c2 as nat) / 100)[0]);
            assert((opt_amt_json(o1) + r1)[0] == 'n');
            assert((opt_amt_json(o2) + r2)[0] == cents_str(c2 as nat)[0]);
            assert(false);
        },
        (Some(c1), None) => {
            lemma_dec_str_digits((c1 as nat) / 100);
            assert(cents_str(c1 as nat)[0] == dec_str((c1 as nat) / 100)[0]);
            assert((opt_amt_json(o1) + r1)[0] == cents_str(c1 as nat)[0]);
            assert((opt_amt_json(o2) + r2)[0] == 'n');
            assert(false);
        },
    }
}

/// A schedule's encoding is a prefix code.
proof fn lemma_sched_prefix(x1: Schedule, x2: Schedule, r1: Seq<char>, r2: Seq<char>)
    requires
        sched_json(x1) + r1 == sched_json(x2) + r2,
    ensures
        x1 == x2,
        r1 == r2,
{
    reveal_strlit("\"daily\"");
    reveal_strlit("{\"weekly\":{\"day\":");
    reveal_strlit("{\"monthly\":{\"day\":");
    reveal_strlit("}}");
    let t1 = sched_json(x1) + r1;
    let t2 = sched_json(x2) + r2;
    match (x1, x2) {
        (Schedule::Daily, Schedule::Daily) => {
            assert(t1 =~= "\"daily\""@ + r1);
            assert(t2 =~= "\"daily\""@ + r2);
            lemma_strip("\"daily\""@, r1, r2);
        },
        (Schedule::Weekly { day: d1 }, Schedule::Weekly { day: d2 }) => {
            let u1 = dec_str(d1 as nat) + ("}}"@ + r1);
            let u2 = dec_str(d2 as nat) + ("}}"@ + r2);
            assert(t1 =~= "{\"weekly\":{\"day\":"@ + u1);
            assert(t2 =~= "{\"weekly\":{\"day\":"@ + u2);
            lemma_strip("{\"weekly\":{\"day\":"@, u1, u2);
            assert(("}}"@ + r1)[0] == '}');
            lemma_num_prefix(d1 as nat, d2 as nat, "}}"@ + r1, "}}"@ + r2);
            lemma_strip("}}"@, r1, r2);
        },
        (Schedule::Monthly { day: d1 }, Schedule::Monthly { day: d2 }) => {
            let u1 = dec_str(d1 as nat) + ("}}"@ + r1);
            let u2 = dec_str(d2 as nat) + ("}}"@ + r2);
            assert(t1 =~= "{\"monthly\":{\"day\":"@ + u1);
            assert(t2 =~= "{\"monthly\":{\"day\":"@ + u2);
            lemma_strip("{\"monthly\":{\"day\":"@, u1, u2);
            assert(("}}"@ + r1)[0] == '}');
            lemma_num_prefix(d1 as nat, d2 as nat, "}}"@ + r1, "}}"@ + r2);
            lemma_strip("}}"@, r1, r2);
        },
        (Schedule::Daily, Schedule::Weekly { .. }) => {
            assert(t1[0] == '"' && t2[0] == '{');
            assert(false);
        },
        (Schedule::Daily, Schedule::Monthly { .. }) => {
            assert(t1[0] == '"' && t2[0] == '{');
            assert(false);
        },
        (Schedule::Weekly { .. }, Schedule::Daily) => {
            assert(t1[0] == '{' && t2[0] == '"');
            assert(false);
        },
        (Schedule::Monthly { .. }, Schedule::Daily) => {
            assert(t1[0] == '{' && t2[0] == '"');
            assert(false);
        },
        (Schedule::Weekly { .. }, Schedule::Monthly { .. }) => {
            assert(t1[2] == 'w' && t2[2] == 'm');
            assert(false);
        },
        (Schedule::Monthly { .. }, Schedule::Weekly { .. }) => {
            assert(t1[2] == 'm' && t2[2] == 'w');
            assert(false);
        },
    }
}

/// An order's encoding is a prefix code.
#[verifier::rlimit(100)]
proof fn lemma_order_prefix(a1: OrderArgsV, a2: OrderArgsV, r1: Seq<char>, r2: Seq<char>)
    requires
        order_json(a1) + r1 == order_json(a2) + r2,
    ensures
        a1 == a2,
        r1 == r2,
{
    reveal_strlit(",\"symbol\":");
    reveal_strlit(",\"quantity\":");
    reveal_strlit(",\"amount\":");
    reveal_strlit(",\"side\":");
    reveal_strlit("}}");
    let e1 = "}}"@ + r1;
    let q1 = str_json(a1.side) + e1;
    let p1 = ",\"side\":"@ + q1;
    let m1 = opt_amt_json(a1.amount) + p1;
    let z1 = ",\"amount\":"@ + m1;
    let y1 = opt_qty_json(a1.quantity) + z1;
    let x1 = ",\"quantity\":"@ + y1;
    let w1 = str_json(a1.symbol) + x1;
    let v1 = ",\"symbol\":"@ + w1;
    let u1 = str_json(a1.account) + v1;
    let e2 = "}}"@ + r2;
    let q2 = str_json(a2.side) + e2;
    let p2 = ",\"side\":"@ + q2;
    let m2 = opt_amt_json(a2.amount) + p2;
    let z2 = ",\"amount\":"@ + m2;
    let y2 = opt_qty_json(a2.quantity) + z2;
    let x2 = ",\"quantity\":"@ + y2;
    let w2 = str_json(a2.symbol) + x2;
    let v2 = ",\"symbol\":"@ + w2;
    let u2 = str_json(a2.account) + v2;
    assert(order_json(a1) + r1 =~= "{\"order\":{\"account\":"@ + u1);
    assert(order_json(a2) + r2 =~= "{\"order\":{\"account\":"@ + u2);
    lemma_strip("{\"order\":{\"account\":"@, u1, u2);
    lemma_str_prefix(a1.account, a2.account, v1, v2);
    lemma_strip(",\"symbol\":"@, w1, w2);
    lemma_str_prefix(a1.symbol, a2.symbol, x1, x2);
    lemma_strip(",\"quantity\":"@, y1, y2);
    assert(z1[0] == ',');
    assert(z2[0] == ',');
    lemma_opt_qty_prefix(a1.quantity, a2.quantity, z1, z2);
    lemma_strip(",\"amount\":"@, m1, m2);
    assert(p1[0] == ',');
    assert(p2[0] == ',');
    lemma_opt_amt_prefix(a1.amount, a2.amount, p1, p2);
    lemma_strip(",\"side\":"@, q1, q2);
    lemma_str_prefix(a1.side, a2.side, e1, e2);
    lemma_strip("}}"@, r1, r2);
}

/// A transfer's encoding is a prefix code.
proof fn lemma_transfer_prefix(t1: TransferV, t2: TransferV, r1: Seq<char>, r2: Seq<char>)
    requires
        transfer_json(t1) + r1 == transfer_json(t2) + r2,
    ensures
        t1 == t2,
        r1 == r2,
{
    reveal_strlit(",\"to\":");
    reveal_strlit(",\"amount\":");
    reveal_strlit("}}");
    let e1 = "}}"@ + r1;
    let q1 = str_json(t1.amount) + e1;
    let p1 = ",\"amount\":"@ + q1;
    let w1 = str_json(t1.to) + p1;
    let v1 = ",\"to\":"@ + w1;
    let u1 = str_json(t1.from) + v1;
    let e2 = "}}"@ + r2;
    let q2 = str_json(t2.amount) + e2;
    let p2 = ",\"amount\":"@ + q2;
    let w2 = str_json(t2.to) + p2;
    let v2 = ",\"to\":"@ + w2;
    let u2 = str_json(t2.from) + v2;
    assert(transfer_json(t1) + r1 =~= "{\"transfer\":{\"from\":"@ + u1);
    assert(transfer_json(t2) + r2 =~= "{\"transfer\":{\"from\":"@ + u2);
    lemma_strip("{\"transfer\":{\"from\":"@, u1, u2);
    lemma_str_prefix(t1.from, t2.from, v1, v2);
    lemma_strip(",\"to\":"@, w1, w2);
    lemma_str_prefix(t1.to, t2.to, p1, p2);
    lemma_strip(",\"amount\":"@, q1, q2);
    lemma_str_prefix(t1.amount, t2.amount, e1, e2);
    lemma_strip("}}"@, r1, r2);
}

/// A command's encoding is a prefix code: the kind shows in the opening
/// tag, and each kind's body is a prefix code.
proof fn lemma_cmd_prefix(c1: CommandV, c2: CommandV, r1: Seq<char>, r2: Seq<char>)
    requires
        cmd_json(c1) + r1 == cmd_json(c2) + r2,
    ensures
        c1 == c2,
        r1 == r2,
{
    reveal_strlit("{\"order\":{\"account\":");
    reveal_strlit("{\"transfer\":{\"from\":");
    match (c1, c2) {
        (CommandV::Order(a1), CommandV::Order(a2)) => {
            lemma_order_prefix(a1, a2, r1, r2);
        },
        (CommandV::Transfer(t1), CommandV::Transfer(t2)) => {
            lemma_transfer_prefix(t1, t2, r1, r2);
        },
        (CommandV::Order(_), CommandV::Transfer(_)) => {
            assert((cmd_json(c1) + r1)[2] == 'o');
            assert((cmd_json(c2) + r2)[2] == 't');
            assert(false);
        },
        (CommandV::Transfer(_), CommandV::Order(_)) => {
            assert((cmd_json(c1) + r1)[2] == 't');
            assert((cmd_json(c2) + r2)[2] == 'o');
            assert(false);
        },
    }
}

/// A job record's encoding is a prefix code, for jobs whose last run is not
/// before the epoch (as every stored job's is).
#[verifier::rlimit(100)]
proof fn lemma_job_prefix(j1: JobV, j2: JobV, r1: Seq<char>, r2: Seq<char>)
    requires
        job_json(j1) + r1 == job_json(j2) + r2,
        j1.last_run >= 0,
        j2.last_run >= 0,
    ensures
        j1 == j2,
        r1 == r2,
{
    reveal_strlit(",\"schedule\":");
    reveal_strlit(",\"last_run\":");
    reveal_strlit(",\"command\":");
    reveal_strlit("}");
    let e1 = "}"@ + r1;
    let q1 = cmd_json(j1.command) + e1;
    let p1 = ",\"command\":"@ + q1;
    let m1 = dec_str(j1.last_run as nat) + p1;
    let z1 = ",\"last_run\":"@ + m1;
    let y1 = sched_json(j1.schedule) + z1;
    let x1 = ",\"schedule\":"@ + y1;
    let w1 = str_json(j1.id) + x1;
    let e2 = "}"@ + r2;
    let q2 = cmd_json(j2.command) + e2;
    let p2 = ",\"command\":"@ + q2;
    let m2 = dec_str(j2.last_run as nat) + p2;
    let z2 = ",\"last_run\":"@ + m2;
    let y2 = sched_json(j2.schedule) + z2;
    let x2 = ",\"schedule\":"@ + y2;
    let w2 = str_json(j2.id) + x2;
    assert(job_json(j1) + r1 =~= "{\"id\":"@ + w1);
    assert(job_json(j2) + r2 =~= "{\"id\":"@ + w2);
    lemma_strip("{\"id\":"@, w1, w2);
    lemma_str_prefix(j1.id, j2.id, x1, x2);
    lemma_strip(",\"schedule\":"@, y1, y2);
    lemma_sched_prefix(j1.schedule, j2.schedule, z1, z2);
    lemma_strip(",\"last_run\":"@, m1, m2);
    assert(p1[0] == ',');
    assert(p2[0] == ',');
    lemma_num_prefix(j1.last_run as nat, j2.last_run as nat, p1, p2);
    assert(j1.last_run == j2.last_run);
    lemma_strip(",\"command\":"@, q1, q2);
    lemma_cmd_prefix(j1.command, j2.command, e1, e2);
    lemma_strip("}"@, r1, r2);
}

/// The records after the first, each preceded by its separating comma.
pub(crate) open spec fn sep_tail(l: Seq<JobV>) -> Seq<char>
    decreases l.len(),
{
    if l.len() == 0 {
        Seq::empty()
    } else {
        seq![','] + job_json(l[0]) + sep_tail(l.skip(1))
    }
}

/// `sep_tail` also unfolds from the back, matching how `jobs_inner` grows.
proof fn lemma_sep_tail_back(l: Seq<JobV>)
    requires
        l.len() >= 1,
    ensures
        sep_tail(l) == sep_tail(l.drop_last()) + seq![','] + job_json(l.last()),
    decreases l.len(),
{
    if l.len() == 1 {
        assert(sep_tail(l.skip(1)).len() == 0);
        assert(sep_tail(l.drop_last()).len() == 0);
        assert(sep_tail(l) =~= sep_tail(l.drop_last()) + seq![','] + job_json(l.last()));
    } else {
        lemma_sep_tail_back(l.skip(1));
        assert(l.skip(1).drop_last() =~= l.drop_last().skip(1));
        assert(l.skip(1).last() == l.last());
        assert(l.drop_last()[0] == l[0]);
        assert(sep_tail(l) =~= sep_tail(l.drop_last()) + seq![','] + job_json(l.last()));
    }
}

/// The joined records split as the first record plus the comma-led tail.
pub(crate) proof fn lemma_inner_head(l: Seq<JobV>)
    requires
        l.len() >= 1,
    ensures
        jobs_inner(l) == job_json(l[0]) + sep_tail(l.skip(1)),
    decreases l.len(),
{
    if l.len() == 1 {
        assert(sep_tail(l.skip(1)).len() == 0);
        assert(jobs_inner(l) =~= job_json(l[0]) + sep_tail(l.skip(1)));
    } else {
        lemma_inner_head(l.drop_last());
        assert(l.drop_last()[0] == l[0]);
        lemma_sep_tail_back(l.skip(1));
        assert(l.drop_last().skip(1) =~= l.skip(1).drop_last());
        assert(l.skip(1).last() == l.last());
        assert(jobs_inner(l) == jobs_inner(l.drop_last()) + seq![','] + job_json(l.last()));
        assert(jobs_inner(l) =~= job_json(l[0]) + sep_tail(l.skip(1)));
    }
}

/// Every stored job record opens with a brace.
pub(crate) proof fn lemma_job_json_head(j: JobV)
    ensures
        job_json(j).len() >= 1,
        job_json(j)[0] == '{',
{
    reveal_strlit("{\"id\":");
    assert(job_json(j)[0] == "{\"id\":"@[0]);
}

/// Comma-led record tails closed by a bracket are a prefix code.
proof fn lemma_sep_prefix(a: Seq<JobV>, b: Seq<JobV>)
    requires
        sep_tail(a) + seq![']'] == sep_tail(b) + seq![']'],
        forall|i: int| 0 <= i < a.len() ==> #[trigger] a[i].last_run >= 0,
        forall|i: int| 0 <= i < b.len() ==> #[trigger] b[i].last_run >= 0,
    ensures
        a == b,
    decreases a.len(),
{
    if a.len() == 0 && b.len() == 0 {
        assert(a =~= b);
    } else if a.len() == 0 {
        assert((sep_tail(a) + seq![']'])[0] == ']');
        assert((sep_tail(b) + seq![']'])[0] == ',');
        assert(false);
    } else if b.len() == 0 {
        assert((sep_tail(a) + seq![']'])[0] == ',');
        assert((sep_tail(b) + seq![']'])[0] == ']');
        assert(false);
    } else {
        let u1 = job_json(a[0]) + (sep_tail(a.skip(1)) + seq![']']);
        let u2 = job_json(b[0]) + (sep_tail(b.skip(1)) + seq![']']);
        assert(sep_tail(a) + seq![']'] =~= seq![','] + u1);
        assert(sep_tail(b) + seq![']'] =~= seq![','] + u2);
        lemma_strip(seq![','], u1, u2);
        lemma_job_prefix(a[0], b[0], sep_tail(a.skip(1)) + seq![']'], sep_tail(b.skip(1)) + seq![']']);
        lemma_sep_prefix(a.skip(1), b.skip(1));
        assert(a.len() == b.len());
        assert forall|i: int| 0 <= i < a.len() implies a[i] == b[i] by {
            if i > 0 {
                assert(a.skip(1)[i - 1] == b.skip(1)[i - 1]);
            }
        }
        assert(a =~= b);
    }
}

/// All last runs sit at or after the epoch, as they do in any stored list.
pub open spec fn views_last_run_ok(l: Seq<JobV>) -> bool {
    forall|i: int| 0 <= i < l.len() ==> #[trigger] l[i].last_run >= 0
}

/// The round-trip law of the store: no two job lists share their stored
/// text. [`crate::codec::save_jobs`] writes exactly `jobs_json` of its list
/// and [`crate::codec::load_jobs`] succeeds only when the text it read is
/// exactly `jobs_json` of the list it returns — so a list that is saved and
/// then loaded comes back as itself, and saving what was loaded rewrites
/// the file byte for byte.
pub proof fn lemma_jobs_json_injective(a: Seq<JobV>, b: Seq<JobV>)
    requires
        jobs_json(a) == jobs_json(b),
        views_last_run_ok(a),
        views_last_run_ok(b),
    ensures
        a == b,
{
    let ia = jobs_inner(a) + seq![']'];
    let ib = jobs_inner(b) + seq![']'];
    assert(jobs_json(a) =~= seq!['['] + ia);
    assert(jobs_json(b) =~= seq!['['] + ib);
    lemma_strip(seq!['['], ia, ib);
    if a.len() == 0 && b.len() == 0 {
        assert(a =~= b);
    } else if a.len() == 0 {
        lemma_job_json_head(b[0]);
        lemma_inner_head(b);
        assert(ia[0] == ']');
        assert(ib[0] == '{');
        assert(false);
    } else if b.len() == 0 {
        lemma_job_json_head(a[0]);
        lemma_inner_head(a);
        assert(ia[0] == '{');
        assert(ib[0] == ']');
        assert(false);
    } else {
        lemma_inner_head(a);
        lemma_inner_head(b);
        assert(ia =~= job_json(a[0]) + (sep_tail(a.skip(1)) + seq![']']));
        assert(ib =~= job_json(b[0]) + (sep_tail(b.skip(1)) + seq![']']));
        lemma_job_prefix(a[0], b[0], sep_tail(a.skip(1)) + seq![']'], sep_tail(b.skip(1)) + seq![']']);
        lemma_sep_prefix(a.skip(1), b.skip(1));
        assert(a.len() == b.len());
        assert forall|i: int| 0 <= i < a.len() implies a[i] == b[i] by {
            if i > 0 {
                assert(a.skip(1)[i - 1] == b.skip(1)[i - 1]);
            }
        }
        assert(a =~= b);
    }
}

/// An order-argument object's encoding is a prefix code.
#[verifier::rlimit(100)]
proof fn lemma_args_prefix(a1: OrderArgsV, a2: OrderArgsV, r1: Seq<char>, r2: Seq<char>)
    requires
        args_json(a1) + r1 == args_json(a2) + r2,
    ensures
        a1 == a2,
        r1 == r2,
{
    reveal_strlit(",\"symbol\":");
    reveal_strlit(",\"quantity\":");
    reveal_strlit(",\"amount\":");
    reveal_strlit(",\"side\":");
    reveal_strlit("}");
    let e1 = "}"@ + r1;
    let q1 = str_json(a1.side) + e1;
    let p1 = ",\"side\":"@ + q1;
    let m1 = opt_amt_json(a1.amount) + p1;
    let z1 = ",\"amount\":"@ + m1;
    let y1 = opt_qty_json(a1.quantity) + z1;
    let x1 = ",\"quantity\":"@ + y1;
    let w1 = str_json(a1.symbol) + x1;
    let v1 = ",\"symbol\":"@ + w1;
    let u1 = str_json(a1.account) + v1;
    let e2 = "}"@ + r2;
    let q2 = str_json(a2.side) + e2;
    let p2 = ",\"side\":"@ + q2;
    let m2 = opt_amt_json(a2.amount) + p2;
    let z2 = ",\"amount\":"@ + m2;
    let y2 = opt_qty_json(a2.quantity) + z2;
    let x2 = ",\"quantity\":"@ + y2;
    let w2 = str_json(a2.symbol) + x2;
    let v2 = ",\"symbol\":"@ + w2;
    let u2 = str_json(a2.account) + v2;
    assert(args_json(a1) + r1 =~= "{\"account\":"@ + u1);
    assert(args_json(a2) + r2 =~= "{\"account\":"@ + u2);
    lemma_strip("{\"account\":"@, u1, u2);
    lemma_str_prefix(a1.account, a2.account, v1, v2);
    lemma_strip(",\"symbol\":"@, w1, w2);
    lemma_str_prefix(a1.symbol, a2.symbol, x1, x2);
    lemma_strip(",\"quantity\":"@, y1, y2);
    assert(z1[0] == ',');
    assert(z2[0] == ',');
    lemma_opt_qty_prefix(a1.quantity, a2.quantity, z1, z2);
    lemma_strip(",\"amount\":"@, m1, m2);
    assert(p1[0] == ',');
    assert(p2[0] == ',');
    lemma_opt_amt_prefix(a1.amount, a2.amount, p1, p2);
    lemma_strip(",\"side\":"@, q1, q2);
    lemma_str_prefix(a1.side, a2.side, e1, e2);
    lemma_strip("}"@, r1, r2);
}

/// A fill's encoding is a prefix code.
#[verifier::rlimit(100)]
proof fn lemma_fill_prefix(f1: OrderPassedV, f2: OrderPassedV, r1: Seq<char>, r2: Seq<char>)
    requires
        fill_json(f1) + r1 == fill_json(f2) + r2,
    ensures
        f1 == f2,
        r1 == r2,
{
    reveal_strlit(",\"price\":");
    reveal_strlit(",\"args\":");
    reveal_strlit("}");
    let e1 = "}"@ + r1;
    let q1 = args_json(f1.args) + e1;
    let p1 = ",\"args\":"@ + q1;
    let m1 = cents_str(f1.price as nat) + p1;
    let z1 = ",\"price\":"@ + m1;
    let w1 = str_json(f1.id) + z1;
    let e2 = "}"@ + r2;
    let q2 = args_json(f2.args) + e2;
    let p2 = ",\"args\":"@ + q2;
    let m2 = cents_str(f2.price as nat) + p2;
    let z2 = ",\"price\":"@ + m2;
    let w2 = str_json(f2.id) + z2;
    assert(fill_json(f1) + r1 =~= "{\"id\":"@ + w1);
    assert(fill_json(f2) + r2 =~= "{\"id\":"@ + w2);
    lemma_strip("{\"id\":"@, w1, w2);
    lemma_str_prefix(f1.id, f2.id, z1, z2);
    lemma_strip(",\"price\":"@, m1, m2);
    assert(p1[0] == ',');
    assert(p2[0] == ',');
    lemma_cents_prefix(f1.price as nat, f2.price as nat, p1, p2);
    lemma_strip(",\"args\":"@, q1, q2);
    lemma_args_prefix(f1.args, f2.args, e1, e2);
    lemma_strip("}"@, r1, r2);
}

/// Comma-led fill tails closed by the file's ending are a prefix code.
#[verifier::rlimit(100)]
proof fn lemma_fsep_prefix(a: Seq<OrderPassedV>, b: Seq<OrderPassedV>)
    requires
        fsep_tail(a) + "]}"@ == fsep_tail(b) + "]}"@,
    ensures
        a == b,
    decreases a.len(),
{
    reveal_strlit("]}");
    if a.len() == 0 && b.len() == 0 {
        assert(a =~= b);
    } else if a.len() == 0 {
        assert((fsep_tail(a) + "]}"@)[0] == ']');
        assert((fsep_tail(b) + "]}"@)[0] == ',');
        assert(false);
    } else if b.len() == 0 {
        assert((fsep_tail(a) + "]}"@)[0] == ',');
        assert((fsep_tail(b) + "]}"@)[0] == ']');
        assert(false);
    } else {
        let u1 = fill_json(a[0]) + (fsep_tail(a.skip(1)) + "]}"@);
        let u2 = fill_json(b[0]) + (fsep_tail(b.skip(1)) + "]}"@);
        assert(fsep_tail(a) + "]}"@ =~= seq![','] + u1);
        assert(fsep_tail(b) + "]}"@ =~= seq![','] + u2);
        lemma_strip(seq![','], u1, u2);
        lemma_fill_prefix(a[0], b[0], fsep_tail(a.skip(1)) + "]}"@, fsep_tail(b.skip(1)) + "]}"@);
        lemma_fsep_prefix(a.skip(1), b.skip(1));
        assert(a.len() == b.len());
        assert forall|i: int| 0 <= i < a.len() implies a[i] == b[i] by {
            if i > 0 {
                assert(a.skip(1)[i - 1] == b.skip(1)[i - 1]);
            }
        }
        assert(a =~= b);
    }
}

/// The round-trip law of the order history: no two fill lists share their
/// stored text, so a history that is saved and then loaded comes back as
/// itself.
#[verifier::rlimit(100)]
pub proof fn lemma_history_json_injective(a: Seq<OrderPassedV>, b: Seq<OrderPassedV>)
    requires
        history_json(a) == history_json(b),
    ensures
        a == b,
{
    reveal_strlit("{\"orders\":[");
    reveal_strlit("]}");
    let ia = fills_inner(a) + "]}"@;
    let ib = fills_inner(b) + "]}"@;
    assert(history_json(a) =~= "{\"orders\":["@ + ia);
    assert(history_json(b) =~= "{\"orders\":["@ + ib);
    lemma_strip("{\"orders\":["@, ia, ib);
    if a.len() == 0 && b.len() == 0 {
        assert(a =~= b);
    } else if a.len() == 0 {
        lemma_fill_json_head(b[0]);
        lemma_fills_inner_head(b);
        assert(ia[0] == ']');
        assert(ib[0] == '{');
        assert(false);
    } else if b.len() == 0 {
        lemma_fill_json_head(a[0]);
        lemma_fills_inner_head(a);
        assert(ia[0] == '{');
        assert(ib[0] == ']');
        assert(false);
    } else {
        lemma_fills_inner_head(a);
        lemma_fills_inner_head(b);
        assert(ia =~= fill_json(a[0]) + (fsep_tail(a.skip(1)) + "]}"@));
        assert(ib =~= fill_json(b[0]) + (fsep_tail(b.skip(1)) + "]}"@));
        lemma_fill_prefix(a[0], b[0], fsep_tail(a.skip(1)) + "]}"@, fsep_tail(b.skip(1)) + "]}"@);
        lemma_fsep_prefix(a.skip(1), b.skip(1));
        assert(a.len() == b.len());
        assert forall|i: int| 0 <= i < a.len() implies a[i] == b[i] by {
            if i > 0 {
                assert(a.skip(1)[i - 1] == b.skip(1)[i - 1]);
            }
        }
        assert(a =~= b);
    }
}

} // verus!
