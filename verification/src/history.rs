//! The durable form of the order history: an object whose `"orders"` key
//! holds the append-only list of fills.
//!
//! As with the job store, the writer is verified against a full description
//! of the text ([`history_json`]); the reader owes success on any such
//! encoding and accepts a candidate only after writing it back out and
//! comparing with the input.

use vstd::prelude::*;

use crate::codec::{
    cents_stop, emit_opt_amt, emit_opt_qty, emit_str_json, is_seg, lemma_seg_head, lemma_seg_split,
    opt_amt_json, opt_qty_json, p_cents, p_lit, p_opt_amt, p_opt_qty, p_string, str_json,
    PersistenceError,
};
use crate::model::{OrderArgs, OrderArgsV};
use crate::numstr::{cents_str, emit_cents};
use crate::orders::{OrderPassed, OrderPassedV};
use crate::text::{is_blank, string_from_chars, text_is_blank, to_char_vec};

verus! {

/// The mathematical values behind a list of fills.
pub open spec fn order_views(s: Seq<OrderPassed>) -> Seq<OrderPassedV> {
    s.map_values(|f: OrderPassed| f@)
}

/// An order's arguments, written as a bare object.
pub open spec fn args_json(a: OrderArgsV) -> Seq<char> {
    "{\"account\":"@ + str_json(a.account) + ",\"symbol\":"@ + str_json(a.symbol)
        + ",\"quantity\":"@ + opt_qty_json(a.quantity) + ",\"amount\":"@ + opt_amt_json(a.amount)
        + ",\"side\":"@ + str_json(a.side) + "}"@
}

/// One recorded fill.
pub open spec fn fill_json(f: OrderPassedV) -> Seq<char> {
    "{\"id\":"@ + str_json(f.id) + ",\"price\":"@ + cents_str(f.price as nat) + ",\"args\":"@
        + args_json(f.args) + "}"@
}

/// The comma-joined fills.
pub open spec fn fills_inner(l: Seq<OrderPassedV>) -> Seq<char>
    decreases l.len(),
{
    if l.len() == 0 {
        Seq::empty()
    } else if l.len() == 1 {
        fill_json(l[0])
    } else {
        fills_inner(l.drop_last()) + seq![','] + fill_json(l.last())
    }
}

/// The whole history file.
pub open spec fn history_json(l: Seq<OrderPassedV>) -> Seq<char> {
    "{\"orders\":["@ + fills_inner(l) + "]}"@
}

/// Appends an order's arguments.
fn emit_args(out: &mut Vec<char>, a: &OrderArgs)
    ensures
        final(out)@ == old(out)@ + args_json(a@),
{
    crate::text::push_str_chars(out, "{\"account\":");
    emit_str_json(out, a.account.as_str());
    crate::text::push_str_chars(out, ",\"symbol\":");
    emit_str_json(out, a.symbol.as_str());
    crate::text::push_str_chars(out, ",\"quantity\":");
    emit_opt_qty(out, &a.quantity);
    crate::text::push_str_chars(out, ",\"amount\":");
    emit_opt_amt(out, &a.amount);
    crate::text::push_str_chars(out, ",\"side\":");
    emit_str_json(out, a.side.as_str());
    crate::text::push_str_chars(out, "}");
    proof {
        assert(out@ =~= old(out)@ + args_json(a@));
    }
}

/// Appends one fill.
fn emit_fill(out: &mut Vec<char>, f: &OrderPassed)
    ensures
        final(out)@ == old(out)@ + fill_json(f@),
{
    crate::text::push_str_chars(out, "{\"id\":");
    emit_str_json(out, f.id.as_str());
    crate::text::push_str_chars(out, ",\"price\":");
    emit_cents(out, f.price);
    crate::text::push_str_chars(out, ",\"args\":");
    emit_args(out, &f.args);
    crate::text::push_str_chars(out, "}");
    proof {
        assert(out@ =~= old(out)@ + fill_json(f@));
    }
}

/// Serializes the whole order history: the text [`history_json`] describes,
/// exactly.
pub fn save_orders(orders: &Vec<OrderPassed>) -> (r: String)
    ensures
        r@ == history_json(order_views(orders@)),
{
    let mut out: Vec<char> = Vec::new();
    crate::text::push_str_chars(&mut out, "{\"orders\":[");
    let n = orders.len();
    let mut i: usize = 0;
    proof {
        assert(out@ =~= "{\"orders\":["@ + fills_inner(order_views(orders@.take(0))));
    }
    while i < n
        invariant
            n == orders@.len(),
            i <= n,
            out@ == "{\"orders\":["@ + fills_inner(order_views(orders@.take(i as int))),
        decreases n - i,
    {
        let ghost prefix = order_views(orders@.take(i as int));
        if i > 0 {
            out.push(',');
        }
        emit_fill(&mut out, &orders[i]);
        i = i + 1;
        proof {
            let step = order_views(orders@.take(i as int));
            assert(step.drop_last() =~= prefix);
            assert(step.last() == orders@[i - 1]@);
            if i == 1 {
                assert(fills_inner(step) == fill_json(step[0]));
            } else {
                assert(fills_inner(step) == fills_inner(prefix) + seq![','] + fill_json(
                    step.last(),
                ));
            }
            assert(out@ =~= "{\"orders\":["@ + fills_inner(step));
        }
    }
    crate::text::push_str_chars(&mut out, "]}");
    proof {
        assert(orders@.take(n as int) =~= orders@);
        assert(out@ =~= history_json(order_views(orders@)));
    }
    string_from_chars(&out)
}

/// The fills after the first, each preceded by its separating comma.
pub(crate) open spec fn fsep_tail(l: Seq<OrderPassedV>) -> Seq<char>
    decreases l.len(),
{
    if l.len() == 0 {
        Seq::empty()
    } else {
        seq![','] + fill_json(l[0]) + fsep_tail(l.skip(1))
    }
}

/// `fsep_tail` also unfolds from the back, matching how `fills_inner` grows.
pub(crate) proof fn lemma_fsep_tail_back(l: Seq<OrderPassedV>)
    requires
        l.len() >= 1,
    ensures
        fsep_tail(l) == fsep_tail(l.drop_last()) + seq![','] + fill_json(l.last()),
    decreases l.len(),
{
    if l.len() == 1 {
        assert(fsep_tail(l.skip(1)).len() == 0);
        assert(fsep_tail(l.drop_last()).len() == 0);
        assert(fsep_tail(l) =~= fsep_tail(l.drop_last()) + seq![','] + fill_json(l.last()));
    } else {
        lemma_fsep_tail_back(l.skip(1));
        assert(l.skip(1).drop_last() =~= l.drop_last().skip(1));
        assert(l.skip(1).last() == l.last());
        assert(l.drop_last()[0] == l[0]);
        assert(fsep_tail(l) =~= fsep_tail(l.drop_last()) + seq![','] + fill_json(l.last()));
    }
}

/// The joined fills split as the first fill plus the comma-led tail.
pub(crate) proof fn lemma_fills_inner_head(l: Seq<OrderPassedV>)
    requires
        l.len() >= 1,
    ensures
        fills_inner(l) == fill_json(l[0]) + fsep_tail(l.skip(1)),
    decreases l.len(),
{
    if l.len() == 1 {
        assert(fsep_tail(l.skip(1)).len() == 0);
        assert(fills_inner(l) =~= fill_json(l[0]) + fsep_tail(l.skip(1)));
    } else {
        lemma_fills_inner_head(l.drop_last());
        assert(l.drop_last()[0] == l[0]);
        lemma_fsep_tail_back(l.skip(1));
        assert(l.drop_last().skip(1) =~= l.skip(1).drop_last());
        assert(l.skip(1).last() == l.last());
        assert(fills_inner(l) == fills_inner(l.drop_last()) + seq![','] + fill_json(l.last()));
        assert(fills_inner(l) =~= fill_json(l[0]) + fsep_tail(l.skip(1)));
    }
}

/// Every stored fill record opens with a brace.
pub(crate) proof fn lemma_fill_json_head(f: OrderPassedV)
    ensures
        fill_json(f).len() >= 1,
        fill_json(f)[0] == '{',
{
    reveal_strlit("{\"id\":");
    assert(fill_json(f)[0] == "{\"id\":"@[0]);
}

/// Reads an order's arguments, completely on any canonical form.
fn p_args(chars: &Vec<char>, pos: usize, Ghost(hint): Ghost<Option<OrderArgsV>>) -> (r: Option<
    (OrderArgs, usize),
>)
    ensures
        r matches Some((_, np)) ==> pos <= np <= chars@.len(),
        hint matches Some(a) ==> (is_seg(chars@, pos as int, args_json(a)) ==> (r matches Some(
            (av, np),
        ) && av@ == a && np == pos + args_json(a).len())),
{
    let ghost active = match hint {
        Some(a) => is_seg(chars@, pos as int, args_json(a)),
        None => false,
    };
    proof {
        reveal_strlit("{\"account\":");
        reveal_strlit(",\"symbol\":");
        reveal_strlit(",\"quantity\":");
        reveal_strlit(",\"amount\":");
        reveal_strlit(",\"side\":");
        reveal_strlit("}");
        if active {
            let a = hint->Some_0;
            let l1 = "{\"account\":"@;
            let l2 = ",\"symbol\":"@;
            let l3 = ",\"quantity\":"@;
            let l4 = ",\"amount\":"@;
            let l5 = ",\"side\":"@;
            let e9 = str_json(a.side) + "}"@;
            let e8 = l5 + e9;
            let e7 = opt_amt_json(a.amount) + e8;
            let e6 = l4 + e7;
            let e5 = opt_qty_json(a.quantity) + e6;
            let e4 = l3 + e5;
            let e3 = str_json(a.symbol) + e4;
            let e2 = l2 + e3;
            let e1 = str_json(a.account) + e2;
            assert(args_json(a) =~= l1 + e1);
            lemma_seg_split(chars@, pos as int, l1, e1);
            let q1 = pos + l1.len();
            lemma_seg_split(chars@, q1, str_json(a.account), e2);
            let q2 = q1 + str_json(a.account).len();
            lemma_seg_split(chars@, q2, l2, e3);
            let q3 = q2 + l2.len();
            lemma_seg_split(chars@, q3, str_json(a.symbol), e4);
            let q4 = q3 + str_json(a.symbol).len();
            lemma_seg_split(chars@, q4, l3, e5);
            let q5 = q4 + l3.len();
            lemma_seg_split(chars@, q5, opt_qty_json(a.quantity), e6);
            let q6 = q5 + opt_qty_json(a.quantity).len();
            lemma_seg_split(chars@, q6, l4, e7);
            let q7 = q6 + l4.len();
            lemma_seg_split(chars@, q7, opt_amt_json(a.amount), e8);
            let q8 = q7 + opt_amt_json(a.amount).len();
            lemma_seg_split(chars@, q8, l5, e9);
            let q9 = q8 + l5.len();
            lemma_seg_split(chars@, q9, str_json(a.side), "}"@);
            assert(chars@[q6] == ',') by {
                assert(chars@.subrange(q6, q6 + l4.len())[0] == l4[0]);
            }
            assert(crate::codec::stop_after(chars@, q6));
            assert(chars@[q8] == ',') by {
                assert(chars@.subrange(q8, q8 + l5.len())[0] == l5[0]);
            }
            assert(cents_stop(chars@, q8));
        }
    }
    let np = match p_lit(chars, pos, "{\"account\":") {
        Some(x) => x,
        None => {
            proof {
                if active {
                    assert(false);
                }
            }
            return None
        },
    };
    let (account, np) = match p_string(
        chars,
        np,
        Ghost(
            match hint {
                Some(a) => Some(a.account),
                None => None,
            },
        ),
    ) {
        Some(x) => x,
        None => {
            proof {
                if active {
                    assert(false);
                }
            }
            return None
        },
    };
    let np = match p_lit(chars, np, ",\"symbol\":") {
        Some(x) => x,
        None => {
            proof {
                if active {
                    assert(false);
                }
            }
            return None
        },
    };
    let (symbol, np) = match p_string(
        chars,
        np,
        Ghost(
            match hint {
                Some(a) => Some(a.symbol),
                None => None,
            },
        ),
    ) {
        Some(x) => x,
        None => {
            proof {
                if active {
                    assert(false);
                }
            }
            return None
        },
    };
    let np = match p_lit(chars, np, ",\"quantity\":") {
        Some(x) => x,
        None => {
            proof {
                if active {
                    assert(false);
                }
            }
            return None
        },
    };
    let (quantity, np) = match p_opt_qty(
        chars,
        np,
        Ghost(
            match hint {
                Some(a) => Some(a.quantity),
                None => None,
            },
        ),
    ) {
        Some(x) => x,
        None => {
            proof {
                if active {
                    assert(false);
                }
            }
            return None
        },
    };
    let np = match p_lit(chars, np, ",\"amount\":") {
        Some(x) => x,
        None => {
            proof {
                if active {
                    assert(false);
                }
            }
            return None
        },
    };
    let (amount, np) = match p_opt_amt(
        chars,
        np,
        Ghost(
            match hint {
                Some(a) => Some(a.amount),
                None => None,
            },
        ),
    ) {
        Some(x) => x,
        None => {
            proof {
                if active {
                    assert(false);
                }
            }
            return None
        },
    };
    let np = match p_lit(chars, np, ",\"side\":") {
        Some(x) => x,
        None => {
            proof {
                if active {
                    assert(false);
                }
            }
            return None
        },
    };
    let (side, np) = match p_string(
        chars,
        np,
        Ghost(
            match hint {
                Some(a) => Some(a.side),
                None => None,
            },
        ),
    ) {
        Some(x) => x,
        None => {
            proof {
                if active {
                    assert(false);
                }
            }
            return None
        },
    };
    let np = match p_lit(chars, np, "}") {
        Some(x) => x,
        None => {
            proof {
                if active {
                    assert(false);
                }
            }
            return None
        },
    };
    Some((OrderArgs { account, symbol, quantity, amount, side }, np))
}

/// Reads one fill, completely on any canonical form.
fn p_fill(chars: &Vec<char>, pos: usize, Ghost(hint): Ghost<Option<OrderPassedV>>) -> (r: Option<
    (OrderPassed, usize),
>)
    ensures
        r matches Some((_, np)) ==> pos < np <= chars@.len(),
        hint matches Some(f) ==> (is_seg(chars@, pos as int, fill_json(f)) ==> (r matches Some(
            (fv, np),
        ) && fv@ == f && np == pos + fill_json(f).len())),
{
    let ghost active = match hint {
        Some(f) => is_seg(chars@, pos as int, fill_json(f)),
        None => false,
    };
    proof {
        reveal_strlit("{\"id\":");
        reveal_strlit(",\"price\":");
        reveal_strlit(",\"args\":");
        reveal_strlit("}");
        if active {
            let f = hint->Some_0;
            let l1 = "{\"id\":"@;
            let l2 = ",\"price\":"@;
            let l3 = ",\"args\":"@;
            let e5 = args_json(f.args) + "}"@;
            let e4 = l3 + e5;
            let e3 = cents_str(f.price as nat) + e4;
            let e2 = l2 + e3;
            let e1 = str_json(f.id) + e2;
            assert(fill_json(f) =~= l1 + e1);
            lemma_seg_split(chars@, pos as int, l1, e1);
            let q1 = pos + l1.len();
            lemma_seg_split(chars@, q1, str_json(f.id), e2);
            let q2 = q1 + str_json(f.id).len();
            lemma_seg_split(chars@, q2, l2, e3);
            let q3 = q2 + l2.len();
            lemma_seg_split(chars@, q3, cents_str(f.price as nat), e4);
            let q4 = q3 + cents_str(f.price as nat).len();
            lemma_seg_split(chars@, q4, l3, e5);
            let q5 = q4 + l3.len();
            lemma_seg_split(chars@, q5, args_json(f.args), "}"@);
            assert(chars@[q4] == ',') by {
                assert(chars@.subrange(q4, q4 + l3.len())[0] == l3[0]);
            }
            assert(cents_stop(chars@, q4));
        }
    }
    let np = match p_lit(chars, pos, "{\"id\":") {
        Some(x) => x,
        None => {
            proof {
                if active {
                    assert(false);
                }
            }
            return None
        },
    };
    let (id, np) = match p_string(
        chars,
        np,
        Ghost(
            match hint {
                Some(f) => Some(f.id),
                None => None,
            },
        ),
    ) {
        Some(x) => x,
        None => {
            proof {
                if active {
                    assert(false);
                }
            }
            return None
        },
    };
    let np = match p_lit(chars, np, ",\"price\":") {
        Some(x) => x,
        None => {
            proof {
                if active {
                    assert(false);
                }
            }
            return None
        },
    };
    let (price, np) = match p_cents(
        chars,
        np,
        Ghost(
            match hint {
                Some(f) => Some(f.price as nat),
                None => None,
            },
        ),
    ) {
        Some(x) => x,
        None => {
            proof {
                if active {
                    assert(false);
                }
            }
            return None
        },
    };
    let np = match p_lit(chars, np, ",\"args\":") {
        Some(x) => x,
        None => {
            proof {
                if active {
                    assert(false);
                }
            }
            return None
        },
    };
    let (args, np) = match p_args(
        chars,
        np,
        Ghost(
            match hint {
                Some(f) => Some(f.args),
                None => None,
            },
        ),
    ) {
        Some(x) => x,
        None => {
            proof {
                if active {
                    assert(false);
                }
            }
            return None
        },
    };
    let np = match p_lit(chars, np, "}") {
        Some(x) => x,
        None => {
            proof {
                if active {
                    assert(false);
                }
            }
            return None
        },
    };
    let fill = OrderPassed { id, price, args };
    proof {
        if active {
            assert(fill@ == hint->Some_0);
        }
    }
    Some((fill, np))
}

/// Reads a whole history file, demanding that it spans the entire text;
/// complete on the canonical encoding of any fill list.
fn p_history(chars: &Vec<char>) -> (r: Option<Vec<OrderPassed>>)
    ensures
        (exists|l: Seq<OrderPassedV>| chars@ == history_json(l)) ==> (r matches Some(out)
            && history_json(order_views(out@)) == chars@),
{
    let ghost canonical = exists|l: Seq<OrderPassedV>| chars@ == history_json(l);
    let ghost lw: Seq<OrderPassedV> = if canonical {
        choose|l: Seq<OrderPassedV>| chars@ == history_json(l)
    } else {
        Seq::empty()
    };
    proof {
        reveal_strlit("{\"orders\":[");
        reveal_strlit("]}");
        if canonical {
            assert(history_json(lw) =~= "{\"orders\":["@ + (fills_inner(lw) + "]}"@));
            assert(chars@.subrange(0, chars@.len() as int) =~= chars@);
            assert(is_seg(chars@, 0, "{\"orders\":["@ + (fills_inner(lw) + "]}"@)));
            lemma_seg_split(chars@, 0, "{\"orders\":["@, fills_inner(lw) + "]}"@);
            if lw.len() > 0 {
                lemma_fills_inner_head(lw);
                lemma_fill_json_head(lw[0]);
            }
        }
    }
    let mut pos = match p_lit(chars, 0, "{\"orders\":[") {
        Some(x) => x,
        None => {
            proof {
                if canonical {
                    assert(false);
                }
            }
            return None
        },
    };
    let mut orders: Vec<OrderPassed> = Vec::new();
    if pos < chars.len() {
        if chars[pos] == ']' {
            proof {
                if canonical && lw.len() > 0 {
                    lemma_seg_head(chars@, 11, fills_inner(lw) + "]}"@);
                    assert((fills_inner(lw) + "]}"@)[0] == fill_json(lw[0])[0]) by {
                        assert(fills_inner(lw) == fill_json(lw[0]) + fsep_tail(lw.skip(1)));
                    }
                    assert(false);
                }
            }
            match p_lit(chars, pos, "]}") {
                Some(np) => {
                    if np == chars.len() {
                        proof {
                            if canonical {
                                assert(order_views(orders@) =~= lw);
                                assert(history_json(order_views(orders@)) == chars@);
                            }
                        }
                        return Some(orders);
                    }
                    proof {
                        if canonical {
                            assert(chars@.len() == 11 + (fills_inner(lw) + "]}"@).len());
                            assert(false);
                        }
                    }
                    return None;
                },
                None => {
                    proof {
                        if canonical {
                            assert(false);
                        }
                    }
                    return None
                },
            }
        }
    }
    proof {
        if canonical {
            if lw.len() == 0 {
                assert(chars@.len() == 13);
                lemma_seg_head(chars@, 11, fills_inner(lw) + "]}"@);
                assert(false);
            }
        }
    }
    proof {
        if canonical {
            assert(fills_inner(lw) + "]}"@ =~= fill_json(lw[0]) + (fsep_tail(lw.skip(1)) + "]}"@));
            lemma_seg_split(chars@, 11, fill_json(lw[0]), fsep_tail(lw.skip(1)) + "]}"@);
            assert(pos == 11);
            assert(order_views(orders@) =~= lw.take(0));
        }
    }
    p_fills_tail(chars, pos, orders, Ghost(canonical), Ghost(lw))
}

/// Stepping past a comma-led fill: how the remaining text splits.
proof fn lemma_fills_step(s: Seq<char>, pos: int, lw: Seq<OrderPassedV>, k: int)
    requires
        0 <= k,
        k + 1 < lw.len(),
        is_seg(s, pos, fsep_tail(lw.skip(k + 1)) + "]}"@),
    ensures
        s[pos] == ',',
        is_seg(s, pos + 1, fill_json(lw[k + 1])),
        is_seg(s, pos + 1 + fill_json(lw[k + 1]).len(), fsep_tail(lw.skip(k + 2)) + "]}"@),
        (fsep_tail(lw.skip(k + 1)) + "]}"@).len() == 1 + fill_json(lw[k + 1]).len() + (fsep_tail(
            lw.skip(k + 2),
        ) + "]}"@).len(),
{
    let st = fsep_tail(lw.skip(k + 1));
    assert(lw.skip(k + 1).len() > 0);
    assert(lw.skip(k + 1)[0] == lw[k + 1]);
    assert(lw.skip(k + 1).skip(1) =~= lw.skip(k + 2));
    assert(st == seq![','] + fill_json(lw[k + 1]) + fsep_tail(lw.skip(k + 2)));
    lemma_seg_head(s, pos, st + "]}"@);
    assert((st + "]}"@)[0] == ',');
    assert(st + "]}"@ =~= seq![','] + (fill_json(lw[k + 1]) + (fsep_tail(lw.skip(k + 2))
        + "]}"@)));
    lemma_seg_split(s, pos, seq![','], fill_json(lw[k + 1]) + (fsep_tail(lw.skip(k + 2)) + "]}"@));
    lemma_seg_split(s, pos + 1, fill_json(lw[k + 1]), fsep_tail(lw.skip(k + 2)) + "]}"@);
}

/// After the last fill only the closing bracket and brace remain.
proof fn lemma_fills_end(s: Seq<char>, pos: int, lw: Seq<OrderPassedV>, k: int)
    requires
        k + 1 == lw.len(),
        is_seg(s, pos, fsep_tail(lw.skip(k + 1)) + "]}"@),
        pos + (fsep_tail(lw.skip(k + 1)) + "]}"@).len() == s.len(),
    ensures
        s[pos] == ']',
        pos + 2 == s.len(),
        is_seg(s, pos, "]}"@),
{
    reveal_strlit("]}");
    assert(lw.skip(k + 1).len() == 0);
    assert(fsep_tail(lw.skip(k + 1)).len() == 0);
    assert(fsep_tail(lw.skip(k + 1)) + "]}"@ =~= "]}"@);
    lemma_seg_head(s, pos, "]}"@);
}

/// Reads the fills of a history file from the first record on, demanding
/// that the text ends right after the closing bracket and brace.
fn p_fills_tail(
    chars: &Vec<char>,
    start: usize,
    orders: Vec<OrderPassed>,
    Ghost(canonical): Ghost<bool>,
    Ghost(lw): Ghost<Seq<OrderPassedV>>,
) -> (r: Option<Vec<OrderPassed>>)
    requires
        start <= chars@.len(),
        canonical ==> (chars@ == history_json(lw) && lw.len() >= 1 && order_views(orders@)
            == lw.take(0) && is_seg(chars@, start as int, fill_json(lw[0])) && is_seg(
            chars@,
            start + fill_json(lw[0]).len(),
            fsep_tail(lw.skip(1)) + "]}"@,
        ) && start + fill_json(lw[0]).len() + (fsep_tail(lw.skip(1)) + "]}"@).len()
            == chars@.len()),
    ensures
        canonical ==> (r matches Some(out) && history_json(order_views(out@)) == chars@),
{
    let mut orders = orders;
    let mut pos = start;
    let ghost mut k: int = 0;
    loop
        invariant
            pos <= chars@.len(),
            canonical ==> (chars@ == history_json(lw) && 0 <= k < lw.len() && order_views(orders@)
                == lw.take(k) && is_seg(chars@, pos as int, fill_json(lw[k])) && is_seg(
                chars@,
                pos + fill_json(lw[k]).len(),
                fsep_tail(lw.skip(k + 1)) + "]}"@,
            ) && pos + fill_json(lw[k]).len() + (fsep_tail(lw.skip(k + 1)) + "]}"@).len()
                == chars@.len()),
        decreases chars@.len() - pos,
    {
        match p_fill(
            chars,
            pos,
            Ghost(
                if canonical {
                    Some(lw[k])
                } else {
                    None
                },
            ),
        ) {
            None => {
                proof {
                    if canonical {
                        assert(false);
                    }
                }
                return None
            },
            Some((fill, np)) => {
                proof {
                    if canonical {
                        assert(fill@ == lw[k]);
                        assert(order_views(orders@.push(fill)) =~= lw.take(k + 1));
                    }
                }
                orders.push(fill);
                pos = np;
            },
        }
        proof {
            if canonical {
                if k + 1 == lw.len() {
                    lemma_fills_end(chars@, pos as int, lw, k);
                } else {
                    lemma_fills_step(chars@, pos as int, lw, k);
                }
            }
        }
        if pos >= chars.len() {
            proof {
                if canonical {
                    assert(false);
                }
            }
            return None;
        }
        let c = chars[pos];
        if c == ']' {
            proof {
                if canonical {
                    assert(k + 1 == lw.len()) by {
                        if k + 1 < lw.len() {
                            assert(chars@[pos as int] == ',');
                        }
                    }
                }
            }
            match p_lit(chars, pos, "]}") {
                Some(np) => {
                    if np == chars.len() {
                        proof {
                            if canonical {
                                assert(order_views(orders@) =~= lw);
                                assert(history_json(order_views(orders@)) == chars@);
                            }
                        }
                        return Some(orders);
                    }
                    proof {
                        reveal_strlit("]}");
                        if canonical {
                            assert(false);
                        }
                    }
                    return None;
                },
                None => {
                    proof {
                        if canonical {
                            assert(false);
                        }
                    }
                    return None
                },
            }
        }
        if c != ',' {
            proof {
                if canonical {
                    assert(false);
                }
            }
            return None;
        }
        pos = pos + 1;
        proof {
            if canonical {
                assert(k + 1 < lw.len()) by {
                    if k + 1 == lw.len() {
                        assert(chars@[pos - 1] == ']');
                    }
                }
                k = k + 1;
            }
        }
    }
}

/// Deserializes the order history, accepting a candidate reading only if
/// writing it back out reproduces the input exactly; on the encoding of any
/// fill list, the read succeeds.
pub fn parse_orders(content: &str) -> (r: Option<Vec<OrderPassed>>)
    ensures
        r matches Some(l) ==> content@ == history_json(order_views(l@)),
        (exists|l: Seq<OrderPassedV>| content@ == history_json(l)) ==> r is Some,
{
    let ghost canonical = exists|l: Seq<OrderPassedV>| content@ == history_json(l);
    let chars = to_char_vec(content);
    let candidate = match p_history(&chars) {
        Some(l) => l,
        None => {
            proof {
                if canonical {
                    assert(false);
                }
            }
            return None
        },
    };
    proof {
        if canonical {
            assert(history_json(order_views(candidate@)) == content@);
        }
    }
    let reemitted = save_orders(&candidate);
    let owned = content.to_owned();
    if reemitted == owned {
        Some(candidate)
    } else {
        proof {
            if canonical {
                assert(false);
            }
        }
        None
    }
}

/// Loads the order history from what the backing file held: no file or a
/// blank file is an empty history; the encoding of any fill list loads to
/// that list; anything else is malformed.
pub fn get_orders(content: Option<&str>) -> (r: Result<Vec<OrderPassed>, PersistenceError>)
    ensures
        content is None ==> (r matches Ok(l) && l@.len() == 0),
        content matches Some(s) ==> (if is_blank(s@) {
            r matches Ok(l) && l@.len() == 0
        } else {
            match r {
                Ok(l) => s@ == history_json(order_views(l@)),
                Err(e) => e == PersistenceError::Malformed,
            }
        }),
        content matches Some(s) ==> ((exists|l: Seq<OrderPassedV>| s@ == history_json(l)) ==> r
            is Ok),
{
    match content {
        None => Ok(Vec::new()),
        Some(s) => {
            if text_is_blank(s) {
                return Ok(Vec::new());
            }
            match parse_orders(s) {
                Some(l) => Ok(l),
                None => Err(PersistenceError::Malformed),
            }
        },
    }
}

} // verus!
