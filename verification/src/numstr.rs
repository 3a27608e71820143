//! Decimal text for integers and cent amounts.

use vstd::prelude::*;

verus! {

/// The decimal digit character for `d`.
pub open spec fn digit(d: int) -> char {
    if d == 0 {
        '0'
    } else if d == 1 {
        '1'
    } else if d == 2 {
        '2'
    } else if d == 3 {
        '3'
    } else if d == 4 {
        '4'
    } else if d == 5 {
        '5'
    } else if d == 6 {
        '6'
    } else if d == 7 {
        '7'
    } else if d == 8 {
        '8'
    } else {
        '9'
    }
}

/// The decimal text of `n`, without sign or leading zeros.
pub open spec fn dec_str(n: nat) -> Seq<char>
    decreases n,
{
    if n < 10 {
        seq![digit(n as int)]
    } else {
        dec_str(n / 10) + seq![digit((n % 10) as int)]
    }
}

/// The text of a cent amount, written as whole currency units with the
/// shortest fraction: `9925` cents is `99.25`, `9950` is `99.5`, and
/// `10000` is `100`.
pub open spec fn cents_str(c: nat) -> Seq<char> {
    let f = c % 100;
    if f == 0 {
        dec_str(c / 100)
    } else if f % 10 == 0 {
        dec_str(c / 100) + seq!['.', digit((f / 10) as int)]
    } else {
        dec_str(c / 100) + seq!['.', digit((f / 10) as int), digit((f % 10) as int)]
    }
}

/// The digit character of a value below ten.
pub fn digit_char(d: u64) -> (r: char)
    requires
        d < 10,
    ensures
        r == digit(d as int),
{
    match d {
        0 => '0',
        1 => '1',
        2 => '2',
        3 => '3',
        4 => '4',
        5 => '5',
        6 => '6',
        7 => '7',
        8 => '8',
        _ => '9',
    }
}

/// Appends the decimal text of `n`.
pub fn emit_u64(out: &mut Vec<char>, n: u64)
    ensures
        final(out)@ == old(out)@ + dec_str(n as nat),
    decreases n,
{
    if n < 10 {
        out.push(digit_char(n));
    } else {
        emit_u64(out, n / 10);
        out.push(digit_char(n % 10));
        proof {
            assert(old(out)@ + dec_str((n / 10) as nat) + seq![digit((n % 10) as int)]
                =~= old(out)@ + dec_str(n as nat));
        }
    }
}

/// Appends the text of a cent amount.
pub fn emit_cents(out: &mut Vec<char>, c: u64)
    ensures
        final(out)@ == old(out)@ + cents_str(c as nat),
{
    emit_u64(out, c / 100);
    let frac = c % 100;
    if frac == 0 {
    } else if frac % 10 == 0 {
        out.push('.');
        out.push(digit_char(frac / 10));
        proof {
            assert(old(out)@ + dec_str((c / 100) as nat) + seq!['.'] + seq![
                digit((frac / 10) as int),
            ] =~= old(out)@ + cents_str(c as nat));
        }
    } else {
        out.push('.');
        out.push(digit_char(frac / 10));
        out.push(digit_char(frac % 10));
        proof {
            assert(old(out)@ + dec_str((c / 100) as nat) + seq!['.'] + seq![
                digit((frac / 10) as int),
            ] + seq![digit((frac % 10) as int)] =~= old(out)@ + cents_str(c as nat));
        }
    }
}

/// A decimal digit character.
pub open spec fn is_digit_char(c: char) -> bool {
    c == '0' || c == '1' || c == '2' || c == '3' || c == '4' || c == '5' || c == '6' || c == '7'
        || c == '8' || c == '9'
}

/// The value of a digit character (zero on any other character).
pub open spec fn digit_val(c: char) -> nat {
    if c == '1' {
        1
    } else if c == '2' {
        2
    } else if c == '3' {
        3
    } else if c == '4' {
        4
    } else if c == '5' {
        5
    } else if c == '6' {
        6
    } else if c == '7' {
        7
    } else if c == '8' {
        8
    } else if c == '9' {
        9
    } else {
        0
    }
}

/// Decimal text is digit characters, one of them for a value below ten and
/// at least two otherwise.
pub proof fn lemma_dec_str_digits(n: nat)
    ensures
        dec_str(n).len() >= 1,
        forall|i: int| 0 <= i < dec_str(n).len() ==> is_digit_char(#[trigger] dec_str(n)[i]),
        n >= 10 ==> dec_str(n).len() >= 2,
    decreases n,
{
    if n >= 10 {
        lemma_dec_str_digits(n / 10);
        assert forall|i: int| 0 <= i < dec_str(n).len() implies is_digit_char(
            #[trigger] dec_str(n)[i],
        ) by {
            if i < dec_str(n / 10).len() {
                assert(dec_str(n)[i] == dec_str(n / 10)[i]);
            } else {
                assert(dec_str(n)[i] == digit((n % 10) as int));
            }
        }
    }
}

/// The number that digit text stands for.
pub open spec fn digits_val(s: Seq<char>) -> nat
    decreases s.len(),
{
    if s.len() == 0 {
        0
    } else {
        digits_val(s.drop_last()) * 10 + digit_val(s.last())
    }
}

/// Decimal text stands for the number it was made from.
pub proof fn lemma_dec_str_val(n: nat)
    ensures
        digits_val(dec_str(n)) == n,
    decreases n,
{
    if n < 10 {
        assert(dec_str(n).last() == digit(n as int));
        assert(dec_str(n).drop_last().len() == 0);
        assert(digits_val(dec_str(n).drop_last()) == 0);
        assert(digit_val(digit(n as int)) == n);
    } else {
        lemma_dec_str_val(n / 10);
        assert(dec_str(n).drop_last() =~= dec_str(n / 10));
        assert(dec_str(n).last() == digit((n % 10) as int));
        assert(digit_val(digit((n % 10) as int)) == n % 10);
    }
}

/// Every front part of a number's decimal text stands for no more than the
/// number itself.
pub proof fn lemma_dec_str_prefix_val(n: nat, k: int)
    requires
        0 <= k <= dec_str(n).len(),
    ensures
        digits_val(dec_str(n).take(k)) <= n,
    decreases n,
{
    if k == dec_str(n).len() {
        assert(dec_str(n).take(k) =~= dec_str(n));
        lemma_dec_str_val(n);
    } else if n < 10 {
        assert(dec_str(n).take(k).len() == 0);
    } else {
        assert(dec_str(n).take(k) =~= dec_str(n / 10).take(k));
        lemma_dec_str_prefix_val(n / 10, k);
    }
}

} // verus!
