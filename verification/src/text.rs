//! Decimal numerals.

use vstd::prelude::*;
use vstd::string::*;

verus! {

/// The character of a decimal digit.
pub open spec fn digit_char(d: nat) -> char {
    if d == 0 {
        '0'
    } else if d == 1 {
        '1'
    } else if d == 2 {
        '2'
    } else if d == 3 {
        '3'
    } else if d == 4 {
        '4'
    } else if d == 5 {
        '5'
    } else if d == 6 {
        '6'
    } else if d == 7 {
        '7'
    } else if d == 8 {
        '8'
    } else {
        '9'
    }
}

/// The decimal numeral of `n`, without leading zeros.
pub open spec fn decimal(n: nat) -> Seq<char>
    decreases n,
{
    if n < 10 {
        seq![digit_char(n)]
    } else {
        decimal(n / 10).push(digit_char(n % 10))
    }
}

/// The numerals of `values`, each followed by `", "` but the last.
pub open spec fn decimal_list(values: Seq<u64>) -> Seq<char>
    decreases values.len(),
{
    if values.len() == 0 {
        Seq::empty()
    } else if values.len() == 1 {
        decimal(values[0] as nat)
    } else {
        decimal_list(values.drop_last()) + seq![',', ' '] + decimal(values.last() as nat)
    }
}

/// Calls `String::push`, which appends one character to the string.
#[verifier::external_body]
pub(crate) fn string_push(out: &mut String, c: char)
    ensures
        final(out)@ == old(out)@.push(c),
{
    out.push(c)
}

fn digit(d: u64) -> (c: char)
    requires
        d < 10,
    ensures
        c == digit_char(d as nat),
{
    if d == 0 {
        '0'
    } else if d == 1 {
        '1'
    } else if d == 2 {
        '2'
    } else if d == 3 {
        '3'
    } else if d == 4 {
        '4'
    } else if d == 5 {
        '5'
    } else if d == 6 {
        '6'
    } else if d == 7 {
        '7'
    } else if d == 8 {
        '8'
    } else {
        '9'
    }
}

/// Appends the decimal numeral of `n` to `out`.
pub fn push_decimal(out: &mut String, n: u64)
    ensures
        final(out)@ == old(out)@ + decimal(n as nat),
    decreases n,
{
    if n >= 10 {
        push_decimal(out, n / 10);
        string_push(out, digit(n % 10));
        assert(out@ =~= old(out)@ + decimal((n / 10) as nat).push(digit_char((n % 10) as nat)));
    } else {
        string_push(out, digit(n));
        assert(out@ =~= old(out)@ + seq![digit_char(n as nat)]);
    }
}

/// Appends the numerals of `values`, separated by `", "`, to `out`.
pub fn push_decimal_list(out: &mut String, values: &Vec<u64>)
    ensures
        final(out)@ == old(out)@ + decimal_list(values@),
{
    let ghost start = out@;
    let mut i: usize = 0;
    assert(decimal_list(values@.take(0)) =~= Seq::<char>::empty());
    assert(out@ =~= start + decimal_list(values@.take(0)));
    while i < values.len()
        invariant
            i <= values@.len(),
            out@ == start + decimal_list(values@.take(i as int)),
        decreases values@.len() - i,
    {
        let ghost before = out@;
        if i > 0 {
            string_push(out, ',');
            string_push(out, ' ');
        }
        push_decimal(out, values[i]);
        proof {
            let prefix = values@.take(i + 1);
            assert(prefix.drop_last() =~= values@.take(i as int));
            assert(prefix.last() == values@[i as int]);
            if i == 0 {
                assert(decimal_list(values@.take(0)) =~= Seq::<char>::empty());
                assert(out@ =~= start + decimal_list(prefix));
            } else {
                assert(before.push(',').push(' ') + decimal(values@[i as int] as nat) =~= start + (
                decimal_list(values@.take(i as int)) + seq![',', ' '] + decimal(
                    values@[i as int] as nat,
                )));
            }
        }
        i += 1;
    }
    assert(values@.take(values@.len() as int) =~= values@);
}

} // verus!
