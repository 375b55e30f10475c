//! Small helpers on text: characters of a string slice and decimal numerals.

use crate::small::{digits_new, digits_pop, digits_push, small_digits};
use vstd::prelude::*;
use vstd::string::StringExecFns;

verus! {

/// The characters of `text`, in order.
pub fn chars_of(text: &str) -> (chars: Vec<char>)
    ensures
        chars@ == text@,
{
    let mut chars: Vec<char> = Vec::new();
    for c in it: text.chars()
        invariant
            chars@ == it.seq().take(it.index()),
            it.seq() == text@,
    {
        chars.push(c);
    }
    chars
}

/// The character that stands for the decimal digit `d`.
pub open spec fn digit_char(d: nat) -> char {
    if d == 0 {
        '0'
    } else if d == 1 {
        '1'
    } else if d == 2 {
        '2'
    } else if d == 3 {
        '3'
    } else if d == 4 {
        '4'
    } else if d == 5 {
        '5'
    } else if d == 6 {
        '6'
    } else if d == 7 {
        '7'
    } else if d == 8 {
        '8'
    } else {
        '9'
    }
}

/// The decimal numeral of `n`: most significant digit first, no leading
/// zero, and `"0"` for zero.
pub open spec fn decimal(n: nat) -> Seq<char>
    decreases n,
{
    if n < 10 {
        seq![digit_char(n)]
    } else {
        decimal(n / 10).push(digit_char(n % 10))
    }
}

/// The one-character text of a decimal digit.
fn digit_text(d: usize) -> (text: &'static str)
    requires
        d < 10,
    ensures
        text@ == seq![digit_char(d as nat)],
{
    proof {
        reveal_strlit("0");
        reveal_strlit("1");
        reveal_strlit("2");
        reveal_strlit("3");
        reveal_strlit("4");
        reveal_strlit("5");
        reveal_strlit("6");
        reveal_strlit("7");
        reveal_strlit("8");
        reveal_strlit("9");
    }
    let text = if d == 0 {
        "0"
    } else if d == 1 {
        "1"
    } else if d == 2 {
        "2"
    } else if d == 3 {
        "3"
    } else if d == 4 {
        "4"
    } else if d == 5 {
        "5"
    } else if d == 6 {
        "6"
    } else if d == 7 {
        "7"
    } else if d == 8 {
        "8"
    } else {
        "9"
    };
    assert(text@ =~= seq![digit_char(d as nat)]);
    text
}

/// The text of digits that were gathered least significant first.
pub open spec fn digits_text(digits: Seq<u8>) -> Seq<char>
    decreases digits.len(),
{
    if digits.len() == 0 {
        Seq::empty()
    } else {
        seq![digit_char(digits.last() as nat)] + digits_text(digits.drop_last())
    }
}

/// Appends the decimal numeral of `n` to `out`. The digits are found least
/// significant first, so they are gathered in a small buffer and written
/// from its end.
pub fn push_decimal(out: &mut String, n: usize)
    ensures
        final(out)@ == old(out)@ + decimal(n as nat),
{
    let ghost before = out@;
    let mut buffer = digits_new();
    let mut rest: usize = n;
    loop
        invariant_except_break
            decimal(n as nat) == decimal(rest as nat) + digits_text(small_digits(buffer)),
            forall|i: int|
                0 <= i < small_digits(buffer).len() ==> (#[trigger] small_digits(buffer)[i]) < 10,
        ensures
            decimal(n as nat) == digits_text(small_digits(buffer)),
            forall|i: int|
                0 <= i < small_digits(buffer).len() ==> (#[trigger] small_digits(buffer)[i]) < 10,
        decreases rest,
    {
        let ghost held = small_digits(buffer);
        let digit: u8 = (rest % 10) as u8;
        digits_push(&mut buffer, digit);
        proof {
            assert(small_digits(buffer).drop_last() =~= held);
            assert(digits_text(small_digits(buffer)) == seq![digit_char(digit as nat)]
                + digits_text(held));
        }
        if rest < 10 {
            assert(decimal(n as nat) =~= digits_text(small_digits(buffer)));
            break ;
        }
        assert(decimal(n as nat) =~= decimal((rest / 10) as nat) + digits_text(
            small_digits(buffer),
        ));
        rest = rest / 10;
    }
    assert(out@ + digits_text(small_digits(buffer)) == before + decimal(n as nat));
    loop
        invariant
            out@ + digits_text(small_digits(buffer)) == before + decimal(n as nat),
            forall|i: int|
                0 <= i < small_digits(buffer).len() ==> (#[trigger] small_digits(buffer)[i]) < 10,
        ensures
            out@ == before + decimal(n as nat),
        decreases small_digits(buffer).len(),
    {
        let ghost held = small_digits(buffer);
        let ghost written = out@;
        match digits_pop(&mut buffer) {
            Some(digit) => {
                assert(digit == held[held.len() - 1]);
                out.append(digit_text(digit as usize));
                assert(out@ + digits_text(small_digits(buffer)) =~= written + digits_text(held));
            },
            None => {
                assert(out@ =~= out@ + digits_text(held));
                break ;
            },
        }
    }
}

/// The decimal numeral of `n` as a string.
pub fn decimal_string(n: usize) -> (text: String)
    ensures
        text@ == decimal(n as nat),
{
    let mut text = String::new();
    push_decimal(&mut text, n);
    assert(text@ =~= decimal(n as nat));
    text
}

} // verus!
