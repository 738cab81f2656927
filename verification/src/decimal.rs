//! Decimal text for order identifiers.
//!
//! Identifiers are integers inside the book and decimal strings on the wire.
//! This module renders an identifier as its shortest decimal text and reads
//! such a text back, and proves that reading undoes rendering.

use vstd::prelude::*;
use vstd::string::StringExecFns;

verus! {

/// The character that stands for the digit `d`.
pub open spec fn digit_char(d: nat) -> char
    recommends
        d < 10,
{
    if d == 0 {
        '0'
    } else if d == 1 {
        '1'
    } else if d == 2 {
        '2'
    } else if d == 3 {
        '3'
    } else if d == 4 {
        '4'
    } else if d == 5 {
        '5'
    } else if d == 6 {
        '6'
    } else if d == 7 {
        '7'
    } else if d == 8 {
        '8'
    } else {
        '9'
    }
}

/// The digit that `c` stands for, if it is one of `'0'` to `'9'`.
pub open spec fn digit_value(c: char) -> Option<nat> {
    if c == '0' {
        Some(0)
    } else if c == '1' {
        Some(1)
    } else if c == '2' {
        Some(2)
    } else if c == '3' {
        Some(3)
    } else if c == '4' {
        Some(4)
    } else if c == '5' {
        Some(5)
    } else if c == '6' {
        Some(6)
    } else if c == '7' {
        Some(7)
    } else if c == '8' {
        Some(8)
    } else if c == '9' {
        Some(9)
    } else {
        None
    }
}

/// The shortest decimal text of `n`: no leading zero, except for zero itself.
pub open spec fn decimal_digits(n: nat) -> Seq<char>
    decreases n,
{
    if n < 10 {
        seq![digit_char(n)]
    } else {
        decimal_digits(n / 10).push(digit_char(n % 10))
    }
}

/// A text is decimal when it is not empty and holds digits only.
pub open spec fn is_decimal(s: Seq<char>) -> bool {
    &&& s.len() > 0
    &&& forall|i: int| 0 <= i < s.len() ==> (#[trigger] digit_value(s[i])) is Some
}

/// The number that a text of digits denotes, read from the left.
pub open spec fn digits_value(s: Seq<char>) -> nat
    decreases s.len(),
{
    if s.len() == 0 {
        0
    } else {
        digits_value(s.drop_last()) * 10 + match digit_value(s.last()) {
            Some(d) => d,
            None => 0,
        }
    }
}

/// What reading `s` as an identifier gives: its value when `s` is decimal and
/// the value fits in 32 bits, nothing otherwise.
pub open spec fn parsed(s: Seq<char>) -> Option<u32> {
    if is_decimal(s) && digits_value(s) <= u32::MAX {
        Some(digits_value(s) as u32)
    } else {
        None
    }
}

/// Reading the rendered text of a number gives the number back.
pub proof fn lemma_decimal_round_trip(n: nat)
    ensures
        is_decimal(decimal_digits(n)),
        digits_value(decimal_digits(n)) == n,
    decreases n,
{
    let s = decimal_digits(n);
    if n < 10 {
        assert(s.drop_last() =~= Seq::<char>::empty());
        assert(digits_value(s.drop_last()) == 0);
        assert(digit_value(s.last()) == Some(n));
    } else {
        lemma_decimal_round_trip(n / 10);
        let head = decimal_digits(n / 10);
        assert(s.drop_last() =~= head);
        assert(digit_value(s.last()) == Some(n % 10));
        assert forall|i: int| 0 <= i < s.len() implies (#[trigger] digit_value(s[i])) is Some by {
            if i < head.len() {
                assert(s[i] == head[i]);
            }
        }
    }
}

/// A rendered identifier reads back as itself.
pub proof fn lemma_parse_undoes_render(n: u32)
    ensures
        parsed(decimal_digits(n as nat)) == Some(n),
{
    lemma_decimal_round_trip(n as nat);
}

/// A longer text of digits denotes at least as much as any of its prefixes.
proof fn lemma_prefix_value(s: Seq<char>, k: int)
    requires
        0 <= k <= s.len(),
    ensures
        digits_value(s.take(k)) <= digits_value(s),
    decreases s.len(),
{
    if k == s.len() {
        assert(s.take(k) =~= s);
    } else {
        lemma_prefix_value(s.drop_last(), k);
        assert(s.drop_last().take(k) =~= s.take(k));
    }
}

/// The one-character text of a digit.
fn digit_text(d: u32) -> (text: &'static str)
    requires
        d < 10,
    ensures
        text@ == seq![digit_char(d as nat)],
{
    proof {
        reveal_strlit("0");
        reveal_strlit("1");
        reveal_strlit("2");
        reveal_strlit("3");
        reveal_strlit("4");
        reveal_strlit("5");
        reveal_strlit("6");
        reveal_strlit("7");
        reveal_strlit("8");
        reveal_strlit("9");
    }
    let text = if d == 0 {
        "0"
    } else if d == 1 {
        "1"
    } else if d == 2 {
        "2"
    } else if d == 3 {
        "3"
    } else if d == 4 {
        "4"
    } else if d == 5 {
        "5"
    } else if d == 6 {
        "6"
    } else if d == 7 {
        "7"
    } else if d == 8 {
        "8"
    } else {
        "9"
    };
    assert(text@ =~= seq![digit_char(d as nat)]);
    text
}

/// The digits that stand before those already rendered: none once nothing
/// is left of the number.
spec fn leading_digits(n: nat) -> Seq<char> {
    if n == 0 {
        Seq::empty()
    } else {
        decimal_digits(n)
    }
}

/// Renders `n` as its shortest decimal text.
pub fn render(n: u32) -> (text: String)
    ensures
        text@ == decimal_digits(n as nat),
{
    let mut rest: u32 = n / 10;
    let mut text = String::from_str(digit_text(n % 10));
    assert(leading_digits(rest as nat) + text@ =~= decimal_digits(n as nat));
    while rest > 0
        invariant
            leading_digits(rest as nat) + text@ == decimal_digits(n as nat),
        decreases rest,
    {
        let head = String::from_str(digit_text(rest % 10));
        proof {
            assert(leading_digits((rest / 10) as nat) + head@ =~= decimal_digits(rest as nat));
            assert(leading_digits((rest / 10) as nat) + (head@ + text@) =~= leading_digits(
                rest as nat,
            ) + text@);
        }
        text = head.concat(text.as_str());
        rest = rest / 10;
    }
    assert(leading_digits(0) + text@ =~= text@);
    text
}

/// The digit that a character stands for, if it is a digit.
fn digit_of(c: char) -> (digit: Option<u32>)
    ensures
        match digit {
            Some(d) => digit_value(c) == Some(d as nat),
            None => digit_value(c) is None,
        },
{
    if c == '0' {
        Some(0)
    } else if c == '1' {
        Some(1)
    } else if c == '2' {
        Some(2)
    } else if c == '3' {
        Some(3)
    } else if c == '4' {
        Some(4)
    } else if c == '5' {
        Some(5)
    } else if c == '6' {
        Some(6)
    } else if c == '7' {
        Some(7)
    } else if c == '8' {
        Some(8)
    } else if c == '9' {
        Some(9)
    } else {
        None
    }
}

/// Reads a decimal text as an identifier. Leading zeros are read as part of
/// the number; a sign, a blank or any other character makes the text invalid,
/// and so does a value that does not fit in 32 bits.
pub fn parse(text: &str) -> (value: Option<u32>)
    ensures
        value == parsed(text@),
{
    let mut acc: u64 = 0;
    let mut seen = false;
    for c in it: text.chars()
        invariant
            it.seq() == text@,
            seen == (it.index() > 0),
            acc == digits_value(text@.take(it.index() as int)),
            acc <= u32::MAX,
            forall|i: int| 0 <= i < it.index() ==> (#[trigger] digit_value(text@[i])) is Some,
    {
        let ghost k = it.index() as int;
        proof {
            assert(text@.take(k + 1).drop_last() =~= text@.take(k));
            assert(text@.take(k + 1).last() == text@[k]);
        }
        match digit_of(c) {
            None => {
                return None;
            },
            Some(d) => {
                let next: u64 = acc * 10 + d as u64;
                if next > u32::MAX as u64 {
                    proof {
                        lemma_prefix_value(text@, k + 1);
                    }
                    return None;
                }
                acc = next;
            },
        }
        seen = true;
    }
    proof {
        assert(text@.take(text@.len() as int) =~= text@);
    }
    if seen {
        Some(acc as u32)
    } else {
        None
    }
}

} // verus!
