//! Formatting of answers.
//!
//! SCPI leaves no freedom here: integers are answered in NR1 form, with no
//! padding and a sign only when negative, and booleans as the `1` or `0` the
//! standard expects.
use vstd::prelude::*;
use crate::text::{all_digits, digit_char, digits_value, int_text, int_to_string, is_ascii_digit, nat_text};

verus! {

/// The text of a boolean answer.
pub open spec fn boolean_text(v: bool) -> Seq<char> {
    if v {
        seq!['1']
    } else {
        seq!['0']
    }
}

/// Formats an integer as an SCPI answer (NR1 form).
pub fn nr1(v: i64) -> (r: String)
    ensures
        r@ == int_text(v as int),
{
    int_to_string(v)
}

/// Formats a boolean as the 1 or 0 the standard expects.
pub fn boolean(v: bool) -> (r: String)
    ensures
        r@ == boolean_text(v),
{
    let s = if v { "1" } else { "0" };
    proof {
        reveal_strlit("1");
        reveal_strlit("0");
    }
    s.to_owned()
}

/// The integer a text in NR1 form stands for: an optional minus sign, then
/// decimal digits.
pub open spec fn nr1_value(t: Seq<char>) -> int {
    if t.len() > 0 && t[0] == '-' {
        -(digits_value(t.drop_first()) as int)
    } else {
        digits_value(t) as int
    }
}

/// The decimal text of a natural number is made of digits and reads back as
/// the number.
proof fn lemma_nat_text_reads_back(n: nat)
    ensures
        nat_text(n).len() > 0,
        all_digits(nat_text(n)),
        digits_value(nat_text(n)) == n,
    decreases n,
{
    let d = (n % 10) as nat;
    assert(d < 10);
    assert(digit_char(d) as int == d + 48);
    if n >= 10 {
        lemma_nat_text_reads_back(n / 10);
        let t = nat_text(n);
        assert(t.drop_last() == nat_text(n / 10));
        assert(t.last() == digit_char(d));
        assert(n == (n / 10) * 10 + d);
        assert(digits_value(t) == digits_value(t.drop_last()) * 10 + ((t.last() as int) - ('0' as int)) as nat);
        assert forall|i: int| 0 <= i < t.len() implies is_ascii_digit(#[trigger] t[i]) by {
            if i < t.len() - 1 {
                assert(t[i] == nat_text(n / 10)[i]);
            }
        }
    } else {
        let t = nat_text(n);
        assert(t.drop_last() =~= Seq::<char>::empty());
        assert(t.last() == digit_char(d));
        assert(digits_value(t.drop_last()) == 0);
        assert(digits_value(t) == digits_value(t.drop_last()) * 10 + ((t.last() as int) - ('0' as int)) as nat);
    }
}

/// An integer in NR1 form reads back as itself, and is written with digits
/// only, after a minus sign when it is negative: no plus sign, no spaces, no
/// point and no exponent.
pub proof fn law_nr1_reads_back(v: int)
    ensures
        nr1_value(int_text(v)) == v,
        v < 0 ==> int_text(v)[0] == '-' && int_text(v).drop_first().len() > 0 && all_digits(
            int_text(v).drop_first(),
        ),
        v >= 0 ==> int_text(v).len() > 0 && all_digits(int_text(v)),
{
    if v < 0 {
        lemma_nat_text_reads_back((-v) as nat);
        assert(int_text(v).drop_first() =~= nat_text((-v) as nat));
    } else {
        lemma_nat_text_reads_back(v as nat);
        assert(is_ascii_digit(nat_text(v as nat)[0]));
    }
}

} // verus!
