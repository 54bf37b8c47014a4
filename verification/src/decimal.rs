use crate::primitives::is_digit;
use vstd::prelude::*;
use vstd::string::StringExecFns;

verus! {

/// Whether every character of `s` is a decimal digit.
pub open spec fn all_digits(s: Seq<char>) -> bool {
    forall|i: int| 0 <= i < s.len() ==> is_digit(#[trigger] s[i])
}

/// The number that a digit stands for.
pub open spec fn digit_value(c: char) -> nat {
    (c as int - '0' as int) as nat
}

/// The number that a sequence of digits denotes in base ten; 0 for none.
pub open spec fn decimal_value(s: Seq<char>) -> nat
    decreases s.len(),
{
    if s.len() == 0 {
        0
    } else {
        decimal_value(s.drop_last()) * 10 + digit_value(s.last())
    }
}

/// The integer that digits denote, behind a minus sign where `negative` says
/// that there is one.
pub open spec fn signed_value(negative: bool, digits: Seq<char>) -> int {
    if negative {
        -decimal_value(digits)
    } else {
        decimal_value(digits) as int
    }
}

/// The digit that stands for a number below ten.
pub open spec fn digit_char(d: nat) -> char {
    if d == 0 {
        '0'
    } else if d == 1 {
        '1'
    } else if d == 2 {
        '2'
    } else if d == 3 {
        '3'
    } else if d == 4 {
        '4'
    } else if d == 5 {
        '5'
    } else if d == 6 {
        '6'
    } else if d == 7 {
        '7'
    } else if d == 8 {
        '8'
    } else {
        '9'
    }
}

/// A natural number in base ten, without leading zeros.
pub open spec fn decimal_text(n: nat) -> Seq<char>
    decreases n,
{
    if n < 10 {
        seq![digit_char(n)]
    } else {
        decimal_text(n / 10).push(digit_char(n % 10))
    }
}

/// An integer in base ten, with a minus sign before a negative one.
pub open spec fn integer_text(v: int) -> Seq<char> {
    if v < 0 {
        seq!['-'] + decimal_text((-v) as nat)
    } else {
        decimal_text(v as nat)
    }
}

/// A prefix of a sequence of digits denotes no more than the whole.
pub proof fn lemma_decimal_value_prefix(s: Seq<char>, k: int)
    requires
        0 <= k <= s.len(),
    ensures
        decimal_value(s.take(k)) <= decimal_value(s),
    decreases s.len() - k,
{
    if k < s.len() {
        lemma_decimal_value_prefix(s, k + 1);
        assert(s.take(k + 1).drop_last() =~= s.take(k));
    } else {
        assert(s.take(k) =~= s);
    }
}

/// The integer that `digits` denote in base ten behind a minus sign, where
/// `negative` says that there is one, or `None` where that integer is below
/// `i64::MIN` or beyond `i64::MAX`.
pub(crate) fn to_integer(negative: bool, digits: &str) -> (r: Option<i64>)
    requires
        all_digits(digits@),
    ensures
        match r {
            Some(v) => v == signed_value(negative, digits@),
            None => !(i64::MIN <= signed_value(negative, digits@) <= i64::MAX),
        },
{
    proof {
        assert(vstd::string::is_ascii(digits)) by {
            assert forall|i: int| 0 <= i < digits@.len() implies '\0' <= #[trigger] digits@[i]
                <= '\u{7f}' by {
                assert(is_digit(digits@[i]));
            }
        }
        vstd::string::is_ascii_spec_bytes(digits);
    }
    let bytes = digits.as_bytes();
    let mut magnitude: u64 = 0;
    let mut i: usize = 0;
    assert(digits@.take(0) =~= Seq::<char>::empty());
    while i < bytes.len()
        invariant
            i <= bytes@.len(),
            bytes@.len() == digits@.len(),
            forall|k: int| 0 <= k < bytes@.len() ==> bytes@[k] == digits@[k] as u8,
            all_digits(digits@),
            magnitude == decimal_value(digits@.take(i as int)),
        decreases bytes.len() - i,
    {
        assert(is_digit(digits@[i as int]));
        let d: u64 = (bytes[i] - 48u8) as u64;
        proof {
            assert(digits@.take(i + 1).drop_last() =~= digits@.take(i as int));
            assert(digits@.take(i + 1).last() == digits@[i as int]);
            assert(d == digit_value(digits@[i as int]));
            lemma_decimal_value_prefix(digits@, i + 1);
        }
        match magnitude.checked_mul(10) {
            None => {
                return None;
            },
            Some(tens) => match tens.checked_add(d) {
                None => {
                    return None;
                },
                Some(next) => {
                    magnitude = next;
                },
            },
        }
        i += 1;
    }
    assert(digits@.take(i as int) =~= digits@);
    if negative {
        if magnitude > 0x8000_0000_0000_0000u64 {
            None
        } else if magnitude == 0x8000_0000_0000_0000u64 {
            Some(i64::MIN)
        } else {
            Some(-(magnitude as i64))
        }
    } else if magnitude > 0x7fff_ffff_ffff_ffffu64 {
        None
    } else {
        Some(magnitude as i64)
    }
}

/// The text of a single digit.
fn digit_text(d: u64) -> (text: &'static str)
    requires
        d < 10,
    ensures
        text@ == seq![digit_char(d as nat)],
{
    proof {
        reveal_strlit("0");
        reveal_strlit("1");
        reveal_strlit("2");
        reveal_strlit("3");
        reveal_strlit("4");
        reveal_strlit("5");
        reveal_strlit("6");
        reveal_strlit("7");
        reveal_strlit("8");
        reveal_strlit("9");
    }
    let text = if d == 0 {
        "0"
    } else if d == 1 {
        "1"
    } else if d == 2 {
        "2"
    } else if d == 3 {
        "3"
    } else if d == 4 {
        "4"
    } else if d == 5 {
        "5"
    } else if d == 6 {
        "6"
    } else if d == 7 {
        "7"
    } else if d == 8 {
        "8"
    } else {
        "9"
    };
    assert(text@ =~= seq![digit_char(d as nat)]);
    text
}

/// Appends `n` in base ten to `text`.
pub fn append_decimal(text: &mut String, n: u64)
    ensures
        final(text)@ == old(text)@ + decimal_text(n as nat),
    decreases n,
{
    if n >= 10 {
        append_decimal(text, n / 10);
    }
    text.append(digit_text(n % 10));
    assert(final(text)@ =~= old(text)@ + decimal_text(n as nat));
}

/// Appends `v` in base ten to `text`, with a minus sign where it is negative.
pub fn append_integer(text: &mut String, v: i64)
    ensures
        final(text)@ == old(text)@ + integer_text(v as int),
{
    if v < 0 {
        proof {
            reveal_strlit("-");
        }
        text.append("-");
        let magnitude: u64 = (-(v as i128)) as u64;
        append_decimal(text, magnitude);
        assert(final(text)@ =~= old(text)@ + integer_text(v as int));
    } else {
        append_decimal(text, v as u64);
    }
}

} // verus!
