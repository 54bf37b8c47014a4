use vstd::prelude::*;

verus! {

/// A space, a tab, a carriage return or a line feed.
pub open spec fn is_space(c: char) -> bool {
    c == ' ' || c == '\t' || c == '\r' || c == '\n'
}

/// One of the ten ASCII decimal digits.
pub open spec fn is_digit(c: char) -> bool {
    '0' <= c <= '9'
}

/// How many characters at the start of `s` are whitespace.
pub open spec fn space_run(s: Seq<char>) -> nat
    decreases s.len(),
{
    if s.len() > 0 && is_space(s[0]) {
        1 + space_run(s.skip(1))
    } else {
        0
    }
}

/// How many characters at the start of `s` are decimal digits.
pub open spec fn digit_run(s: Seq<char>) -> nat
    decreases s.len(),
{
    if s.len() > 0 && is_digit(s[0]) {
        1 + digit_run(s.skip(1))
    } else {
        0
    }
}

/// `s` without its leading whitespace.
pub open spec fn skip_space(s: Seq<char>) -> Seq<char> {
    s.skip(space_run(s) as int)
}

/// Whether `s` begins with the character `c`.
pub open spec fn starts_with(s: Seq<char>, c: char) -> bool {
    s.len() > 0 && s[0] == c
}

/// Calls `nom::character::complete::multispace0` on a string slice. That parser
/// never fails on complete input: it splits the input where the first character
/// that is not a space, tab, carriage return or line feed stands, and the
/// contract claims that what is handed back is the part from there on.
#[verifier::external_body]
pub(crate) fn spaces<'a>(input: &'a str) -> (rest: &'a str)
    ensures
        rest@ == skip_space(input@),
{
    match nom::character::complete::multispace0::<&str, nom::error::Error<&str>>(input) {
        Ok((rest, _)) => rest,
        Err(_) => input,
    }
}

/// Calls `nom::character::complete::digit1` on a string slice. That parser splits
/// the input where the first character that is not an ASCII digit stands and
/// fails when the split is at the very start. The contract claims that `Some`
/// holds the digits and then what follows them, and that `None` comes exactly
/// when the input does not begin with a digit.
#[verifier::external_body]
pub(crate) fn digits<'a>(input: &'a str) -> (r: Option<(&'a str, &'a str)>)
    ensures
        match r {
            Some((run, rest)) => {
                &&& digit_run(input@) > 0
                &&& run@ == input@.take(digit_run(input@) as int)
                &&& rest@ == input@.skip(digit_run(input@) as int)
            },
            None => digit_run(input@) == 0,
        },
{
    match nom::character::complete::digit1::<&str, nom::error::Error<&str>>(input) {
        Ok((rest, run)) => Some((run, rest)),
        Err(_) => None,
    }
}

/// Calls the parser that `nom::character::complete::char` builds for `c`. It
/// succeeds exactly when the first character of the input is `c`, and then
/// leaves the input after that character: the contract claims no more.
#[verifier::external_body]
pub(crate) fn character<'a>(c: char, input: &'a str) -> (r: Option<&'a str>)
    ensures
        match r {
            Some(rest) => starts_with(input@, c) && rest@ == input@.skip(1),
            None => !starts_with(input@, c),
        },
{
    match nom::character::complete::char::<&str, nom::error::Error<&str>>(c)(input) {
        Ok((rest, _)) => Some(rest),
        Err(_) => None,
    }
}

/// A run is never longer than the sequence it starts.
pub proof fn lemma_space_run_bound(s: Seq<char>)
    ensures
        space_run(s) <= s.len(),
        skip_space(s).len() == s.len() - space_run(s),
    decreases s.len(),
{
    if s.len() > 0 && is_space(s[0]) {
        lemma_space_run_bound(s.skip(1));
    }
}

/// A run of digits is never longer than the sequence it starts, and holds
/// digits only.
pub proof fn lemma_digit_run_bound(s: Seq<char>)
    ensures
        digit_run(s) <= s.len(),
        forall|i: int| 0 <= i < digit_run(s) ==> is_digit(#[trigger] s[i]),
    decreases s.len(),
{
    if s.len() > 0 && is_digit(s[0]) {
        lemma_digit_run_bound(s.skip(1));
        assert forall|i: int| 0 <= i < digit_run(s) implies is_digit(#[trigger] s[i]) by {
            if i > 0 {
                assert(s[i] == s.skip(1)[i - 1]);
            }
        }
    }
}

/// What is left behind the leading whitespace begins with none.
pub proof fn lemma_skip_space_trims(s: Seq<char>)
    ensures
        space_run(skip_space(s)) == 0,
        skip_space(skip_space(s)) == skip_space(s),
    decreases s.len(),
{
    if s.len() > 0 && is_space(s[0]) {
        lemma_skip_space_trims(s.skip(1));
        lemma_space_run_bound(s.skip(1));
        assert(skip_space(s) =~= skip_space(s.skip(1)));
    } else {
        assert(skip_space(s) =~= s);
    }
    assert(skip_space(s).skip(0) =~= skip_space(s));
}

} // verus!
