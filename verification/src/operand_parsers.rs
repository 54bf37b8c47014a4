use crate::error::ParseError;
use crate::factors_parsers::integer_parser;
use crate::grammar::{integer_rule, parsed};
use crate::token::Token;
use vstd::prelude::*;

verus! {

/// Reads an integer operand: an optional `-` and digits, between optional
/// whitespace.
pub fn integer<'a>(input: &'a str) -> (r: Result<(&'a str, Token), ParseError<'a>>)
    ensures
        parsed(r) == integer_rule(input@),
        r matches Ok((rest, _)) ==> rest@.len() < input@.len(),
{
    integer_parser(input)
}

} // verus!
