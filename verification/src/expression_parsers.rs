use crate::error::{Failure, ParseError};
use crate::grammar::{after, consuming, expression_rule, expression_tail, parsed, term_rule};
use crate::operator_parsers::{addition_operator, subtraction_operator};
use crate::term_parsers::term_parser;
use crate::token::{pair_trees, Token, Tree};
use vstd::prelude::*;

verus! {

/// Reads an expression: a term, then any number of `+` or `-` each with a
/// term.
pub fn expression_parser<'a>(input: &'a str) -> (r: Result<(&'a str, Token), ParseError<'a>>)
    ensures
        parsed(r) == expression_rule(input@),
        r matches Ok((rest, _)) ==> rest@.len() < input@.len(),
    decreases input@.len(), 5int,
{
    let (origin, left) = match term_parser(input) {
        Ok(found) => found,
        Err(e) => {
            return Err(e);
        },
    };
    let mut rest = origin;
    let mut right: Vec<(Token, Token)> = Vec::new();
    assert(pair_trees(right@) =~= Seq::<(Tree, Tree)>::empty());
    loop
        invariant_except_break
            expression_tail(origin@) == after(pair_trees(right@), expression_tail(rest@)),
        invariant
            rest@.len() < input@.len(),
            consuming(term_rule(input@), input@) == Ok::<(Seq<char>, Tree), Failure>(
                (origin@, left@),
            ),
        ensures
            expression_tail(origin@) == Ok::<(Seq<char>, Seq<(Tree, Tree)>), Failure>(
                (rest@, pair_trees(right@)),
            ),
        decreases rest@.len(),
    {
        let found = match addition_operator(rest) {
            Ok(found) => Some(found),
            Err(_) => match subtraction_operator(rest) {
                Ok(found) => Some(found),
                Err(_) => None,
            },
        };
        let (behind, operator) = match found {
            Some(found) => found,
            None => {
                assert(pair_trees(right@) + Seq::<(Tree, Tree)>::empty() =~= pair_trees(right@));
                break ;
            },
        };
        match term_parser(behind) {
            Err(ParseError::LiteralConversionError { remainder }) => {
                return Err(ParseError::LiteralConversionError { remainder });
            },
            Err(ParseError::SyntaxError { .. }) => {
                assert(pair_trees(right@) + Seq::<(Tree, Tree)>::empty() =~= pair_trees(right@));
                break ;
            },
            Ok((next, operand)) => {
                proof {
                    let ghost pair = (operator@, operand@);
                    assert(pair_trees(right@.push((operator, operand))) =~= pair_trees(
                        right@,
                    ).push(pair));
                    match expression_tail(next@) {
                        Ok((end, more)) => {
                            assert(pair_trees(right@) + (seq![pair] + more) =~= pair_trees(
                                right@,
                            ).push(pair) + more);
                        },
                        Err(_) => {},
                    }
                }
                right.push((operator, operand));
                rest = next;
            },
        }
    }
    Ok((rest, Token::Expression { left: Box::new(left), right }))
}

} // verus!
