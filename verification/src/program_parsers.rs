use crate::error::{Failure, ParseError};
use crate::expression_parsers::expression_parser;
use crate::grammar::{after, expression_rule, parsed, program_rule, program_tail};
use crate::token::{trees, Token, Tree};
use vstd::prelude::*;

verus! {

/// Reads a program: one expression, then as many more as follow.
pub fn program_parser<'a>(input: &'a str) -> (r: Result<(&'a str, Token), ParseError<'a>>)
    ensures
        parsed(r) == program_rule(input@),
        r matches Ok((rest, _)) ==> rest@.len() < input@.len(),
{
    let (origin, first) = match expression_parser(input) {
        Ok(found) => found,
        Err(e) => {
            return Err(e);
        },
    };
    let mut rest = origin;
    let mut expressions: Vec<Token> = Vec::new();
    expressions.push(first);
    let ghost head = expressions@[0]@;
    assert(trees(expressions@) =~= seq![head]);
    loop
        invariant_except_break
            after(seq![head], program_tail(origin@)) == after(
                trees(expressions@),
                program_tail(rest@),
            ),
        invariant
            rest@.len() < input@.len(),
            expression_rule(input@) == Ok::<(Seq<char>, Tree), Failure>((origin@, head)),
        ensures
            after(seq![head], program_tail(origin@)) == Ok::<(Seq<char>, Seq<Tree>), Failure>(
                (rest@, trees(expressions@)),
            ),
        decreases rest@.len(),
    {
        match expression_parser(rest) {
            Err(ParseError::LiteralConversionError { remainder }) => {
                return Err(ParseError::LiteralConversionError { remainder });
            },
            Err(ParseError::SyntaxError { .. }) => {
                assert(trees(expressions@) + Seq::<Tree>::empty() =~= trees(expressions@));
                break ;
            },
            Ok((next, expression)) => {
                proof {
                    let ghost tree = expression@;
                    assert(trees(expressions@.push(expression)) =~= trees(expressions@).push(
                        tree,
                    ));
                    match program_tail(next@) {
                        Ok((end, more)) => {
                            assert(trees(expressions@) + (seq![tree] + more) =~= trees(
                                expressions@,
                            ).push(tree) + more);
                        },
                        Err(_) => {},
                    }
                }
                expressions.push(expression);
                rest = next;
            },
        }
    }
    Ok((rest, Token::Program { expressions }))
}

} // verus!
