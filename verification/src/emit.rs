use crate::decimal::{decimal_text, integer_text};
use crate::error::CompileError;
use crate::token::Tree;
use vstd::prelude::*;

verus! {

/// A compiler as mathematics: the free registers and the registers in use,
/// each a stack whose top is the last element, and the lines emitted so far.
pub struct CompilerView {
    pub free: Seq<u8>,
    pub used: Seq<u8>,
    pub assembly: Seq<Seq<char>>,
}

/// The state of a new compiler: the registers 0 to 30 free, with 0 on top.
pub open spec fn fresh() -> CompilerView {
    CompilerView {
        free: Seq::new(31, |i: int| (30 - i) as u8),
        used: Seq::empty(),
        assembly: Seq::empty(),
    }
}

/// Where a traversal ended: the state it reached and, where it stopped
/// early, the reason.
pub struct Visit {
    pub state: CompilerView,
    pub error: Option<CompileError>,
}

/// The text of a literal as an operand: an integer in base ten, a float as
/// it is written.
pub open spec fn literal_text(literal: Tree) -> Seq<char> {
    match literal {
        Tree::Integer { value } => integer_text(value as int),
        Tree::Float { negative, whole, fraction } => (if negative {
            "-"@
        } else {
            Seq::<char>::empty()
        }) + whole + "."@ + fraction,
        _ => Seq::<char>::empty(),
    }
}

/// The name of a register, as instructions write it.
pub open spec fn register_text(register: u8) -> Seq<char> {
    "$"@ + decimal_text(register as nat)
}

/// The instruction that loads `operand` into `register`.
pub open spec fn load_line(register: u8, operand: Seq<char>) -> Seq<char> {
    "LOAD "@ + register_text(register) + " #"@ + operand
}

/// The mnemonic of an operator.
pub open spec fn mnemonic(operator: Tree) -> Seq<char> {
    match operator {
        Tree::AdditionOperator => "ADD"@,
        Tree::SubtractionOperator => "SUB"@,
        Tree::MultiplicationOperator => "MUL"@,
        _ => "DIV"@,
    }
}

/// Whether the instruction of `operator` names the register of its right
/// operand first: so do addition and subtraction, and the others do not.
pub open spec fn right_first(operator: Tree) -> bool {
    operator is AdditionOperator || operator is SubtractionOperator
}

/// The instruction of `operator` on the registers of its operands, with
/// `result` as the register that takes the outcome.
pub open spec fn operation_line(operator: Tree, left: u8, right: u8, result: u8) -> Seq<char> {
    let first = if right_first(operator) {
        right
    } else {
        left
    };
    let second = if right_first(operator) {
        left
    } else {
        right
    };
    mnemonic(operator) + " "@ + register_text(first) + " "@ + register_text(second) + " "@
        + register_text(result)
}

/// A traversal that ended well in `state`.
pub open spec fn done(state: CompilerView) -> Visit {
    Visit { state, error: None }
}

/// A traversal that stopped in `state` for `error`.
pub open spec fn stopped(state: CompilerView, error: CompileError) -> Visit {
    Visit { state, error: Some(error) }
}

/// Visiting a literal: the register on top of the free stack moves to the
/// stack in use, and one instruction loads the literal into it. Without a
/// free register nothing changes.
pub open spec fn load(state: CompilerView, operand: Seq<char>) -> Visit {
    if state.free.len() == 0 {
        stopped(state, CompileError::RegisterExhausted)
    } else {
        let register = state.free.last();
        done(
            CompilerView {
                free: state.free.drop_last(),
                used: state.used.push(register),
                assembly: state.assembly.push(load_line(register, operand)),
            },
        )
    }
}

/// Visiting an operator: the two registers on top of the stack in use are
/// taken as the right and then the left operand, the register on top of the
/// free stack takes the outcome and goes in use, one instruction is emitted,
/// and the right and then the left operand's register go back to the free
/// stack. With fewer than two operands, or else without a free register,
/// nothing changes.
pub open spec fn operate(state: CompilerView, operator: Tree) -> Visit {
    if state.used.len() < 2 {
        stopped(state, CompileError::OperandStackUnderflow)
    } else if state.free.len() == 0 {
        stopped(state, CompileError::RegisterExhausted)
    } else {
        let right = state.used[state.used.len() - 1];
        let left = state.used[state.used.len() - 2];
        let result = state.free.last();
        done(
            CompilerView {
                free: state.free.drop_last().push(right).push(left),
                used: state.used.take(state.used.len() - 2).push(result),
                assembly: state.assembly.push(operation_line(operator, left, right, result)),
            },
        )
    }
}

/// Visiting a tree: post-order, stopping at the first step that fails.
pub open spec fn visit(state: CompilerView, tree: Tree) -> Visit
    decreases tree, 0int,
{
    match tree {
        Tree::AdditionOperator
        | Tree::SubtractionOperator
        | Tree::MultiplicationOperator
        | Tree::DivisionOperator => operate(state, tree),
        Tree::Integer { .. } | Tree::Float { .. } => load(state, literal_text(tree)),
        Tree::Factor { value } => visit(state, *value),
        Tree::Term { left, right } | Tree::Expression { left, right } => {
            let first = visit(state, *left);
            if first.error is Some {
                first
            } else {
                visit_pairs(first.state, right, 0)
            }
        },
        Tree::Program { expressions } => visit_each(state, expressions, 0),
    }
}

/// Visiting the pairs from index `from` on: of each the operand and then
/// the operator.
pub open spec fn visit_pairs(state: CompilerView, pairs: Seq<(Tree, Tree)>, from: int) -> Visit
    decreases pairs, pairs.len() - from,
{
    if 0 <= from < pairs.len() {
        let operand = visit(state, pairs[from].1);
        if operand.error is Some {
            operand
        } else {
            let operator = visit(operand.state, pairs[from].0);
            if operator.error is Some {
                operator
            } else {
                visit_pairs(operator.state, pairs, from + 1)
            }
        }
    } else {
        done(state)
    }
}

/// Visiting the trees from index `from` on, in order.
pub open spec fn visit_each(state: CompilerView, trees: Seq<Tree>, from: int) -> Visit
    decreases trees, trees.len() - from,
{
    if 0 <= from < trees.len() {
        let one = visit(state, trees[from]);
        if one.error is Some {
            one
        } else {
            visit_each(one.state, trees, from + 1)
        }
    } else {
        done(state)
    }
}

} // verus!
