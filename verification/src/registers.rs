use crate::emit::{
    fresh, load, operate, visit, visit_each, visit_pairs, CompilerView, Visit,
};
use crate::error::CompileError;
use crate::grammar::{lemma_program_advances, program_rule};
use crate::token::Tree;
use vstd::multiset::Multiset;
use vstd::prelude::*;

verus! {

/// The larger of two numbers.
pub open spec fn larger(a: nat, b: nat) -> nat {
    if a >= b {
        a
    } else {
        b
    }
}

/// How many registers must be free for a visit of `tree` to go through: the
/// most that the visit holds at once, counting the register that takes the
/// outcome of an operator beside those of its two operands.
pub open spec fn demand(tree: Tree) -> nat
    decreases tree, 0int,
{
    match tree {
        Tree::Factor { value } => demand(*value),
        Tree::Term { left, right } | Tree::Expression { left, right } => larger(
            demand(*left),
            1 + pairs_demand(right, 0),
        ),
        Tree::Program { expressions } => each_demand(expressions, 0),
        _ => 1,
    }
}

/// How many registers must be free for a visit of the pairs from `from` on,
/// while the value to their left is held: each operand needs its own demand,
/// and a second register for the outcome of its operator.
pub open spec fn pairs_demand(pairs: Seq<(Tree, Tree)>, from: int) -> nat
    decreases pairs, pairs.len() - from,
{
    if 0 <= from < pairs.len() {
        larger(larger(demand(pairs[from].1), 2), pairs_demand(pairs, from + 1))
    } else {
        0
    }
}

/// How many registers must be free for a visit of the expressions from
/// `from` on: each keeps one register for good.
pub open spec fn each_demand(trees: Seq<Tree>, from: int) -> nat
    decreases trees, trees.len() - from,
{
    if 0 <= from < trees.len() {
        larger(demand(trees[from]), 1 + each_demand(trees, from + 1))
    } else {
        0
    }
}

/// A well-formed literal, factor, term or expression: what leaves one value.
pub open spec fn is_operand(tree: Tree) -> bool {
    tree.is_literal() || tree.is_factor() || tree.is_term() || tree.is_expression()
}

/// Whether each pair holds an operator and an operand.
pub open spec fn are_operations(pairs: Seq<(Tree, Tree)>) -> bool {
    forall|i: int|
        0 <= i < pairs.len() ==> (#[trigger] pairs[i]).0.is_operator() && is_operand(pairs[i].1)
}

/// What a visit that needs `needed` registers and leaves `kept` values makes
/// of `before`: with enough free registers it goes through, `kept` registers
/// move from the free ones to those in use, and otherwise it stops for want
/// of a register.
pub open spec fn allotted(before: CompilerView, after: Visit, needed: nat, kept: nat) -> bool {
    if needed <= before.free.len() {
        &&& after.error is None
        &&& after.state.free.len() == before.free.len() - kept
        &&& after.state.used.len() == before.used.len() + kept
    } else {
        after.error == Some(CompileError::RegisterExhausted)
    }
}

/// A visit of a well-formed operand goes through exactly where its demand is
/// met, and leaves one value.
pub proof fn lemma_operand_demand(state: CompilerView, tree: Tree)
    requires
        is_operand(tree),
    ensures
        demand(tree) >= 1,
        allotted(state, visit(state, tree), demand(tree), 1),
    decreases tree, 0int,
{
    match tree {
        Tree::Factor { value } => {
            lemma_operand_demand(state, *value);
        },
        Tree::Term { left, right } | Tree::Expression { left, right } => {
            lemma_operand_demand(state, *left);
            let first = visit(state, *left);
            if first.error is None {
                lemma_pairs_demand(first.state, right, 0);
            }
        },
        _ => {},
    }
}

/// A visit of well-formed pairs behind a held value goes through exactly
/// where their demand is met, and leaves the number of values as it was.
pub proof fn lemma_pairs_demand(state: CompilerView, pairs: Seq<(Tree, Tree)>, from: int)
    requires
        are_operations(pairs),
        0 <= from <= pairs.len(),
        state.used.len() >= 1,
    ensures
        allotted(state, visit_pairs(state, pairs, from), pairs_demand(pairs, from), 0),
    decreases pairs, pairs.len() - from,
{
    if from < pairs.len() {
        assert(pairs[from].0.is_operator() && is_operand(pairs[from].1));
        lemma_operand_demand(state, pairs[from].1);
        let operand = visit(state, pairs[from].1);
        if operand.error is None {
            let operator = visit(operand.state, pairs[from].0);
            assert(operator == operate(operand.state, pairs[from].0));
            if operator.error is None {
                lemma_pairs_demand(operator.state, pairs, from + 1);
            }
        }
    }
}

/// A visit of well-formed expressions goes through exactly where their
/// demand is met, and leaves one value for each.
pub proof fn lemma_each_demand(state: CompilerView, trees: Seq<Tree>, from: int)
    requires
        forall|i: int| 0 <= i < trees.len() ==> is_operand(#[trigger] trees[i]),
        0 <= from <= trees.len(),
    ensures
        allotted(
            state,
            visit_each(state, trees, from),
            each_demand(trees, from),
            (trees.len() - from) as nat,
        ),
    decreases trees, trees.len() - from,
{
    if from < trees.len() {
        lemma_operand_demand(state, trees[from]);
        let one = visit(state, trees[from]);
        if one.error is None {
            lemma_each_demand(one.state, trees, from + 1);
        }
    }
}

/// A visit of a well-formed tree fails for want of a register exactly where
/// the tree demands more registers than are free; otherwise it goes through.
/// It never fails for want of an operand.
pub proof fn law_registers_exhausted(state: CompilerView, tree: Tree)
    requires
        is_operand(tree) || tree.is_program(),
    ensures
        visit(state, tree).error == if demand(tree) <= state.free.len() {
            None
        } else {
            Some(CompileError::RegisterExhausted)
        },
{
    if tree.is_program() {
        let expressions = tree->expressions;
        assert forall|i: int| 0 <= i < expressions.len() implies is_operand(
            #[trigger] expressions[i],
        ) by {
            assert(expressions[i].is_expression());
        }
        lemma_each_demand(state, expressions, 0);
    } else {
        lemma_operand_demand(state, tree);
    }
}

/// The registers of a compiler, free or in use, each as often as it occurs.
pub open spec fn pool(state: CompilerView) -> Multiset<u8> {
    state.free.to_multiset().add(state.used.to_multiset())
}

/// Visiting a literal keeps the registers.
pub proof fn lemma_load_keeps_pool(state: CompilerView, operand: Seq<char>)
    ensures
        pool(load(state, operand).state) == pool(state),
{
    broadcast use vstd::seq_lib::to_multiset_build;

    if state.free.len() > 0 {
        assert(state.free =~= state.free.drop_last().push(state.free.last()));
        assert(pool(load(state, operand).state) =~= pool(state));
    }
}

/// Visiting an operator keeps the registers.
pub proof fn lemma_operate_keeps_pool(state: CompilerView, operator: Tree)
    ensures
        pool(operate(state, operator).state) == pool(state),
{
    broadcast use vstd::seq_lib::to_multiset_build;

    if state.used.len() >= 2 && state.free.len() > 0 {
        let n = state.used.len() as int;
        assert(state.free =~= state.free.drop_last().push(state.free.last()));
        assert(state.used =~= state.used.take(n - 2).push(state.used[n - 2]).push(
            state.used[n - 1],
        ));
        assert(pool(operate(state, operator).state) =~= pool(state));
    }
}

/// No visit makes or loses a register: whatever the tree and however the
/// visit ends, the registers that are free or in use afterwards are those
/// that were free or in use before. Where no register occurred twice, none
/// does afterwards, so no register in use is ever handed out again.
pub proof fn law_registers_kept(state: CompilerView, tree: Tree)
    ensures
        pool(visit(state, tree).state) == pool(state),
    decreases tree, 0int,
{
    match tree {
        Tree::Factor { value } => {
            law_registers_kept(state, *value);
        },
        Tree::Term { left, right } | Tree::Expression { left, right } => {
            law_registers_kept(state, *left);
            lemma_pairs_keep_pool(visit(state, *left).state, right, 0);
        },
        Tree::Program { expressions } => {
            lemma_each_keeps_pool(state, expressions, 0);
        },
        Tree::Integer { .. } | Tree::Float { .. } => {
            lemma_load_keeps_pool(state, crate::emit::literal_text(tree));
        },
        _ => {
            lemma_operate_keeps_pool(state, tree);
        },
    }
}

/// Visiting pairs keeps the registers.
pub proof fn lemma_pairs_keep_pool(state: CompilerView, pairs: Seq<(Tree, Tree)>, from: int)
    ensures
        pool(visit_pairs(state, pairs, from).state) == pool(state),
    decreases pairs, pairs.len() - from,
{
    if 0 <= from < pairs.len() {
        law_registers_kept(state, pairs[from].1);
        let operand = visit(state, pairs[from].1);
        law_registers_kept(operand.state, pairs[from].0);
        let operator = visit(operand.state, pairs[from].0);
        lemma_pairs_keep_pool(operator.state, pairs, from + 1);
    }
}

/// Visiting trees in turn keeps the registers.
pub proof fn lemma_each_keeps_pool(state: CompilerView, trees: Seq<Tree>, from: int)
    ensures
        pool(visit_each(state, trees, from).state) == pool(state),
    decreases trees, trees.len() - from,
{
    if 0 <= from < trees.len() {
        law_registers_kept(state, trees[from]);
        lemma_each_keeps_pool(visit(state, trees[from]).state, trees, from + 1);
    }
}

/// Visiting is a function of the state and the tree: two visits of one tree
/// from one state emit the same instructions and end alike.
pub proof fn law_visiting_is_deterministic(
    first: CompilerView,
    second: CompilerView,
    tree: Tree,
)
    requires
        first == second,
    ensures
        visit(first, tree) == visit(second, tree),
        visit(first, tree).state.assembly == visit(second, tree).state.assembly,
{
}

/// Whatever program the grammar reads, a new compiler turns it into
/// instructions unless it demands more than the 31 registers, and then the
/// visit stops for want of a register: no operator of a parsed program ever
/// lacks an operand.
pub proof fn law_parsed_program_compiles(text: Seq<char>)
    ensures
        program_rule(text) matches Ok((_, tree)) ==> visit(fresh(), tree).error == if demand(
            tree,
        ) <= 31 {
            None
        } else {
            Some(CompileError::RegisterExhausted)
        },
{
    lemma_program_advances(text);
    if let Ok((_, tree)) = program_rule(text) {
        law_registers_exhausted(fresh(), tree);
    }
}

} // verus!
