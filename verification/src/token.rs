use crate::decimal::all_digits;
use vstd::prelude::*;
use vstd::string::StringExecFns;

verus! {

/// A node of the syntax tree.
#[derive(Debug, PartialEq)]
#[allow(inconsistent_fields)]
pub enum Token {
    AdditionOperator,
    SubtractionOperator,
    MultiplicationOperator,
    DivisionOperator,
    Integer { value: i64 },
    /// A literal with a fraction, as it is written: the digits before the
    /// point and those after it.
    Float { negative: bool, whole: String, fraction: String },
    Factor { value: Box<Token> },
    Term { left: Box<Token>, right: Vec<(Token, Token)> },
    Expression { left: Box<Token>, right: Vec<(Token, Token)> },
    Program { expressions: Vec<Token> },
}

/// The mathematical tree that a `Token` stands for.
#[allow(inconsistent_fields)]
pub enum Tree {
    AdditionOperator,
    SubtractionOperator,
    MultiplicationOperator,
    DivisionOperator,
    Integer { value: i64 },
    Float { negative: bool, whole: Seq<char>, fraction: Seq<char> },
    Factor { value: Box<Tree> },
    Term { left: Box<Tree>, right: Seq<(Tree, Tree)> },
    Expression { left: Box<Tree>, right: Seq<(Tree, Tree)> },
    Program { expressions: Seq<Tree> },
}

impl Tree {
    /// An integer, or a float with digits on both sides of the point.
    pub open spec fn is_literal(self) -> bool {
        match self {
            Tree::Integer { .. } => true,
            Tree::Float { whole, fraction, .. } => {
                &&& whole.len() > 0
                &&& all_digits(whole)
                &&& fraction.len() > 0
                &&& all_digits(fraction)
            },
            _ => false,
        }
    }

    /// One of the four operators.
    pub open spec fn is_operator(self) -> bool {
        self is AdditionOperator || self is SubtractionOperator || self is MultiplicationOperator
            || self is DivisionOperator
    }

    /// A factor around a literal or around a well-formed expression.
    pub open spec fn is_factor(self) -> bool
        decreases self,
    {
        match self {
            Tree::Factor { value } => value.is_literal() || value.is_expression(),
            _ => false,
        }
    }

    /// A term of well-formed factors that `*` and `/` join, and nothing else.
    pub open spec fn is_term(self) -> bool
        decreases self,
    {
        match self {
            Tree::Term { left, right } => {
                &&& left.is_factor()
                &&& forall|i: int|
                    0 <= i < right.len() ==> {
                        &&& (#[trigger] right[i]).0 is MultiplicationOperator || right[i].0 is DivisionOperator
                        &&& right[i].1.is_factor()
                    }
            },
            _ => false,
        }
    }

    /// An expression of well-formed terms that `+` and `-` join, and nothing
    /// else.
    pub open spec fn is_expression(self) -> bool
        decreases self,
    {
        match self {
            Tree::Expression { left, right } => {
                &&& left.is_term()
                &&& forall|i: int|
                    0 <= i < right.len() ==> {
                        &&& (#[trigger] right[i]).0 is AdditionOperator || right[i].0 is SubtractionOperator
                        &&& right[i].1.is_term()
                    }
            },
            _ => false,
        }
    }

    /// A program of one or more well-formed expressions.
    pub open spec fn is_program(self) -> bool {
        match self {
            Tree::Program { expressions } => {
                &&& expressions.len() > 0
                &&& forall|i: int|
                    0 <= i < expressions.len() ==> (#[trigger] expressions[i]).is_expression()
            },
            _ => false,
        }
    }
}

/// The trees of a sequence of tokens.
pub open spec fn trees(tokens: Seq<Token>) -> Seq<Tree>
    decreases tokens, 0int,
{
    Seq::new(
        tokens.len(),
        |i: int|
            if 0 <= i < tokens.len() {
                tokens[i].tree()
            } else {
                Tree::AdditionOperator
            },
    )
}

/// The trees of a sequence of pairs of an operator and its right operand.
pub open spec fn pair_trees(pairs: Seq<(Token, Token)>) -> Seq<(Tree, Tree)>
    decreases pairs, 0int,
{
    Seq::new(
        pairs.len(),
        |i: int|
            if 0 <= i < pairs.len() {
                (pairs[i].0.tree(), pairs[i].1.tree())
            } else {
                (Tree::AdditionOperator, Tree::AdditionOperator)
            },
    )
}

impl Token {
    /// The tree that this token stands for.
    pub open spec fn tree(&self) -> Tree
        decreases self, 1int,
    {
        match self {
            Token::AdditionOperator => Tree::AdditionOperator,
            Token::SubtractionOperator => Tree::SubtractionOperator,
            Token::MultiplicationOperator => Tree::MultiplicationOperator,
            Token::DivisionOperator => Tree::DivisionOperator,
            Token::Integer { value } => Tree::Integer { value: *value },
            Token::Float { negative, whole, fraction } => Tree::Float {
                negative: *negative,
                whole: whole@,
                fraction: fraction@,
            },
            Token::Factor { value } => Tree::Factor { value: Box::new(value.tree()) },
            Token::Term { left, right } => Tree::Term {
                left: Box::new(left.tree()),
                right: pair_trees(right@),
            },
            Token::Expression { left, right } => Tree::Expression {
                left: Box::new(left.tree()),
                right: pair_trees(right@),
            },
            Token::Program { expressions } => Tree::Program { expressions: trees(expressions@) },
        }
    }
}

/// The number of each kind of node: the operators `+ - * /` are 0 to 3, an
/// integer is 4, a float 5, a factor 6, a term 7, an expression 8 and a
/// program 9.
pub open spec fn kind_code(tree: Tree) -> usize {
    match tree {
        Tree::AdditionOperator => 0,
        Tree::SubtractionOperator => 1,
        Tree::MultiplicationOperator => 2,
        Tree::DivisionOperator => 3,
        Tree::Integer { .. } => 4,
        Tree::Float { .. } => 5,
        Tree::Factor { .. } => 6,
        Tree::Term { .. } => 7,
        Tree::Expression { .. } => 8,
        Tree::Program { .. } => 9,
    }
}

/// The plainest tree of the kind that `code` numbers.
pub open spec fn sample(code: usize) -> Tree {
    let zero = Tree::Integer { value: 0 };
    if code == 0 {
        Tree::AdditionOperator
    } else if code == 1 {
        Tree::SubtractionOperator
    } else if code == 2 {
        Tree::MultiplicationOperator
    } else if code == 3 {
        Tree::DivisionOperator
    } else if code == 4 {
        zero
    } else if code == 5 {
        Tree::Float { negative: false, whole: seq!['0'], fraction: seq!['0'] }
    } else if code == 6 {
        Tree::Factor { value: Box::new(Tree::AdditionOperator) }
    } else if code == 7 {
        Tree::Term { left: Box::new(Tree::AdditionOperator), right: seq![(zero, zero)] }
    } else if code == 8 {
        Tree::Expression { left: Box::new(zero), right: seq![(zero, zero)] }
    } else {
        Tree::Program { expressions: Seq::empty() }
    }
}

impl Token {
    /// The plainest token of the kind that `code` numbers.
    pub fn from(code: usize) -> (token: Token)
        requires
            code <= 9,
        ensures
            token@ == sample(code),
    {
        proof {
            reveal_with_fuel(Token::tree, 3);
        }
        if code == 0 {
            Token::AdditionOperator
        } else if code == 1 {
            Token::SubtractionOperator
        } else if code == 2 {
            Token::MultiplicationOperator
        } else if code == 3 {
            Token::DivisionOperator
        } else if code == 4 {
            Token::Integer { value: 0 }
        } else if code == 5 {
            proof {
                reveal_strlit("0");
                assert("0"@ =~= seq!['0']);
            }
            Token::Float {
                negative: false,
                whole: String::from_str("0"),
                fraction: String::from_str("0"),
            }
        } else if code == 6 {
            Token::Factor { value: Box::new(Token::AdditionOperator) }
        } else if code == 7 {
            let mut right: Vec<(Token, Token)> = Vec::new();
            right.push((Token::Integer { value: 0 }, Token::Integer { value: 0 }));
            assert(pair_trees(right@) =~= seq![
                (Tree::Integer { value: 0 }, Tree::Integer { value: 0 }),
            ]);
            Token::Term { left: Box::new(Token::AdditionOperator), right }
        } else if code == 8 {
            let mut right: Vec<(Token, Token)> = Vec::new();
            right.push((Token::Integer { value: 0 }, Token::Integer { value: 0 }));
            assert(pair_trees(right@) =~= seq![
                (Tree::Integer { value: 0 }, Tree::Integer { value: 0 }),
            ]);
            Token::Expression { left: Box::new(Token::Integer { value: 0 }), right }
        } else {
            let expressions: Vec<Token> = Vec::new();
            assert(trees(expressions@) =~= Seq::<Tree>::empty());
            Token::Program { expressions }
        }
    }
}

impl From<Token> for usize {
    /// The number of the kind of `token`.
    fn from(token: Token) -> (code: usize) {
        match token {
            Token::AdditionOperator => 0,
            Token::SubtractionOperator => 1,
            Token::MultiplicationOperator => 2,
            Token::DivisionOperator => 3,
            Token::Integer { .. } => 4,
            Token::Float { .. } => 5,
            Token::Factor { .. } => 6,
            Token::Term { .. } => 7,
            Token::Expression { .. } => 8,
            Token::Program { .. } => 9,
        }
    }
}

impl vstd::std_specs::convert::FromSpecImpl<Token> for usize {
    open spec fn obeys_from_spec() -> bool {
        true
    }

    open spec fn from_spec(token: Token) -> usize {
        kind_code(token@)
    }
}

impl View for Token {
    type V = Tree;

    open spec fn view(&self) -> Tree {
        self.tree()
    }
}

} // verus!
