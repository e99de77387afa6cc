//! The operators of Logo expressions and a list helper of the grammar.

use vstd::prelude::*;

verus! {

/// Unary operators.
#[derive(Clone, Copy, Debug, PartialEq, Eq, Structural)]
pub enum Unop {
    Neg,
}

/// Binary arithmetic operators.
#[derive(Clone, Copy, Debug, PartialEq, Eq, Structural)]
pub enum Binop {
    Add,
    Sub,
    Mul,
    Div,
    Mod,
}

/// Comparison operators of conditions.
#[derive(Clone, Copy, Debug, PartialEq, Eq, Structural)]
pub enum Compop {
    Less,
    LessEq,
    More,
    MoreEq,
    Equal,
}

/// How two numbers compare; `Unordered` when one of them is not a number.
#[derive(Clone, Copy, Debug, PartialEq, Eq, Structural)]
pub enum Comparison {
    Less,
    Equal,
    Greater,
    Unordered,
}

/// Whether a comparison operator accepts two numbers that compare as `c`.
pub open spec fn compop_holds(op: Compop, c: Comparison) -> bool {
    match op {
        Compop::Less => c == Comparison::Less,
        Compop::LessEq => c == Comparison::Less || c == Comparison::Equal,
        Compop::More => c == Comparison::Greater,
        Compop::MoreEq => c == Comparison::Greater || c == Comparison::Equal,
        Compop::Equal => c == Comparison::Equal,
    }
}

/// No comparison accepts a value that is not a number, and `<=`, `>=`
/// accept exactly what `<` or `=`, `>` or `=` accept.
pub proof fn lemma_compop_laws(c: Comparison)
    ensures
        forall|op: Compop| !compop_holds(op, Comparison::Unordered),
        compop_holds(Compop::LessEq, c) == (compop_holds(Compop::Less, c) || compop_holds(
            Compop::Equal,
            c,
        )),
        compop_holds(Compop::MoreEq, c) == (compop_holds(Compop::More, c) || compop_holds(
            Compop::Equal,
            c,
        )),
{
}

/// How two numbers compare: `Less` when the first is smaller, `Equal` when
/// they are equal, `Greater` when the first is larger.
pub open spec fn comparison_of(a: int, b: int) -> Comparison {
    if a < b {
        Comparison::Less
    } else if a == b {
        Comparison::Equal
    } else {
        Comparison::Greater
    }
}

/// Each operator accepts two numbers exactly when they stand in its
/// mathematical relation: `<` when the first is smaller, `<=` when it is not
/// larger, `>` when it is larger, `>=` when it is not smaller, `=` when they
/// are equal.
pub proof fn lemma_compop_meaning(a: int, b: int)
    ensures
        compop_holds(Compop::Less, comparison_of(a, b)) == (a < b),
        compop_holds(Compop::LessEq, comparison_of(a, b)) == (a <= b),
        compop_holds(Compop::More, comparison_of(a, b)) == (a > b),
        compop_holds(Compop::MoreEq, comparison_of(a, b)) == (a >= b),
        compop_holds(Compop::Equal, comparison_of(a, b)) == (a == b),
{
}

impl Compop {
    /// Whether the operator accepts two numbers that compare as `c`:
    /// `<`, `<=`, `>`, `>=` and `=` as on floating-point numbers, where
    /// every comparison with a value that is not a number fails.
    pub fn holds(&self, c: Comparison) -> (b: bool)
        ensures
            b == compop_holds(*self, c),
    {
        match self {
            Compop::Less => c == Comparison::Less,
            Compop::LessEq => c == Comparison::Less || c == Comparison::Equal,
            Compop::More => c == Comparison::Greater,
            Compop::MoreEq => c == Comparison::Greater || c == Comparison::Equal,
            Compop::Equal => c == Comparison::Equal,
        }
    }
}

/// `v` with `x` appended: how the grammar builds its lists.
pub fn cons<A>(v: Vec<A>, x: A) -> (r: Vec<A>)
    ensures
        r@ == v@.push(x),
{
    let mut v = v;
    v.push(x);
    v
}

} // verus!
