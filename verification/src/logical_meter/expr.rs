//! Expressions of the formula engine.
//!
//! An expression is the engine's own type, over numbers by their bits. What an
//! expression is, is said by its [`Tree`].

use frequenz_microgrid_formula_engine as engine;
use frequenz_microgrid_formula_engine::Formula as EngineFormula;
use vstd::prelude::*;

use crate::single::Single;

verus! {

/// An expression of the formula engine.
#[verifier::external_type_specification]
#[verifier::reject_recursive_types(K)]
pub struct ExEngineFormula<T, K>(EngineFormula<T, K>);

/// How an operand of a sum is applied.
#[verifier::external_type_specification]
pub struct ExEngineSumOp(engine::SumOp);

/// How an operand of a product is applied.
#[verifier::external_type_specification]
pub struct ExEngineProductOp(engine::ProductOp);

/// A function of the formula engine.
#[verifier::external_type_specification]
pub struct ExEngineFunction(engine::Function);

/// An expression whose numbers are given by their bits.
pub type Expr<K> = EngineFormula<Single, K>;

/// What an expression is made of.
pub enum Tree<K> {
    Constant(Option<Single>),
    Neg(Box<Tree<K>>),
    Sum { first: Box<Tree<K>>, terms: Seq<(engine::SumOp, Tree<K>)> },
    Product { first: Box<Tree<K>>, factors: Seq<(engine::ProductOp, Tree<K>)> },
    Function { function: engine::Function, args: Seq<Tree<K>> },
    Component(K),
}

/// What `expr` is made of.
pub open spec fn tree_of<K>(expr: Expr<K>) -> Tree<K>
    decreases expr,
{
    match expr {
        EngineFormula::Constant(value) => Tree::Constant(value),
        EngineFormula::Neg(inner) => Tree::Neg(Box::new(tree_of(*inner))),
        EngineFormula::Sum { first, rest } => Tree::Sum {
            first: Box::new(tree_of(*first)),
            terms: Seq::new(
                rest@.len(),
                |i: int|
                    if 0 <= i < rest@.len() {
                        (rest@[i].0, tree_of(rest@[i].1))
                    } else {
                        arbitrary()
                    },
            ),
        },
        EngineFormula::Product { first, rest } => Tree::Product {
            first: Box::new(tree_of(*first)),
            factors: Seq::new(
                rest@.len(),
                |i: int|
                    if 0 <= i < rest@.len() {
                        (rest@[i].0, tree_of(rest@[i].1))
                    } else {
                        arbitrary()
                    },
            ),
        },
        EngineFormula::Function { function, args } => Tree::Function {
            function,
            args: Seq::new(
                args@.len(),
                |i: int|
                    if 0 <= i < args@.len() {
                        tree_of(args@[i])
                    } else {
                        arbitrary()
                    },
            ),
        },
        EngineFormula::Component(key) => Tree::Component(key),
    }
}

impl<K> Tree<K> {
    /// The arguments, where this is a call of `function`; else this alone.
    pub open spec fn args_of(self, function: engine::Function) -> Seq<Tree<K>> {
        match self {
            Tree::Function { function: own, args } => if own == function {
                args
            } else {
                seq![self]
            },
            _ => seq![self],
        }
    }

    /// The call of `function` on `self` and `other`. Calls of the same function
    /// become one.
    pub open spec fn called_with(self, function: engine::Function, other: Tree<K>) -> Tree<K> {
        Tree::Function { function, args: self.args_of(function) + other.args_of(function) }
    }

    /// `COALESCE(self, other)`: the first with a value.
    pub open spec fn coalesce(self, other: Tree<K>) -> Tree<K> {
        self.called_with(engine::Function::Coalesce, other)
    }

    /// `MIN(self, other)`.
    pub open spec fn min(self, other: Tree<K>) -> Tree<K> {
        self.called_with(engine::Function::Min, other)
    }

    /// `MAX(self, other)`.
    pub open spec fn max(self, other: Tree<K>) -> Tree<K> {
        self.called_with(engine::Function::Max, other)
    }

    /// `AVG(self, others...)`.
    pub open spec fn avg(self, others: Seq<Tree<K>>) -> Tree<K> {
        Tree::Function { function: engine::Function::Avg, args: seq![self] + others }
    }

    /// A sum with one more operand. A sum is continued.
    pub open spec fn summed(self, op: engine::SumOp, other: Tree<K>) -> Tree<K> {
        match self {
            Tree::Sum { first, terms } => Tree::Sum { first, terms: terms.push((op, other)) },
            _ => Tree::Sum { first: Box::new(self), terms: seq![(op, other)] },
        }
    }

    /// `self + other`.
    pub open spec fn plus(self, other: Tree<K>) -> Tree<K> {
        self.summed(engine::SumOp::Add, other)
    }

    /// `self - other`.
    pub open spec fn minus(self, other: Tree<K>) -> Tree<K> {
        self.summed(engine::SumOp::Sub, other)
    }

    /// A product with one more operand. A product is continued.
    pub open spec fn multiplied(self, op: engine::ProductOp, other: Tree<K>) -> Tree<K> {
        match self {
            Tree::Product { first, factors } => Tree::Product { first, factors: factors.push((op, other)) },
            _ => Tree::Product { first: Box::new(self), factors: seq![(op, other)] },
        }
    }

    /// `self * other`.
    pub open spec fn times(self, other: Tree<K>) -> Tree<K> {
        self.multiplied(engine::ProductOp::Mul, other)
    }

    /// `self / other`.
    pub open spec fn over(self, other: Tree<K>) -> Tree<K> {
        self.multiplied(engine::ProductOp::Div, other)
    }
}

/// `Formula::coalesce`: the arguments of either side that is a coalesce are
/// merged.
#[verifier::external_body]
pub(crate) fn coalesce<K>(a: Expr<K>, b: Expr<K>) -> (r: Expr<K>)
    ensures
        tree_of(r) == tree_of(a).coalesce(tree_of(b)),
{
    a.coalesce(b)
}

/// `Formula::min`: the arguments of either side that is a min are merged.
#[verifier::external_body]
pub(crate) fn min<K>(a: Expr<K>, b: Expr<K>) -> (r: Expr<K>)
    ensures
        tree_of(r) == tree_of(a).min(tree_of(b)),
{
    a.min(b)
}

/// `Formula::max`: the arguments of either side that is a max are merged.
#[verifier::external_body]
pub(crate) fn max<K>(a: Expr<K>, b: Expr<K>) -> (r: Expr<K>)
    ensures
        tree_of(r) == tree_of(a).max(tree_of(b)),
{
    a.max(b)
}

/// `Formula::avg`: a call on the first expression and the others.
#[verifier::external_body]
pub(crate) fn avg<K>(first: Expr<K>, others: Vec<Expr<K>>) -> (r: Expr<K>)
    ensures
        tree_of(r) == tree_of(first).avg(trees_of(others@)),
{
    first.avg(others)
}

/// `Formula + Formula`: a left side that is a sum is continued.
#[verifier::external_body]
pub(crate) fn plus<K>(a: Expr<K>, b: Expr<K>) -> (r: Expr<K>)
    ensures
        tree_of(r) == tree_of(a).plus(tree_of(b)),
{
    a + b
}

/// `Formula - Formula`: a left side that is a sum is continued.
#[verifier::external_body]
pub(crate) fn minus<K>(a: Expr<K>, b: Expr<K>) -> (r: Expr<K>)
    ensures
        tree_of(r) == tree_of(a).minus(tree_of(b)),
{
    a - b
}

/// `Formula * Formula`: a left side that is a product is continued.
#[verifier::external_body]
pub(crate) fn times<K>(a: Expr<K>, b: Expr<K>) -> (r: Expr<K>)
    ensures
        tree_of(r) == tree_of(a).times(tree_of(b)),
{
    a * b
}

/// `Formula / Formula`: a left side that is a product is continued.
#[verifier::external_body]
pub(crate) fn over<K>(a: Expr<K>, b: Expr<K>) -> (r: Expr<K>)
    ensures
        tree_of(r) == tree_of(a).over(tree_of(b)),
{
    a / b
}

/// What each of `exprs` is made of.
pub open spec fn trees_of<K>(exprs: Seq<Expr<K>>) -> Seq<Tree<K>> {
    exprs.map_values(|expr: Expr<K>| tree_of(expr))
}

/// Merging the arguments of calls makes the order of pairing irrelevant:
/// however a chain of coalesces is built, it is one call on all its parts.
pub proof fn law_chained_calls_are_one<K>(
    function: engine::Function,
    a: Tree<K>,
    b: Tree<K>,
    c: Tree<K>,
)
    ensures
        a.called_with(function, b).called_with(function, c) == a.called_with(
            function,
            b.called_with(function, c),
        ),
{
    assert(a.args_of(function) + b.args_of(function) + c.args_of(function) =~= a.args_of(function)
        + (b.args_of(function) + c.args_of(function)));
}

}
