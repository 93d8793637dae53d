//! Composable formulas over component metrics.
//!
//! A [`Formula`] is a typed wrapper around a formula-engine expression whose
//! component leaves are [`Key`]s. Composing formulas only builds the
//! expression; it is evaluated once per resampling tick where it is subscribed
//! to.

use std::marker::PhantomData;

use frequenz_microgrid_formula_engine as engine;
use frequenz_microgrid_formula_engine::Formula as EngineFormula;
use vstd::prelude::*;

use crate::client::proto::{law_metrics_have_their_own_names, Metric as MetricPb};
use crate::logical_meter::exact::{exact, exact_all, exact_product, exact_sum, number};
use crate::logical_meter::expr::{
    avg, coalesce, max, min, minus, over, plus, times, tree_of, trees_of, Expr, Tree,
};
use crate::quantity::Quantity;
use crate::single::Single;
use crate::text::{
    decimal, law_decimals_read_back, push_decimal, strip_prefix, without_prefix,
};

pub mod graph_formula;

verus! {

/// A component leaf of a formula expression: one metric of one component.
#[derive(Clone, Copy, Debug, PartialEq, Eq, Hash, Structural)]
pub struct Key {
    /// The metric read from the component.
    pub metric: MetricPb,
    /// The component's ID.
    pub component_id: u64,
}

impl Key {
    /// The key of a metric of a component.
    pub fn new(metric: MetricPb, component_id: u64) -> (r: Self)
        ensures
            r == (Key { metric, component_id }),
    {
        Key { metric, component_id }
    }

    /// The text of the key: the component's ID, a colon and the API's name of
    /// the metric, without its prefix.
    pub open spec fn spec_text(self) -> Seq<char> {
        decimal(self.component_id as nat) + ":"@ + without_prefix(
            self.metric.spec_str_name(),
            "METRIC_"@,
        )
    }

    /// The text of the key: the component's ID, a colon and the API's name of
    /// the metric, without its prefix.
    pub fn to_text(&self) -> (r: String)
        ensures
            r@ == self.spec_text(),
    {
        let mut text = String::new();
        push_decimal(&mut text, self.component_id);
        text.append(":");
        text.append(strip_prefix(self.metric.as_str_name(), "METRIC_"));
        assert(text@ =~= self.spec_text());
        text
    }
}

/// The expression type behind every [`Formula`].
pub type FormulaExpr = Expr<Key>;

/// A formula over component metrics.
///
/// Formulas compose with [`plus`](Self::plus), [`minus`](Self::minus),
/// [`times`](Self::times), [`over`](Self::over), [`coalesce`](Self::coalesce),
/// [`min`](Self::min), [`max`](Self::max) and [`avg`](Self::avg). Composition
/// never fails and never subscribes.
pub struct Formula<Q: Quantity> {
    expr: FormulaExpr,
    _quantity: PhantomData<Q>,
}

/// Something a formula can be combined with: another formula of the same
/// quantity, or a constant.
pub enum Operand<Q: Quantity> {
    /// Another formula.
    Formula(Formula<Q>),
    /// A constant value.
    Constant(Q),
}

impl<Q: Quantity> Operand<Q> {
    /// The expression of the operand.
    pub open spec fn tree(self) -> Tree<Key> {
        match self {
            Operand::Formula(formula) => formula.tree(),
            Operand::Constant(value) => Tree::Constant(Some(value.spec_base_value())),
        }
    }

    fn into_expr(self) -> (r: FormulaExpr)
        ensures
            tree_of(r) == self.tree(),
    {
        match self {
            Operand::Formula(formula) => formula.expr,
            Operand::Constant(value) => EngineFormula::Constant(Some(value.base_value())),
        }
    }
}

impl<Q: Quantity> Formula<Q> {
    /// What the formula's expression is made of.
    pub closed spec fn tree(self) -> Tree<Key> {
        tree_of(self.expr)
    }

    /// The formula of an expression.
    pub fn new(expr: FormulaExpr) -> (r: Self)
        ensures
            r.tree() == tree_of(expr),
    {
        Formula { expr, _quantity: PhantomData }
    }

    /// The expression this formula evaluates.
    pub fn expr(&self) -> (r: &FormulaExpr)
        ensures
            tree_of(*r) == self.tree(),
    {
        &self.expr
    }

    /// `COALESCE(self, other)`: the first operand with a value.
    pub fn coalesce(self, other: Operand<Q>) -> (r: Self)
        ensures
            r.tree() == self.tree().coalesce(other.tree()),
    {
        Formula::new(coalesce(self.expr, other.into_expr()))
    }

    /// `MIN(self, other)`.
    pub fn min(self, other: Operand<Q>) -> (r: Self)
        ensures
            r.tree() == self.tree().min(other.tree()),
    {
        Formula::new(min(self.expr, other.into_expr()))
    }

    /// `MAX(self, other)`.
    pub fn max(self, other: Operand<Q>) -> (r: Self)
        ensures
            r.tree() == self.tree().max(other.tree()),
    {
        Formula::new(max(self.expr, other.into_expr()))
    }

    /// `AVG(self, others...)`.
    pub fn avg(self, others: Vec<Operand<Q>>) -> (r: Self)
        ensures
            r.tree() == self.tree().avg(others@.map_values(|other: Operand<Q>| other.tree())),
    {
        let ghost all = others@.map_values(|other: Operand<Q>| other.tree());
        let ghost given = others@;
        let ghost mut taken: int = 0;
        let mut others = others;
        let mut exprs: Vec<FormulaExpr> = Vec::new();
        while others.len() > 0
            invariant
                0 <= taken <= given.len(),
                others@ == given.skip(taken),
                all == given.map_values(|other: Operand<Q>| other.tree()),
                trees_of(exprs@) == all.take(taken),
            decreases others.len(),
        {
            let ghost before = exprs@;
            let other = others.remove(0);
            assert(other == given[taken]);
            exprs.push(other.into_expr());
            proof {
                assert(trees_of(exprs@) =~= trees_of(before).push(all[taken]));
                assert(all.take(taken + 1) =~= all.take(taken).push(all[taken]));
                assert(others@ =~= given.skip(taken + 1));
                taken = taken + 1;
            }
        }
        assert(all.take(taken) =~= all);
        Formula::new(avg(self.expr, exprs))
    }

    /// `self + other`.
    pub fn plus(self, other: Operand<Q>) -> (r: Self)
        ensures
            r.tree() == self.tree().plus(other.tree()),
    {
        Formula::new(plus(self.expr, other.into_expr()))
    }

    /// `self - other`.
    pub fn minus(self, other: Operand<Q>) -> (r: Self)
        ensures
            r.tree() == self.tree().minus(other.tree()),
    {
        Formula::new(minus(self.expr, other.into_expr()))
    }

    /// `self * factor`. A percentage is given as its fraction.
    pub fn times(self, factor: Single) -> (r: Self)
        ensures
            r.tree() == self.tree().times(Tree::Constant(Some(factor))),
    {
        Formula::new(times(self.expr, EngineFormula::Constant(Some(factor))))
    }

    /// `self / divisor`.
    pub fn over(self, divisor: Single) -> (r: Self)
        ensures
            r.tree() == self.tree().over(Tree::Constant(Some(divisor))),
    {
        Formula::new(over(self.expr, EngineFormula::Constant(Some(divisor))))
    }
}

/// `tree` with every component ID taken as the key of `metric` of that
/// component.
pub open spec fn tagged(tree: Tree<u64>, metric: MetricPb) -> Tree<Key>
    decreases tree,
{
    match tree {
        Tree::Constant(value) => Tree::Constant(value),
        Tree::Neg(inner) => Tree::Neg(Box::new(tagged(*inner, metric))),
        Tree::Sum { first, terms } => Tree::Sum {
            first: Box::new(tagged(*first, metric)),
            terms: Seq::new(
                terms.len(),
                |i: int|
                    if 0 <= i < terms.len() {
                        (terms[i].0, tagged(terms[i].1, metric))
                    } else {
                        arbitrary()
                    },
            ),
        },
        Tree::Product { first, factors } => Tree::Product {
            first: Box::new(tagged(*first, metric)),
            factors: Seq::new(
                factors.len(),
                |i: int|
                    if 0 <= i < factors.len() {
                        (factors[i].0, tagged(factors[i].1, metric))
                    } else {
                        arbitrary()
                    },
            ),
        },
        Tree::Function { function, args } => Tree::Function {
            function,
            args: Seq::new(
                args.len(),
                |i: int|
                    if 0 <= i < args.len() {
                        tagged(args[i], metric)
                    } else {
                        arbitrary()
                    },
            ),
        },
        Tree::Component(component_id) => Tree::Component(Key { metric, component_id }),
    }
}

/// `Formula::map_components`: every component ID is replaced by the key of
/// `metric` of that component; the rest stays as it is. The call goes as deep as
/// the expression does.
#[verifier::external_body]
fn map_to_keys(expr: Expr<u64>, metric: MetricPb) -> (r: FormulaExpr)
    ensures
        tree_of(r) == tagged(tree_of(expr), metric),
{
    expr.map_components(|component_id| Key::new(metric, component_id))
}

/// Tags every component leaf of a parsed graph formula with `metric`.
pub fn tag_components(parsed: Expr<u64>, metric: MetricPb) -> (r: FormulaExpr)
    ensures
        tree_of(r) == tagged(tree_of(parsed), metric),
{
    map_to_keys(parsed, metric)
}

/// A tagged expression is worth what the expression is worth where each component
/// reads the metric.
pub proof fn law_tagging_reads_the_metric(
    tree: Tree<u64>,
    metric: MetricPb,
    read: spec_fn(Key) -> Option<real>,
)
    ensures
        exact(tagged(tree, metric), read) == exact(
            tree,
            |component_id: u64| read(Key { metric, component_id }),
        ),
    decreases tree,
{
    let of_metric = |component_id: u64| read(Key { metric, component_id });
    match tree {
        Tree::Constant(_) => {},
        Tree::Neg(inner) => {
            law_tagging_reads_the_metric(*inner, metric, read);
        },
        Tree::Sum { first, terms } => {
            law_tagging_reads_the_metric(*first, metric, read);
            if let Tree::Sum { first: f, terms: keyed } = tagged(tree, metric) {
                lemma_tagged_terms(exact(*first, of_metric), terms, keyed, metric, read);
            }
        },
        Tree::Product { first, factors } => {
            law_tagging_reads_the_metric(*first, metric, read);
            if let Tree::Product { first: f, factors: keyed } = tagged(tree, metric) {
                lemma_tagged_factors(exact(*first, of_metric), factors, keyed, metric, read);
            }
        },
        Tree::Function { function: _, args } => {
            if let Tree::Function { function: f, args: keyed } = tagged(tree, metric) {
                lemma_tagged_args(args, keyed, metric, read);
            }
        },
        Tree::Component(_) => {},
    }
}

proof fn lemma_tagged_terms(
    start: Option<real>,
    terms: Seq<(engine::SumOp, Tree<u64>)>,
    keyed: Seq<(engine::SumOp, Tree<Key>)>,
    metric: MetricPb,
    read: spec_fn(Key) -> Option<real>,
)
    requires
        keyed.len() == terms.len(),
        forall|i: int|
            0 <= i < terms.len() ==> #[trigger] keyed[i] == (terms[i].0, tagged(terms[i].1, metric)),
    ensures
        exact_sum(start, keyed, read) == exact_sum(
            start,
            terms,
            |component_id: u64| read(Key { metric, component_id }),
        ),
    decreases terms,
{
    if terms.len() > 0 {
        let n = terms.len() - 1;
        let front = terms.subrange(0, n);
        let keyed_front = keyed.subrange(0, n);
        assert forall|i: int| 0 <= i < front.len() implies #[trigger] keyed_front[i] == (
            front[i].0,
            tagged(front[i].1, metric),
        ) by {
            assert(keyed[i] == (terms[i].0, tagged(terms[i].1, metric)));
        }
        lemma_tagged_terms(start, front, keyed_front, metric, read);
        assert(keyed[n] == (terms[n].0, tagged(terms[n].1, metric)));
        law_tagging_reads_the_metric(terms[n].1, metric, read);
    }
}

proof fn lemma_tagged_factors(
    start: Option<real>,
    factors: Seq<(engine::ProductOp, Tree<u64>)>,
    keyed: Seq<(engine::ProductOp, Tree<Key>)>,
    metric: MetricPb,
    read: spec_fn(Key) -> Option<real>,
)
    requires
        keyed.len() == factors.len(),
        forall|i: int|
            0 <= i < factors.len() ==> #[trigger] keyed[i] == (
                factors[i].0,
                tagged(factors[i].1, metric),
            ),
    ensures
        exact_product(start, keyed, read) == exact_product(
            start,
            factors,
            |component_id: u64| read(Key { metric, component_id }),
        ),
    decreases factors,
{
    if factors.len() > 0 {
        let n = factors.len() - 1;
        let front = factors.subrange(0, n);
        let keyed_front = keyed.subrange(0, n);
        assert forall|i: int| 0 <= i < front.len() implies #[trigger] keyed_front[i] == (
            front[i].0,
            tagged(front[i].1, metric),
        ) by {
            assert(keyed[i] == (factors[i].0, tagged(factors[i].1, metric)));
        }
        lemma_tagged_factors(start, front, keyed_front, metric, read);
        assert(keyed[n] == (factors[n].0, tagged(factors[n].1, metric)));
        law_tagging_reads_the_metric(factors[n].1, metric, read);
    }
}

proof fn lemma_tagged_args(
    args: Seq<Tree<u64>>,
    keyed: Seq<Tree<Key>>,
    metric: MetricPb,
    read: spec_fn(Key) -> Option<real>,
)
    requires
        keyed.len() == args.len(),
        forall|i: int| 0 <= i < args.len() ==> #[trigger] keyed[i] == tagged(args[i], metric),
    ensures
        exact_all(keyed, read) == exact_all(
            args,
            |component_id: u64| read(Key { metric, component_id }),
        ),
    decreases args,
{
    if args.len() > 0 {
        let n = args.len() - 1;
        let front = args.subrange(0, n);
        let keyed_front = keyed.subrange(0, n);
        assert forall|i: int| 0 <= i < front.len() implies #[trigger] keyed_front[i] == tagged(
            front[i],
            metric,
        ) by {
            assert(keyed[i] == tagged(args[i], metric));
        }
        lemma_tagged_args(front, keyed_front, metric, read);
        assert(keyed[n] == tagged(args[n], metric));
        law_tagging_reads_the_metric(args[n], metric, read);
    }
}

/// A constant that a formula is combined with is worth the quantity's value in its
/// base unit.
pub proof fn law_constants_are_worth_their_value<Q: Quantity>(
    value: Q,
    read: spec_fn(Key) -> Option<real>,
)
    ensures
        exact(Operand::Constant(value).tree(), read) == number(value.spec_base_value()),
{
}

/// Keys of different metrics or components have different texts.
pub proof fn law_keys_have_their_own_texts(a: Key, b: Key)
    ensures
        a.spec_text() == b.spec_text() ==> a == b,
{
    if a.spec_text() == b.spec_text() {
        let m = decimal(a.component_id as nat);
        let n = decimal(b.component_id as nat);
        law_decimals_read_back(a.component_id as nat);
        law_decimals_read_back(b.component_id as nat);
        law_metrics_have_their_own_names(a.metric, b.metric);
        law_metrics_have_their_own_names(b.metric, a.metric);
        reveal_strlit(":");
        reveal_strlit("METRIC_");
        assert("METRIC_"@ =~= seq!['M', 'E', 'T', 'R', 'I', 'C', '_']);
        let text = a.spec_text();
        assert(text[m.len() as int] == ':');
        assert(text[n.len() as int] == ':');
        if m.len() < n.len() {
            assert(text[m.len() as int] == n[m.len() as int]);
        }
        if n.len() < m.len() {
            assert(text[n.len() as int] == m[n.len() as int]);
        }
        assert(m =~= text.take(m.len() as int));
        assert(n =~= text.take(n.len() as int));
        let x = a.metric.spec_str_name();
        let y = b.metric.spec_str_name();
        assert(x.skip(7) =~= text.skip(m.len() as int + 1));
        assert(y.skip(7) =~= text.skip(n.len() as int + 1));
        assert(x =~= x.take(7) + x.skip(7));
        assert(y =~= y.take(7) + y.skip(7));
    }
}

}
