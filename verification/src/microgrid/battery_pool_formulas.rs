//! The expressions behind a battery pool's SoC and capacity formulas.
//!
//! Every expression is built per battery from the pool's inverter-battery
//! groups: a sum for the usable capacity, a weighted mean for the SoC. Each
//! battery is gated on the health of the inverters in its group; a battery
//! without SoC bounds contributes nothing. What a leaf reads is told by
//! [`pool_readings`](crate::microgrid::pool_readings): nothing, for a component
//! that is not healthy.

use frequenz_microgrid_formula_engine::Formula as EngineFormula;
use vstd::prelude::*;

use crate::client::proto::Metric as MetricPb;
use crate::ids::{in_order, sorted};
use crate::logical_meter::expr::{
    coalesce, max, min, minus, over, plus, times, tree_of, trees_of, Expr, Tree,
};
use crate::microgrid::telemetry_tracker::inverter_battery_group::{
    members, GroupIds, InverterBatteryGroup,
};
use crate::single::{Single, INFINITY_BITS, ONE_BITS, ZERO_BITS};

verus! {

broadcast use vstd::std_specs::btree::group_btree_axioms;

/// The bits of 100.0.
pub const HUNDRED_BITS: u32 = 0x42c8_0000;

/// What is read from a component.
#[derive(Clone, Copy, Debug, PartialEq, Eq, Hash, Structural)]
pub enum Source {
    /// The value of a metric.
    Value(MetricPb),
    /// The lower bound of a metric.
    LowerBound(MetricPb),
    /// The upper bound of a metric.
    UpperBound(MetricPb),
    /// The health: 1 while the component is healthy, missing otherwise.
    Health,
}

/// A leaf of a battery pool's expressions: one source of one component.
#[derive(Clone, Copy, Debug, PartialEq, Eq, Hash, Structural)]
pub struct PoolKey {
    pub component_id: u64,
    pub source: Source,
}

/// The expression type behind a battery pool's formulas.
pub type PoolExpr = Expr<PoolKey>;

/// A leaf that reads `source` of a component.
pub open spec fn leaf_tree(component_id: u64, source: Source) -> Tree<PoolKey> {
    Tree::Component(PoolKey { component_id, source })
}

/// A constant.
pub open spec fn constant_tree(bits: u32) -> Tree<PoolKey> {
    Tree::Constant(Some(Single { bits }))
}

/// 1 while `tree` has a reading, nothing while it has none.
pub open spec fn present_tree(tree: Tree<PoolKey>) -> Tree<PoolKey> {
    tree.times(constant_tree(ZERO_BITS)).plus(constant_tree(ONE_BITS))
}

/// `max(upper - lower, 0)` for one battery's SoC bounds, in percent.
pub open spec fn soc_span_tree(battery: u64) -> Tree<PoolKey> {
    leaf_tree(battery, Source::UpperBound(MetricPb::BatterySocPct)).minus(
        leaf_tree(battery, Source::LowerBound(MetricPb::BatterySocPct)),
    ).max(constant_tree(ZERO_BITS))
}

/// `capacity * max(upper - lower, 0) / 100 * gate` for one battery, in
/// watt-hours.
pub open spec fn battery_usable_tree(battery: u64, gate: Tree<PoolKey>) -> Tree<PoolKey> {
    leaf_tree(battery, Source::Value(MetricPb::BatteryCapacity)).times(soc_span_tree(battery)).over(
        constant_tree(HUNDRED_BITS),
    ).times(gate)
}

/// `(soc - lower) / max(upper - lower, 0) * 100`, clamped to 0-100 %, for one
/// battery. It has no reading when the bounds are equal or inverted.
pub open spec fn battery_scaled_soc_tree(battery: u64) -> Tree<PoolKey> {
    leaf_tree(battery, Source::Value(MetricPb::BatterySocPct)).minus(
        leaf_tree(battery, Source::LowerBound(MetricPb::BatterySocPct)),
    ).over(soc_span_tree(battery)).times(constant_tree(HUNDRED_BITS)).max(
        constant_tree(ZERO_BITS),
    ).min(constant_tree(HUNDRED_BITS))
}

/// The product of the health of every one of `inverters`: 1 while all are
/// healthy, nothing otherwise.
pub open spec fn gate_tree(inverters: Seq<u64>) -> Tree<PoolKey>
    decreases inverters.len(),
{
    if inverters.len() == 0 {
        constant_tree(ONE_BITS)
    } else if inverters.len() == 1 {
        leaf_tree(inverters[0], Source::Health)
    } else {
        gate_tree(inverters.drop_last()).times(leaf_tree(inverters.last(), Source::Health))
    }
}

/// The sum of `terms`, or the known-missing constant when there are none.
pub open spec fn sum_tree(terms: Seq<Tree<PoolKey>>) -> Tree<PoolKey>
    decreases terms.len(),
{
    if terms.len() == 0 {
        Tree::Constant(None)
    } else if terms.len() == 1 {
        terms[0]
    } else {
        sum_tree(terms.drop_last()).plus(terms.last())
    }
}

/// What a battery adds to one of the sums.
#[derive(Clone, Copy, PartialEq, Eq, Structural)]
pub enum Term {
    /// Its usable capacity, or 0.
    Usable,
    /// 1 where it has a usable capacity, or 0.
    Contributes,
    /// Its scaled SoC, weighted by its usable capacity, or 0.
    WeightedSoc,
    /// Its usable capacity where it has a SoC, or 0.
    Weight,
}

/// What `battery` adds to one of the sums, given the health gate of its group.
pub open spec fn term_tree(term: Term, battery: u64, gate: Tree<PoolKey>) -> Tree<PoolKey> {
    let usable = battery_usable_tree(battery, gate);
    let scaled = battery_scaled_soc_tree(battery);
    let part = match term {
        Term::Usable => usable,
        Term::Contributes => present_tree(usable),
        Term::WeightedSoc => usable.times(scaled),
        Term::Weight => usable.times(present_tree(scaled)),
    };
    part.coalesce(constant_tree(ZERO_BITS))
}

/// What each of `batteries` adds.
pub open spec fn battery_terms(term: Term, batteries: Seq<u64>, gate: Tree<PoolKey>) -> Seq<
    Tree<PoolKey>,
> {
    batteries.map_values(|battery: u64| term_tree(term, battery, gate))
}

/// What every battery of every group adds.
pub open spec fn all_terms(term: Term, groups: Seq<GroupIds>) -> Seq<Tree<PoolKey>>
    decreases groups.len(),
{
    if groups.len() == 0 {
        Seq::empty()
    } else {
        let group = groups.last();
        all_terms(term, groups.drop_last()) + battery_terms(
            term,
            in_order(group.batteries),
            gate_tree(in_order(group.inverters)),
        )
    }
}

/// The pool's usable capacity in watt-hours: the sum over its batteries of
/// `capacity * max(upper - lower, 0) / 100`, which has no reading when no
/// battery contributes.
pub open spec fn usable_capacity_tree(groups: Seq<GroupIds>) -> Tree<PoolKey> {
    let contributing = sum_tree(all_terms(Term::Contributes, groups));
    sum_tree(all_terms(Term::Usable, groups)).times(contributing.over(contributing))
}

/// The pool's SoC in percent: each battery's SoC, scaled to its bounds,
/// weighted by its usable capacity.
pub open spec fn soc_tree(groups: Seq<GroupIds>) -> Tree<PoolKey> {
    sum_tree(all_terms(Term::WeightedSoc, groups)).over(sum_tree(all_terms(Term::Weight, groups)))
}

/// Whether a reading is zero, of either sign.
pub open spec fn is_zero(reading: Option<Single>) -> bool {
    reading matches Some(x) && !x.spec_is_nan() && x.rank() == 0
}

/// Whether evaluating one of the operations on `a` and `b` needs both: it has no
/// reading while one of them has none.
pub open spec fn needs_both(
    value: spec_fn(Tree<PoolKey>) -> Option<Single>,
    a: Tree<PoolKey>,
    b: Tree<PoolKey>,
) -> bool {
    value(a) is None || value(b) is None ==> {
        &&& value(a.plus(b)) is None
        &&& value(a.minus(b)) is None
        &&& value(a.times(b)) is None
        &&& value(a.over(b)) is None
        &&& value(a.min(b)) is None
        &&& value(a.max(b)) is None
    }
}

/// Whether the operations on `a` and `b` keep to the rules of zero: zeros add up
/// to zero, a product with zero is zero, and so is zero over what is not; zero
/// over zero has no reading.
pub open spec fn keeps_zero(
    value: spec_fn(Tree<PoolKey>) -> Option<Single>,
    a: Tree<PoolKey>,
    b: Tree<PoolKey>,
) -> bool {
    &&& is_zero(value(a)) && is_zero(value(b)) ==> is_zero(value(a.plus(b))) && value(
        a.over(b),
    ) is None
    &&& value(a) is Some && value(b) is Some && (is_zero(value(a)) || is_zero(value(b)))
        ==> is_zero(value(a.times(b)))
    &&& is_zero(value(a)) && value(b) is Some && !is_zero(value(b)) ==> is_zero(value(a.over(b)))
}

/// Whether the operations on `a` and `b` keep to the order of numbers: what is
/// no greater leaves no positive difference, and the maximum is the greater.
pub open spec fn keeps_order(
    value: spec_fn(Tree<PoolKey>) -> Option<Single>,
    a: Tree<PoolKey>,
    b: Tree<PoolKey>,
) -> bool {
    (value(a) matches Some(x) && value(b) matches Some(y) && x.spec_le(y)) ==> {
        &&& value(a.minus(b)) matches Some(d) ==> !d.spec_is_nan() && d.rank() <= 0
        &&& value(a.max(b)) matches Some(m) && !m.spec_is_nan() && m.rank() == value(b)->Some_0.rank()
    }
}

/// What a leaf or a constant evaluates to: a number that is not finite counts as
/// missing.
pub open spec fn finite(reading: Option<Single>) -> Option<Single> {
    match reading {
        Some(x) => if x.spec_magnitude() < INFINITY_BITS {
            Some(x)
        } else {
            None
        },
        None => None,
    }
}

/// Whether `value` evaluates expressions whose leaves read what `read` says: it
/// keeps to the rules that the formula engine documents, as far as they can be
/// told without rounding.
///
/// A reading that is missing makes an operation missing, except that a coalesce
/// goes past it.
pub open spec fn evaluates(
    value: spec_fn(Tree<PoolKey>) -> Option<Single>,
    read: spec_fn(PoolKey) -> Option<Single>,
) -> bool {
    &&& forall|key: PoolKey| #[trigger] value(Tree::Component(key)) == finite(read(key))
    &&& forall|constant: Option<Single>| #[trigger]
        value(Tree::Constant(constant)) == finite(constant)
    &&& forall|a: Tree<PoolKey>, b: Tree<PoolKey>| #[trigger] needs_both(value, a, b)
    &&& forall|a: Tree<PoolKey>, b: Tree<PoolKey>| #[trigger] keeps_zero(value, a, b)
    &&& forall|a: Tree<PoolKey>, b: Tree<PoolKey>| #[trigger] keeps_order(value, a, b)
    &&& forall|a: Tree<PoolKey>, b: Tree<PoolKey>| #[trigger]
        value(a.coalesce(b)) == (if value(a) is Some {
            value(a)
        } else {
            value(b)
        })
}

/// Whether a battery cannot contribute: its capacity or one of its SoC bounds is
/// missing, or the health of one of its inverters is.
pub open spec fn is_idle(
    read: spec_fn(PoolKey) -> Option<Single>,
    battery: u64,
    inverters: Seq<u64>,
) -> bool {
    let soc = MetricPb::BatterySocPct;
    ||| finite(
        read(PoolKey { component_id: battery, source: Source::Value(MetricPb::BatteryCapacity) }),
    ) is None
    ||| finite(read(PoolKey { component_id: battery, source: Source::LowerBound(soc) })) is None
    ||| finite(read(PoolKey { component_id: battery, source: Source::UpperBound(soc) })) is None
    ||| exists|i: int|
        0 <= i < inverters.len() && finite(
            read(PoolKey { component_id: #[trigger] inverters[i], source: Source::Health }),
        ) is None
}

/// Whether no battery of the groups can contribute.
pub open spec fn all_idle(read: spec_fn(PoolKey) -> Option<Single>, groups: Seq<GroupIds>) -> bool {
    forall|k: int, n: int|
        0 <= k < groups.len() && 0 <= n < in_order(groups[k].batteries).len() ==> is_idle(
            read,
            #[trigger] in_order(groups[k].batteries)[n],
            in_order(groups[k].inverters),
        )
}

/// A gate has no reading while the health of an inverter has none.
proof fn lemma_gate(
    value: spec_fn(Tree<PoolKey>) -> Option<Single>,
    read: spec_fn(PoolKey) -> Option<Single>,
    inverters: Seq<u64>,
    i: int,
)
    requires
        evaluates(value, read),
        0 <= i < inverters.len(),
        finite(read(PoolKey { component_id: inverters[i], source: Source::Health })) is None,
    ensures
        value(gate_tree(inverters)) is None,
    decreases inverters.len(),
{
    let last = leaf_tree(inverters.last(), Source::Health);
    if inverters.len() > 1 {
        if i < inverters.len() - 1 {
            lemma_gate(value, read, inverters.drop_last(), i);
        }
        assert(needs_both(value, gate_tree(inverters.drop_last()), last));
    }
}

/// A battery that cannot contribute has no usable capacity.
proof fn lemma_idle_has_no_capacity(
    value: spec_fn(Tree<PoolKey>) -> Option<Single>,
    read: spec_fn(PoolKey) -> Option<Single>,
    battery: u64,
    inverters: Seq<u64>,
)
    requires
        evaluates(value, read),
        is_idle(read, battery, inverters),
    ensures
        value(battery_usable_tree(battery, gate_tree(inverters))) is None,
{
    let gate = gate_tree(inverters);
    let lower = leaf_tree(battery, Source::LowerBound(MetricPb::BatterySocPct));
    let upper = leaf_tree(battery, Source::UpperBound(MetricPb::BatterySocPct));
    let capacity = leaf_tree(battery, Source::Value(MetricPb::BatteryCapacity));
    let span = soc_span_tree(battery);
    let hundred = constant_tree(HUNDRED_BITS);
    assert(needs_both(value, upper, lower));
    assert(needs_both(value, upper.minus(lower), constant_tree(ZERO_BITS)));
    assert(needs_both(value, capacity, span));
    assert(needs_both(value, capacity.times(span), hundred));
    assert(needs_both(value, capacity.times(span).over(hundred), gate));
    if value(capacity) is Some && value(lower) is Some && value(upper) is Some {
        let i = choose|i: int|
            0 <= i < inverters.len() && finite(
                read(PoolKey { component_id: #[trigger] inverters[i], source: Source::Health }),
            ) is None;
        lemma_gate(value, read, inverters, i);
    }
}

/// A battery that cannot contribute adds zero to every sum: to the usable
/// capacity, to the number of those that contribute, and to both sums of the
/// SoC. It cannot while its capacity or a SoC bound is missing, and while an
/// inverter of its group is not healthy.
pub proof fn law_idle_battery_adds_nothing(
    value: spec_fn(Tree<PoolKey>) -> Option<Single>,
    read: spec_fn(PoolKey) -> Option<Single>,
    battery: u64,
    inverters: Seq<u64>,
    term: Term,
)
    requires
        evaluates(value, read),
        is_idle(read, battery, inverters),
    ensures
        is_zero(value(term_tree(term, battery, gate_tree(inverters)))),
{
    let usable = battery_usable_tree(battery, gate_tree(inverters));
    let scaled = battery_scaled_soc_tree(battery);
    let zero = constant_tree(ZERO_BITS);
    lemma_idle_has_no_capacity(value, read, battery, inverters);
    assert(needs_both(value, usable, zero));
    assert(needs_both(value, usable.times(zero), constant_tree(ONE_BITS)));
    assert(needs_both(value, usable, scaled));
    assert(needs_both(value, usable, present_tree(scaled)));
    assert(is_zero(value(zero)));
}

/// A battery whose SoC bounds are equal or inverted adds zero to the usable
/// capacity.
pub proof fn law_inverted_bounds_add_zero(
    value: spec_fn(Tree<PoolKey>) -> Option<Single>,
    read: spec_fn(PoolKey) -> Option<Single>,
    battery: u64,
    inverters: Seq<u64>,
    lower: Single,
    upper: Single,
)
    requires
        evaluates(value, read),
        read(
            PoolKey {
                component_id: battery,
                source: Source::LowerBound(MetricPb::BatterySocPct),
            },
        ) == Some(lower),
        read(
            PoolKey {
                component_id: battery,
                source: Source::UpperBound(MetricPb::BatterySocPct),
            },
        ) == Some(upper),
        upper.spec_le(lower),
    ensures
        is_zero(value(term_tree(Term::Usable, battery, gate_tree(inverters)))),
{
    let gate = gate_tree(inverters);
    let low = leaf_tree(battery, Source::LowerBound(MetricPb::BatterySocPct));
    let high = leaf_tree(battery, Source::UpperBound(MetricPb::BatterySocPct));
    let capacity = leaf_tree(battery, Source::Value(MetricPb::BatteryCapacity));
    let span = soc_span_tree(battery);
    let zero = constant_tree(ZERO_BITS);
    let hundred = constant_tree(HUNDRED_BITS);
    assert(needs_both(value, high, low));
    assert(keeps_order(value, high, low));
    assert(needs_both(value, high.minus(low), zero));
    assert(keeps_order(value, high.minus(low), zero));
    assert(value(span) is Some ==> is_zero(value(span)));
    assert(needs_both(value, capacity, span));
    assert(keeps_zero(value, capacity, span));
    assert(needs_both(value, capacity.times(span), hundred));
    assert(keeps_zero(value, capacity.times(span), hundred));
    assert(needs_both(value, capacity.times(span).over(hundred), gate));
    assert(keeps_zero(value, capacity.times(span).over(hundred), gate));
    assert(is_zero(value(zero)));
}

/// A sum of zeros is zero; the sum of nothing has no reading.
proof fn lemma_sum_of_zeros(
    value: spec_fn(Tree<PoolKey>) -> Option<Single>,
    read: spec_fn(PoolKey) -> Option<Single>,
    terms: Seq<Tree<PoolKey>>,
)
    requires
        evaluates(value, read),
        forall|i: int| 0 <= i < terms.len() ==> is_zero(value(#[trigger] terms[i])),
    ensures
        terms.len() == 0 ==> value(sum_tree(terms)) is None,
        terms.len() > 0 ==> is_zero(value(sum_tree(terms))),
    decreases terms.len(),
{
    if terms.len() > 1 {
        let front = terms.drop_last();
        assert forall|i: int| 0 <= i < front.len() implies is_zero(value(#[trigger] front[i])) by {
            assert(front[i] == terms[i]);
        }
        lemma_sum_of_zeros(value, read, front);
        assert(keeps_zero(value, sum_tree(front), terms.last()));
        assert(is_zero(value(terms[terms.len() - 1])));
    }
}

/// Where no battery can contribute, all that they add is zero.
proof fn lemma_idle_terms(
    value: spec_fn(Tree<PoolKey>) -> Option<Single>,
    read: spec_fn(PoolKey) -> Option<Single>,
    groups: Seq<GroupIds>,
    term: Term,
)
    requires
        evaluates(value, read),
        all_idle(read, groups),
    ensures
        forall|i: int|
            0 <= i < all_terms(term, groups).len() ==> is_zero(
                value(#[trigger] all_terms(term, groups)[i]),
            ),
    decreases groups.len(),
{
    if groups.len() > 0 {
        let front = groups.drop_last();
        let group = groups.last();
        let batteries = in_order(group.batteries);
        let inverters = in_order(group.inverters);
        assert forall|k: int, n: int|
            0 <= k < front.len() && 0 <= n < in_order(front[k].batteries).len() implies is_idle(
            read,
            #[trigger] in_order(front[k].batteries)[n],
            in_order(front[k].inverters),
        ) by {
            assert(front[k] == groups[k]);
            assert(is_idle(
                read,
                in_order(groups[k].batteries)[n],
                in_order(groups[k].inverters),
            ));
        }
        lemma_idle_terms(value, read, front, term);
        let before = all_terms(term, front);
        let all = all_terms(term, groups);
        assert forall|i: int| 0 <= i < all.len() implies is_zero(value(#[trigger] all[i])) by {
            if i < before.len() {
                assert(all[i] == before[i]);
            } else {
                let n = i - before.len();
                let battery = in_order(groups[groups.len() - 1].batteries)[n];
                assert(is_idle(read, battery, inverters));
                law_idle_battery_adds_nothing(value, read, battery, inverters, term);
                assert(all[i] == term_tree(term, battery, gate_tree(inverters)));
            }
        }
    }
}

/// The usable capacity and the SoC of a pool have no reading when no battery
/// contributes.
pub proof fn law_no_reading_without_a_contributing_battery(
    value: spec_fn(Tree<PoolKey>) -> Option<Single>,
    read: spec_fn(PoolKey) -> Option<Single>,
    groups: Seq<GroupIds>,
)
    requires
        evaluates(value, read),
        all_idle(read, groups),
    ensures
        value(usable_capacity_tree(groups)) is None,
        value(soc_tree(groups)) is None,
{
    let total = sum_tree(all_terms(Term::Usable, groups));
    let contributing = sum_tree(all_terms(Term::Contributes, groups));
    let weighted = sum_tree(all_terms(Term::WeightedSoc, groups));
    let weights = sum_tree(all_terms(Term::Weight, groups));
    lemma_idle_terms(value, read, groups, Term::Contributes);
    lemma_sum_of_zeros(value, read, all_terms(Term::Contributes, groups));
    lemma_idle_terms(value, read, groups, Term::WeightedSoc);
    lemma_sum_of_zeros(value, read, all_terms(Term::WeightedSoc, groups));
    lemma_idle_terms(value, read, groups, Term::Weight);
    lemma_sum_of_zeros(value, read, all_terms(Term::Weight, groups));
    assert(needs_both(value, contributing, contributing));
    assert(keeps_zero(value, contributing, contributing));
    assert(needs_both(value, total, contributing.over(contributing)));
    assert(needs_both(value, weighted, weights));
    assert(keeps_zero(value, weighted, weights));
}

fn leaf(component_id: u64, source: Source) -> (r: PoolExpr)
    ensures
        tree_of(r) == leaf_tree(component_id, source),
{
    EngineFormula::Component(PoolKey { component_id, source })
}

fn constant(bits: u32) -> (r: PoolExpr)
    ensures
        tree_of(r) == constant_tree(bits),
{
    EngineFormula::Constant(Some(Single::from_bits(bits)))
}

fn present(expr: PoolExpr) -> (r: PoolExpr)
    ensures
        tree_of(r) == present_tree(tree_of(expr)),
{
    plus(times(expr, constant(ZERO_BITS)), constant(ONE_BITS))
}

fn soc_span(battery: u64) -> (r: PoolExpr)
    ensures
        tree_of(r) == soc_span_tree(battery),
{
    let lower = leaf(battery, Source::LowerBound(MetricPb::BatterySocPct));
    let upper = leaf(battery, Source::UpperBound(MetricPb::BatterySocPct));
    max(minus(upper, lower), constant(ZERO_BITS))
}

fn battery_usable(battery: u64, gate: PoolExpr) -> (r: PoolExpr)
    ensures
        tree_of(r) == battery_usable_tree(battery, tree_of(gate)),
{
    let capacity = leaf(battery, Source::Value(MetricPb::BatteryCapacity));
    times(over(times(capacity, soc_span(battery)), constant(HUNDRED_BITS)), gate)
}

fn battery_scaled_soc(battery: u64) -> (r: PoolExpr)
    ensures
        tree_of(r) == battery_scaled_soc_tree(battery),
{
    let soc = leaf(battery, Source::Value(MetricPb::BatterySocPct));
    let lower = leaf(battery, Source::LowerBound(MetricPb::BatterySocPct));
    let scaled = times(over(minus(soc, lower), soc_span(battery)), constant(HUNDRED_BITS));
    min(max(scaled, constant(ZERO_BITS)), constant(HUNDRED_BITS))
}

fn gate(inverters: &Vec<u64>) -> (r: PoolExpr)
    ensures
        tree_of(r) == gate_tree(inverters@),
{
    if inverters.len() == 0 {
        return constant(ONE_BITS);
    }
    let mut product = leaf(inverters[0], Source::Health);
    let mut i: usize = 1;
    while i < inverters.len()
        invariant
            1 <= i <= inverters.len(),
            tree_of(product) == gate_tree(inverters@.take(i as int)),
        decreases inverters.len() - i,
    {
        assert(inverters@.take(i + 1).drop_last() =~= inverters@.take(i as int));
        product = times(product, leaf(inverters[i], Source::Health));
        i = i + 1;
    }
    assert(inverters@.take(inverters@.len() as int) =~= inverters@);
    product
}

fn term_of(term: Term, battery: u64, inverters: &Vec<u64>) -> (r: PoolExpr)
    ensures
        tree_of(r) == term_tree(term, battery, gate_tree(inverters@)),
{
    let usable = battery_usable(battery, gate(inverters));
    let part = match term {
        Term::Usable => usable,
        Term::Contributes => present(usable),
        Term::WeightedSoc => times(usable, battery_scaled_soc(battery)),
        Term::Weight => times(usable, present(battery_scaled_soc(battery))),
    };
    coalesce(part, constant(ZERO_BITS))
}

fn per_battery(groups: &Vec<InverterBatteryGroup>, term: Term) -> (r: Vec<PoolExpr>)
    ensures
        trees_of(r@) == all_terms(term, members(groups@)),
{
    let mut r: Vec<PoolExpr> = Vec::new();
    let ghost all = members(groups@);
    let mut i: usize = 0;
    assert(trees_of(r@) =~= Seq::<Tree<PoolKey>>::empty());
    while i < groups.len()
        invariant
            i <= groups.len(),
            all == members(groups@),
            trees_of(r@) == all_terms(term, all.take(i as int)),
        decreases groups.len() - i,
    {
        let inverters = sorted(&groups[i].inverter_ids);
        let batteries = sorted(&groups[i].battery_ids);
        let ghost gate = gate_tree(inverters@);
        let ghost before = trees_of(r@);
        let mut j: usize = 0;
        assert(before + battery_terms(term, batteries@.take(0), gate) =~= before);
        while j < batteries.len()
            invariant
                j <= batteries.len(),
                gate == gate_tree(inverters@),
                trees_of(r@) == before + battery_terms(term, batteries@.take(j as int), gate),
            decreases batteries.len() - j,
        {
            let ghost held = trees_of(r@);
            r.push(term_of(term, batteries[j], &inverters));
            proof {
                let one = term_tree(term, batteries@[j as int], gate);
                assert(trees_of(r@) =~= held.push(one));
                assert(battery_terms(term, batteries@.take(j + 1), gate) =~= battery_terms(
                    term,
                    batteries@.take(j as int),
                    gate,
                ).push(one));
                assert(trees_of(r@) =~= before + battery_terms(term, batteries@.take(j + 1), gate));
            }
            j = j + 1;
        }
        proof {
            assert(batteries@.take(batteries@.len() as int) =~= batteries@);
            assert(all.take(i + 1).drop_last() =~= all.take(i as int));
            assert(all[i as int] == groups@[i as int]@);
        }
        i = i + 1;
    }
    assert(all.take(all.len() as int) =~= all);
    r
}

fn sum(terms: Vec<PoolExpr>) -> (r: PoolExpr)
    ensures
        tree_of(r) == sum_tree(trees_of(terms@)),
{
    let ghost all = trees_of(terms@);
    let ghost given = terms@;
    let mut terms = terms;
    if terms.len() == 0 {
        return EngineFormula::Constant(None);
    }
    let mut total = terms.remove(0);
    let ghost mut taken: int = 1;
    assert(all.take(1).len() == 1 && all.take(1)[0] == tree_of(given[0]));
    while terms.len() > 0
        invariant
            1 <= taken <= given.len(),
            all == trees_of(given),
            terms@ == given.skip(taken),
            tree_of(total) == sum_tree(all.take(taken)),
        decreases terms.len(),
    {
        let term = terms.remove(0);
        proof {
            assert(term == given[taken]);
            assert(all.take(taken + 1).drop_last() =~= all.take(taken));
        }
        total = plus(total, term);
        proof {
            assert(terms@ =~= given.skip(taken + 1));
            taken = taken + 1;
        }
    }
    assert(all.take(taken) =~= all);
    total
}

/// The pool's usable capacity in watt-hours: the sum over its batteries of
/// `capacity * max(upper - lower, 0) / 100`, where `lower` and `upper` are the
/// battery's SoC bounds in percent.
///
/// It has no reading when no battery contributes.
pub fn usable_capacity(groups: &Vec<InverterBatteryGroup>) -> (r: PoolExpr)
    ensures
        tree_of(r) == usable_capacity_tree(members(groups@)),
{
    let total = sum(per_battery(groups, Term::Usable));
    // This quotient is 1 while at least one battery contributes and has no
    // reading when none does.
    let some = over(
        sum(per_battery(groups, Term::Contributes)),
        sum(per_battery(groups, Term::Contributes)),
    );
    times(total, some)
}

/// The pool's SoC in percent: each battery's SoC, normalised to its SoC bounds
/// and clamped to 0-100 %, weighted by the battery's usable capacity.
///
/// It has no reading when no battery contributes, including when every
/// battery's usable capacity is zero.
pub fn soc(groups: &Vec<InverterBatteryGroup>) -> (r: PoolExpr)
    ensures
        tree_of(r) == soc_tree(members(groups@)),
{
    // A battery whose SoC is missing leaves the denominator together with the
    // numerator.
    over(sum(per_battery(groups, Term::WeightedSoc)), sum(per_battery(groups, Term::Weight)))
}

/// Whether `known` tells which expressions are known while the components in
/// `subscribed` are subscribed to: it keeps to the rules that the formula engine
/// documents.
///
/// An operation needs all its operands to be known; a coalesce needs the first.
pub open spec fn is_known_with(
    known: spec_fn(Tree<PoolKey>) -> bool,
    subscribed: Set<u64>,
) -> bool {
    &&& forall|key: PoolKey| #[trigger]
        known(Tree::Component(key)) == subscribed.contains(key.component_id)
    &&& forall|a: Tree<PoolKey>, b: Tree<PoolKey>| #[trigger]
        known(a.plus(b)) ==> known(a) && known(b)
    &&& forall|a: Tree<PoolKey>, b: Tree<PoolKey>| #[trigger]
        known(a.minus(b)) ==> known(a) && known(b)
    &&& forall|a: Tree<PoolKey>, b: Tree<PoolKey>| #[trigger]
        known(a.times(b)) ==> known(a) && known(b)
    &&& forall|a: Tree<PoolKey>, b: Tree<PoolKey>| #[trigger]
        known(a.over(b)) ==> known(a) && known(b)
    &&& forall|a: Tree<PoolKey>, b: Tree<PoolKey>| #[trigger]
        known(a.min(b)) ==> known(a) && known(b)
    &&& forall|a: Tree<PoolKey>, b: Tree<PoolKey>| #[trigger]
        known(a.max(b)) ==> known(a) && known(b)
    &&& forall|a: Tree<PoolKey>, b: Tree<PoolKey>| #[trigger]
        known(a.coalesce(b)) ==> known(a)
}

/// A gate is known only with all inverters.
proof fn lemma_known_gate(
    known: spec_fn(Tree<PoolKey>) -> bool,
    subscribed: Set<u64>,
    inverters: Seq<u64>,
    i: int,
)
    requires
        is_known_with(known, subscribed),
        known(gate_tree(inverters)),
        0 <= i < inverters.len(),
    ensures
        subscribed.contains(inverters[i]),
    decreases inverters.len(),
{
    let last = PoolKey { component_id: inverters.last(), source: Source::Health };
    assert(known(Tree::Component(last)) == subscribed.contains(inverters.last()));
    if inverters.len() > 1 {
        let front = inverters.drop_last();
        assert(known(gate_tree(front).times(Tree::Component(last))));
        if i < front.len() {
            lemma_known_gate(known, subscribed, front, i);
        }
    }
}

/// A sum is known only with all terms.
proof fn lemma_known_sum(
    known: spec_fn(Tree<PoolKey>) -> bool,
    subscribed: Set<u64>,
    terms: Seq<Tree<PoolKey>>,
    i: int,
)
    requires
        is_known_with(known, subscribed),
        known(sum_tree(terms)),
        0 <= i < terms.len(),
    ensures
        known(terms[i]),
    decreases terms.len(),
{
    if terms.len() > 1 {
        let front = terms.drop_last();
        assert(known(sum_tree(front).plus(terms.last())));
        if i < front.len() {
            lemma_known_sum(known, subscribed, front, i);
        }
    }
}

/// Every battery of every group adds its term.
proof fn lemma_has_term(term: Term, groups: Seq<GroupIds>, k: int, n: int) -> (i: int)
    requires
        0 <= k < groups.len(),
        0 <= n < in_order(groups[k].batteries).len(),
    ensures
        0 <= i < all_terms(term, groups).len(),
        all_terms(term, groups)[i] == term_tree(
            term,
            in_order(groups[k].batteries)[n],
            gate_tree(in_order(groups[k].inverters)),
        ),
    decreases groups.len(),
{
    let front = groups.drop_last();
    if k < front.len() {
        lemma_has_term(term, front, k, n)
    } else {
        all_terms(term, front).len() + n
    }
}

/// Neither the capacity nor the SoC of a pool is known until every battery of the
/// pool, and every inverter of its group, is subscribed to.
pub proof fn law_unknown_until_all_are_subscribed(
    known: spec_fn(Tree<PoolKey>) -> bool,
    subscribed: Set<u64>,
    groups: Seq<GroupIds>,
    k: int,
    n: int,
)
    requires
        is_known_with(known, subscribed),
        0 <= k < groups.len(),
        0 <= n < in_order(groups[k].batteries).len(),
    ensures
        known(usable_capacity_tree(groups)) || known(soc_tree(groups)) ==> {
            &&& subscribed.contains(in_order(groups[k].batteries)[n])
            &&& forall|i: int|
                0 <= i < in_order(groups[k].inverters).len() ==> subscribed.contains(
                    #[trigger] in_order(groups[k].inverters)[i],
                )
        },
{
    let battery = in_order(groups[k].batteries)[n];
    let inverters = in_order(groups[k].inverters);
    let gate = gate_tree(inverters);
    let capacity = PoolKey {
        component_id: battery,
        source: Source::Value(MetricPb::BatteryCapacity),
    };
    let usable = battery_usable_tree(battery, gate);
    let scaled = battery_scaled_soc_tree(battery);
    let zero = constant_tree(ZERO_BITS);
    if known(usable_capacity_tree(groups)) || known(soc_tree(groups)) {
        if known(usable_capacity_tree(groups)) {
            let contributing = sum_tree(all_terms(Term::Contributes, groups));
            let terms = all_terms(Term::Usable, groups);
            assert(known(sum_tree(terms).times(contributing.over(contributing))));
            let i = lemma_has_term(Term::Usable, groups, k, n);
            lemma_known_sum(known, subscribed, terms, i);
            assert(known(usable.coalesce(zero)));
        } else {
            let terms = all_terms(Term::WeightedSoc, groups);
            assert(known(sum_tree(terms).over(sum_tree(all_terms(Term::Weight, groups)))));
            let i = lemma_has_term(Term::WeightedSoc, groups, k, n);
            lemma_known_sum(known, subscribed, terms, i);
            assert(known(usable.times(scaled).coalesce(zero)));
            assert(known(usable.times(scaled)));
        }
        assert(known(usable));
        let product = Tree::Component(capacity).times(soc_span_tree(battery));
        assert(known(product.over(constant_tree(HUNDRED_BITS)).times(gate)));
        assert(known(product.over(constant_tree(HUNDRED_BITS))));
        assert(known(product));
        assert(known(Tree::Component(capacity)));
        assert forall|i: int| 0 <= i < inverters.len() implies subscribed.contains(
            #[trigger] inverters[i],
        ) by {
            lemma_known_gate(known, subscribed, inverters, i);
        }
    }
}

}
