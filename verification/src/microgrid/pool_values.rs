//! What the capacity and the SoC of a battery pool are worth, in exact arithmetic.
//!
//! The laws here tell the value of a pool of one battery, and how the values of
//! pools go together. Every pool is made of pools of one battery, so they leave
//! nothing open.

use vstd::prelude::*;

use crate::client::proto::Metric as MetricPb;
use crate::ids::{ascending, in_order, lemma_has_order, lemma_in_order};
use crate::logical_meter::exact::{
    exact, greater, law_bits_of_zero_and_one, law_calls_of_two, law_products_are_products,
    law_sums_are_sums, lesser, number, two_to,
};
use crate::logical_meter::expr::Tree;
use crate::microgrid::battery_pool_formulas::{
    all_terms, battery_scaled_soc_tree, battery_terms, battery_usable_tree, constant_tree,
    gate_tree, leaf_tree, present_tree, soc_span_tree, soc_tree, sum_tree, term_tree,
    usable_capacity_tree, PoolKey, Source, Term, HUNDRED_BITS,
};
use crate::microgrid::telemetry_tracker::inverter_battery_group::GroupIds;
use crate::single::{Single, ONE_BITS, ZERO_BITS};

verus! {

/// What the sources of components read.
pub type Readings = spec_fn(PoolKey) -> Option<real>;

/// What a battery's capacity reads, in watt-hours.
pub open spec fn capacity_of(read: Readings, battery: u64) -> Option<real> {
    read(PoolKey { component_id: battery, source: Source::Value(MetricPb::BatteryCapacity) })
}

/// What a battery's lower SoC bound reads, in percent.
pub open spec fn lower_of(read: Readings, battery: u64) -> Option<real> {
    read(PoolKey { component_id: battery, source: Source::LowerBound(MetricPb::BatterySocPct) })
}

/// What a battery's upper SoC bound reads, in percent.
pub open spec fn upper_of(read: Readings, battery: u64) -> Option<real> {
    read(PoolKey { component_id: battery, source: Source::UpperBound(MetricPb::BatterySocPct) })
}

/// What a battery's SoC reads, in percent.
pub open spec fn charge_of(read: Readings, battery: u64) -> Option<real> {
    read(PoolKey { component_id: battery, source: Source::Value(MetricPb::BatterySocPct) })
}

/// What the health of a component reads.
pub open spec fn health_of(read: Readings, id: u64) -> Option<real> {
    read(PoolKey { component_id: id, source: Source::Health })
}

/// Whether health reads 1 or nothing.
pub open spec fn health_is_one(read: Readings) -> bool {
    forall|id: u64| (#[trigger] health_of(read, id)) matches Some(h) ==> h == 1 as real
}

/// Whether all inverters are healthy.
pub open spec fn all_healthy(read: Readings, inverters: Set<u64>) -> bool {
    forall|i: u64| #[trigger] inverters.contains(i) ==> health_of(read, i) is Some
}

/// The value, or zero where it is missing.
pub open spec fn or_zero(value: Option<real>) -> real {
    match value {
        Some(x) => x,
        None => 0 as real,
    }
}

/// The bits of a hundred stand for a hundred.
pub proof fn law_bits_of_a_hundred()
    ensures
        number(Single { bits: HUNDRED_BITS }) == Some(100 as real),
{
    vstd::arithmetic::power2::lemma2_to64();
    assert(two_to(-17) == (1 as real) / (0x2_0000 as real));
    assert((13_107_200 as real) * ((1 as real) / (0x2_0000 as real)) == 100 as real);
}

/// What a gate reads.
proof fn lemma_gate_value(read: Readings, inverters: Seq<u64>)
    requires
        health_is_one(read),
    ensures
        exact(gate_tree(inverters), read) == (if forall|i: int|
            0 <= i < inverters.len() ==> health_of(read, #[trigger] inverters[i]) is Some {
            Some(1 as real)
        } else {
            None
        }),
    decreases inverters.len(),
{
    law_bits_of_zero_and_one();
    if inverters.len() == 1 {
        assert(health_of(read, inverters[0]) == exact(gate_tree(inverters), read));
    } else if inverters.len() > 1 {
        let front = inverters.drop_last();
        let last = leaf_tree(inverters.last(), Source::Health);
        lemma_gate_value(read, front);
        law_products_are_products(gate_tree(front), last, read);
        let n = inverters.len() - 1;
        assert(exact(last, read) == health_of(read, inverters[n]));
        assert((forall|i: int|
            0 <= i < inverters.len() ==> health_of(read, #[trigger] inverters[i]) is Some) <==> (
        health_of(read, inverters[n]) is Some && forall|i: int|
            0 <= i < front.len() ==> health_of(read, #[trigger] front[i]) is Some)) by {
            if health_of(read, inverters[n]) is Some && forall|i: int|
                0 <= i < front.len() ==> health_of(read, #[trigger] front[i]) is Some {
                assert forall|i: int| 0 <= i < inverters.len() implies health_of(
                    read,
                    #[trigger] inverters[i],
                ) is Some by {
                    if i < n {
                        assert(front[i] == inverters[i]);
                    }
                }
            }
            if forall|i: int|
                0 <= i < inverters.len() ==> health_of(read, #[trigger] inverters[i]) is Some {
                assert forall|i: int| 0 <= i < front.len() implies health_of(
                    read,
                    #[trigger] front[i],
                ) is Some by {
                    assert(front[i] == inverters[i]);
                }
            }
        }
    }
}

/// What the usable capacity of a battery is worth, given what its gate is.
spec fn usable_value(read: Readings, battery: u64, gate: Option<real>) -> Option<real> {
    match (
        capacity_of(read, battery),
        lower_of(read, battery),
        upper_of(read, battery),
        gate,
    ) {
        (Some(c), Some(l), Some(u), Some(g)) => Some(
            c * greater(u - l, 0 as real) / (100 as real) * g,
        ),
        _ => None,
    }
}

/// What the scaled SoC of a battery is worth.
spec fn scaled_value(read: Readings, battery: u64) -> Option<real> {
    match (charge_of(read, battery), lower_of(read, battery), upper_of(read, battery)) {
        (Some(s), Some(l), Some(u)) => if u > l {
            Some(
                lesser(
                    greater((s - l) / (u - l) * (100 as real), 0 as real),
                    100 as real,
                ),
            )
        } else {
            None
        },
        _ => None,
    }
}

proof fn lemma_span_value(read: Readings, battery: u64)
    ensures
        exact(soc_span_tree(battery), read) == (match (
            lower_of(read, battery),
            upper_of(read, battery),
        ) {
            (Some(l), Some(u)) => Some(greater(u - l, 0 as real)),
            _ => None,
        }),
{
    let lower = leaf_tree(battery, Source::LowerBound(MetricPb::BatterySocPct));
    let upper = leaf_tree(battery, Source::UpperBound(MetricPb::BatterySocPct));
    law_bits_of_zero_and_one();
    law_sums_are_sums(upper, lower, read);
    law_calls_of_two(upper.minus(lower), constant_tree(ZERO_BITS), read);
}

proof fn lemma_usable_value(read: Readings, battery: u64, gate: Tree<PoolKey>)
    ensures
        exact(battery_usable_tree(battery, gate), read) == usable_value(
            read,
            battery,
            exact(gate, read),
        ),
{
    let capacity = leaf_tree(battery, Source::Value(MetricPb::BatteryCapacity));
    let span = soc_span_tree(battery);
    let hundred = constant_tree(HUNDRED_BITS);
    law_bits_of_a_hundred();
    lemma_span_value(read, battery);
    law_products_are_products(capacity, span, read);
    law_products_are_products(capacity.times(span), hundred, read);
    law_products_are_products(capacity.times(span).over(hundred), gate, read);
}

proof fn lemma_scaled_value(read: Readings, battery: u64)
    ensures
        exact(battery_scaled_soc_tree(battery), read) == scaled_value(read, battery),
{
    let charge = leaf_tree(battery, Source::Value(MetricPb::BatterySocPct));
    let lower = leaf_tree(battery, Source::LowerBound(MetricPb::BatterySocPct));
    let span = soc_span_tree(battery);
    let zero = constant_tree(ZERO_BITS);
    let hundred = constant_tree(HUNDRED_BITS);
    let share = charge.minus(lower).over(span);
    law_bits_of_zero_and_one();
    law_bits_of_a_hundred();
    lemma_span_value(read, battery);
    law_sums_are_sums(charge, lower, read);
    law_products_are_products(charge.minus(lower), span, read);
    law_products_are_products(share, hundred, read);
    law_calls_of_two(share.times(hundred), zero, read);
    law_calls_of_two(share.times(hundred).max(zero), hundred, read);
}

proof fn lemma_present_value(tree: Tree<PoolKey>, read: Readings)
    ensures
        exact(present_tree(tree), read) == (if exact(tree, read) is Some {
            Some(1 as real)
        } else {
            None
        }),
{
    let zero = constant_tree(ZERO_BITS);
    law_bits_of_zero_and_one();
    law_products_are_products(tree, zero, read);
    law_sums_are_sums(tree.times(zero), constant_tree(ONE_BITS), read);
}

/// What a battery adds to one of the sums.
spec fn term_value(term: Term, read: Readings, battery: u64, gate: Option<real>) -> real {
    match (usable_value(read, battery, gate), scaled_value(read, battery)) {
        (Some(u), scaled) => match term {
            Term::Usable => u,
            Term::Contributes => 1 as real,
            Term::WeightedSoc => match scaled {
                Some(s) => u * s,
                None => 0 as real,
            },
            Term::Weight => if scaled is Some {
                u
            } else {
                0 as real
            },
        },
        _ => 0 as real,
    }
}

proof fn lemma_term_value(term: Term, read: Readings, battery: u64, gate: Tree<PoolKey>)
    ensures
        exact(term_tree(term, battery, gate), read) == Some(
            term_value(term, read, battery, exact(gate, read)),
        ),
{
    let usable = battery_usable_tree(battery, gate);
    let scaled = battery_scaled_soc_tree(battery);
    let zero = constant_tree(ZERO_BITS);
    law_bits_of_zero_and_one();
    lemma_usable_value(read, battery, gate);
    lemma_scaled_value(read, battery);
    lemma_present_value(usable, read);
    lemma_present_value(scaled, read);
    law_products_are_products(usable, scaled, read);
    law_products_are_products(usable, present_tree(scaled), read);
    law_calls_of_two(usable, zero, read);
    law_calls_of_two(present_tree(usable), zero, read);
    law_calls_of_two(usable.times(scaled), zero, read);
    law_calls_of_two(usable.times(present_tree(scaled)), zero, read);
}

/// The sum of what the expressions are worth.
spec fn terms_total(terms: Seq<Tree<PoolKey>>, read: Readings) -> real
    decreases terms.len(),
{
    if terms.len() == 0 {
        0 as real
    } else {
        terms_total(terms.drop_last(), read) + or_zero(exact(terms.last(), read))
    }
}

proof fn lemma_sum_value(terms: Seq<Tree<PoolKey>>, read: Readings)
    requires
        forall|i: int| 0 <= i < terms.len() ==> exact(#[trigger] terms[i], read) is Some,
    ensures
        exact(sum_tree(terms), read) == (if terms.len() == 0 {
            None
        } else {
            Some(terms_total(terms, read))
        }),
    decreases terms.len(),
{
    if terms.len() == 1 {
        assert(exact(terms[0], read) is Some);
        assert(terms.drop_last() =~= Seq::<Tree<PoolKey>>::empty());
        reveal_with_fuel(terms_total, 2);
    } else if terms.len() > 1 {
        let front = terms.drop_last();
        assert forall|i: int| 0 <= i < front.len() implies exact(#[trigger] front[i], read) is Some by {
            assert(front[i] == terms[i]);
        }
        lemma_sum_value(front, read);
        assert(exact(terms[terms.len() - 1], read) is Some);
        law_sums_are_sums(sum_tree(front), terms.last(), read);
    }
}

proof fn lemma_totals_add(a: Seq<Tree<PoolKey>>, b: Seq<Tree<PoolKey>>, read: Readings)
    ensures
        terms_total(a + b, read) == terms_total(a, read) + terms_total(b, read),
    decreases b.len(),
{
    if b.len() == 0 {
        assert(a + b =~= a);
    } else {
        assert((a + b).drop_last() =~= a + b.drop_last());
        assert((a + b).last() == b.last());
        lemma_totals_add(a, b.drop_last(), read);
    }
}

proof fn lemma_all_terms_add(term: Term, a: Seq<GroupIds>, b: Seq<GroupIds>)
    ensures
        all_terms(term, a + b) == all_terms(term, a) + all_terms(term, b),
    decreases b.len(),
{
    if b.len() == 0 {
        assert(a + b =~= a);
        assert(all_terms(term, a) + all_terms(term, b) =~= all_terms(term, a));
    } else {
        assert((a + b).drop_last() =~= a + b.drop_last());
        assert((a + b).last() == b.last());
        lemma_all_terms_add(term, a, b.drop_last());
        let more = battery_terms(
            term,
            in_order(b.last().batteries),
            gate_tree(in_order(b.last().inverters)),
        );
        assert(all_terms(term, a) + all_terms(term, b.drop_last()) + more =~= all_terms(term, a)
            + (all_terms(term, b.drop_last()) + more));
    }
}

/// One of the sums over all batteries.
spec fn total(term: Term, read: Readings, groups: Seq<GroupIds>) -> real {
    terms_total(all_terms(term, groups), read)
}

proof fn lemma_total_adds(term: Term, read: Readings, a: Seq<GroupIds>, b: Seq<GroupIds>)
    ensures
        total(term, read, a + b) == total(term, read, a) + total(term, read, b),
{
    lemma_all_terms_add(term, a, b);
    lemma_totals_add(all_terms(term, a), all_terms(term, b), read);
}

/// The group and the place in it of the `i`-th battery.
spec fn spot(groups: Seq<GroupIds>, i: int) -> (int, int)
    decreases groups.len(),
{
    if groups.len() == 0 {
        (0, 0)
    } else {
        let before = all_terms(Term::Usable, groups.drop_last()).len() as int;
        if i >= before {
            (groups.len() - 1, i - before)
        } else {
            spot(groups.drop_last(), i)
        }
    }
}

proof fn lemma_spot(term: Term, groups: Seq<GroupIds>, i: int)
    ensures
        all_terms(term, groups).len() == all_terms(Term::Usable, groups).len(),
        0 <= i < all_terms(term, groups).len() ==> {
            let (k, n) = spot(groups, i);
            &&& 0 <= k < groups.len()
            &&& 0 <= n < in_order(groups[k].batteries).len()
            &&& all_terms(term, groups)[i] == term_tree(
                term,
                in_order(groups[k].batteries)[n],
                gate_tree(in_order(groups[k].inverters)),
            )
        },
    decreases groups.len(),
{
    if groups.len() > 0 {
        lemma_spot(term, groups.drop_last(), i);
    }
}

proof fn lemma_terms_are_present(term: Term, read: Readings, groups: Seq<GroupIds>)
    ensures
        forall|i: int|
            0 <= i < all_terms(term, groups).len() ==> exact(
                #[trigger] all_terms(term, groups)[i],
                read,
            ) is Some,
{
    assert forall|i: int| 0 <= i < all_terms(term, groups).len() implies exact(
        #[trigger] all_terms(term, groups)[i],
        read,
    ) is Some by {
        lemma_spot(term, groups, i);
        let (k, n) = spot(groups, i);
        lemma_term_value(
            term,
            read,
            in_order(groups[k].batteries)[n],
            gate_tree(in_order(groups[k].inverters)),
        );
    }
}

/// Where one sum counts what contributes and the other adds it up, the count is
/// positive, or both are zero.
proof fn lemma_count(counts: Seq<Tree<PoolKey>>, parts: Seq<Tree<PoolKey>>, read: Readings)
    requires
        counts.len() == parts.len(),
        forall|i: int|
            0 <= i < counts.len() ==> exact(#[trigger] counts[i], read) == Some(1 as real) || (
            exact(counts[i], read) == Some(0 as real) && exact(parts[i], read) == Some(0 as real)),
    ensures
        terms_total(counts, read) >= 0 as real,
        terms_total(counts, read) == 0 as real ==> terms_total(parts, read) == 0 as real,
    decreases counts.len(),
{
    if counts.len() > 0 {
        let front = counts.drop_last();
        assert forall|i: int| 0 <= i < front.len() implies exact(#[trigger] front[i], read) == Some(
            1 as real,
        ) || (exact(front[i], read) == Some(0 as real) && exact(parts.drop_last()[i], read)
            == Some(0 as real)) by {
            assert(front[i] == counts[i]);
        }
        lemma_count(front, parts.drop_last(), read);
        let n = counts.len() - 1;
        assert(exact(counts[n], read) == Some(1 as real) || (exact(counts[n], read) == Some(
            0 as real,
        ) && exact(parts[n], read) == Some(0 as real)));
    }
}

/// What the capacity is worth.
proof fn lemma_capacity_value(read: Readings, groups: Seq<GroupIds>)
    ensures
        exact(usable_capacity_tree(groups), read) == (if total(Term::Contributes, read, groups)
            == 0 as real {
            None
        } else {
            Some(total(Term::Usable, read, groups))
        }),
        total(Term::Contributes, read, groups) >= 0 as real,
        total(Term::Contributes, read, groups) == 0 as real ==> total(Term::Usable, read, groups)
            == 0 as real,
{
    let usable = all_terms(Term::Usable, groups);
    let counts = all_terms(Term::Contributes, groups);
    lemma_terms_are_present(Term::Usable, read, groups);
    lemma_terms_are_present(Term::Contributes, read, groups);
    lemma_sum_value(usable, read);
    lemma_sum_value(counts, read);
    lemma_spot(Term::Contributes, groups, 0);
    law_products_are_products(sum_tree(counts), sum_tree(counts), read);
    law_products_are_products(sum_tree(usable), sum_tree(counts).over(sum_tree(counts)), read);
    assert forall|i: int| 0 <= i < counts.len() implies exact(#[trigger] counts[i], read) == Some(
        1 as real,
    ) || (exact(counts[i], read) == Some(0 as real) && exact(usable[i], read) == Some(0 as real)) by {
        lemma_spot(Term::Usable, groups, i);
        lemma_spot(Term::Contributes, groups, i);
        let (k, n) = spot(groups, i);
        let battery = in_order(groups[k].batteries)[n];
        let gate = gate_tree(in_order(groups[k].inverters));
        lemma_term_value(Term::Usable, read, battery, gate);
        lemma_term_value(Term::Contributes, read, battery, gate);
    }
    lemma_count(counts, usable, read);
    let c = terms_total(counts, read);
    if c != 0 as real {
        assert(c / c == 1 as real) by (nonlinear_arith)
            requires
                c != 0 as real,
        ;
    }
}

/// What the SoC is worth.
proof fn lemma_soc_value(read: Readings, groups: Seq<GroupIds>)
    ensures
        exact(soc_tree(groups), read) == (if total(Term::Weight, read, groups) == 0 as real {
            None
        } else {
            Some(total(Term::WeightedSoc, read, groups) / total(Term::Weight, read, groups))
        }),
{
    let weighted = all_terms(Term::WeightedSoc, groups);
    let weights = all_terms(Term::Weight, groups);
    lemma_terms_are_present(Term::WeightedSoc, read, groups);
    lemma_terms_are_present(Term::Weight, read, groups);
    lemma_sum_value(weighted, read);
    lemma_sum_value(weights, read);
    lemma_spot(Term::WeightedSoc, groups, 0);
    lemma_spot(Term::Weight, groups, 0);
    law_products_are_products(sum_tree(weighted), sum_tree(weights), read);
}

/// The pool of one battery behind the given inverters.
pub open spec fn pool_of_one(inverters: Set<u64>, battery: u64) -> Seq<GroupIds> {
    seq![GroupIds { inverters, batteries: set![battery] }]
}

proof fn lemma_total_of_one(
    term: Term,
    read: Readings,
    inverters: Set<u64>,
    battery: u64,
)
    requires
        health_is_one(read),
        inverters.finite(),
    ensures
        total(term, read, pool_of_one(inverters, battery)) == term_value(
            term,
            read,
            battery,
            if all_healthy(read, inverters) {
                Some(1 as real)
            } else {
                None
            },
        ),
{
    let groups = pool_of_one(inverters, battery);
    let list = in_order(inverters);
    lemma_has_order(inverters);
    lemma_gate_value(read, list);
    assert(all_healthy(read, inverters) <==> forall|i: int|
        0 <= i < list.len() ==> health_of(read, #[trigger] list[i]) is Some) by {
        if all_healthy(read, inverters) {
            assert forall|i: int| 0 <= i < list.len() implies health_of(
                read,
                #[trigger] list[i],
            ) is Some by {
                assert(list.to_set().contains(list[i]));
                assert(inverters.contains(list[i]));
            }
        }
        if forall|i: int| 0 <= i < list.len() ==> health_of(read, #[trigger] list[i]) is Some {
            assert forall|x: u64| #[trigger] inverters.contains(x) implies health_of(
                read,
                x,
            ) is Some by {
                assert(list.to_set().contains(x));
                let i = choose|i: int| 0 <= i < list.len() && list[i] == x;
                assert(health_of(read, list[i]) is Some);
            }
        }
    }
    let one = seq![battery];
    assert(one.to_set() =~= set![battery]) by {
        assert forall|x: u64| one.to_set().contains(x) <==> set![battery].contains(x) by {
            if x == battery {
                assert(one[0] == x);
            }
        }
    }
    lemma_in_order(one);
    assert(in_order(set![battery]) == one);
    let none = Seq::<GroupIds>::empty();
    assert(groups.drop_last() =~= none);
    let term_of_it = term_tree(term, battery, gate_tree(list));
    reveal_with_fuel(all_terms, 2);
    assert(all_terms(term, groups) =~= seq![term_of_it]);
    assert(seq![term_of_it].drop_last() =~= Seq::<Tree<PoolKey>>::empty());
    reveal_with_fuel(terms_total, 2);
    lemma_term_value(term, read, battery, gate_tree(list));
}

/// The usable capacity of one battery is its capacity between its SoC bounds. It
/// is missing where a reading that it needs is missing, and where an inverter is
/// not healthy.
pub proof fn law_capacity_of_one_battery(read: Readings, inverters: Set<u64>, battery: u64)
    requires
        health_is_one(read),
        inverters.finite(),
    ensures
        exact(usable_capacity_tree(pool_of_one(inverters, battery)), read) == (match (
            capacity_of(read, battery),
            lower_of(read, battery),
            upper_of(read, battery),
        ) {
            (Some(c), Some(l), Some(u)) => if all_healthy(read, inverters) {
                Some(c * greater(u - l, 0 as real) / (100 as real))
            } else {
                None
            },
            _ => None,
        }),
{
    let pool = pool_of_one(inverters, battery);
    lemma_capacity_value(read, pool);
    lemma_total_of_one(Term::Usable, read, inverters, battery);
    lemma_total_of_one(Term::Contributes, read, inverters, battery);
}

/// The SoC of one battery is its SoC between its bounds, in percent, and never
/// less than 0 or more than 100. It is missing where a reading that it needs is
/// missing, where an inverter is not healthy, and where the battery has no usable
/// capacity.
pub proof fn law_soc_of_one_battery(read: Readings, inverters: Set<u64>, battery: u64)
    requires
        health_is_one(read),
        inverters.finite(),
    ensures
        exact(soc_tree(pool_of_one(inverters, battery)), read) == (match (
            capacity_of(read, battery),
            lower_of(read, battery),
            upper_of(read, battery),
            charge_of(read, battery),
        ) {
            (Some(c), Some(l), Some(u), Some(s)) => if all_healthy(read, inverters) && l < u && c
                != 0 as real {
                Some(
                    lesser(greater((s - l) / (u - l) * (100 as real), 0 as real), 100 as real),
                )
            } else {
                None
            },
            _ => None,
        }),
{
    let pool = pool_of_one(inverters, battery);
    lemma_soc_value(read, pool);
    lemma_total_of_one(Term::WeightedSoc, read, inverters, battery);
    lemma_total_of_one(Term::Weight, read, inverters, battery);
    if let (Some(c), Some(l), Some(u), Some(s)) = (
        capacity_of(read, battery),
        lower_of(read, battery),
        upper_of(read, battery),
        charge_of(read, battery),
    ) {
        if all_healthy(read, inverters) && l < u {
            let d = u - l;
            let w = c * d / (100 as real);
            let x = lesser(greater((s - l) / (u - l) * (100 as real), 0 as real), 100 as real);
            assert(c * d / (100 as real) * (1 as real) == w);
            assert(w == 0 as real <==> c == 0 as real) by (nonlinear_arith)
                requires
                    w == c * d / (100 as real),
                    d > 0 as real,
            ;
            if c != 0 as real {
                assert(w * x / w == x) by (nonlinear_arith)
                    requires
                        w != 0 as real,
                ;
            }
        }
    }
}

/// The capacities of pools add up: two pools in one have the sum of their
/// capacities, and no reading only where neither has one.
pub proof fn law_capacities_add_up(read: Readings, a: Seq<GroupIds>, b: Seq<GroupIds>)
    ensures
        ({
            let first = exact(usable_capacity_tree(a), read);
            let second = exact(usable_capacity_tree(b), read);
            exact(usable_capacity_tree(a + b), read) == (if first is None && second is None {
                None
            } else {
                Some(or_zero(first) + or_zero(second))
            })
        }),
{
    lemma_capacity_value(read, a);
    lemma_capacity_value(read, b);
    lemma_capacity_value(read, a + b);
    lemma_total_adds(Term::Usable, read, a, b);
    lemma_total_adds(Term::Contributes, read, a, b);
}

/// Whether a battery counts for the SoC: all that is needed is read, its inverters
/// are healthy, its bounds are in order and it has a capacity.
pub open spec fn has_charge(read: Readings, battery: u64, inverters: Set<u64>) -> bool {
    &&& capacity_of(read, battery) matches Some(c) && c > 0 as real
    &&& lower_of(read, battery) matches Some(l) && upper_of(read, battery) matches Some(u) && l < u
    &&& charge_of(read, battery) is Some
    &&& all_healthy(read, inverters)
}

/// Whether the pool has a battery, and all its batteries count for the SoC.
pub open spec fn all_have_charge(read: Readings, groups: Seq<GroupIds>) -> bool {
    &&& exists|k: int, b: u64|
        0 <= k < groups.len() && #[trigger] groups[k].batteries.contains(b)
    &&& forall|k: int, b: u64|
        0 <= k < groups.len() && #[trigger] groups[k].batteries.contains(b) ==> has_charge(
            read,
            b,
            groups[k].inverters,
        )
    &&& forall|k: int|
        0 <= k < groups.len() ==> (#[trigger] groups[k]).inverters.finite()
            && groups[k].batteries.finite()
}

proof fn lemma_gate_of_healthy(read: Readings, inverters: Set<u64>)
    requires
        health_is_one(read),
        inverters.finite(),
        all_healthy(read, inverters),
    ensures
        exact(gate_tree(in_order(inverters)), read) == Some(1 as real),
{
    let list = in_order(inverters);
    lemma_has_order(inverters);
    lemma_gate_value(read, list);
    assert forall|i: int| 0 <= i < list.len() implies health_of(read, #[trigger] list[i]) is Some by {
        assert(list.to_set().contains(list[i]));
        assert(inverters.contains(list[i]));
    }
}

/// Sums of terms that are equal one by one, and positive.
proof fn lemma_equal_positive(a: Seq<Tree<PoolKey>>, b: Seq<Tree<PoolKey>>, read: Readings)
    requires
        a.len() == b.len(),
        forall|i: int|
            0 <= i < a.len() ==> (exact(#[trigger] a[i], read) matches Some(x) && x > 0 as real)
                && exact(a[i], read) == exact(b[i], read),
    ensures
        terms_total(a, read) == terms_total(b, read),
        a.len() > 0 ==> terms_total(a, read) > 0 as real,
        a.len() == 0 ==> terms_total(a, read) == 0 as real,
    decreases a.len(),
{
    if a.len() > 0 {
        let x = a.drop_last();
        let y = b.drop_last();
        assert forall|i: int| 0 <= i < x.len() implies (exact(#[trigger] x[i], read) matches Some(
            v,
        ) && v > 0 as real) && exact(x[i], read) == exact(y[i], read) by {
            assert(x[i] == a[i]);
            assert(y[i] == b[i]);
        }
        lemma_equal_positive(x, y, read);
        let n = a.len() - 1;
        assert(exact(a[n], read) == exact(b[n], read));
    }
}

/// Where all batteries count, the weights are the usable capacities.
proof fn lemma_weights(read: Readings, groups: Seq<GroupIds>)
    requires
        health_is_one(read),
        all_have_charge(read, groups),
    ensures
        total(Term::Weight, read, groups) == total(Term::Usable, read, groups),
        total(Term::Weight, read, groups) > 0 as real,
        total(Term::Contributes, read, groups) > 0 as real,
{
    let weights = all_terms(Term::Weight, groups);
    let usable = all_terms(Term::Usable, groups);
    let counts = all_terms(Term::Contributes, groups);
    lemma_spot(Term::Weight, groups, 0);
    lemma_spot(Term::Contributes, groups, 0);
    assert forall|i: int| 0 <= i < weights.len() implies (exact(#[trigger] weights[i], read)
        matches Some(x) && x > 0 as real) && exact(weights[i], read) == exact(usable[i], read)
        && exact(counts[i], read) == Some(1 as real) by {
        lemma_spot(Term::Usable, groups, i);
        lemma_spot(Term::Weight, groups, i);
        lemma_spot(Term::Contributes, groups, i);
        let (k, n) = spot(groups, i);
        let battery = in_order(groups[k].batteries)[n];
        let gate = gate_tree(in_order(groups[k].inverters));
        assert(groups[k].batteries.finite());
        lemma_has_order(groups[k].batteries);
        assert(in_order(groups[k].batteries).to_set().contains(battery));
        assert(groups[k].batteries.contains(battery));
        lemma_gate_of_healthy(read, groups[k].inverters);
        lemma_term_value(Term::Usable, read, battery, gate);
        lemma_term_value(Term::Weight, read, battery, gate);
        lemma_term_value(Term::Contributes, read, battery, gate);
        let c = capacity_of(read, battery)->Some_0;
        let d = upper_of(read, battery)->Some_0 - lower_of(read, battery)->Some_0;
        assert(c * d / (100 as real) * (1 as real) > 0 as real) by (nonlinear_arith)
            requires
                c > 0 as real,
                d > 0 as real,
        ;
    }
    lemma_equal_positive(weights, usable, read);
    assert forall|i: int| 0 <= i < counts.len() implies (exact(#[trigger] counts[i], read)
        matches Some(x) && x > 0 as real) && exact(counts[i], read) == exact(counts[i], read) by {
        assert(exact(weights[i], read) is Some);
        assert(exact(counts[i], read) == Some(1 as real));
    }
    lemma_equal_positive(counts, counts, read);
    let (k, b) = choose|k: int, b: u64|
        0 <= k < groups.len() && #[trigger] groups[k].batteries.contains(b);
    assert(groups[k].batteries.finite());
    lemma_has_order(groups[k].batteries);
    assert(in_order(groups[k].batteries).to_set().contains(b));
    lemma_some_term(groups, k);
}

/// A group with a battery gives a term.
proof fn lemma_some_term(groups: Seq<GroupIds>, k: int)
    requires
        0 <= k < groups.len(),
        in_order(groups[k].batteries).len() > 0,
    ensures
        all_terms(Term::Usable, groups).len() > 0,
    decreases groups.len(),
{
    if k < groups.len() - 1 {
        lemma_some_term(groups.drop_last(), k);
    }
}

/// The SoC of a pool is the mean of the SoCs of its parts, weighted by their usable
/// capacities: where all batteries count, the SoC of two pools in one, times their
/// capacity, is the sum of the SoC of each, times its capacity.
pub proof fn law_soc_is_weighted_by_capacity(read: Readings, a: Seq<GroupIds>, b: Seq<GroupIds>)
    requires
        health_is_one(read),
        all_have_charge(read, a),
        all_have_charge(read, b),
    ensures
        exact(usable_capacity_tree(a), read) matches Some(x) && x > 0 as real,
        exact(usable_capacity_tree(b), read) matches Some(y) && y > 0 as real,
        exact(soc_tree(a), read) is Some,
        exact(soc_tree(b), read) is Some,
        exact(soc_tree(a + b), read) is Some,
        exact(soc_tree(a + b), read)->Some_0 * exact(usable_capacity_tree(a + b), read)->Some_0
            == exact(soc_tree(a), read)->Some_0 * exact(usable_capacity_tree(a), read)->Some_0
            + exact(soc_tree(b), read)->Some_0 * exact(usable_capacity_tree(b), read)->Some_0,
{
    lemma_weights(read, a);
    lemma_weights(read, b);
    lemma_capacity_value(read, a);
    lemma_capacity_value(read, b);
    lemma_capacity_value(read, a + b);
    lemma_soc_value(read, a);
    lemma_soc_value(read, b);
    lemma_soc_value(read, a + b);
    lemma_total_adds(Term::Usable, read, a, b);
    lemma_total_adds(Term::Contributes, read, a, b);
    lemma_total_adds(Term::WeightedSoc, read, a, b);
    lemma_total_adds(Term::Weight, read, a, b);
    let n = total(Term::WeightedSoc, read, a);
    let m = total(Term::WeightedSoc, read, b);
    let v = total(Term::Weight, read, a);
    let w = total(Term::Weight, read, b);
    assert((n / v) * v == n) by (nonlinear_arith)
        requires
            v != 0 as real,
    ;
    assert((m / w) * w == m) by (nonlinear_arith)
        requires
            w != 0 as real,
    ;
    assert(((n + m) / (v + w)) * (v + w) == n + m) by (nonlinear_arith)
        requires
            v + w != 0 as real,
    ;
}

/// A battery without a SoC of its own leaves the SoC of the pool as it is: one of
/// which a reading is missing, whose inverters are not all healthy, whose bounds
/// are equal or inverted, or whose capacity is zero.
pub proof fn law_soc_leaves_out_what_has_none(
    read: Readings,
    groups: Seq<GroupIds>,
    inverters: Set<u64>,
    battery: u64,
)
    requires
        health_is_one(read),
        inverters.finite(),
        exact(soc_tree(pool_of_one(inverters, battery)), read) is None,
    ensures
        exact(soc_tree(groups + pool_of_one(inverters, battery)), read) == exact(
            soc_tree(groups),
            read,
        ),
{
    let one = pool_of_one(inverters, battery);
    lemma_soc_value(read, groups);
    lemma_soc_value(read, one);
    lemma_soc_value(read, groups + one);
    lemma_total_adds(Term::WeightedSoc, read, groups, one);
    lemma_total_adds(Term::Weight, read, groups, one);
    lemma_total_of_one(Term::WeightedSoc, read, inverters, battery);
    lemma_total_of_one(Term::Weight, read, inverters, battery);
}

/// How many of an ascending listing come before `id`.
spec fn slot(list: Seq<u64>, id: u64) -> int
    decreases list.len(),
{
    if list.len() == 0 {
        0
    } else if list.last() < id {
        list.len() as int
    } else {
        slot(list.drop_last(), id)
    }
}

proof fn lemma_slot(list: Seq<u64>, id: u64)
    requires
        ascending(list),
    ensures
        0 <= slot(list, id) <= list.len(),
        forall|i: int| 0 <= i < slot(list, id) ==> #[trigger] list[i] < id,
        forall|i: int| slot(list, id) <= i < list.len() ==> #[trigger] list[i] >= id,
    decreases list.len(),
{
    if list.len() > 0 {
        let front = list.drop_last();
        assert(ascending(front)) by {
            assert forall|i: int, j: int| 0 <= i < j < front.len() implies front[i] < front[j] by {
                assert(list[i] < list[j]);
            }
        }
        lemma_slot(front, id);
        if list.last() < id {
            assert forall|i: int| 0 <= i < list.len() implies #[trigger] list[i] < id by {
                if i < list.len() - 1 {
                    assert(list[i] < list[list.len() - 1]);
                }
            }
        } else {
            assert forall|i: int| 0 <= i < slot(list, id) implies #[trigger] list[i] < id by {
                assert(front[i] == list[i]);
            }
            assert forall|i: int| slot(list, id) <= i < list.len() implies #[trigger] list[i] >= id by {
                if i < front.len() {
                    assert(front[i] == list[i]);
                }
            }
        }
    }
}

proof fn lemma_one_more_in_order(set: Set<u64>, id: u64)
    requires
        set.finite(),
        !set.contains(id),
    ensures
        0 <= slot(in_order(set), id) <= in_order(set).len(),
        in_order(set.insert(id)) == in_order(set).insert(slot(in_order(set), id), id),
{
    let list = in_order(set);
    lemma_has_order(set);
    lemma_slot(list, id);
    let p = slot(list, id);
    let more = list.insert(p, id);
    assert forall|i: int| 0 <= i < more.len() implies #[trigger] more[i] == (if i < p {
        list[i]
    } else if i == p {
        id
    } else {
        list[i - 1]
    }) by {}
    assert forall|i: int| 0 <= i < list.len() implies #[trigger] list[i] != id by {
        assert(list.to_set().contains(list[i]));
    }
    assert forall|i: int, j: int| 0 <= i < j < more.len() implies more[i] < more[j] by {
        if i < p && j > p {
            assert(list[i] < list[j - 1]);
        } else if i == p {
            assert(list[j - 1] >= id && list[j - 1] != id);
        } else if j == p {
            assert(list[i] < id);
        } else if i > p {
            assert(list[i - 1] < list[j - 1]);
        } else {
            assert(list[i] < list[j]);
        }
    }
    assert(more.to_set() =~= set.insert(id)) by {
        assert forall|x: u64| more.to_set().contains(x) <==> set.insert(id).contains(x) by {
            if more.contains(x) {
                let i = choose|i: int| 0 <= i < more.len() && more[i] == x;
                if i < p {
                    assert(list.to_set().contains(list[i]));
                } else if i > p {
                    assert(list.to_set().contains(list[i - 1]));
                }
            }
            if set.contains(x) {
                assert(list.to_set().contains(x));
                let i = choose|i: int| 0 <= i < list.len() && list[i] == x;
                if i < p {
                    assert(more[i] == x);
                } else {
                    assert(more[i + 1] == x);
                }
            }
            assert(more[p] == id);
        }
    }
    lemma_in_order(more);
}

proof fn lemma_total_of_group(term: Term, read: Readings, group: GroupIds)
    ensures
        total(term, read, seq![group]) == terms_total(
            battery_terms(term, in_order(group.batteries), gate_tree(in_order(group.inverters))),
            read,
        ),
{
    assert(seq![group].drop_last() =~= Seq::<GroupIds>::empty());
    reveal_with_fuel(all_terms, 2);
    assert(all_terms(term, seq![group]) =~= battery_terms(
        term,
        in_order(group.batteries),
        gate_tree(in_order(group.inverters)),
    ));
}

/// A group is as good as its parts: a group with one more battery adds what the
/// group and the battery alone add.
proof fn lemma_total_splits(
    term: Term,
    read: Readings,
    inverters: Set<u64>,
    batteries: Set<u64>,
    battery: u64,
)
    requires
        batteries.finite(),
        !batteries.contains(battery),
    ensures
        total(
            term,
            read,
            seq![GroupIds { inverters, batteries: batteries.insert(battery) }],
        ) == total(term, read, seq![GroupIds { inverters, batteries }]) + total(
            term,
            read,
            pool_of_one(inverters, battery),
        ),
{
    let gate = gate_tree(in_order(inverters));
    let list = in_order(batteries);
    let p = slot(list, battery);
    lemma_one_more_in_order(batteries, battery);
    lemma_total_of_group(term, read, GroupIds { inverters, batteries });
    lemma_total_of_group(term, read, GroupIds { inverters, batteries: batteries.insert(battery) });
    lemma_total_of_group(term, read, GroupIds { inverters, batteries: set![battery] });
    lemma_one_more_in_order(Set::empty(), battery);
    lemma_has_order(Set::<u64>::empty());
    assert(in_order(Set::<u64>::empty()).len() == 0) by {
        if in_order(Set::<u64>::empty()).len() > 0 {
            assert(in_order(Set::<u64>::empty()).to_set().contains(
                in_order(Set::<u64>::empty())[0],
            ));
        }
    }
    assert(set![battery] =~= Set::<u64>::empty().insert(battery));
    assert(in_order(set![battery]) =~= seq![battery]);
    let one = battery_terms(term, seq![battery], gate);
    let x = battery_terms(term, list.subrange(0, p), gate);
    let y = battery_terms(term, list.subrange(p, list.len() as int), gate);
    assert(battery_terms(term, list, gate) =~= x + y);
    assert(battery_terms(term, list.insert(p, battery), gate) =~= x + one + y);
    lemma_totals_add(x, y, read);
    lemma_totals_add(x + one, y, read);
    lemma_totals_add(x, one, read);
}

/// How the batteries of one set of inverters are grouped makes no difference: a
/// battery in a group counts as it does behind the same inverters alone.
pub proof fn law_batteries_of_a_group_count_one_by_one(
    read: Readings,
    before: Seq<GroupIds>,
    inverters: Set<u64>,
    batteries: Set<u64>,
    battery: u64,
    after: Seq<GroupIds>,
)
    requires
        batteries.finite(),
        !batteries.contains(battery),
    ensures
        ({
            let whole = before + seq![GroupIds {
                inverters,
                batteries: batteries.insert(battery),
            }] + after;
            let parts = before + seq![GroupIds { inverters, batteries }] + pool_of_one(
                inverters,
                battery,
            ) + after;
            &&& exact(usable_capacity_tree(whole), read) == exact(usable_capacity_tree(parts), read)
            &&& exact(soc_tree(whole), read) == exact(soc_tree(parts), read)
        }),
{
    let all = seq![GroupIds { inverters, batteries: batteries.insert(battery) }];
    let some = seq![GroupIds { inverters, batteries }];
    let one = pool_of_one(inverters, battery);
    let whole = before + all + after;
    let parts = before + some + one + after;
    assert forall|term: Term| #[trigger] total(term, read, whole) == total(term, read, parts) by {
        lemma_total_adds(term, read, before + all, after);
        lemma_total_adds(term, read, before, all);
        lemma_total_adds(term, read, before + some + one, after);
        lemma_total_adds(term, read, before + some, one);
        lemma_total_adds(term, read, before, some);
        lemma_total_splits(term, read, inverters, batteries, battery);
    }
    assert(total(Term::Usable, read, whole) == total(Term::Usable, read, parts));
    assert(total(Term::Contributes, read, whole) == total(Term::Contributes, read, parts));
    assert(total(Term::WeightedSoc, read, whole) == total(Term::WeightedSoc, read, parts));
    assert(total(Term::Weight, read, whole) == total(Term::Weight, read, parts));
    lemma_capacity_value(read, whole);
    lemma_capacity_value(read, parts);
    lemma_soc_value(read, whole);
    lemma_soc_value(read, parts);
}

/// The order of the groups makes no difference.
pub proof fn law_order_of_groups_makes_no_difference(
    read: Readings,
    a: Seq<GroupIds>,
    b: Seq<GroupIds>,
)
    ensures
        exact(usable_capacity_tree(a + b), read) == exact(usable_capacity_tree(b + a), read),
        exact(soc_tree(a + b), read) == exact(soc_tree(b + a), read),
{
    assert forall|term: Term| #[trigger] total(term, read, a + b) == total(term, read, b + a) by {
        lemma_total_adds(term, read, a, b);
        lemma_total_adds(term, read, b, a);
    }
    assert(total(Term::Usable, read, a + b) == total(Term::Usable, read, b + a));
    assert(total(Term::Contributes, read, a + b) == total(Term::Contributes, read, b + a));
    assert(total(Term::WeightedSoc, read, a + b) == total(Term::WeightedSoc, read, b + a));
    assert(total(Term::Weight, read, a + b) == total(Term::Weight, read, b + a));
    lemma_capacity_value(read, a + b);
    lemma_capacity_value(read, b + a);
    lemma_soc_value(read, a + b);
    lemma_soc_value(read, b + a);
}

/// A pool without batteries has neither a capacity nor a SoC.
pub proof fn law_empty_pool_has_no_reading(read: Readings)
    ensures
        exact(usable_capacity_tree(Seq::empty()), read) is None,
        exact(soc_tree(Seq::empty()), read) is None,
{
    lemma_capacity_value(read, Seq::empty());
    lemma_soc_value(read, Seq::empty());
}

}
