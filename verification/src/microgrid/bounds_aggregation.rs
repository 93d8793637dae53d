//! The bounds of components that are wired in parallel.

use std::collections::BTreeMap;

use vstd::prelude::*;

use crate::bounds::{
    combine_parallel_sets, ends_sum, from_reported, in_parallel, is_sum,
    law_bounds_have_their_ends, law_parallel_ranges_add, reported, Bounds,
};
use crate::client::proto;
use crate::client::proto::{
    law_first_sample_is_found, law_no_sample_without_the_metric, sample_of, Coded,
    ElectricalComponentTelemetry,
};
use crate::ids::{in_order, keys_of, lemma_has_order, lemma_in_order};
use crate::metric::Metric;
use crate::single::Single;

verus! {

broadcast use vstd::std_specs::btree::group_btree_axioms;

/// The bounds that a component reports for `metric`: none where its telemetry
/// holds no sample of it.
pub open spec fn bounds_of(
    telemetry: ElectricalComponentTelemetry,
    metric: proto::Metric,
) -> Seq<Bounds> {
    match sample_of(telemetry.metric_samples@, metric) {
        Some(sample) => sample.bounds@.map_values(|b: proto::Bounds| reported(b)),
        None => Seq::empty(),
    }
}

/// The bounds of the components `ids` in parallel.
pub open spec fn parallel_bounds<F: Fn(Single, Single) -> Single>(
    plus: F,
    telemetry: Map<u64, ElectricalComponentTelemetry>,
    ids: Seq<u64>,
    metric: proto::Metric,
) -> Seq<Bounds>
    decreases ids.len(),
{
    if ids.len() == 0 {
        Seq::empty()
    } else {
        in_parallel(
            plus,
            parallel_bounds(plus, telemetry, ids.drop_last(), metric),
            bounds_of(telemetry[ids.last()], metric),
        )
    }
}

/// The bounds of all the given components in parallel, in ascending order of
/// their IDs.
pub open spec fn aggregate<F: Fn(Single, Single) -> Single>(
    plus: F,
    telemetry: Map<u64, ElectricalComponentTelemetry>,
    metric: proto::Metric,
) -> Seq<Bounds> {
    parallel_bounds(plus, telemetry, in_order(telemetry.dom()), metric)
}

fn metric_bounds(telemetry: &ElectricalComponentTelemetry, metric: proto::Metric) -> (r: Vec<Bounds>)
    ensures
        r@ == bounds_of(*telemetry, metric),
{
    let mut r: Vec<Bounds> = Vec::new();
    match telemetry.find_sample(metric) {
        Some(sample) => {
            let bounds = &sample.bounds;
            let ghost all = bounds@.map_values(|b: proto::Bounds| reported(b));
            let mut i: usize = 0;
            while i < bounds.len()
                invariant
                    i <= bounds.len(),
                    all == bounds@.map_values(|b: proto::Bounds| reported(b)),
                    r@ == all.take(i as int),
                decreases bounds.len() - i,
            {
                r.push(from_reported(&bounds[i]));
                assert(r@ =~= all.take(i + 1));
                i = i + 1;
            }
            assert(all.take(all.len() as int) =~= all);
        },
        None => {},
    }
    r
}

/// The bounds for `M` of all the given components in parallel.
pub fn aggregate_parallel<M: Metric, F: Fn(Single, Single) -> Single>(
    telemetry: &BTreeMap<u64, ElectricalComponentTelemetry>,
    plus: &F,
) -> (r: Vec<Bounds>)
    requires
        is_sum(*plus),
    ensures
        r@ == aggregate(*plus, telemetry@, M::METRIC),
{
    let ids = keys_of(telemetry);
    let mut r: Vec<Bounds> = Vec::new();
    let mut i: usize = 0;
    while i < ids.len()
        invariant
            i <= ids.len(),
            is_sum(*plus),
            ids@.to_set() == telemetry@.dom(),
            r@ == parallel_bounds(*plus, telemetry@, ids@.take(i as int), M::METRIC),
        decreases ids.len() - i,
    {
        assert(ids@.to_set().contains(ids@[i as int]));
        assert(ids@.take(i + 1).drop_last() =~= ids@.take(i as int));
        match telemetry.get(&ids[i]) {
            Some(one) => {
                let bounds = metric_bounds(one, M::METRIC);
                r = combine_parallel_sets(&r, &bounds, plus);
            },
            None => {},
        }
        i = i + 1;
    }
    assert(ids@.take(ids@.len() as int) =~= ids@);
    r
}

/// What is looked at is the telemetry of the listed components alone.
proof fn lemma_only_listed_count<F: Fn(Single, Single) -> Single>(
    plus: F,
    a: Map<u64, ElectricalComponentTelemetry>,
    b: Map<u64, ElectricalComponentTelemetry>,
    ids: Seq<u64>,
    metric: proto::Metric,
)
    requires
        forall|i: int| 0 <= i < ids.len() ==> a[#[trigger] ids[i]] == b[ids[i]],
    ensures
        parallel_bounds(plus, a, ids, metric) == parallel_bounds(plus, b, ids, metric),
    decreases ids.len(),
{
    if ids.len() > 0 {
        let front = ids.drop_last();
        assert forall|i: int| 0 <= i < front.len() implies a[#[trigger] front[i]] == b[front[i]] by {
            assert(front[i] == ids[i]);
        }
        lemma_only_listed_count(plus, a, b, front, metric);
        assert(a[ids[ids.len() - 1]] == b[ids[ids.len() - 1]]);
    }
}

/// A component with a greater ID than all others comes last.
proof fn lemma_greatest_comes_last(ids: Set<u64>, id: u64)
    requires
        ids.finite(),
        forall|x: u64| #[trigger] ids.contains(x) ==> x < id,
    ensures
        in_order(ids.insert(id)) == in_order(ids).push(id),
{
    lemma_has_order(ids);
    let list = in_order(ids);
    let more = list.push(id);
    assert forall|i: int, j: int| 0 <= i < j < more.len() implies more[i] < more[j] by {
        if j == list.len() {
            assert(list.to_set().contains(list[i]));
            assert(ids.contains(list[i]));
        } else {
            assert(list[i] < list[j]);
        }
    }
    assert forall|x: u64| more.to_set().contains(x) <==> ids.insert(id).contains(x) by {
        if more.contains(x) {
            let i = choose|i: int| 0 <= i < more.len() && more[i] == x;
            if i < list.len() {
                assert(list.to_set().contains(list[i]));
            }
        }
        if ids.contains(x) {
            assert(list.to_set().contains(x));
            let i = choose|i: int| 0 <= i < list.len() && list[i] == x;
            assert(more[i] == x);
        }
        assert(more[list.len() as int] == id);
    }
    assert(more.to_set() =~= ids.insert(id));
    lemma_in_order(more);
}

/// One more component is in parallel with all the others: with a component whose
/// ID is the greatest, the bounds of all are those of the others in parallel with
/// its own.
pub proof fn law_one_more_component_is_in_parallel<F: Fn(Single, Single) -> Single>(
    plus: F,
    telemetry: Map<u64, ElectricalComponentTelemetry>,
    id: u64,
    data: ElectricalComponentTelemetry,
    metric: proto::Metric,
)
    requires
        telemetry.dom().finite(),
        forall|x: u64| #[trigger] telemetry.contains_key(x) ==> x < id,
    ensures
        aggregate(plus, telemetry.insert(id, data), metric) == in_parallel(
            plus,
            aggregate(plus, telemetry, metric),
            bounds_of(data, metric),
        ),
{
    let ids = telemetry.dom();
    assert forall|x: u64| #[trigger] ids.contains(x) implies x < id by {
        assert(telemetry.contains_key(x));
    }
    lemma_greatest_comes_last(ids, id);
    lemma_has_order(ids);
    let list = in_order(ids);
    let more = telemetry.insert(id, data);
    assert(more.dom() =~= ids.insert(id));
    assert(list.push(id).drop_last() =~= list);
    assert forall|i: int| 0 <= i < list.len() implies more[#[trigger] list[i]] == telemetry[list[i]] by {
        assert(list.to_set().contains(list[i]));
        assert(ids.contains(list[i]));
    }
    lemma_only_listed_count(plus, more, telemetry, list, metric);
}

/// No component has no bounds.
pub proof fn law_no_component_no_bounds<F: Fn(Single, Single) -> Single>(
    plus: F,
    metric: proto::Metric,
)
    ensures
        aggregate(plus, Map::<u64, ElectricalComponentTelemetry>::empty(), metric) == Seq::<
            Bounds,
        >::empty(),
{
    let none = Map::<u64, ElectricalComponentTelemetry>::empty();
    assert(none.dom() =~= Set::<u64>::empty());
    lemma_has_order(none.dom());
    let all = in_order(none.dom());
    if all.len() > 0 {
        assert(all.to_set().contains(all[0]));
    }
}

/// The sum of ends, one after the other.
pub open spec fn ends_total<F: Fn(Single, Single) -> Single>(
    plus: F,
    ends: Seq<Option<Single>>,
) -> Option<Single>
    decreases ends.len(),
{
    if ends.len() <= 1 {
        ends[0]
    } else {
        ends_sum(plus, ends_total(plus, ends.drop_last()), ends.last())
    }
}

/// Components that report one range each have one range together: from the sum of
/// all lower ends to the sum of all upper ends, taken in the order of their IDs.
pub proof fn law_ranges_of_components_add_up<F: Fn(Single, Single) -> Single>(
    plus: F,
    telemetry: Map<u64, ElectricalComponentTelemetry>,
    metric: proto::Metric,
    ranges: Seq<Bounds>,
)
    requires
        telemetry.dom().finite(),
        ranges.len() == in_order(telemetry.dom()).len(),
        ranges.len() > 0,
        forall|i: int|
            0 <= i < ranges.len() ==> bounds_of(telemetry[in_order(telemetry.dom())[i]], metric)
                == seq![#[trigger] ranges[i]],
    ensures
        aggregate(plus, telemetry, metric).len() == 1,
        aggregate(plus, telemetry, metric)[0].spec_lower() == ends_total(
            plus,
            ranges.map_values(|r: Bounds| r.spec_lower()),
        ),
        aggregate(plus, telemetry, metric)[0].spec_upper() == ends_total(
            plus,
            ranges.map_values(|r: Bounds| r.spec_upper()),
        ),
{
    lemma_ranges_add_up(plus, telemetry, in_order(telemetry.dom()), metric, ranges);
}

proof fn lemma_ranges_add_up<F: Fn(Single, Single) -> Single>(
    plus: F,
    telemetry: Map<u64, ElectricalComponentTelemetry>,
    ids: Seq<u64>,
    metric: proto::Metric,
    ranges: Seq<Bounds>,
)
    requires
        ranges.len() == ids.len(),
        ranges.len() > 0,
        forall|i: int|
            0 <= i < ranges.len() ==> bounds_of(telemetry[ids[i]], metric) == seq![
                #[trigger] ranges[i],
            ],
    ensures
        parallel_bounds(plus, telemetry, ids, metric).len() == 1,
        parallel_bounds(plus, telemetry, ids, metric)[0].spec_lower() == ends_total(
            plus,
            ranges.map_values(|r: Bounds| r.spec_lower()),
        ),
        parallel_bounds(plus, telemetry, ids, metric)[0].spec_upper() == ends_total(
            plus,
            ranges.map_values(|r: Bounds| r.spec_upper()),
        ),
    decreases ids.len(),
{
    let n = ids.len() - 1;
    let front = ids.drop_last();
    let some = ranges.drop_last();
    let lowers = ranges.map_values(|r: Bounds| r.spec_lower());
    let uppers = ranges.map_values(|r: Bounds| r.spec_upper());
    assert(bounds_of(telemetry[ids[n]], metric) == seq![ranges[n]]);
    if n == 0 {
        assert(front =~= Seq::<u64>::empty());
        reveal_with_fuel(parallel_bounds, 2);
    } else {
        assert forall|i: int| 0 <= i < some.len() implies bounds_of(telemetry[front[i]], metric)
            == seq![#[trigger] some[i]] by {
            assert(some[i] == ranges[i]);
            assert(front[i] == ids[i]);
        }
        lemma_ranges_add_up(plus, telemetry, front, metric, some);
        let before = parallel_bounds(plus, telemetry, front, metric);
        assert(before =~= seq![before[0]]);
        law_parallel_ranges_add(plus, before[0], ranges[n]);
        law_bounds_have_their_ends(
            ends_sum(plus, before[0].spec_lower(), ranges[n].spec_lower()),
            ends_sum(plus, before[0].spec_upper(), ranges[n].spec_upper()),
        );
        assert(lowers.drop_last() =~= some.map_values(|r: Bounds| r.spec_lower()));
        assert(uppers.drop_last() =~= some.map_values(|r: Bounds| r.spec_upper()));
    }
}

/// The bounds of a component are those of the first sample of the metric, one by
/// one with the ends that it gives; none without such a sample.
pub proof fn law_bounds_come_from_the_first_sample(
    telemetry: ElectricalComponentTelemetry,
    metric: proto::Metric,
)
    ensures
        forall|i: int, k: int|
            0 <= i < telemetry.metric_samples@.len() && (#[trigger] telemetry.metric_samples@[i]).metric
                == Coded::<proto::Metric>::Known(metric) && (forall|j: int|
                0 <= j < i ==> (#[trigger] telemetry.metric_samples@[j]).metric != Coded::<
                    proto::Metric,
                >::Known(metric)) && 0 <= k < bounds_of(telemetry, metric).len() ==> {
                let given = telemetry.metric_samples@[i].bounds@;
                &&& bounds_of(telemetry, metric).len() == given.len()
                &&& (#[trigger] bounds_of(telemetry, metric)[k]).spec_lower() == given[k].lower
                &&& bounds_of(telemetry, metric)[k].spec_upper() == given[k].upper
            },
        (forall|j: int|
            0 <= j < telemetry.metric_samples@.len() ==> (
            #[trigger] telemetry.metric_samples@[j]).metric != Coded::<proto::Metric>::Known(metric))
            ==> bounds_of(telemetry, metric).len() == 0,
{
    let samples = telemetry.metric_samples@;
    let found = bounds_of(telemetry, metric);
    assert forall|i: int, k: int|
        0 <= i < samples.len() && (#[trigger] samples[i]).metric == Coded::<proto::Metric>::Known(
            metric,
        ) && (forall|j: int|
            0 <= j < i ==> (#[trigger] samples[j]).metric != Coded::<proto::Metric>::Known(metric))
            && 0 <= k < found.len() implies found.len() == samples[i].bounds@.len() && (
    #[trigger] found[k]).spec_lower() == samples[i].bounds@[k].lower && found[k].spec_upper()
        == samples[i].bounds@[k].upper by {
        law_first_sample_is_found(samples, metric, i);
        law_bounds_have_their_ends(samples[i].bounds@[k].lower, samples[i].bounds@[k].upper);
    }
    if forall|j: int|
        0 <= j < samples.len() ==> (#[trigger] samples[j]).metric != Coded::<proto::Metric>::Known(
            metric,
        ) {
        law_no_sample_without_the_metric(samples, metric);
    }
}

}
