//! How power is distributed over components.

use std::collections::BTreeMap;

use vstd::prelude::*;

use crate::client::proto::{
    carried, law_first_sample_is_found, sample_of, Coded, ElectricalComponentTelemetry, Metric,
};
use crate::ids::{in_order, keys_of, lemma_has_order, lemma_in_order};
use crate::logical_meter::exact::{magnitude_of, number, two_to};
use crate::single::{Single, SIGN_BIT};

verus! {

broadcast use vstd::std_specs::btree::group_btree_axioms;

/// The bits of the sum of no numbers: zero with a minus sign, which added to a
/// number leaves it as it is.
pub const NOTHING_BITS: u32 = 0x8000_0000;

/// The state of charge that a telemetry message carries: the value of its first
/// sample of it, where that has one.
pub open spec fn soc_of(telemetry: ElectricalComponentTelemetry) -> Option<Single> {
    match sample_of(telemetry.metric_samples@, Metric::BatterySocPct) {
        Some(sample) => carried(sample),
        None => None,
    }
}

/// The state of charge that a telemetry message carries.
pub fn soc(telemetry: &ElectricalComponentTelemetry) -> (r: Option<Single>)
    ensures
        r == soc_of(*telemetry),
{
    match telemetry.find_sample(Metric::BatterySocPct) {
        Some(sample) => sample.carried_value(),
        None => None,
    }
}

/// Whether `total` is what comes of adding up the states of charge of the
/// components with the given IDs, one after the other, by `plus`.
pub open spec fn adds_up_to<F: Fn(Single, Single) -> Single>(
    telemetry: Map<u64, ElectricalComponentTelemetry>,
    ids: Seq<u64>,
    plus: F,
    total: Single,
) -> bool
    decreases ids.len(),
{
    if ids.len() == 0 {
        total.bits == NOTHING_BITS
    } else {
        match soc_of(telemetry[ids.last()]) {
            Some(soc) => exists|before: Single|
                adds_up_to(telemetry, ids.drop_last(), plus, before) && #[trigger] call_ensures(
                    plus,
                    (before, soc),
                    total,
                ),
            None => adds_up_to(telemetry, ids.drop_last(), plus, total),
        }
    }
}

/// Distributes power over batteries.
pub struct BatteryDistributor {
    electrical_components_telemetry: BTreeMap<u64, ElectricalComponentTelemetry>,
    total_soc: Single,
}

impl BatteryDistributor {
    /// The telemetry of the batteries.
    pub closed spec fn spec_telemetry(&self) -> Map<u64, ElectricalComponentTelemetry> {
        self.electrical_components_telemetry@
    }

    /// The sum of the batteries' states of charge.
    pub closed spec fn spec_total_soc(&self) -> Single {
        self.total_soc
    }

    /// A distributor for batteries with the given telemetry. `plus` adds
    /// numbers; they are added in the ascending order of the batteries' IDs.
    pub fn new<F: Fn(Single, Single) -> Single>(
        electrical_components_telemetry: BTreeMap<u64, ElectricalComponentTelemetry>,
        plus: &F,
    ) -> (r: Self)
        requires
            forall|a: Single, b: Single| #[trigger] call_requires(*plus, (a, b)),
        ensures
            r.spec_telemetry() == electrical_components_telemetry@,
            adds_up_to(
                electrical_components_telemetry@,
                in_order(electrical_components_telemetry@.dom()),
                *plus,
                r.spec_total_soc(),
            ),
    {
        let ids = keys_of(&electrical_components_telemetry);
        let mut total_soc = Single::from_bits(NOTHING_BITS);
        let mut i: usize = 0;
        while i < ids.len()
            invariant
                i <= ids.len(),
                forall|a: Single, b: Single| #[trigger] call_requires(*plus, (a, b)),
                ids@.to_set() == electrical_components_telemetry@.dom(),
                adds_up_to(
                    electrical_components_telemetry@,
                    ids@.take(i as int),
                    *plus,
                    total_soc,
                ),
            decreases ids.len() - i,
        {
            assert(ids@.take(i + 1).drop_last() =~= ids@.take(i as int));
            assert(ids@.to_set().contains(ids@[i as int]));
            let ghost next = ids@.take(i + 1);
            assert(next.last() == ids@[i as int]);
            match electrical_components_telemetry.get(&ids[i]) {
                Some(telemetry) => {
                    assert(*telemetry == electrical_components_telemetry@[next.last()]);
                    match soc(telemetry) {
                        Some(soc) => {
                            let ghost before = total_soc;
                            total_soc = plus(total_soc, soc);
                            assert(call_ensures(*plus, (before, soc), total_soc));
                        },
                        None => {},
                    }
                },
                None => {
                    assert(false);
                },
            }
            assert(adds_up_to(electrical_components_telemetry@, next, *plus, total_soc));
            i = i + 1;
        }
        assert(ids@.take(ids@.len() as int) =~= ids@);
        BatteryDistributor { electrical_components_telemetry, total_soc }
    }

    /// The sum of the batteries' states of charge.
    pub fn total_soc(&self) -> (r: Single)
        ensures
            r == self.spec_total_soc(),
    {
        self.total_soc
    }
}

/// With one more battery, behind all others, its state of charge is added to the
/// total of the others; a battery without one leaves the total as it is.
pub proof fn law_every_battery_adds_its_charge<F: Fn(Single, Single) -> Single>(
    telemetry: Map<u64, ElectricalComponentTelemetry>,
    id: u64,
    data: ElectricalComponentTelemetry,
    plus: F,
    total: Single,
)
    requires
        telemetry.dom().finite(),
        forall|other: u64| #[trigger] telemetry.dom().contains(other) ==> other < id,
    ensures
        ({
            let more = telemetry.insert(id, data);
            adds_up_to(more, in_order(more.dom()), plus, total) <==> match soc_of(data) {
                Some(soc) => exists|before: Single|
                    adds_up_to(telemetry, in_order(telemetry.dom()), plus, before)
                        && #[trigger] call_ensures(plus, (before, soc), total),
                None => adds_up_to(telemetry, in_order(telemetry.dom()), plus, total),
            }
        }),
{
    let more = telemetry.insert(id, data);
    let front = in_order(telemetry.dom());
    lemma_has_order(telemetry.dom());
    assert forall|i: int, j: int| 0 <= i < j < front.push(id).len() implies front.push(id)[i]
        < front.push(id)[j] by {
        assert(front.to_set().contains(front[i]));
        assert(telemetry.dom().contains(front[i]));
    }
    assert(front.push(id).to_set() =~= more.dom()) by {
        assert forall|x: u64| front.push(id).to_set().contains(x) == more.dom().contains(x) by {
            assert(front.to_set().contains(x) == telemetry.dom().contains(x));
            if front.contains(x) {
                let k = choose|k: int| 0 <= k < front.len() && front[k] == x;
                assert(front.push(id)[k] == x);
            }
            if x == id {
                assert(front.push(id)[front.len() as int] == x);
            }
        }
    }
    lemma_in_order(front.push(id));
    assert(front.push(id).drop_last() =~= front);
    assert forall|x: u64| #[trigger] front.contains(x) implies telemetry[x] == more[x] by {
        assert(front.to_set().contains(x));
    }
    assert forall|before: Single|
        adds_up_to(more, front, plus, before) == #[trigger] adds_up_to(
            telemetry,
            front,
            plus,
            before,
        ) by {
        lemma_same_charges(more, telemetry, front, plus, before);
    }
}

proof fn lemma_same_charges<F: Fn(Single, Single) -> Single>(
    a: Map<u64, ElectricalComponentTelemetry>,
    b: Map<u64, ElectricalComponentTelemetry>,
    ids: Seq<u64>,
    plus: F,
    total: Single,
)
    requires
        forall|id: u64| #[trigger] ids.contains(id) ==> a[id] == b[id],
    ensures
        adds_up_to(a, ids, plus, total) == adds_up_to(b, ids, plus, total),
    decreases ids.len(),
{
    if ids.len() > 0 {
        let front = ids.drop_last();
        assert(ids.contains(ids.last()));
        assert forall|id: u64| #[trigger] front.contains(id) implies a[id] == b[id] by {
            let k = choose|k: int| 0 <= k < front.len() && front[k] == id;
            assert(ids[k] == id);
            assert(ids.contains(id));
        }
        assert forall|before: Single|
            adds_up_to(a, front, plus, before) == #[trigger] adds_up_to(
                b,
                front,
                plus,
                before,
            ) by {
            lemma_same_charges(a, b, front, plus, before);
        }
        lemma_same_charges(a, b, front, plus, total);
        if let Some(soc) = soc_of(a[ids.last()]) {
            if adds_up_to(a, ids, plus, total) {
                let before = choose|before: Single|
                    adds_up_to(a, front, plus, before) && #[trigger] call_ensures(
                        plus,
                        (before, soc),
                        total,
                    );
                assert(adds_up_to(b, front, plus, before));
            }
            if adds_up_to(b, ids, plus, total) {
                let before = choose|before: Single|
                    adds_up_to(b, front, plus, before) && #[trigger] call_ensures(
                        plus,
                        (before, soc),
                        total,
                    );
                assert(adds_up_to(a, front, plus, before));
            }
        }
    }
}

/// Without batteries the total is zero: the number that leaves others as they are.
pub proof fn law_no_battery_no_charge<F: Fn(Single, Single) -> Single>(
    telemetry: Map<u64, ElectricalComponentTelemetry>,
    plus: F,
    total: Single,
)
    requires
        telemetry.dom() == Set::<u64>::empty(),
        adds_up_to(telemetry, in_order(telemetry.dom()), plus, total),
    ensures
        number(total) == Some(0 as real),
        total.bits >= SIGN_BIT,
{
    lemma_has_order(telemetry.dom());
    let none = in_order(telemetry.dom());
    if none.len() > 0 {
        assert(none.to_set().contains(none[0]));
    }
    assert(magnitude_of(0) == 0 as real) by (nonlinear_arith)
        requires
            magnitude_of(0) == (0 as real) * two_to(-149),
    ;
}

/// The state of charge is the value of the first sample of it.
pub proof fn law_the_charge_is_in_the_first_sample(
    telemetry: ElectricalComponentTelemetry,
    at: int,
)
    requires
        0 <= at < telemetry.metric_samples@.len(),
        telemetry.metric_samples@[at].metric == Coded::<Metric>::Known(Metric::BatterySocPct),
        forall|i: int|
            0 <= i < at ==> (#[trigger] telemetry.metric_samples@[i]).metric != Coded::<
                Metric,
            >::Known(Metric::BatterySocPct),
    ensures
        soc_of(telemetry) == carried(telemetry.metric_samples@[at]),
{
    law_first_sample_is_found(telemetry.metric_samples@, Metric::BatterySocPct, at);
}

}
