//! Groups of inverters and batteries that are wired together.

use std::collections::BTreeSet;

use vstd::prelude::*;

use crate::client::proto::graph::{law_categories_keep_their_names, GraphComponent};
use crate::client::proto::{Coded, ElectricalComponentCategory};
use crate::component_graph::{
    distinct_ids, graph_components, is_predecessor, is_successor, knows, linked, looked_through,
    not_found, transparent, ComponentGraph,
};
use crate::error::{Error, ErrorKind};
use crate::ids::{
    ascending, in_order, is_subset, lemma_before_the_next, lemma_has_order,
    lemma_not_before_itself, listed_before, place_of, sorted, Place,
};
use crate::text::{decimal, id_set, push_decimal, push_id_set};

verus! {

broadcast use vstd::std_specs::btree::group_btree_axioms;

/// A set of inverters and batteries wired together in an `MxN` configuration:
/// M inverters in parallel on the AC side, N batteries in parallel on the DC
/// side, with the inverter side in series with the battery side.
#[derive(Clone, Debug, Hash, PartialEq, Eq)]
pub struct InverterBatteryGroup {
    pub inverter_ids: BTreeSet<u64>,
    pub battery_ids: BTreeSet<u64>,
}

/// The members of an [`InverterBatteryGroup`].
#[verifier::ext_equal]
pub struct GroupIds {
    pub inverters: Set<u64>,
    pub batteries: Set<u64>,
}

impl View for InverterBatteryGroup {
    type V = GroupIds;

    open spec fn view(&self) -> GroupIds {
        GroupIds { inverters: self.inverter_ids@, batteries: self.battery_ids@ }
    }
}

impl InverterBatteryGroup {
    /// The group with the given members.
    pub fn new(inverter_ids: BTreeSet<u64>, battery_ids: BTreeSet<u64>) -> (r: Self)
        ensures
            r.inverter_ids == inverter_ids,
            r.battery_ids == battery_ids,
    {
        InverterBatteryGroup { inverter_ids, battery_ids }
    }

    /// A copy of the group.
    pub fn copied(&self) -> (r: Self)
        ensures
            r@ == self@,
    {
        InverterBatteryGroup {
            inverter_ids: self.inverter_ids.clone(),
            battery_ids: self.battery_ids.clone(),
        }
    }
}

/// Whether one group comes before another: groups go by their batteries in
/// ascending order, then by their inverters.
pub open spec fn precedes(a: GroupIds, b: GroupIds) -> bool {
    ||| listed_before(in_order(a.batteries), in_order(b.batteries))
    ||| in_order(a.batteries) == in_order(b.batteries) && listed_before(
        in_order(a.inverters),
        in_order(b.inverters),
    )
}

/// No group comes before itself, and what comes before a group comes before all
/// that come after it.
pub proof fn law_groups_are_ordered(a: GroupIds, b: GroupIds, c: GroupIds)
    ensures
        !precedes(a, a),
        precedes(a, b) && precedes(b, c) ==> precedes(a, c),
{
    lemma_not_before_itself(in_order(a.batteries));
    lemma_not_before_itself(in_order(a.inverters));
    if precedes(a, b) && precedes(b, c) {
        if listed_before(in_order(a.batteries), in_order(b.batteries)) {
            if listed_before(in_order(b.batteries), in_order(c.batteries)) {
                lemma_before_the_next(
                    in_order(a.batteries),
                    in_order(b.batteries),
                    in_order(c.batteries),
                );
            }
        } else if in_order(b.batteries) == in_order(c.batteries) {
            if listed_before(in_order(b.inverters), in_order(c.inverters)) {
                lemma_before_the_next(
                    in_order(a.inverters),
                    in_order(b.inverters),
                    in_order(c.inverters),
                );
            }
        }
    }
}

/// How one group stands to another.
pub fn group_place(a: &InverterBatteryGroup, b: &InverterBatteryGroup) -> (r: Place)
    ensures
        match r {
            Place::Before => precedes(a@, b@),
            Place::Same => a@ == b@,
            Place::After => precedes(b@, a@),
        },
{
    match place_of(&sorted(&a.battery_ids), &sorted(&b.battery_ids)) {
        Place::Before => Place::Before,
        Place::After => Place::After,
        Place::Same => place_of(&sorted(&a.inverter_ids), &sorted(&b.inverter_ids)),
    }
}

/// The inverters among the predecessors of the component with the given ID.
pub open spec fn inverters_before(graph: ComponentGraph, id: u64) -> Set<u64> {
    Set::new(
        |i: u64|
            exists|c: GraphComponent|
                #[trigger] is_predecessor(graph, c, id) && c.0.spec_category()
                    == ElectricalComponentCategory::Inverter && c.0.id == i,
    )
}

/// The successors of the component with the given ID.
pub open spec fn ids_after(graph: ComponentGraph, id: u64) -> Set<u64> {
    Set::new(|i: u64| exists|c: GraphComponent| #[trigger] is_successor(graph, c, id) && c.0.id == i)
}

/// The successors of any of the given inverters.
pub open spec fn ids_after_any(graph: ComponentGraph, inverters: Set<u64>) -> Set<u64> {
    Set::new(
        |b: u64| exists|i: u64| inverters.contains(i) && #[trigger] ids_after(graph, i).contains(b),
    )
}

/// Whether the group has finitely many members.
pub open spec fn is_finite(group: GroupIds) -> bool {
    group.inverters.finite() && group.batteries.finite()
}

/// Whether each group has finitely many members.
pub open spec fn all_finite(groups: Seq<GroupIds>) -> bool {
    forall|k: int| 0 <= k < groups.len() ==> is_finite(#[trigger] groups[k])
}

/// What keeps a selection of batteries from being grouped.
#[verifier::ext_equal]
pub enum GroupFault {
    /// The graph does not know the component.
    Unknown { id: u64 },
    /// The battery has no inverter.
    NoInverter { battery: u64 },
    /// The inverters have batteries that were not asked for.
    NotAllRequested { inverters: Set<u64>, batteries: Set<u64> },
    /// The battery has inverters outside of its group.
    OtherInverters { battery: u64, connected: Set<u64>, inverters: Set<u64> },
    /// The component is not among the batteries of its inverters: the graph
    /// looks through it.
    NotBehindInverters { battery: u64, inverters: Set<u64>, batteries: Set<u64> },
}

/// Whether the battery has an inverter that is not among `inverters`.
pub open spec fn strays(graph: ComponentGraph, battery: u64, inverters: Set<u64>) -> bool {
    !inverters_before(graph, battery).subset_of(inverters)
}

/// The first of `batteries` that strays from `inverters`, if one does.
pub open spec fn first_stray(
    graph: ComponentGraph,
    batteries: Seq<u64>,
    inverters: Set<u64>,
) -> Option<u64>
    decreases batteries.len(),
{
    if batteries.len() == 0 {
        None
    } else {
        match first_stray(graph, batteries.drop_last(), inverters) {
            Some(b) => Some(b),
            None => if strays(graph, batteries.last(), inverters) {
                Some(batteries.last())
            } else {
                None
            },
        }
    }
}

/// The group of a battery: its inverters, and the components behind them.
pub open spec fn group_of(graph: ComponentGraph, requested: Set<u64>, battery: u64) -> Result<
    GroupIds,
    GroupFault,
> {
    let inverters = inverters_before(graph, battery);
    let batteries = ids_after_any(graph, inverters);
    if !knows(graph, battery) {
        Err(GroupFault::Unknown { id: battery })
    } else if inverters.is_empty() {
        Err(GroupFault::NoInverter { battery })
    } else if !batteries.subset_of(requested) {
        Err(GroupFault::NotAllRequested { inverters, batteries })
    } else {
        match first_stray(graph, in_order(batteries), inverters) {
            Some(b) => Err(
                GroupFault::OtherInverters {
                    battery: b,
                    connected: inverters_before(graph, b),
                    inverters,
                },
            ),
            None => if batteries.contains(battery) {
                Ok(GroupIds { inverters, batteries })
            } else {
                Err(GroupFault::NotBehindInverters { battery, inverters, batteries })
            },
        }
    }
}

/// The groups of the batteries `all[at..]` that are not yet in one: the first
/// fault of any, else the groups in the order of their first batteries.
pub open spec fn groups_from(
    graph: ComponentGraph,
    requested: Set<u64>,
    all: Seq<u64>,
    at: nat,
    grouped: Set<u64>,
) -> Result<Seq<GroupIds>, GroupFault>
    decreases all.len() - at,
{
    if at >= all.len() {
        Ok(Seq::empty())
    } else if grouped.contains(all[at as int]) {
        groups_from(graph, requested, all, at + 1, grouped)
    } else {
        match group_of(graph, requested, all[at as int]) {
            Err(fault) => Err(fault),
            Ok(group) => match groups_from(
                graph,
                requested,
                all,
                at + 1,
                grouped.union(group.batteries),
            ) {
                Err(fault) => Err(fault),
                Ok(rest) => Ok(seq![group] + rest),
            },
        }
    }
}

/// The groups of the given batteries, taken in ascending order.
pub open spec fn groups_of(graph: ComponentGraph, requested: Set<u64>) -> Result<
    Seq<GroupIds>,
    GroupFault,
> {
    groups_from(graph, requested, in_order(requested), 0, Set::empty())
}

/// Whether `error` reports `fault`.
pub open spec fn reports(error: Error, fault: GroupFault, requested: Set<u64>) -> bool {
    match fault {
        GroupFault::Unknown { id } => error.says(ErrorKind::ComponentGraphError, not_found(id)),
        GroupFault::NoInverter { battery } => error.says(
            ErrorKind::ComponentDataError,
            "Battery "@ + decimal(battery as nat) + " is not connected to any inverters."@,
        ),
        GroupFault::NotAllRequested { inverters, batteries } => error.says(
            ErrorKind::ComponentDataError,
            "Inverters "@ + id_set(inverters) + " are connected to batteries "@ + id_set(batteries)
                + " which are not all in the requested component IDs "@ + id_set(requested),
        ),
        GroupFault::OtherInverters { battery, connected, inverters } => error.says(
            ErrorKind::ComponentDataError,
            "Battery "@ + decimal(battery as nat) + " is connected to inverters "@ + id_set(
                connected,
            ) + " which are not all in the same group "@ + id_set(inverters),
        ),
        GroupFault::NotBehindInverters { battery, inverters, batteries } => error.says(
            ErrorKind::ComponentDataError,
            "Component "@ + decimal(battery as nat) + " is not among the batteries "@ + id_set(
                batteries,
            ) + " of its inverters "@ + id_set(inverters),
        ),
    }
}

/// The IDs of `components`: of the inverters among them, or of all.
fn collect_ids(components: &Vec<GraphComponent>, inverters_only: bool) -> (ids: BTreeSet<u64>)
    ensures
        forall|i: u64|
            #[trigger] ids@.contains(i) <==> exists|c: GraphComponent| #[trigger]
                components@.contains(c) && c.0.id == i && (inverters_only ==> c.0.spec_category()
                    == ElectricalComponentCategory::Inverter),
{
    let mut ids: BTreeSet<u64> = BTreeSet::new();
    let mut k: usize = 0;
    while k < components.len()
        invariant
            k <= components.len(),
            forall|i: u64|
                #[trigger] ids@.contains(i) <==> exists|j: int|
                    0 <= j < k && #[trigger] components@[j].0.id == i && (inverters_only
                        ==> components@[j].0.spec_category()
                        == ElectricalComponentCategory::Inverter),
        decreases components.len() - k,
    {
        let ghost before = ids@;
        let component = &components[k];
        if !inverters_only || component.is_inverter() {
            ids.insert(component.0.id);
            assert(ids@ == before.insert(component.0.id));
        }
        proof {
            assert forall|i: u64| #[trigger] ids@.contains(i) <==> exists|j: int|
                0 <= j < k + 1 && #[trigger] components@[j].0.id == i && (inverters_only
                    ==> components@[j].0.spec_category()
                    == ElectricalComponentCategory::Inverter) by {
                if ids@.contains(i) {
                    if before.contains(i) {
                    } else {
                        assert(components@[k as int].0.id == i);
                    }
                }
            }
        }
        k = k + 1;
    }
    proof {
        assert forall|i: u64| #[trigger] ids@.contains(i) <==> exists|c: GraphComponent| #[trigger]
            components@.contains(c) && c.0.id == i && (inverters_only ==> c.0.spec_category()
                == ElectricalComponentCategory::Inverter) by {
            if ids@.contains(i) {
                let j = choose|j: int|
                    0 <= j < components@.len() && #[trigger] components@[j].0.id == i && (
                    inverters_only ==> components@[j].0.spec_category()
                        == ElectricalComponentCategory::Inverter);
                assert(components@.contains(components@[j]));
            }
        }
    }
    ids
}

/// The inverters among the predecessors of the component with the given ID.
fn inverters_of(graph: &ComponentGraph, id: u64) -> (r: Result<BTreeSet<u64>, Error>)
    ensures
        r is Ok <==> knows(*graph, id),
        r matches Ok(ids) ==> ids@ == inverters_before(*graph, id),
        r matches Err(e) ==> e.says(ErrorKind::ComponentGraphError, not_found(id)),
{
    match graph.predecessors(id) {
        Ok(found) => {
            let ids = collect_ids(&found, true);
            proof {
                assert forall|i: u64| ids@.contains(i) <==> inverters_before(*graph, id).contains(
                    i,
                ) by {
                    if inverters_before(*graph, id).contains(i) {
                        let c = choose|c: GraphComponent|
                            #[trigger] is_predecessor(*graph, c, id) && c.0.spec_category()
                                == ElectricalComponentCategory::Inverter && c.0.id == i;
                        assert(found@.contains(c));
                    }
                    if ids@.contains(i) {
                        let c = choose|c: GraphComponent| #[trigger]
                            found@.contains(c) && c.0.id == i && c.0.spec_category()
                                == ElectricalComponentCategory::Inverter;
                        assert(is_predecessor(*graph, c, id));
                    }
                }
                assert(ids@ =~= inverters_before(*graph, id));
            }
            Ok(ids)
        },
        Err(e) => Err(Error::from_graph_error(e)),
    }
}

/// The successors of the component with the given ID.
fn successors_of(graph: &ComponentGraph, id: u64) -> (r: Result<BTreeSet<u64>, Error>)
    ensures
        r is Ok <==> knows(*graph, id),
        r matches Ok(ids) ==> ids@ == ids_after(*graph, id),
        r matches Err(e) ==> e.says(ErrorKind::ComponentGraphError, not_found(id)),
{
    match graph.successors(id) {
        Ok(found) => {
            let ids = collect_ids(&found, false);
            proof {
                assert forall|i: u64| ids@.contains(i) <==> ids_after(*graph, id).contains(i) by {
                    if ids_after(*graph, id).contains(i) {
                        let c = choose|c: GraphComponent|
                            #[trigger] is_successor(*graph, c, id) && c.0.id == i;
                        assert(found@.contains(c));
                    }
                    if ids@.contains(i) {
                        let c = choose|c: GraphComponent| #[trigger]
                            found@.contains(c) && c.0.id == i;
                        assert(is_successor(*graph, c, id));
                    }
                }
                assert(ids@ =~= ids_after(*graph, id));
            }
            Ok(ids)
        },
        Err(e) => Err(Error::from_graph_error(e)),
    }
}

/// Adds the IDs of `more` to `ids`.
pub(crate) fn extend(ids: &mut BTreeSet<u64>, more: &BTreeSet<u64>)
    ensures
        final(ids)@ == old(ids)@.union(more@),
{
    let list = sorted(more);
    let mut k: usize = 0;
    while k < list.len()
        invariant
            k <= list.len(),
            ids@ == old(ids)@.union(list@.take(k as int).to_set()),
        decreases list.len() - k,
    {
        ids.insert(list[k]);
        proof {
            let part = list@.take(k as int);
            let longer = list@.take(k + 1);
            assert(longer =~= part.push(list@[k as int]));
            assert forall|x: u64| longer.to_set().contains(x) <==> part.to_set().insert(list@[k as int]).contains(x) by {
                if part.contains(x) {
                    let j = choose|j: int| 0 <= j < part.len() && part[j] == x;
                    assert(longer[j] == x);
                }
                assert(longer[k as int] == list@[k as int]);
            }
            assert(ids@ =~= old(ids)@.union(longer.to_set()));
        }
        k = k + 1;
    }
    assert(list@.take(list.len() as int) =~= list@);
    assert(Seq::<u64>::empty().to_set() =~= Set::<u64>::empty());
}

/// Inverters found among predecessors are known to the graph.
proof fn lemma_inverters_are_known(graph: ComponentGraph, id: u64)
    ensures
        forall|i: u64| #[trigger] inverters_before(graph, id).contains(i) ==> knows(graph, i),
{
    assert forall|i: u64| #[trigger] inverters_before(graph, id).contains(i) implies knows(
        graph,
        i,
    ) by {
        let c = choose|c: GraphComponent|
            #[trigger] is_predecessor(graph, c, id) && c.0.spec_category()
                == ElectricalComponentCategory::Inverter && c.0.id == i;
        let all = graph_components(graph);
        let k = choose|k: int| 0 <= k < all.len() && all[k] == c;
        assert(all[k].0.id == i);
    }
}

/// Successors are known to the graph.
proof fn lemma_successors_are_known(graph: ComponentGraph, inverters: Set<u64>)
    ensures
        forall|b: u64| #[trigger] ids_after_any(graph, inverters).contains(b) ==> knows(graph, b),
{
    assert forall|b: u64| #[trigger] ids_after_any(graph, inverters).contains(b) implies knows(
        graph,
        b,
    ) by {
        let i = choose|i: u64|
            inverters.contains(i) && #[trigger] ids_after(graph, i).contains(b);
        let c = choose|c: GraphComponent| #[trigger] is_successor(graph, c, i) && c.0.id == b;
        let all = graph_components(graph);
        let k = choose|k: int| 0 <= k < all.len() && all[k] == c;
        assert(all[k].0.id == b);
    }
}

/// The successors of any of the given inverters.
fn batteries_behind(graph: &ComponentGraph, inverters: &BTreeSet<u64>) -> (r: Result<
    BTreeSet<u64>,
    Error,
>)
    requires
        forall|i: u64| #[trigger] inverters@.contains(i) ==> knows(*graph, i),
    ensures
        r matches Ok(ids) && ids@ == ids_after_any(*graph, inverters@),
        inverters@.finite(),
{
    let list = sorted(inverters);
    proof {
        vstd::seq_lib::seq_to_set_is_finite(list@);
    }
    let mut ids: BTreeSet<u64> = BTreeSet::new();
    let mut k: usize = 0;
    while k < list.len()
        invariant
            k <= list.len(),
            inverters@.finite(),
            list@.to_set() == inverters@,
            forall|i: u64| #[trigger] inverters@.contains(i) ==> knows(*graph, i),
            forall|b: u64|
                #[trigger] ids@.contains(b) <==> exists|j: int|
                    0 <= j < k && #[trigger] ids_after(*graph, list@[j]).contains(b),
        decreases list.len() - k,
    {
        proof {
            assert(list@.to_set().contains(list@[k as int]));
        }
        let ghost before = ids@;
        match successors_of(graph, list[k]) {
            Ok(found) => {
                extend(&mut ids, &found);
                proof {
                    assert forall|b: u64| #[trigger] ids@.contains(b) <==> exists|j: int|
                        0 <= j < k + 1 && #[trigger] ids_after(*graph, list@[j]).contains(b) by {
                        if ids@.contains(b) && !before.contains(b) {
                            assert(ids_after(*graph, list@[k as int]).contains(b));
                        }
                    }
                }
            },
            Err(e) => {
                return Err(e);
            },
        }
        k = k + 1;
    }
    proof {
        assert forall|b: u64| ids@.contains(b) <==> ids_after_any(*graph, inverters@).contains(
            b,
        ) by {
            if ids@.contains(b) {
                let j = choose|j: int|
                    0 <= j < list@.len() && #[trigger] ids_after(*graph, list@[j]).contains(b);
                assert(list@.to_set().contains(list@[j]));
            }
            if ids_after_any(*graph, inverters@).contains(b) {
                let i = choose|i: u64|
                    inverters@.contains(i) && #[trigger] ids_after(*graph, i).contains(b);
                assert(list@.to_set().contains(i));
                let j = choose|j: int| 0 <= j < list@.len() && list@[j] == i;
                assert(ids_after(*graph, list@[j]).contains(b));
            }
        }
        assert(ids@ =~= ids_after_any(*graph, inverters@));
    }
    Ok(ids)
}

fn no_inverter_error(battery: u64) -> (e: Error)
    ensures
        reports(e, GroupFault::NoInverter { battery }, Set::empty()),
{
    let mut text = String::from_str("Battery ");
    push_decimal(&mut text, battery);
    text.append(" is not connected to any inverters.");
    Error::component_data_error(text)
}

fn not_all_requested_error(
    inverters: &BTreeSet<u64>,
    batteries: &BTreeSet<u64>,
    requested: &BTreeSet<u64>,
) -> (e: Error)
    ensures
        reports(
            e,
            GroupFault::NotAllRequested { inverters: inverters@, batteries: batteries@ },
            requested@,
        ),
{
    let mut text = String::from_str("Inverters ");
    push_id_set(&mut text, inverters);
    text.append(" are connected to batteries ");
    push_id_set(&mut text, batteries);
    text.append(" which are not all in the requested component IDs ");
    push_id_set(&mut text, requested);
    Error::component_data_error(text)
}

fn other_inverters_error(
    battery: u64,
    connected: &BTreeSet<u64>,
    inverters: &BTreeSet<u64>,
) -> (e: Error)
    ensures
        reports(
            e,
            GroupFault::OtherInverters {
                battery,
                connected: connected@,
                inverters: inverters@,
            },
            Set::empty(),
        ),
{
    let mut text = String::from_str("Battery ");
    push_decimal(&mut text, battery);
    text.append(" is connected to inverters ");
    push_id_set(&mut text, connected);
    text.append(" which are not all in the same group ");
    push_id_set(&mut text, inverters);
    Error::component_data_error(text)
}

fn not_behind_inverters_error(
    battery: u64,
    inverters: &BTreeSet<u64>,
    batteries: &BTreeSet<u64>,
) -> (e: Error)
    ensures
        reports(
            e,
            GroupFault::NotBehindInverters {
                battery,
                inverters: inverters@,
                batteries: batteries@,
            },
            Set::empty(),
        ),
{
    let mut text = String::from_str("Component ");
    push_decimal(&mut text, battery);
    text.append(" is not among the batteries ");
    push_id_set(&mut text, batteries);
    text.append(" of its inverters ");
    push_id_set(&mut text, inverters);
    Error::component_data_error(text)
}

/// The group of a battery.
fn group_around(graph: &ComponentGraph, requested: &BTreeSet<u64>, battery: u64) -> (r: Result<
    InverterBatteryGroup,
    Error,
>)
    ensures
        match r {
            Ok(group) => group_of(*graph, requested@, battery) == Ok::<GroupIds, GroupFault>(group@)
                && is_finite(group@),
            Err(e) => group_of(*graph, requested@, battery) matches Err(fault) && reports(
                e,
                fault,
                requested@,
            ),
        },
{
    let inverters = match inverters_of(graph, battery) {
        Ok(inverters) => inverters,
        Err(e) => {
            return Err(e);
        },
    };
    if inverters.is_empty() {
        return Err(no_inverter_error(battery));
    }
    proof {
        lemma_inverters_are_known(*graph, battery);
    }
    let batteries = match batteries_behind(graph, &inverters) {
        Ok(batteries) => batteries,
        Err(e) => {
            return Err(e);
        },
    };
    if !is_subset(&batteries, requested) {
        return Err(not_all_requested_error(&inverters, &batteries, requested));
    }
    proof {
        lemma_successors_are_known(*graph, inverters@);
    }
    let list = sorted(&batteries);
    let mut k: usize = 0;
    while k < list.len()
        invariant
            k <= list.len(),
            list@ == in_order(batteries@),
            list@.to_set() == batteries@,
            inverters@.finite(),
            inverters@ == inverters_before(*graph, battery),
            batteries@ == ids_after_any(*graph, inverters@),
            knows(*graph, battery),
            !inverters@.is_empty(),
            batteries@.subset_of(requested@),
            forall|b: u64| #[trigger] batteries@.contains(b) ==> knows(*graph, b),
            first_stray(*graph, list@.take(k as int), inverters@) is None,
        decreases list.len() - k,
    {
        proof {
            assert(list@.to_set().contains(list@[k as int]));
            assert(list@.take(k + 1).drop_last() =~= list@.take(k as int));
        }
        match inverters_of(graph, list[k]) {
            Ok(connected) => {
                if !is_subset(&connected, &inverters) {
                    proof {
                        lemma_first_stray_stays(*graph, list@, k + 1, inverters@);
                    }
                    return Err(other_inverters_error(list[k], &connected, &inverters));
                }
            },
            Err(e) => {
                return Err(e);
            },
        }
        k = k + 1;
    }
    assert(list@.take(list.len() as int) =~= list@);
    if !batteries.contains(&battery) {
        return Err(not_behind_inverters_error(battery, &inverters, &batteries));
    }
    proof {
        vstd::seq_lib::seq_to_set_is_finite(list@);
    }
    Ok(InverterBatteryGroup::new(inverters, batteries))
}

/// The first stray of the start of a list is the first stray of the list.
proof fn lemma_first_stray_stays(
    graph: ComponentGraph,
    batteries: Seq<u64>,
    n: int,
    inverters: Set<u64>,
)
    requires
        0 <= n <= batteries.len(),
        first_stray(graph, batteries.take(n), inverters) is Some,
    ensures
        first_stray(graph, batteries, inverters) == first_stray(graph, batteries.take(n), inverters),
    decreases batteries.len() - n,
{
    if n < batteries.len() {
        assert(batteries.take(n + 1).drop_last() =~= batteries.take(n));
        lemma_first_stray_stays(graph, batteries, n + 1, inverters);
    } else {
        assert(batteries.take(n) =~= batteries);
    }
}

/// The members of each of the given groups.
pub open spec fn members(groups: Seq<InverterBatteryGroup>) -> Seq<GroupIds> {
    groups.map_values(|group: InverterBatteryGroup| group@)
}

/// Walks the component graph to partition `component_ids` (battery IDs) into
/// inverter-battery groups, in the order of the lowest battery ID of each.
///
/// Each battery must reach only inverters whose other batteries are also in the
/// set: a malformed or partial selection is an error, and so is a component that
/// the graph looks through. An empty set has no groups.
pub fn inverter_battery_groups(graph: &ComponentGraph, component_ids: &BTreeSet<u64>) -> (r: Result<
    Vec<InverterBatteryGroup>,
    Error,
>)
    ensures
        match r {
            Ok(groups) => groups_of(*graph, component_ids@) == Ok::<Seq<GroupIds>, GroupFault>(
                members(groups@),
            ) && all_finite(members(groups@)),
            Err(e) => groups_of(*graph, component_ids@) matches Err(fault) && reports(
                e,
                fault,
                component_ids@,
            ),
        },
        component_ids@.finite(),
{
    let all = sorted(component_ids);
    proof {
        vstd::seq_lib::seq_to_set_is_finite(all@);
    }
    let mut grouped: BTreeSet<u64> = BTreeSet::new();
    let mut groups: Vec<InverterBatteryGroup> = Vec::new();
    let mut at: usize = 0;
    assert(members(groups@) =~= Seq::<GroupIds>::empty());
    proof {
        match groups_of(*graph, component_ids@) {
            Ok(rest) => {
                assert(Seq::<GroupIds>::empty() + rest =~= rest);
            },
            Err(_) => {},
        }
    }
    while at < all.len()
        invariant
            component_ids@.finite(),
            at <= all.len(),
            all@ == in_order(component_ids@),
            all_finite(members(groups@)),
            groups_of(*graph, component_ids@) == (match groups_from(
                *graph,
                component_ids@,
                all@,
                at as nat,
                grouped@,
            ) {
                Ok(rest) => Ok::<Seq<GroupIds>, GroupFault>(members(groups@) + rest),
                Err(fault) => Err(fault),
            }),
        decreases all.len() - at,
    {
        if !grouped.contains(&all[at]) {
            let ghost found = members(groups@);
            match group_around(graph, component_ids, all[at]) {
                Ok(group) => {
                    extend(&mut grouped, &group.battery_ids);
                    let ghost one = group@;
                    groups.push(group);
                    proof {
                        assert(members(groups@) =~= found.push(one));
                        assert(all_finite(members(groups@)));
                        match groups_from(
                            *graph,
                            component_ids@,
                            all@,
                            (at + 1) as nat,
                            grouped@,
                        ) {
                            Ok(rest) => {
                                assert(found + (seq![one] + rest) =~= members(groups@) + rest);
                            },
                            Err(_) => {},
                        }
                    }
                },
                Err(e) => {
                    return Err(e);
                },
            }
        }
        at = at + 1;
    }
    assert(members(groups@) + Seq::<GroupIds>::empty() =~= members(groups@));
    Ok(groups)
}

/// A battery that is behind one of its inverters is behind each of them.
proof fn lemma_behind_its_inverters(graph: ComponentGraph, battery: u64, inverter: u64)
    requires
        ids_after_any(graph, inverters_before(graph, battery)).contains(battery),
        inverters_before(graph, battery).contains(inverter),
    ensures
        ids_after(graph, inverter).contains(battery),
{
    let c = choose|c: GraphComponent|
        #[trigger] is_predecessor(graph, c, battery) && c.0.spec_category()
            == ElectricalComponentCategory::Inverter && c.0.id == inverter;
    let i = choose|i: u64|
        inverters_before(graph, battery).contains(i) && #[trigger] ids_after(graph, i).contains(
            battery,
        );
    let d = choose|d: GraphComponent| #[trigger] is_successor(graph, d, i) && d.0.id == battery;
    assert(is_successor(graph, d, inverter));
}

/// An inverter of a battery is an inverter of every component behind it.
proof fn lemma_before_its_successors(graph: ComponentGraph, battery: u64, inverter: u64, id: u64)
    requires
        inverters_before(graph, battery).contains(inverter),
        ids_after(graph, inverter).contains(id),
    ensures
        inverters_before(graph, id).contains(inverter),
{
    let c = choose|c: GraphComponent|
        #[trigger] is_predecessor(graph, c, battery) && c.0.spec_category()
            == ElectricalComponentCategory::Inverter && c.0.id == inverter;
    let d = choose|d: GraphComponent| #[trigger] is_successor(graph, d, inverter) && d.0.id == id;
    assert(is_predecessor(graph, c, id));
}

/// Whether whatever is behind an inverter of one of `ids` is itself in `ids`.
#[verifier::opaque]
spec fn closed_under_groups(graph: ComponentGraph, ids: Set<u64>) -> bool {
    forall|x: u64, i: u64|
        ids.contains(x) && #[trigger] inverters_before(graph, x).contains(i) ==> #[trigger] ids_after(
            graph,
            i,
        ).subset_of(ids)
}

/// Whether no stray is found, no battery strays.
proof fn lemma_no_stray(graph: ComponentGraph, batteries: Seq<u64>, inverters: Set<u64>)
    requires
        first_stray(graph, batteries, inverters) is None,
    ensures
        forall|k: int|
            0 <= k < batteries.len() ==> !strays(graph, #[trigger] batteries[k], inverters),
    decreases batteries.len(),
{
    if batteries.len() > 0 {
        lemma_no_stray(graph, batteries.drop_last(), inverters);
        assert forall|k: int| 0 <= k < batteries.len() implies !strays(
            graph,
            #[trigger] batteries[k],
            inverters,
        ) by {
            if k < batteries.len() - 1 {
                assert(batteries.drop_last()[k] == batteries[k]);
            }
        }
    }
}

/// Whether `group` is a group of its own: it has inverters, its batteries are
/// all that is behind them, and no battery has other inverters.
pub open spec fn is_whole(graph: ComponentGraph, group: GroupIds) -> bool {
    &&& !group.inverters.is_empty()
    &&& group.batteries == ids_after_any(graph, group.inverters)
    &&& forall|b: u64| #[trigger]
        group.batteries.contains(b) ==> inverters_before(graph, b).subset_of(group.inverters)
}

/// Whether no member of one group is a member of the other.
pub open spec fn apart(a: GroupIds, b: GroupIds) -> bool {
    a.inverters.disjoint(b.inverters) && a.batteries.disjoint(b.batteries)
}

proof fn lemma_group(graph: ComponentGraph, requested: Set<u64>, battery: u64)
    requires
        requested.finite(),
        group_of(graph, requested, battery) is Ok,
    ensures
        is_whole(graph, group_of(graph, requested, battery)->Ok_0),
        group_of(graph, requested, battery)->Ok_0.batteries.subset_of(requested),
        group_of(graph, requested, battery)->Ok_0.inverters == inverters_before(graph, battery),
{
    let group = group_of(graph, requested, battery)->Ok_0;
    vstd::set_lib::lemma_set_subset_finite(requested, group.batteries);
    crate::ids::lemma_has_order(group.batteries);
    let list = in_order(group.batteries);
    lemma_no_stray(graph, list, group.inverters);
    assert forall|b: u64| #[trigger] group.batteries.contains(b) implies inverters_before(
        graph,
        b,
    ).subset_of(group.inverters) by {
        assert(list.to_set().contains(b));
        let k = choose|k: int| 0 <= k < list.len() && list[k] == b;
        assert(!strays(graph, list[k], group.inverters));
    }
}

/// What a new group adds: it is apart from the batteries grouped before, holds
/// the battery that it was found by, and leaves the grouped ones closed.
proof fn lemma_new_group(
    graph: ComponentGraph,
    requested: Set<u64>,
    battery: u64,
    grouped: Set<u64>,
)
    requires
        requested.finite(),
        requested.contains(battery),
        !grouped.contains(battery),
        closed_under_groups(graph, grouped),
        group_of(graph, requested, battery) is Ok,
    ensures
        ({
            let group = group_of(graph, requested, battery)->Ok_0;
            &&& group.batteries.contains(battery)
            &&& group.batteries.disjoint(grouped)
            &&& closed_under_groups(graph, grouped.union(group.batteries))
            &&& forall|i: u64| #[trigger]
                group.inverters.contains(i) ==> ids_after(graph, i).contains(battery) && ids_after(
                    graph,
                    i,
                ).subset_of(group.batteries)
        }),
{
    let group = group_of(graph, requested, battery)->Ok_0;
    let more = grouped.union(group.batteries);
    reveal(closed_under_groups);
    lemma_group(graph, requested, battery);
    assert forall|i: u64| #[trigger] group.inverters.contains(i) implies ids_after(
        graph,
        i,
    ).contains(battery) && ids_after(graph, i).subset_of(group.batteries) by {
        lemma_behind_its_inverters(graph, battery, i);
    }
    let some = choose|i: u64| group.inverters.contains(i);
    assert(group.inverters.contains(some));
    assert(ids_after(graph, some).contains(battery));
    assert forall|x: u64| group.batteries.contains(x) implies !grouped.contains(x) by {
        let i = choose|i: u64|
            group.inverters.contains(i) && #[trigger] ids_after(graph, i).contains(x);
        if grouped.contains(x) {
            lemma_before_its_successors(graph, battery, i, x);
            assert(ids_after(graph, i).subset_of(grouped));
        }
    }
    assert forall|x: u64, i: u64|
        more.contains(x) && #[trigger] inverters_before(graph, x).contains(
            i,
        ) implies #[trigger] ids_after(graph, i).subset_of(more) by {
        if group.batteries.contains(x) {
            assert(group.inverters.contains(i));
            assert(ids_after(graph, i).subset_of(group.batteries));
        } else {
            assert(ids_after(graph, i).subset_of(grouped));
        }
    }
}

/// Whether `groups` are whole groups within `requested`, apart from each other
/// and from what was grouped before.
spec fn well_grouped(
    graph: ComponentGraph,
    requested: Set<u64>,
    grouped: Set<u64>,
    groups: Seq<GroupIds>,
) -> bool {
    &&& forall|k: int|
        0 <= k < groups.len() ==> is_whole(graph, #[trigger] groups[k])
            && groups[k].batteries.subset_of(requested) && groups[k].batteries.disjoint(grouped)
    &&& forall|k: int, i: u64|
        0 <= k < groups.len() && #[trigger] groups[k].inverters.contains(i) ==> !ids_after(
            graph,
            i,
        ).subset_of(grouped)
    &&& forall|j: int, k: int|
        0 <= j < k < groups.len() ==> apart(#[trigger] groups[j], #[trigger] groups[k])
}

proof fn lemma_prepend(
    graph: ComponentGraph,
    requested: Set<u64>,
    battery: u64,
    grouped: Set<u64>,
    rest: Seq<GroupIds>,
)
    requires
        requested.finite(),
        requested.contains(battery),
        !grouped.contains(battery),
        closed_under_groups(graph, grouped),
        group_of(graph, requested, battery) is Ok,
        well_grouped(
            graph,
            requested,
            grouped.union(group_of(graph, requested, battery)->Ok_0.batteries),
            rest,
        ),
    ensures
        well_grouped(
            graph,
            requested,
            grouped,
            seq![group_of(graph, requested, battery)->Ok_0] + rest,
        ),
{
    let group = group_of(graph, requested, battery)->Ok_0;
    let more = grouped.union(group.batteries);
    let groups = seq![group] + rest;
    lemma_group(graph, requested, battery);
    lemma_new_group(graph, requested, battery, grouped);
    assert forall|k: int| 0 <= k < groups.len() implies is_whole(graph, #[trigger] groups[k])
        && groups[k].batteries.subset_of(requested) && groups[k].batteries.disjoint(grouped) by {
        if k > 0 {
            assert(groups[k] == rest[k - 1]);
        }
    }
    assert forall|k: int, i: u64|
        0 <= k < groups.len() && #[trigger] groups[k].inverters.contains(i) implies !ids_after(
        graph,
        i,
    ).subset_of(grouped) by {
        if k > 0 {
            assert(rest[k - 1].inverters.contains(i));
            assert(!ids_after(graph, i).subset_of(more));
        } else {
            assert(ids_after(graph, i).contains(battery));
        }
    }
    assert forall|j: int, k: int| 0 <= j < k < groups.len() implies apart(
        #[trigger] groups[j],
        #[trigger] groups[k],
    ) by {
        assert(groups[k] == rest[k - 1]);
        if j > 0 {
            assert(groups[j] == rest[j - 1]);
        } else {
            assert forall|i: u64| rest[k - 1].inverters.contains(i) implies !group.inverters.contains(
                i,
            ) by {
                assert(!ids_after(graph, i).subset_of(more));
            }
        }
    }
}

/// Whether the battery was grouped before or is in one of `groups`.
spec fn in_some(grouped: Set<u64>, groups: Seq<GroupIds>, battery: u64) -> bool {
    grouped.contains(battery) || exists|k: int|
        0 <= k < groups.len() && #[trigger] groups[k].batteries.contains(battery)
}

#[verifier::rlimit(40)]
proof fn lemma_groups_from(
    graph: ComponentGraph,
    requested: Set<u64>,
    all: Seq<u64>,
    at: nat,
    grouped: Set<u64>,
)
    requires
        requested.finite(),
        all.to_set() == requested,
        closed_under_groups(graph, grouped),
        groups_from(graph, requested, all, at, grouped) is Ok,
    ensures
        well_grouped(
            graph,
            requested,
            grouped,
            groups_from(graph, requested, all, at, grouped)->Ok_0,
        ),
        forall|n: int|
            at <= n < all.len() ==> in_some(
                grouped,
                groups_from(graph, requested, all, at, grouped)->Ok_0,
                #[trigger] all[n],
            ),
    decreases all.len() - at,
{
    let groups = groups_from(graph, requested, all, at, grouped)->Ok_0;
    if at >= all.len() {
    } else if grouped.contains(all[at as int]) {
        lemma_groups_from(graph, requested, all, at + 1, grouped);
    } else {
        let battery = all[at as int];
        assert(all.to_set().contains(battery));
        let group = group_of(graph, requested, battery)->Ok_0;
        let more = grouped.union(group.batteries);
        let rest = groups_from(graph, requested, all, at + 1, more)->Ok_0;
        lemma_new_group(graph, requested, battery, grouped);
        lemma_groups_from(graph, requested, all, at + 1, more);
        lemma_prepend(graph, requested, battery, grouped, rest);
        assert(groups == seq![group] + rest);
        assert forall|n: int| at <= n < all.len() implies in_some(grouped, groups, #[trigger] all[n]) by {
            assert(groups[0] == group);
            if n > at && !more.contains(all[n]) {
                assert(in_some(more, rest, all[n]));
                let k = choose|k: int|
                    0 <= k < rest.len() && #[trigger] rest[k].batteries.contains(all[n]);
                assert(groups[k + 1].batteries.contains(all[n]));
            } else if !grouped.contains(all[n]) {
                assert(groups[0].batteries.contains(all[n]));
            }
        }
    }
}

/// Where a selection of batteries can be grouped, the groups partition it:
/// every selected battery is in a group, the groups hold no other battery, no
/// two groups share an inverter or a battery, and each group is whole.
pub proof fn law_groups_partition_the_selection(graph: ComponentGraph, requested: Set<u64>)
    requires
        requested.finite(),
        groups_of(graph, requested) is Ok,
    ensures
        ({
            let groups = groups_of(graph, requested)->Ok_0;
            &&& forall|b: u64|
                requested.contains(b) <==> exists|k: int|
                    0 <= k < groups.len() && #[trigger] groups[k].batteries.contains(b)
            &&& forall|j: int, k: int|
                0 <= j < k < groups.len() ==> apart(#[trigger] groups[j], #[trigger] groups[k])
            &&& forall|k: int| 0 <= k < groups.len() ==> is_whole(graph, #[trigger] groups[k])
        }),
{
    crate::ids::lemma_has_order(requested);
    let all = in_order(requested);
    let groups = groups_of(graph, requested)->Ok_0;
    assert(closed_under_groups(graph, Set::empty())) by {
        reveal(closed_under_groups);
    }
    lemma_groups_from(graph, requested, all, 0, Set::empty());
    assert forall|b: u64| requested.contains(b) implies exists|k: int|
        0 <= k < groups.len() && #[trigger] groups[k].batteries.contains(b) by {
        assert(all.to_set().contains(b));
        let n = choose|n: int| 0 <= n < all.len() && all[n] == b;
        assert(in_some(Set::empty(), groups, all[n]));
    }
}

/// The lowest battery ID of a group.
pub open spec fn lowest_battery(group: GroupIds) -> u64 {
    in_order(group.batteries)[0]
}

/// Whether every group has a battery, and the groups go by their lowest ones.
pub open spec fn by_lowest_battery(groups: Seq<GroupIds>) -> bool {
    &&& forall|k: int|
        0 <= k < groups.len() ==> (#[trigger] groups[k]).batteries.contains(
            lowest_battery(groups[k]),
        )
    &&& forall|j: int, k: int|
        0 <= j < k < groups.len() ==> lowest_battery(#[trigger] groups[j]) < lowest_battery(
            #[trigger] groups[k],
        )
}

/// The lowest battery of a group is one of its batteries, and no other is lower.
proof fn lemma_lowest(group: GroupIds, battery: u64)
    requires
        group.batteries.finite(),
        group.batteries.contains(battery),
    ensures
        in_order(group.batteries).len() > 0,
        group.batteries.contains(lowest_battery(group)),
        lowest_battery(group) <= battery,
{
    crate::ids::lemma_has_order(group.batteries);
    let list = in_order(group.batteries);
    assert(list.to_set().contains(battery));
    let k = choose|k: int| 0 <= k < list.len() && list[k] == battery;
    assert(list.to_set().contains(list[0]));
    if k > 0 {
        assert(list[0] < list[k]);
    }
}

/// Whether every battery of the groups is at least `least`.
spec fn none_below(groups: Seq<GroupIds>, least: u64) -> bool {
    forall|k: int, x: u64|
        0 <= k < groups.len() && #[trigger] groups[k].batteries.contains(x) ==> least <= x
}

/// The groups of the batteries `all[at..]` hold no battery before `all[at]`.
proof fn lemma_none_below(
    graph: ComponentGraph,
    requested: Set<u64>,
    all: Seq<u64>,
    at: nat,
    grouped: Set<u64>,
)
    requires
        requested.finite(),
        ascending(all),
        all.to_set() == requested,
        closed_under_groups(graph, grouped),
        forall|n: int| 0 <= n < at && n < all.len() ==> grouped.contains(#[trigger] all[n]),
        groups_from(graph, requested, all, at, grouped) is Ok,
        at < all.len(),
    ensures
        none_below(groups_from(graph, requested, all, at, grouped)->Ok_0, all[at as int]),
{
    let groups = groups_from(graph, requested, all, at, grouped)->Ok_0;
    lemma_groups_from(graph, requested, all, at, grouped);
    assert forall|k: int, x: u64|
        0 <= k < groups.len() && #[trigger] groups[k].batteries.contains(
            x,
        ) implies all[at as int] <= x by {
        assert(groups[k].batteries.subset_of(requested));
        assert(!grouped.contains(x));
        assert(all.to_set().contains(x));
        let n = choose|n: int| 0 <= n < all.len() && all[n] == x;
        assert(n >= at);
    }
}

/// A group with the lowest battery of all goes first.
proof fn lemma_lowest_first(group: GroupIds, rest: Seq<GroupIds>, battery: u64, next: u64)
    requires
        group.batteries.finite(),
        group.batteries.contains(battery),
        none_below(seq![group], battery),
        by_lowest_battery(rest),
        rest.len() > 0 ==> battery < next && none_below(rest, next),
    ensures
        by_lowest_battery(seq![group] + rest),
{
    let groups = seq![group] + rest;
    lemma_lowest(group, battery);
    assert(seq![group][0].batteries.contains(lowest_battery(group)));
    assert forall|k: int| 0 <= k < groups.len() implies (#[trigger] groups[k]).batteries.contains(
        lowest_battery(groups[k]),
    ) by {
        if k > 0 {
            assert(groups[k] == rest[k - 1]);
        }
    }
    assert forall|j: int, k: int| 0 <= j < k < groups.len() implies lowest_battery(
        #[trigger] groups[j],
    ) < lowest_battery(#[trigger] groups[k]) by {
        assert(groups[k] == rest[k - 1]);
        assert(rest[k - 1].batteries.contains(lowest_battery(rest[k - 1])));
        if j > 0 {
            assert(groups[j] == rest[j - 1]);
        }
    }
}

proof fn lemma_by_lowest_battery(
    graph: ComponentGraph,
    requested: Set<u64>,
    all: Seq<u64>,
    at: nat,
    grouped: Set<u64>,
)
    requires
        requested.finite(),
        ascending(all),
        all.to_set() == requested,
        closed_under_groups(graph, grouped),
        forall|n: int| 0 <= n < at && n < all.len() ==> grouped.contains(#[trigger] all[n]),
        groups_from(graph, requested, all, at, grouped) is Ok,
    ensures
        by_lowest_battery(groups_from(graph, requested, all, at, grouped)->Ok_0),
    decreases all.len() - at,
{
    let groups = groups_from(graph, requested, all, at, grouped)->Ok_0;
    if at >= all.len() {
    } else if grouped.contains(all[at as int]) {
        lemma_by_lowest_battery(graph, requested, all, at + 1, grouped);
    } else {
        let battery = all[at as int];
        assert(all.to_set().contains(battery));
        let group = group_of(graph, requested, battery)->Ok_0;
        let more = grouped.union(group.batteries);
        let rest = groups_from(graph, requested, all, at + 1, more)->Ok_0;
        lemma_new_group(graph, requested, battery, grouped);
        lemma_group(graph, requested, battery);
        lemma_none_below(graph, requested, all, at, grouped);
        vstd::set_lib::lemma_set_subset_finite(requested, group.batteries);
        assert forall|n: int| 0 <= n < at + 1 && n < all.len() implies more.contains(
            #[trigger] all[n],
        ) by {
            if n < at {
                assert(grouped.contains(all[n]));
            }
        }
        lemma_by_lowest_battery(graph, requested, all, at + 1, more);
        assert(groups == seq![group] + rest);
        assert(groups[0] == group);
        assert(none_below(seq![group], battery)) by {
            assert forall|k: int, x: u64|
                0 <= k < seq![group].len() && #[trigger] seq![group][k].batteries.contains(
                    x,
                ) implies battery <= x by {
                assert(groups[0].batteries.contains(x));
            }
        }
        if at + 1 < all.len() {
            lemma_none_below(graph, requested, all, at + 1, more);
            lemma_lowest_first(group, rest, battery, all[at as int + 1]);
        } else {
            lemma_lowest_first(group, rest, battery, battery);
        }
    }
}

/// The groups of a selection go by their lowest battery IDs, and so in the order
/// of groups.
pub proof fn law_groups_go_by_their_lowest_battery(graph: ComponentGraph, requested: Set<u64>)
    requires
        requested.finite(),
        groups_of(graph, requested) is Ok,
    ensures
        by_lowest_battery(groups_of(graph, requested)->Ok_0),
        forall|j: int, k: int|
            0 <= j < k < groups_of(graph, requested)->Ok_0.len() ==> precedes(
                #[trigger] groups_of(graph, requested)->Ok_0[j],
                #[trigger] groups_of(graph, requested)->Ok_0[k],
            ),
{
    let groups = groups_of(graph, requested)->Ok_0;
    crate::ids::lemma_has_order(requested);
    assert(closed_under_groups(graph, Set::empty())) by {
        reveal(closed_under_groups);
    }
    lemma_by_lowest_battery(graph, requested, in_order(requested), 0, Set::empty());
    lemma_groups_from(graph, requested, in_order(requested), 0, Set::empty());
    assert forall|j: int, k: int| 0 <= j < k < groups.len() implies precedes(
        #[trigger] groups[j],
        #[trigger] groups[k],
    ) by {
        let a = in_order(groups[j].batteries);
        let b = in_order(groups[k].batteries);
        assert(groups[j].batteries.subset_of(requested));
        assert(groups[k].batteries.subset_of(requested));
        vstd::set_lib::lemma_set_subset_finite(requested, groups[j].batteries);
        vstd::set_lib::lemma_set_subset_finite(requested, groups[k].batteries);
        lemma_lowest(groups[j], lowest_battery(groups[j]));
        lemma_lowest(groups[k], lowest_battery(groups[k]));
        assert(crate::ids::parts_at(a, b, 0));
    }
}

/// A component that the graph looks through is in no group: a selection with one
/// is refused.
pub proof fn law_looked_through_components_are_refused(
    graph: ComponentGraph,
    requested: Set<u64>,
    id: u64,
)
    requires
        requested.finite(),
        distinct_ids(graph_components(graph)),
        requested.contains(id),
        looked_through(graph, id),
    ensures
        groups_of(graph, requested) is Err,
{
    if groups_of(graph, requested) is Ok {
        law_groups_partition_the_selection(graph, requested);
        let groups = groups_of(graph, requested)->Ok_0;
        let k = choose|k: int| 0 <= k < groups.len() && #[trigger] groups[k].batteries.contains(id);
        assert(is_whole(graph, groups[k]));
        let i = choose|i: u64|
            groups[k].inverters.contains(i) && #[trigger] ids_after(graph, i).contains(id);
        let c = choose|c: GraphComponent| #[trigger] is_successor(graph, c, i) && c.0.id == id;
        let all = graph_components(graph);
        let n = choose|n: int| 0 <= n < all.len() && all[n] == c;
        let m = choose|m: int|
            0 <= m < all.len() && #[trigger] all[m].0.id == id && transparent(
                all[m].spec_graph_category(),
            );
        assert(n == m);
    }
}

/// An empty selection has no groups.
pub proof fn law_empty_selection_has_no_groups(graph: ComponentGraph)
    ensures
        groups_of(graph, Set::empty()) == Ok::<Seq<GroupIds>, GroupFault>(Seq::empty()),
{
    crate::ids::lemma_has_order(Set::empty());
    let all = in_order(Set::empty());
    if all.len() > 0 {
        assert(all.to_set().contains(all[0]));
    }
}

proof fn lemma_none_strays(graph: ComponentGraph, batteries: Seq<u64>, inverters: Set<u64>)
    requires
        forall|k: int|
            0 <= k < batteries.len() ==> !strays(graph, #[trigger] batteries[k], inverters),
    ensures
        first_stray(graph, batteries, inverters) is None,
    decreases batteries.len(),
{
    if batteries.len() > 0 {
        let front = batteries.drop_last();
        assert forall|k: int| 0 <= k < front.len() implies !strays(
            graph,
            #[trigger] front[k],
            inverters,
        ) by {
            assert(front[k] == batteries[k]);
        }
        lemma_none_strays(graph, front, inverters);
        assert(!strays(graph, batteries[batteries.len() - 1], inverters));
    }
}

proof fn lemma_first_stray(graph: ComponentGraph, batteries: Seq<u64>, inverters: Set<u64>)
    ensures
        first_stray(graph, batteries, inverters) matches Some(b) ==> batteries.contains(b)
            && strays(graph, b, inverters),
    decreases batteries.len(),
{
    if batteries.len() > 0 {
        let front = batteries.drop_last();
        lemma_first_stray(graph, front, inverters);
        if let Some(b) = first_stray(graph, front, inverters) {
            let k = choose|k: int| 0 <= k < front.len() && front[k] == b;
            assert(batteries[k] == b);
        } else {
            assert(batteries[batteries.len() - 1] == batteries.last());
        }
    }
}

/// Whether the battery can be grouped: the graph knows it, it has inverters, it is
/// among the components behind them, all of these were asked for, and none of
/// these has an inverter that the battery does not have.
pub open spec fn can_be_grouped(graph: ComponentGraph, requested: Set<u64>, battery: u64) -> bool {
    let inverters = inverters_before(graph, battery);
    let batteries = ids_after_any(graph, inverters);
    &&& knows(graph, battery)
    &&& exists|i: u64| inverters.contains(i)
    &&& batteries.contains(battery)
    &&& forall|b: u64| #[trigger]
        batteries.contains(b) ==> requested.contains(b) && forall|i: u64| #[trigger]
            inverters_before(graph, b).contains(i) ==> inverters.contains(i)
}

/// A battery has a group exactly where it can be grouped.
pub proof fn law_batteries_that_can_be_are_grouped(
    graph: ComponentGraph,
    requested: Set<u64>,
    battery: u64,
)
    requires
        requested.finite(),
    ensures
        group_of(graph, requested, battery) is Ok <==> can_be_grouped(graph, requested, battery),
{
    let inverters = inverters_before(graph, battery);
    let batteries = ids_after_any(graph, inverters);
    if batteries.subset_of(requested) {
        vstd::set_lib::lemma_set_subset_finite(requested, batteries);
        lemma_has_order(batteries);
        let list = in_order(batteries);
        lemma_first_stray(graph, list, inverters);
        if can_be_grouped(graph, requested, battery) {
            assert forall|k: int| 0 <= k < list.len() implies !strays(
                graph,
                #[trigger] list[k],
                inverters,
            ) by {
                assert(list.to_set().contains(list[k]));
                assert(batteries.contains(list[k]));
            }
            lemma_none_strays(graph, list, inverters);
        } else if group_of(graph, requested, battery) is Ok {
            lemma_no_stray(graph, list, inverters);
            assert forall|b: u64| #[trigger] batteries.contains(b) implies requested.contains(b)
                && forall|i: u64| #[trigger]
                inverters_before(graph, b).contains(i) ==> inverters.contains(i) by {
                assert(list.to_set().contains(b));
                let k = choose|k: int| 0 <= k < list.len() && list[k] == b;
                assert(!strays(graph, list[k], inverters));
            }
            assert(exists|i: u64| inverters.contains(i));
        }
    } else {
        let b = choose|b: u64| batteries.contains(b) && !requested.contains(b);
        assert(batteries.contains(b));
    }
}

proof fn lemma_groups_from_all(
    graph: ComponentGraph,
    requested: Set<u64>,
    all: Seq<u64>,
    at: nat,
    grouped: Set<u64>,
)
    requires
        forall|k: int|
            0 <= k < all.len() ==> group_of(graph, requested, #[trigger] all[k]) is Ok,
    ensures
        groups_from(graph, requested, all, at, grouped) is Ok,
    decreases all.len() - at,
{
    if at < all.len() {
        lemma_groups_from_all(graph, requested, all, at + 1, grouped);
        assert(group_of(graph, requested, all[at as int]) is Ok);
        let group = group_of(graph, requested, all[at as int])->Ok_0;
        lemma_groups_from_all(graph, requested, all, at + 1, grouped.union(group.batteries));
    }
}

/// A selection of which every battery can be grouped has groups.
pub proof fn law_whole_selections_have_groups(graph: ComponentGraph, requested: Set<u64>)
    requires
        requested.finite(),
        forall|b: u64| #[trigger] requested.contains(b) ==> can_be_grouped(graph, requested, b),
    ensures
        groups_of(graph, requested) is Ok,
{
    lemma_has_order(requested);
    let all = in_order(requested);
    assert forall|k: int| 0 <= k < all.len() implies group_of(
        graph,
        requested,
        #[trigger] all[k],
    ) is Ok by {
        assert(all.to_set().contains(all[k]));
        assert(requested.contains(all[k]));
        law_batteries_that_can_be_are_grouped(graph, requested, all[k]);
    }
    lemma_groups_from_all(graph, requested, all, 0, Set::empty());
}

/// The inverters of a battery are the inverters that lead to it, and the
/// components behind inverters are those that one of them leads to.
pub proof fn law_what_leads_to_a_battery(
    graph: ComponentGraph,
    battery: u64,
    inverters: Set<u64>,
    c: GraphComponent,
)
    requires
        distinct_ids(graph_components(graph)),
        graph_components(graph).contains(c),
    ensures
        inverters_before(graph, battery).contains(c.0.id) <==> c.0.category == Coded::<
            ElectricalComponentCategory,
        >::Known(ElectricalComponentCategory::Inverter) && linked(graph, c.0.id, battery),
        ids_after_any(graph, inverters).contains(c.0.id) <==> !transparent(c.spec_graph_category())
            && exists|i: u64| inverters.contains(i) && #[trigger] linked(graph, i, c.0.id),
{
    let all = graph_components(graph);
    law_categories_keep_their_names(c.0);
    let n = choose|n: int| 0 <= n < all.len() && all[n] == c;
    assert forall|other: GraphComponent| #[trigger] all.contains(other) && other.0.id
        == c.0.id implies other == c by {
        let m = choose|m: int| 0 <= m < all.len() && all[m] == other;
        assert(m == n);
    }
    if c.0.spec_category() == ElectricalComponentCategory::Inverter && linked(
        graph,
        c.0.id,
        battery,
    ) {
        assert(is_predecessor(graph, c, battery));
    }
    if ids_after_any(graph, inverters).contains(c.0.id) {
        let i = choose|i: u64|
            inverters.contains(i) && #[trigger] ids_after(graph, i).contains(c.0.id);
        let other = choose|other: GraphComponent| #[trigger]
            is_successor(graph, other, i) && other.0.id == c.0.id;
        assert(other == c);
        assert(linked(graph, i, c.0.id));
    }
    if !transparent(c.spec_graph_category()) && exists|i: u64|
        inverters.contains(i) && #[trigger] linked(graph, i, c.0.id) {
        let i = choose|i: u64| inverters.contains(i) && #[trigger] linked(graph, i, c.0.id);
        assert(is_successor(graph, c, i));
        assert(ids_after(graph, i).contains(c.0.id));
    }
}

/// What is said to keep a battery from being grouped does.
pub proof fn law_faults_hold_of_the_battery(
    graph: ComponentGraph,
    requested: Set<u64>,
    battery: u64,
)
    requires
        requested.finite(),
    ensures
        group_of(graph, requested, battery) matches Err(fault) ==> match fault {
            GroupFault::Unknown { id } => id == battery && !knows(graph, battery),
            GroupFault::NoInverter { battery: b } => b == battery && forall|i: u64|
                !(#[trigger] inverters_before(graph, battery).contains(i)),
            GroupFault::NotAllRequested { inverters, batteries } => inverters == inverters_before(
                graph,
                battery,
            ) && batteries == ids_after_any(graph, inverters) && exists|b: u64|
                batteries.contains(b) && !(#[trigger] requested.contains(b)),
            GroupFault::OtherInverters { battery: b, connected, inverters } => inverters
                == inverters_before(graph, battery) && connected == inverters_before(graph, b)
                && ids_after_any(graph, inverters).contains(b) && exists|i: u64|
                connected.contains(i) && !(#[trigger] inverters.contains(i)),
            GroupFault::NotBehindInverters { battery: b, inverters, batteries } => b == battery
                && inverters == inverters_before(graph, battery) && batteries == ids_after_any(
                graph,
                inverters,
            ) && !batteries.contains(battery),
        },
{
    let inverters = inverters_before(graph, battery);
    let batteries = ids_after_any(graph, inverters);
    if batteries.subset_of(requested) {
        vstd::set_lib::lemma_set_subset_finite(requested, batteries);
        lemma_has_order(batteries);
        lemma_first_stray(graph, in_order(batteries), inverters);
        if let Some(b) = first_stray(graph, in_order(batteries), inverters) {
            assert(in_order(batteries).to_set().contains(b));
            assert(exists|i: u64|
                inverters_before(graph, b).contains(i) && !(#[trigger] inverters.contains(i)));
        }
    } else {
        let b = choose|b: u64| batteries.contains(b) && !requested.contains(b);
        assert(!requested.contains(b));
    }
}

/// Of several things that keep a battery from being grouped the first is told: that
/// it is not known, that it has no inverter, that not all was asked for, and that
/// a component has other inverters.
pub proof fn law_the_first_fault_of_a_battery_is_told(
    graph: ComponentGraph,
    requested: Set<u64>,
    battery: u64,
    b: u64,
)
    requires
        requested.finite(),
    ensures
        ({
            let inverters = inverters_before(graph, battery);
            let batteries = ids_after_any(graph, inverters);
            let known = knows(graph, battery);
            let wired = exists|i: u64| inverters.contains(i);
            let asked = batteries.subset_of(requested);
            let answer = group_of(graph, requested, battery);
            &&& !known ==> answer == Err::<GroupIds, GroupFault>(GroupFault::Unknown { id: battery })
            &&& known && !wired ==> answer == Err::<GroupIds, GroupFault>(
                GroupFault::NoInverter { battery },
            )
            &&& known && wired && !asked ==> answer == Err::<GroupIds, GroupFault>(
                GroupFault::NotAllRequested { inverters, batteries },
            )
            &&& known && wired && asked && batteries.contains(b) && strays(graph, b, inverters)
                && (forall|c: u64| #[trigger]
                batteries.contains(c) && c < b ==> !strays(graph, c, inverters)) ==> answer == Err::<
                GroupIds,
                GroupFault,
            >(
                GroupFault::OtherInverters {
                    battery: b,
                    connected: inverters_before(graph, b),
                    inverters,
                },
            )
        }),
{
    let inverters = inverters_before(graph, battery);
    let batteries = ids_after_any(graph, inverters);
    if !(exists|i: u64| inverters.contains(i)) {
        assert(inverters =~= Set::<u64>::empty());
    }
    if batteries.subset_of(requested) && batteries.contains(b) && strays(graph, b, inverters) && (
    forall|c: u64| #[trigger]
        batteries.contains(c) && c < b ==> !strays(graph, c, inverters)) {
        vstd::set_lib::lemma_set_subset_finite(requested, batteries);
        lemma_has_order(batteries);
        let list = in_order(batteries);
        assert(list.to_set().contains(b));
        let k = choose|k: int| 0 <= k < list.len() && list[k] == b;
        let front = list.take(k);
        assert forall|j: int| 0 <= j < front.len() implies !strays(
            graph,
            #[trigger] front[j],
            inverters,
        ) by {
            assert(list.to_set().contains(list[j]));
            assert(batteries.contains(list[j]) && list[j] < list[k]);
        }
        lemma_none_strays(graph, front, inverters);
        assert(list.take(k + 1).drop_last() =~= front);
        assert(list.take(k + 1).last() == b);
        lemma_first_stray_stays(graph, list, k + 1, inverters);
    }
}

/// The batteries are looked at in ascending order, and the first that is in no group
/// yet and cannot be grouped tells the fault.
pub proof fn law_the_first_battery_tells_the_fault(
    graph: ComponentGraph,
    requested: Set<u64>,
    all: Seq<u64>,
)
    requires
        groups_of(graph, requested) is Err,
        all == in_order(requested),
    ensures
        exists|k: int|
            0 <= k < all.len() && group_of(graph, requested, #[trigger] all[k]) is Err && groups_of(
                graph,
                requested,
            )->Err_0 == group_of(graph, requested, all[k])->Err_0 && forall|j: int|
                0 <= j < k ==> group_of(graph, requested, #[trigger] all[j]) is Ok
                    || is_in_the_group_of_one(graph, requested, all, j),
{
    let k = lemma_first_fault(graph, requested, all, 0, Set::empty());
    assert(group_of(graph, requested, all[k]) is Err);
}

/// Whether a battery is in the group of one of those before it.
pub open spec fn is_in_the_group_of_one(
    graph: ComponentGraph,
    requested: Set<u64>,
    all: Seq<u64>,
    j: int,
) -> bool {
    exists|i: int|
        0 <= i < j && group_of(graph, requested, #[trigger] all[i]) is Ok && group_of(
            graph,
            requested,
            all[i],
        )->Ok_0.batteries.contains(all[j])
}

proof fn lemma_first_fault(
    graph: ComponentGraph,
    requested: Set<u64>,
    all: Seq<u64>,
    at: nat,
    grouped: Set<u64>,
) -> (k: int)
    requires
        groups_from(graph, requested, all, at, grouped) is Err,
        forall|j: int|
            at <= j < all.len() && grouped.contains(#[trigger] all[j]) ==> is_in_the_group_of_one(
                graph,
                requested,
                all,
                j,
            ),
    ensures
        at <= k < all.len(),
        group_of(graph, requested, all[k]) is Err,
        groups_from(graph, requested, all, at, grouped)->Err_0 == group_of(
            graph,
            requested,
            all[k],
        )->Err_0,
        forall|j: int|
            at <= j < k ==> group_of(graph, requested, #[trigger] all[j]) is Ok
                || is_in_the_group_of_one(graph, requested, all, j),
    decreases all.len() - at,
{
    if grouped.contains(all[at as int]) {
        lemma_first_fault(graph, requested, all, at + 1, grouped)
    } else if group_of(graph, requested, all[at as int]) is Err {
        at as int
    } else {
        let group = group_of(graph, requested, all[at as int])->Ok_0;
        let more = grouped.union(group.batteries);
        assert forall|j: int|
            at + 1 <= j < all.len() && more.contains(#[trigger] all[j]) implies is_in_the_group_of_one(
            graph,
            requested,
            all,
            j,
        ) by {
            if !grouped.contains(all[j]) {
                assert(group_of(graph, requested, all[at as int]) is Ok);
            }
        }
        lemma_first_fault(graph, requested, all, at + 1, more)
    }
}

}
