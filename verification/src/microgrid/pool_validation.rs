//! The components that a pool can be made of.

use std::collections::BTreeSet;

use frequenz_microgrid_component_graph as gr;
use frequenz_microgrid_component_graph::InverterType as NodeInverterType;
use vstd::prelude::*;

use crate::client::proto::graph::{law_types_keep_their_names, GraphComponent};
use crate::client::proto::{
    CategorySpecificKind, Coded, ElectricalComponentCategory,
    ElectricalComponentCategorySpecificInfo, InverterType,
};
use crate::component_graph::{distinct_ids, graph_components, ComponentGraph};
use crate::error::{Error, ErrorKind};
use crate::ids::is_subset;
use crate::text::{id_set, push_id_set};

verus! {

broadcast use vstd::std_specs::btree::group_btree_axioms;

/// What a pool is made of.
#[derive(Clone, Copy, Debug, PartialEq, Eq, Structural)]
pub enum PoolKind {
    Batteries,
    PvInverters,
    SteamBoilers,
}

impl PoolKind {
    /// What the components of the pool are called.
    pub open spec fn spec_name(self) -> Seq<char> {
        match self {
            PoolKind::Batteries => "batteries"@,
            PoolKind::PvInverters => "PV inverters"@,
            PoolKind::SteamBoilers => "steam boilers"@,
        }
    }

    fn name(self) -> (name: &'static str)
        ensures
            name@ == self.spec_name(),
    {
        match self {
            PoolKind::Batteries => "batteries",
            PoolKind::PvInverters => "PV inverters",
            PoolKind::SteamBoilers => "steam boilers",
        }
    }

    /// Whether the component is of this kind.
    pub open spec fn takes(self, component: GraphComponent) -> bool {
        match self {
            PoolKind::Batteries => component.0.spec_category()
                == ElectricalComponentCategory::Battery,
            PoolKind::PvInverters => component.spec_graph_category()
                == gr::ComponentCategory::Inverter(NodeInverterType::Pv),
            PoolKind::SteamBoilers => component.0.spec_category()
                == ElectricalComponentCategory::SteamBoiler,
        }
    }

    fn fits(self, component: &GraphComponent) -> (r: bool)
        ensures
            r == self.takes(*component),
    {
        match self {
            PoolKind::Batteries => component.0.category() == ElectricalComponentCategory::Battery,
            PoolKind::PvInverters => component.is_pv_inverter(),
            PoolKind::SteamBoilers => component.0.category()
                == ElectricalComponentCategory::SteamBoiler,
        }
    }
}

/// The components of `kind` in the graph.
pub open spec fn ids_of_kind(graph: ComponentGraph, kind: PoolKind) -> Set<u64> {
    Set::new(
        |id: u64|
            exists|i: int|
                0 <= i < graph_components(graph).len() && #[trigger] graph_components(
                    graph,
                )[i].0.id == id && kind.takes(graph_components(graph)[i]),
    )
}

/// The components of `kind` in the graph.
pub fn all_ids(graph: &ComponentGraph, kind: PoolKind) -> (ids: BTreeSet<u64>)
    ensures
        ids@ == ids_of_kind(*graph, kind),
        distinct_ids(graph_components(*graph)),
{
    let components = graph.components();
    let mut ids: BTreeSet<u64> = BTreeSet::new();
    let mut k: usize = 0;
    while k < components.len()
        invariant
            k <= components.len(),
            components@ == graph_components(*graph),
            forall|id: u64|
                #[trigger] ids@.contains(id) <==> exists|i: int|
                    0 <= i < k && #[trigger] components@[i].0.id == id && kind.takes(components@[i]),
        decreases components.len() - k,
    {
        let ghost before = ids@;
        if kind.fits(&components[k]) {
            ids.insert(components[k].0.id);
            assert(ids@ == before.insert(components@[k as int].0.id));
        }
        proof {
            assert forall|id: u64| #[trigger] ids@.contains(id) <==> exists|i: int|
                0 <= i < k + 1 && #[trigger] components@[i].0.id == id && kind.takes(
                    components@[i],
                ) by {
                if ids@.contains(id) && !before.contains(id) {
                    assert(components@[k as int].0.id == id);
                }
            }
        }
        k = k + 1;
    }
    assert(ids@ =~= ids_of_kind(*graph, kind));
    ids
}

/// What is said of IDs that do not fit the pool.
pub open spec fn misfit_text(ids: Set<u64>, kind: PoolKind) -> Seq<char> {
    "Component IDs "@ + id_set(ids) + " must be "@ + kind.spec_name() + "."@
}

/// Checks that a pool can be made of the given components: all are among
/// `all`. Without a selection, there is nothing to check.
pub fn validate_pool_ids(
    component_ids: &Option<BTreeSet<u64>>,
    all: &BTreeSet<u64>,
    kind: PoolKind,
) -> (r: Result<(), Error>)
    ensures
        match component_ids {
            Some(ids) => if ids@.subset_of(all@) {
                r is Ok
            } else {
                r matches Err(e) && e.says(ErrorKind::InvalidComponent, misfit_text(ids@, kind))
            },
            None => r is Ok,
        },
{
    match component_ids {
        Some(ids) => {
            if is_subset(ids, all) {
                return Ok(());
            }
            let mut text = String::from_str("Component IDs ");
            push_id_set(&mut text, ids);
            text.append(" must be ");
            text.append(kind.name());
            text.append(".");
            Err(Error::invalid_component(text))
        },
        None => Ok(()),
    }
}

/// The components of a pool: those that were selected, or all of its kind.
pub open spec fn pool_ids(
    component_ids: Option<BTreeSet<u64>>,
    graph: ComponentGraph,
    kind: PoolKind,
) -> Set<u64> {
    match component_ids {
        Some(ids) => ids@,
        None => ids_of_kind(graph, kind),
    }
}

/// The components of a pool: those that were selected, or all of its kind.
pub fn selected_ids(
    component_ids: &Option<BTreeSet<u64>>,
    graph: &ComponentGraph,
    kind: PoolKind,
) -> (ids: BTreeSet<u64>)
    ensures
        ids@ == pool_ids(*component_ids, *graph, kind),
{
    match component_ids {
        Some(ids) => ids.clone(),
        None => all_ids(graph, kind),
    }
}

/// A copy of a selection.
pub(crate) fn copy_selection(component_ids: &Option<BTreeSet<u64>>) -> (r: Option<BTreeSet<u64>>)
    ensures
        crate::component_graph::asked_ids(r) == crate::component_graph::asked_ids(*component_ids),
{
    match component_ids {
        Some(ids) => Some(ids.clone()),
        None => None,
    }
}

/// A pool of batteries takes batteries, one of PV inverters takes inverters that
/// are said to be PV inverters, and one of steam boilers takes steam boilers.
pub proof fn law_pools_take_their_kind(component: GraphComponent)
    ensures
        PoolKind::Batteries.takes(component) <==> component.0.category == Coded::<
            ElectricalComponentCategory,
        >::Known(ElectricalComponentCategory::Battery),
        PoolKind::SteamBoilers.takes(component) <==> component.0.category == Coded::<
            ElectricalComponentCategory,
        >::Known(ElectricalComponentCategory::SteamBoiler),
        PoolKind::PvInverters.takes(component) <==> (component.0.category == Coded::<
            ElectricalComponentCategory,
        >::Known(ElectricalComponentCategory::Inverter)
            && component.0.category_specific_info == Some(
            ElectricalComponentCategorySpecificInfo {
                kind: Some(CategorySpecificKind::Inverter(Coded::<InverterType>::Known(InverterType::Pv))),
            },
        )),
{
    law_types_keep_their_names(component.0);
}

/// The components of a kind are those components of the graph that are of it.
pub proof fn law_components_of_a_kind(graph: ComponentGraph, kind: PoolKind, i: int)
    requires
        distinct_ids(graph_components(graph)),
        0 <= i < graph_components(graph).len(),
    ensures
        ids_of_kind(graph, kind).contains(graph_components(graph)[i].0.id) <==> kind.takes(
            graph_components(graph)[i],
        ),
        forall|id: u64| #[trigger]
            ids_of_kind(graph, kind).contains(id) ==> exists|k: int|
                0 <= k < graph_components(graph).len() && #[trigger] graph_components(
                    graph,
                )[k].0.id == id,
{
    let id = graph_components(graph)[i].0.id;
    if ids_of_kind(graph, kind).contains(id) {
        let k = choose|k: int|
            0 <= k < graph_components(graph).len() && #[trigger] graph_components(graph)[k].0.id
                == id && kind.takes(graph_components(graph)[k]);
        assert(k == i);
    }
}

/// A pool that components were selected for has those, and any other pool has all
/// components of its kind.
pub proof fn law_selections_make_the_pool(ids: BTreeSet<u64>, graph: ComponentGraph, kind: PoolKind)
    ensures
        pool_ids(Some(ids), graph, kind) == ids@,
        pool_ids(None, graph, kind) == ids_of_kind(graph, kind),
{
}

}
