//! The telemetry of a pool of batteries and their inverters.

use vstd::prelude::*;

use crate::ids::Place;
use crate::microgrid::telemetry_tracker::component_partition::ComponentHealthPartition;
use crate::microgrid::telemetry_tracker::component_telemetry_tracker::ComponentHealthStatus;
use crate::microgrid::telemetry_tracker::inverter_battery_group::{
    group_place, law_groups_are_ordered, members, precedes, GroupIds, InverterBatteryGroup,
};

verus! {

broadcast use vstd::std_specs::btree::group_btree_axioms;

/// The inverters and batteries of a group, parted by their health.
#[derive(Clone, Debug, PartialEq)]
pub struct InverterBatteryGroupStatus {
    pub inverters: ComponentHealthPartition,
    pub batteries: ComponentHealthPartition,
}

impl InverterBatteryGroupStatus {
    /// Whether all members of `group`, and nothing else, count as unhealthy,
    /// without telemetry.
    pub open spec fn all_unhealthy(&self, group: GroupIds) -> bool {
        &&& self.inverters.all_unhealthy(group.inverters)
        &&& self.batteries.all_unhealthy(group.batteries)
    }

    /// The status of a group of which nothing was heard.
    pub fn unheard(group: &InverterBatteryGroup) -> (r: Self)
        ensures
            r.all_unhealthy(group@),
    {
        InverterBatteryGroupStatus {
            inverters: ComponentHealthPartition::unheard(&group.inverter_ids),
            batteries: ComponentHealthPartition::unheard(&group.battery_ids),
        }
    }

    /// Takes the report of a member's tracker. Reports on components outside of
    /// the group change nothing.
    pub fn record(&mut self, group: &InverterBatteryGroup, status: ComponentHealthStatus)
        ensures
            ({
                let id = status.spec_component_id();
                if group@.inverters.contains(id) {
                    &&& final(self).inverters.holds(old(self).inverters, status)
                    &&& final(self).batteries == old(self).batteries
                } else if group@.batteries.contains(id) {
                    &&& final(self).inverters == old(self).inverters
                    &&& final(self).batteries.holds(old(self).batteries, status)
                } else {
                    *final(self) == *old(self)
                }
            }),
    {
        let id = status.component_id();
        if group.inverter_ids.contains(&id) {
            self.inverters.mark(status);
        } else if group.battery_ids.contains(&id) {
            self.batteries.mark(status);
        }
    }
}

/// The groups of `entries`, each with its status.
pub open spec fn statuses(
    entries: Seq<(InverterBatteryGroup, InverterBatteryGroupStatus)>,
) -> Map<GroupIds, InverterBatteryGroupStatus>
    decreases entries.len(),
{
    if entries.len() == 0 {
        Map::empty()
    } else {
        statuses(entries.drop_last()).insert(entries.last().0@, entries.last().1)
    }
}

/// Whether no two entries are of the same group.
pub open spec fn distinct_groups(
    entries: Seq<(InverterBatteryGroup, InverterBatteryGroupStatus)>,
) -> bool {
    forall|i: int, j: int|
        0 <= i < entries.len() && 0 <= j < entries.len() && #[trigger] entries[i].0@
            == #[trigger] entries[j].0@ ==> i == j
}

/// Whether the entries go in the order of their groups.
pub open spec fn in_group_order(
    entries: Seq<(InverterBatteryGroup, InverterBatteryGroupStatus)>,
) -> bool {
    forall|i: int, j: int|
        0 <= i < j < entries.len() ==> precedes(#[trigger] entries[i].0@, #[trigger] entries[j].0@)
}

/// Entries that go in the order of their groups are of different groups.
proof fn lemma_distinct(entries: Seq<(InverterBatteryGroup, InverterBatteryGroupStatus)>)
    requires
        in_group_order(entries),
    ensures
        distinct_groups(entries),
{
    assert forall|i: int, j: int|
        0 <= i < entries.len() && 0 <= j < entries.len() && #[trigger] entries[i].0@
            == #[trigger] entries[j].0@ implies i == j by {
        law_groups_are_ordered(entries[i].0@, entries[j].0@, entries[i].0@);
    }
}

/// What the entries say of a group is what the entry of the group says.
proof fn lemma_statuses(entries: Seq<(InverterBatteryGroup, InverterBatteryGroupStatus)>)
    requires
        distinct_groups(entries),
    ensures
        forall|i: int|
            0 <= i < entries.len() ==> statuses(entries).contains_key(#[trigger] entries[i].0@)
                && statuses(entries)[entries[i].0@] == entries[i].1,
        forall|g: GroupIds| #[trigger]
            statuses(entries).contains_key(g) ==> exists|i: int|
                0 <= i < entries.len() && #[trigger] entries[i].0@ == g,
    decreases entries.len(),
{
    if entries.len() > 0 {
        let rest = entries.drop_last();
        assert forall|i: int, j: int|
            0 <= i < rest.len() && 0 <= j < rest.len() && #[trigger] rest[i].0@
                == #[trigger] rest[j].0@ implies i == j by {
            assert(entries[i].0@ == entries[j].0@);
        }
        lemma_statuses(rest);
        assert forall|i: int| 0 <= i < entries.len() implies statuses(entries).contains_key(
            #[trigger] entries[i].0@,
        ) && statuses(entries)[entries[i].0@] == entries[i].1 by {
            if i < entries.len() - 1 {
                assert(rest[i] == entries[i]);
                assert(entries[i].0@ != entries[entries.len() - 1].0@);
            }
        }
        assert forall|g: GroupIds| #[trigger] statuses(entries).contains_key(g) implies exists|
            i: int,
        |
            0 <= i < entries.len() && #[trigger] entries[i].0@ == g by {
            if g == entries.last().0@ {
                assert(entries[entries.len() - 1].0@ == g);
            } else {
                assert(statuses(rest).contains_key(g));
                let i = choose|i: int| 0 <= i < rest.len() && #[trigger] rest[i].0@ == g;
                assert(entries[i].0@ == g);
            }
        }
    }
}

/// An entry in the place of the one of its group.
proof fn lemma_replaced(
    before: Seq<(InverterBatteryGroup, InverterBatteryGroupStatus)>,
    i: int,
    entry: (InverterBatteryGroup, InverterBatteryGroupStatus),
)
    requires
        in_group_order(before),
        0 <= i < before.len(),
        before[i].0@ == entry.0@,
    ensures
        in_group_order(before.update(i, entry)),
        statuses(before.update(i, entry)) == statuses(before).insert(entry.0@, entry.1),
{
    let after = before.update(i, entry);
    assert forall|a: int, b: int| 0 <= a < b < after.len() implies precedes(
        #[trigger] after[a].0@,
        #[trigger] after[b].0@,
    ) by {
        assert(precedes(before[a].0@, before[b].0@));
    }
    lemma_distinct(before);
    lemma_distinct(after);
    lemma_statuses(before);
    lemma_statuses(after);
    let expected = statuses(before).insert(entry.0@, entry.1);
    assert forall|g: GroupIds| #[trigger] statuses(after).contains_key(g)
        <==> expected.contains_key(g) by {
        if statuses(after).contains_key(g) {
            let k = choose|k: int| 0 <= k < after.len() && #[trigger] after[k].0@ == g;
            assert(before[k].0@ == g);
        }
        if statuses(before).contains_key(g) {
            let k = choose|k: int| 0 <= k < before.len() && #[trigger] before[k].0@ == g;
            assert(after[k].0@ == g);
        }
        assert(after[i].0@ == entry.0@);
    }
    assert forall|g: GroupIds| #[trigger] statuses(after).contains_key(g) implies statuses(after)[g]
        == expected[g] by {
        let k = choose|k: int| 0 <= k < after.len() && #[trigger] after[k].0@ == g;
        assert(before[k].0@ == g);
    }
    assert(statuses(after) =~= expected);
}

/// A new entry, after those that come before it and before those that come after.
proof fn lemma_placed(
    before: Seq<(InverterBatteryGroup, InverterBatteryGroupStatus)>,
    i: int,
    entry: (InverterBatteryGroup, InverterBatteryGroupStatus),
)
    requires
        in_group_order(before),
        0 <= i <= before.len(),
        forall|k: int| 0 <= k < i ==> precedes(#[trigger] before[k].0@, entry.0@),
        i < before.len() ==> precedes(entry.0@, before[i].0@),
    ensures
        in_group_order(before.insert(i, entry)),
        statuses(before.insert(i, entry)) == statuses(before).insert(entry.0@, entry.1),
{
    let after = before.insert(i, entry);
    assert forall|a: int, b: int| 0 <= a < b < after.len() implies precedes(
        #[trigger] after[a].0@,
        #[trigger] after[b].0@,
    ) by {
        if a < i {
            assert(after[a] == before[a]);
            if b < i {
                assert(after[b] == before[b]);
            } else if b > i {
                assert(after[b] == before[b - 1]);
            }
        } else {
            assert(after[b] == before[b - 1]);
            if a > i {
                assert(after[a] == before[a - 1]);
            } else if b - 1 > i {
                assert(precedes(before[i].0@, before[b - 1].0@));
                law_groups_are_ordered(entry.0@, before[i].0@, before[b - 1].0@);
            }
        }
    }
    lemma_distinct(before);
    lemma_distinct(after);
    lemma_statuses(before);
    lemma_statuses(after);
    let expected = statuses(before).insert(entry.0@, entry.1);
    assert(after[i].0@ == entry.0@);
    assert forall|g: GroupIds| #[trigger] statuses(after).contains_key(g)
        <==> expected.contains_key(g) by {
        if statuses(after).contains_key(g) && g != entry.0@ {
            let k = choose|k: int| 0 <= k < after.len() && #[trigger] after[k].0@ == g;
            if k < i {
                assert(before[k].0@ == g);
            } else {
                assert(before[k - 1].0@ == g);
            }
        }
        if statuses(before).contains_key(g) {
            let k = choose|k: int| 0 <= k < before.len() && #[trigger] before[k].0@ == g;
            if k < i {
                assert(after[k].0@ == g);
            } else {
                assert(after[k + 1].0@ == g);
            }
        }
    }
    assert forall|g: GroupIds| #[trigger] statuses(after).contains_key(g) implies statuses(after)[g]
        == expected[g] by {
        let k = choose|k: int| 0 <= k < after.len() && #[trigger] after[k].0@ == g;
        if k < i {
            assert(before[k].0@ == g);
        } else if k > i {
            assert(before[k - 1].0@ == g);
        }
        if k != i && g == entry.0@ {
            assert(after[k].0@ == after[i].0@);
        }
    }
    assert(statuses(after) =~= expected);
}

/// Entries that go in the order of their groups, and say the same, are the same
/// one by one.
proof fn lemma_same_entries(
    a: Seq<(InverterBatteryGroup, InverterBatteryGroupStatus)>,
    b: Seq<(InverterBatteryGroup, InverterBatteryGroupStatus)>,
)
    requires
        in_group_order(a),
        in_group_order(b),
        statuses(a) == statuses(b),
    ensures
        a.len() == b.len(),
        forall|i: int|
            0 <= i < a.len() ==> #[trigger] a[i].0@ == b[i].0@ && a[i].1 == b[i].1,
    decreases a.len(),
{
    lemma_distinct(a);
    lemma_distinct(b);
    lemma_statuses(a);
    lemma_statuses(b);
    if a.len() == 0 {
        if b.len() > 0 {
            assert(statuses(a).contains_key(b[0].0@));
        }
    } else {
        let m = a.len() - 1;
        assert(statuses(b).contains_key(a[m].0@));
        let n = b.len() - 1;
        let j = choose|j: int| 0 <= j < b.len() && #[trigger] b[j].0@ == a[m].0@;
        assert(statuses(a).contains_key(b[n].0@));
        let i = choose|i: int| 0 <= i < a.len() && #[trigger] a[i].0@ == b[n].0@;
        law_groups_are_ordered(a[m].0@, b[n].0@, a[m].0@);
        assert(j == n) by {
            if j < n {
                assert(precedes(b[j].0@, b[n].0@));
                if i < m {
                    assert(precedes(a[i].0@, a[m].0@));
                }
            }
        }
        let group = a[m].0@;
        let x = a.drop_last();
        let y = b.drop_last();
        assert forall|p: int, q: int| 0 <= p < q < x.len() implies precedes(
            #[trigger] x[p].0@,
            #[trigger] x[q].0@,
        ) by {
            assert(precedes(a[p].0@, a[q].0@));
        }
        assert forall|p: int, q: int| 0 <= p < q < y.len() implies precedes(
            #[trigger] y[p].0@,
            #[trigger] y[q].0@,
        ) by {
            assert(precedes(b[p].0@, b[q].0@));
        }
        lemma_distinct(x);
        lemma_distinct(y);
        lemma_statuses(x);
        lemma_statuses(y);
        assert(!statuses(x).contains_key(group)) by {
            if statuses(x).contains_key(group) {
                let k = choose|k: int| 0 <= k < x.len() && #[trigger] x[k].0@ == group;
                assert(a[k].0@ == a[m].0@);
            }
        }
        assert(!statuses(y).contains_key(group)) by {
            if statuses(y).contains_key(group) {
                let k = choose|k: int| 0 <= k < y.len() && #[trigger] y[k].0@ == group;
                assert(b[k].0@ == b[n].0@);
            }
        }
        assert(statuses(x) =~= statuses(a).remove(group));
        assert(statuses(y) =~= statuses(b).remove(group));
        lemma_same_entries(x, y);
        assert forall|k: int| 0 <= k < a.len() implies #[trigger] a[k].0@ == b[k].0@ && a[k].1
            == b[k].1 by {
            if k < m {
                assert(x[k].0@ == y[k].0@);
            }
        }
    }
}

/// The inverter-battery groups of a pool, each with its status.
///
/// The groups are kept in their own order, so that snapshots that show the same
/// are equal, whatever order the groups came in.
#[derive(Clone, Debug, PartialEq)]
pub struct BatteryPoolSnapshot {
    entries: Vec<(InverterBatteryGroup, InverterBatteryGroupStatus)>,
}

impl View for BatteryPoolSnapshot {
    type V = Map<GroupIds, InverterBatteryGroupStatus>;

    closed spec fn view(&self) -> Map<GroupIds, InverterBatteryGroupStatus> {
        statuses(self.entries@)
    }
}

impl BatteryPoolSnapshot {
    /// Whether the groups go in their order, and so none is there twice.
    pub closed spec fn wf(&self) -> bool {
        in_group_order(self.entries@)
    }

    /// The groups and their statuses, in the order of the groups.
    pub closed spec fn spec_entries(&self) -> Seq<
        (InverterBatteryGroup, InverterBatteryGroupStatus),
    > {
        self.entries@
    }

    /// A snapshot without groups.
    pub fn new() -> (r: Self)
        ensures
            r.wf(),
            r.spec_entries().len() == 0,
            r@ == Map::<GroupIds, InverterBatteryGroupStatus>::empty(),
    {
        BatteryPoolSnapshot { entries: Vec::new() }
    }

    /// The groups, each with its status: every group once, in the order of the
    /// groups.
    pub fn groups(&self) -> (r: &Vec<(InverterBatteryGroup, InverterBatteryGroupStatus)>)
        requires
            self.wf(),
        ensures
            r@ == self.spec_entries(),
            statuses(r@) == self@,
            in_group_order(r@),
            distinct_groups(r@),
    {
        proof {
            lemma_distinct(self.entries@);
        }
        &self.entries
    }

    /// Gives the status of a group: in place of the one it had, or as a new
    /// one.
    pub fn insert(&mut self, group: InverterBatteryGroup, status: InverterBatteryGroupStatus)
        requires
            old(self).wf(),
        ensures
            final(self).wf(),
            final(self)@ == old(self)@.insert(group@, status),
    {
        let ghost before = self.entries@;
        proof {
            lemma_distinct(before);
            lemma_statuses(before);
        }
        let mut i: usize = 0;
        while i < self.entries.len()
            invariant
                i <= self.entries.len(),
                self.entries@ == before,
                before == old(self).entries@,
                old(self)@ == statuses(before),
                in_group_order(before),
                forall|k: int| 0 <= k < i ==> precedes(#[trigger] before[k].0@, group@),
            decreases self.entries.len() - i,
        {
            match group_place(&self.entries[i].0, &group) {
                Place::Before => {},
                Place::Same => {
                    let ghost entry = (group, status);
                    self.entries.set(i, (group, status));
                    proof {
                        lemma_replaced(before, i as int, entry);
                    }
                    return;
                },
                Place::After => {
                    let ghost entry = (group, status);
                    self.entries.insert(i, (group, status));
                    proof {
                        lemma_placed(before, i as int, entry);
                    }
                    return;
                },
            }
            i = i + 1;
        }
        let ghost entry = (group, status);
        self.entries.push((group, status));
        proof {
            assert(self.entries@ =~= before.insert(i as int, entry));
            lemma_placed(before, i as int, entry);
        }
    }

    /// Whether the snapshot holds exactly the given groups, of which nothing was
    /// heard.
    pub open spec fn unheard_of(&self, groups: Seq<GroupIds>) -> bool {
        &&& self@.dom() == groups.to_set()
        &&& forall|g: GroupIds| #[trigger] self@.contains_key(g) ==> self@[g].all_unhealthy(g)
    }
}

impl Default for BatteryPoolSnapshot {
    /// A snapshot without groups.
    fn default() -> (r: Self)
        ensures
            r.wf(),
            r.spec_entries() == Seq::<(InverterBatteryGroup, InverterBatteryGroupStatus)>::empty(),
            r@ == Map::<GroupIds, InverterBatteryGroupStatus>::empty(),
    {
        let r = BatteryPoolSnapshot::new();
        assert(r.spec_entries() =~= Seq::empty());
        r
    }
}

/// Snapshots that show the same groups with the same statuses list them alike,
/// whatever order the groups came in.
pub proof fn law_snapshots_go_by_what_they_show(a: BatteryPoolSnapshot, b: BatteryPoolSnapshot)
    requires
        a.wf(),
        b.wf(),
    ensures
        a@ == b@ <==> (a.spec_entries().len() == b.spec_entries().len() && forall|i: int|
            0 <= i < a.spec_entries().len() ==> (#[trigger] a.spec_entries()[i]).0@
                == b.spec_entries()[i].0@ && a.spec_entries()[i].1 == b.spec_entries()[i].1),
{
    if a@ == b@ {
        lemma_same_entries(a.spec_entries(), b.spec_entries());
    } else if a.spec_entries().len() == b.spec_entries().len() && forall|i: int|
        0 <= i < a.spec_entries().len() ==> (#[trigger] a.spec_entries()[i]).0@
            == b.spec_entries()[i].0@ && a.spec_entries()[i].1 == b.spec_entries()[i].1 {
        lemma_same_map(a.spec_entries(), b.spec_entries());
    }
}

/// Entries that are the same one by one say the same.
proof fn lemma_same_map(
    a: Seq<(InverterBatteryGroup, InverterBatteryGroupStatus)>,
    b: Seq<(InverterBatteryGroup, InverterBatteryGroupStatus)>,
)
    requires
        a.len() == b.len(),
        forall|i: int|
            0 <= i < a.len() ==> (#[trigger] a[i]).0@ == b[i].0@ && a[i].1 == b[i].1,
    ensures
        statuses(a) == statuses(b),
    decreases a.len(),
{
    if a.len() > 0 {
        let x = a.drop_last();
        let y = b.drop_last();
        assert forall|i: int| 0 <= i < x.len() implies (#[trigger] x[i]).0@ == y[i].0@ && x[i].1
            == y[i].1 by {
            assert(a[i].0@ == b[i].0@);
        }
        lemma_same_map(x, y);
        assert(a[a.len() - 1].0@ == b[a.len() - 1].0@);
    }
}

/// What happens to the tracker of a battery pool.
pub enum PoolEvent {
    /// The tracker of a group reports its status.
    Status(InverterBatteryGroup, InverterBatteryGroupStatus),
    /// All trackers of groups are gone.
    TrackersGone,
    /// It is time to publish; so many receivers listen.
    Tick { receivers: usize },
}

/// What the tracker of a battery pool does.
#[derive(Clone, Copy, Debug, PartialEq, Eq, Structural)]
pub enum PoolAction {
    /// Nothing.
    Nothing,
    /// Publish the snapshot, unless it is the one that was published last.
    PublishIfChanged,
    /// Stop.
    Stop,
}

/// Keeps the telemetry of a battery pool.
pub struct BatteryPoolTelemetryTracker {
    snapshot: BatteryPoolSnapshot,
}

impl BatteryPoolTelemetryTracker {
    /// What is known of the pool.
    pub closed spec fn spec_snapshot(&self) -> BatteryPoolSnapshot {
        self.snapshot
    }

    /// A tracker of the given groups. All their members count as unhealthy
    /// until they are heard of, so that the first snapshot shows who is in the
    /// pool.
    pub fn new(groups: &Vec<InverterBatteryGroup>) -> (r: Self)
        ensures
            r.spec_snapshot().wf(),
            r.spec_snapshot().unheard_of(members(groups@)),
    {
        let mut snapshot = BatteryPoolSnapshot::new();
        let mut i: usize = 0;
        assert(members(groups@).take(0).to_set() =~= Set::<GroupIds>::empty());
        assert(snapshot@.dom() =~= Set::<GroupIds>::empty());
        while i < groups.len()
            invariant
                i <= groups.len(),
                snapshot.wf(),
                snapshot.unheard_of(members(groups@).take(i as int)),
            decreases groups.len() - i,
        {
            let ghost all = members(groups@);
            let group = groups[i].copied();
            let status = InverterBatteryGroupStatus::unheard(&group);
            assert(group@ == all[i as int]);
            snapshot.insert(group, status);
            proof {
                let more = all.take(i + 1);
                assert forall|g: GroupIds| more.to_set().contains(g) <==> all.take(
                    i as int,
                ).to_set().insert(group@).contains(g) by {
                    if all.take(i as int).contains(g) {
                        let k = choose|k: int| 0 <= k < i && all.take(i as int)[k] == g;
                        assert(more[k] == g);
                    }
                    if more.contains(g) {
                        let k = choose|k: int| 0 <= k < more.len() && more[k] == g;
                        if k < i {
                            assert(all.take(i as int)[k] == g);
                        }
                    }
                    assert(more[i as int] == group@);
                }
                assert(snapshot@.dom() =~= more.to_set());
            }
            i = i + 1;
        }
        assert(members(groups@).take(groups@.len() as int) =~= members(groups@));
        BatteryPoolTelemetryTracker { snapshot }
    }

    /// What is known of the pool.
    pub fn snapshot(&self) -> (r: &BatteryPoolSnapshot)
        ensures
            *r == self.spec_snapshot(),
    {
        &self.snapshot
    }

    /// Whether the pool has no groups. Its tracker then waits for its receivers
    /// to go, as there are no group trackers whose end would stop it.
    pub fn is_empty_pool(&self) -> (r: bool)
        requires
            self.spec_snapshot().wf(),
        ensures
            r == self.spec_snapshot()@.dom().is_empty(),
    {
        let entries = self.snapshot.groups();
        proof {
            lemma_statuses(entries@);
            if entries@.len() > 0 {
                assert(self.spec_snapshot()@.dom().contains(entries@[0].0@));
            } else {
                assert(self.spec_snapshot()@.dom() =~= Set::<GroupIds>::empty());
            }
        }
        entries.len() == 0
    }

    /// Takes the next event. A report changes what is known of its group; the
    /// tracker stops when no report can come, or when nobody listens.
    pub fn handle(&mut self, event: PoolEvent) -> (action: PoolAction)
        requires
            old(self).spec_snapshot().wf(),
        ensures
            final(self).spec_snapshot().wf(),
            final(self).spec_snapshot()@ == snapshot_after(old(self).spec_snapshot()@, event),
            match event {
                PoolEvent::Status(_, _) => action == PoolAction::Nothing,
                PoolEvent::TrackersGone => {
                    &&& action == PoolAction::Stop
                    &&& final(self).spec_snapshot() == old(self).spec_snapshot()
                },
                PoolEvent::Tick { receivers } => {
                    &&& action == (if receivers == 0 {
                        PoolAction::Stop
                    } else {
                        PoolAction::PublishIfChanged
                    })
                    &&& final(self).spec_snapshot() == old(self).spec_snapshot()
                },
            },
    {
        match event {
            PoolEvent::Status(group, status) => {
                self.snapshot.insert(group, status);
                PoolAction::Nothing
            },
            PoolEvent::TrackersGone => PoolAction::Stop,
            PoolEvent::Tick { receivers } => {
                if receivers == 0 {
                    PoolAction::Stop
                } else {
                    PoolAction::PublishIfChanged
                }
            },
        }
    }
}

/// What is known of a pool after an event.
pub open spec fn snapshot_after(
    before: Map<GroupIds, InverterBatteryGroupStatus>,
    event: PoolEvent,
) -> Map<GroupIds, InverterBatteryGroupStatus> {
    match event {
        PoolEvent::Status(group, status) => before.insert(group@, status),
        PoolEvent::TrackersGone => before,
        PoolEvent::Tick { .. } => before,
    }
}

/// What is known of a pool after events, one after the other.
pub open spec fn snapshot_after_all(
    first: Map<GroupIds, InverterBatteryGroupStatus>,
    events: Seq<PoolEvent>,
) -> Map<GroupIds, InverterBatteryGroupStatus>
    decreases events.len(),
{
    if events.len() == 0 {
        first
    } else {
        snapshot_after(snapshot_after_all(first, events.drop_last()), events.last())
    }
}

/// Whether every report is on one of the given groups.
pub open spec fn reports_on(events: Seq<PoolEvent>, groups: Set<GroupIds>) -> bool {
    forall|i: int|
        0 <= i < events.len() ==> ((#[trigger] events[i]) matches PoolEvent::Status(group, _)
            ==> groups.contains(group@))
}

/// Every snapshot of a run has the groups of the first: a tracker that starts
/// with the groups of its pool, and is told of these groups alone, never shows
/// more groups or fewer.
pub proof fn law_every_snapshot_has_the_groups_of_the_pool(
    first: BatteryPoolSnapshot,
    groups: Seq<GroupIds>,
    events: Seq<PoolEvent>,
    n: int,
)
    requires
        first.unheard_of(groups),
        reports_on(events, groups.to_set()),
        0 <= n <= events.len(),
    ensures
        snapshot_after_all(first@, events.take(n)).dom() == groups.to_set(),
    decreases n,
{
    let some = events.take(n);
    if n > 0 {
        assert(some.drop_last() =~= events.take(n - 1));
        law_every_snapshot_has_the_groups_of_the_pool(first, groups, events, n - 1);
        let before = snapshot_after_all(first@, some.drop_last());
        assert(some.last() == events[n - 1]);
        assert(snapshot_after(before, some.last()).dom() =~= groups.to_set());
    }
}

/// What inserting the statuses of the given groups, one after the other, makes of
/// a snapshot without groups.
pub open spec fn inserted(
    statuses: Map<GroupIds, InverterBatteryGroupStatus>,
    groups: Seq<GroupIds>,
) -> Map<GroupIds, InverterBatteryGroupStatus>
    decreases groups.len(),
{
    if groups.len() == 0 {
        Map::empty()
    } else {
        inserted(statuses, groups.drop_last()).insert(groups.last(), statuses[groups.last()])
    }
}

proof fn lemma_inserted(
    statuses: Map<GroupIds, InverterBatteryGroupStatus>,
    groups: Seq<GroupIds>,
)
    ensures
        forall|g: GroupIds| #[trigger]
            inserted(statuses, groups).contains_key(g) <==> groups.contains(g),
        forall|g: GroupIds| #[trigger]
            inserted(statuses, groups).contains_key(g) ==> inserted(statuses, groups)[g]
                == statuses[g],
    decreases groups.len(),
{
    if groups.len() > 0 {
        let front = groups.drop_last();
        lemma_inserted(statuses, front);
        assert forall|g: GroupIds| #[trigger]
            inserted(statuses, groups).contains_key(g) implies inserted(statuses, groups)[g]
            == statuses[g] by {
            assert(g == groups.last() || inserted(statuses, front).contains_key(g));
        }
        assert forall|g: GroupIds| #[trigger]
            inserted(statuses, groups).contains_key(g) <==> groups.contains(g) by {
            assert(inserted(statuses, front).contains_key(g) <==> front.contains(g));
            if front.contains(g) {
                let k = choose|k: int| 0 <= k < front.len() && front[k] == g;
                assert(groups[k] == g);
            }
            if groups.contains(g) && g != groups.last() {
                let k = choose|k: int| 0 <= k < groups.len() && groups[k] == g;
                assert(front[k] == g);
            }
            assert(groups[groups.len() - 1] == groups.last());
        }
    }
}

/// A snapshot shows the map that it was made of: inserting the statuses of a
/// map's groups into a snapshot without groups, in any order, gives the map.
pub proof fn law_a_snapshot_is_the_map_of_its_groups(
    statuses: Map<GroupIds, InverterBatteryGroupStatus>,
    groups: Seq<GroupIds>,
)
    requires
        groups.to_set() == statuses.dom(),
    ensures
        inserted(statuses, groups) == statuses,
{
    lemma_inserted(statuses, groups);
    assert forall|g: GroupIds| inserted(statuses, groups).contains_key(g)
        == statuses.contains_key(g) by {
        assert(groups.to_set().contains(g) == groups.contains(g));
    }
    assert(inserted(statuses, groups) =~= statuses);
}

/// Of each group a snapshot shows what was reported of it last, and what it showed
/// first where nothing was.
pub proof fn law_the_last_report_counts(
    first: Map<GroupIds, InverterBatteryGroupStatus>,
    events: Seq<PoolEvent>,
    group: GroupIds,
    n: int,
)
    requires
        -1 <= n < events.len(),
        n >= 0 ==> (events[n] matches PoolEvent::Status(of, _) && of@ == group),
        forall|i: int|
            n < i < events.len() ==> !((#[trigger] events[i]) matches PoolEvent::Status(of, _)
                && of@ == group),
    ensures
        n >= 0 ==> snapshot_after_all(first, events).contains_key(group) && (events[n]
            matches PoolEvent::Status(_, status) && snapshot_after_all(first, events)[group]
            == status),
        n < 0 ==> snapshot_after_all(first, events).contains_key(group) == first.contains_key(group)
            && (first.contains_key(group) ==> snapshot_after_all(first, events)[group]
            == first[group]),
    decreases events.len(),
{
    if events.len() > 0 && n < events.len() - 1 {
        let front = events.drop_last();
        assert(forall|i: int| 0 <= i < front.len() ==> front[i] == events[i]);
        assert forall|i: int| n < i < front.len() implies !((#[trigger] front[i])
            matches PoolEvent::Status(of, _) && of@ == group) by {
            assert(front[i] == events[i]);
        }
        law_the_last_report_counts(first, front, group, n);
        let last = events[events.len() - 1];
        assert(!(last matches PoolEvent::Status(of, _) && of@ == group));
    }
}

/// A snapshot has the groups of its entries, each with the status of its entry.
pub proof fn law_every_entry_counts(
    entries: Seq<(InverterBatteryGroup, InverterBatteryGroupStatus)>,
    group: GroupIds,
)
    requires
        distinct_groups(entries),
    ensures
        statuses(entries).contains_key(group) <==> exists|i: int|
            0 <= i < entries.len() && (#[trigger] entries[i]).0@ == group,
        forall|i: int|
            0 <= i < entries.len() && (#[trigger] entries[i]).0@ == group ==> statuses(
                entries,
            )[group] == entries[i].1,
    decreases entries.len(),
{
    if entries.len() > 0 {
        let n = entries.len() - 1;
        let front = entries.drop_last();
        assert forall|i: int, j: int|
            0 <= i < front.len() && 0 <= j < front.len() && #[trigger] front[i].0@
                == #[trigger] front[j].0@ implies i == j by {
            assert(entries[i].0@ == entries[j].0@);
        }
        law_every_entry_counts(front, group);
        assert forall|i: int|
            0 <= i < entries.len() && (#[trigger] entries[i]).0@ == group implies statuses(
            entries,
        )[group] == entries[i].1 by {
            if i < n {
                assert(front[i].0@ == group);
                assert(entries[n].0@ != group);
            }
        }
        if statuses(entries).contains_key(group) {
            if entries[n].0@ != group {
                let i = choose|i: int| 0 <= i < front.len() && (#[trigger] front[i]).0@ == group;
                assert(entries[i].0@ == group);
            }
        }
        if exists|i: int| 0 <= i < entries.len() && (#[trigger] entries[i]).0@ == group {
            let i = choose|i: int| 0 <= i < entries.len() && (#[trigger] entries[i]).0@ == group;
            if i < n {
                assert(front[i].0@ == group);
            }
        }
    }
}

}
