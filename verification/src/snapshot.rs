//! The snapshot: the one view of the cluster that a refresh works on.

use crate::admission::admitted;
use crate::admission::carried;
use crate::admission::held_after;
use crate::admission::lemma_held_after;
use crate::admission::replicas_within;
use crate::admission::stands;
use crate::application::application::Application;
use crate::failoverunit::failover_unit::FailoverUnit;
use crate::load::load_or_move_cost::LoadOrMoveCost;
use crate::name_table::NameTable;
use crate::node::node::Node;
use crate::node::node_id::NodeId;
use crate::service::service::Service;
use crate::servicetype::service_type::ServiceType;
use crate::state::descriptions;
use crate::state::ClusterState;
use crate::queue::UpdateQueue;
use crate::state::lemma_merge_of_nothing;
use crate::state::lemma_with_applications_push;
use crate::state::failover_unit_key;
use crate::state::lemma_upsert_all_push;
use crate::state::lemma_with_failover_units_is_consistent;
use crate::state::upsert_all;
use crate::state::lemma_with_load_is_consistent;
use crate::state::lemma_with_loads_push;
use crate::state::lemma_with_nodes_push;
use crate::state::lemma_with_service_types_push;
use crate::state::lemma_with_services_push;
use std::collections::BTreeMap;
use std::collections::VecDeque;
use vstd::hash_set::StringHashSet;
use vstd::prelude::*;
use vstd::std_specs::hash::spec_hash_map_iter;
use vstd::std_specs::iter::IteratorSpec;

verus! {

broadcast use vstd::laws_cmp::group_laws_cmp;

/// The cluster as one refresh sees it. Only a merge changes it; search and
/// solve borrow it and read.
pub struct ClusterSnapshot {
    pub(crate) nodes: BTreeMap<u128, Node>,
    pub(crate) apps: NameTable<Application>,
    pub(crate) service_types: NameTable<ServiceType>,
    pub(crate) services: NameTable<Service>,
    pub(crate) failover_units: BTreeMap<u128, FailoverUnit>,
    pub(crate) loads: BTreeMap<u128, LoadOrMoveCost>,
}

impl View for ClusterSnapshot {
    type V = ClusterState;

    open(crate) spec fn view(&self) -> ClusterState {
        ClusterState {
            nodes: self.nodes@,
            apps: self.apps@.map_values(|a: Application| a.desc()),
            service_types: self.service_types@,
            services: self.services@,
            failover_units: self.failover_units@,
            loads: self.loads@,
        }
    }
}

impl Default for ClusterSnapshot {
    /// The snapshot of a cluster of which nothing is known.
    fn default() -> (s: ClusterSnapshot)
        ensures
            s.wf(),
            s@ == ClusterState::empty(),
    {
        ClusterSnapshot::new()
    }
}

impl ClusterSnapshot {
    /// The snapshot is in order: the cluster it stands for is consistent,
    /// and every application is held with exactly the services it owns.
    pub open(crate) spec fn wf(&self) -> bool {
        &&& self.apps.wf()
        &&& self.service_types.wf()
        &&& self.services.wf()
        &&& self@.consistent()
        &&& forall|n: Seq<char>| #[trigger]
            self.apps@.contains_key(n) ==> self.apps@[n].owned() == self@.owned_services(n)
    }

    /// A snapshot in order stands for a consistent cluster: every entity is
    /// under its own key, and no replica or load report refers to a
    /// partition that is not there.
    pub proof fn lemma_wf_is_consistent(&self)
        requires
            self.wf(),
        ensures
            self@.consistent(),
    {
    }

    /// The snapshot of a cluster of which nothing is known.
    pub fn new() -> (s: ClusterSnapshot)
        ensures
            s.wf(),
            s@ == ClusterState::empty(),
    {
        let s = ClusterSnapshot {
            nodes: BTreeMap::new(),
            apps: NameTable::new(),
            service_types: NameTable::new(),
            services: NameTable::new(),
            failover_units: BTreeMap::new(),
            loads: BTreeMap::new(),
        };
        assert(s@ =~= ClusterState::empty());
        s
    }

    /// The node with that identity.
    pub fn node(&self, id: NodeId) -> (r: Option<&Node>)
        ensures
            r == if self@.nodes.contains_key(id.id_value) {
                Some(&self@.nodes[id.id_value])
            } else {
                None
            },
    {
        self.nodes.get(&id.id_value)
    }

    /// The partition with that identifier.
    pub fn failover_unit(&self, id: u128) -> (r: Option<&FailoverUnit>)
        ensures
            r == if self@.failover_units.contains_key(id) {
                Some(&self@.failover_units[id])
            } else {
                None
            },
    {
        self.failover_units.get(&id)
    }

    /// The load report on the partition with that identifier.
    pub fn load(&self, id: u128) -> (r: Option<&LoadOrMoveCost>)
        ensures
            r == if self@.loads.contains_key(id) {
                Some(&self@.loads[id])
            } else {
                None
            },
    {
        self.loads.get(&id)
    }

    /// The application of that name, with the services that it owns.
    pub fn application(&self, name: &str) -> (r: Option<&Application>)
        requires
            self.wf(),
        ensures
            r is Some == self@.apps.contains_key(name@),
            r matches Some(app) ==> app.desc() == self@.apps[name@] && app.owned()
                == self@.owned_services(name@),
    {
        self.apps.get(name)
    }

    /// The service type of that name.
    pub fn service_type(&self, name: &str) -> (r: Option<&ServiceType>)
        requires
            self.wf(),
        ensures
            r == if self@.service_types.contains_key(name@) {
                Some(&self@.service_types[name@])
            } else {
                None
            },
    {
        self.service_types.get(name)
    }

    /// The service of that name.
    pub fn service(&self, name: &str) -> (r: Option<&Service>)
        requires
            self.wf(),
        ensures
            r == if self@.services.contains_key(name@) {
                Some(&self@.services[name@])
            } else {
                None
            },
    {
        self.services.get(name)
    }

    /// How many nodes the snapshot holds.
    pub fn node_count(&self) -> (n: usize)
        ensures
            n == self@.nodes.len(),
    {
        self.nodes.len()
    }

    /// How many partitions the snapshot holds.
    pub fn failover_unit_count(&self) -> (n: usize)
        ensures
            n == self@.failover_units.len(),
    {
        self.failover_units.len()
    }

    /// Takes in the update of one node: the node replaces, as a whole, what
    /// was held under its identity.
    pub fn upsert_node(&mut self, node: Node)
        requires
            old(self).wf(),
        ensures
            final(self).wf(),
            final(self)@ == old(self)@.with_node(node),
    {
        let key = node.node_id().id_value;
        self.nodes.insert(key, node);
        assert(self@ =~= old(self)@.with_node(node));
    }

    /// Takes in the update of one service type.
    pub fn upsert_service_type(&mut self, service_type: ServiceType)
        requires
            old(self).wf(),
        ensures
            final(self).wf(),
            final(self)@ == old(self)@.with_service_type(service_type),
    {
        let name = service_type.service_type_desc.name.clone();
        self.service_types.insert(name, service_type);
        assert(self@ =~= old(self)@.with_service_type(service_type));
    }

    /// Takes in one load report, unless it is about a partition that is
    /// unknown: such a report is turned down and changes nothing. Answers
    /// whether the report was taken in.
    fn upsert_load(&mut self, load: LoadOrMoveCost) -> (admitted: bool)
        requires
            old(self).wf(),
        ensures
            final(self).wf(),
            admitted == old(self)@.failover_units.contains_key(load.load_description.fu_id),
            final(self)@ == old(self)@.with_load(load),
    {
        proof {
            lemma_with_load_is_consistent(self@, load);
        }
        let id = load.id();
        if self.failover_units.contains_key(&id) {
            self.loads.insert(id, load);
            assert(self@ =~= old(self)@.with_load(load));
            true
        } else {
            false
        }
    }
}

/// Records that the application `app_name` owns the service `service_name`
/// (`owns`) or no longer owns it. An application that is not held is left
/// out; no description changes.
fn set_ownership(apps: &mut NameTable<Application>, app_name: &str, service_name: &str, owns: bool)
    requires
        old(apps).wf(),
    ensures
        final(apps).wf(),
        final(apps)@.dom() == old(apps)@.dom(),
        forall|n: Seq<char>| #[trigger]
            final(apps)@.contains_key(n) ==> {
                &&& final(apps)@[n].desc() == old(apps)@[n].desc()
                &&& final(apps)@[n].owned() == if n != app_name@ {
                    old(apps)@[n].owned()
                } else if owns {
                    old(apps)@[n].owned().insert(service_name@)
                } else {
                    old(apps)@[n].owned().remove(service_name@)
                }
            },
{
    match apps.remove(app_name) {
        Some(app) => {
            let mut app = app;
            if owns {
                app.services.insert(service_name.to_owned());
            } else {
                app.services.remove(service_name);
            }
            apps.insert(app_name.to_owned(), app);
            assert(apps@.dom() =~= old(apps)@.dom());
        },
        None => {
            assert(apps@.dom() =~= old(apps)@.dom());
        },
    }
}

impl ClusterSnapshot {
    /// The names of the services that name `app_name` as their application.
    fn collect_owned(&self, app_name: &str) -> (owned: StringHashSet)
        requires
            self.services.wf(),
        ensures
            owned@ == self@.owned_services(app_name@),
    {
        let mut owned = StringHashSet::new();
        let n = self.services.len();
        let mut i: usize = 0;
        while i < n
            invariant
                self.services.wf(),
                n == self.services.names().len(),
                i <= n,
                forall|s: Seq<char>|
                    owned@.contains(s) <==> exists|j: int|
                        0 <= j < i && #[trigger] self.services.names()[j] == s
                            && self.services.values()[j].service_description.application_name@
                            == app_name@,
            decreases n - i,
        {
            let ghost before = owned@;
            if self.services.value_at(i).application_name().eq(app_name) {
                owned.insert(self.services.name_at(i).to_owned());
            }
            proof {
                let names = self.services.names();
                let values = self.services.values();
                assert forall|s: Seq<char>|
                    owned@.contains(s) <==> exists|j: int|
                        0 <= j < i + 1 && #[trigger] names[j] == s
                            && values[j].service_description.application_name@ == app_name@ by {
                    if owned@.contains(s) {
                        if before.contains(s) {
                            let j = choose|j: int|
                                0 <= j < i && #[trigger] names[j] == s
                                    && values[j].service_description.application_name@ == app_name@;
                            assert(0 <= j < i + 1 && names[j] == s);
                        } else {
                            assert(names[i as int] == s);
                        }
                    }
                    if exists|j: int|
                        0 <= j < i + 1 && #[trigger] names[j] == s
                            && values[j].service_description.application_name@ == app_name@ {
                        let j = choose|j: int|
                            0 <= j < i + 1 && #[trigger] names[j] == s
                                && values[j].service_description.application_name@ == app_name@;
                        if j < i {
                            assert(before.contains(s));
                        }
                    }
                }
            }
            i += 1;
        }
        proof {
            self.services.lemma_view();
            let names = self.services.names();
            let values = self.services.values();
            assert forall|s: Seq<char>|
                owned@.contains(s) <==> self@.owned_services(app_name@).contains(s) by {
                if owned@.contains(s) {
                    let j = choose|j: int|
                        0 <= j < n && #[trigger] names[j] == s
                            && values[j].service_description.application_name@ == app_name@;
                    assert(self.services@.contains_key(names[j]));
                }
                if self@.owned_services(app_name@).contains(s) {
                    assert(names.contains(s));
                    let j = choose|j: int| 0 <= j < names.len() && names[j] == s;
                    assert(self.services@[names[j]] == values[j]);
                }
            }
            assert(owned@ =~= self@.owned_services(app_name@));
        }
        owned
    }

    /// Takes in the update of one application. The services that the
    /// application owns are not taken from the update: they are those that
    /// the snapshot holds under the application's name.
    pub fn upsert_application(&mut self, app: Application)
        requires
            old(self).wf(),
        ensures
            final(self).wf(),
            final(self)@ == old(self)@.with_application(app.desc()),
    {
        let Application { application_desc, services: _ } = app;
        let name = application_desc.app_name.clone();
        let services = match self.apps.remove(name.as_str()) {
            Some(held) => held.services,
            None => self.collect_owned(name.as_str()),
        };
        let renewed = Application { application_desc, services };
        self.apps.insert(name, renewed);
        proof {
            assert(self.apps@ =~= old(self).apps@.insert(name@, renewed));
            assert(self@.apps =~= old(self)@.apps.insert(name@, app.desc()));
            assert(self@ =~= old(self)@.with_application(app.desc()));
            assert forall|n: Seq<char>| #[trigger] self.apps@.contains_key(n) implies self.apps@[n].owned()
                == self@.owned_services(n) by {
                if n != name@ {
                    assert(old(self).apps@.contains_key(n));
                }
            }
        }
    }

    /// Takes in the update of one service. The application that the service
    /// names owns it from now on, and the application that an earlier
    /// description named owns it no longer.
    pub fn upsert_service(&mut self, service: Service)
        requires
            old(self).wf(),
        ensures
            final(self).wf(),
            final(self)@ == old(self)@.with_service(service),
    {
        let name = service.service_description.service_name.clone();
        let owner = service.service_description.application_name.clone();
        let former: Option<String> = match self.services.get(name.as_str()) {
            Some(held) => Some(held.service_description.application_name.clone()),
            None => None,
        };
        match former {
            Some(former_owner) => {
                if !former_owner.eq(&owner) {
                    set_ownership(&mut self.apps, former_owner.as_str(), name.as_str(), false);
                }
            },
            None => {},
        }
        let ghost between = self.apps@;
        self.services.insert(name.clone(), service);
        set_ownership(&mut self.apps, owner.as_str(), name.as_str(), true);
        proof {
            assert(self@.apps =~= old(self)@.apps);
            assert(self@ =~= old(self)@.with_service(service));
            assert forall|n: Seq<char>| #[trigger] self.apps@.contains_key(n) implies self.apps@[n].owned()
                == self@.owned_services(n) by {
                assert(between.contains_key(n));
                assert(old(self).apps@.contains_key(n));
                let before = old(self)@.owned_services(n);
                assert(old(self).apps@[n].owned() == before);
                let after = self@.owned_services(n);
                if n == owner@ {
                    assert(after =~= before.insert(name@));
                } else {
                    assert(after =~= before.remove(name@));
                    if !(former matches Some(f) && f@ == n) {
                        assert(!before.contains(name@));
                        assert(before.remove(name@) =~= before);
                    }
                }
            }
        }
    }
}

/// The partitions that are still held while the updates are settled:
/// those of `base`, and those that an update in the running is about.
pub open spec fn still_held(base: Set<u128>, updates: Seq<FailoverUnit>, running: Seq<bool>) -> Set<
    u128,
> {
    Set::new(
        |k: u128|
            base.contains(k) || exists|j: int|
                0 <= j < updates.len() && running[j] && (#[trigger] updates[j]).failover_unit_description.id
                    == k,
    )
}

/// How many updates are in the running.
pub open spec fn count_running(running: Seq<bool>) -> nat
    decreases running.len(),
{
    if running.len() == 0 {
        0
    } else {
        count_running(running.drop_last()) + if running.last() {
            1nat
        } else {
            0nat
        }
    }
}

/// Striking one update leaves one update less in the running.
proof fn lemma_strike(running: Seq<bool>, i: int)
    requires
        0 <= i < running.len(),
        running[i],
    ensures
        count_running(running.update(i, false)) + 1 == count_running(running),
    decreases running.len(),
{
    let after = running.update(i, false);
    if i == running.len() - 1 {
        assert(after.drop_last() =~= running.drop_last());
    } else {
        assert(after.drop_last() =~= running.drop_last().update(i, false));
        lemma_strike(running.drop_last(), i);
    }
}

/// As long as no update that is taken in in the end has been struck, every
/// partition that is held in the end is still held.
proof fn lemma_goal_still_held(base: Set<u128>, updates: Seq<FailoverUnit>, running: Seq<bool>)
    requires
        running.len() == updates.len(),
        stands(held_after(base, updates), base, updates),
        forall|i: int|
            0 <= i < updates.len() && replicas_within(
                #[trigger] updates[i],
                held_after(base, updates),
            ) ==> running[i],
    ensures
        forall|k: u128|
            held_after(base, updates).contains(k) ==> still_held(base, updates, running).contains(k),
{
    let goal = held_after(base, updates);
    assert forall|k: u128| goal.contains(k) implies still_held(base, updates, running).contains(
        k,
    ) by {
        if !base.contains(k) {
            assert(carried(k, goal, updates));
            let i = choose|i: int|
                0 <= i < updates.len() && (#[trigger] updates[i]).failover_unit_description.id == k
                    && replicas_within(updates[i], goal);
            assert(running[i]);
        }
    }
}

/// Whether an update in the running is about partition `id`.
fn is_running(updates: &VecDeque<FailoverUnit>, running: &Vec<bool>, id: u128) -> (r: bool)
    requires
        running@.len() == updates@.len(),
    ensures
        r == exists|j: int|
            0 <= j < updates@.len() && running@[j] && (#[trigger] updates@[j]).failover_unit_description.id
                == id,
{
    let mut j: usize = 0;
    while j < updates.len()
        invariant
            j <= updates@.len(),
            running@.len() == updates@.len(),
            forall|a: int|
                0 <= a < j ==> !(running@[a] && (#[trigger] updates@[a]).failover_unit_description.id
                    == id),
        decreases updates@.len() - j,
    {
        if running[j] && updates[j].id() == id {
            return true;
        }
        j += 1;
    }
    false
}

impl ClusterSnapshot {
    /// Takes in the waiting updates of nodes, oldest first, and leaves the
    /// queue empty.
    pub fn process_node_updates(&mut self, node_updates: &mut VecDeque<Node>)
        requires
            old(self).wf(),
        ensures
            final(self).wf(),
            final(self)@ == old(self)@.with_nodes(old(node_updates)@),
            final(node_updates)@.len() == 0,
    {
        let ghost all = node_updates@;
        let ghost start = self@;
        let ghost mut done: Seq<Node> = Seq::empty();
        proof {
            lemma_merge_of_nothing(start);
            assert(done + node_updates@ =~= all);
        }
        while node_updates.len() > 0
            invariant
                self.wf(),
                done + node_updates@ == all,
                self@ == start.with_nodes(done),
            decreases node_updates@.len(),
        {
            let ghost waiting = node_updates@;
            let node_update = node_updates.pop_front().unwrap();
            proof {
                lemma_with_nodes_push(start, done, node_update);
                assert(done.push(node_update) + node_updates@ =~= done + waiting);
                done = done.push(node_update);
            }
            self.upsert_node(node_update);
        }
        assert(done =~= all);
    }

    /// Takes in the waiting updates of applications, oldest first, and leaves
    /// the queue empty.
    pub fn process_app_updates(&mut self, app_updates: &mut VecDeque<Application>)
        requires
            old(self).wf(),
        ensures
            final(self).wf(),
            final(self)@ == old(self)@.with_applications(descriptions(old(app_updates)@)),
            final(app_updates)@.len() == 0,
    {
        let ghost all = app_updates@;
        let ghost start = self@;
        let ghost mut done: Seq<Application> = Seq::empty();
        proof {
            lemma_merge_of_nothing(start);
            assert(descriptions(done) =~= Seq::empty());
            assert(done + app_updates@ =~= all);
        }
        while app_updates.len() > 0
            invariant
                self.wf(),
                done + app_updates@ == all,
                self@ == start.with_applications(descriptions(done)),
            decreases app_updates@.len(),
        {
            let ghost waiting = app_updates@;
            let app_update = app_updates.pop_front().unwrap();
            proof {
                lemma_with_applications_push(start, descriptions(done), app_update.desc());
                assert(descriptions(done.push(app_update)) =~= descriptions(done).push(
                    app_update.desc(),
                ));
                assert(done.push(app_update) + app_updates@ =~= done + waiting);
                done = done.push(app_update);
            }
            self.upsert_application(app_update);
        }
        assert(done =~= all);
    }

    /// Takes in the waiting updates of service types, oldest first, and
    /// leaves the queue empty.
    pub fn process_service_type_updates(&mut self, service_type_updates: &mut VecDeque<ServiceType>)
        requires
            old(self).wf(),
        ensures
            final(self).wf(),
            final(self)@ == old(self)@.with_service_types(old(service_type_updates)@),
            final(service_type_updates)@.len() == 0,
    {
        let ghost all = service_type_updates@;
        let ghost start = self@;
        let ghost mut done: Seq<ServiceType> = Seq::empty();
        proof {
            lemma_merge_of_nothing(start);
            assert(done + service_type_updates@ =~= all);
        }
        while service_type_updates.len() > 0
            invariant
                self.wf(),
                done + service_type_updates@ == all,
                self@ == start.with_service_types(done),
            decreases service_type_updates@.len(),
        {
            let ghost waiting = service_type_updates@;
            let service_type_update = service_type_updates.pop_front().unwrap();
            proof {
                lemma_with_service_types_push(start, done, service_type_update);
                assert(done.push(service_type_update) + service_type_updates@ =~= done + waiting);
                done = done.push(service_type_update);
            }
            self.upsert_service_type(service_type_update);
        }
        assert(done =~= all);
    }

    /// Takes in the waiting updates of services, oldest first, and leaves the
    /// queue empty.
    pub fn process_service_updates(&mut self, service_updates: &mut VecDeque<Service>)
        requires
            old(self).wf(),
        ensures
            final(self).wf(),
            final(self)@ == old(self)@.with_services(old(service_updates)@),
            final(service_updates)@.len() == 0,
    {
        let ghost all = service_updates@;
        let ghost start = self@;
        let ghost mut done: Seq<Service> = Seq::empty();
        proof {
            lemma_merge_of_nothing(start);
            assert(done + service_updates@ =~= all);
        }
        while service_updates.len() > 0
            invariant
                self.wf(),
                done + service_updates@ == all,
                self@ == start.with_services(done),
            decreases service_updates@.len(),
        {
            let ghost waiting = service_updates@;
            let service_update = service_updates.pop_front().unwrap();
            proof {
                lemma_with_services_push(start, done, service_update);
                assert(done.push(service_update) + service_updates@ =~= done + waiting);
                done = done.push(service_update);
            }
            self.upsert_service(service_update);
        }
        assert(done =~= all);
    }

    /// Whether every replica of the update at place `i` belongs to a
    /// partition that the snapshot holds or that an update still in the
    /// running is about.
    fn replicas_are_held(
        &self,
        updates: &VecDeque<FailoverUnit>,
        running: &Vec<bool>,
        i: usize,
    ) -> (ok: bool)
        requires
            i < updates@.len(),
            running@.len() == updates@.len(),
        ensures
            ok == replicas_within(
                updates@[i as int],
                still_held(self.failover_units@.dom(), updates@, running@),
            ),
    {
        let unit = &updates[i];
        let ghost held = still_held(self.failover_units@.dom(), updates@, running@);
        let mut ok = true;
        for entry in it: unit.failover_unit_description.replicas.iter()
            invariant
                running@.len() == updates@.len(),
                held == still_held(self.failover_units@.dom(), updates@, running@),
                it.seq() == spec_hash_map_iter(&unit.failover_unit_description.replicas).remaining(),
                ok <==> forall|j: int|
                    0 <= j < it.index() ==> held.contains((#[trigger] it.seq()[j]).1.fu_id),
        {
            let (_, replica) = entry;
            let known = self.failover_units.contains_key(&replica.fu_id) || is_running(
                updates,
                running,
                replica.fu_id,
            );
            if !known {
                ok = false;
            }
        }
        proof {
            let replicas = unit.replicas();
            let all = spec_hash_map_iter(&unit.failover_unit_description.replicas).remaining();
            if ok {
                assert forall|r: u128| #[trigger] replicas.contains_key(r) implies held.contains(
                    replicas[r].fu_id,
                ) by {
                    assert(all.contains((&r, &replicas[r])));
                    let j = choose|j: int| 0 <= j < all.len() && all[j] == (&r, &replicas[r]);
                    assert(all[j].1.fu_id == replicas[r].fu_id);
                }
            } else {
                let j = choose|j: int|
                    0 <= j < all.len() && !held.contains((#[trigger] all[j]).1.fu_id);
                assert(replicas.contains_key(*all[j].0));
                assert(replicas[*all[j].0] == *all[j].1);
            }
        }
        ok
    }

    /// Settles which of the updates are taken in. Every update starts in the
    /// running. An update with a replica in a partition that neither the
    /// snapshot holds nor an update in the running is about is struck, round
    /// after round, until a round strikes none. What then runs is taken in.
    fn settle(&self, updates: &VecDeque<FailoverUnit>) -> (running: Vec<bool>)
        ensures
            running@.len() == updates@.len(),
            forall|i: int|
                0 <= i < updates@.len() ==> running@[i] == replicas_within(
                    #[trigger] updates@[i],
                    held_after(self.failover_units@.dom(), updates@),
                ),
    {
        let n = updates.len();
        let ghost base = self.failover_units@.dom();
        let ghost goal = held_after(base, updates@);
        let mut running: Vec<bool> = Vec::new();
        let mut k: usize = 0;
        while k < n
            invariant
                k <= n,
                running@.len() == k,
                forall|j: int| 0 <= j < k ==> running@[j],
            decreases n - k,
        {
            running.push(true);
            k += 1;
        }
        proof {
            lemma_held_after(base, updates@);
        }
        let mut struck = true;
        while struck
            invariant
                n == updates@.len(),
                running@.len() == n,
                base == self.failover_units@.dom(),
                goal == held_after(base, updates@),
                stands(goal, base, updates@),
                forall|i: int|
                    0 <= i < n && replicas_within(#[trigger] updates@[i], goal) ==> running@[i],
                !struck ==> forall|i: int|
                    0 <= i < n && running@[i] ==> replicas_within(
                        #[trigger] updates@[i],
                        still_held(base, updates@, running@),
                    ),
            decreases count_running(running@) + if struck { 1nat } else { 0nat },
        {
            struck = false;
            let ghost at_start = running@;
            let mut i: usize = 0;
            while i < n
                invariant
                    i <= n,
                    n == updates@.len(),
                    running@.len() == n,
                    base == self.failover_units@.dom(),
                    goal == held_after(base, updates@),
                    stands(goal, base, updates@),
                    forall|j: int|
                        0 <= j < n && replicas_within(#[trigger] updates@[j], goal) ==> running@[j],
                    !struck ==> running@ == at_start,
                    !struck ==> forall|j: int|
                        0 <= j < i && running@[j] ==> replicas_within(
                            #[trigger] updates@[j],
                            still_held(base, updates@, running@),
                        ),
                    struck ==> count_running(running@) < count_running(at_start),
                    count_running(running@) <= count_running(at_start),
                decreases n - i,
            {
                if running[i] {
                    let ok = self.replicas_are_held(updates, &running, i);
                    if !ok {
                        proof {
                            lemma_goal_still_held(base, updates@, running@);
                            let held = still_held(base, updates@, running@);
                            if replicas_within(updates@[i as int], goal) {
                                assert forall|r: u128| #[trigger]
                                    updates@[i as int].replicas().contains_key(
                                        r,
                                    ) implies held.contains(
                                    updates@[i as int].replicas()[r].fu_id,
                                ) by {
                                    assert(goal.contains(updates@[i as int].replicas()[r].fu_id));
                                }
                            }
                            lemma_strike(running@, i as int);
                        }
                        running.set(i, false);
                        struck = true;
                    }
                }
                i += 1;
            }
        }
        proof {
            let held = still_held(base, updates@, running@);
            assert forall|x: u128| #[trigger] held.contains(x) implies base.contains(x) || carried(
                x,
                held,
                updates@,
            ) by {
                if !base.contains(x) {
                    let j = choose|j: int|
                        0 <= j < updates@.len() && running@[j] && (#[trigger] updates@[j]).failover_unit_description.id
                            == x;
                    assert(replicas_within(updates@[j], held));
                }
            }
            assert(stands(held, base, updates@));
            assert forall|i: int| 0 <= i < n && running@[i] implies replicas_within(
                #[trigger] updates@[i],
                goal,
            ) by {
                assert(replicas_within(updates@[i], held));
                assert forall|r: u128| #[trigger] updates@[i].replicas().contains_key(r) implies goal.contains(
                    updates@[i].replicas()[r].fu_id,
                ) by {
                    assert(held.contains(updates@[i].replicas()[r].fu_id));
                }
            }
        }
        running
    }

    /// Takes in the waiting updates of partitions and leaves the queue
    /// empty. An update is judged against the partitions that are held once
    /// all of them are merged: it is turned down only where one of its
    /// replicas would then belong to a partition that is not held. Those
    /// that are taken in are put in oldest first.
    pub fn process_failover_unit_updates(
        &mut self,
        failover_unit_updates: &mut VecDeque<FailoverUnit>,
    )
        requires
            old(self).wf(),
        ensures
            final(self).wf(),
            final(self)@ == old(self)@.with_failover_units(old(failover_unit_updates)@),
            final(failover_unit_updates)@.len() == 0,
    {
        let running = self.settle(failover_unit_updates);
        let n = failover_unit_updates.len();
        let ghost all = failover_unit_updates@;
        let ghost start = self@;
        let ghost goal = held_after(start.failover_units.dom(), all);
        let ghost mut done: Seq<FailoverUnit> = Seq::empty();
        let mut i: usize = 0;
        proof {
            assert(admitted(done, goal) =~= Seq::empty());
            assert(done + failover_unit_updates@ =~= all);
        }
        while failover_unit_updates.len() > 0
            invariant
                running@.len() == all.len(),
                forall|j: int|
                    0 <= j < all.len() ==> running@[j] == replicas_within(#[trigger] all[j], goal),
                all.len() == n,
                done.len() == i,
                done + failover_unit_updates@ == all,
                self.failover_units@ == upsert_all(
                    start.failover_units,
                    admitted(done, goal),
                    failover_unit_key(),
                ),
                self.nodes@ == start.nodes,
                self@.apps == start.apps,
                self.service_types@ == start.service_types,
                self.services@ == start.services,
                self.loads@ == start.loads,
                self.apps.wf(),
                self.service_types.wf(),
                self.services.wf(),
                forall|n: Seq<char>| #[trigger]
                    self.apps@.contains_key(n) ==> self.apps@[n].owned() == start.owned_services(n),
            decreases failover_unit_updates@.len(),
        {
            let ghost waiting = failover_unit_updates@;
            let failover_unit_update = failover_unit_updates.pop_front().unwrap();
            proof {
                assert(done.push(failover_unit_update) + failover_unit_updates@ =~= done + waiting);
                assert(all[i as int] == failover_unit_update);
                reveal(Seq::filter);
                assert(done.push(failover_unit_update).drop_last() =~= done);
                if running@[i as int] {
                    lemma_upsert_all_push(
                        start.failover_units,
                        admitted(done, goal),
                        failover_unit_key(),
                        failover_unit_update,
                    );
                }
                done = done.push(failover_unit_update);
            }
            if running[i] {
                let fu_id = failover_unit_update.id();
                self.failover_units.insert(fu_id, failover_unit_update);
            }
            i += 1;
        }
        proof {
            assert(done =~= all);
            lemma_with_failover_units_is_consistent(start, all);
            assert(self@ =~= start.with_failover_units(all));
        }
    }

    /// Takes in the waiting load reports, oldest first, and leaves the queue
    /// empty. A report that is turned down is passed over.
    pub fn process_load_updates(&mut self, load_updates: &mut VecDeque<LoadOrMoveCost>)
        requires
            old(self).wf(),
        ensures
            final(self).wf(),
            final(self)@ == old(self)@.with_loads(old(load_updates)@),
            final(load_updates)@.len() == 0,
    {
        let ghost all = load_updates@;
        let ghost start = self@;
        let ghost mut done: Seq<LoadOrMoveCost> = Seq::empty();
        proof {
            lemma_merge_of_nothing(start);
            assert(done + load_updates@ =~= all);
        }
        while load_updates.len() > 0
            invariant
                self.wf(),
                done + load_updates@ == all,
                self@ == start.with_loads(done),
            decreases load_updates@.len(),
        {
            let ghost waiting = load_updates@;
            let load_update = load_updates.pop_front().unwrap();
            proof {
                lemma_with_loads_push(start, done, load_update);
                assert(done.push(load_update) + load_updates@ =~= done + waiting);
                done = done.push(load_update);
            }
            self.upsert_load(load_update);
        }
        assert(done =~= all);
    }

    /// Merges a batch of updates into the snapshot: nodes first, then
    /// applications, service types, services, partitions and load reports,
    /// each kind oldest first. Within a kind the last update of a key wins.
    /// A partition is judged against the partitions held once the batch's
    /// partitions are merged, so it may refer to one that comes later in the
    /// batch; a load report is judged against the same. A partition or a
    /// load report that would refer to a partition that is then not held is
    /// passed over, so that the snapshot stays consistent.
    pub fn merge(&mut self, batch: UpdateQueue)
        requires
            old(self).wf(),
        ensures
            final(self).wf(),
            final(self)@ == old(self)@.merged(batch@),
            final(self)@.consistent(),
    {
        let mut batch = batch;
        self.process_node_updates(&mut batch.node_update_queue);
        self.process_app_updates(&mut batch.app_update_queue);
        self.process_service_type_updates(&mut batch.service_type_update_queue);
        self.process_service_updates(&mut batch.service_update_queue);
        self.process_failover_unit_updates(&mut batch.failover_unit_update_queue);
        self.process_load_updates(&mut batch.load_update_queue);
    }
}

} // verus!
