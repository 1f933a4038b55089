//! The cluster as a mathematical value, and what an update does to it.
//!
//! The snapshot that the engine holds stands for a `ClusterState`. Every
//! contract on the snapshot is stated over this model.

use crate::admission::admitted;
use crate::admission::carried;
use crate::admission::held_after;
use crate::admission::lemma_held_after;
use crate::admission::lemma_filter_keeps_all;
use crate::admission::lemma_held_after_one;
use crate::admission::lemma_nothing_dangles;
use crate::admission::named;
use crate::admission::replicas_within;
use crate::admission::stands;
use crate::admission::within;
use crate::application::application::Application;
use crate::application::application_description::ApplicationDescription;
use crate::failoverunit::failover_unit::FailoverUnit;
use crate::load::load_or_move_cost::LoadOrMoveCost;
use crate::node::node::Node;
use crate::service::service::Service;
use crate::servicetype::service_type::ServiceType;
use vstd::prelude::*;

verus! {

/// Puts each value of `updates`, in order, under its key. A later value
/// replaces an earlier one that has the same key.
pub open spec fn upsert_all<K, V>(m: Map<K, V>, updates: Seq<V>, key: spec_fn(V) -> K) -> Map<K, V>
    decreases updates.len(),
{
    if updates.len() == 0 {
        m
    } else {
        upsert_all(m, updates.drop_last(), key).insert(key(updates.last()), updates.last())
    }
}

/// The key of a node: the value of its identity.
pub open spec fn node_key() -> spec_fn(Node) -> u128 {
    |n: Node| n.key()
}

/// The key of an application: its name.
pub open spec fn application_key() -> spec_fn(ApplicationDescription) -> Seq<char> {
    |d: ApplicationDescription| d.app_name@
}

/// The key of a service type: its name.
pub open spec fn service_type_key() -> spec_fn(ServiceType) -> Seq<char> {
    |t: ServiceType| t.service_type_desc.name@
}

/// The key of a service: its name.
pub open spec fn service_key() -> spec_fn(Service) -> Seq<char> {
    |s: Service| s.service_description.service_name@
}

/// The key of a partition: its identifier.
pub open spec fn failover_unit_key() -> spec_fn(FailoverUnit) -> u128 {
    |u: FailoverUnit| u.failover_unit_description.id
}

/// The key of a load report: the partition it is about.
pub open spec fn load_key() -> spec_fn(LoadOrMoveCost) -> u128 {
    |l: LoadOrMoveCost| l.load_description.fu_id
}

/// The test that a load report passes where it is about a partition of
/// `held`.
pub open spec fn about_one_of(held: Set<u128>) -> spec_fn(LoadOrMoveCost) -> bool {
    |l: LoadOrMoveCost| held.contains(l.load_description.fu_id)
}

/// What the updates of a sequence say of their applications.
pub open spec fn descriptions(apps: Seq<Application>) -> Seq<ApplicationDescription> {
    apps.map_values(|a: Application| a.desc())
}

/// Updates that wait to be merged, by kind, each kind in the order in which
/// its updates came.
#[verifier::ext_equal]
pub struct PendingUpdates {
    pub nodes: Seq<Node>,
    pub apps: Seq<ApplicationDescription>,
    pub service_types: Seq<ServiceType>,
    pub services: Seq<Service>,
    pub failover_units: Seq<FailoverUnit>,
    pub loads: Seq<LoadOrMoveCost>,
}

impl PendingUpdates {
    /// No update waits.
    pub open spec fn empty() -> PendingUpdates {
        PendingUpdates {
            nodes: Seq::empty(),
            apps: Seq::empty(),
            service_types: Seq::empty(),
            services: Seq::empty(),
            failover_units: Seq::empty(),
            loads: Seq::empty(),
        }
    }

    pub open spec fn is_empty(self) -> bool {
        &&& self.nodes.len() == 0
        &&& self.apps.len() == 0
        &&& self.service_types.len() == 0
        &&& self.services.len() == 0
        &&& self.failover_units.len() == 0
        &&& self.loads.len() == 0
    }
}

/// The cluster at one point in time: every entity under its key.
#[verifier::ext_equal]
pub struct ClusterState {
    pub nodes: Map<u128, Node>,
    pub apps: Map<Seq<char>, ApplicationDescription>,
    pub service_types: Map<Seq<char>, ServiceType>,
    pub services: Map<Seq<char>, Service>,
    pub failover_units: Map<u128, FailoverUnit>,
    pub loads: Map<u128, LoadOrMoveCost>,
}

impl ClusterState {
    /// The cluster in which nothing is known.
    pub open spec fn empty() -> ClusterState {
        ClusterState {
            nodes: Map::empty(),
            apps: Map::empty(),
            service_types: Map::empty(),
            services: Map::empty(),
            failover_units: Map::empty(),
            loads: Map::empty(),
        }
    }

    /// The names of the services that the application `app` owns: those
    /// whose description names it.
    pub open spec fn owned_services(self, app: Seq<char>) -> Set<Seq<char>> {
        Set::new(
            |s: Seq<char>|
                self.services.contains_key(s) && self.services[s].service_description.application_name@
                    == app,
        )
    }

    /// No entity refers to a partition that the cluster does not hold: every
    /// replica's partition is there, and so is the partition of every load
    /// report.
    pub open spec fn references_resolve(self) -> bool {
        &&& forall|k: u128, r: u128|
            self.failover_units.contains_key(k) && #[trigger] self.failover_units[k].replicas().contains_key(
                r,
            ) ==> self.failover_units.contains_key(self.failover_units[k].replicas()[r].fu_id)
        &&& forall|k: u128| #[trigger]
            self.loads.contains_key(k) ==> self.failover_units.contains_key(
                self.loads[k].load_description.fu_id,
            )
    }

    /// Every entity stands under its own key.
    pub open spec fn keyed_by_identity(self) -> bool {
        &&& forall|k: u128| #[trigger] self.nodes.contains_key(k) ==> self.nodes[k].key() == k
        &&& forall|k: Seq<char>| #[trigger] self.apps.contains_key(k) ==> self.apps[k].app_name@ == k
        &&& forall|k: Seq<char>| #[trigger]
            self.service_types.contains_key(k) ==> self.service_types[k].service_type_desc.name@ == k
        &&& forall|k: Seq<char>| #[trigger]
            self.services.contains_key(k) ==> self.services[k].service_description.service_name@ == k
        &&& forall|k: u128| #[trigger]
            self.failover_units.contains_key(k) ==> self.failover_units[k].failover_unit_description.id
                == k
        &&& forall|k: u128| #[trigger]
            self.loads.contains_key(k) ==> self.loads[k].load_description.fu_id == k
    }

    /// What holds of the cluster whenever it can be read.
    pub open spec fn consistent(self) -> bool {
        self.keyed_by_identity() && self.references_resolve()
    }

    /// The cluster after the update of one node.
    pub open spec fn with_node(self, node: Node) -> ClusterState {
        ClusterState { nodes: self.nodes.insert(node.key(), node), ..self }
    }

    /// The cluster after the update of one application.
    pub open spec fn with_application(self, app: ApplicationDescription) -> ClusterState {
        ClusterState { apps: self.apps.insert(app.app_name@, app), ..self }
    }

    /// The cluster after the update of one service type.
    pub open spec fn with_service_type(self, service_type: ServiceType) -> ClusterState {
        ClusterState {
            service_types: self.service_types.insert(
                service_type.service_type_desc.name@,
                service_type,
            ),
            ..self
        }
    }

    /// The cluster after the update of one service.
    pub open spec fn with_service(self, service: Service) -> ClusterState {
        ClusterState {
            services: self.services.insert(service.service_description.service_name@, service),
            ..self
        }
    }

    /// The cluster after the update of one partition, merged on its own. An
    /// update with a replica that belongs neither to the partition itself
    /// nor to a partition that the cluster holds is turned down, and the
    /// cluster stays as it is.
    pub open spec fn with_failover_unit(self, unit: FailoverUnit) -> ClusterState {
        if replicas_within(
            unit,
            self.failover_units.dom().insert(unit.failover_unit_description.id),
        ) {
            ClusterState {
                failover_units: self.failover_units.insert(unit.failover_unit_description.id, unit),
                ..self
            }
        } else {
            self
        }
    }

    /// The cluster after one load report. A report on a partition that is
    /// unknown is turned down, and the cluster stays as it is.
    pub open spec fn with_load(self, load: LoadOrMoveCost) -> ClusterState {
        if self.failover_units.contains_key(load.load_description.fu_id) {
            ClusterState { loads: self.loads.insert(load.load_description.fu_id, load), ..self }
        } else {
            self
        }
    }

    /// The cluster after the updates of nodes, in order.
    pub open spec fn with_nodes(self, updates: Seq<Node>) -> ClusterState {
        ClusterState { nodes: upsert_all(self.nodes, updates, node_key()), ..self }
    }

    /// The cluster after the updates of applications, in order.
    pub open spec fn with_applications(self, updates: Seq<ApplicationDescription>) -> ClusterState {
        ClusterState { apps: upsert_all(self.apps, updates, application_key()), ..self }
    }

    /// The cluster after the updates of service types, in order.
    pub open spec fn with_service_types(self, updates: Seq<ServiceType>) -> ClusterState {
        ClusterState {
            service_types: upsert_all(self.service_types, updates, service_type_key()),
            ..self
        }
    }

    /// The cluster after the updates of services, in order.
    pub open spec fn with_services(self, updates: Seq<Service>) -> ClusterState {
        ClusterState { services: upsert_all(self.services, updates, service_key()), ..self }
    }

    /// The updates of partitions that a merge takes in: those whose
    /// replicas all belong to partitions that are held once the batch is
    /// merged. An update may refer to a partition that comes later in the
    /// batch.
    pub open spec fn admitted_failover_units(self, updates: Seq<FailoverUnit>) -> Seq<
        FailoverUnit,
    > {
        admitted(updates, held_after(self.failover_units.dom(), updates))
    }

    /// The cluster after the updates of partitions: those that are taken
    /// in, in order.
    pub open spec fn with_failover_units(self, updates: Seq<FailoverUnit>) -> ClusterState {
        ClusterState {
            failover_units: upsert_all(
                self.failover_units,
                self.admitted_failover_units(updates),
                failover_unit_key(),
            ),
            ..self
        }
    }

    /// The load reports of `updates` that are about a partition of the
    /// cluster.
    pub open spec fn admitted_loads(self, updates: Seq<LoadOrMoveCost>) -> Seq<LoadOrMoveCost> {
        updates.filter(about_one_of(self.failover_units.dom()))
    }

    /// The cluster after the load reports, in order.
    pub open spec fn with_loads(self, updates: Seq<LoadOrMoveCost>) -> ClusterState {
        ClusterState {
            loads: upsert_all(self.loads, self.admitted_loads(updates), load_key()),
            ..self
        }
    }

    /// The cluster after a batch of updates: nodes first, then applications,
    /// service types, services, partitions and load reports, each kind in
    /// the order in which its updates came. Partitions and load reports are
    /// judged against the partitions that are held once the partitions of
    /// the batch are merged.
    pub open spec fn merged(self, batch: PendingUpdates) -> ClusterState {
        self.with_nodes(batch.nodes).with_applications(batch.apps).with_service_types(
            batch.service_types,
        ).with_services(batch.services).with_failover_units(batch.failover_units).with_loads(
            batch.loads,
        )
    }
}

/// One more update at the end of a sequence is put in after the others.
pub proof fn lemma_upsert_all_push<K, V>(m: Map<K, V>, updates: Seq<V>, key: spec_fn(V) -> K, last: V)
    ensures
        upsert_all(m, updates.push(last), key) == upsert_all(m, updates, key).insert(
            key(last),
            last,
        ),
{
    assert(updates.push(last).drop_last() =~= updates);
}

/// Where no update waits, a merge changes nothing.
pub proof fn lemma_merge_of_nothing(state: ClusterState)
    ensures
        state.with_nodes(Seq::empty()) == state,
        state.with_applications(Seq::empty()) == state,
        state.with_service_types(Seq::empty()) == state,
        state.with_services(Seq::empty()) == state,
        state.with_failover_units(Seq::empty()) == state,
        state.with_loads(Seq::empty()) == state,
        state.merged(PendingUpdates::empty()) == state,
{
    assert(state.with_nodes(Seq::empty()) =~= state);
    assert(state.with_applications(Seq::empty()) =~= state);
    assert(state.with_service_types(Seq::empty()) =~= state);
    assert(state.with_services(Seq::empty()) =~= state);
    assert(state.admitted_failover_units(Seq::empty()) =~= Seq::empty());
    assert(state.with_failover_units(Seq::empty()) =~= state);
    assert(state.admitted_loads(Seq::empty()) =~= Seq::empty());
    assert(state.with_loads(Seq::empty()) =~= state);
}

/// One more node update at the end of a sequence is applied after the
/// others.
pub proof fn lemma_with_nodes_push(state: ClusterState, updates: Seq<Node>, last: Node)
    ensures
        state.with_nodes(updates.push(last)) == state.with_nodes(updates).with_node(last),
{
    lemma_upsert_all_push(state.nodes, updates, node_key(), last);
    assert(state.with_nodes(updates.push(last)) =~= state.with_nodes(updates).with_node(last));
}

/// One more application update at the end of a sequence is applied after
/// the others.
pub proof fn lemma_with_applications_push(
    state: ClusterState,
    updates: Seq<ApplicationDescription>,
    last: ApplicationDescription,
)
    ensures
        state.with_applications(updates.push(last)) == state.with_applications(
            updates,
        ).with_application(last),
{
    lemma_upsert_all_push(state.apps, updates, application_key(), last);
    assert(state.with_applications(updates.push(last)) =~= state.with_applications(
        updates,
    ).with_application(last));
}

/// One more service type update at the end of a sequence is applied after
/// the others.
pub proof fn lemma_with_service_types_push(
    state: ClusterState,
    updates: Seq<ServiceType>,
    last: ServiceType,
)
    ensures
        state.with_service_types(updates.push(last)) == state.with_service_types(
            updates,
        ).with_service_type(last),
{
    lemma_upsert_all_push(state.service_types, updates, service_type_key(), last);
    assert(state.with_service_types(updates.push(last)) =~= state.with_service_types(
        updates,
    ).with_service_type(last));
}

/// One more service update at the end of a sequence is applied after the
/// others.
pub proof fn lemma_with_services_push(state: ClusterState, updates: Seq<Service>, last: Service)
    ensures
        state.with_services(updates.push(last)) == state.with_services(updates).with_service(last),
{
    lemma_upsert_all_push(state.services, updates, service_key(), last);
    assert(state.with_services(updates.push(last)) =~= state.with_services(updates).with_service(
        last,
    ));
}

/// Last writer wins: the update of a key after which no other update of
/// the same key follows is what the key holds in the end.
pub proof fn lemma_last_writer_wins<K, V>(
    m: Map<K, V>,
    updates: Seq<V>,
    key: spec_fn(V) -> K,
    i: int,
)
    requires
        0 <= i < updates.len(),
        forall|j: int| i < j < updates.len() ==> key(updates[j]) != key(updates[i]),
    ensures
        upsert_all(m, updates, key).contains_key(key(updates[i])),
        upsert_all(m, updates, key)[key(updates[i])] == updates[i],
    decreases updates.len(),
{
    if i < updates.len() - 1 {
        lemma_last_writer_wins(m, updates.drop_last(), key, i);
    }
}

/// A key that no update names holds in the end what it held before.
pub proof fn lemma_other_keys_are_kept<K, V>(
    m: Map<K, V>,
    updates: Seq<V>,
    key: spec_fn(V) -> K,
    k: K,
)
    requires
        forall|j: int| 0 <= j < updates.len() ==> key(updates[j]) != k,
    ensures
        upsert_all(m, updates, key).contains_key(k) == m.contains_key(k),
        m.contains_key(k) ==> upsert_all(m, updates, key)[k] == m[k],
    decreases updates.len(),
{
    if updates.len() > 0 {
        lemma_other_keys_are_kept(m, updates.drop_last(), key, k);
    }
}

/// Where every value stood under its own key, it still does after updates.
pub proof fn lemma_upsert_all_keeps_keys<K, V>(m: Map<K, V>, updates: Seq<V>, key: spec_fn(V) -> K)
    requires
        forall|k: K| m.contains_key(k) ==> key(#[trigger] m[k]) == k,
    ensures
        forall|k: K|
            upsert_all(m, updates, key).contains_key(k) ==> key(
                #[trigger] upsert_all(m, updates, key)[k],
            ) == k,
        forall|k: K| m.contains_key(k) ==> upsert_all(m, updates, key).contains_key(k),
    decreases updates.len(),
{
    if updates.len() > 0 {
        lemma_upsert_all_keeps_keys(m, updates.drop_last(), key);
        let before = upsert_all(m, updates.drop_last(), key);
        let after = upsert_all(m, updates, key);
        assert(after == before.insert(key(updates.last()), updates.last()));
        assert forall|k: K| after.contains_key(k) implies key(#[trigger] after[k]) == k by {
            if k != key(updates.last()) {
                assert(before.contains_key(k));
                assert(after[k] == before[k]);
            }
        }
    }
}

/// What held a value before updates holds one after them, and every update
/// has its key held. What a key holds in the end is what it held before or
/// one of the updates.
pub proof fn lemma_upsert_all_holds<K, V>(m: Map<K, V>, updates: Seq<V>, key: spec_fn(V) -> K)
    ensures
        forall|k: K| m.contains_key(k) ==> upsert_all(m, updates, key).contains_key(k),
        forall|i: int|
            0 <= i < updates.len() ==> upsert_all(m, updates, key).contains_key(
                key(#[trigger] updates[i]),
            ),
        forall|k: K| #[trigger]
            upsert_all(m, updates, key).contains_key(k) ==> {
                ||| m.contains_key(k) && upsert_all(m, updates, key)[k] == m[k]
                ||| exists|i: int|
                    0 <= i < updates.len() && #[trigger] updates[i] == upsert_all(
                        m,
                        updates,
                        key,
                    )[k] && key(updates[i]) == k
            },
    decreases updates.len(),
{
    if updates.len() > 0 {
        let rest = updates.drop_last();
        lemma_upsert_all_holds(m, rest, key);
        let before = upsert_all(m, rest, key);
        let after = upsert_all(m, updates, key);
        assert forall|i: int| 0 <= i < updates.len() implies after.contains_key(
            key(#[trigger] updates[i]),
        ) by {
            if i < rest.len() {
                assert(rest[i] == updates[i]);
            }
        }
        assert forall|k: K| #[trigger] after.contains_key(k) implies {
            ||| m.contains_key(k) && after[k] == m[k]
            ||| exists|i: int|
                0 <= i < updates.len() && #[trigger] updates[i] == after[k] && key(updates[i]) == k
        } by {
            if k == key(updates.last()) {
                assert(updates[updates.len() - 1] == after[k]);
            } else {
                assert(before.contains_key(k));
                if !(m.contains_key(k) && before[k] == m[k]) {
                    let i = choose|i: int|
                        0 <= i < rest.len() && #[trigger] rest[i] == before[k] && key(rest[i]) == k;
                    assert(updates[i] == after[k]);
                }
            }
        }
    }
}

/// One more load report at the end of a sequence is applied after the
/// others.
pub proof fn lemma_with_loads_push(
    state: ClusterState,
    updates: Seq<LoadOrMoveCost>,
    last: LoadOrMoveCost,
)
    ensures
        state.with_loads(updates.push(last)) == state.with_loads(updates).with_load(last),
{
    let admits = about_one_of(state.failover_units.dom());
    assert(updates.push(last).drop_last() =~= updates);
    reveal_with_fuel(Seq::filter, 2);
    if admits(last) {
        lemma_upsert_all_push(
            state.loads,
            state.admitted_loads(updates),
            load_key(),
            last,
        );
    }
    assert(state.with_loads(updates.push(last)) =~= state.with_loads(updates).with_load(last));
}

/// Last admitted writer wins, where only the updates that pass `admits`
/// are taken in: the update of a key that was taken in, and after which no
/// update of the same key that is taken in follows, is what the key holds in
/// the end. For partitions `admits` is `replicas_within` the partitions held
/// after the merge; for load reports it is that the partition is held.
pub proof fn lemma_last_admitted_writer_wins<K, V>(
    m: Map<K, V>,
    updates: Seq<V>,
    key: spec_fn(V) -> K,
    admits: spec_fn(V) -> bool,
    i: int,
)
    requires
        0 <= i < updates.len(),
        admits(updates[i]),
        forall|j: int|
            i < j < updates.len() && key(#[trigger] updates[j]) == key(updates[i]) ==> !admits(
                updates[j],
            ),
    ensures
        upsert_all(m, updates.filter(admits), key).contains_key(key(updates[i])),
        upsert_all(m, updates.filter(admits), key)[key(updates[i])] == updates[i],
    decreases updates.len(),
{
    reveal(Seq::filter);
    let rest = updates.drop_last();
    if i < updates.len() - 1 {
        assert(rest[i] == updates[i]);
        assert forall|j: int|
            i < j < rest.len() && key(#[trigger] rest[j]) == key(rest[i]) implies !admits(
            rest[j],
        ) by {
            assert(rest[j] == updates[j]);
        }
        lemma_last_admitted_writer_wins(m, rest, key, admits, i);
        if admits(updates.last()) {
            assert(updates.filter(admits) == rest.filter(admits).push(updates.last()));
            lemma_upsert_all_push(m, rest.filter(admits), key, updates.last());
        }
    } else {
        assert(updates.filter(admits) == rest.filter(admits).push(updates.last()));
        lemma_upsert_all_push(m, rest.filter(admits), key, updates.last());
    }
}

/// A merge kind by kind: what each kind of entity is after a batch. Nodes,
/// applications, service types and services take every update of their
/// kind, so `lemma_last_writer_wins` speaks of them as they are after the
/// merge. Partitions take the updates that are admitted, and load reports
/// those that are about a partition held once the partitions are merged;
/// of these `lemma_last_admitted_writer_wins` speaks.
pub proof fn lemma_merged_by_kind(state: ClusterState, batch: PendingUpdates)
    ensures
        state.merged(batch).nodes == upsert_all(state.nodes, batch.nodes, node_key()),
        state.merged(batch).apps == upsert_all(state.apps, batch.apps, application_key()),
        state.merged(batch).service_types == upsert_all(
            state.service_types,
            batch.service_types,
            service_type_key(),
        ),
        state.merged(batch).services == upsert_all(state.services, batch.services, service_key()),
        state.merged(batch).failover_units == upsert_all(
            state.failover_units,
            state.admitted_failover_units(batch.failover_units),
            failover_unit_key(),
        ),
        state.merged(batch).loads == upsert_all(
            state.loads,
            state.with_failover_units(batch.failover_units).admitted_loads(batch.loads),
            load_key(),
        ),
{
}

/// Where every replica of every update belongs to a partition that was held
/// before or that one of the updates is about, nothing dangles after the
/// merge: every update is taken in, wherever in the batch the partition
/// that it refers to stands, and each partition holds its last update.
pub proof fn lemma_partitions_that_resolve_are_all_taken_in(
    state: ClusterState,
    updates: Seq<FailoverUnit>,
)
    requires
        forall|i: int|
            0 <= i < updates.len() ==> replicas_within(
                #[trigger] updates[i],
                state.failover_units.dom() + named(updates),
            ),
    ensures
        state.admitted_failover_units(updates) == updates,
        state.with_failover_units(updates).failover_units == upsert_all(
            state.failover_units,
            updates,
            failover_unit_key(),
        ),
{
    lemma_nothing_dangles(state.failover_units.dom(), updates);
}

/// Where nothing would dangle after the merge, the merge takes in every
/// update: each kind holds what it held before and, under every key that an
/// update of the kind names, the last update of that key. This is so where
/// every replica and every load report of the batch belongs to a partition
/// that was held before or that an update of the batch is about.
pub proof fn lemma_merge_takes_in_all_that_resolves(state: ClusterState, batch: PendingUpdates)
    requires
        forall|i: int|
            0 <= i < batch.failover_units.len() ==> replicas_within(
                #[trigger] batch.failover_units[i],
                state.failover_units.dom() + named(batch.failover_units),
            ),
        forall|i: int|
            0 <= i < batch.loads.len() ==> (state.failover_units.dom() + named(
                batch.failover_units,
            )).contains((#[trigger] batch.loads[i]).load_description.fu_id),
    ensures
        state.merged(batch).nodes == upsert_all(state.nodes, batch.nodes, node_key()),
        state.merged(batch).apps == upsert_all(state.apps, batch.apps, application_key()),
        state.merged(batch).service_types == upsert_all(
            state.service_types,
            batch.service_types,
            service_type_key(),
        ),
        state.merged(batch).services == upsert_all(state.services, batch.services, service_key()),
        state.merged(batch).failover_units == upsert_all(
            state.failover_units,
            batch.failover_units,
            failover_unit_key(),
        ),
        state.merged(batch).loads == upsert_all(state.loads, batch.loads, load_key()),
{
    lemma_merged_by_kind(state, batch);
    lemma_partitions_that_resolve_are_all_taken_in(state, batch.failover_units);
    let after = state.with_failover_units(batch.failover_units);
    lemma_upsert_all_holds(state.failover_units, batch.failover_units, failover_unit_key());
    assert forall|i: int| 0 <= i < batch.loads.len() implies about_one_of(
        after.failover_units.dom(),
    )(#[trigger] batch.loads[i]) by {
        let id = batch.loads[i].load_description.fu_id;
        if !state.failover_units.dom().contains(id) {
            assert(named(batch.failover_units).contains(id));
            let j = choose|j: int|
                0 <= j < batch.failover_units.len() && (#[trigger] batch.failover_units[j]).failover_unit_description.id
                    == id;
            assert(failover_unit_key()(batch.failover_units[j]) == id);
        }
    }
    lemma_filter_keeps_all(batch.loads, about_one_of(after.failover_units.dom()));
}

/// One update of a partition merged as a batch is that update merged on its
/// own.
pub proof fn lemma_with_one_failover_unit(state: ClusterState, unit: FailoverUnit)
    ensures
        state.with_failover_units(seq![unit]) == state.with_failover_unit(unit),
{
    lemma_held_after_one(state.failover_units.dom(), unit);
    reveal_with_fuel(upsert_all, 2);
    assert(seq![unit].drop_last() =~= Seq::<FailoverUnit>::empty());
    assert(seq![unit].last() == unit);
    assert(state.with_failover_units(seq![unit]) =~= state.with_failover_unit(unit));
}

/// Merging the same update a second time changes nothing, whatever kind of
/// entity the update is about.
pub proof fn lemma_remerge_changes_nothing(
    state: ClusterState,
    node: Node,
    app: ApplicationDescription,
    service_type: ServiceType,
    service: Service,
    unit: FailoverUnit,
    load: LoadOrMoveCost,
)
    ensures
        state.with_node(node).with_node(node) == state.with_node(node),
        state.with_application(app).with_application(app) == state.with_application(app),
        state.with_service_type(service_type).with_service_type(service_type)
            == state.with_service_type(service_type),
        state.with_service(service).with_service(service) == state.with_service(service),
        state.with_failover_unit(unit).with_failover_unit(unit) == state.with_failover_unit(unit),
        state.with_load(load).with_load(load) == state.with_load(load),
{
    assert(state.with_node(node).with_node(node) =~= state.with_node(node));
    assert(state.with_application(app).with_application(app) =~= state.with_application(app));
    assert(state.with_service_type(service_type).with_service_type(service_type)
        =~= state.with_service_type(service_type));
    assert(state.with_service(service).with_service(service) =~= state.with_service(service));
    let once = state.with_failover_unit(unit);
    let id = unit.failover_unit_description.id;
    if replicas_within(unit, state.failover_units.dom().insert(id)) {
        assert(once.failover_units.dom().insert(id) =~= state.failover_units.dom().insert(id));
    }
    assert(once.with_failover_unit(unit) =~= once);
    assert(state.with_load(load).with_load(load) =~= state.with_load(load));
}

/// One load report keeps the cluster consistent.
pub proof fn lemma_with_load_is_consistent(state: ClusterState, load: LoadOrMoveCost)
    requires
        state.consistent(),
    ensures
        state.with_load(load).consistent(),
{
    let next = state.with_load(load);
    if state.failover_units.contains_key(load.load_description.fu_id) {
        assert forall|k: u128| #[trigger] next.loads.contains_key(k) implies next.failover_units.contains_key(
            next.loads[k].load_description.fu_id,
        ) by {
            if k != load.load_description.fu_id {
                assert(state.loads.contains_key(k));
            }
        }
    }
}

/// The updates of partitions keep the cluster consistent, and the
/// partitions held afterwards are those of `held_after`.
pub proof fn lemma_with_failover_units_is_consistent(
    state: ClusterState,
    updates: Seq<FailoverUnit>,
)
    requires
        state.consistent(),
    ensures
        state.with_failover_units(updates).consistent(),
        state.with_failover_units(updates).failover_units.dom() == held_after(
            state.failover_units.dom(),
            updates,
        ),
{
    let base = state.failover_units.dom();
    let goal = held_after(base, updates);
    let admits = within(goal);
    let taken = state.admitted_failover_units(updates);
    let next = state.with_failover_units(updates);
    lemma_held_after(base, updates);
    lemma_upsert_all_holds(state.failover_units, taken, failover_unit_key());
    lemma_upsert_all_keeps_keys(state.failover_units, taken, failover_unit_key());
    assert forall|k: u128| goal.contains(k) implies next.failover_units.contains_key(k) by {
        if !base.contains(k) {
            let i = choose|i: int|
                0 <= i < updates.len() && (#[trigger] updates[i]).failover_unit_description.id == k
                    && replicas_within(updates[i], goal);
            updates.lemma_filter_contains(admits, i);
            let j = choose|j: int| 0 <= j < taken.len() && taken[j] == updates[i];
            assert(failover_unit_key()(taken[j]) == k);
        }
    }
    assert forall|k: u128| next.failover_units.contains_key(k) implies goal.contains(k) by {
        if !base.contains(k) {
            let j = choose|j: int|
                0 <= j < taken.len() && #[trigger] taken[j] == next.failover_units[k]
                    && failover_unit_key()(taken[j]) == k;
            updates.lemma_filter_pred(admits, j);
            taken_is_of(updates, admits, j);
            let i = choose|i: int| 0 <= i < updates.len() && updates[i] == taken[j];
            assert(updates[i].failover_unit_description.id == k);
            let held = goal.insert(k);
            assert forall|x: u128| #[trigger] held.contains(x) implies base.contains(x) || carried(
                x,
                held,
                updates,
            ) by {
                if x == k {
                    assert(replicas_within(updates[i], held));
                } else if !base.contains(x) {
                    assert(carried(x, goal, updates));
                    let a = choose|a: int|
                        0 <= a < updates.len() && (#[trigger] updates[a]).failover_unit_description.id
                            == x && replicas_within(updates[a], goal);
                    assert(replicas_within(updates[a], held));
                }
            }
            assert(stands(held, base, updates));
            assert(held.contains(k));
        }
    }
    assert(next.failover_units.dom() =~= goal);
    assert forall|k: u128, r: u128|
        next.failover_units.contains_key(k) && #[trigger] next.failover_units[k].replicas().contains_key(
            r,
        ) implies next.failover_units.contains_key(next.failover_units[k].replicas()[r].fu_id) by {
        if state.failover_units.contains_key(k) && next.failover_units[k] == state.failover_units[k] {
            assert(state.failover_units[k].replicas().contains_key(r));
            assert(base.contains(state.failover_units[k].replicas()[r].fu_id));
        } else {
            let j = choose|j: int|
                0 <= j < taken.len() && #[trigger] taken[j] == next.failover_units[k]
                    && failover_unit_key()(taken[j]) == k;
            updates.lemma_filter_pred(admits, j);
        }
    }
    assert forall|k: u128| #[trigger] next.loads.contains_key(k) implies next.failover_units.contains_key(
        next.loads[k].load_description.fu_id,
    ) by {
        assert(state.loads.contains_key(k));
    }
}

/// Every member of a filtered sequence is a member of the sequence.
proof fn taken_is_of<A>(s: Seq<A>, pred: spec_fn(A) -> bool, j: int)
    requires
        0 <= j < s.filter(pred).len(),
    ensures
        exists|i: int| 0 <= i < s.len() && s[i] == s.filter(pred)[j],
{
    assert(s.filter(pred).contains(s.filter(pred)[j]));
    s.lemma_filter_contains_rev(pred, s.filter(pred)[j]);
    let i = choose|i: int| 0 <= i < s.len() && s[i] == s.filter(pred)[j];
    assert(0 <= i < s.len() && s[i] == s.filter(pred)[j]);
}

/// The load reports keep the cluster consistent.
pub proof fn lemma_with_loads_is_consistent(state: ClusterState, updates: Seq<LoadOrMoveCost>)
    requires
        state.consistent(),
    ensures
        state.with_loads(updates).consistent(),
    decreases updates.len(),
{
    if updates.len() == 0 {
        assert(state.admitted_loads(updates) =~= Seq::empty());
        assert(state.with_loads(updates) =~= state);
    } else {
        lemma_with_loads_is_consistent(state, updates.drop_last());
        assert(updates.drop_last().push(updates.last()) =~= updates);
        lemma_with_loads_push(state, updates.drop_last(), updates.last());
        lemma_with_load_is_consistent(state.with_loads(updates.drop_last()), updates.last());
    }
}

/// A merge keeps the cluster consistent: a consistent cluster is consistent
/// after any batch of updates. In particular no replica and no load report
/// is ever left with a partition that the cluster does not hold.
pub proof fn lemma_merged_is_consistent(state: ClusterState, batch: PendingUpdates)
    requires
        state.consistent(),
    ensures
        state.merged(batch).consistent(),
        state.merged(batch).references_resolve(),
{
    let s1 = state.with_nodes(batch.nodes);
    lemma_upsert_all_keeps_keys(state.nodes, batch.nodes, node_key());
    assert(s1.consistent());
    let s2 = s1.with_applications(batch.apps);
    lemma_upsert_all_keeps_keys(s1.apps, batch.apps, application_key());
    assert(s2.consistent());
    let s3 = s2.with_service_types(batch.service_types);
    lemma_upsert_all_keeps_keys(s2.service_types, batch.service_types, service_type_key());
    assert(s3.consistent());
    let s4 = s3.with_services(batch.services);
    lemma_upsert_all_keeps_keys(s3.services, batch.services, service_key());
    assert(s4.consistent());
    lemma_with_failover_units_is_consistent(s4, batch.failover_units);
    let s5 = s4.with_failover_units(batch.failover_units);
    lemma_with_loads_is_consistent(s5, batch.loads);
}

/// The cluster in which nothing is known is consistent.
pub proof fn lemma_empty_is_consistent()
    ensures
        ClusterState::empty().consistent(),
{
}

} // verus!
