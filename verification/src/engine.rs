//! The engine: queue, snapshot and scheduler tied into one refresh.

use crate::application::application::Application;
use crate::application::application_description::ApplicationDescription;
use crate::clock::now_utc;
use crate::error::EntityKind;
use crate::error::PlbError;
use crate::failoverunit::failover_unit::FailoverUnit;
use crate::failoverunit::failover_unit::FailoverUnitDescription;
use crate::load::load_or_move_cost::LoadOrMoveCost;
use crate::load::load_or_move_cost::LoadOrMoveCostDescription;
use crate::node::node::Node;
use crate::node::node_description::NodeDescription;
use crate::node::node_id::NodeId;
use crate::policy::greatest;
use crate::policy::is_greatest;
use crate::policy::lemma_greatest_exists;
use crate::policy::lemma_greatest;
use crate::policy::GreatestNodeId;
use crate::policy::PlacementPolicy;
use crate::queue::UpdateQueue;
use crate::scheduler::PLBScheduler;
use crate::scheduler::Phase;
use crate::searcher::is_ascending_listing;
use crate::searcher::lemma_ascending_is_the_listing;
use crate::searcher::partitions_off_target;
use crate::searcher::placement_actions;
use crate::searcher::search;
use crate::searcher::ActionView;
use crate::searcher::Searcher;
use crate::service::service::Service;
use crate::service::service_description::ServiceDescription;
use crate::servicetype::service_type::ServiceType;
use crate::servicetype::service_type_description::ServiceTypeDescription;
use crate::snapshot::ClusterSnapshot;
use crate::solver::add_replica_text;
use crate::solver::placements;
use crate::solver::solution_views;
use crate::solver::solve;
use crate::solver::Solution;
use crate::solver::SolutionView;
use crate::solver::Solver;
use crate::state::ClusterState;
use crate::state::PendingUpdates;
use crate::timestamp::Timestamp;
use vstd::prelude::*;

verus! {

/// The entities that stand for descriptions: what a queue holds once each
/// description has been taken in as an update.
pub open spec fn updates_of(
    nodes: Seq<NodeDescription>,
    apps: Seq<ApplicationDescription>,
    service_types: Seq<ServiceTypeDescription>,
    services: Seq<ServiceDescription>,
    failover_units: Seq<FailoverUnitDescription>,
    loads: Seq<LoadOrMoveCostDescription>,
) -> PendingUpdates {
    PendingUpdates {
        nodes: nodes.map_values(|d: NodeDescription| Node { node_description: d }),
        apps: apps,
        service_types: service_types.map_values(
            |d: ServiceTypeDescription| ServiceType { service_type_desc: d },
        ),
        services: services.map_values(|d: ServiceDescription| Service { service_description: d }),
        failover_units: failover_units.map_values(
            |d: FailoverUnitDescription| FailoverUnit { failover_unit_description: d },
        ),
        loads: loads.map_values(
            |d: LoadOrMoveCostDescription| LoadOrMoveCost { load_description: d },
        ),
    }
}

/// What one phase gives on `cluster`: the search of the phase, and then the
/// solver on what the search found.
pub open spec fn run_phase<P: PlacementPolicy>(
    policy: &P,
    cluster: ClusterState,
    phase: Phase,
) -> Result<Seq<SolutionView>, PlbError> {
    match search(cluster, phase) {
        Ok(actions) => solve(policy, cluster, actions),
        Err(e) => Err(e),
    }
}

/// What a refresh gives for the phases that are due, taken in order. The
/// first phase that fails ends the refresh with its error. Where none fails,
/// the proposals are those of the last phase: what an earlier phase
/// proposed is dropped. With no phase due there is no proposal.
pub open spec fn run_phases<P: PlacementPolicy>(
    policy: &P,
    cluster: ClusterState,
    phases: Seq<Phase>,
) -> Result<Seq<SolutionView>, PlbError>
    decreases phases.len(),
{
    if phases.len() == 0 {
        Ok(Seq::empty())
    } else {
        match run_phases(policy, cluster, phases.drop_last()) {
            Err(e) => Err(e),
            Ok(_) => run_phase(policy, cluster, phases.last()),
        }
    }
}

/// Once the first phases of a list have failed, the whole list fails in the
/// same way.
pub proof fn lemma_run_phases_fails_for_good<P: PlacementPolicy>(
    policy: &P,
    cluster: ClusterState,
    phases: Seq<Phase>,
    n: int,
)
    requires
        0 <= n <= phases.len(),
        run_phases(policy, cluster, phases.take(n)) is Err,
    ensures
        run_phases(policy, cluster, phases) == run_phases(policy, cluster, phases.take(n)),
    decreases phases.len(),
{
    if n < phases.len() {
        assert(phases.drop_last().take(n) =~= phases.take(n));
        lemma_run_phases_fails_for_good(policy, cluster, phases.drop_last(), n);
    } else {
        assert(phases.take(n) =~= phases);
    }
}

/// Placement by the baseline policy: where the cluster has a node, the one
/// partition of a placement action gets exactly one proposal, a new replica
/// on the node with the greatest identity.
pub proof fn lemma_baseline_places_on_greatest_node(
    cluster: ClusterState,
    partition: u128,
    top: u128,
)
    requires
        is_greatest(top, cluster.nodes.dom()),
    ensures
        solve(
            &GreatestNodeId,
            cluster,
            seq![ActionView::NewReplicaPlacement(seq![partition])],
        ) == Ok::<Seq<SolutionView>, PlbError>(
            seq![SolutionView::AddReplica(add_replica_text(partition, top))],
        ),
{
    let policy = &GreatestNodeId;
    let partitions = seq![partition];
    let actions = seq![ActionView::NewReplicaPlacement(partitions)];
    lemma_greatest(top, cluster.nodes.dom());
    assert(partitions.drop_last() =~= Seq::<u128>::empty());
    assert(partitions.last() == partition);
    assert(placements(policy, cluster, partitions.drop_last()) =~= Seq::<SolutionView>::empty());
    assert(placements(policy, cluster, partitions) =~= seq![
        SolutionView::AddReplica(add_replica_text(partition, top)),
    ]);
    assert(actions.drop_last() =~= Seq::<ActionView>::empty());
    assert(actions.last() == ActionView::NewReplicaPlacement(partitions));
    assert(solve(policy, cluster, actions.drop_last()) == Ok::<Seq<SolutionView>, PlbError>(
        Seq::empty(),
    ));
    assert(Seq::<SolutionView>::empty() + placements(policy, cluster, partitions) =~= placements(
        policy,
        cluster,
        partitions,
    ));
}

/// A cluster with a node gets one proposal for each partition from the
/// baseline policy: a new replica on the node with the greatest identity,
/// partition by partition in their order.
pub proof fn lemma_one_proposal_for_each_partition(cluster: ClusterState, partitions: Seq<u128>)
    requires
        exists|k: u128| cluster.nodes.contains_key(k),
    ensures
        greatest(cluster.nodes.dom()) is Some,
        placements(&GreatestNodeId, cluster, partitions).len() == partitions.len(),
        forall|i: int|
            0 <= i < partitions.len() ==> #[trigger] placements(
                &GreatestNodeId,
                cluster,
                partitions,
            )[i] == SolutionView::AddReplica(
                add_replica_text(partitions[i], greatest(cluster.nodes.dom())->0),
            ),
    decreases partitions.len(),
{
    let k = choose|k: u128| cluster.nodes.contains_key(k);
    assert(cluster.nodes.dom().contains(k));
    lemma_greatest_exists(cluster.nodes.dom());
    if partitions.len() > 0 {
        lemma_one_proposal_for_each_partition(cluster, partitions.drop_last());
    }
}

/// A cluster without nodes gets no proposal from the baseline policy,
/// however many partitions need a replica, and no error either.
pub proof fn lemma_no_node_no_proposal(cluster: ClusterState, partitions: Seq<u128>)
    requires
        forall|k: u128| !cluster.nodes.contains_key(k),
    ensures
        placements(&GreatestNodeId, cluster, partitions) == Seq::<SolutionView>::empty(),
    decreases partitions.len(),
{
    lemma_greatest(0, cluster.nodes.dom());
    if partitions.len() > 0 {
        lemma_no_node_no_proposal(cluster, partitions.drop_last());
    }
}

/// Nothing known, nothing to do: on a cluster in which nothing is known the
/// placement phase finds no action, the solver proposes nothing, and
/// neither fails.
pub proof fn lemma_empty_cluster_has_no_work<P: PlacementPolicy>(policy: &P)
    ensures
        search(ClusterState::empty(), Phase::Placement) == Ok::<Seq<ActionView>, PlbError>(
            Seq::empty(),
        ),
        run_phase(policy, ClusterState::empty(), Phase::Placement) == Ok::<
            Seq<SolutionView>,
            PlbError,
        >(Seq::empty()),
{
    let cluster = ClusterState::empty();
    let none = Seq::<u128>::empty();
    assert(is_ascending_listing(none, partitions_off_target(cluster, true)));
    assert(is_ascending_listing(none, partitions_off_target(cluster, false)));
    lemma_ascending_is_the_listing(none, partitions_off_target(cluster, true));
    lemma_ascending_is_the_listing(none, partitions_off_target(cluster, false));
    assert(placement_actions(cluster) =~= Seq::<ActionView>::empty());
}

/// The placement and load-balancing engine. It takes updates of the cluster
/// into a queue, and on a refresh merges them into its snapshot, asks the
/// scheduler which phases are due, and searches and solves each of them.
/// A refresh runs to its end before the next begins: the engine is owned by
/// whoever calls it.
pub struct PlacementAndLoadBalancing {
    /// The cluster as the last refresh left it. Nothing but a merge changes
    /// it.
    cluster_snapshot: ClusterSnapshot,
    /// The updates that have come since the last refresh.
    plb_update_queue: UpdateQueue,
    scheduler: PLBScheduler,
}

impl Default for PlacementAndLoadBalancing {
    /// An engine that knows nothing of the cluster and counts every phase
    /// from the Unix epoch.
    fn default() -> (plb: PlacementAndLoadBalancing)
        ensures
            plb.wf(),
            plb.cluster() == ClusterState::empty(),
            plb.pending() == PendingUpdates::empty(),
            plb.schedule().current() is None,
            forall|p: Phase| #[trigger] plb.schedule().last_run(p) == 0,
    {
        PlacementAndLoadBalancing {
            cluster_snapshot: ClusterSnapshot::new(),
            plb_update_queue: UpdateQueue::new(),
            scheduler: PLBScheduler::default(),
        }
    }
}

impl PlacementAndLoadBalancing {
    /// The cluster that the snapshot stands for.
    pub closed spec fn cluster(&self) -> ClusterState {
        self.cluster_snapshot@
    }

    /// The updates that wait for the next refresh.
    pub closed spec fn pending(&self) -> PendingUpdates {
        self.plb_update_queue@
    }

    /// The scheduler as it stands.
    pub closed spec fn schedule(&self) -> PLBScheduler {
        self.scheduler
    }

    /// The engine is in order: its snapshot is.
    pub closed spec fn wf(&self) -> bool {
        self.cluster_snapshot.wf()
    }

    /// An engine in order has a consistent cluster.
    pub proof fn lemma_wf_is_consistent(&self)
        requires
            self.wf(),
        ensures
            self.cluster().consistent(),
    {
    }

    /// An engine that knows the given cluster and counts every phase from
    /// the instant at which it is made, which the clock of the machine
    /// gives. The descriptions are merged as a batch of updates would be.
    pub fn new(
        nodes: Vec<NodeDescription>,
        apps: Vec<ApplicationDescription>,
        service_types: Vec<ServiceTypeDescription>,
        services: Vec<ServiceDescription>,
        failover_units: Vec<FailoverUnitDescription>,
        loads: Vec<LoadOrMoveCostDescription>,
    ) -> (plb: PlacementAndLoadBalancing)
        ensures
            plb.wf(),
            plb.cluster() == ClusterState::empty().merged(
                updates_of(nodes@, apps@, service_types@, services@, failover_units@, loads@),
            ),
            plb.pending() == PendingUpdates::empty(),
            plb.schedule().current() is None,
            forall|p: Phase, q: Phase| #[trigger]
                plb.schedule().last_run(p) == #[trigger] plb.schedule().last_run(q),
    {
        let now = now_utc();
        PlacementAndLoadBalancing::with_start_time(
            nodes,
            apps,
            service_types,
            services,
            failover_units,
            loads,
            now,
        )
    }

    /// An engine that knows the given cluster and counts every phase from
    /// `now`. The descriptions are merged as a batch of updates would be: of
    /// two descriptions with one key the later stays. A partition may refer
    /// to any partition among the descriptions, wherever it stands. Only a
    /// partition or a load report that would refer to a partition that is
    /// not held once all partitions are merged is passed over.
    pub fn with_start_time(
        nodes: Vec<NodeDescription>,
        apps: Vec<ApplicationDescription>,
        service_types: Vec<ServiceTypeDescription>,
        services: Vec<ServiceDescription>,
        failover_units: Vec<FailoverUnitDescription>,
        loads: Vec<LoadOrMoveCostDescription>,
        now: Timestamp,
    ) -> (plb: PlacementAndLoadBalancing)
        ensures
            plb.wf(),
            plb.cluster() == ClusterState::empty().merged(
                updates_of(nodes@, apps@, service_types@, services@, failover_units@, loads@),
            ),
            plb.pending() == PendingUpdates::empty(),
            plb.schedule().current() is None,
            forall|p: Phase| #[trigger] plb.schedule().last_run(p) == now.nanos,
    {
        let ghost wanted = updates_of(
            nodes@,
            apps@,
            service_types@,
            services@,
            failover_units@,
            loads@,
        );
        let mut batch = UpdateQueue::new();
        let ghost all_nodes = nodes@;
        for node_desc in it: nodes.into_iter()
            invariant
                it.seq() == all_nodes,
                batch@ == (PendingUpdates {
                    nodes: wanted.nodes.take(it.index()),
                    ..PendingUpdates::empty()
                }),
                wanted.nodes == all_nodes.map_values(
                    |d: NodeDescription| Node { node_description: d },
                ),
        {
            batch.push_node(Node { node_description: node_desc });
            assert(wanted.nodes.take(it.index() + 1) =~= wanted.nodes.take(it.index()).push(
                Node { node_description: node_desc },
            ));
        }
        assert(wanted.nodes.take(all_nodes.len() as int) =~= wanted.nodes);
        let ghost all_apps = apps@;
        for app_desc in it: apps.into_iter()
            invariant
                it.seq() == all_apps,
                wanted.apps == all_apps,
                batch@ == (PendingUpdates {
                    nodes: wanted.nodes,
                    apps: wanted.apps.take(it.index()),
                    ..PendingUpdates::empty()
                }),
        {
            batch.push_application(Application::new(app_desc));
            assert(wanted.apps.take(it.index() + 1) =~= wanted.apps.take(it.index()).push(
                app_desc,
            ));
        }
        assert(wanted.apps.take(all_apps.len() as int) =~= wanted.apps);
        let ghost all_types = service_types@;
        for service_type_desc in it: service_types.into_iter()
            invariant
                it.seq() == all_types,
                wanted.service_types == all_types.map_values(
                    |d: ServiceTypeDescription| ServiceType { service_type_desc: d },
                ),
                batch@ == (PendingUpdates {
                    nodes: wanted.nodes,
                    apps: wanted.apps,
                    service_types: wanted.service_types.take(it.index()),
                    ..PendingUpdates::empty()
                }),
        {
            batch.push_service_type(ServiceType { service_type_desc });
            assert(wanted.service_types.take(it.index() + 1) =~= wanted.service_types.take(
                it.index(),
            ).push(ServiceType { service_type_desc }));
        }
        assert(wanted.service_types.take(all_types.len() as int) =~= wanted.service_types);
        let ghost all_services = services@;
        for service_desc in it: services.into_iter()
            invariant
                it.seq() == all_services,
                wanted.services == all_services.map_values(
                    |d: ServiceDescription| Service { service_description: d },
                ),
                batch@ == (PendingUpdates {
                    nodes: wanted.nodes,
                    apps: wanted.apps,
                    service_types: wanted.service_types,
                    services: wanted.services.take(it.index()),
                    ..PendingUpdates::empty()
                }),
        {
            batch.push_service(Service { service_description: service_desc });
            assert(wanted.services.take(it.index() + 1) =~= wanted.services.take(it.index()).push(
                Service { service_description: service_desc },
            ));
        }
        assert(wanted.services.take(all_services.len() as int) =~= wanted.services);
        let ghost all_units = failover_units@;
        for fu_desc in it: failover_units.into_iter()
            invariant
                it.seq() == all_units,
                wanted.failover_units == all_units.map_values(
                    |d: FailoverUnitDescription| FailoverUnit { failover_unit_description: d },
                ),
                batch@ == (PendingUpdates {
                    nodes: wanted.nodes,
                    apps: wanted.apps,
                    service_types: wanted.service_types,
                    services: wanted.services,
                    failover_units: wanted.failover_units.take(it.index()),
                    ..PendingUpdates::empty()
                }),
        {
            batch.push_failover_unit(FailoverUnit { failover_unit_description: fu_desc });
            assert(wanted.failover_units.take(it.index() + 1) =~= wanted.failover_units.take(
                it.index(),
            ).push(FailoverUnit { failover_unit_description: fu_desc }));
        }
        assert(wanted.failover_units.take(all_units.len() as int) =~= wanted.failover_units);
        let ghost all_loads = loads@;
        for load_desc in it: loads.into_iter()
            invariant
                it.seq() == all_loads,
                wanted.loads == all_loads.map_values(
                    |d: LoadOrMoveCostDescription| LoadOrMoveCost { load_description: d },
                ),
                batch@ == (PendingUpdates {
                    nodes: wanted.nodes,
                    apps: wanted.apps,
                    service_types: wanted.service_types,
                    services: wanted.services,
                    failover_units: wanted.failover_units,
                    loads: wanted.loads.take(it.index()),
                }),
        {
            batch.push_load(LoadOrMoveCost { load_description: load_desc });
            assert(wanted.loads.take(it.index() + 1) =~= wanted.loads.take(it.index()).push(
                LoadOrMoveCost { load_description: load_desc },
            ));
        }
        assert(wanted.loads.take(all_loads.len() as int) =~= wanted.loads);
        assert(batch@ =~= wanted);
        let mut cluster_snapshot = ClusterSnapshot::new();
        cluster_snapshot.merge(batch);
        PlacementAndLoadBalancing {
            cluster_snapshot,
            plb_update_queue: UpdateQueue::new(),
            scheduler: PLBScheduler::new(now),
        }
    }
}

impl PlacementAndLoadBalancing {
    /// Puts the update of a node into the queue. The snapshot is not touched
    /// before the next refresh.
    pub fn update_node(&mut self, node_desc: NodeDescription)
        requires
            old(self).wf(),
        ensures
            final(self).wf(),
            final(self).cluster() == old(self).cluster(),
            final(self).schedule() == old(self).schedule(),
            final(self).pending() == (PendingUpdates {
                nodes: old(self).pending().nodes.push(Node { node_description: node_desc }),
                ..old(self).pending()
            }),
    {
        self.plb_update_queue.push_node(Node { node_description: node_desc });
    }

    /// Nodes cannot be deleted yet: the call says so and changes nothing.
    pub fn delete_node(&mut self, _node_id: NodeId) -> (r: Result<(), PlbError>)
        ensures
            r == Err::<(), PlbError>(PlbError::DeleteNotSupported(EntityKind::Node)),
            *final(self) == *old(self),
    {
        Err(PlbError::DeleteNotSupported(EntityKind::Node))
    }

    /// Puts the update of an application into the queue. The snapshot is not
    /// touched before the next refresh.
    pub fn update_application(&mut self, app_desc: ApplicationDescription)
        requires
            old(self).wf(),
        ensures
            final(self).wf(),
            final(self).cluster() == old(self).cluster(),
            final(self).schedule() == old(self).schedule(),
            final(self).pending() == (PendingUpdates {
                apps: old(self).pending().apps.push(app_desc),
                ..old(self).pending()
            }),
    {
        self.plb_update_queue.push_application(Application::new(app_desc));
    }

    /// Applications cannot be deleted yet: the call says so and changes
    /// nothing.
    pub fn delete_application(&mut self) -> (r: Result<(), PlbError>)
        ensures
            r == Err::<(), PlbError>(PlbError::DeleteNotSupported(EntityKind::Application)),
            *final(self) == *old(self),
    {
        Err(PlbError::DeleteNotSupported(EntityKind::Application))
    }

    /// Puts the update of a service type into the queue. The snapshot is not
    /// touched before the next refresh.
    pub fn update_service_type(&mut self, service_type_desc: ServiceTypeDescription)
        requires
            old(self).wf(),
        ensures
            final(self).wf(),
            final(self).cluster() == old(self).cluster(),
            final(self).schedule() == old(self).schedule(),
            final(self).pending() == (PendingUpdates {
                service_types: old(self).pending().service_types.push(
                    ServiceType { service_type_desc },
                ),
                ..old(self).pending()
            }),
    {
        self.plb_update_queue.push_service_type(ServiceType { service_type_desc });
    }

    /// Service types cannot be deleted yet: the call says so and changes
    /// nothing.
    pub fn delete_service_type(&mut self) -> (r: Result<(), PlbError>)
        ensures
            r == Err::<(), PlbError>(PlbError::DeleteNotSupported(EntityKind::ServiceType)),
            *final(self) == *old(self),
    {
        Err(PlbError::DeleteNotSupported(EntityKind::ServiceType))
    }

    /// Puts the update of a service into the queue. The snapshot is not
    /// touched before the next refresh.
    pub fn update_service(&mut self, service_desc: ServiceDescription)
        requires
            old(self).wf(),
        ensures
            final(self).wf(),
            final(self).cluster() == old(self).cluster(),
            final(self).schedule() == old(self).schedule(),
            final(self).pending() == (PendingUpdates {
                services: old(self).pending().services.push(
                    Service { service_description: service_desc },
                ),
                ..old(self).pending()
            }),
    {
        self.plb_update_queue.push_service(Service { service_description: service_desc });
    }

    /// Services cannot be deleted yet: the call says so and changes nothing.
    pub fn delete_service(&mut self) -> (r: Result<(), PlbError>)
        ensures
            r == Err::<(), PlbError>(PlbError::DeleteNotSupported(EntityKind::Service)),
            *final(self) == *old(self),
    {
        Err(PlbError::DeleteNotSupported(EntityKind::Service))
    }

    /// Puts the update of a partition into the queue. The snapshot is not
    /// touched before the next refresh.
    pub fn update_failover_unit(&mut self, fu_desc: FailoverUnitDescription)
        requires
            old(self).wf(),
        ensures
            final(self).wf(),
            final(self).cluster() == old(self).cluster(),
            final(self).schedule() == old(self).schedule(),
            final(self).pending() == (PendingUpdates {
                failover_units: old(self).pending().failover_units.push(
                    FailoverUnit { failover_unit_description: fu_desc },
                ),
                ..old(self).pending()
            }),
    {
        self.plb_update_queue.push_failover_unit(
            FailoverUnit { failover_unit_description: fu_desc },
        );
    }

    /// Partitions cannot be deleted yet: the call says so and changes
    /// nothing.
    pub fn delete_failover_unit(&mut self) -> (r: Result<(), PlbError>)
        ensures
            r == Err::<(), PlbError>(PlbError::DeleteNotSupported(EntityKind::FailoverUnit)),
            *final(self) == *old(self),
    {
        Err(PlbError::DeleteNotSupported(EntityKind::FailoverUnit))
    }

    /// Puts a load report into the queue. The snapshot is not touched before
    /// the next refresh.
    pub fn update_load_or_move_cost(&mut self, load_desc: LoadOrMoveCostDescription)
        requires
            old(self).wf(),
        ensures
            final(self).wf(),
            final(self).cluster() == old(self).cluster(),
            final(self).schedule() == old(self).schedule(),
            final(self).pending() == (PendingUpdates {
                loads: old(self).pending().loads.push(
                    LoadOrMoveCost { load_description: load_desc },
                ),
                ..old(self).pending()
            }),
    {
        self.plb_update_queue.push_load(LoadOrMoveCost { load_description: load_desc });
    }

    /// The snapshot, to read.
    pub fn snapshot(&self) -> (snapshot: &ClusterSnapshot)
        requires
            self.wf(),
        ensures
            snapshot.wf(),
            snapshot@ == self.cluster(),
    {
        &self.cluster_snapshot
    }

    /// Whether no update waits for the next refresh.
    pub fn has_no_pending_update(&self) -> (r: bool)
        ensures
            r == self.pending().is_empty(),
    {
        self.plb_update_queue.is_empty()
    }

    /// The instant at which `phase` was last selected.
    pub fn last_phase_time(&self, phase: Phase) -> (t: Timestamp)
        ensures
            t.nanos == self.schedule().last_run(phase),
    {
        self.scheduler.last_phase_time(phase)
    }

    /// Records `now` as the last run of `phase` alone.
    pub fn set_last_phase_time(&mut self, now: Timestamp, phase: Phase)
        requires
            old(self).wf(),
        ensures
            final(self).wf(),
            final(self).cluster() == old(self).cluster(),
            final(self).pending() == old(self).pending(),
            final(self).schedule().current() == old(self).schedule().current(),
            forall|p: Phase| #[trigger]
                final(self).schedule().last_run(p) == if p == phase {
                    now.nanos as int
                } else {
                    old(self).schedule().last_run(p)
                },
    {
        self.scheduler.set_last_phase_time(now, phase);
    }

    /// Merges a batch of updates that was taken out of a queue elsewhere,
    /// ahead of the updates that wait in the engine's own queue.
    pub fn merge_updates(&mut self, batch: UpdateQueue)
        requires
            old(self).wf(),
        ensures
            final(self).wf(),
            final(self).cluster() == old(self).cluster().merged(batch@),
            final(self).pending() == old(self).pending(),
            final(self).schedule() == old(self).schedule(),
    {
        self.cluster_snapshot.merge(batch);
    }

    /// One refresh with the baseline policy: see `refresh_with`.
    pub fn refresh(&mut self, now: Timestamp) -> (r: Result<Vec<Solution>, PlbError>)
        requires
            old(self).wf(),
        ensures
            final(self).wf(),
            final(self).cluster() == old(self).cluster().merged(old(self).pending()),
            final(self).cluster().consistent(),
            final(self).pending() == PendingUpdates::empty(),
            old(self).schedule().selected_at(now.nanos as int, &final(self).schedule()),
            match r {
                Ok(solutions) => run_phases(
                    &GreatestNodeId,
                    final(self).cluster(),
                    old(self).schedule().due_phases(now.nanos as int),
                ) == Ok::<Seq<SolutionView>, PlbError>(solution_views(solutions@)),
                Err(e) => run_phases(
                    &GreatestNodeId,
                    final(self).cluster(),
                    old(self).schedule().due_phases(now.nanos as int),
                ) == Err::<Seq<SolutionView>, PlbError>(e),
            },
    {
        self.refresh_with(now, &GreatestNodeId)
    }

    /// One refresh. Everything that waits in the queue is taken out at once
    /// and merged into the snapshot. Then the scheduler selects the phases
    /// that are due at `now`, and each of them is searched and solved on the
    /// merged snapshot, replicas being placed by `policy`. The proposals of
    /// the last phase are handed back; the first phase that cannot be
    /// served ends the refresh with its error. The queue is empty, the
    /// snapshot merged and the phases recorded as run either way.
    pub fn refresh_with<P: PlacementPolicy>(&mut self, now: Timestamp, policy: &P) -> (r: Result<
        Vec<Solution>,
        PlbError,
    >)
        requires
            old(self).wf(),
        ensures
            final(self).wf(),
            final(self).cluster() == old(self).cluster().merged(old(self).pending()),
            final(self).cluster().consistent(),
            final(self).pending() == PendingUpdates::empty(),
            old(self).schedule().selected_at(now.nanos as int, &final(self).schedule()),
            match r {
                Ok(solutions) => run_phases(
                    policy,
                    final(self).cluster(),
                    old(self).schedule().due_phases(now.nanos as int),
                ) == Ok::<Seq<SolutionView>, PlbError>(solution_views(solutions@)),
                Err(e) => run_phases(
                    policy,
                    final(self).cluster(),
                    old(self).schedule().due_phases(now.nanos as int),
                ) == Err::<Seq<SolutionView>, PlbError>(e),
            },
    {
        let batch = self.plb_update_queue.drain();
        self.cluster_snapshot.merge(batch);
        let phases = self.scheduler.get_current_phases(now);
        let mut solutions: Vec<Solution> = Vec::new();
        let ghost cluster = self.cluster_snapshot@;
        let mut i: usize = 0;
        assert(phases@.take(0) =~= Seq::empty());
        assert(solution_views(solutions@) =~= Seq::empty());
        while i < phases.len()
            invariant
                i <= phases.len(),
                self.cluster_snapshot.wf(),
                self.cluster_snapshot@ == cluster,
                cluster == old(self).cluster().merged(old(self).pending()),
                self.plb_update_queue@ == PendingUpdates::empty(),
                old(self).schedule().selected_at(now.nanos as int, &self.scheduler),
                phases@ == old(self).schedule().due_phases(now.nanos as int),
                run_phases(policy, cluster, phases@.take(i as int)) == Ok::<
                    Seq<SolutionView>,
                    PlbError,
                >(solution_views(solutions@)),
            decreases phases.len() - i,
        {
            let phase = phases[i];
            proof {
                assert(phases@.take(i + 1).drop_last() =~= phases@.take(i as int));
                assert(phases@.take(i + 1).last() == phase);
            }
            let searcher = Searcher::new(&self.cluster_snapshot);
            let solver = Solver::with_policy(&self.cluster_snapshot, policy);
            let searched = searcher.generate_actions(phase);
            match searched {
                Ok(actions) => {
                    let solved = solver.generate_solutions(actions);
                    match solved {
                        Ok(found) => {
                            solutions = found;
                        },
                        Err(e) => {
                            proof {
                                lemma_run_phases_fails_for_good(policy, cluster, phases@, i + 1);
                            }
                            return Err(e);
                        },
                    }
                },
                Err(e) => {
                    proof {
                        lemma_run_phases_fails_for_good(policy, cluster, phases@, i + 1);
                    }
                    return Err(e);
                },
            }
            i += 1;
        }
        assert(phases@.take(phases.len() as int) =~= phases@);
        Ok(solutions)
    }

    /// Which of two nodes that hold a secondary replica should rather become
    /// the primary: below zero for the first, above zero for the second,
    /// zero where it is all the same. The baseline compares the identities:
    /// the result is -1, 0 or 1 as the first identity is smaller than, the
    /// same as, or greater than the second.
    pub fn compare_node_for_promotion(
        &self,
        _service_name: &str,
        _fu_id: u128,
        node1: NodeId,
        node2: NodeId,
    ) -> (r: i32)
        ensures
            r == node1.spec_compare(node2),
    {
        node1.compare(&node2)
    }
}

} // verus!
