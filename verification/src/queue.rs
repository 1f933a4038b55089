//! The updates that wait for the next refresh.

use crate::application::application::Application;
use crate::failoverunit::failover_unit::FailoverUnit;
use crate::load::load_or_move_cost::LoadOrMoveCost;
use crate::node::node::Node;
use crate::service::service::Service;
use crate::servicetype::service_type::ServiceType;
use crate::state::descriptions;
use crate::state::PendingUpdates;
use std::collections::VecDeque;
use vstd::prelude::*;

verus! {

/// One queue for each kind of entity. Each queue keeps its updates in the
/// order in which they came and has no bound. Putting an update in never
/// fails and looks at nothing but the queue.
pub struct UpdateQueue {
    pub(crate) node_update_queue: VecDeque<Node>,
    pub(crate) app_update_queue: VecDeque<Application>,
    pub(crate) service_type_update_queue: VecDeque<ServiceType>,
    pub(crate) service_update_queue: VecDeque<Service>,
    pub(crate) failover_unit_update_queue: VecDeque<FailoverUnit>,
    pub(crate) load_update_queue: VecDeque<LoadOrMoveCost>,
}

impl View for UpdateQueue {
    type V = PendingUpdates;

    open(crate) spec fn view(&self) -> PendingUpdates {
        PendingUpdates {
            nodes: self.node_update_queue@,
            apps: descriptions(self.app_update_queue@),
            service_types: self.service_type_update_queue@,
            services: self.service_update_queue@,
            failover_units: self.failover_unit_update_queue@,
            loads: self.load_update_queue@,
        }
    }
}

impl Default for UpdateQueue {
    fn default() -> (q: UpdateQueue)
        ensures
            q@ == PendingUpdates::empty(),
    {
        UpdateQueue::new()
    }
}

impl UpdateQueue {
    /// The queue in which nothing waits.
    pub fn new() -> (q: UpdateQueue)
        ensures
            q@ == PendingUpdates::empty(),
    {
        let q = UpdateQueue {
            node_update_queue: VecDeque::new(),
            app_update_queue: VecDeque::new(),
            service_type_update_queue: VecDeque::new(),
            service_update_queue: VecDeque::new(),
            failover_unit_update_queue: VecDeque::new(),
            load_update_queue: VecDeque::new(),
        };
        assert(q@ =~= PendingUpdates::empty());
        q
    }

    /// Whether nothing waits.
    pub fn is_empty(&self) -> (r: bool)
        ensures
            r == self@.is_empty(),
    {
        self.node_update_queue.len() == 0 && self.app_update_queue.len() == 0
            && self.service_type_update_queue.len() == 0 && self.service_update_queue.len() == 0
            && self.failover_unit_update_queue.len() == 0 && self.load_update_queue.len() == 0
    }

    /// Puts the update of a node behind those that wait.
    pub fn push_node(&mut self, node: Node)
        ensures
            final(self)@ == (PendingUpdates { nodes: old(self)@.nodes.push(node), ..old(self)@ }),
    {
        self.node_update_queue.push_back(node);
    }

    /// Puts the update of an application behind those that wait.
    pub fn push_application(&mut self, app: Application)
        ensures
            final(self)@ == (PendingUpdates {
                apps: old(self)@.apps.push(app.desc()),
                ..old(self)@
            }),
    {
        self.app_update_queue.push_back(app);
        assert(descriptions(self.app_update_queue@) =~= descriptions(old(self).app_update_queue@).push(
            app.desc(),
        ));
    }

    /// Puts the update of a service type behind those that wait.
    pub fn push_service_type(&mut self, service_type: ServiceType)
        ensures
            final(self)@ == (PendingUpdates {
                service_types: old(self)@.service_types.push(service_type),
                ..old(self)@
            }),
    {
        self.service_type_update_queue.push_back(service_type);
    }

    /// Puts the update of a service behind those that wait.
    pub fn push_service(&mut self, service: Service)
        ensures
            final(self)@ == (PendingUpdates {
                services: old(self)@.services.push(service),
                ..old(self)@
            }),
    {
        self.service_update_queue.push_back(service);
    }

    /// Puts the update of a partition behind those that wait.
    pub fn push_failover_unit(&mut self, unit: FailoverUnit)
        ensures
            final(self)@ == (PendingUpdates {
                failover_units: old(self)@.failover_units.push(unit),
                ..old(self)@
            }),
    {
        self.failover_unit_update_queue.push_back(unit);
    }

    /// Puts a load report behind those that wait.
    pub fn push_load(&mut self, load: LoadOrMoveCost)
        ensures
            final(self)@ == (PendingUpdates { loads: old(self)@.loads.push(load), ..old(self)@ }),
    {
        self.load_update_queue.push_back(load);
    }

    /// Takes out everything that waits, all six kinds at once, and leaves
    /// the queue empty. What is handed back keeps the order of each kind.
    pub fn drain(&mut self) -> (batch: UpdateQueue)
        ensures
            batch@ == old(self)@,
            final(self)@ == PendingUpdates::empty(),
    {
        let mut batch = UpdateQueue::new();
        core::mem::swap(self, &mut batch);
        batch
    }
}

} // verus!
