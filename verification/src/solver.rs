//! The solver: from what has to be done to what is proposed.

use crate::error::PlbError;
use crate::node::node_id::NodeId;
use crate::policy::GreatestNodeId;
use crate::policy::PlacementPolicy;
use crate::searcher::action_views;
use crate::searcher::Action;
use crate::searcher::ActionView;
use crate::snapshot::ClusterSnapshot;
use crate::state::ClusterState;
use crate::text::hyphenated;
use crate::text::hyphenated_string;
use vstd::prelude::*;
use vstd::string::*;

verus! {

/// A proposal to whoever runs the cluster. A proposal is text that names
/// the partition and the node it is about; it refers to nothing in the
/// snapshot, and making it changes nothing.
#[derive(Debug, Clone, PartialEq, Eq)]
pub enum Solution {
    AddReplica(String),
    DeleteReplica(String),
    MoveReplica(String),
    SwapReplica(String),
}

/// A proposal as a mathematical value.
pub enum SolutionView {
    AddReplica(Seq<char>),
    DeleteReplica(Seq<char>),
    MoveReplica(Seq<char>),
    SwapReplica(Seq<char>),
}

impl View for Solution {
    type V = SolutionView;

    open spec fn view(&self) -> SolutionView {
        match self {
            Solution::AddReplica(text) => SolutionView::AddReplica(text@),
            Solution::DeleteReplica(text) => SolutionView::DeleteReplica(text@),
            Solution::MoveReplica(text) => SolutionView::MoveReplica(text@),
            Solution::SwapReplica(text) => SolutionView::SwapReplica(text@),
        }
    }
}

impl Solution {
    /// The text of the proposal.
    pub fn text(&self) -> (t: &str)
        ensures
            t@ == match self@ {
                SolutionView::AddReplica(text) => text,
                SolutionView::DeleteReplica(text) => text,
                SolutionView::MoveReplica(text) => text,
                SolutionView::SwapReplica(text) => text,
            },
    {
        match self {
            Solution::AddReplica(text) => text.as_str(),
            Solution::DeleteReplica(text) => text.as_str(),
            Solution::MoveReplica(text) => text.as_str(),
            Solution::SwapReplica(text) => text.as_str(),
        }
    }
}

/// The proposals of a list as mathematical values.
pub open spec fn solution_views(solutions: Seq<Solution>) -> Seq<SolutionView> {
    solutions.map_values(|s: Solution| s@)
}

/// The text that proposes a new replica of `partition` on `node`: the
/// partition in hyphenated form, the node as its identity is written out.
pub open spec fn add_replica_text(partition: u128, node: u128) -> Seq<char> {
    "Partition "@ + hyphenated(partition) + ": AddReplica on Node "@ + (NodeId {
        id_value: node,
    }).text()
}

/// What is proposed for one partition that needs a replica: a new replica
/// on the node that the policy chooses, and nothing where it chooses none.
pub open spec fn placement<P: PlacementPolicy>(
    policy: &P,
    cluster: ClusterState,
    partition: u128,
) -> Seq<SolutionView> {
    match policy.target(cluster, partition) {
        Some(node) => seq![SolutionView::AddReplica(add_replica_text(partition, node))],
        None => Seq::empty(),
    }
}

/// What is proposed for partitions that need a replica, in their order.
pub open spec fn placements<P: PlacementPolicy>(
    policy: &P,
    cluster: ClusterState,
    partitions: Seq<u128>,
) -> Seq<SolutionView>
    decreases partitions.len(),
{
    if partitions.len() == 0 {
        Seq::empty()
    } else {
        placements(policy, cluster, partitions.drop_last()) + placement(
            policy,
            cluster,
            partitions.last(),
        )
    }
}

/// What the solver makes of `actions`, taken in order. Placement actions
/// give their proposals one after the other. The first action of another
/// kind ends the work with an error that names its kind.
pub open spec fn solve<P: PlacementPolicy>(
    policy: &P,
    cluster: ClusterState,
    actions: Seq<ActionView>,
) -> Result<Seq<SolutionView>, PlbError>
    decreases actions.len(),
{
    if actions.len() == 0 {
        Ok(Seq::empty())
    } else {
        match solve(policy, cluster, actions.drop_last()) {
            Err(e) => Err(e),
            Ok(solutions) => match actions.last() {
                ActionView::NewReplicaPlacement(partitions) => Ok(
                    solutions + placements(policy, cluster, partitions),
                ),
                other => Err(PlbError::ActionNotImplemented(other.kind())),
            },
        }
    }
}

/// Writes the proposal of a new replica of `partition` on `node`.
pub fn add_replica(partition: u128, node: NodeId) -> (s: Solution)
    ensures
        s@ == SolutionView::AddReplica(add_replica_text(partition, node.id_value)),
{
    let mut text = String::from_str("Partition ");
    let id = hyphenated_string(partition);
    text.append(id.as_str());
    text.append(": AddReplica on Node ");
    let node_text = node.debug_string();
    text.append(node_text.as_str());
    assert(text@ =~= add_replica_text(partition, node.id_value));
    Solution::AddReplica(text)
}

/// Resolves actions into proposals by a placement policy. A solver borrows
/// the snapshot for as long as it lives and never changes it.
pub struct Solver<'a, P: PlacementPolicy> {
    snapshot: &'a ClusterSnapshot,
    policy: &'a P,
}

impl<'a> Solver<'a, GreatestNodeId> {
    /// A solver with the baseline policy.
    pub fn new(snapshot: &'a ClusterSnapshot) -> (s: Solver<'a, GreatestNodeId>)
        ensures
            s.cluster() == snapshot@,
    {
        Solver { snapshot, policy: &GreatestNodeId }
    }
}

impl<'a, P: PlacementPolicy> Solver<'a, P> {
    /// The cluster that the solver reads.
    pub closed spec fn cluster(&self) -> ClusterState {
        self.snapshot@
    }

    /// The policy by which the solver places replicas.
    pub closed spec fn policy(&self) -> &P {
        self.policy
    }

    /// A solver that places replicas by `policy`.
    pub fn with_policy(snapshot: &'a ClusterSnapshot, policy: &'a P) -> (s: Solver<'a, P>)
        ensures
            s.cluster() == snapshot@,
            s.policy() == policy,
    {
        Solver { snapshot, policy }
    }

    /// Adds to `solutions` what is proposed for each of `partitions`.
    fn place(&self, partitions: &Vec<u128>, solutions: &mut Vec<Solution>)
        ensures
            solution_views(final(solutions)@) == solution_views(old(solutions)@) + placements(
                self.policy(),
                self.cluster(),
                partitions@,
            ),
    {
        let ghost start = solution_views(solutions@);
        let mut i: usize = 0;
        assert(partitions@.take(0) =~= Seq::empty());
        assert(solution_views(solutions@) =~= start + Seq::empty());
        while i < partitions.len()
            invariant
                i <= partitions.len(),
                solution_views(solutions@) == start + placements(
                    self.policy(),
                    self.cluster(),
                    partitions@.take(i as int),
                ),
            decreases partitions.len() - i,
        {
            let fu_id = partitions[i];
            let ghost held = solutions@;
            match self.policy.choose_node(self.snapshot, fu_id) {
                Some(node_id) => {
                    solutions.push(add_replica(fu_id, node_id));
                    assert(solution_views(solutions@) =~= solution_views(held) + placement(
                        self.policy(),
                        self.cluster(),
                        fu_id,
                    ));
                },
                None => {
                    assert(solution_views(solutions@) =~= solution_views(held) + placement(
                        self.policy(),
                        self.cluster(),
                        fu_id,
                    ));
                },
            }
            proof {
                let next = partitions@.take(i + 1);
                assert(next.drop_last() =~= partitions@.take(i as int));
                assert(next.last() == fu_id);
                assert(solution_views(solutions@) =~= start + placements(
                    self.policy(),
                    self.cluster(),
                    next,
                ));
            }
            i += 1;
        }
        assert(partitions@.take(partitions.len() as int) =~= partitions@);
    }

    /// Resolves `actions`, in order, into proposals. For every partition of
    /// a placement action the policy chooses a node, and a new replica on
    /// that node is proposed; a partition for which the policy has no node
    /// is passed over. An action of a kind that cannot be resolved yet ends
    /// the work with an error that names the kind.
    pub fn generate_solutions(&self, actions: Vec<Action>) -> (r: Result<Vec<Solution>, PlbError>)
        ensures
            match r {
                Ok(solutions) => solve(self.policy(), self.cluster(), action_views(actions@))
                    == Ok::<Seq<SolutionView>, PlbError>(solution_views(solutions@)),
                Err(e) => solve(self.policy(), self.cluster(), action_views(actions@)) == Err::<
                    Seq<SolutionView>,
                    PlbError,
                >(e),
            },
    {
        let mut solutions: Vec<Solution> = Vec::new();
        let ghost all = action_views(actions@);
        let mut i: usize = 0;
        assert(all.take(0) =~= Seq::empty());
        assert(solution_views(solutions@) =~= Seq::empty());
        while i < actions.len()
            invariant
                i <= actions.len(),
                all == action_views(actions@),
                solve(self.policy(), self.cluster(), all.take(i as int)) == Ok::<
                    Seq<SolutionView>,
                    PlbError,
                >(solution_views(solutions@)),
            decreases actions.len() - i,
        {
            proof {
                assert(all.take(i + 1).drop_last() =~= all.take(i as int));
                assert(all.take(i + 1).last() == actions@[i as int]@);
            }
            match &actions[i] {
                Action::NewReplicaPlacement(fu_ids) => {
                    self.place(fu_ids, &mut solutions);
                },
                other => {
                    let kind = other.kind();
                    proof {
                        lemma_solve_fails_for_good(
                            self.policy(),
                            self.cluster(),
                            all,
                            i + 1,
                        );
                    }
                    return Err(PlbError::ActionNotImplemented(kind));
                },
            }
            i += 1;
        }
        assert(all.take(actions.len() as int) =~= all);
        Ok(solutions)
    }
}

/// Once the solver has failed on the first actions of a list, it fails in
/// the same way on the whole list.
pub proof fn lemma_solve_fails_for_good<P: PlacementPolicy>(
    policy: &P,
    cluster: ClusterState,
    actions: Seq<ActionView>,
    n: int,
)
    requires
        0 <= n <= actions.len(),
        solve(policy, cluster, actions.take(n)) is Err,
    ensures
        solve(policy, cluster, actions) == solve(policy, cluster, actions.take(n)),
    decreases actions.len(),
{
    if n < actions.len() {
        assert(actions.drop_last().take(n) =~= actions.take(n));
        lemma_solve_fails_for_good(policy, cluster, actions.drop_last(), n);
    } else {
        assert(actions.take(n) =~= actions);
    }
}

} // verus!
