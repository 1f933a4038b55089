//! Placement policies: which node takes a new replica.

use crate::node::node::Node;
use crate::node::node_id::NodeId;
use crate::snapshot::ClusterSnapshot;
use crate::state::ClusterState;
use std::collections::BTreeMap;
use vstd::prelude::*;

verus! {

/// `k` is a member of `keys` and no member is greater.
pub open spec fn is_greatest(k: u128, keys: Set<u128>) -> bool {
    keys.contains(k) && forall|other: u128| keys.contains(other) ==> other <= k
}

/// The greatest member of `keys`, where there is one.
pub open spec fn greatest(keys: Set<u128>) -> Option<u128> {
    if exists|k: u128| is_greatest(k, keys) {
        Some(choose|k: u128| is_greatest(k, keys))
    } else {
        None
    }
}

/// A set has at most one greatest member, and the empty set has none.
pub proof fn lemma_greatest(k: u128, keys: Set<u128>)
    ensures
        is_greatest(k, keys) ==> greatest(keys) == Some(k),
        (forall|other: u128| !keys.contains(other)) ==> greatest(keys) is None,
{
    if is_greatest(k, keys) {
        let chosen = choose|c: u128| is_greatest(c, keys);
        assert(is_greatest(chosen, keys));
        assert(chosen <= k && k <= chosen);
    }
}

/// Among the members of `keys` that are at most `bound` one is the
/// greatest, where there is any.
proof fn lemma_greatest_up_to(keys: Set<u128>, bound: nat)
    requires
        bound <= u128::MAX,
        exists|k: u128| keys.contains(k) && k <= bound,
    ensures
        exists|m: u128|
            keys.contains(m) && m <= bound && forall|other: u128|
                keys.contains(other) && other <= bound ==> other <= m,
    decreases bound,
{
    let top = bound as u128;
    if keys.contains(top) {
        assert(keys.contains(top) && top <= bound && forall|other: u128|
            keys.contains(other) && other <= bound ==> other <= top);
    } else {
        let k = choose|k: u128| keys.contains(k) && k <= bound;
        assert(k < bound);
        let below = (bound - 1) as nat;
        assert(keys.contains(k) && k <= below);
        lemma_greatest_up_to(keys, below);
        let m = choose|m: u128|
            keys.contains(m) && m <= below && forall|other: u128|
                keys.contains(other) && other <= below ==> other <= m;
        assert(keys.contains(m) && m <= bound && forall|other: u128|
            keys.contains(other) && other <= bound ==> other <= m);
    }
}

/// A set with a member has a greatest member: a cluster with a node has a
/// node that the baseline policy chooses.
pub proof fn lemma_greatest_exists(keys: Set<u128>)
    requires
        exists|k: u128| keys.contains(k),
    ensures
        exists|m: u128| is_greatest(m, keys),
        greatest(keys) is Some,
        is_greatest(greatest(keys)->0, keys),
{
    let k = choose|k: u128| keys.contains(k);
    assert(keys.contains(k) && k <= u128::MAX);
    lemma_greatest_up_to(keys, u128::MAX as nat);
    let m = choose|m: u128|
        keys.contains(m) && m <= u128::MAX && forall|other: u128|
            keys.contains(other) && other <= u128::MAX ==> other <= m;
    assert(is_greatest(m, keys));
}

/// Calls `BTreeMap::last_key_value` of the standard library and hands back
/// the key alone. Trusted: the key is the greatest key of the map, and there
/// is none exactly where the map is empty.
#[verifier::external_body]
pub(crate) fn last_key<V>(map: &BTreeMap<u128, V>) -> (r: Option<u128>)
    ensures
        match r {
            Some(k) => is_greatest(k, map@.dom()),
            None => forall|other: u128| !map@.contains_key(other),
        },
{
    match map.last_key_value() {
        Some((k, _)) => Some(*k),
        None => None,
    }
}

/// The rule by which a node is chosen for a new replica of a partition. The
/// solver asks the policy and does nothing else to choose, so a policy can
/// be exchanged without a change to the solver.
pub trait PlacementPolicy {
    /// The node that the policy chooses in `cluster` for a new replica of
    /// `partition`, by the value of its identity. `None` where no node can
    /// take the replica.
    spec fn target(&self, cluster: ClusterState, partition: u128) -> Option<u128>;

    /// Chooses the node. A node that is chosen is a node of the snapshot.
    fn choose_node(&self, snapshot: &ClusterSnapshot, partition: u128) -> (r: Option<NodeId>)
        ensures
            r matches Some(id) ==> snapshot@.nodes.contains_key(id.id_value),
            match r {
                Some(id) => self.target(snapshot@, partition) == Some(id.id_value),
                None => self.target(snapshot@, partition) is None,
            },
    ;
}

/// The baseline policy: the node with the greatest identity takes every
/// replica. It looks at no load and no constraint, and stands in for a
/// policy that does.
pub struct GreatestNodeId;

impl PlacementPolicy for GreatestNodeId {
    open spec fn target(&self, cluster: ClusterState, partition: u128) -> Option<u128> {
        greatest(cluster.nodes.dom())
    }

    fn choose_node(&self, snapshot: &ClusterSnapshot, partition: u128) -> (r: Option<NodeId>) {
        match last_key::<Node>(&snapshot.nodes) {
            Some(k) => {
                proof {
                    lemma_greatest(k, snapshot@.nodes.dom());
                }
                Some(NodeId::new(k))
            },
            None => {
                proof {
                    lemma_greatest(0, snapshot@.nodes.dom());
                }
                None
            },
        }
    }
}

} // verus!
