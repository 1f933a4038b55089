//! The searcher: what has to be done in a phase.

use crate::error::ActionKind;
use crate::error::PlbError;
use crate::failoverunit::failover_unit::FailoverUnit;
use crate::scheduler::Phase;
use crate::snapshot::ClusterSnapshot;
use crate::state::ClusterState;
use std::collections::BTreeMap;
use vstd::prelude::*;
use vstd::std_specs::btree::increasing_seq;
use vstd::std_specs::btree::spec_btree_map_iter;
use vstd::std_specs::cmp::OrdSpec;
use vstd::std_specs::iter::IteratorSpec;

verus! {

broadcast use vstd::laws_cmp::group_laws_cmp;

/// A piece of work that a phase found. An action names the partitions it is
/// about and holds nothing else of them.
#[derive(Debug, Clone)]
pub enum Action {
    /// These partitions need one more replica.
    NewReplicaPlacement(Vec<u128>),
    /// These partitions have more replicas than they should.
    Upgrade(Vec<u128>),
    /// Load is to be spread out.
    LoadBalancing,
    /// Load is to be packed together.
    Defragmentation,
    /// A placement breaks a constraint and is to be mended.
    FixConstraintViolation,
}

/// An action as a mathematical value.
pub enum ActionView {
    NewReplicaPlacement(Seq<u128>),
    Upgrade(Seq<u128>),
    LoadBalancing,
    Defragmentation,
    FixConstraintViolation,
}

impl View for Action {
    type V = ActionView;

    open spec fn view(&self) -> ActionView {
        match self {
            Action::NewReplicaPlacement(ids) => ActionView::NewReplicaPlacement(ids@),
            Action::Upgrade(ids) => ActionView::Upgrade(ids@),
            Action::LoadBalancing => ActionView::LoadBalancing,
            Action::Defragmentation => ActionView::Defragmentation,
            Action::FixConstraintViolation => ActionView::FixConstraintViolation,
        }
    }
}

impl ActionView {
    pub open spec fn kind(self) -> ActionKind {
        match self {
            ActionView::NewReplicaPlacement(_) => ActionKind::NewReplicaPlacement,
            ActionView::Upgrade(_) => ActionKind::Upgrade,
            ActionView::LoadBalancing => ActionKind::LoadBalancing,
            ActionView::Defragmentation => ActionKind::Defragmentation,
            ActionView::FixConstraintViolation => ActionKind::FixConstraintViolation,
        }
    }
}

impl Action {
    /// Which kind of action this is.
    pub fn kind(&self) -> (k: ActionKind)
        ensures
            k == self@.kind(),
    {
        match self {
            Action::NewReplicaPlacement(_) => ActionKind::NewReplicaPlacement,
            Action::Upgrade(_) => ActionKind::Upgrade,
            Action::LoadBalancing => ActionKind::LoadBalancing,
            Action::Defragmentation => ActionKind::Defragmentation,
            Action::FixConstraintViolation => ActionKind::FixConstraintViolation,
        }
    }
}

/// The actions of a list as mathematical values.
pub open spec fn action_views(actions: Seq<Action>) -> Seq<ActionView> {
    actions.map_values(|a: Action| a@)
}

/// `ids` lists exactly the members of `of`, each once, smallest first.
pub open spec fn is_ascending_listing(ids: Seq<u128>, of: Set<u128>) -> bool {
    &&& forall|i: int, j: int| 0 <= i < j < ids.len() ==> ids[i] < ids[j]
    &&& forall|k: u128| ids.contains(k) <==> of.contains(k)
}

/// The members of `of`, each once, smallest first. This is meant for the
/// finite sets that a snapshot gives.
pub open spec fn ascending(of: Set<u128>) -> Seq<u128> {
    choose|ids: Seq<u128>| is_ascending_listing(ids, of)
}

/// Whether a partition has fewer replicas than it should (`under`), or more.
pub open spec fn off_target(unit: FailoverUnit, under: bool) -> bool {
    if under {
        unit.failover_unit_description.replica_diff > 0
    } else {
        unit.failover_unit_description.replica_diff < 0
    }
}

/// The partitions that have fewer replicas than they should (`under`), or
/// more (`!under`).
pub open spec fn partitions_off_target(cluster: ClusterState, under: bool) -> Set<u128> {
    Set::new(
        |k: u128|
            cluster.failover_units.contains_key(k) && off_target(cluster.failover_units[k], under),
    )
}

/// What the placement phase finds: one action that names, in ascending
/// order, the partitions that need a replica, where there are any; then one
/// that names those with too many, where there are any.
pub open spec fn placement_actions(cluster: ClusterState) -> Seq<ActionView> {
    let under = ascending(partitions_off_target(cluster, true));
    let over = ascending(partitions_off_target(cluster, false));
    (if under.len() > 0 {
        seq![ActionView::NewReplicaPlacement(under)]
    } else {
        Seq::empty()
    }) + (if over.len() > 0 {
        seq![ActionView::Upgrade(over)]
    } else {
        Seq::empty()
    })
}

/// What the search of `phase` gives on `cluster`. Only placement is
/// searched for yet; the other phases say so.
pub open spec fn search(cluster: ClusterState, phase: Phase) -> Result<Seq<ActionView>, PlbError> {
    match phase {
        Phase::Placement => Ok(placement_actions(cluster)),
        Phase::LoadBalancing => Err(PlbError::PhaseNotImplemented(Phase::LoadBalancing)),
        Phase::ConstraintCheck => Err(PlbError::PhaseNotImplemented(Phase::ConstraintCheck)),
    }
}

/// A set has at most one ascending listing, so the order in which a search
/// names partitions is fixed by the snapshot alone.
pub proof fn lemma_ascending_listing_is_unique(a: Seq<u128>, b: Seq<u128>, of: Set<u128>)
    requires
        is_ascending_listing(a, of),
        is_ascending_listing(b, of),
    ensures
        a == b,
    decreases a.len(),
{
    if a.len() == 0 {
        if b.len() > 0 {
            assert(b.contains(b[0]));
            assert(a.contains(b[0]));
        }
        assert(a =~= b);
    } else {
        assert(a.contains(a.last()));
        assert(b.contains(a.last()));
        let top = a.last();
        let at = choose|i: int| 0 <= i < b.len() && b[i] == top;
        if at < b.len() - 1 {
            assert(b.contains(b.last()));
            assert(a.contains(b.last()));
            let back = choose|i: int| 0 <= i < a.len() && a[i] == b.last();
            assert(a[back] <= top);
        }
        assert(b.last() == top);
        let rest = of.remove(top);
        assert forall|k: u128| a.drop_last().contains(k) <==> rest.contains(k) by {
            if a.drop_last().contains(k) {
                let i = choose|i: int| 0 <= i < a.drop_last().len() && a.drop_last()[i] == k;
                assert(a[i] == k);
                assert(a.contains(k));
            }
            if rest.contains(k) {
                assert(a.contains(k));
                let i = choose|i: int| 0 <= i < a.len() && a[i] == k;
                assert(a.drop_last()[i] == k);
            }
        }
        assert forall|k: u128| b.drop_last().contains(k) <==> rest.contains(k) by {
            if b.drop_last().contains(k) {
                let i = choose|i: int| 0 <= i < b.drop_last().len() && b.drop_last()[i] == k;
                assert(b[i] == k);
                assert(b.contains(k));
            }
            if rest.contains(k) {
                assert(b.contains(k));
                let i = choose|i: int| 0 <= i < b.len() && b[i] == k;
                assert(b.drop_last()[i] == k);
            }
        }
        lemma_ascending_listing_is_unique(a.drop_last(), b.drop_last(), rest);
        assert(a =~= a.drop_last().push(top));
        assert(b =~= b.drop_last().push(top));
    }
}

/// The members of `of` below `bound`, each once, smallest first.
spec fn listing_below(of: Set<u128>, bound: nat) -> Seq<u128>
    decreases bound,
{
    if bound == 0 {
        Seq::empty()
    } else {
        let rest = listing_below(of, (bound - 1) as nat);
        if bound - 1 <= u128::MAX && of.contains((bound - 1) as u128) {
            rest.push((bound - 1) as u128)
        } else {
            rest
        }
    }
}

/// `listing_below` lists, in ascending order, exactly the members below the
/// bound.
proof fn lemma_listing_below(of: Set<u128>, bound: nat)
    ensures
        forall|i: int, j: int|
            0 <= i < j < listing_below(of, bound).len() ==> listing_below(of, bound)[i]
                < listing_below(of, bound)[j],
        forall|i: int|
            0 <= i < listing_below(of, bound).len() ==> (#[trigger] listing_below(of, bound)[i])
                < bound,
        forall|k: u128| listing_below(of, bound).contains(k) <==> (of.contains(k) && k < bound),
    decreases bound,
{
    if bound > 0 {
        let below = (bound - 1) as nat;
        lemma_listing_below(of, below);
        let rest = listing_below(of, below);
        let all = listing_below(of, bound);
        assert forall|k: u128| all.contains(k) <==> (of.contains(k) && k < bound) by {
            if all.contains(k) {
                let i = choose|i: int| 0 <= i < all.len() && all[i] == k;
                if i < rest.len() {
                    assert(rest[i] == k);
                    assert(rest.contains(k));
                }
            }
            if of.contains(k) && k < bound {
                if k < below {
                    assert(rest.contains(k));
                    let i = choose|i: int| 0 <= i < rest.len() && rest[i] == k;
                    assert(all[i] == k);
                } else {
                    assert(all[rest.len() as int] == k);
                }
            }
        }
    }
}

/// Every set of identifiers has its ascending listing, and `ascending`
/// names it.
pub proof fn lemma_ascending_lists(of: Set<u128>)
    ensures
        is_ascending_listing(ascending(of), of),
{
    let bound = (u128::MAX + 1) as nat;
    lemma_listing_below(of, bound);
    assert(is_ascending_listing(listing_below(of, bound), of));
}

/// An ascending listing of a set is the listing that `ascending` names.
pub proof fn lemma_ascending_is_the_listing(ids: Seq<u128>, of: Set<u128>)
    requires
        is_ascending_listing(ids, of),
    ensures
        ids == ascending(of),
{
    lemma_ascending_listing_is_unique(ids, ascending(of), of);
}

/// The keys that a walk of a map gives come in ascending order.
proof fn lemma_walk_ascends(keys: Seq<u128>)
    requires
        increasing_seq(keys),
    ensures
        forall|i: int, j: int| 0 <= i < j < keys.len() ==> keys[i] < keys[j],
{
    assert forall|i: int, j: int| 0 <= i < j < keys.len() implies keys[i] < keys[j] by {
        assert(keys[i].cmp_spec(&keys[j]) is Less);
    }
}

/// Walks the partitions in ascending order of their identifiers and lists
/// those that have fewer replicas than they should (`under`), or more.
fn list_off_target(failover_units: &BTreeMap<u128, FailoverUnit>, under: bool) -> (ids: Vec<u128>)
    ensures
        forall|i: int, j: int| 0 <= i < j < ids.len() ==> ids[i] < ids[j],
        forall|k: u128|
            ids@.contains(k) <==> (failover_units@.contains_key(k) && off_target(
                failover_units@[k],
                under,
            )),
{
    let mut ids: Vec<u128> = Vec::new();
    for entry in it: failover_units.iter()
        invariant
            it.seq() == spec_btree_map_iter(failover_units).remaining(),
            increasing_seq(it.seq().map_values(|kv: (&u128, &FailoverUnit)| *kv.0)),
            forall|i: int, j: int| 0 <= i < j < ids.len() ==> ids[i] < ids[j],
            forall|i: int, j: int|
                0 <= i < ids.len() && it.index() <= j < it.seq().len() ==> ids[i] < *it.seq()[j].0,
            forall|k: u128|
                ids@.contains(k) <==> exists|j: int|
                    0 <= j < it.index() && *(#[trigger] it.seq()[j]).0 == k && off_target(
                        *it.seq()[j].1,
                        under,
                    ),
    {
        let (fu_id, fu) = entry;
        let ghost keys = it.seq().map_values(|kv: (&u128, &FailoverUnit)| *kv.0);
        let ghost at = it.index();
        let ghost listed = ids@;
        proof {
            lemma_walk_ascends(keys);
            assert forall|j: int| at < j < it.seq().len() implies *fu_id < *it.seq()[j].0 by {
                assert(keys[at] == *fu_id);
                assert(keys[j] == *it.seq()[j].0);
            }
        }
        let wanted = if under {
            fu.replia_diff() > 0
        } else {
            fu.replia_diff() < 0
        };
        if wanted {
            ids.push(*fu_id);
        }
        proof {
            assert forall|k: u128|
                ids@.contains(k) <==> exists|j: int|
                    0 <= j < at + 1 && *(#[trigger] it.seq()[j]).0 == k && off_target(
                        *it.seq()[j].1,
                        under,
                    ) by {
                if ids@.contains(k) {
                    let a = choose|a: int| 0 <= a < ids@.len() && ids@[a] == k;
                    if a < listed.len() {
                        assert(listed[a] == k);
                        assert(listed.contains(k));
                    } else {
                        assert(*it.seq()[at].0 == k);
                    }
                }
                if exists|j: int|
                    0 <= j < at + 1 && *(#[trigger] it.seq()[j]).0 == k && off_target(
                        *it.seq()[j].1,
                        under,
                    ) {
                    let j = choose|j: int|
                        0 <= j < at + 1 && *(#[trigger] it.seq()[j]).0 == k && off_target(
                            *it.seq()[j].1,
                            under,
                        );
                    if j < at {
                        assert(listed.contains(k));
                        let a = choose|a: int| 0 <= a < listed.len() && listed[a] == k;
                        assert(ids@[a] == k);
                    } else {
                        assert(ids@[listed.len() as int] == k);
                    }
                }
            }
        }
    }
    proof {
        let all = spec_btree_map_iter(failover_units).remaining();
        assert forall|k: u128|
            ids@.contains(k) <==> (failover_units@.contains_key(k) && off_target(
                failover_units@[k],
                under,
            )) by {
            if failover_units@.contains_key(k) && off_target(failover_units@[k], under) {
                assert(all.contains((&k, &failover_units@[k])));
                let j = choose|j: int| 0 <= j < all.len() && all[j] == (&k, &failover_units@[k]);
                assert(*all[j].0 == k);
            }
        }
    }
    ids
}

/// Finds the work of a phase. A searcher borrows the snapshot for as long
/// as it lives and never changes it.
pub struct Searcher<'a> {
    snapshot: &'a ClusterSnapshot,
}

impl<'a> Searcher<'a> {
    /// The cluster that the searcher reads.
    pub closed spec fn cluster(&self) -> ClusterState {
        self.snapshot@
    }

    pub fn new(snapshot: &'a ClusterSnapshot) -> (s: Searcher<'a>)
        ensures
            s.cluster() == snapshot@,
    {
        Searcher { snapshot }
    }

    /// The actions that `phase` calls for on the snapshot. For the placement
    /// phase these are the actions of `placement_actions`; no action means
    /// that nothing is to be done. A phase for which no search is
    /// implemented yet gives an error that names it.
    pub fn generate_actions(&self, phase: Phase) -> (r: Result<Vec<Action>, PlbError>)
        ensures
            match r {
                Ok(actions) => search(self.cluster(), phase) == Ok::<Seq<ActionView>, PlbError>(
                    action_views(actions@),
                ),
                Err(e) => search(self.cluster(), phase) == Err::<Seq<ActionView>, PlbError>(e),
            },
    {
        match phase {
            Phase::Placement => {
                let fus_for_placement = list_off_target(&self.snapshot.failover_units, true);
                let fus_for_upgrade = list_off_target(&self.snapshot.failover_units, false);
                proof {
                    let cluster = self.cluster();
                    assert(is_ascending_listing(
                        fus_for_placement@,
                        partitions_off_target(cluster, true),
                    ));
                    assert(is_ascending_listing(
                        fus_for_upgrade@,
                        partitions_off_target(cluster, false),
                    ));
                    lemma_ascending_is_the_listing(
                        fus_for_placement@,
                        partitions_off_target(cluster, true),
                    );
                    lemma_ascending_is_the_listing(
                        fus_for_upgrade@,
                        partitions_off_target(cluster, false),
                    );
                }
                let mut actions: Vec<Action> = Vec::new();
                if fus_for_placement.len() > 0 {
                    actions.push(Action::NewReplicaPlacement(fus_for_placement));
                }
                if fus_for_upgrade.len() > 0 {
                    actions.push(Action::Upgrade(fus_for_upgrade));
                }
                assert(action_views(actions@) =~= placement_actions(self.cluster()));
                Ok(actions)
            },
            Phase::LoadBalancing => Err(PlbError::PhaseNotImplemented(Phase::LoadBalancing)),
            Phase::ConstraintCheck => Err(PlbError::PhaseNotImplemented(Phase::ConstraintCheck)),
        }
    }
}

} // verus!
