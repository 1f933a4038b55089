//! Which updates of partitions a merge takes in.
//!
//! A replica names the partition that it belongs to. A merge must not leave
//! a replica whose partition the snapshot does not hold, so an update of a
//! partition is judged against the partitions that are held once the whole
//! batch is merged. An update may therefore refer to a partition that comes
//! later in the same batch, and two updates may refer to each other.

use crate::failoverunit::failover_unit::FailoverUnit;
use vstd::prelude::*;

verus! {

/// Every replica of `unit` belongs to a partition of `held`.
pub open spec fn replicas_within(unit: FailoverUnit, held: Set<u128>) -> bool {
    forall|r: u128| #[trigger]
        unit.replicas().contains_key(r) ==> held.contains(unit.replicas()[r].fu_id)
}

/// Some update is about partition `k` and has every replica in a partition
/// of `held`.
pub open spec fn carried(k: u128, held: Set<u128>, updates: Seq<FailoverUnit>) -> bool {
    exists|i: int|
        0 <= i < updates.len() && (#[trigger] updates[i]).failover_unit_description.id == k
            && replicas_within(updates[i], held)
}

/// `held` stands on its own: each of its partitions was held before
/// (`base`) or is carried by an update whose replicas stay within `held`.
pub open spec fn stands(held: Set<u128>, base: Set<u128>, updates: Seq<FailoverUnit>) -> bool {
    forall|k: u128| #[trigger] held.contains(k) ==> base.contains(k) || carried(k, held, updates)
}

/// The partitions that are held after `updates` are merged into a snapshot
/// that held `base`: the greatest set that stands on its own. A partition is
/// left out only where every update of it has a replica in a partition that
/// is left out too.
pub open spec fn held_after(base: Set<u128>, updates: Seq<FailoverUnit>) -> Set<u128> {
    Set::new(
        |k: u128|
            exists|held: Set<u128>| stands(held, base, updates) && #[trigger] held.contains(k),
    )
}

/// The test that an update passes where every replica of it belongs to a
/// partition of `held`.
pub open spec fn within(held: Set<u128>) -> spec_fn(FailoverUnit) -> bool {
    |u: FailoverUnit| replicas_within(u, held)
}

/// The updates that are taken in, in their order: those whose replicas all
/// belong to partitions of `held`.
pub open spec fn admitted(updates: Seq<FailoverUnit>, held: Set<u128>) -> Seq<FailoverUnit> {
    updates.filter(within(held))
}

/// The partitions that the updates are about.
pub open spec fn named(updates: Seq<FailoverUnit>) -> Set<u128> {
    Set::new(
        |k: u128|
            exists|i: int|
                0 <= i < updates.len() && (#[trigger] updates[i]).failover_unit_description.id == k,
    )
}

/// What is held after a merge stands on its own, holds all that was held
/// before, and holds every set that stands on its own.
pub proof fn lemma_held_after(base: Set<u128>, updates: Seq<FailoverUnit>)
    ensures
        stands(held_after(base, updates), base, updates),
        forall|k: u128| base.contains(k) ==> held_after(base, updates).contains(k),
        forall|held: Set<u128>, k: u128|
            stands(held, base, updates) && #[trigger] held.contains(k) ==> held_after(
                base,
                updates,
            ).contains(k),
        forall|k: u128| #[trigger]
            held_after(base, updates).contains(k) ==> base.contains(k) || named(updates).contains(k),
{
    let goal = held_after(base, updates);
    assert(stands(base, base, updates));
    assert forall|k: u128| #[trigger] goal.contains(k) implies base.contains(k) || carried(
        k,
        goal,
        updates,
    ) by {
        let held = choose|held: Set<u128>| stands(held, base, updates) && #[trigger] held.contains(k);
        if !base.contains(k) {
            assert(carried(k, held, updates));
            let i = choose|i: int|
                0 <= i < updates.len() && (#[trigger] updates[i]).failover_unit_description.id == k
                    && replicas_within(updates[i], held);
            assert forall|r: u128| #[trigger] updates[i].replicas().contains_key(r) implies goal.contains(
                updates[i].replicas()[r].fu_id,
            ) by {
                assert(held.contains(updates[i].replicas()[r].fu_id));
            }
            assert(replicas_within(updates[i], goal));
        }
    }
    assert forall|k: u128| #[trigger] goal.contains(k) implies base.contains(k) || named(
        updates,
    ).contains(k) by {
        if !base.contains(k) {
            assert(carried(k, goal, updates));
        }
    }
}

/// Where no replica of any update is left without its partition among
/// those held before and those that the updates are about, every update is
/// taken in.
pub proof fn lemma_nothing_dangles(base: Set<u128>, updates: Seq<FailoverUnit>)
    requires
        forall|i: int|
            0 <= i < updates.len() ==> replicas_within(#[trigger] updates[i], base + named(updates)),
    ensures
        held_after(base, updates) == base + named(updates),
        admitted(updates, held_after(base, updates)) == updates,
{
    let all = base + named(updates);
    lemma_held_after(base, updates);
    assert forall|k: u128| #[trigger] all.contains(k) implies base.contains(k) || carried(
        k,
        all,
        updates,
    ) by {
        if !base.contains(k) {
            assert(named(updates).contains(k));
        }
    }
    assert(stands(all, base, updates));
    assert forall|k: u128| all.contains(k) implies held_after(base, updates).contains(k) by {}
    assert(held_after(base, updates) =~= all);
    lemma_filter_keeps_all(updates, within(all));
}

/// A filter that every member passes changes nothing.
pub proof fn lemma_filter_keeps_all<A>(s: Seq<A>, pred: spec_fn(A) -> bool)
    requires
        forall|i: int| 0 <= i < s.len() ==> pred(#[trigger] s[i]),
    ensures
        s.filter(pred) == s,
    decreases s.len(),
{
    reveal(Seq::filter);
    if s.len() > 0 {
        lemma_filter_keeps_all(s.drop_last(), pred);
        assert(s.drop_last().push(s.last()) =~= s);
    }
}

/// One update alone: the partition that it is about is held afterwards
/// exactly where each of its replicas belongs to it or to a partition that
/// was held before.
pub proof fn lemma_held_after_one(base: Set<u128>, unit: FailoverUnit)
    ensures
        held_after(base, seq![unit]) == if replicas_within(
            unit,
            base.insert(unit.failover_unit_description.id),
        ) {
            base.insert(unit.failover_unit_description.id)
        } else {
            base
        },
        admitted(seq![unit], held_after(base, seq![unit])) == if replicas_within(
            unit,
            base.insert(unit.failover_unit_description.id),
        ) {
            seq![unit]
        } else {
            Seq::<FailoverUnit>::empty()
        },
{
    let updates = seq![unit];
    let id = unit.failover_unit_description.id;
    let with = base.insert(id);
    let goal = held_after(base, updates);
    lemma_held_after(base, updates);
    assert(updates[0] == unit);
    assert forall|k: u128| goal.contains(k) implies with.contains(k) by {
        if !base.contains(k) {
            assert(carried(k, goal, updates));
        }
    }
    if replicas_within(unit, with) {
        assert forall|k: u128| #[trigger] with.contains(k) implies base.contains(k) || carried(
            k,
            with,
            updates,
        ) by {
            if !base.contains(k) {
                assert(updates[0].failover_unit_description.id == k);
            }
        }
        assert(stands(with, base, updates));
        assert forall|k: u128| with.contains(k) implies goal.contains(k) by {}
        assert(goal =~= with);
    } else {
        if goal.contains(id) && !base.contains(id) {
            assert(carried(id, goal, updates));
            assert(replicas_within(unit, goal));
            assert forall|r: u128| #[trigger] unit.replicas().contains_key(r) implies with.contains(
                unit.replicas()[r].fu_id,
            ) by {
                assert(goal.contains(unit.replicas()[r].fu_id));
            }
        }
        assert(goal =~= base);
        if replicas_within(unit, base) {
            assert forall|r: u128| #[trigger] unit.replicas().contains_key(r) implies with.contains(
                unit.replicas()[r].fu_id,
            ) by {}
        }
    }
    reveal_with_fuel(Seq::filter, 2);
    assert(updates.drop_last() =~= Seq::<FailoverUnit>::empty());
    assert(updates.last() == unit);
    assert(admitted(updates, goal) =~= if replicas_within(unit, with) {
        seq![unit]
    } else {
        Seq::<FailoverUnit>::empty()
    });
}

} // verus!
