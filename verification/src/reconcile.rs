//! Planning a reconciliation: the role mutations that take a member from
//! the roles they hold to the one tier role they should hold.

use crate::tiers::{guild_tiers, has_role, lemma_other_roles, other_roles, tier_role_set, Tier, TierMap};
use vstd::prelude::*;

verus! {

/// One call to the chat platform that changes a member's roles.
#[derive(Clone, Copy, Debug, PartialEq, Eq, Structural)]
pub enum Mutation {
    /// Take the role away from the member.
    Remove(u64),
    /// Give the role to the member.
    Add(u64),
}

/// The roles to keep, as a set: the one kept role, or nothing.
pub open spec fn keep_set(keep: Option<u64>) -> Set<u64> {
    match keep {
        Some(role) => set![role],
        None => Set::empty(),
    }
}

/// The removal of `role`, if the member holds it.
pub open spec fn removal_of(current: Seq<u64>, role: u64) -> Option<Mutation> {
    if current.contains(role) {
        Some(Mutation::Remove(role))
    } else {
        None
    }
}

/// One removal for each of `others` that the member holds, in the order of
/// `others`.
pub open spec fn removals(others: Seq<u64>, current: Seq<u64>) -> Seq<Mutation> {
    others.filter_map(|role: u64| removal_of(current, role))
}

/// The addition of the kept role, unless the member already holds it.
pub open spec fn additions(current: Seq<u64>, keep: Option<u64>) -> Seq<Mutation> {
    match keep {
        Some(role) => if current.contains(role) {
            Seq::empty()
        } else {
            seq![Mutation::Add(role)]
        },
        None => Seq::empty(),
    }
}

/// The plan for a member who holds `current` in a guild with table `tiers`:
/// first strip every tier role but `keep` that the member holds, then add
/// `keep` if it is missing.
pub open spec fn plan(tiers: Seq<Tier>, current: Seq<u64>, keep: Option<u64>) -> Seq<Mutation> {
    removals(other_roles(tiers, keep_set(keep)), current) + additions(current, keep)
}

/// What one mutation does to a set of roles.
pub open spec fn apply(roles: Set<u64>, mutation: Mutation) -> Set<u64> {
    match mutation {
        Mutation::Remove(role) => roles.remove(role),
        Mutation::Add(role) => roles.insert(role),
    }
}

/// What a list of mutations does to a set of roles, applied in order.
pub open spec fn apply_all(roles: Set<u64>, mutations: Seq<Mutation>) -> Set<u64>
    decreases mutations.len(),
{
    if mutations.len() == 0 {
        roles
    } else {
        apply(apply_all(roles, mutations.drop_last()), mutations.last())
    }
}

/// The roles of a member after a plan has been carried out in full.
pub open spec fn reconciled(tiers: Seq<Tier>, current: Seq<u64>, keep: Option<u64>) -> Set<u64> {
    apply_all(current.to_set(), plan(tiers, current, keep))
}

/// Computes the plan of [`plan`] for a member of `guild_id` who holds
/// `current`.
pub fn plan_mutations(tiers: &TierMap, guild_id: u64, current: &[u64], keep: Option<u64>) -> (planned: Vec<
    Mutation,
>)
    ensures
        planned@ == plan(guild_tiers(tiers@, guild_id), current@, keep),
{
    let mut kept: Vec<u64> = Vec::new();
    if let Some(role) = keep {
        kept.push(role);
    }
    assert(kept@.to_set() =~= keep_set(keep)) by {
        if let Some(role) = keep {
            assert(kept@[0] == role);
        }
    }
    let others = tiers.other_tier_roles(guild_id, kept.as_slice());
    let mut planned: Vec<Mutation> = Vec::new();
    let mut i: usize = 0;
    while i < others.len()
        invariant
            i <= others.len(),
            planned@ == removals(others@.take(i as int), current@),
        decreases others.len() - i,
    {
        let role: u64 = others[i];
        proof {
            let longer = others@.take(i + 1);
            assert(longer.drop_last() =~= others@.take(i as int));
            assert(longer.last() == role);
        }
        if has_role(current, role) {
            planned.push(Mutation::Remove(role));
        }
        i += 1;
    }
    assert(others@.take(i as int) =~= others@);
    if let Some(role) = keep {
        if !has_role(current, role) {
            planned.push(Mutation::Add(role));
        }
    }
    assert(planned@ =~= removals(others@, current@) + additions(current@, keep));
    planned
}

/// Carrying out removals takes away exactly the listed roles that were held.
proof fn lemma_apply_removals(roles: Set<u64>, others: Seq<u64>, current: Seq<u64>)
    ensures
        forall|role: u64|
            #![trigger apply_all(roles, removals(others, current)).contains(role)]
            apply_all(roles, removals(others, current)).contains(role) <==> roles.contains(role) && !(
            others.contains(role) && current.contains(role)),
    decreases others.len(),
{
    let after = apply_all(roles, removals(others, current));
    if others.len() == 0 {
        assert(removals(others, current).len() == 0);
    } else {
        let init = others.drop_last();
        let last = others.last();
        lemma_apply_removals(roles, init, current);
        let before = apply_all(roles, removals(init, current));
        if current.contains(last) {
            let longer = removals(init, current) + seq![Mutation::Remove(last)];
            assert(removals(others, current) == longer);
            assert(longer.drop_last() =~= removals(init, current));
            assert(after == before.remove(last));
        } else {
            assert(after == before);
        }
        assert forall|role: u64| after.contains(role) <==> roles.contains(role) && !(others.contains(role)
            && current.contains(role)) by {
            assert(apply_all(roles, removals(init, current)).contains(role) <==> roles.contains(role) && !(
            init.contains(role) && current.contains(role)));
            if init.contains(role) {
                let k = choose|k: int| 0 <= k < init.len() && init[k] == role;
                assert(others[k] == role);
            }
            if others.contains(role) && role != last {
                let k = choose|k: int| 0 <= k < others.len() && others[k] == role;
                assert(init[k] == role);
            }
            assert(others[others.len() - 1] == last);
        }
    }
}

/// A member who went through a whole plan holds the kept role, holds no
/// other tier role, and holds every other role exactly as before.
pub proof fn lemma_reconciled(tiers: Seq<Tier>, current: Seq<u64>, keep: Option<u64>)
    ensures
        forall|role: u64|
            #![trigger reconciled(tiers, current, keep).contains(role)]
            reconciled(tiers, current, keep).contains(role) <==> keep == Some(role) || (current.contains(role)
                && !tier_role_set(tiers).contains(role)),
{
    let others = other_roles(tiers, keep_set(keep));
    let stripped = removals(others, current);
    let midway = apply_all(current.to_set(), stripped);
    let after = reconciled(tiers, current, keep);
    lemma_other_roles(tiers, keep_set(keep));
    lemma_apply_removals(current.to_set(), others, current);
    match keep {
        Some(kept) => {
            if current.contains(kept) {
                assert(stripped + additions(current, keep) =~= stripped);
                assert(after == midway);
            } else {
                let whole = stripped + seq![Mutation::Add(kept)];
                assert(whole.drop_last() =~= stripped);
                assert(after == midway.insert(kept));
            }
        },
        None => {
            assert(stripped + additions(current, keep) =~= stripped);
            assert(after == midway);
        },
    }
    assert forall|role: u64| after.contains(role) <==> keep == Some(role) || (current.contains(role)
        && !tier_role_set(tiers).contains(role)) by {
        assert(midway.contains(role) <==> current.to_set().contains(role) && !(others.contains(role)
            && current.contains(role)));
        assert(others.contains(role) <==> tier_role_set(tiers).contains(role) && !keep_set(keep).contains(
            role,
        ));
    }
}

/// Removals name only roles that are both listed and held, name each such
/// role, and repeat none if the list repeats none.
proof fn lemma_removals(others: Seq<u64>, current: Seq<u64>)
    ensures
        removals(others, current).len() <= others.len(),
        forall|i: int|
            0 <= i < removals(others, current).len() ==> (#[trigger] removals(others, current)[i]
                matches Mutation::Remove(role) && others.contains(role) && current.contains(role)),
        forall|role: u64|
            others.contains(role) && current.contains(role) ==> #[trigger] removals(others, current).contains(
                Mutation::Remove(role),
            ),
        others.no_duplicates() ==> removals(others, current).no_duplicates(),
    decreases others.len(),
{
    let out = removals(others, current);
    if others.len() > 0 {
        let init = others.drop_last();
        let last = others.last();
        let before = removals(init, current);
        lemma_removals(init, current);
        assert(others[others.len() - 1] == last);
        assert(out == if current.contains(last) {
            before + seq![Mutation::Remove(last)]
        } else {
            before
        });
        assert forall|i: int| 0 <= i < out.len() implies (#[trigger] out[i] matches Mutation::Remove(role)
            && others.contains(role) && current.contains(role)) by {
            if i < before.len() {
                assert(out[i] == before[i]);
                let role = before[i]->Remove_0;
                let k = choose|k: int| 0 <= k < init.len() && init[k] == role;
                assert(others[k] == role);
            }
        }
        assert forall|role: u64| others.contains(role) && current.contains(role) implies out.contains(
            Mutation::Remove(role),
        ) by {
            if role == last {
                assert(out[out.len() - 1] == Mutation::Remove(role));
            } else {
                let k = choose|k: int| 0 <= k < others.len() && others[k] == role;
                assert(init[k] == role);
                assert(before.contains(Mutation::Remove(role)));
                let j = choose|j: int| 0 <= j < before.len() && before[j] == Mutation::Remove(role);
                assert(out[j] == Mutation::Remove(role));
            }
        }
        if others.no_duplicates() {
            assert(init.no_duplicates());
            assert forall|a: int, b: int| 0 <= a < out.len() && 0 <= b < out.len() && a != b implies out[a]
                != out[b] by {
                if a < before.len() && b < before.len() {
                    assert(before[a] != before[b]);
                } else {
                    let inner = if a < before.len() {
                        a
                    } else {
                        b
                    };
                    assert(out[inner] == before[inner]);
                    let role = before[inner]->Remove_0;
                    let k = choose|k: int| 0 <= k < init.len() && init[k] == role;
                    assert(others[k] == role);
                    assert(role != last);
                }
            }
        }
    }
}

/// A plan holds no wasted call: it removes only tier roles that the member
/// holds and that are not kept, adds only the kept role and only if it is
/// missing, and names no mutation twice.
pub proof fn law_plan_is_minimal(tiers: Seq<Tier>, current: Seq<u64>, keep: Option<u64>)
    ensures
        plan(tiers, current, keep).no_duplicates(),
        forall|i: int|
            0 <= i < plan(tiers, current, keep).len() ==> match #[trigger] plan(tiers, current, keep)[i] {
                Mutation::Remove(role) => {
                    &&& current.contains(role)
                    &&& tier_role_set(tiers).contains(role)
                    &&& keep != Some(role)
                },
                Mutation::Add(role) => keep == Some(role) && !current.contains(role),
            },
{
    let others = other_roles(tiers, keep_set(keep));
    let stripped = removals(others, current);
    let whole = plan(tiers, current, keep);
    lemma_other_roles(tiers, keep_set(keep));
    lemma_removals(others, current);
    assert forall|i: int| 0 <= i < whole.len() implies match #[trigger] whole[i] {
        Mutation::Remove(role) => {
            &&& current.contains(role)
            &&& tier_role_set(tiers).contains(role)
            &&& keep != Some(role)
        },
        Mutation::Add(role) => keep == Some(role) && !current.contains(role),
    } by {
        if i < stripped.len() {
            assert(whole[i] == stripped[i]);
            let role = stripped[i]->Remove_0;
            assert(others.contains(role));
            assert(!keep_set(keep).contains(role));
        }
    }
    assert forall|a: int, b: int| 0 <= a < whole.len() && 0 <= b < whole.len() && a != b implies whole[a]
        != whole[b] by {
        if a < stripped.len() && b < stripped.len() {
            assert(stripped[a] != stripped[b]);
        } else {
            let inner = if a < stripped.len() {
                a
            } else {
                b
            };
            assert(whole[inner] == stripped[inner]);
        }
    }
}

/// A plan is short: at most one removal per bracket of the table, and one
/// addition.
pub proof fn lemma_plan_is_short(tiers: Seq<Tier>, current: Seq<u64>, keep: Option<u64>)
    ensures
        plan(tiers, current, keep).len() <= tiers.len() + 1,
{
    lemma_other_roles(tiers, keep_set(keep));
    lemma_removals(other_roles(tiers, keep_set(keep)), current);
}

/// After a reconciliation that went through, the member holds the kept
/// role, if one was asked for, and none of the guild's other tier roles;
/// roles that are not tier roles are as they were.
pub proof fn law_reconcile_converges(tiers: Seq<Tier>, current: Seq<u64>, keep: Option<u64>)
    ensures
        keep matches Some(role) ==> reconciled(tiers, current, keep).contains(role),
        forall|role: u64|
            tier_role_set(tiers).contains(role) && keep != Some(role) ==> !(#[trigger] reconciled(
                tiers,
                current,
                keep,
            ).contains(role)),
        forall|role: u64|
            !tier_role_set(tiers).contains(role) && keep != Some(role) ==> (#[trigger] reconciled(
                tiers,
                current,
                keep,
            ).contains(role) <==> current.contains(role)),
{
    lemma_reconciled(tiers, current, keep);
}

/// Reconciling twice in a row towards the same target is idempotent: if
/// `again` is what the member holds after the first plan went through, the
/// second plan is empty.
pub proof fn law_reconcile_idempotent(tiers: Seq<Tier>, first: Seq<u64>, again: Seq<u64>, keep: Option<u64>)
    requires
        again.to_set() == reconciled(tiers, first, keep),
    ensures
        plan(tiers, again, keep) == Seq::<Mutation>::empty(),
{
    let others = other_roles(tiers, keep_set(keep));
    let stripped = removals(others, again);
    lemma_reconciled(tiers, first, keep);
    lemma_other_roles(tiers, keep_set(keep));
    lemma_removals(others, again);
    if stripped.len() > 0 {
        let role = stripped[0]->Remove_0;
        assert(others.contains(role) && again.contains(role));
        assert(again.to_set().contains(role));
        assert(reconciled(tiers, first, keep).contains(role));
        assert(false);
    }
    if let Some(role) = keep {
        assert(reconciled(tiers, first, keep).contains(role));
        assert(again.to_set().contains(role));
    }
    assert(plan(tiers, again, keep) =~= Seq::<Mutation>::empty());
}

} // verus!
