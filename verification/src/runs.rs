//! Whole runs of a flow: what a sequence of reported events leads to, and
//! what that says about the calls that were made on the way.

use crate::flow::{
    concluded, flow_in, reconcile_started, step_model, sync_started, unlink_started, ActionView, EventView,
    FailureView, FlowView, OutcomeView, PartialReconcileView, PhaseView, Target,
};
use crate::reconcile::{
    apply_all, law_reconcile_converges, law_reconcile_idempotent, lemma_plan_is_short, plan, reconciled, Mutation,
};
use crate::tiers::{guild_tiers, role_for, tier_role_set, Tier};
use vstd::prelude::*;

verus! {

/// A flow after `events` were reported to it one by one, and the action
/// that each of them led to.
pub open spec fn run(flow: FlowView, tiers: Map<u64, Seq<Tier>>, events: Seq<EventView>) -> (
    FlowView,
    Seq<ActionView>,
)
    decreases events.len(),
{
    if events.len() == 0 {
        (flow, Seq::empty())
    } else {
        let before = run(flow, tiers, events.drop_last());
        let next = step_model(before.0, tiers, events.last());
        (next.0, before.1.push(next.1))
    }
}

/// The actions of a run.
pub open spec fn actions_of(flow: FlowView, tiers: Map<u64, Seq<Tier>>, events: Seq<EventView>) -> Seq<ActionView> {
    run(flow, tiers, events).1
}

/// The end of a flow.
pub open spec fn is_finish(action: ActionView) -> bool {
    action is Finish
}

/// The answer of a flow that is over to any further event.
pub open spec fn out_of_turn() -> ActionView {
    ActionView::Finish(Err(FailureView::Unexpected))
}

/// A run names one action per event and never changes the member it is
/// about.
pub proof fn lemma_run_shape(flow: FlowView, tiers: Map<u64, Seq<Tier>>, events: Seq<EventView>)
    ensures
        run(flow, tiers, events).1.len() == events.len(),
        run(flow, tiers, events).0.guild_id == flow.guild_id,
        run(flow, tiers, events).0.discord_id == flow.discord_id,
    decreases events.len(),
{
    if events.len() > 0 {
        lemma_run_shape(flow, tiers, events.drop_last());
    }
}

/// A run can be cut in two at any event: the second part goes on from the
/// flow that the first part ended in.
pub proof fn lemma_run_split(flow: FlowView, tiers: Map<u64, Seq<Tier>>, events: Seq<EventView>, at: int)
    requires
        0 <= at <= events.len(),
    ensures
        run(flow, tiers, events).0 == run(run(flow, tiers, events.take(at)).0, tiers, events.skip(at)).0,
        run(flow, tiers, events).1 == run(flow, tiers, events.take(at)).1 + run(
            run(flow, tiers, events.take(at)).0,
            tiers,
            events.skip(at),
        ).1,
    decreases events.len(),
{
    let head = run(flow, tiers, events.take(at));
    let tail = run(head.0, tiers, events.skip(at));
    if at == events.len() {
        assert(events.take(at) =~= events);
        assert(events.skip(at).len() == 0);
        assert(head.1 + tail.1 =~= head.1);
    } else {
        let shorter = events.drop_last();
        lemma_run_split(flow, tiers, shorter, at);
        assert(shorter.take(at) =~= events.take(at));
        assert(shorter.skip(at) =~= events.skip(at).drop_last());
        assert(events.skip(at).last() == events.last());
        let tail_before = run(head.0, tiers, events.skip(at).drop_last());
        let next = step_model(tail_before.0, tiers, events.last());
        assert(tail.1 == tail_before.1.push(next.1));
        assert(head.1 + tail_before.1.push(next.1) =~= (head.1 + tail_before.1).push(next.1));
    }
}

/// The actions of the first part of a run are the first of its actions.
pub proof fn lemma_run_prefix(flow: FlowView, tiers: Map<u64, Seq<Tier>>, events: Seq<EventView>, at: int)
    requires
        0 <= at <= events.len(),
    ensures
        run(flow, tiers, events.take(at)).1 == run(flow, tiers, events).1.take(at),
{
    lemma_run_split(flow, tiers, events, at);
    lemma_run_shape(flow, tiers, events.take(at));
    let head = run(flow, tiers, events.take(at));
    let tail = run(head.0, tiers, events.skip(at));
    assert((head.1 + tail.1).take(at) =~= head.1);
}

/// The first event of a run leads to the step from the start.
pub proof fn lemma_run_first(flow: FlowView, tiers: Map<u64, Seq<Tier>>, events: Seq<EventView>)
    requires
        events.len() > 0,
    ensures
        run(flow, tiers, events.take(1)).0 == step_model(flow, tiers, events[0]).0,
        run(flow, tiers, events.take(1)).1 == seq![step_model(flow, tiers, events[0]).1],
        run(flow, tiers, events).1.len() == events.len(),
        run(flow, tiers, events).1[0] == step_model(flow, tiers, events[0]).1,
{
    let first = events.take(1);
    assert(first.drop_last().len() == 0);
    assert(first.last() == events[0]);
    assert(run(flow, tiers, first.drop_last()) == (flow, Seq::<ActionView>::empty()));
    assert(Seq::<ActionView>::empty().push(step_model(flow, tiers, events[0]).1) =~= seq![
        step_model(flow, tiers, events[0]).1,
    ]);
    lemma_run_shape(flow, tiers, events);
    lemma_run_prefix(flow, tiers, events, 1);
    assert(run(flow, tiers, events).1.take(1)[0] == run(flow, tiers, events).1[0]);
}

/// A flow that is over stays over, and answers every further event as out
/// of turn.
pub proof fn lemma_over_stays_over(flow: FlowView, tiers: Map<u64, Seq<Tier>>, events: Seq<EventView>)
    requires
        flow.phase is Finished,
    ensures
        run(flow, tiers, events).0.phase is Finished,
        forall|i: int| 0 <= i < events.len() ==> #[trigger] run(flow, tiers, events).1[i] == out_of_turn(),
    decreases events.len(),
{
    if events.len() > 0 {
        lemma_over_stays_over(flow, tiers, events.drop_last());
        lemma_run_shape(flow, tiers, events.drop_last());
    }
}

/// Once a flow has ended, nothing but "out of turn" follows: no remote call
/// is asked for after the end.
pub proof fn law_finished_is_final(
    flow: FlowView,
    tiers: Map<u64, Seq<Tier>>,
    events: Seq<EventView>,
    end: int,
    later: int,
)
    requires
        0 <= end < later < events.len(),
        is_finish(actions_of(flow, tiers, events)[end]),
    ensures
        actions_of(flow, tiers, events)[later] == out_of_turn(),
{
    let head = run(flow, tiers, events.take(end + 1));
    let tail_events = events.skip(end + 1);
    lemma_run_split(flow, tiers, events, end + 1);
    lemma_run_shape(flow, tiers, events);
    lemma_run_shape(flow, tiers, events.take(end + 1));
    lemma_run_shape(flow, tiers, events.take(end + 1).drop_last());
    lemma_run_shape(head.0, tiers, tail_events);
    let whole = run(flow, tiers, events).1;
    assert(whole[end] == head.1[end]);
    assert(head.0.phase is Finished);
    lemma_over_stays_over(head.0, tiers, tail_events);
    assert(whole[later] == run(head.0, tiers, tail_events).1[later - (end + 1)]);
}

/// The roles that an event reports, if it reports roles.
pub open spec fn roles_in(event: EventView) -> Seq<u64> {
    match event {
        EventView::MemberRoles(roles) => roles,
        _ => Seq::empty(),
    }
}

/// The actions that follow a reconciliation that went through: the link's
/// deletion, or the end of the flow with a synced or reconciled member.
pub open spec fn is_conclusion(action: ActionView) -> bool {
    ||| action is DeleteLink
    ||| action matches ActionView::Finish(Ok(OutcomeView::Synced { .. }))
    ||| action matches ActionView::Finish(Ok(OutcomeView::Reconciled))
}

/// The reconciliation whose roles were reported by the event at index
/// `from` went through in full by the action at index `until`: every
/// mutation of `planned` was sent, in order, and each was answered with
/// `Applied` before the next action was named.
pub open spec fn went_through(
    actions: Seq<ActionView>,
    events: Seq<EventView>,
    planned: Seq<Mutation>,
    from: int,
    until: int,
) -> bool {
    &&& events[from] is MemberRoles
    &&& until == from + planned.len()
    &&& forall|j: int|
        0 <= j < planned.len() ==> #[trigger] actions[from + j] == ActionView::Apply(planned[j]) && events[from
            + 1 + j] == EventView::Applied
}

/// The stopped reconciliation that an action reports, if it reports one.
pub open spec fn partial_in(action: ActionView) -> Option<PartialReconcileView> {
    match action {
        ActionView::Finish(Err(FailureView::PartialReconcile(partial))) => Some(partial),
        _ => None,
    }
}

/// The report `partial`, made by the action at index `at`, accounts for the
/// reconciliation whose roles were reported by the event at index `from`:
/// its three parts make up `planned`, the mutations it lists as succeeded
/// were sent in order and confirmed, the one it lists as failed was sent
/// next and refused, and nothing was sent after it.
pub open spec fn accounted(
    actions: Seq<ActionView>,
    events: Seq<EventView>,
    planned: Seq<Mutation>,
    partial: PartialReconcileView,
    from: int,
    at: int,
) -> bool {
    &&& events[from] is MemberRoles
    &&& partial.succeeded.push(partial.failed) + partial.not_attempted == planned
    &&& at == from + partial.succeeded.len() + 1
    &&& events[at] == EventView::Refused
    &&& forall|j: int|
        0 <= j <= partial.succeeded.len() ==> #[trigger] actions[from + j] == ActionView::Apply(planned[j])
    &&& forall|j: int| 0 <= j < partial.succeeded.len() ==> #[trigger] events[from + 1 + j] == EventView::Applied
}

/// The mutations that the platform confirmed among the first `n` actions of
/// a run, in order: those that were sent and answered with `Applied`.
pub open spec fn confirmed(actions: Seq<ActionView>, events: Seq<EventView>, n: int) -> Seq<Mutation>
    decreases n,
{
    if n <= 0 {
        Seq::empty()
    } else {
        let before = confirmed(actions, events, n - 1);
        if actions[n - 1] is Apply && n < events.len() && events[n] == EventView::Applied {
            before.push(actions[n - 1]->Apply_0)
        } else {
            before
        }
    }
}

/// The roles of a member who held `roles` when they were read, after the
/// mutations that the platform confirmed among the first `n` actions. This
/// takes the platform at its word: a confirmed mutation was carried out, one
/// that was not confirmed was not, and nobody else changed the member's
/// roles in between.
pub open spec fn held_after(roles: Seq<u64>, actions: Seq<ActionView>, events: Seq<EventView>, n: int) -> Set<
    u64,
> {
    apply_all(roles.to_set(), confirmed(actions, events, n))
}

/// Actions that send no mutation confirm none.
proof fn lemma_confirmed_none(actions: Seq<ActionView>, events: Seq<EventView>, from: int, n: int)
    requires
        0 <= from <= n,
        forall|i: int| from <= i < n ==> !(#[trigger] actions[i] is Apply),
    ensures
        confirmed(actions, events, n) == confirmed(actions, events, from),
    decreases n - from,
{
    if from < n {
        lemma_confirmed_none(actions, events, from, n - 1);
        assert(!(actions[n - 1] is Apply));
    }
}

/// A plan that went through was confirmed mutation by mutation.
proof fn lemma_confirmed_sent(
    actions: Seq<ActionView>,
    events: Seq<EventView>,
    planned: Seq<Mutation>,
    from: int,
    j: int,
)
    requires
        0 <= from,
        0 <= j <= planned.len(),
        from + j < events.len(),
        confirmed(actions, events, from) == Seq::<Mutation>::empty(),
        forall|i: int| 0 <= i < j ==> #[trigger] actions[from + i] == ActionView::Apply(planned[i]),
        forall|i: int| 0 <= i < j ==> #[trigger] events[from + 1 + i] == EventView::Applied,
    ensures
        confirmed(actions, events, from + j) == planned.take(j),
    decreases j,
{
    if j > 0 {
        lemma_confirmed_sent(actions, events, planned, from, j - 1);
        assert(actions[from + (j - 1)] == ActionView::Apply(planned[j - 1]));
        assert(events[from + 1 + (j - 1)] == EventView::Applied);
        assert(planned.take(j - 1).push(planned[j - 1]) =~= planned.take(j));
    } else {
        assert(planned.take(0) =~= Seq::<Mutation>::empty());
    }
}

/// What holds of a flow that began by reading the member's roles, after the
/// first `n` of `events`.
spec fn on_course(start: FlowView, target: Target, tiers: Map<u64, Seq<Tier>>, events: Seq<EventView>, n: int) -> bool {
    let planned = plan(guild_tiers(tiers, start.guild_id), roles_in(events[0]), target.keep());
    let now = run(start, tiers, events.take(n));
    let actions = now.1;
    &&& actions.len() == n
    &&& now.0.guild_id == start.guild_id
    &&& now.0.discord_id == start.discord_id
    &&& forall|k: int|
        0 <= k < n && is_conclusion(#[trigger] actions[k]) ==> actions[k] == concluded(start, target).1
            && went_through(actions, events, planned, 0, k)
    &&& (n > 0 && is_conclusion(actions[n - 1]) ==> now.0 == concluded(start, target).0)
    &&& forall|k: int|
        0 <= k < n && partial_in(#[trigger] actions[k]) is Some ==> accounted(
            actions,
            events,
            planned,
            partial_in(actions[k])->Some_0,
            0,
            k,
        )
    &&& match now.0.phase {
        PhaseView::FetchingRoles { .. } => n == 0,
        PhaseView::Applying { target: aim, succeeded, in_flight, remaining } => {
            &&& aim == target
            &&& n >= 1
            &&& events[0] is MemberRoles
            &&& succeeded.push(in_flight) + remaining == planned
            &&& succeeded.len() == n - 1
            &&& forall|j: int| 0 <= j < n ==> #[trigger] actions[j] == ActionView::Apply(planned[j])
            &&& forall|j: int| 1 <= j < n ==> #[trigger] events[j] == EventView::Applied
        },
        PhaseView::DeletingLink => n > 0 && is_conclusion(actions[n - 1]),
        PhaseView::Finished => true,
        _ => false,
    }
}

/// Every prefix of a run that began by reading the member's roles is on
/// course, by induction over the events.
proof fn lemma_on_course(start: FlowView, target: Target, tiers: Map<u64, Seq<Tier>>, events: Seq<EventView>, n: int)
    requires
        start.phase == (PhaseView::FetchingRoles { target }),
        0 <= n <= events.len(),
    ensures
        on_course(start, target, tiers, events, n),
    decreases n,
{
    let planned = plan(guild_tiers(tiers, start.guild_id), roles_in(events[0]), target.keep());
    if n > 0 {
        lemma_on_course(start, target, tiers, events, n - 1);
        let before = run(start, tiers, events.take(n - 1));
        let event = events[n - 1];
        let next = step_model(before.0, tiers, event);
        let now = run(start, tiers, events.take(n));
        assert(events.take(n).drop_last() =~= events.take(n - 1));
        assert(events.take(n).last() == event);
        assert(now.0 == next.0);
        assert(now.1 == before.1.push(next.1));
        let actions = now.1;
        assert forall|k: int| 0 <= k < n - 1 implies actions[k] == before.1[k] by {}
        assert(actions[n - 1] == next.1);
        assert forall|k: int| 0 <= k < n - 1 && is_conclusion(#[trigger] actions[k]) implies actions[k]
            == concluded(start, target).1 && went_through(actions, events, planned, 0, k) by {
            assert(is_conclusion(before.1[k]));
            assert(went_through(before.1, events, planned, 0, k));
            assert forall|j: int| 0 <= j < planned.len() implies #[trigger] actions[0 + j] == ActionView::Apply(
                planned[j],
            ) && events[0 + 1 + j] == EventView::Applied by {
                assert(before.1[0 + j] == ActionView::Apply(planned[j]));
            }
        }
        assert forall|k: int| 0 <= k < n - 1 && partial_in(#[trigger] actions[k]) is Some implies accounted(
            actions,
            events,
            planned,
            partial_in(actions[k])->Some_0,
            0,
            k,
        ) by {
            let partial = partial_in(before.1[k])->Some_0;
            assert(accounted(before.1, events, planned, partial, 0, k));
            assert forall|j: int| 0 <= j <= partial.succeeded.len() implies #[trigger] actions[0 + j]
                == ActionView::Apply(planned[j]) by {
                assert(before.1[0 + j] == ActionView::Apply(planned[j]));
            }
        }
        match before.0.phase {
            PhaseView::FetchingRoles { .. } => {
                assert(n == 1);
                assert(before.0 == start);
                match event {
                    EventView::MemberRoles(roles) => {
                        assert(roles_in(events[0]) == roles);
                        if planned.len() > 0 {
                            assert(Seq::<Mutation>::empty().push(planned[0]) + planned.drop_first() =~= planned);
                        }
                    },
                    _ => {},
                }
            },
            PhaseView::Applying { target: aim, succeeded, in_flight, remaining } => {
                match event {
                    EventView::Applied => {
                        let sent = succeeded.push(in_flight);
                        assert(sent.len() == n - 1);
                        if remaining.len() > 0 {
                            assert(sent.push(remaining[0]) + remaining.drop_first() =~= sent + remaining);
                            assert(planned[n - 1] == remaining[0]);
                            assert forall|j: int| 1 <= j < n implies #[trigger] events[j] == EventView::Applied by {}
                        } else {
                            assert(sent + remaining =~= sent);
                            assert(planned.len() == n - 1);
                            assert forall|j: int| 0 <= j < planned.len() implies #[trigger] actions[0 + j]
                                == ActionView::Apply(planned[j]) && events[0 + 1 + j] == EventView::Applied by {
                                assert(before.1[j] == ActionView::Apply(planned[j]));
                                if j + 1 < n - 1 {
                                    assert(events[j + 1] == EventView::Applied);
                                }
                            }
                        }
                    },
                    EventView::Refused => {
                        let partial = partial_in(next.1)->Some_0;
                        assert(partial.succeeded == succeeded && partial.failed == in_flight);
                        assert forall|j: int| 0 <= j <= partial.succeeded.len() implies #[trigger] actions[0 + j]
                            == ActionView::Apply(planned[j]) by {
                            assert(before.1[j] == ActionView::Apply(planned[j]));
                        }
                        assert forall|j: int| 0 <= j < partial.succeeded.len() implies #[trigger] events[0 + 1
                            + j] == EventView::Applied by {
                            assert(events[j + 1] == EventView::Applied);
                        }
                        assert(accounted(actions, events, planned, partial, 0, n - 1));
                    },
                    _ => {},
                }
            },
            _ => {},
        }
    } else {
        assert(events.take(0).len() == 0);
    }
}

/// What holds of a run that began by reading the member's roles, stated of
/// the whole run.
proof fn lemma_course(start: FlowView, target: Target, tiers: Map<u64, Seq<Tier>>, events: Seq<EventView>)
    requires
        start.phase == (PhaseView::FetchingRoles { target }),
    ensures
        forall|k: int|
            0 <= k < events.len() && is_conclusion(#[trigger] run(start, tiers, events).1[k]) ==> {
                &&& run(start, tiers, events).1[k] == concluded(start, target).1
                &&& run(start, tiers, events.take(k + 1)).0 == concluded(start, target).0
                &&& went_through(
                    run(start, tiers, events).1,
                    events,
                    plan(guild_tiers(tiers, start.guild_id), roles_in(events[0]), target.keep()),
                    0,
                    k,
                )
            },
        forall|k: int|
            0 <= k < events.len() && partial_in(#[trigger] run(start, tiers, events).1[k]) is Some ==> accounted(
                run(start, tiers, events).1,
                events,
                plan(guild_tiers(tiers, start.guild_id), roles_in(events[0]), target.keep()),
                partial_in(run(start, tiers, events).1[k])->Some_0,
                0,
                k,
            ),
{
    let planned = plan(guild_tiers(tiers, start.guild_id), roles_in(events[0]), target.keep());
    let actions = run(start, tiers, events).1;
    lemma_on_course(start, target, tiers, events, events.len() as int);
    assert(events.take(events.len() as int) =~= events);
    assert forall|k: int| 0 <= k < events.len() && is_conclusion(#[trigger] actions[k]) implies run(
        start,
        tiers,
        events.take(k + 1),
    ).0 == concluded(start, target).0 by {
        lemma_on_course(start, target, tiers, events, k + 1);
        lemma_run_prefix(start, tiers, events, k + 1);
        assert(run(start, tiers, events.take(k + 1)).1[k] == actions[k]);
    }
}

/// A course that went through in the later part of a run went through in
/// the whole run, seen from where that part begins.
proof fn lemma_went_through_later(
    head: Seq<ActionView>,
    tail: Seq<ActionView>,
    events: Seq<EventView>,
    planned: Seq<Mutation>,
    k: int,
)
    requires
        head.len() <= events.len(),
        tail.len() == events.len() - head.len(),
        0 <= k < tail.len(),
        went_through(tail, events.skip(head.len() as int), planned, 0, k),
    ensures
        went_through(head + tail, events, planned, head.len() as int, head.len() + k),
{
    let from = head.len() as int;
    let later = events.skip(from);
    assert(later[0] == events[from]);
    assert forall|j: int| 0 <= j < planned.len() implies #[trigger] (head + tail)[from + j] == ActionView::Apply(
        planned[j],
    ) && events[from + 1 + j] == EventView::Applied by {
        assert(tail[0 + j] == ActionView::Apply(planned[j]));
        assert(later[0 + 1 + j] == events[from + 1 + j]);
    }
}

/// A plan that went through by the action at index `until`, in a run that
/// sent no mutation before or after it, is what the platform confirmed, and
/// leaves the member with exactly the kept tier role.
proof fn lemma_held_after_plan(
    tiers: Seq<Tier>,
    roles: Seq<u64>,
    keep: Option<u64>,
    actions: Seq<ActionView>,
    events: Seq<EventView>,
    from: int,
    until: int,
    n: int,
)
    requires
        0 <= from <= until < events.len(),
        until <= n <= actions.len(),
        went_through(actions, events, plan(tiers, roles, keep), from, until),
        forall|i: int| 0 <= i < from ==> !(#[trigger] actions[i] is Apply),
        forall|i: int| until <= i < n ==> !(#[trigger] actions[i] is Apply),
    ensures
        confirmed(actions, events, n) == plan(tiers, roles, keep),
        held_after(roles, actions, events, n) == reconciled(tiers, roles, keep),
        keep matches Some(role) ==> held_after(roles, actions, events, n).contains(role),
        forall|role: u64|
            tier_role_set(tiers).contains(role) && keep != Some(role) ==> !(#[trigger] held_after(
                roles,
                actions,
                events,
                n,
            ).contains(role)),
{
    let planned = plan(tiers, roles, keep);
    lemma_confirmed_none(actions, events, 0, from);
    assert forall|i: int| 0 <= i < planned.len() implies #[trigger] events[from + 1 + i] == EventView::Applied by {
        assert(actions[from + i] == ActionView::Apply(planned[i]));
    }
    lemma_confirmed_sent(actions, events, planned, from, planned.len() as int);
    assert(planned.take(planned.len() as int) =~= planned);
    lemma_confirmed_none(actions, events, until, n);
    law_reconcile_converges(tiers, roles, keep);
}

/// After a reconciliation that ended well the member holds the kept role
/// and none of the guild's other tier roles. When the flow of `reconcile`
/// ends as reconciled, the member's roles had been reported, every mutation
/// of the plan made from them had been sent in order, and the platform had
/// confirmed each one; these are all the mutations of the run.
pub proof fn law_reconciled_means_went_through(
    tiers: Map<u64, Seq<Tier>>,
    guild_id: u64,
    discord_id: u64,
    desired_keep: Option<u64>,
    events: Seq<EventView>,
    end: int,
)
    requires
        0 <= end < events.len(),
        actions_of(reconcile_started(guild_id, discord_id, desired_keep), tiers, events)[end] == ActionView::Finish(
            Ok(OutcomeView::Reconciled),
        ),
    ensures
        went_through(
            actions_of(reconcile_started(guild_id, discord_id, desired_keep), tiers, events),
            events,
            plan(guild_tiers(tiers, guild_id), roles_in(events[0]), desired_keep),
            0,
            end,
        ),
        held_after(
            roles_in(events[0]),
            actions_of(reconcile_started(guild_id, discord_id, desired_keep), tiers, events),
            events,
            events.len() as int,
        ) == reconciled(guild_tiers(tiers, guild_id), roles_in(events[0]), desired_keep),
        desired_keep matches Some(role) ==> held_after(
            roles_in(events[0]),
            actions_of(reconcile_started(guild_id, discord_id, desired_keep), tiers, events),
            events,
            events.len() as int,
        ).contains(role),
        forall|role: u64|
            tier_role_set(guild_tiers(tiers, guild_id)).contains(role) && desired_keep != Some(role) ==> !(
            #[trigger] held_after(
                roles_in(events[0]),
                actions_of(reconcile_started(guild_id, discord_id, desired_keep), tiers, events),
                events,
                events.len() as int,
            ).contains(role)),
{
    let start = reconcile_started(guild_id, discord_id, desired_keep);
    let whole = actions_of(start, tiers, events);
    lemma_course(start, Target::Keep(desired_keep), tiers, events);
    lemma_run_shape(start, tiers, events);
    assert(is_conclusion(whole[end]));
    assert forall|i: int| end <= i < events.len() implies !(#[trigger] whole[i] is Apply) by {
        if end < i {
            law_finished_is_final(start, tiers, events, end, i);
        }
    }
    lemma_held_after_plan(
        guild_tiers(tiers, guild_id),
        roles_in(events[0]),
        desired_keep,
        whole,
        events,
        0,
        end,
        events.len() as int,
    );
}

/// What follows the request to delete the link: the end of the flow.
proof fn lemma_after_deletion(
    tiers: Map<u64, Seq<Tier>>,
    guild_id: u64,
    discord_id: u64,
    events: Seq<EventView>,
    at: int,
    later: int,
)
    requires
        0 <= at < later < events.len(),
        run(unlink_started(guild_id, discord_id), tiers, events.take(at + 1)).0 == flow_in(
            guild_id,
            discord_id,
            PhaseView::DeletingLink,
        ),
    ensures
        actions_of(unlink_started(guild_id, discord_id), tiers, events)[later] matches ActionView::Finish(result)
            && (result matches Err(failure) ==> failure is Storage || failure is Unexpected),
{
    let start = unlink_started(guild_id, discord_id);
    let whole = actions_of(start, tiers, events);
    let deleting = run(start, tiers, events.take(at + 1)).0;
    let rest = events.skip(at + 1);
    let tail = run(deleting, tiers, rest);
    lemma_run_split(start, tiers, events, at + 1);
    lemma_run_shape(start, tiers, events.take(at + 1));
    lemma_run_shape(deleting, tiers, rest);
    assert(whole[later] == tail.1[later - (at + 1)]);
    lemma_run_first(deleting, tiers, rest);
    if later > at + 1 {
        law_finished_is_final(deleting, tiers, rest, 0, later - (at + 1));
    }
}

/// The link is deleted only after the member was stripped in full. When the
/// flow of `unlink` asks for the link's deletion, the link had been found,
/// the member's roles had been reported, every removal planned from them
/// had been sent in order, and the platform had confirmed each one: the
/// member holds none of the guild's tier roles.
pub proof fn law_link_deleted_only_after_strip(
    tiers: Map<u64, Seq<Tier>>,
    guild_id: u64,
    discord_id: u64,
    events: Seq<EventView>,
    at: int,
)
    requires
        0 <= at < events.len(),
        actions_of(unlink_started(guild_id, discord_id), tiers, events)[at] == ActionView::DeleteLink,
    ensures
        events[0] is LinkFound,
        went_through(
            actions_of(unlink_started(guild_id, discord_id), tiers, events),
            events,
            plan(guild_tiers(tiers, guild_id), roles_in(events[1]), None),
            1,
            at,
        ),
        forall|role: u64|
            tier_role_set(guild_tiers(tiers, guild_id)).contains(role) ==> !(#[trigger] held_after(
                roles_in(events[1]),
                actions_of(unlink_started(guild_id, discord_id), tiers, events),
                events,
                at,
            ).contains(role)),
        run(unlink_started(guild_id, discord_id), tiers, events.take(at + 1)).0 == flow_in(
            guild_id,
            discord_id,
            PhaseView::DeletingLink,
        ),
{
    let start = unlink_started(guild_id, discord_id);
    let head = run(start, tiers, events.take(1));
    let later = events.skip(1);
    let tail = run(head.0, tiers, later);
    let whole = actions_of(start, tiers, events);
    lemma_run_split(start, tiers, events, 1);
    lemma_run_shape(start, tiers, events.take(1));
    lemma_run_shape(head.0, tiers, later);
    lemma_run_first(start, tiers, events);
    if events[0] is LinkFound {
        let begun = flow_in(guild_id, discord_id, PhaseView::FetchingRoles { target: Target::Strip });
        let planned = plan(guild_tiers(tiers, guild_id), roles_in(later[0]), None);
        assert(head.0 == begun);
        assert(at >= 1);
        assert(whole[at] == tail.1[at - 1]);
        lemma_course(begun, Target::Strip, tiers, later);
        assert(is_conclusion(tail.1[at - 1]));
        assert(later[0] == events[1]);
        lemma_went_through_later(head.1, tail.1, events, planned, at - 1);
        lemma_run_split(start, tiers, events.take(at + 1), 1);
        assert(events.take(at + 1).take(1) =~= events.take(1));
        assert(events.take(at + 1).skip(1) =~= later.take(at));
        lemma_held_after_plan(guild_tiers(tiers, guild_id), roles_in(events[1]), None, whole, events, 1, at, at);
    } else {
        assert(head.0.phase is Finished);
        lemma_over_stays_over(head.0, tiers, later);
        if at >= 1 {
            assert(whole[at] == tail.1[at - 1]);
        }
        assert(false);
    }
}

/// An unlinking that failed to strip the member never asks for the link to
/// be deleted: if the flow of `unlink` ends because the member could not be
/// looked up or because a removal was refused, no action of the run, before
/// or after, is the deletion of the link.
pub proof fn law_failed_strip_keeps_link(
    tiers: Map<u64, Seq<Tier>>,
    guild_id: u64,
    discord_id: u64,
    events: Seq<EventView>,
    failed_at: int,
    at: int,
)
    requires
        0 <= failed_at < events.len(),
        0 <= at < events.len(),
        actions_of(unlink_started(guild_id, discord_id), tiers, events)[failed_at] matches ActionView::Finish(
            Err(failure),
        ) && (failure is MemberLookup || failure is PartialReconcile),
    ensures
        actions_of(unlink_started(guild_id, discord_id), tiers, events)[at] != ActionView::DeleteLink,
{
    let start = unlink_started(guild_id, discord_id);
    let whole = actions_of(start, tiers, events);
    if whole[at] == ActionView::DeleteLink {
        law_link_deleted_only_after_strip(tiers, guild_id, discord_id, events, at);
        let planned = plan(guild_tiers(tiers, guild_id), roles_in(events[1]), None);
        if failed_at < at {
            if failed_at == 0 {
                lemma_run_first(start, tiers, events);
            } else {
                assert(whole[1 + (failed_at - 1)] == ActionView::Apply(planned[failed_at - 1]));
            }
        } else if failed_at > at {
            lemma_after_deletion(tiers, guild_id, discord_id, events, at, failed_at);
        }
        assert(false);
    }
}

/// Unlinking a member who is not linked does nothing: the flow of `unlink`
/// answers a missing link by ending with "nothing to delete", which is no
/// failure, and it asks for no remote call afterwards.
pub proof fn law_unlink_without_link_does_nothing(
    tiers: Map<u64, Seq<Tier>>,
    guild_id: u64,
    discord_id: u64,
    events: Seq<EventView>,
)
    requires
        events.len() > 0,
        events[0] == EventView::LinkMissing,
    ensures
        actions_of(unlink_started(guild_id, discord_id), tiers, events)[0] == ActionView::Finish(
            Ok(OutcomeView::NothingToDelete),
        ),
        forall|i: int|
            1 <= i < events.len() ==> #[trigger] actions_of(unlink_started(guild_id, discord_id), tiers, events)[i]
                == out_of_turn(),
{
    let start = unlink_started(guild_id, discord_id);
    lemma_run_first(start, tiers, events);
    assert forall|i: int| 1 <= i < events.len() implies #[trigger] actions_of(start, tiers, events)[i]
        == out_of_turn() by {
        law_finished_is_final(start, tiers, events, 0, i);
    }
}

/// Reconciling a second time towards the same target changes nothing: if
/// `again`, the roles reported to the flow of `reconcile`, are what the
/// member holds after a first plan went through, the flow ends as
/// reconciled at once, and no action of the run sends a mutation.
pub proof fn law_second_reconcile_sends_nothing(
    tiers: Map<u64, Seq<Tier>>,
    guild_id: u64,
    discord_id: u64,
    desired_keep: Option<u64>,
    first: Seq<u64>,
    events: Seq<EventView>,
)
    requires
        events.len() > 0,
        events[0] is MemberRoles,
        roles_in(events[0]).to_set() == reconciled(guild_tiers(tiers, guild_id), first, desired_keep),
    ensures
        actions_of(reconcile_started(guild_id, discord_id, desired_keep), tiers, events)[0] == ActionView::Finish(
            Ok(OutcomeView::Reconciled),
        ),
        forall|i: int|
            0 <= i < events.len() ==> !(#[trigger] actions_of(
                reconcile_started(guild_id, discord_id, desired_keep),
                tiers,
                events,
            )[i] is Apply),
{
    let start = reconcile_started(guild_id, discord_id, desired_keep);
    law_reconcile_idempotent(guild_tiers(tiers, guild_id), first, roles_in(events[0]), desired_keep);
    lemma_run_first(start, tiers, events);
    assert forall|i: int| 0 <= i < events.len() implies !(#[trigger] actions_of(start, tiers, events)[i] is Apply) by {
        if i > 0 {
            law_finished_is_final(start, tiers, events, 0, i);
        }
    }
}

/// The first two events of a run lead to two steps from the start.
proof fn lemma_run_first_two(flow: FlowView, tiers: Map<u64, Seq<Tier>>, events: Seq<EventView>)
    requires
        events.len() > 1,
    ensures
        run(flow, tiers, events.take(2)).0 == step_model(
            step_model(flow, tiers, events[0]).0,
            tiers,
            events[1],
        ).0,
        run(flow, tiers, events.take(2)).1 == seq![
            step_model(flow, tiers, events[0]).1,
            step_model(step_model(flow, tiers, events[0]).0, tiers, events[1]).1,
        ],
{
    let two = events.take(2);
    lemma_run_first(flow, tiers, events);
    assert(two.drop_last() =~= events.take(1));
    assert(two.last() == events[1]);
    let first = step_model(flow, tiers, events[0]);
    let second = step_model(first.0, tiers, events[1]);
    assert(seq![first.1].push(second.1) =~= seq![first.1, second.1]);
}

/// After a sync that ended well the member holds the tier role of their
/// rating and no other tier role. When the flow of `current_tier_role` ends
/// as synced, the link had been found, the rating named in the outcome had
/// been fetched, the role named in the outcome is the tier role of that
/// rating, and every mutation planned towards that role had been sent in
/// order and confirmed by the platform.
pub proof fn law_synced_means_went_through(
    tiers: Map<u64, Seq<Tier>>,
    guild_id: u64,
    discord_id: u64,
    events: Seq<EventView>,
    end: int,
    rating: u32,
    role_id: u64,
)
    requires
        0 <= end < events.len(),
        actions_of(sync_started(guild_id, discord_id), tiers, events)[end] == ActionView::Finish(
            Ok(OutcomeView::Synced { rating, role_id }),
        ),
    ensures
        events[0] is LinkFound,
        events[1] == EventView::RatingFetched(rating),
        tiers.contains_key(guild_id),
        role_id == role_for(tiers[guild_id], rating as int),
        went_through(
            actions_of(sync_started(guild_id, discord_id), tiers, events),
            events,
            plan(tiers[guild_id], roles_in(events[2]), Some(role_id)),
            2,
            end,
        ),
        held_after(
            roles_in(events[2]),
            actions_of(sync_started(guild_id, discord_id), tiers, events),
            events,
            events.len() as int,
        ).contains(role_id),
        forall|role: u64|
            tier_role_set(tiers[guild_id]).contains(role) && role != role_id ==> !(#[trigger] held_after(
                roles_in(events[2]),
                actions_of(sync_started(guild_id, discord_id), tiers, events),
                events,
                events.len() as int,
            ).contains(role)),
{
    let start = sync_started(guild_id, discord_id);
    let whole = actions_of(start, tiers, events);
    let first = step_model(start, tiers, events[0]);
    lemma_run_first(start, tiers, events);
    if end == 0 {
        assert(false);
    }
    if !(events[0] is LinkFound) {
        law_finished_is_final(start, tiers, events, 0, end);
        assert(false);
    }
    let second = step_model(first.0, tiers, events[1]);
    let head = run(start, tiers, events.take(2));
    let later = events.skip(2);
    let tail = run(head.0, tiers, later);
    lemma_run_first_two(start, tiers, events);
    lemma_run_split(start, tiers, events, 2);
    lemma_run_shape(head.0, tiers, later);
    assert(whole[1] == head.1[1]);
    if end == 1 {
        assert(false);
    }
    if !(events[1] is RatingFetched && tiers.contains_key(guild_id)) {
        law_finished_is_final(start, tiers, events, 1, end);
        assert(false);
    }
    let fetched = events[1]->RatingFetched_0;
    let target = Target::Tier { rating: fetched, role_id: role_for(tiers[guild_id], fetched as int) };
    let begun = flow_in(guild_id, discord_id, PhaseView::FetchingRoles { target });
    assert(head.0 == begun);
    assert(whole[end] == tail.1[end - 2]);
    lemma_course(begun, target, tiers, later);
    assert(is_conclusion(tail.1[end - 2]));
    assert(later[0] == events[2]);
    lemma_went_through_later(
        head.1,
        tail.1,
        events,
        plan(guild_tiers(tiers, guild_id), roles_in(later[0]), target.keep()),
        end - 2,
    );
    assert forall|i: int| end <= i < events.len() implies !(#[trigger] whole[i] is Apply) by {
        if end < i {
            law_finished_is_final(start, tiers, events, end, i);
        }
    }
    assert(whole[0] == head.1[0]);
    lemma_held_after_plan(tiers[guild_id], roles_in(events[2]), Some(role_id), whole, events, 2, end, events.len() as int);
}

/// A report of a stopped reconciliation is exact. When a flow that began by
/// reading the member's roles ends with such a report, the report's three
/// parts make up the plan, the mutations listed as succeeded are the ones
/// that the platform confirmed, the one listed as failed was refused, and
/// those listed as not attempted were never sent.
pub proof fn law_partial_report_is_exact(
    start: FlowView,
    target: Target,
    tiers: Map<u64, Seq<Tier>>,
    events: Seq<EventView>,
    at: int,
    partial: PartialReconcileView,
)
    requires
        start.phase == (PhaseView::FetchingRoles { target }),
        0 <= at < events.len(),
        actions_of(start, tiers, events)[at] == ActionView::Finish(Err(FailureView::PartialReconcile(partial))),
    ensures
        accounted(
            actions_of(start, tiers, events),
            events,
            plan(guild_tiers(tiers, start.guild_id), roles_in(events[0]), target.keep()),
            partial,
            0,
            at,
        ),
        confirmed(actions_of(start, tiers, events), events, events.len() as int) == partial.succeeded,
{
    let whole = actions_of(start, tiers, events);
    let planned = plan(guild_tiers(tiers, start.guild_id), roles_in(events[0]), target.keep());
    lemma_course(start, target, tiers, events);
    lemma_run_shape(start, tiers, events);
    assert(partial_in(whole[at]) == Some(partial));
    let sent = partial.succeeded.len() as int;
    assert forall|i: int| 0 <= i < sent implies #[trigger] whole[0 + i] == ActionView::Apply(planned[i]) by {}
    lemma_confirmed_sent(whole, events, planned, 0, sent);
    assert(planned.take(sent) =~= partial.succeeded);
    assert(whole[0 + sent] == ActionView::Apply(planned[sent]));
    assert(confirmed(whole, events, sent + 1) == confirmed(whole, events, sent));
    assert forall|i: int| sent + 1 <= i < events.len() implies !(#[trigger] whole[i] is Apply) by {
        if at < i {
            law_finished_is_final(start, tiers, events, at, i);
        }
    }
    lemma_confirmed_none(whole, events, sent + 1, events.len() as int);
}

/// An event that reports a failure of a remote call.
pub open spec fn is_failure(event: EventView) -> bool {
    ||| event is StorageFailed
    ||| event is UpstreamFailed
    ||| event is MemberNotFound
    ||| event is Refused
}

/// The first failure ends the flow: the action that answers a failure is
/// the end of the flow, whatever the flow was doing, and so is every action
/// after it. In particular no mutation is sent after one was refused.
pub proof fn law_failure_ends_the_flow(
    flow: FlowView,
    tiers: Map<u64, Seq<Tier>>,
    events: Seq<EventView>,
    at: int,
    later: int,
)
    requires
        0 <= at <= later < events.len(),
        is_failure(events[at]),
    ensures
        is_finish(actions_of(flow, tiers, events)[later]),
{
    let whole = actions_of(flow, tiers, events);
    let before = run(flow, tiers, events.take(at));
    let rest = events.skip(at);
    lemma_run_split(flow, tiers, events, at);
    lemma_run_shape(flow, tiers, events.take(at));
    lemma_run_first(before.0, tiers, rest);
    assert(whole[at] == run(before.0, tiers, rest).1[0]);
    assert(is_finish(whole[at]));
    if at < later {
        law_finished_is_final(flow, tiers, events, at, later);
    }
}

/// How many more events a flow can take, at most, before it is over: one
/// per remote call that may still be due. A reconciliation sends at most one
/// removal per bracket of the guild's table and one addition.
pub open spec fn events_left(flow: FlowView, tiers: Map<u64, Seq<Tier>>) -> nat {
    let brackets = guild_tiers(tiers, flow.guild_id).len();
    match flow.phase {
        PhaseView::Finished => 0,
        PhaseView::StoringChallenge { .. } => 1,
        PhaseView::DeletingLink => 1,
        PhaseView::Applying { target, remaining, .. } => remaining.len() + 1 + closing_calls(target),
        PhaseView::FetchingRoles { target } => brackets + 2 + closing_calls(target),
        PhaseView::FetchingRating => brackets + 3,
        PhaseView::FindingLink { .. } => brackets + 4,
    }
}

/// The calls that follow a reconciliation towards `target`: the deletion of
/// the link where the member is being unlinked.
pub open spec fn closing_calls(target: Target) -> nat {
    match target {
        Target::Strip => 1,
        _ => 0,
    }
}

/// Every event brings a flow closer to its end.
proof fn lemma_step_draws_closer(flow: FlowView, tiers: Map<u64, Seq<Tier>>, event: EventView)
    ensures
        step_model(flow, tiers, event).0.guild_id == flow.guild_id,
        events_left(step_model(flow, tiers, event).0, tiers) < events_left(flow, tiers) || (events_left(
            step_model(flow, tiers, event).0,
            tiers,
        ) == 0 && flow.phase is Finished),
{
    match (flow.phase, event) {
        (PhaseView::FetchingRoles { target }, EventView::MemberRoles(roles)) => {
            let planned = plan(guild_tiers(tiers, flow.guild_id), roles, target.keep());
            lemma_plan_is_short(guild_tiers(tiers, flow.guild_id), roles, target.keep());
            if planned.len() > 0 {
                assert(planned.drop_first().len() == planned.len() - 1);
            }
        },
        (PhaseView::Applying { remaining, .. }, EventView::Applied) => {
            if remaining.len() > 0 {
                assert(remaining.drop_first().len() == remaining.len() - 1);
            }
        },
        _ => {},
    }
}

/// Flows are bounded: a flow is over once it was told as many events as
/// [`events_left`] allows it, whatever the events were. A member's unlinking
/// or sync therefore makes at most four remote calls more than the guild has
/// brackets.
pub proof fn law_flows_end(flow: FlowView, tiers: Map<u64, Seq<Tier>>, events: Seq<EventView>)
    ensures
        events_left(run(flow, tiers, events).0, tiers) + events.len() <= events_left(flow, tiers) || run(
            flow,
            tiers,
            events,
        ).0.phase is Finished,
        events.len() >= events_left(flow, tiers) ==> run(flow, tiers, events).0.phase is Finished,
    decreases events.len(),
{
    if events.len() > 0 {
        let before = run(flow, tiers, events.drop_last());
        law_flows_end(flow, tiers, events.drop_last());
        lemma_step_draws_closer(before.0, tiers, events.last());
    }
}

} // verus!
