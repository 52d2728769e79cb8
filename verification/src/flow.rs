//! The protocol of the user-facing operations.
//!
//! An operation is a [`Flow`]. It never calls out by itself: it names the
//! remote call that is due as an [`Action`], the caller makes that call and
//! reports what came of it as an [`Event`], and [`Flow::step`] says what is
//! due next. A flow ends with [`Action::Finish`].
//!
//! Every answer of a remote call is final for the flow: nothing is retried,
//! and the first failure ends the flow.

use crate::challenge::{challenge_for, Challenge, ChallengeView};
use crate::reconcile::{plan, plan_mutations, Mutation};
use crate::tiers::{guild_tiers, role_for, ConfigError, Tier, TierMap};
use vstd::prelude::*;

verus! {

/// What a flow that looks up a link will do with it.
#[derive(Clone, Copy, Debug, PartialEq, Eq)]
pub enum Purpose {
    /// Bring the member's tier role in line with their rating.
    Sync,
    /// Strip the member's tier roles and forget the link.
    Unlink,
}

/// What a reconciliation is to achieve.
#[derive(Clone, Copy, Debug, PartialEq, Eq)]
pub enum Target {
    /// No tier role at all, and then the deletion of the link.
    Strip,
    /// The tier role `role_id`, which stands for `rating`.
    Tier { rating: u32, role_id: u64 },
    /// The given role as the only tier role, or no tier role.
    Keep(Option<u64>),
}

impl Target {
    /// The one tier role that the member is to hold, if any.
    pub open spec fn keep(self) -> Option<u64> {
        match self {
            Target::Strip => None,
            Target::Tier { role_id, .. } => Some(role_id),
            Target::Keep(keep) => keep,
        }
    }

    /// The one tier role that the member is to hold, if any.
    pub fn kept(&self) -> (keep: Option<u64>)
        ensures
            keep == self.keep(),
    {
        match self {
            Target::Strip => None,
            Target::Tier { role_id, .. } => Some(*role_id),
            Target::Keep(keep) => *keep,
        }
    }
}

/// A reconciliation that stopped halfway. The member may hold neither the
/// old nor the new set of roles.
#[derive(Debug, PartialEq, Eq)]
pub struct PartialReconcile {
    /// The mutations that the platform carried out, in order.
    pub succeeded: Vec<Mutation>,
    /// The mutation that the platform refused.
    pub failed: Mutation,
    /// The mutations that were never sent, in order.
    pub not_attempted: Vec<Mutation>,
}

/// A stopped reconciliation as plain values.
pub struct PartialReconcileView {
    pub succeeded: Seq<Mutation>,
    pub failed: Mutation,
    pub not_attempted: Seq<Mutation>,
}

impl View for PartialReconcile {
    type V = PartialReconcileView;

    open spec fn view(&self) -> PartialReconcileView {
        PartialReconcileView {
            succeeded: self.succeeded@,
            failed: self.failed,
            not_attempted: self.not_attempted@,
        }
    }
}

/// Why a flow ended without doing what it was started for.
#[derive(Debug, PartialEq, Eq)]
pub enum Failure {
    /// The guild has no usable tier table.
    Config(ConfigError),
    /// The store of links and challenges failed.
    Storage,
    /// The member has not linked an account.
    NotLinked,
    /// The rating service did not give a rating.
    Upstream,
    /// The platform does not know the member in this guild.
    MemberLookup,
    /// Some but not all role mutations were carried out.
    PartialReconcile(PartialReconcile),
    /// An event was reported that does not answer the call that was due.
    Unexpected,
}

/// A failure as plain values.
pub enum FailureView {
    Config(ConfigError),
    Storage,
    NotLinked,
    Upstream,
    MemberLookup,
    PartialReconcile(PartialReconcileView),
    Unexpected,
}

impl View for Failure {
    type V = FailureView;

    open spec fn view(&self) -> FailureView {
        match self {
            Failure::Config(fault) => FailureView::Config(*fault),
            Failure::Storage => FailureView::Storage,
            Failure::NotLinked => FailureView::NotLinked,
            Failure::Upstream => FailureView::Upstream,
            Failure::MemberLookup => FailureView::MemberLookup,
            Failure::PartialReconcile(partial) => FailureView::PartialReconcile(partial@),
            Failure::Unexpected => FailureView::Unexpected,
        }
    }
}

/// What a flow achieved.
#[derive(Debug, PartialEq, Eq)]
pub enum Outcome {
    /// A challenge is stored; the member is to open the URL.
    ChallengeIssued(String),
    /// The member holds `role_id`, the tier role of `rating`, and no other
    /// tier role.
    Synced { rating: u32, role_id: u64 },
    /// The member holds no tier role and the link is deleted.
    Unlinked,
    /// The member was not linked; nothing was changed.
    NothingToDelete,
    /// The member's tier roles are as asked.
    Reconciled,
}

/// An outcome as plain values.
pub enum OutcomeView {
    ChallengeIssued(Seq<char>),
    Synced { rating: u32, role_id: u64 },
    Unlinked,
    NothingToDelete,
    Reconciled,
}

impl View for Outcome {
    type V = OutcomeView;

    open spec fn view(&self) -> OutcomeView {
        match self {
            Outcome::ChallengeIssued(url) => OutcomeView::ChallengeIssued(url@),
            Outcome::Synced { rating, role_id } => OutcomeView::Synced { rating: *rating, role_id: *role_id },
            Outcome::Unlinked => OutcomeView::Unlinked,
            Outcome::NothingToDelete => OutcomeView::NothingToDelete,
            Outcome::Reconciled => OutcomeView::Reconciled,
        }
    }
}

/// The result of a flow as plain values.
pub open spec fn result_view(result: Result<Outcome, Failure>) -> Result<OutcomeView, FailureView> {
    match result {
        Ok(outcome) => Ok(outcome@),
        Err(failure) => Err(failure@),
    }
}

/// What came of the remote call that was due.
#[derive(Debug, PartialEq, Eq)]
pub enum Event {
    /// The challenge is stored.
    ChallengeStored,
    /// The member is linked to this account on the rating service.
    LinkFound(String),
    /// The member is not linked.
    LinkMissing,
    /// The link is deleted.
    LinkDeleted,
    /// The store failed.
    StorageFailed,
    /// The rating service gave this rating.
    RatingFetched(u32),
    /// The rating service failed or timed out.
    UpstreamFailed,
    /// The member holds these roles.
    MemberRoles(Vec<u64>),
    /// The platform does not know the member in this guild.
    MemberNotFound,
    /// The platform carried out the mutation.
    Applied,
    /// The platform refused the mutation, or did not answer in time.
    Refused,
}

/// An event as plain values.
pub enum EventView {
    ChallengeStored,
    LinkFound(Seq<char>),
    LinkMissing,
    LinkDeleted,
    StorageFailed,
    RatingFetched(u32),
    UpstreamFailed,
    MemberRoles(Seq<u64>),
    MemberNotFound,
    Applied,
    Refused,
}

impl View for Event {
    type V = EventView;

    open spec fn view(&self) -> EventView {
        match self {
            Event::ChallengeStored => EventView::ChallengeStored,
            Event::LinkFound(account) => EventView::LinkFound(account@),
            Event::LinkMissing => EventView::LinkMissing,
            Event::LinkDeleted => EventView::LinkDeleted,
            Event::StorageFailed => EventView::StorageFailed,
            Event::RatingFetched(rating) => EventView::RatingFetched(*rating),
            Event::UpstreamFailed => EventView::UpstreamFailed,
            Event::MemberRoles(roles) => EventView::MemberRoles(roles@),
            Event::MemberNotFound => EventView::MemberNotFound,
            Event::Applied => EventView::Applied,
            Event::Refused => EventView::Refused,
        }
    }
}

/// The remote call that is due, or the end of the flow.
#[derive(Debug, PartialEq, Eq)]
pub enum Action {
    /// Store the challenge as the member's one active challenge, replacing
    /// an earlier one in the same step.
    StoreChallenge(Challenge),
    /// Look up the member's link.
    FindLink,
    /// Ask the rating service for the current rating of this account.
    FetchRating(String),
    /// Ask the platform for the roles that the member holds.
    FetchMemberRoles,
    /// Ask the platform to carry out this mutation on the member.
    Apply(Mutation),
    /// Delete the member's link.
    DeleteLink,
    /// The flow is over, with this result.
    Finish(Result<Outcome, Failure>),
}

/// An action as plain values.
pub enum ActionView {
    StoreChallenge(ChallengeView),
    FindLink,
    FetchRating(Seq<char>),
    FetchMemberRoles,
    Apply(Mutation),
    DeleteLink,
    Finish(Result<OutcomeView, FailureView>),
}

impl View for Action {
    type V = ActionView;

    open spec fn view(&self) -> ActionView {
        match self {
            Action::StoreChallenge(challenge) => ActionView::StoreChallenge(challenge@),
            Action::FindLink => ActionView::FindLink,
            Action::FetchRating(account) => ActionView::FetchRating(account@),
            Action::FetchMemberRoles => ActionView::FetchMemberRoles,
            Action::Apply(mutation) => ActionView::Apply(*mutation),
            Action::DeleteLink => ActionView::DeleteLink,
            Action::Finish(result) => ActionView::Finish(result_view(*result)),
        }
    }
}

/// Where a flow stands: the call whose answer it waits for.
#[derive(Debug)]
enum Phase {
    StoringChallenge { url: String },
    FindingLink { purpose: Purpose },
    FetchingRating,
    FetchingRoles { target: Target },
    Applying { target: Target, succeeded: Vec<Mutation>, in_flight: Mutation, remaining: Vec<Mutation> },
    DeletingLink,
    Finished,
}

/// Where a flow stands, as plain values.
pub enum PhaseView {
    /// The challenge with this URL is being stored.
    StoringChallenge { url: Seq<char> },
    /// The member's link is being looked up.
    FindingLink { purpose: Purpose },
    /// The rating is being fetched.
    FetchingRating,
    /// The member's roles are being read.
    FetchingRoles { target: Target },
    /// `in_flight` was sent to the platform; `succeeded` went through before
    /// it and `remaining` is still to be sent.
    Applying { target: Target, succeeded: Seq<Mutation>, in_flight: Mutation, remaining: Seq<Mutation> },
    /// The link is being deleted.
    DeletingLink,
    /// The flow is over.
    Finished,
}

impl View for Phase {
    type V = PhaseView;

    closed spec fn view(&self) -> PhaseView {
        match self {
            Phase::StoringChallenge { url } => PhaseView::StoringChallenge { url: url@ },
            Phase::FindingLink { purpose } => PhaseView::FindingLink { purpose: *purpose },
            Phase::FetchingRating => PhaseView::FetchingRating,
            Phase::FetchingRoles { target } => PhaseView::FetchingRoles { target: *target },
            Phase::Applying { target, succeeded, in_flight, remaining } => PhaseView::Applying {
                target: *target,
                succeeded: succeeded@,
                in_flight: *in_flight,
                remaining: remaining@,
            },
            Phase::DeletingLink => PhaseView::DeletingLink,
            Phase::Finished => PhaseView::Finished,
        }
    }
}

/// One operation on one member of one guild, in progress.
#[derive(Debug)]
pub struct Flow {
    guild_id: u64,
    discord_id: u64,
    phase: Phase,
}

/// A flow as plain values.
pub struct FlowView {
    pub guild_id: u64,
    pub discord_id: u64,
    pub phase: PhaseView,
}

impl View for Flow {
    type V = FlowView;

    closed spec fn view(&self) -> FlowView {
        FlowView { guild_id: self.guild_id, discord_id: self.discord_id, phase: self.phase@ }
    }
}

/// The end of a flow with `result`.
pub open spec fn halted(flow: FlowView, result: Result<OutcomeView, FailureView>) -> (FlowView, ActionView) {
    (FlowView { phase: PhaseView::Finished, ..flow }, ActionView::Finish(result))
}

/// What follows a reconciliation that went through: the deletion of the
/// link where the member is being unlinked, the end of the flow otherwise.
pub open spec fn concluded(flow: FlowView, target: Target) -> (FlowView, ActionView) {
    match target {
        Target::Strip => (FlowView { phase: PhaseView::DeletingLink, ..flow }, ActionView::DeleteLink),
        Target::Tier { rating, role_id } => halted(flow, Ok(OutcomeView::Synced { rating, role_id })),
        Target::Keep(_) => halted(flow, Ok(OutcomeView::Reconciled)),
    }
}

/// Sends the first of `pending`, or concludes if nothing is pending.
pub open spec fn advanced(flow: FlowView, target: Target, succeeded: Seq<Mutation>, pending: Seq<Mutation>) -> (
    FlowView,
    ActionView,
) {
    if pending.len() == 0 {
        concluded(flow, target)
    } else {
        (
            FlowView {
                phase: PhaseView::Applying {
                    target,
                    succeeded,
                    in_flight: pending[0],
                    remaining: pending.drop_first(),
                },
                ..flow
            },
            ActionView::Apply(pending[0]),
        )
    }
}

/// The protocol: the flow and the action that follow when `event` is
/// reported to `flow`.
///
/// * While a challenge is being stored: stored, and the flow ends with the
///   URL to send to the member.
/// * While the link is looked up: found, and the rating is fetched (sync)
///   or the member's roles are read (unlink); missing, and the flow ends,
///   as `NotLinked` (sync) or with nothing to delete (unlink).
/// * While the rating is fetched: the rating's tier role becomes the target
///   and the member's roles are read.
/// * When the member's roles arrive, the plan is made and its first
///   mutation is sent. Each `Applied` sends the next one. After the last
///   one, or with an empty plan, the flow concludes.
/// * `Refused` ends the flow with the mutations that went through, the one
///   that was refused and those never sent. No later mutation is sent.
/// * While the link is deleted: deleted, and the flow ends as unlinked.
/// * A failure of the store, the rating service or the member lookup ends
///   the flow with that failure.
/// * Any other event ends the flow as `Unexpected`.
pub open spec fn step_model(flow: FlowView, tiers: Map<u64, Seq<Tier>>, event: EventView) -> (
    FlowView,
    ActionView,
) {
    match (flow.phase, event) {
        (PhaseView::StoringChallenge { url }, EventView::ChallengeStored) => halted(
            flow,
            Ok(OutcomeView::ChallengeIssued(url)),
        ),
        (PhaseView::StoringChallenge { .. }, EventView::StorageFailed) => halted(
            flow,
            Err(FailureView::Storage),
        ),
        (PhaseView::FindingLink { purpose: Purpose::Sync }, EventView::LinkFound(account)) => (
            FlowView { phase: PhaseView::FetchingRating, ..flow },
            ActionView::FetchRating(account),
        ),
        (PhaseView::FindingLink { purpose: Purpose::Unlink }, EventView::LinkFound(_)) => (
            FlowView { phase: PhaseView::FetchingRoles { target: Target::Strip }, ..flow },
            ActionView::FetchMemberRoles,
        ),
        (PhaseView::FindingLink { purpose: Purpose::Sync }, EventView::LinkMissing) => halted(
            flow,
            Err(FailureView::NotLinked),
        ),
        (PhaseView::FindingLink { purpose: Purpose::Unlink }, EventView::LinkMissing) => halted(
            flow,
            Ok(OutcomeView::NothingToDelete),
        ),
        (PhaseView::FindingLink { .. }, EventView::StorageFailed) => halted(flow, Err(FailureView::Storage)),
        (PhaseView::FetchingRating, EventView::RatingFetched(rating)) => if tiers.contains_key(
            flow.guild_id,
        ) {
            (
                FlowView {
                    phase: PhaseView::FetchingRoles {
                        target: Target::Tier { rating, role_id: role_for(tiers[flow.guild_id], rating as int) },
                    },
                    ..flow
                },
                ActionView::FetchMemberRoles,
            )
        } else {
            halted(flow, Err(FailureView::Config(ConfigError::NoTiers)))
        },
        (PhaseView::FetchingRating, EventView::UpstreamFailed) => halted(flow, Err(FailureView::Upstream)),
        (PhaseView::FetchingRoles { target }, EventView::MemberRoles(roles)) => advanced(
            flow,
            target,
            Seq::empty(),
            plan(guild_tiers(tiers, flow.guild_id), roles, target.keep()),
        ),
        (PhaseView::FetchingRoles { .. }, EventView::MemberNotFound) => halted(
            flow,
            Err(FailureView::MemberLookup),
        ),
        (PhaseView::Applying { target, succeeded, in_flight, remaining }, EventView::Applied) => advanced(
            flow,
            target,
            succeeded.push(in_flight),
            remaining,
        ),
        (PhaseView::Applying { succeeded, in_flight, remaining, .. }, EventView::Refused) => halted(
            flow,
            Err(
                FailureView::PartialReconcile(
                    PartialReconcileView { succeeded, failed: in_flight, not_attempted: remaining },
                ),
            ),
        ),
        (PhaseView::DeletingLink, EventView::LinkDeleted) => halted(flow, Ok(OutcomeView::Unlinked)),
        (PhaseView::DeletingLink, EventView::StorageFailed) => halted(flow, Err(FailureView::Storage)),
        _ => halted(flow, Err(FailureView::Unexpected)),
    }
}

/// A flow of `guild_id` and `discord_id` in the given phase.
pub open spec fn flow_in(guild_id: u64, discord_id: u64, phase: PhaseView) -> FlowView {
    FlowView { guild_id, discord_id, phase }
}

fn halt(guild_id: u64, discord_id: u64, result: Result<Outcome, Failure>) -> (next: (Flow, Action))
    ensures
        forall|phase: PhaseView|
            (next.0@, next.1@) == #[trigger] halted(flow_in(guild_id, discord_id, phase), result_view(result)),
{
    (Flow { guild_id, discord_id, phase: Phase::Finished }, Action::Finish(result))
}

fn conclude(guild_id: u64, discord_id: u64, target: Target) -> (next: (Flow, Action))
    ensures
        forall|phase: PhaseView|
            (next.0@, next.1@) == #[trigger] concluded(flow_in(guild_id, discord_id, phase), target),
{
    match target {
        Target::Strip => (Flow { guild_id, discord_id, phase: Phase::DeletingLink }, Action::DeleteLink),
        Target::Tier { rating, role_id } => halt(guild_id, discord_id, Ok(Outcome::Synced { rating, role_id })),
        Target::Keep(_) => halt(guild_id, discord_id, Ok(Outcome::Reconciled)),
    }
}

fn advance(guild_id: u64, discord_id: u64, target: Target, succeeded: Vec<Mutation>, pending: Vec<Mutation>) -> (next:
    (Flow, Action))
    ensures
        forall|phase: PhaseView|
            (next.0@, next.1@) == #[trigger] advanced(
                flow_in(guild_id, discord_id, phase),
                target,
                succeeded@,
                pending@,
            ),
{
    if pending.len() == 0 {
        conclude(guild_id, discord_id, target)
    } else {
        let mut remaining = pending;
        let in_flight = remaining.remove(0);
        assert(remaining@ =~= pending@.drop_first());
        (
            Flow { guild_id, discord_id, phase: Phase::Applying { target, succeeded, in_flight, remaining } },
            Action::Apply(in_flight),
        )
    }
}

/// The flow of `link` at its start.
pub open spec fn link_started(guild_id: u64, discord_id: u64, token: Seq<char>, base_url: Seq<char>) -> FlowView {
    flow_in(guild_id, discord_id, PhaseView::StoringChallenge { url: base_url + token })
}

/// The flow of `unlink` at its start.
pub open spec fn unlink_started(guild_id: u64, discord_id: u64) -> FlowView {
    flow_in(guild_id, discord_id, PhaseView::FindingLink { purpose: Purpose::Unlink })
}

/// The flow of `current_tier_role` at its start.
pub open spec fn sync_started(guild_id: u64, discord_id: u64) -> FlowView {
    flow_in(guild_id, discord_id, PhaseView::FindingLink { purpose: Purpose::Sync })
}

/// The flow of `reconcile` at its start.
pub open spec fn reconcile_started(guild_id: u64, discord_id: u64, desired_keep: Option<u64>) -> FlowView {
    flow_in(guild_id, discord_id, PhaseView::FetchingRoles { target: Target::Keep(desired_keep) })
}

/// Starts linking a member: builds the member's challenge around `token`,
/// which the caller has freshly drawn, and asks for it to be stored. Once
/// it is stored the flow ends with the URL to hand to the member in private.
pub fn link(guild_id: u64, discord_id: u64, token: String, base_url: &str, created_at: u64) -> (start: (
    Flow,
    Action,
))
    ensures
        start.0@ == link_started(guild_id, discord_id, token@, base_url@),
        start.1@ == ActionView::StoreChallenge(
            challenge_for(guild_id, discord_id, token@, base_url@, created_at),
        ),
{
    let challenge = Challenge::new(guild_id, discord_id, token, base_url, created_at);
    let url = challenge.external_profile_url.clone();
    (Flow { guild_id, discord_id, phase: Phase::StoringChallenge { url } }, Action::StoreChallenge(challenge))
}

/// Starts unlinking a member: the link is looked up first. Without a link
/// the flow ends with nothing to delete. With one, the member's tier roles
/// are stripped, and only when all of that went through is the link deleted.
pub fn unlink(guild_id: u64, discord_id: u64) -> (start: (Flow, Action))
    ensures
        start.0@ == unlink_started(guild_id, discord_id),
        start.1@ == ActionView::FindLink,
{
    (Flow { guild_id, discord_id, phase: Phase::FindingLink { purpose: Purpose::Unlink } }, Action::FindLink)
}

/// Starts a rating sync: the link is looked up, the rating of the linked
/// account is fetched, and the member is reconciled towards the tier role
/// of that rating, with which the flow ends.
pub fn current_tier_role(guild_id: u64, discord_id: u64) -> (start: (Flow, Action))
    ensures
        start.0@ == sync_started(guild_id, discord_id),
        start.1@ == ActionView::FindLink,
{
    (Flow { guild_id, discord_id, phase: Phase::FindingLink { purpose: Purpose::Sync } }, Action::FindLink)
}

/// Starts a reconciliation towards `desired_keep` as the member's only tier
/// role, or towards no tier role: the member's roles are read first.
pub fn reconcile(guild_id: u64, discord_id: u64, desired_keep: Option<u64>) -> (start: (Flow, Action))
    ensures
        start.0@ == reconcile_started(guild_id, discord_id, desired_keep),
        start.1@ == ActionView::FetchMemberRoles,
{
    (
        Flow { guild_id, discord_id, phase: Phase::FetchingRoles { target: Target::Keep(desired_keep) } },
        Action::FetchMemberRoles,
    )
}

impl Flow {
    /// The guild of the member.
    pub fn guild_id(&self) -> (guild_id: u64)
        ensures
            guild_id == self@.guild_id,
    {
        self.guild_id
    }

    /// The member.
    pub fn discord_id(&self) -> (discord_id: u64)
        ensures
            discord_id == self@.discord_id,
    {
        self.discord_id
    }

    /// Whether the flow is over.
    pub fn is_finished(&self) -> (finished: bool)
        ensures
            finished == (self@.phase is Finished),
    {
        match self.phase {
            Phase::Finished => true,
            _ => false,
        }
    }

    /// Reports `event`, the answer to the call that was due, and says what is
    /// due next, as [`step_model`] lays down.
    pub fn step(self, tiers: &TierMap, event: Event) -> (next: (Flow, Action))
        ensures
            (next.0@, next.1@) == step_model(self@, tiers@, event@),
    {
        let guild_id = self.guild_id;
        let discord_id = self.discord_id;
        let ghost before = self@;
        assert(before == flow_in(guild_id, discord_id, before.phase));
        match (self.phase, event) {
            (Phase::StoringChallenge { url }, Event::ChallengeStored) => halt(
                guild_id,
                discord_id,
                Ok(Outcome::ChallengeIssued(url)),
            ),
            (Phase::StoringChallenge { .. }, Event::StorageFailed) => halt(
                guild_id,
                discord_id,
                Err(Failure::Storage),
            ),
            (Phase::FindingLink { purpose: Purpose::Sync }, Event::LinkFound(account)) => (
                Flow { guild_id, discord_id, phase: Phase::FetchingRating },
                Action::FetchRating(account),
            ),
            (Phase::FindingLink { purpose: Purpose::Unlink }, Event::LinkFound(_)) => (
                Flow { guild_id, discord_id, phase: Phase::FetchingRoles { target: Target::Strip } },
                Action::FetchMemberRoles,
            ),
            (Phase::FindingLink { purpose: Purpose::Sync }, Event::LinkMissing) => halt(
                guild_id,
                discord_id,
                Err(Failure::NotLinked),
            ),
            (Phase::FindingLink { purpose: Purpose::Unlink }, Event::LinkMissing) => halt(
                guild_id,
                discord_id,
                Ok(Outcome::NothingToDelete),
            ),
            (Phase::FindingLink { .. }, Event::StorageFailed) => halt(guild_id, discord_id, Err(Failure::Storage)),
            (Phase::FetchingRating, Event::RatingFetched(rating)) => match tiers.tier_role_for(guild_id, rating) {
                Ok(role_id) => (
                    Flow {
                        guild_id,
                        discord_id,
                        phase: Phase::FetchingRoles { target: Target::Tier { rating, role_id } },
                    },
                    Action::FetchMemberRoles,
                ),
                Err(fault) => halt(guild_id, discord_id, Err(Failure::Config(fault))),
            },
            (Phase::FetchingRating, Event::UpstreamFailed) => halt(guild_id, discord_id, Err(Failure::Upstream)),
            (Phase::FetchingRoles { target }, Event::MemberRoles(roles)) => {
                let planned = plan_mutations(tiers, guild_id, roles.as_slice(), target.kept());
                advance(guild_id, discord_id, target, Vec::new(), planned)
            },
            (Phase::FetchingRoles { .. }, Event::MemberNotFound) => halt(
                guild_id,
                discord_id,
                Err(Failure::MemberLookup),
            ),
            (Phase::Applying { target, succeeded, in_flight, remaining }, Event::Applied) => {
                let mut succeeded = succeeded;
                succeeded.push(in_flight);
                advance(guild_id, discord_id, target, succeeded, remaining)
            },
            (Phase::Applying { succeeded, in_flight, remaining, .. }, Event::Refused) => halt(
                guild_id,
                discord_id,
                Err(
                    Failure::PartialReconcile(
                        PartialReconcile { succeeded, failed: in_flight, not_attempted: remaining },
                    ),
                ),
            ),
            (Phase::DeletingLink, Event::LinkDeleted) => halt(guild_id, discord_id, Ok(Outcome::Unlinked)),
            (Phase::DeletingLink, Event::StorageFailed) => halt(guild_id, discord_id, Err(Failure::Storage)),
            _ => halt(guild_id, discord_id, Err(Failure::Unexpected)),
        }
    }
}

} // verus!
