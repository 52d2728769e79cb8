use liro::challenge::{Challenge, ChallengeStore};
use liro::flow::{current_tier_role, link, reconcile, unlink, Action, Event, Failure, Flow, Outcome, PartialReconcile};
use liro::links::{UserLink, UserLinkStore};
use liro::reconcile::Mutation;
use liro::response::{respond, RatingCard, Response};
use liro::tiers::{ConfigError, Tier, TierMap, TierRoleSet};

const GUILD: u64 = 7001;
const USER: u64 = 42;
const R1: u64 = 101;
const R2: u64 = 102;
const R3: u64 = 103;
const MODERATOR: u64 = 900;
const BASE: &str = "https://ratings.example/verify/";

fn guild_map() -> TierMap {
    let mut map = TierMap::new();
    let tiers = vec![
        Tier { lower_bound: 0, role_id: R1 },
        Tier { lower_bound: 1200, role_id: R2 },
        Tier { lower_bound: 1800, role_id: R3 },
    ];
    map.configure(GUILD, TierRoleSet::new(tiers).unwrap());
    map
}

/// Everything outside the library, held in memory.
struct World {
    links: UserLinkStore,
    challenges: ChallengeStore,
    storage_up: bool,
    rating: Option<u32>,
    roles: Option<Vec<u64>>,
    refused: Vec<Mutation>,
    calls: Vec<String>,
}

fn world() -> World {
    World {
        links: UserLinkStore::new(),
        challenges: ChallengeStore::new(),
        storage_up: true,
        rating: None,
        roles: Some(Vec::new()),
        refused: Vec::new(),
        calls: Vec::new(),
    }
}

fn linked_world(roles: &[u64], rating: u32) -> World {
    let mut w = world();
    w.links.insert(UserLink {
        guild_id: GUILD,
        discord_id: USER,
        external_account_id: "magnus".to_string(),
        linked_at: 1_700_000_000,
    });
    w.roles = Some(roles.to_vec());
    w.rating = Some(rating);
    w
}

fn answer(w: &mut World, flow: &Flow, action: Action) -> Result<Event, Result<Outcome, Failure>> {
    let (guild_id, discord_id) = (flow.guild_id(), flow.discord_id());
    Ok(match action {
        Action::StoreChallenge(challenge) => {
            w.calls.push(format!("store {}", challenge.verification_token));
            if w.storage_up {
                w.challenges.issue(challenge);
                Event::ChallengeStored
            } else {
                Event::StorageFailed
            }
        }
        Action::FindLink => {
            w.calls.push("find".to_string());
            if !w.storage_up {
                Event::StorageFailed
            } else {
                match w.links.find(guild_id, discord_id) {
                    Some(found) => Event::LinkFound(found.external_account_id.clone()),
                    None => Event::LinkMissing,
                }
            }
        }
        Action::FetchRating(account) => {
            w.calls.push(format!("rating {}", account));
            match w.rating {
                Some(rating) => Event::RatingFetched(rating),
                None => Event::UpstreamFailed,
            }
        }
        Action::FetchMemberRoles => {
            w.calls.push("roles".to_string());
            match &w.roles {
                Some(roles) => Event::MemberRoles(roles.clone()),
                None => Event::MemberNotFound,
            }
        }
        Action::Apply(mutation) => {
            w.calls.push(format!("{:?}", mutation));
            if w.refused.contains(&mutation) {
                Event::Refused
            } else {
                let roles = w.roles.as_mut().unwrap();
                match mutation {
                    Mutation::Remove(role) => roles.retain(|r| *r != role),
                    Mutation::Add(role) => roles.push(role),
                }
                Event::Applied
            }
        }
        Action::DeleteLink => {
            w.calls.push("delete".to_string());
            if w.storage_up {
                w.links.delete(guild_id, discord_id);
                Event::LinkDeleted
            } else {
                Event::StorageFailed
            }
        }
        Action::Finish(result) => return Err(result),
    })
}

fn drive(w: &mut World, tiers: &TierMap, start: (Flow, Action)) -> Result<Outcome, Failure> {
    let (mut flow, mut action) = start;
    loop {
        match answer(w, &flow, action) {
            Ok(event) => {
                let next = flow.step(tiers, event);
                flow = next.0;
                action = next.1;
            }
            Err(result) => {
                assert!(flow.is_finished());
                return result;
            }
        }
    }
}

#[test]
fn sync_promotes_member_from_first_to_second_tier() {
    let tiers = guild_map();
    let mut w = linked_world(&[R1], 1500);
    let result = drive(&mut w, &tiers, current_tier_role(GUILD, USER));
    assert_eq!(result, Ok(Outcome::Synced { rating: 1500, role_id: R2 }));
    assert_eq!(w.calls, vec!["find", "rating magnus", "roles", "Remove(101)", "Add(102)"]);
    assert_eq!(w.roles, Some(vec![R2]));
    assert_eq!(respond(&result), Response::Embed(RatingCard { rating: 1500, role_id: R2 }));
}

#[test]
fn unlink_strips_tier_role_then_deletes_link() {
    let tiers = guild_map();
    let mut w = linked_world(&[R2], 1500);
    let result = drive(&mut w, &tiers, unlink(GUILD, USER));
    assert_eq!(result, Ok(Outcome::Unlinked));
    assert_eq!(w.calls, vec!["find", "roles", "Remove(102)", "delete"]);
    assert_eq!(w.roles, Some(Vec::new()));
    assert!(w.links.find(GUILD, USER).is_none());
    assert_eq!(
        respond(&result),
        Response::PrivateSentence("User information deleted. Toodles! :wave:".to_string())
    );
}

#[test]
fn unlink_without_link_changes_nothing() {
    let tiers = guild_map();
    let mut w = world();
    w.roles = Some(vec![R1, MODERATOR]);
    let result = drive(&mut w, &tiers, unlink(GUILD, USER));
    assert_eq!(result, Ok(Outcome::NothingToDelete));
    assert_eq!(w.calls, vec!["find"]);
    assert_eq!(w.roles, Some(vec![R1, MODERATOR]));
    assert_eq!(
        respond(&result),
        Response::PrivateSentence("I don't see any data to delete:question:".to_string())
    );
}

#[test]
fn unlink_keeps_link_when_a_removal_is_refused() {
    let tiers = guild_map();
    let mut w = linked_world(&[R1, R2, R3, MODERATOR], 1500);
    w.refused = vec![Mutation::Remove(R2)];
    let result = drive(&mut w, &tiers, unlink(GUILD, USER));
    assert_eq!(
        result,
        Err(Failure::PartialReconcile(PartialReconcile {
            succeeded: vec![Mutation::Remove(R1)],
            failed: Mutation::Remove(R2),
            not_attempted: vec![Mutation::Remove(R3)],
        }))
    );
    assert_eq!(w.calls, vec!["find", "roles", "Remove(101)", "Remove(102)"]);
    assert!(w.links.find(GUILD, USER).is_some());
    assert_eq!(w.roles, Some(vec![R2, R3, MODERATOR]));
    assert_eq!(respond(&result), Response::Sentence("Internal bot error. @teotwaki, I'm scared.".to_string()));
}

#[test]
fn unlink_keeps_link_when_member_is_gone() {
    let tiers = guild_map();
    let mut w = linked_world(&[R1], 1500);
    w.roles = None;
    let result = drive(&mut w, &tiers, unlink(GUILD, USER));
    assert_eq!(result, Err(Failure::MemberLookup));
    assert_eq!(w.calls, vec!["find", "roles"]);
    assert!(w.links.find(GUILD, USER).is_some());
}

#[test]
fn unlink_of_member_without_tier_roles_deletes_at_once() {
    let tiers = guild_map();
    let mut w = linked_world(&[MODERATOR], 1500);
    let result = drive(&mut w, &tiers, unlink(GUILD, USER));
    assert_eq!(result, Ok(Outcome::Unlinked));
    assert_eq!(w.calls, vec!["find", "roles", "delete"]);
    assert_eq!(w.roles, Some(vec![MODERATOR]));
}

#[test]
fn unlink_reports_storage_failure_on_lookup_and_on_delete() {
    let tiers = guild_map();
    let mut w = linked_world(&[R1], 1500);
    w.storage_up = false;
    assert_eq!(drive(&mut w, &tiers, unlink(GUILD, USER)), Err(Failure::Storage));
    assert_eq!(w.calls, vec!["find"]);

    let (flow, action) = unlink(GUILD, USER);
    assert_eq!(action, Action::FindLink);
    let (flow, action) = flow.step(&tiers, Event::LinkFound("magnus".to_string()));
    assert_eq!(action, Action::FetchMemberRoles);
    let (flow, action) = flow.step(&tiers, Event::MemberRoles(vec![]));
    assert_eq!(action, Action::DeleteLink);
    assert!(!flow.is_finished());
    let (flow, action) = flow.step(&tiers, Event::StorageFailed);
    assert_eq!(action, Action::Finish(Err(Failure::Storage)));
    assert!(flow.is_finished());
}

#[test]
fn sync_of_unlinked_member_fails_as_not_linked() {
    let tiers = guild_map();
    let mut w = world();
    let result = drive(&mut w, &tiers, current_tier_role(GUILD, USER));
    assert_eq!(result, Err(Failure::NotLinked));
    assert_eq!(w.calls, vec!["find"]);
}

#[test]
fn sync_fails_when_rating_service_is_down() {
    let tiers = guild_map();
    let mut w = linked_world(&[R1], 1500);
    w.rating = None;
    let result = drive(&mut w, &tiers, current_tier_role(GUILD, USER));
    assert_eq!(result, Err(Failure::Upstream));
    assert_eq!(w.calls, vec!["find", "rating magnus"]);
    assert_eq!(w.roles, Some(vec![R1]));
}

#[test]
fn sync_fails_when_member_left_the_guild() {
    let tiers = guild_map();
    let mut w = linked_world(&[R1], 1500);
    w.roles = None;
    let result = drive(&mut w, &tiers, current_tier_role(GUILD, USER));
    assert_eq!(result, Err(Failure::MemberLookup));
    assert_eq!(w.calls, vec!["find", "rating magnus", "roles"]);
}

#[test]
fn sync_fails_when_storage_is_down() {
    let tiers = guild_map();
    let mut w = linked_world(&[R1], 1500);
    w.storage_up = false;
    assert_eq!(drive(&mut w, &tiers, current_tier_role(GUILD, USER)), Err(Failure::Storage));
}

#[test]
fn sync_in_guild_without_tiers_is_a_config_error() {
    let tiers = TierMap::new();
    let mut w = linked_world(&[R1], 1500);
    let result = drive(&mut w, &tiers, current_tier_role(GUILD, USER));
    assert_eq!(result, Err(Failure::Config(ConfigError::NoTiers)));
    assert_eq!(w.calls, vec!["find", "rating magnus"]);
}

#[test]
fn sync_stops_at_first_refusal() {
    let tiers = guild_map();
    let mut w = linked_world(&[R1, R3], 1500);
    w.refused = vec![Mutation::Remove(R3)];
    let result = drive(&mut w, &tiers, current_tier_role(GUILD, USER));
    assert_eq!(
        result,
        Err(Failure::PartialReconcile(PartialReconcile {
            succeeded: vec![Mutation::Remove(R1)],
            failed: Mutation::Remove(R3),
            not_attempted: vec![Mutation::Add(R2)],
        }))
    );
    assert_eq!(w.calls, vec!["find", "rating magnus", "roles", "Remove(101)", "Remove(103)"]);
    assert_eq!(w.roles, Some(vec![R3]));
}

#[test]
fn sync_reports_refused_first_mutation() {
    let tiers = guild_map();
    let mut w = linked_world(&[R1], 1500);
    w.refused = vec![Mutation::Remove(R1)];
    let result = drive(&mut w, &tiers, current_tier_role(GUILD, USER));
    assert_eq!(
        result,
        Err(Failure::PartialReconcile(PartialReconcile {
            succeeded: vec![],
            failed: Mutation::Remove(R1),
            not_attempted: vec![Mutation::Add(R2)],
        }))
    );
}

#[test]
fn sync_reports_refused_last_mutation() {
    let tiers = guild_map();
    let mut w = linked_world(&[R1], 2000);
    w.refused = vec![Mutation::Add(R3)];
    let result = drive(&mut w, &tiers, current_tier_role(GUILD, USER));
    assert_eq!(
        result,
        Err(Failure::PartialReconcile(PartialReconcile {
            succeeded: vec![Mutation::Remove(R1)],
            failed: Mutation::Add(R3),
            not_attempted: vec![],
        }))
    );
    assert_eq!(w.roles, Some(Vec::new()));
}

#[test]
fn sync_of_member_in_right_tier_sends_no_mutation() {
    let tiers = guild_map();
    let mut w = linked_world(&[MODERATOR, R3], 1800);
    let result = drive(&mut w, &tiers, current_tier_role(GUILD, USER));
    assert_eq!(result, Ok(Outcome::Synced { rating: 1800, role_id: R3 }));
    assert_eq!(w.calls, vec!["find", "rating magnus", "roles"]);
}

#[test]
fn reconcile_twice_sends_no_mutation_the_second_time() {
    let tiers = guild_map();
    let mut w = world();
    w.roles = Some(vec![R3, MODERATOR, R1]);
    assert_eq!(drive(&mut w, &tiers, reconcile(GUILD, USER, Some(R2))), Ok(Outcome::Reconciled));
    assert_eq!(w.calls, vec!["roles", "Remove(101)", "Remove(103)", "Add(102)"]);
    w.calls.clear();
    assert_eq!(drive(&mut w, &tiers, reconcile(GUILD, USER, Some(R2))), Ok(Outcome::Reconciled));
    assert_eq!(w.calls, vec!["roles"]);
    assert_eq!(w.roles, Some(vec![MODERATOR, R2]));
}

#[test]
fn reconcile_to_nothing_strips_all_tiers_and_keeps_the_link() {
    let tiers = guild_map();
    let mut w = linked_world(&[R1, R2], 1500);
    assert_eq!(drive(&mut w, &tiers, reconcile(GUILD, USER, None)), Ok(Outcome::Reconciled));
    assert_eq!(w.calls, vec!["roles", "Remove(101)", "Remove(102)"]);
    assert_eq!(w.roles, Some(Vec::new()));
    assert!(w.links.find(GUILD, USER).is_some());
}

#[test]
fn link_stores_challenge_and_ends_with_its_url() {
    let tiers = guild_map();
    let mut w = world();
    let start = link(GUILD, USER, "s3cr3t".to_string(), BASE, 1_700_000_000);
    assert_eq!(
        start.1,
        Action::StoreChallenge(Challenge {
            guild_id: GUILD,
            discord_id: USER,
            verification_token: "s3cr3t".to_string(),
            external_profile_url: "https://ratings.example/verify/s3cr3t".to_string(),
            created_at: 1_700_000_000,
        })
    );
    let result = drive(&mut w, &tiers, start);
    assert_eq!(result, Ok(Outcome::ChallengeIssued("https://ratings.example/verify/s3cr3t".to_string())));
    assert!(w.challenges.verify(GUILD, USER, &"s3cr3t".to_string()));
    assert_eq!(
        respond(&result),
        Response::PrivateSentence(
            "Please connect your account using the following link: https://ratings.example/verify/s3cr3t"
                .to_string()
        )
    );
}

#[test]
fn link_twice_leaves_only_the_second_token_valid() {
    let tiers = guild_map();
    let mut w = world();
    drive(&mut w, &tiers, link(GUILD, USER, "first".to_string(), BASE, 1)).unwrap();
    drive(&mut w, &tiers, link(GUILD, USER, "second".to_string(), BASE, 2)).unwrap();
    assert!(!w.challenges.verify(GUILD, USER, &"first".to_string()));
    assert!(w.challenges.verify(GUILD, USER, &"second".to_string()));
}

#[test]
fn link_reports_storage_failure() {
    let tiers = guild_map();
    let mut w = world();
    w.storage_up = false;
    let result = drive(&mut w, &tiers, link(GUILD, USER, "s3cr3t".to_string(), BASE, 1));
    assert_eq!(result, Err(Failure::Storage));
    assert!(w.challenges.active(GUILD, USER).is_none());
}

#[test]
fn event_that_answers_nothing_ends_the_flow() {
    let tiers = guild_map();
    let (flow, _) = unlink(GUILD, USER);
    let (flow, action) = flow.step(&tiers, Event::Applied);
    assert_eq!(action, Action::Finish(Err(Failure::Unexpected)));
    assert!(flow.is_finished());

    let (flow, _) = reconcile(GUILD, USER, Some(R2));
    let (flow, action) = flow.step(&tiers, Event::LinkDeleted);
    assert_eq!(action, Action::Finish(Err(Failure::Unexpected)));
    assert!(flow.is_finished());

    let (flow, _) = current_tier_role(GUILD, USER);
    let (flow, action) = flow.step(&tiers, Event::MemberRoles(vec![R1]));
    assert_eq!(action, Action::Finish(Err(Failure::Unexpected)));
    assert!(flow.is_finished());

    let (flow, _) = link(GUILD, USER, "t".to_string(), BASE, 1);
    let (flow, action) = flow.step(&tiers, Event::LinkMissing);
    assert_eq!(action, Action::Finish(Err(Failure::Unexpected)));
    assert!(flow.is_finished());
}

#[test]
fn finished_flow_stays_finished() {
    let tiers = guild_map();
    let (flow, _) = unlink(GUILD, USER);
    let (flow, action) = flow.step(&tiers, Event::LinkMissing);
    assert_eq!(action, Action::Finish(Ok(Outcome::NothingToDelete)));
    let (flow, action) = flow.step(&tiers, Event::LinkFound("magnus".to_string()));
    assert_eq!(action, Action::Finish(Err(Failure::Unexpected)));
    let (flow, action) = flow.step(&tiers, Event::LinkDeleted);
    assert_eq!(action, Action::Finish(Err(Failure::Unexpected)));
    assert!(flow.is_finished());
}

#[test]
fn no_mutation_follows_a_refusal() {
    let tiers = guild_map();
    let (flow, _) = reconcile(GUILD, USER, Some(R2));
    let (flow, action) = flow.step(&tiers, Event::MemberRoles(vec![R1, R3]));
    assert_eq!(action, Action::Apply(Mutation::Remove(R1)));
    let (flow, action) = flow.step(&tiers, Event::Refused);
    assert!(matches!(action, Action::Finish(Err(Failure::PartialReconcile(_)))));
    let (_, action) = flow.step(&tiers, Event::Applied);
    assert_eq!(action, Action::Finish(Err(Failure::Unexpected)));
}

#[test]
fn flow_remembers_its_member() {
    let tiers = guild_map();
    let (flow, _) = current_tier_role(GUILD, USER);
    assert_eq!((flow.guild_id(), flow.discord_id()), (GUILD, USER));
    assert!(!flow.is_finished());
    let (flow, action) = flow.step(&tiers, Event::LinkFound("magnus".to_string()));
    assert_eq!(action, Action::FetchRating("magnus".to_string()));
    assert_eq!((flow.guild_id(), flow.discord_id()), (GUILD, USER));
}

#[test]
fn unlink_makes_at_most_four_calls_more_than_brackets() {
    let tiers = guild_map();
    let mut w = linked_world(&[R3, R2, R1, MODERATOR], 1500);
    assert_eq!(drive(&mut w, &tiers, unlink(GUILD, USER)), Ok(Outcome::Unlinked));
    assert_eq!(w.calls, vec!["find", "roles", "Remove(101)", "Remove(102)", "Remove(103)", "delete"]);
    assert!(w.calls.len() <= 3 + 4);
    assert_eq!(w.roles, Some(vec![MODERATOR]));
}

#[test]
fn sync_makes_at_most_four_calls_more_than_brackets() {
    let tiers = guild_map();
    let mut w = linked_world(&[R3, R1, MODERATOR], 1500);
    assert_eq!(
        drive(&mut w, &tiers, current_tier_role(GUILD, USER)),
        Ok(Outcome::Synced { rating: 1500, role_id: R2 })
    );
    assert_eq!(w.calls, vec!["find", "rating magnus", "roles", "Remove(101)", "Remove(103)", "Add(102)"]);
    assert!(w.calls.len() <= 3 + 4);
    assert_eq!(w.roles, Some(vec![MODERATOR, R2]));
}
