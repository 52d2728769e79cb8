use liro::reconcile::{plan_mutations, Mutation};
use liro::tiers::{Tier, TierMap, TierRoleSet};

const GUILD: u64 = 7001;
const R1: u64 = 101;
const R2: u64 = 102;
const R3: u64 = 103;
const MODERATOR: u64 = 900;

fn guild_map() -> TierMap {
    let mut map = TierMap::new();
    let tiers = vec![
        Tier { lower_bound: 0, role_id: R1 },
        Tier { lower_bound: 1200, role_id: R2 },
        Tier { lower_bound: 1800, role_id: R3 },
    ];
    map.configure(GUILD, TierRoleSet::new(tiers).unwrap());
    map
}

fn carry_out(roles: &[u64], plan: &[Mutation]) -> Vec<u64> {
    let mut held: Vec<u64> = roles.to_vec();
    for mutation in plan {
        match mutation {
            Mutation::Remove(role) => held.retain(|r| r != role),
            Mutation::Add(role) => {
                if !held.contains(role) {
                    held.push(*role);
                }
            }
        }
    }
    held
}

#[test]
fn promotion_removes_old_tier_and_adds_new() {
    let map = guild_map();
    let keep = map.tier_role_for(GUILD, 1500).unwrap();
    assert_eq!(keep, R2);
    let plan = plan_mutations(&map, GUILD, &[R1], Some(keep));
    assert_eq!(plan, vec![Mutation::Remove(R1), Mutation::Add(R2)]);
    assert_eq!(carry_out(&[R1], &plan), vec![R2]);
}

#[test]
fn unlink_plan_strips_only_held_tier_roles() {
    let map = guild_map();
    let plan = plan_mutations(&map, GUILD, &[R2], None);
    assert_eq!(plan, vec![Mutation::Remove(R2)]);
    assert_eq!(carry_out(&[R2], &plan), Vec::<u64>::new());
}

#[test]
fn plan_is_empty_when_roles_already_match() {
    let map = guild_map();
    assert_eq!(plan_mutations(&map, GUILD, &[R2], Some(R2)), Vec::<Mutation>::new());
    assert_eq!(plan_mutations(&map, GUILD, &[MODERATOR, R2], Some(R2)), Vec::<Mutation>::new());
    assert_eq!(plan_mutations(&map, GUILD, &[], None), Vec::<Mutation>::new());
    assert_eq!(plan_mutations(&map, GUILD, &[MODERATOR], None), Vec::<Mutation>::new());
}

#[test]
fn plan_adds_tier_to_member_without_any() {
    let map = guild_map();
    assert_eq!(plan_mutations(&map, GUILD, &[], Some(R3)), vec![Mutation::Add(R3)]);
    assert_eq!(plan_mutations(&map, GUILD, &[MODERATOR], Some(R1)), vec![Mutation::Add(R1)]);
}

#[test]
fn plan_strips_every_stale_tier_in_table_order() {
    let map = guild_map();
    let plan = plan_mutations(&map, GUILD, &[R3, MODERATOR, R1], Some(R2));
    assert_eq!(plan, vec![Mutation::Remove(R1), Mutation::Remove(R3), Mutation::Add(R2)]);
    let plan = plan_mutations(&map, GUILD, &[R3, R2, R1], Some(R2));
    assert_eq!(plan, vec![Mutation::Remove(R1), Mutation::Remove(R3)]);
    let plan = plan_mutations(&map, GUILD, &[R3, R2, R1], None);
    assert_eq!(plan, vec![Mutation::Remove(R1), Mutation::Remove(R2), Mutation::Remove(R3)]);
}

#[test]
fn plan_leaves_other_roles_alone() {
    let map = guild_map();
    let held = [MODERATOR, R1, 901];
    let plan = plan_mutations(&map, GUILD, &held, Some(R3));
    assert_eq!(plan, vec![Mutation::Remove(R1), Mutation::Add(R3)]);
    assert_eq!(carry_out(&held, &plan), vec![MODERATOR, 901, R3]);
}

#[test]
fn plan_for_unknown_guild_only_adds() {
    let map = guild_map();
    assert_eq!(plan_mutations(&map, GUILD + 1, &[R1], Some(R2)), vec![Mutation::Add(R2)]);
    assert_eq!(plan_mutations(&map, GUILD + 1, &[R1], None), Vec::<Mutation>::new());
}

#[test]
fn plan_for_a_role_held_twice_removes_it_once() {
    let map = guild_map();
    assert_eq!(plan_mutations(&map, GUILD, &[R1, R1], Some(R2)), vec![Mutation::Remove(R1), Mutation::Add(R2)]);
}

#[test]
fn second_plan_after_a_full_run_is_empty() {
    let map = guild_map();
    let starts: [&[u64]; 5] = [&[], &[R1], &[R1, R2, R3], &[MODERATOR, R3], &[R2, MODERATOR]];
    for held in starts {
        for keep in [None, Some(R1), Some(R2), Some(R3), Some(MODERATOR)] {
            let plan = plan_mutations(&map, GUILD, held, keep);
            let after = carry_out(held, &plan);
            assert_eq!(plan_mutations(&map, GUILD, &after, keep), Vec::<Mutation>::new());
        }
    }
}

#[test]
fn full_run_leaves_exactly_the_kept_tier() {
    let map = guild_map();
    let starts: [&[u64]; 5] = [&[], &[R1], &[R1, R2, R3], &[MODERATOR, R3], &[R2, MODERATOR]];
    for held in starts {
        for keep in [None, Some(R1), Some(R2), Some(R3)] {
            let after = carry_out(held, &plan_mutations(&map, GUILD, held, keep));
            for role in [R1, R2, R3] {
                assert_eq!(after.contains(&role), keep == Some(role));
            }
            assert_eq!(after.contains(&MODERATOR), held.contains(&MODERATOR));
        }
    }
}

#[test]
fn every_planned_mutation_changes_the_roles() {
    let map = guild_map();
    let held = [R3, MODERATOR, R1];
    let plan = plan_mutations(&map, GUILD, &held, Some(R2));
    let mut roles: Vec<u64> = held.to_vec();
    for mutation in &plan {
        let next = carry_out(&roles, &[*mutation]);
        assert_ne!(next, roles);
        roles = next;
    }
}
