use liro::tiers::{has_role, ConfigError, Tier, TierMap, TierRoleSet};

const GUILD: u64 = 7001;
const R1: u64 = 101;
const R2: u64 = 102;
const R3: u64 = 103;

fn three_tiers() -> Vec<Tier> {
    vec![
        Tier { lower_bound: 0, role_id: R1 },
        Tier { lower_bound: 1200, role_id: R2 },
        Tier { lower_bound: 1800, role_id: R3 },
    ]
}

fn guild_map() -> TierMap {
    let mut map = TierMap::new();
    map.configure(GUILD, TierRoleSet::new(three_tiers()).unwrap());
    map
}

#[test]
fn rating_maps_to_the_role_of_its_bracket() {
    let set = TierRoleSet::new(three_tiers()).unwrap();
    assert_eq!(set.len(), 3);
    assert_eq!(set.tier_role_for(0), R1);
    assert_eq!(set.tier_role_for(800), R1);
    assert_eq!(set.tier_role_for(1500), R2);
    assert_eq!(set.tier_role_for(2400), R3);
}

#[test]
fn bracket_edges_belong_to_the_upper_bracket() {
    let set = TierRoleSet::new(three_tiers()).unwrap();
    assert_eq!(set.tier_role_for(1199), R1);
    assert_eq!(set.tier_role_for(1200), R2);
    assert_eq!(set.tier_role_for(1799), R2);
    assert_eq!(set.tier_role_for(1800), R3);
    assert_eq!(set.tier_role_for(u32::MAX), R3);
}

#[test]
fn single_bracket_covers_every_rating() {
    let set = TierRoleSet::new(vec![Tier { lower_bound: 0, role_id: R1 }]).unwrap();
    assert_eq!(set.tier_role_for(0), R1);
    assert_eq!(set.tier_role_for(u32::MAX), R1);
}

#[test]
fn every_rating_has_exactly_one_bracket() {
    let tiers = three_tiers();
    let set = TierRoleSet::new(tiers.clone()).unwrap();
    for rating in [0u32, 1, 1199, 1200, 1201, 1799, 1800, 1801, 3000, u32::MAX] {
        let mut matching: Vec<u64> = Vec::new();
        for (i, tier) in tiers.iter().enumerate() {
            let below_next = match tiers.get(i + 1) {
                Some(next) => rating < next.lower_bound,
                None => true,
            };
            if tier.lower_bound <= rating && below_next {
                matching.push(tier.role_id);
            }
        }
        assert_eq!(matching, vec![set.tier_role_for(rating)]);
    }
}

#[test]
fn empty_table_is_refused() {
    assert_eq!(TierRoleSet::new(Vec::new()).unwrap_err(), ConfigError::NoTiers);
}

#[test]
fn table_that_starts_above_zero_is_refused() {
    let tiers = vec![Tier { lower_bound: 100, role_id: R1 }, Tier { lower_bound: 1200, role_id: R2 }];
    assert_eq!(TierRoleSet::new(tiers).unwrap_err(), ConfigError::Uncovered);
}

#[test]
fn table_with_equal_bounds_is_refused() {
    let tiers = vec![
        Tier { lower_bound: 0, role_id: R1 },
        Tier { lower_bound: 1200, role_id: R2 },
        Tier { lower_bound: 1200, role_id: R3 },
    ];
    assert_eq!(TierRoleSet::new(tiers).unwrap_err(), ConfigError::Overlapping);
}

#[test]
fn table_with_decreasing_bounds_is_refused() {
    let tiers = vec![
        Tier { lower_bound: 0, role_id: R1 },
        Tier { lower_bound: 1800, role_id: R2 },
        Tier { lower_bound: 1200, role_id: R3 },
    ];
    assert_eq!(TierRoleSet::new(tiers).unwrap_err(), ConfigError::Overlapping);
}

#[test]
fn first_defect_is_reported() {
    let tiers = vec![Tier { lower_bound: 5, role_id: R1 }, Tier { lower_bound: 5, role_id: R2 }];
    assert_eq!(TierRoleSet::new(tiers).unwrap_err(), ConfigError::Uncovered);
}

#[test]
fn map_answers_for_configured_guild() {
    let map = guild_map();
    assert_eq!(map.tier_role_for(GUILD, 1500), Ok(R2));
    assert_eq!(map.tier_role_for(GUILD, 0), Ok(R1));
    assert_eq!(map.tier_role_for(GUILD, 1800), Ok(R3));
}

#[test]
fn map_fails_for_unknown_guild() {
    let map = guild_map();
    assert_eq!(map.tier_role_for(GUILD + 1, 1500), Err(ConfigError::NoTiers));
    assert_eq!(TierMap::new().tier_role_for(GUILD, 1500), Err(ConfigError::NoTiers));
}

#[test]
fn configure_replaces_the_table_of_a_guild() {
    let mut map = guild_map();
    map.configure(GUILD, TierRoleSet::new(vec![Tier { lower_bound: 0, role_id: R3 }]).unwrap());
    assert_eq!(map.tier_role_for(GUILD, 10), Ok(R3));
    assert_eq!(map.other_tier_roles(GUILD, &[]), vec![R3]);
}

#[test]
fn guilds_have_separate_tables() {
    let mut map = guild_map();
    map.configure(GUILD + 1, TierRoleSet::new(vec![Tier { lower_bound: 0, role_id: 900 }]).unwrap());
    assert_eq!(map.tier_role_for(GUILD, 1500), Ok(R2));
    assert_eq!(map.tier_role_for(GUILD + 1, 1500), Ok(900));
    assert_eq!(map.other_tier_roles(GUILD + 1, &[]), vec![900]);
}

#[test]
fn other_tier_roles_without_keep_lists_all() {
    let map = guild_map();
    assert_eq!(map.other_tier_roles(GUILD, &[]), vec![R1, R2, R3]);
}

#[test]
fn other_tier_roles_leaves_out_kept_roles() {
    let map = guild_map();
    assert_eq!(map.other_tier_roles(GUILD, &[R2]), vec![R1, R3]);
    assert_eq!(map.other_tier_roles(GUILD, &[R3, R1]), vec![R2]);
    assert_eq!(map.other_tier_roles(GUILD, &[R1, R2, R3]), Vec::<u64>::new());
    assert_eq!(map.other_tier_roles(GUILD, &[555]), vec![R1, R2, R3]);
}

#[test]
fn other_tier_roles_of_unknown_guild_is_empty() {
    let map = guild_map();
    assert_eq!(map.other_tier_roles(GUILD + 1, &[]), Vec::<u64>::new());
}

#[test]
fn other_tier_roles_lists_a_shared_role_once() {
    let set = TierRoleSet::new(vec![
        Tier { lower_bound: 0, role_id: R1 },
        Tier { lower_bound: 1000, role_id: R2 },
        Tier { lower_bound: 2000, role_id: R1 },
    ])
    .unwrap();
    assert_eq!(set.other_tier_roles(&[]), vec![R1, R2]);
    assert_eq!(set.other_tier_roles(&[R2]), vec![R1]);
}

#[test]
fn has_role_finds_what_is_there() {
    assert!(has_role(&[R1, R2], R2));
    assert!(!has_role(&[R1, R2], R3));
    assert!(!has_role(&[], R1));
}

#[test]
fn rating_maps_to_the_index_of_its_bracket() {
    let set = TierRoleSet::new(three_tiers()).unwrap();
    assert_eq!(set.tier_index_for(0), 0);
    assert_eq!(set.tier_index_for(1199), 0);
    assert_eq!(set.tier_index_for(1200), 1);
    assert_eq!(set.tier_index_for(1799), 1);
    assert_eq!(set.tier_index_for(1800), 2);
    assert_eq!(set.tier_index_for(u32::MAX), 2);
}
