//! The tier table: which role stands for which rating bracket.

use std::collections::HashMap;
use vstd::prelude::*;

verus! {

/// One rating bracket. It starts at `lower_bound` and runs up to, but not
/// including, the lower bound of the next tier; the last tier is open-ended.
#[derive(Clone, Copy, Debug, PartialEq, Eq, Structural)]
pub struct Tier {
    pub lower_bound: u32,
    pub role_id: u64,
}

/// Why a tier table cannot be used.
#[derive(Clone, Copy, Debug, PartialEq, Eq, Structural)]
pub enum ConfigError {
    /// No brackets are configured.
    NoTiers,
    /// The first bracket starts above rating 0, so low ratings have no tier.
    Uncovered,
    /// Lower bounds are not strictly increasing, so brackets overlap or are
    /// empty.
    Overlapping,
}

/// Lower bounds strictly increase along the table.
pub open spec fn increasing(tiers: Seq<Tier>) -> bool {
    forall|i: int, j: int|
        0 <= i < j < tiers.len() ==> (#[trigger] tiers[i]).lower_bound < (#[trigger] tiers[j]).lower_bound
}

/// The first defect of a tier table, if it has one.
pub open spec fn config_fault(tiers: Seq<Tier>) -> Option<ConfigError> {
    if tiers.len() == 0 {
        Some(ConfigError::NoTiers)
    } else if tiers[0].lower_bound != 0 {
        Some(ConfigError::Uncovered)
    } else if !increasing(tiers) {
        Some(ConfigError::Overlapping)
    } else {
        None
    }
}

/// A usable table: non-empty, starting at rating 0, strictly increasing.
pub open spec fn well_formed_tiers(tiers: Seq<Tier>) -> bool {
    config_fault(tiers) is None
}

/// Tier `i` is the bracket that `rating` falls into.
pub open spec fn covers(tiers: Seq<Tier>, i: int, rating: int) -> bool {
    &&& 0 <= i < tiers.len()
    &&& tiers[i].lower_bound <= rating
    &&& (i + 1 < tiers.len() ==> rating < tiers[i + 1].lower_bound)
}

/// The index of the bracket of `rating`.
pub open spec fn tier_index(tiers: Seq<Tier>, rating: int) -> int {
    choose|i: int| covers(tiers, i, rating)
}

/// The role that stands for `rating`.
pub open spec fn role_for(tiers: Seq<Tier>, rating: int) -> u64 {
    tiers[tier_index(tiers, rating)].role_id
}

/// Every configured tier role that is not in `keep`, in table order, each
/// role once.
pub open spec fn other_roles(tiers: Seq<Tier>, keep: Set<u64>) -> Seq<u64>
    decreases tiers.len(),
{
    if tiers.len() == 0 {
        Seq::empty()
    } else {
        let before = other_roles(tiers.drop_last(), keep);
        let role = tiers.last().role_id;
        if keep.contains(role) || before.contains(role) {
            before
        } else {
            before.push(role)
        }
    }
}

/// The set of all roles that a table uses.
pub open spec fn tier_role_set(tiers: Seq<Tier>) -> Set<u64> {
    Set::new(|role: u64| exists|i: int| 0 <= i < tiers.len() && (#[trigger] tiers[i]).role_id == role)
}

/// Some bracket at or after `i` covers `rating`, given that bracket `i`
/// starts at or below it.
proof fn lemma_cover_from(tiers: Seq<Tier>, rating: int, i: int) -> (k: int)
    requires
        0 <= i < tiers.len(),
        tiers[i].lower_bound <= rating,
    ensures
        covers(tiers, k, rating),
    decreases tiers.len() - i,
{
    if i + 1 < tiers.len() && tiers[i + 1].lower_bound <= rating {
        lemma_cover_from(tiers, rating, i + 1)
    } else {
        i
    }
}

/// In a well-formed table every rating falls into exactly one bracket:
/// some tier covers it, and any two tiers that cover it are the same tier.
pub proof fn law_exactly_one_tier(tiers: Seq<Tier>, rating: int)
    requires
        well_formed_tiers(tiers),
        0 <= rating,
    ensures
        covers(tiers, tier_index(tiers, rating), rating),
        forall|j: int| covers(tiers, j, rating) ==> j == tier_index(tiers, rating),
{
    let k = lemma_cover_from(tiers, rating, 0);
    let i = tier_index(tiers, rating);
    assert(covers(tiers, i, rating));
    assert forall|j: int| covers(tiers, j, rating) implies j == i by {
        lemma_cover_unique(tiers, rating, i, j);
    }
}

/// Two brackets of an increasing table that cover one rating coincide.
pub proof fn lemma_cover_unique(tiers: Seq<Tier>, rating: int, i: int, j: int)
    requires
        increasing(tiers),
        covers(tiers, i, rating),
        covers(tiers, j, rating),
    ensures
        i == j,
{
    if i < j {
        assert(tiers[i + 1].lower_bound <= tiers[j].lower_bound) by {
            if i + 1 < j {
                assert(tiers[i + 1].lower_bound < tiers[j].lower_bound);
            }
        }
    } else if j < i {
        assert(tiers[j + 1].lower_bound <= tiers[i].lower_bound) by {
            if j + 1 < i {
                assert(tiers[j + 1].lower_bound < tiers[i].lower_bound);
            }
        }
    }
}

/// Some bracket covers `rating`.
pub open spec fn covered(tiers: Seq<Tier>, rating: int) -> bool {
    exists|i: int| covers(tiers, i, rating)
}

/// Bracket `i` covers some rating.
pub open spec fn in_use(tiers: Seq<Tier>, i: int) -> bool {
    exists|rating: int| 0 <= rating && covers(tiers, i, rating)
}

/// Every rating has a bracket.
pub open spec fn gapless(tiers: Seq<Tier>) -> bool {
    forall|rating: int| 0 <= rating ==> #[trigger] covered(tiers, rating)
}

/// No rating has two brackets.
pub open spec fn disjoint(tiers: Seq<Tier>) -> bool {
    forall|rating: int, i: int, j: int|
        #[trigger] covers(tiers, i, rating) && #[trigger] covers(tiers, j, rating) ==> i == j
}

/// Every bracket holds some rating.
pub open spec fn inhabited(tiers: Seq<Tier>) -> bool {
    forall|i: int| 0 <= i < tiers.len() ==> #[trigger] in_use(tiers, i)
}

/// Lower bounds that increase from each bracket to the next increase along
/// the whole table.
proof fn lemma_increasing_by_neighbours(tiers: Seq<Tier>, i: int, j: int)
    requires
        forall|k: int| 0 <= k && k + 1 < tiers.len() ==> (#[trigger] tiers[k]).lower_bound < tiers[k + 1].lower_bound,
        0 <= i < j < tiers.len(),
    ensures
        tiers[i].lower_bound < tiers[j].lower_bound,
    decreases j - i,
{
    if i + 1 < j {
        lemma_increasing_by_neighbours(tiers, i, j - 1);
    }
    assert(tiers[j - 1].lower_bound < tiers[j - 1 + 1].lower_bound);
}

/// The check made when a table is loaded is the right one: a table is well
/// formed exactly when its brackets leave no gap, do not overlap, and are
/// not empty.
pub proof fn law_well_formed_means_partition(tiers: Seq<Tier>)
    ensures
        well_formed_tiers(tiers) <==> gapless(tiers) && disjoint(tiers) && inhabited(tiers),
{
    if well_formed_tiers(tiers) {
        assert forall|rating: int| 0 <= rating implies #[trigger] covered(tiers, rating) by {
            let k = lemma_cover_from(tiers, rating, 0);
        }
        assert forall|rating: int, i: int, j: int| #[trigger]
            covers(tiers, i, rating) && #[trigger] covers(tiers, j, rating) implies i == j by {
            lemma_cover_unique(tiers, rating, i, j);
        }
        assert forall|i: int| 0 <= i < tiers.len() implies #[trigger] in_use(tiers, i) by {
            if i + 1 < tiers.len() {
                assert(tiers[i].lower_bound < tiers[i + 1].lower_bound);
            }
            assert(covers(tiers, i, tiers[i].lower_bound as int));
        }
    }
    if gapless(tiers) && disjoint(tiers) && inhabited(tiers) {
        assert(covered(tiers, 0));
        let lowest = choose|i: int| covers(tiers, i, 0);
        assert(covers(tiers, lowest, 0));
        assert forall|k: int| 0 <= k && k + 1 < tiers.len() implies (#[trigger] tiers[k]).lower_bound < tiers[k
            + 1].lower_bound by {
            assert(in_use(tiers, k));
            let inside = choose|rating: int| 0 <= rating && covers(tiers, k, rating);
            assert(covers(tiers, k, inside));
        }
        assert forall|i: int, j: int| 0 <= i < j < tiers.len() implies (#[trigger] tiers[i]).lower_bound < (
        #[trigger] tiers[j]).lower_bound by {
            lemma_increasing_by_neighbours(tiers, i, j);
        }
        if lowest > 0 {
            lemma_increasing_by_neighbours(tiers, 0, lowest);
        }
    }
}

/// `other_roles` lists exactly the table's roles outside `keep`, lists none
/// of them twice, and so lists no more roles than the table has brackets.
pub proof fn lemma_other_roles(tiers: Seq<Tier>, keep: Set<u64>)
    ensures
        other_roles(tiers, keep).len() <= tiers.len(),
        other_roles(tiers, keep).no_duplicates(),
        forall|role: u64|
            #![trigger other_roles(tiers, keep).contains(role)]
            #![trigger tier_role_set(tiers).contains(role)]
            other_roles(tiers, keep).contains(role) <==> (tier_role_set(tiers).contains(role)
                && !keep.contains(role)),
    decreases tiers.len(),
{
    let out = other_roles(tiers, keep);
    if tiers.len() == 0 {
        assert(out.len() == 0);
    } else {
        let init = tiers.drop_last();
        let before = other_roles(init, keep);
        let last = tiers.last().role_id;
        lemma_other_roles(init, keep);
        let pushed = !(keep.contains(last) || before.contains(last));
        assert(out == if pushed { before.push(last) } else { before });
        assert forall|role: u64| out.contains(role) implies tier_role_set(tiers).contains(role)
            && !keep.contains(role) by {
            let k = choose|k: int| 0 <= k < out.len() && out[k] == role;
            if k < before.len() {
                assert(before[k] == role);
                assert(before.contains(role));
                let i = choose|i: int| 0 <= i < init.len() && (#[trigger] init[i]).role_id == role;
                assert(tiers[i].role_id == role);
            } else {
                assert(tiers[tiers.len() - 1].role_id == role);
            }
        }
        assert forall|role: u64| tier_role_set(tiers).contains(role) && !keep.contains(
            role,
        ) implies out.contains(role) by {
            let i = choose|i: int| 0 <= i < tiers.len() && (#[trigger] tiers[i]).role_id == role;
            if i < init.len() {
                assert(init[i].role_id == role);
                assert(tier_role_set(init).contains(role));
                assert(before.contains(role));
            }
            if before.contains(role) {
                let k = choose|k: int| 0 <= k < before.len() && before[k] == role;
                assert(out[k] == role);
            } else {
                assert(role == last);
                assert(out[out.len() - 1] == role);
            }
        }
        assert(out.no_duplicates()) by {
            if pushed {
                assert forall|a: int, b: int| 0 <= a < out.len() && 0 <= b < out.len() && a != b implies out[a]
                    != out[b] by {
                    if a < before.len() && b < before.len() {
                        assert(before[a] != before[b]);
                    } else if a < before.len() {
                        assert(before[a] == out[a]);
                        assert(before.contains(out[a]));
                    } else {
                        assert(before[b] == out[b]);
                        assert(before.contains(out[b]));
                    }
                }
            }
        }
    }
}

/// Whether `role` occurs in `roles`.
pub fn has_role(roles: &[u64], role: u64) -> (found: bool)
    ensures
        found == roles@.contains(role),
{
    let mut i: usize = 0;
    while i < roles.len()
        invariant
            i <= roles.len(),
            forall|k: int| 0 <= k < i ==> roles@[k] != role,
        decreases roles.len() - i,
    {
        if roles[i] == role {
            return true;
        }
        i += 1;
    }
    false
}

/// The validated tier table of one guild.
#[derive(Debug)]
pub struct TierRoleSet {
    tiers: Vec<Tier>,
}

impl View for TierRoleSet {
    type V = Seq<Tier>;

    closed spec fn view(&self) -> Seq<Tier> {
        self.tiers@
    }
}

impl TierRoleSet {
    #[verifier::type_invariant]
    spec fn valid(self) -> bool {
        well_formed_tiers(self.tiers@)
    }

    /// Checks a table once, when it is loaded: it is accepted exactly when it
    /// has no defect, and otherwise the first defect is reported.
    pub fn new(tiers: Vec<Tier>) -> (result: Result<TierRoleSet, ConfigError>)
        ensures
            match result {
                Ok(set) => well_formed_tiers(tiers@) && set@ == tiers@,
                Err(fault) => config_fault(tiers@) == Some(fault),
            },
    {
        if tiers.len() == 0 {
            return Err(ConfigError::NoTiers);
        }
        if tiers[0].lower_bound != 0 {
            return Err(ConfigError::Uncovered);
        }
        let mut i: usize = 1;
        while i < tiers.len()
            invariant
                1 <= i <= tiers.len(),
                tiers@[0].lower_bound == 0,
                increasing(tiers@.take(i as int)),
            decreases tiers.len() - i,
        {
            if tiers[i - 1].lower_bound >= tiers[i].lower_bound {
                assert(!increasing(tiers@)) by {
                    if increasing(tiers@) {
                        assert(tiers@[i - 1].lower_bound < tiers@[i as int].lower_bound);
                    }
                }
                return Err(ConfigError::Overlapping);
            }
            proof {
                let shorter = tiers@.take(i as int);
                let longer = tiers@.take(i + 1);
                assert forall|a: int, b: int| 0 <= a < b < longer.len() implies (#[trigger] longer[a]).lower_bound
                    < (#[trigger] longer[b]).lower_bound by {
                    if b < i {
                        assert(shorter[a].lower_bound < shorter[b].lower_bound);
                    } else if a < i - 1 {
                        assert(shorter[a].lower_bound < shorter[i - 1].lower_bound);
                    }
                }
            }
            i += 1;
        }
        assert(tiers@.take(i as int) =~= tiers@);
        Ok(TierRoleSet { tiers })
    }

    /// The number of brackets; a validated table has at least one.
    pub fn len(&self) -> (n: usize)
        ensures
            n == self@.len(),
            well_formed_tiers(self@),
    {
        proof {
            use_type_invariant(self);
        }
        self.tiers.len()
    }

    /// The index of the single bracket that `rating` falls into.
    pub fn tier_index_for(&self, rating: u32) -> (index: usize)
        ensures
            well_formed_tiers(self@),
            covers(self@, index as int, rating as int),
            index == tier_index(self@, rating as int),
    {
        proof {
            use_type_invariant(self);
        }
        let mut i: usize = 0;
        while i + 1 < self.tiers.len() && self.tiers[i + 1].lower_bound <= rating
            invariant
                i < self.tiers.len(),
                self.tiers@[i as int].lower_bound <= rating,
            decreases self.tiers.len() - i,
        {
            i += 1;
        }
        proof {
            assert(covers(self@, i as int, rating as int));
            law_exactly_one_tier(self@, rating as int);
        }
        i
    }

    /// The role of the single bracket that `rating` falls into.
    pub fn tier_role_for(&self, rating: u32) -> (role: u64)
        ensures
            well_formed_tiers(self@),
            covers(self@, tier_index(self@, rating as int), rating as int),
            role == role_for(self@, rating as int),
    {
        let index = self.tier_index_for(rating);
        self.tiers[index].role_id
    }

    /// Every role of the table that is not in `keep`, in table order, each
    /// once. With an empty `keep` this is every tier role of the guild.
    pub fn other_tier_roles(&self, keep: &[u64]) -> (others: Vec<u64>)
        ensures
            others@ == other_roles(self@, keep@.to_set()),
    {
        let mut others: Vec<u64> = Vec::new();
        let mut i: usize = 0;
        while i < self.tiers.len()
            invariant
                i <= self.tiers.len(),
                others@ == other_roles(self.tiers@.take(i as int), keep@.to_set()),
            decreases self.tiers.len() - i,
        {
            let role: u64 = self.tiers[i].role_id;
            proof {
                let longer = self.tiers@.take(i + 1);
                assert(longer.drop_last() =~= self.tiers@.take(i as int));
                assert(longer.last() == self.tiers@[i as int]);
            }
            if !has_role(keep, role) && !has_role(others.as_slice(), role) {
                others.push(role);
            }
            i += 1;
        }
        assert(self.tiers@.take(i as int) =~= self.tiers@);
        others
    }
}

/// The brackets of `guild_id` in a tier map, or none if the guild is not
/// configured.
pub open spec fn guild_tiers(map: Map<u64, Seq<Tier>>, guild_id: u64) -> Seq<Tier> {
    if map.contains_key(guild_id) {
        map[guild_id]
    } else {
        Seq::empty()
    }
}

/// The tier tables of all guilds. It is filled once, when the configuration
/// is loaded, and only read afterwards.
#[derive(Debug)]
pub struct TierMap {
    guilds: HashMap<u64, TierRoleSet>,
}

impl View for TierMap {
    type V = Map<u64, Seq<Tier>>;

    closed spec fn view(&self) -> Map<u64, Seq<Tier>> {
        self.guilds@.map_values(|set: TierRoleSet| set@)
    }
}

impl TierMap {
    /// A map with no guild configured.
    pub fn new() -> (map: TierMap)
        ensures
            map@ == Map::<u64, Seq<Tier>>::empty(),
    {
        let map = TierMap { guilds: HashMap::new() };
        assert(map@ =~= Map::<u64, Seq<Tier>>::empty());
        map
    }

    /// Sets the table of `guild_id`, replacing an earlier one.
    pub fn configure(&mut self, guild_id: u64, set: TierRoleSet)
        ensures
            final(self)@ == old(self)@.insert(guild_id, set@),
    {
        broadcast use vstd::std_specs::hash::group_hash_axioms;

        self.guilds.insert(guild_id, set);
        assert(self@ =~= old(self)@.insert(guild_id, set@));
    }

    /// The tier role of `rating` in `guild_id`. It fails exactly when the
    /// guild has no configured brackets.
    pub fn tier_role_for(&self, guild_id: u64, rating: u32) -> (result: Result<u64, ConfigError>)
        ensures
            match result {
                Ok(role) => {
                    &&& self@.contains_key(guild_id)
                    &&& well_formed_tiers(self@[guild_id])
                    &&& role == role_for(self@[guild_id], rating as int)
                },
                Err(fault) => !self@.contains_key(guild_id) && fault == ConfigError::NoTiers,
            },
    {
        broadcast use vstd::std_specs::hash::group_hash_axioms;

        match self.guilds.get(&guild_id) {
            Some(set) => Ok(set.tier_role_for(rating)),
            None => Err(ConfigError::NoTiers),
        }
    }

    /// Every tier role of `guild_id` that is not in `keep`, in table order,
    /// each once; nothing for a guild that is not configured.
    pub fn other_tier_roles(&self, guild_id: u64, keep: &[u64]) -> (others: Vec<u64>)
        ensures
            others@ == other_roles(guild_tiers(self@, guild_id), keep@.to_set()),
    {
        broadcast use vstd::std_specs::hash::group_hash_axioms;

        match self.guilds.get(&guild_id) {
            Some(set) => set.other_tier_roles(keep),
            None => Vec::new(),
        }
    }
}

} // verus!
