//! A table with one cell per member of a guild.

use std::collections::HashMap;
use vstd::prelude::*;

verus! {

/// A member of a guild: the guild's id, then the member's id.
pub type MemberKey = (u64, u64);

/// The cell of a member: both ids side by side in one number.
pub open spec fn slot(key: MemberKey) -> u128 {
    (key.0 * 0x1_0000_0000_0000_0000 + key.1) as u128
}

/// Different members have different cells.
pub proof fn lemma_slot_injective(a: MemberKey, b: MemberKey)
    ensures
        slot(a) == slot(b) <==> a == b,
{
}

fn slot_of(guild_id: u64, discord_id: u64) -> (cell: u128)
    ensures
        cell == slot((guild_id, discord_id)),
{
    let high: u128 = guild_id as u128;
    let low: u128 = discord_id as u128;
    high * 0x1_0000_0000_0000_0000u128 + low
}

/// At most one value per member.
pub struct Registry<V> {
    cells: HashMap<u128, V>,
}

impl<V> View for Registry<V> {
    type V = Map<MemberKey, V>;

    closed spec fn view(&self) -> Map<MemberKey, V> {
        Map::new(|key: MemberKey| self.cells@.contains_key(slot(key)), |key: MemberKey| self.cells@[slot(key)])
    }
}

impl<V> Registry<V> {
    /// A registry without entries.
    pub fn new() -> (registry: Registry<V>)
        ensures
            registry@ == Map::<MemberKey, V>::empty(),
    {
        let registry = Registry { cells: HashMap::new() };
        assert(registry@ =~= Map::<MemberKey, V>::empty());
        registry
    }

    /// Stores `value` for the member, in place of what was stored before,
    /// which is handed back.
    pub fn put(&mut self, guild_id: u64, discord_id: u64, value: V) -> (previous: Option<V>)
        ensures
            final(self)@ == old(self)@.insert((guild_id, discord_id), value),
            previous == if old(self)@.contains_key((guild_id, discord_id)) {
                Some(old(self)@[(guild_id, discord_id)])
            } else {
                None
            },
    {
        broadcast use vstd::std_specs::hash::group_hash_axioms;

        let cell = slot_of(guild_id, discord_id);
        let previous = self.cells.insert(cell, value);
        proof {
            let key = (guild_id, discord_id);
            assert forall|other: MemberKey| slot(other) == slot(key) <==> other == key by {
                lemma_slot_injective(other, key);
            }
            assert(self@ =~= old(self)@.insert(key, value));
        }
        previous
    }

    /// What is stored for the member, if anything.
    pub fn get(&self, guild_id: u64, discord_id: u64) -> (found: Option<&V>)
        ensures
            match found {
                Some(value) => self@.contains_key((guild_id, discord_id)) && *value == self@[(
                    guild_id,
                    discord_id,
                )],
                None => !self@.contains_key((guild_id, discord_id)),
            },
    {
        broadcast use vstd::std_specs::hash::group_hash_axioms;

        let cell = slot_of(guild_id, discord_id);
        self.cells.get(&cell)
    }

    /// Removes what is stored for the member and hands it back.
    pub fn take(&mut self, guild_id: u64, discord_id: u64) -> (removed: Option<V>)
        ensures
            final(self)@ == old(self)@.remove((guild_id, discord_id)),
            removed == if old(self)@.contains_key((guild_id, discord_id)) {
                Some(old(self)@[(guild_id, discord_id)])
            } else {
                None
            },
    {
        broadcast use vstd::std_specs::hash::group_hash_axioms;

        let cell = slot_of(guild_id, discord_id);
        let removed = self.cells.remove(&cell);
        proof {
            let key = (guild_id, discord_id);
            assert forall|other: MemberKey| slot(other) == slot(key) <==> other == key by {
                lemma_slot_injective(other, key);
            }
            assert(self@ =~= old(self)@.remove(key));
        }
        removed
    }
}

} // verus!
