//! Links: which account on the rating service belongs to which member.

use crate::registry::{MemberKey, Registry};
use vstd::prelude::*;

verus! {

/// The record that ties a member of a guild to an account on the rating
/// service.
#[derive(Clone, Debug, PartialEq, Eq)]
pub struct UserLink {
    pub guild_id: u64,
    pub discord_id: u64,
    pub external_account_id: String,
    pub linked_at: u64,
}

/// A link as plain values.
pub struct UserLinkView {
    pub guild_id: u64,
    pub discord_id: u64,
    pub external_account_id: Seq<char>,
    pub linked_at: u64,
}

impl View for UserLink {
    type V = UserLinkView;

    open spec fn view(&self) -> UserLinkView {
        UserLinkView {
            guild_id: self.guild_id,
            discord_id: self.discord_id,
            external_account_id: self.external_account_id@,
            linked_at: self.linked_at,
        }
    }
}

impl UserLinkView {
    /// The member whom the link belongs to.
    pub open spec fn key(self) -> MemberKey {
        (self.guild_id, self.discord_id)
    }
}

/// The links of all members, at most one per member.
pub struct UserLinkStore {
    links: Registry<UserLink>,
}

impl View for UserLinkStore {
    type V = Map<MemberKey, UserLinkView>;

    closed spec fn view(&self) -> Map<MemberKey, UserLinkView> {
        self.links@.map_values(|link: UserLink| link@)
    }
}

impl UserLinkStore {
    /// A store without links.
    pub fn new() -> (store: UserLinkStore)
        ensures
            store@ == Map::<MemberKey, UserLinkView>::empty(),
    {
        let store = UserLinkStore { links: Registry::new() };
        assert(store@ =~= Map::<MemberKey, UserLinkView>::empty());
        store
    }

    /// Records `link` as the link of its member, in place of an earlier one.
    pub fn insert(&mut self, link: UserLink)
        ensures
            final(self)@ == old(self)@.insert(link@.key(), link@),
    {
        let guild_id = link.guild_id;
        let discord_id = link.discord_id;
        let _ = self.links.put(guild_id, discord_id, link);
        assert(self@ =~= old(self)@.insert(link@.key(), link@));
    }

    /// The member's link, if the member is linked.
    pub fn find(&self, guild_id: u64, discord_id: u64) -> (found: Option<&UserLink>)
        ensures
            match found {
                Some(link) => self@.contains_key((guild_id, discord_id)) && link@ == self@[(
                    guild_id,
                    discord_id,
                )],
                None => !self@.contains_key((guild_id, discord_id)),
            },
    {
        self.links.get(guild_id, discord_id)
    }

    /// Deletes the member's link and says whether there was one.
    pub fn delete(&mut self, guild_id: u64, discord_id: u64) -> (existed: bool)
        ensures
            existed == old(self)@.contains_key((guild_id, discord_id)),
            final(self)@ == old(self)@.remove((guild_id, discord_id)),
    {
        let removed = self.links.take(guild_id, discord_id);
        assert(self@ =~= old(self)@.remove((guild_id, discord_id)));
        removed.is_some()
    }
}

} // verus!
