//! Challenges: one-time tokens by which a member proves control of an
//! account on the rating service.

use crate::registry::{MemberKey, Registry};
use vstd::prelude::*;
use vstd::string::StringExecFns;

verus! {

/// A pending proof of ownership. The member is sent `external_profile_url`,
/// which embeds `verification_token`.
#[derive(Clone, Debug, PartialEq, Eq)]
pub struct Challenge {
    pub guild_id: u64,
    pub discord_id: u64,
    pub verification_token: String,
    pub external_profile_url: String,
    pub created_at: u64,
}

/// A challenge as plain values.
pub struct ChallengeView {
    pub guild_id: u64,
    pub discord_id: u64,
    pub verification_token: Seq<char>,
    pub external_profile_url: Seq<char>,
    pub created_at: u64,
}

impl View for Challenge {
    type V = ChallengeView;

    open spec fn view(&self) -> ChallengeView {
        ChallengeView {
            guild_id: self.guild_id,
            discord_id: self.discord_id,
            verification_token: self.verification_token@,
            external_profile_url: self.external_profile_url@,
            created_at: self.created_at,
        }
    }
}

impl ChallengeView {
    /// The member whom the challenge is for.
    pub open spec fn key(self) -> MemberKey {
        (self.guild_id, self.discord_id)
    }
}

/// The challenge for a member with a given token: its URL is `base_url`
/// followed by the token.
pub open spec fn challenge_for(
    guild_id: u64,
    discord_id: u64,
    token: Seq<char>,
    base_url: Seq<char>,
    created_at: u64,
) -> ChallengeView {
    ChallengeView {
        guild_id,
        discord_id,
        verification_token: token,
        external_profile_url: base_url + token,
        created_at,
    }
}

/// The store after `challenge` was issued: it is the member's one active
/// challenge, whatever was active before.
pub open spec fn issued(store: Map<MemberKey, ChallengeView>, challenge: ChallengeView) -> Map<
    MemberKey,
    ChallengeView,
> {
    store.insert(challenge.key(), challenge)
}

/// Whether `token` is the token of the member's active challenge.
pub open spec fn accepts(store: Map<MemberKey, ChallengeView>, key: MemberKey, token: Seq<char>) -> bool {
    store.contains_key(key) && store[key].verification_token == token
}

/// Issuing a second challenge to a member invalidates the first: once the
/// second is stored, the first token is no longer accepted. (The two tokens
/// differ; a fresh token is the caller's to provide.)
pub proof fn law_reissue_invalidates(
    store: Map<MemberKey, ChallengeView>,
    first: ChallengeView,
    second: ChallengeView,
)
    requires
        first.key() == second.key(),
        first.verification_token != second.verification_token,
    ensures
        accepts(issued(store, first), first.key(), first.verification_token),
        !accepts(issued(issued(store, first), second), first.key(), first.verification_token),
        accepts(issued(issued(store, first), second), first.key(), second.verification_token),
{
}

/// Every challenge is filed under the member it is for.
pub open spec fn well_filed(store: Map<MemberKey, ChallengeView>) -> bool {
    forall|key: MemberKey| #[trigger] store.contains_key(key) ==> store[key].key() == key
}

/// An empty store is well filed, and issuing and consuming challenges keeps
/// a store well filed.
pub proof fn lemma_well_filed(store: Map<MemberKey, ChallengeView>, challenge: ChallengeView, key: MemberKey)
    ensures
        well_filed(Map::<MemberKey, ChallengeView>::empty()),
        well_filed(store) ==> well_filed(issued(store, challenge)),
        well_filed(store) ==> well_filed(store.remove(key)),
{
}

impl Challenge {
    /// Builds the challenge of a member from a freshly drawn token.
    pub fn new(guild_id: u64, discord_id: u64, token: String, base_url: &str, created_at: u64) -> (challenge:
        Challenge)
        ensures
            challenge@ == challenge_for(guild_id, discord_id, token@, base_url@, created_at),
    {
        let url = String::from_str(base_url).concat(token.as_str());
        Challenge {
            guild_id,
            discord_id,
            verification_token: token,
            external_profile_url: url,
            created_at,
        }
    }
}

/// The active challenges, at most one per member.
pub struct ChallengeStore {
    active: Registry<Challenge>,
}

impl View for ChallengeStore {
    type V = Map<MemberKey, ChallengeView>;

    closed spec fn view(&self) -> Map<MemberKey, ChallengeView> {
        self.active@.map_values(|challenge: Challenge| challenge@)
    }
}

impl ChallengeStore {
    /// A store without challenges.
    pub fn new() -> (store: ChallengeStore)
        ensures
            store@ == Map::<MemberKey, ChallengeView>::empty(),
    {
        let store = ChallengeStore { active: Registry::new() };
        assert(store@ =~= Map::<MemberKey, ChallengeView>::empty());
        store
    }

    /// Makes `challenge` the one active challenge of its member, in a single
    /// step: a challenge issued earlier to the same member is gone.
    pub fn issue(&mut self, challenge: Challenge)
        ensures
            final(self)@ == issued(old(self)@, challenge@),
    {
        let guild_id = challenge.guild_id;
        let discord_id = challenge.discord_id;
        let _ = self.active.put(guild_id, discord_id, challenge);
        assert(self@ =~= issued(old(self)@, challenge@));
    }

    /// Issues a challenge to the member around `token`, which the caller has
    /// freshly drawn: builds it, stores it in place of any earlier challenge
    /// of the member, and hands it back for its URL to be sent to the member.
    pub fn issue_challenge(
        &mut self,
        guild_id: u64,
        discord_id: u64,
        token: String,
        base_url: &str,
        created_at: u64,
    ) -> (challenge: Challenge)
        ensures
            challenge@ == challenge_for(guild_id, discord_id, token@, base_url@, created_at),
            final(self)@ == issued(old(self)@, challenge@),
    {
        let stored = Challenge::new(guild_id, discord_id, token.clone(), base_url, created_at);
        self.issue(stored);
        Challenge::new(guild_id, discord_id, token, base_url, created_at)
    }

    /// The member's active challenge, if there is one.
    pub fn active(&self, guild_id: u64, discord_id: u64) -> (found: Option<&Challenge>)
        ensures
            match found {
                Some(challenge) => self@.contains_key((guild_id, discord_id)) && challenge@ == self@[(
                    guild_id,
                    discord_id,
                )],
                None => !self@.contains_key((guild_id, discord_id)),
            },
    {
        self.active.get(guild_id, discord_id)
    }

    /// Whether `token` is the token of the member's active challenge.
    pub fn verify(&self, guild_id: u64, discord_id: u64, token: &String) -> (accepted: bool)
        ensures
            accepted == accepts(self@, (guild_id, discord_id), token@),
    {
        match self.active.get(guild_id, discord_id) {
            Some(challenge) => challenge.verification_token == *token,
            None => false,
        }
    }

    /// Verifies `token` and, if it is accepted, consumes the challenge. A
    /// token that is not accepted leaves the store as it was.
    pub fn redeem(&mut self, guild_id: u64, discord_id: u64, token: &String) -> (accepted: bool)
        ensures
            accepted == accepts(old(self)@, (guild_id, discord_id), token@),
            final(self)@ == if accepted {
                old(self)@.remove((guild_id, discord_id))
            } else {
                old(self)@
            },
    {
        if self.verify(guild_id, discord_id, token) {
            let _ = self.active.take(guild_id, discord_id);
            assert(self@ =~= old(self)@.remove((guild_id, discord_id)));
            true
        } else {
            false
        }
    }
}

} // verus!
