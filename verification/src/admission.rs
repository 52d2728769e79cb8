//! One operation per member at a time.
//!
//! A flow makes several remote calls in a row. Two flows for the same
//! member, run side by side, could interleave their calls and leave the
//! member with roles that neither of them meant. A caller that runs flows
//! concurrently passes each through an [`Admission`]: it enters before the first
//! call and leaves after the last, and a member who is already inside is
//! turned away until then.

use crate::registry::{MemberKey, Registry};
use vstd::prelude::*;

verus! {

/// The members for whom a flow is in progress.
pub struct Admission {
    inside: Registry<()>,
}

impl View for Admission {
    type V = Set<MemberKey>;

    closed spec fn view(&self) -> Set<MemberKey> {
        self.inside@.dom()
    }
}

impl Admission {
    /// Nobody inside.
    pub fn new() -> (admission: Admission)
        ensures
            admission@ == Set::<MemberKey>::empty(),
    {
        let admission = Admission { inside: Registry::new() };
        assert(admission@ =~= Set::<MemberKey>::empty());
        admission
    }

    /// Whether a flow for the member is in progress.
    pub fn is_inside(&self, guild_id: u64, discord_id: u64) -> (inside: bool)
        ensures
            inside == self@.contains((guild_id, discord_id)),
    {
        self.inside.get(guild_id, discord_id).is_some()
    }

    /// Admits the member unless a flow for the same member is in progress.
    /// An admitted member is inside until [`Admission::leave`]; a member who is
    /// turned away changes nothing.
    pub fn enter(&mut self, guild_id: u64, discord_id: u64) -> (admitted: bool)
        ensures
            admitted == !old(self)@.contains((guild_id, discord_id)),
            final(self)@ == old(self)@.insert((guild_id, discord_id)),
    {
        if self.is_inside(guild_id, discord_id) {
            assert(self@ =~= old(self)@.insert((guild_id, discord_id)));
            false
        } else {
            let _ = self.inside.put(guild_id, discord_id, ());
            assert(self@ =~= old(self)@.insert((guild_id, discord_id)));
            true
        }
    }

    /// Lets the member out, so that the member's next flow is admitted.
    pub fn leave(&mut self, guild_id: u64, discord_id: u64)
        ensures
            final(self)@ == old(self)@.remove((guild_id, discord_id)),
    {
        let _ = self.inside.take(guild_id, discord_id);
        assert(self@ =~= old(self)@.remove((guild_id, discord_id)));
    }
}

} // verus!
