use vstd::prelude::*;

use crate::member::{after_insert, insert_spreads, must_refute, Health, Member, MemberList, MemberListView};

verus! {

/// Rounds between two probes of a persistent member held Confirmed.
pub const PERSISTENT_PROBE_ROUNDS: u64 = 10;

/// Whether a member is probed in `round`: one not held Confirmed always is;
/// a Confirmed one only when persistent, once every
/// `PERSISTENT_PROBE_ROUNDS` rounds, so that a healed partition is noticed.
pub fn probe_due(health: Health, persistent: bool, round: u64) -> (r: bool)
    ensures
        r == (health != Health::Confirmed || (persistent && round % PERSISTENT_PROBE_ROUNDS == 0)),
{
    match health {
        Health::Confirmed => persistent && round % PERSISTENT_PROBE_ROUNDS == 0,
        _ => true,
    }
}

/// How the probe of a target ended.
#[derive(Clone, Copy, Debug, PartialEq, Eq, Structural)]
pub enum ProbeReply {
    /// The target answered the direct probe.
    Ack,
    /// A relay forwarded the target's answer.
    IndirectAck,
    /// No answer came in time.
    Silence,
}

/// The health a probe that ended with `reply` gives its target.
pub open spec fn probe_health(reply: ProbeReply) -> Health {
    match reply {
        ProbeReply::Silence => Health::Suspect,
        _ => Health::Alive,
    }
}

/// Whether a suspicion raised at time `since` has run out at time `now`.
pub fn suspicion_expired(since: u64, now: u64, timeout: u64) -> (r: bool)
    ensures
        r == (now >= since && now - since > timeout),
{
    now >= since && now - since > timeout
}

impl MemberList {
    /// Records how the probe of `target` ended: an answer, direct or relayed,
    /// makes it Alive, silence makes it Suspect. Tells whether its health
    /// changed, which is when a rumor about it is due.
    pub fn record_probe(&mut self, target: &Member, reply: ProbeReply) -> (r: bool)
        requires
            old(self).wf(),
        ensures
            final(self).wf(),
            final(self)@ == (MemberListView {
                health: old(self)@.health.insert(target@.id, probe_health(reply)),
                ..old(self)@
            }),
            r == !(old(self)@.health.contains_key(target@.id) && old(self)@.health[target@.id]
                == probe_health(reply)),
    {
        let health = match reply {
            ProbeReply::Silence => Health::Suspect,
            _ => Health::Alive,
        };
        self.insert_health(target, health)
    }

    /// Declares the member under `id` Confirmed at the incarnation held for
    /// it, once its suspicion ran out, by merging that verdict as `insert`
    /// does; tells whether it is to be spread.
    pub fn confirm(&mut self, id: &str) -> (r: bool)
        requires
            old(self).wf(),
            old(self)@.members.contains_key(id@),
            must_refute(old(self)@, old(self)@.members[id@], Health::Confirmed)
                ==> old(self)@.members[id@].incarnation < u64::MAX,
        ensures
            final(self).wf(),
            r == insert_spreads(old(self)@, old(self)@.members[id@], Health::Confirmed),
            final(self)@ == after_insert(old(self)@, old(self)@.members[id@], Health::Confirmed),
    {
        let member = self.get(id).unwrap().clone();
        self.insert(member, Health::Confirmed)
    }
}

} // verus!
