//! The decisions a node takes on inbound gossip and remote digests, as
//! functions from what the node knows to what it should do. The transport
//! performs the actions; identity parsing (is a subject an addressable
//! peer?) is answered by the transport and handed in.

use crate::belief::state::BeliefState;
use crate::collections::map_get;
use crate::digest::{spec_has_unresolved, RepairDigest, RepairDigestV};
use crate::epoch::Epoch;
use crate::id::SubjectId;
use crate::net::wire::GossipMsg;
use crate::order::lex_order;
use crate::scope::ScopeId;
use vstd::prelude::*;

verus! {

/// A digest-hash pair in canonical order: the lower hash first.
pub open spec fn spec_hash_pair(a: Seq<u8>, b: Seq<u8>) -> (Seq<u8>, Seq<u8>) {
    if lex_order(a, b) <= 0 {
        (a, b)
    } else {
        (b, a)
    }
}

pub fn hash_pair(a: [u8; 32], b: [u8; 32]) -> (r: ([u8; 32], [u8; 32]))
    ensures
        (r.0@, r.1@) == spec_hash_pair(a@, b@),
{
    if crate::order::compare_bytes(a.as_slice(), b.as_slice()) <= 0 {
        (a, b)
    } else {
        (b, a)
    }
}

pub open spec fn restrictive(s: BeliefState) -> bool {
    s == BeliefState::Removed || s == BeliefState::Quarantined
}

pub open spec fn permissive(s: BeliefState) -> bool {
    s == BeliefState::Accepted || s == BeliefState::Provisional
}

/// A restrictive-versus-permissive class conflict between two states.
pub open spec fn class_conflict(x: BeliefState, y: BeliefState) -> bool {
    (restrictive(x) && permissive(y)) || (restrictive(y) && permissive(x))
}

/// Divergence worth a deterministic reunion: a restrictive-vs-permissive
/// class conflict on any subject both digests summarize, or live
/// unresolved disagreement on either side. Plain strengthening drift
/// converges through ordinary evidence gossip.
pub open spec fn spec_material_divergence(local: RepairDigestV, remote: RepairDigestV) -> bool {
    spec_has_unresolved(local) || spec_has_unresolved(remote) || exists|i: int|
        0 <= i < local.subject_summaries.len() && #[trigger] conflict_at(
            local.subject_summaries,
            remote.subject_summaries,
            i,
        )
}

/// The `i`th locally summarized subject is in class conflict with the
/// remote summary of the same subject.
pub open spec fn conflict_at(
    local: Seq<(Seq<char>, (BeliefState, Epoch))>,
    remote: Seq<(Seq<char>, (BeliefState, Epoch))>,
    i: int,
) -> bool {
    match map_get::<SubjectId, (BeliefState, Epoch)>(remote, local[i].0) {
        Some(r) => class_conflict(local[i].1.0, r.0),
        None => false,
    }
}

fn is_class_conflict(x: BeliefState, y: BeliefState) -> (r: bool)
    ensures
        r == class_conflict(x, y),
{
    let rx = x == BeliefState::Removed || x == BeliefState::Quarantined;
    let ry = y == BeliefState::Removed || y == BeliefState::Quarantined;
    let px = x == BeliefState::Accepted || x == BeliefState::Provisional;
    let py = y == BeliefState::Accepted || y == BeliefState::Provisional;
    (rx && py) || (ry && px)
}

pub fn material_divergence(local: &RepairDigest, remote: &RepairDigest) -> (r: bool)
    ensures
        r == spec_material_divergence(local@, remote@),
{
    if local.has_unresolved_disagreement() || remote.has_unresolved_disagreement() {
        return true;
    }
    let ls = &local.subject_summaries;
    let ghost lv = ls@;
    let ghost rv = remote@.subject_summaries;
    assert(lv == local@.subject_summaries);
    let mut i: usize = 0;
    while i < ls.len()
        invariant
            i <= lv.len(),
            lv == ls@,
            lv == local@.subject_summaries,
            rv == remote@.subject_summaries,
            !spec_has_unresolved(local@),
            !spec_has_unresolved(remote@),
            forall|j: int| 0 <= j < i ==> !#[trigger] conflict_at(lv, rv, j),
        decreases lv.len() - i,
    {
        let subject = ls.key_at(i);
        let local_state = ls.value_at(i).0;
        match remote.subject_summaries.get(subject) {
            Some(remote_summary) => {
                if is_class_conflict(local_state, remote_summary.0) {
                    assert(conflict_at(lv, rv, i as int));
                    return true;
                }
            },
            None => {},
        }
        i = i + 1;
    }
    false
}

/// What a node does with one inbound gossip message.
#[derive(Debug, Clone, Copy, PartialEq, Eq, Structural)]
pub enum GossipVerdict {
    /// Show the chat line, with the speaker's standing glyph.
    ShowChat,
    /// Record the claim's provenance and introduce its subject.
    AdmitClaim,
    /// Refuse a claim whose subject is not an addressable peer, visibly.
    RejectNonPeerClaim,
    /// Record the witness record and feed it to the kernel.
    AdmitWitness,
    /// Compare the remote digest against the local view.
    CompareDigest,
    /// Apply the moderation decision.
    ApplyModeration,
    /// Refuse moderation from a sender without standing, visibly.
    RefuseModeration,
    /// Apply the operator override.
    ApplyOverride,
    /// Refuse an override from anyone but the room creator, visibly.
    RefuseOverride,
    /// Nothing to do (another scope, no sender, or a non-peer subject).
    Drop,
}

/// May `sender` moderate, in my view? The creator always; accepted
/// members otherwise.
pub open spec fn spec_may_moderate(sender_is_creator: bool, sender_standing: Option<BeliefState>) -> bool {
    sender_is_creator || sender_standing == Some(BeliefState::Accepted)
}

pub fn may_moderate(sender_is_creator: bool, sender_standing: Option<BeliefState>) -> (r: bool)
    ensures
        r == spec_may_moderate(sender_is_creator, sender_standing),
{
    sender_is_creator || match sender_standing {
        Some(s) => s == BeliefState::Accepted,
        None => false,
    }
}

/// The verdict on one message, given the node's scope, whether the
/// message has a known sender, the skin's subject rule, whether the
/// message's subject parses as a peer, the sender's moderation standing,
/// and whether the sender created the room.
pub open spec fn spec_gossip_verdict(
    msg: GossipMsg,
    scope: Seq<char>,
    has_sender: bool,
    subjects_are_peers: bool,
    subject_is_peer: bool,
    sender_may_moderate: bool,
    sender_is_creator: bool,
) -> GossipVerdict {
    match msg {
        GossipMsg::Chat { .. } => GossipVerdict::ShowChat,
        GossipMsg::Claim(c) => if c@.scope != scope {
            GossipVerdict::Drop
        } else if subjects_are_peers && !subject_is_peer {
            GossipVerdict::RejectNonPeerClaim
        } else {
            GossipVerdict::AdmitClaim
        },
        GossipMsg::Witness(w) => if w@.scope != scope {
            GossipVerdict::Drop
        } else {
            GossipVerdict::AdmitWitness
        },
        GossipMsg::Digest(d) => if d@.scope != scope || !has_sender {
            GossipVerdict::Drop
        } else {
            GossipVerdict::CompareDigest
        },
        GossipMsg::Moderation { .. } => if !has_sender {
            GossipVerdict::Drop
        } else if !sender_may_moderate {
            GossipVerdict::RefuseModeration
        } else if subjects_are_peers && !subject_is_peer {
            GossipVerdict::Drop
        } else {
            GossipVerdict::ApplyModeration
        },
        GossipMsg::Override(_) => if !has_sender {
            GossipVerdict::Drop
        } else if !sender_is_creator {
            GossipVerdict::RefuseOverride
        } else {
            GossipVerdict::ApplyOverride
        },
    }
}

pub fn gossip_verdict(
    msg: &GossipMsg,
    scope: &ScopeId,
    has_sender: bool,
    subjects_are_peers: bool,
    subject_is_peer: bool,
    sender_may_moderate: bool,
    sender_is_creator: bool,
) -> (r: GossipVerdict)
    ensures
        r == spec_gossip_verdict(
            *msg,
            scope@,
            has_sender,
            subjects_are_peers,
            subject_is_peer,
            sender_may_moderate,
            sender_is_creator,
        ),
{
    match msg {
        GossipMsg::Chat { .. } => GossipVerdict::ShowChat,
        GossipMsg::Claim(c) => if !c.scope.same(scope) {
            GossipVerdict::Drop
        } else if subjects_are_peers && !subject_is_peer {
            GossipVerdict::RejectNonPeerClaim
        } else {
            GossipVerdict::AdmitClaim
        },
        GossipMsg::Witness(w) => if !w.scope.same(scope) {
            GossipVerdict::Drop
        } else {
            GossipVerdict::AdmitWitness
        },
        GossipMsg::Digest(d) => if !d.scope.same(scope) || !has_sender {
            GossipVerdict::Drop
        } else {
            GossipVerdict::CompareDigest
        },
        GossipMsg::Moderation { .. } => if !has_sender {
            GossipVerdict::Drop
        } else if !sender_may_moderate {
            GossipVerdict::RefuseModeration
        } else if subjects_are_peers && !subject_is_peer {
            GossipVerdict::Drop
        } else {
            GossipVerdict::ApplyModeration
        },
        GossipMsg::Override(_) => if !has_sender {
            GossipVerdict::Drop
        } else if !sender_is_creator {
            GossipVerdict::RefuseOverride
        } else {
            GossipVerdict::ApplyOverride
        },
    }
}

/// Chat is never filtered: muted or banned speakers are shown with their
/// standing, whatever their standing is.
pub proof fn lemma_chat_is_never_hidden(
    text: String,
    scope: Seq<char>,
    has_sender: bool,
    subjects_are_peers: bool,
    subject_is_peer: bool,
    sender_may_moderate: bool,
    sender_is_creator: bool,
)
    ensures
        spec_gossip_verdict(
            GossipMsg::Chat { text },
            scope,
            has_sender,
            subjects_are_peers,
            subject_is_peer,
            sender_may_moderate,
            sender_is_creator,
        ) == GossipVerdict::ShowChat,
{
}

/// Only the room creator's overrides are ever applied, and moderation is
/// only ever applied from a sender with standing.
pub proof fn lemma_standing_gates_authority(
    msg: GossipMsg,
    scope: Seq<char>,
    has_sender: bool,
    subjects_are_peers: bool,
    subject_is_peer: bool,
    sender_may_moderate: bool,
    sender_is_creator: bool,
)
    ensures
        spec_gossip_verdict(msg, scope, has_sender, subjects_are_peers, subject_is_peer, sender_may_moderate, sender_is_creator)
            == GossipVerdict::ApplyOverride ==> has_sender && sender_is_creator,
        spec_gossip_verdict(msg, scope, has_sender, subjects_are_peers, subject_is_peer, sender_may_moderate, sender_is_creator)
            == GossipVerdict::ApplyModeration ==> has_sender && sender_may_moderate,
{
}

/// After admitting a claim, a node vouches for its subject by direct
/// contact when the subject is a peer it sees connected and not itself.
pub fn auto_witness(subject_is_peer: bool, connected: bool, is_self: bool) -> (r: bool)
    ensures
        r == (subject_is_peer && connected && !is_self),
{
    subject_is_peer && connected && !is_self
}

} // verus!
