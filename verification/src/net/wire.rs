//! Versioned wire envelopes. The encode/decode boundary (JSON frames)
//! lives with the transport; identity hashes come from canonical bytes,
//! never from the frame format, so the wire format can never change ids.

use crate::belief::state::BeliefState;
use crate::digest::RepairDigest;
use crate::evidence::{Claim, WitnessRecord};
use crate::merge::engine::MergeSide;
use crate::operator::OperatorOverride;
use crate::scope::ScopeId;
use crate::text::{decimal, push_decimal, string_of};
use vstd::prelude::*;
use vstd::string::StringExecFns;

verus! {

pub const WIRE_VERSION: u16 = 1;

/// Everything that travels over gossip.
pub enum GossipMsg {
    Chat { text: String },
    Claim(Claim),
    Witness(WitnessRecord),
    Digest(RepairDigest),
    Moderation { subject: String, action: Moderation, reason: String },
    Override(OperatorOverride),
}

#[derive(Debug, Clone, Copy, PartialEq, Eq, Structural)]
pub enum Moderation {
    Mute,
    Ban,
}

pub struct Envelope {
    pub v: u16,
    pub msg: GossipMsg,
}

impl Envelope {
    /// Wrap a message at the current wire version.
    pub fn new(msg: GossipMsg) -> (r: Self)
        ensures
            r.v == WIRE_VERSION,
            r.msg == msg,
    {
        Envelope { v: WIRE_VERSION, msg }
    }
}

pub open spec fn version_error(v: u16) -> Seq<char> {
    "unsupported wire version "@ + decimal(v as nat)
}

/// Unwrap a decoded envelope: its message at the current wire version,
/// or the refusal for any other version.
pub fn open_envelope(envelope: Envelope) -> (r: Result<GossipMsg, String>)
    ensures
        envelope.v == WIRE_VERSION ==> r == Ok::<GossipMsg, String>(envelope.msg),
        envelope.v != WIRE_VERSION ==> (r matches Err(e) && e@ == version_error(envelope.v)),
{
    if envelope.v != WIRE_VERSION {
        let mut e = string_of("unsupported wire version ");
        push_decimal(&mut e, envelope.v as u64);
        return Err(e);
    }
    Ok(envelope.msg)
}

/// Request-response protocol for reunion negotiation.
pub enum RrRequest {
    /// Fetch the peer's full side for a scope.
    FullView { scope: ScopeId },
    /// Confirm agreed reunion coordinates. Carries the requester's side so
    /// the responder can apply the identical reunion before acking: both
    /// parties converge in one exchange, by construction.
    ReunionAck {
        scope: ScopeId,
        round: u64,
        digest_lo: [u8; 32],
        digest_hi: [u8; 32],
        requester_side: MergeSide,
        requester_digest: [u8; 32],
    },
}

pub enum RrResponse {
    FullView(Box<FullViewResponse>),
    Ack { agree: bool },
    /// The responder had no view for that scope.
    Unknown,
}

pub struct FullViewResponse {
    pub side: MergeSide,
    pub digest: RepairDigest,
    /// The responder's current kernel round, for rendezvous derivation.
    pub round: u64,
}

pub open spec fn glyph(state: BeliefState) -> Seq<char> {
    match state {
        BeliefState::Accepted => "\u{25cf}"@,
        BeliefState::Provisional => "\u{25d0}"@,
        BeliefState::Witnessed => "\u{25cb}"@,
        BeliefState::Introduced => "\u{00b7}"@,
        BeliefState::Suspected => "?"@,
        BeliefState::Disputed => "\u{203c}"@,
        BeliefState::Quarantined => "\u{25cc}"@,
        BeliefState::Removed => "\u{2715}"@,
        BeliefState::Unknown => " "@,
    }
}

/// Standing states rendered for the roster display.
pub fn state_glyph(state: BeliefState) -> (r: &'static str)
    ensures
        r@ == glyph(state),
{
    match state {
        BeliefState::Accepted => "\u{25cf}",
        BeliefState::Provisional => "\u{25d0}",
        BeliefState::Witnessed => "\u{25cb}",
        BeliefState::Introduced => "\u{00b7}",
        BeliefState::Suspected => "?",
        BeliefState::Disputed => "\u{203c}",
        BeliefState::Quarantined => "\u{25cc}",
        BeliefState::Removed => "\u{2715}",
        BeliefState::Unknown => " ",
    }
}

} // verus!
