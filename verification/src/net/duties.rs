//! What a node feeds its kernel on its own initiative: the corroboration
//! assessments of a tick, the assessments a moderation decision stands
//! for, and the claims and witness records it publishes.

use crate::belief::state::{BeliefState, QuarantineReason, RemovalBasis};
use crate::belief::view::{MembershipView, MembershipViewV};
use crate::belief::cell::BeliefCellV;
use crate::collections::map_get;
use crate::epoch::Epoch;
use crate::encode::{domain_digest, framed_str, le_u64};
use crate::evidence::{
    mode_byte, AssertedState, Claim, ClaimV, Observation, ObservationMode, Provenance, Stance, WitnessRecord,
    WitnessRecordV,
};
use crate::id::{PeerId, SubjectId, WitnessId, WitnessRecordId};
use crate::kernel::{Input, InputV};
use crate::net::gossip::GossipVerdict;
use crate::net::wire::{GossipMsg, Moderation};
use crate::scope::ScopeId;
use crate::trust::{Confidence, TrustGrade};
use crate::util::NonEmpty;
use crate::witnessing::{ready_to_advance, spec_ready, EvidenceBook};
use vstd::prelude::*;

verus! {

/// The confidence a corroboration assessment claims for a subject: strong
/// when it would lift a provisional member, bounded otherwise.
pub open spec fn confidence_for(view: MembershipViewV, subject: Seq<char>) -> Confidence {
    match map_get::<SubjectId, BeliefCellV>(view.beliefs, subject) {
        Some(c) => if c.state == BeliefState::Provisional {
            Confidence::Strong
        } else {
            Confidence::Bounded
        },
        None => Confidence::Bounded,
    }
}

/// The assessments a tick feeds for the subjects ready to advance; a
/// subject with no usable record is skipped.
pub open spec fn advancement_of(view: MembershipViewV, ready: Seq<(Seq<char>, Seq<WitnessRecordId>)>) -> Seq<InputV>
    decreases ready.len(),
{
    if ready.len() == 0 {
        Seq::empty()
    } else {
        let before = advancement_of(view, ready.drop_last());
        let e = ready.last();
        if e.1.len() == 0 {
            before
        } else {
            before.push(
                InputV::CorroborationAssessed {
                    scope: view.scope,
                    subject: e.0,
                    records: e.1,
                    confidence: confidence_for(view, e.0),
                },
            )
        }
    }
}

pub fn advancement_inputs(book: &EvidenceBook, view: &MembershipView) -> (r: Vec<Input>)
    ensures
        r@.map_values(|i: Input| i@) == advancement_of(view@, spec_ready(book@, view@.scope, view@.beliefs)),
{
    let ready = ready_to_advance(book, view);
    let ghost rv = ready@.map_values(|e: (SubjectId, Vec<WitnessRecordId>)| (e.0@, e.1@));
    let mut out: Vec<Input> = Vec::new();
    let mut ready = ready;
    let ghost all = rv;
    let mut k: usize = 0;
    let n = ready.len();
    while k < n
        invariant
            n == all.len(),
            ready@.len() == n,
            k <= n,
            forall|j: int| k <= j < n ==> (#[trigger] ready@[j]).0@ == all[j].0 && ready@[j].1@ == all[j].1,
            out@.map_values(|i: Input| i@) == advancement_of(view@, all.subrange(0, k as int)),
        decreases n - k,
    {
        let ghost pre = all.subrange(0, k as int);
        assert(all.subrange(0, k + 1).drop_last() =~= pre);
        assert(all.subrange(0, k + 1).last() == all[k as int]);
        let subject = ready[k].0.duplicate();
        let mut records: Vec<WitnessRecordId> = Vec::new();
        let ghost want = all[k as int].1;
        let mut j: usize = 0;
        while j < ready[k].1.len()
            invariant
                k < n,
                ready@.len() == n,
                ready@[k as int].1@ == want,
                j <= want.len(),
                records@ == want.subrange(0, j as int),
            decreases want.len() - j,
        {
            records.push(ready[k].1[j]);
            j = j + 1;
            assert(records@ =~= want.subrange(0, j as int));
        }
        assert(want.subrange(0, j as int) =~= want);
        let ghost before = out@.map_values(|i: Input| i@);
        match NonEmpty::from_vec(records) {
            None => {},
            Some(records) => {
                assert(records@ =~= want);
                let confidence = match view.belief(&subject) {
                    Some(cell) => if cell.state() == BeliefState::Provisional {
                        Confidence::Strong
                    } else {
                        Confidence::Bounded
                    },
                    None => Confidence::Bounded,
                };
                let input = Input::CorroborationAssessed {
                    scope: view.scope().duplicate(),
                    subject,
                    records,
                    confidence,
                };
                out.push(input);
                assert(out@.map_values(|i: Input| i@) =~= before.push(input@));
            },
        }
        k = k + 1;
    }
    assert(all.subrange(0, n as int) =~= all);
    out
}

/// What a moderation decision asks of the kernel: a mute quarantines the
/// subject under conflict pressure, a ban removes it for a policy
/// violation.
pub open spec fn spec_moderation_input(scope: Seq<char>, subject: Seq<char>, action: Moderation) -> InputV {
    match action {
        Moderation::Mute => InputV::QuarantineAssessed {
            scope,
            subject,
            reason: QuarantineReason::ConflictPressure,
        },
        Moderation::Ban => InputV::RemovalAssessed { scope, subject, basis: RemovalBasis::PolicyViolation },
    }
}

pub fn moderation_input(scope: &ScopeId, subject: &str, action: Moderation) -> (r: Input)
    ensures
        r@ == spec_moderation_input(scope@, subject@, action),
{
    match action {
        Moderation::Mute => Input::QuarantineAssessed {
            scope: scope.duplicate(),
            subject: SubjectId::new(subject),
            reason: QuarantineReason::ConflictPressure,
        },
        Moderation::Ban => Input::RemovalAssessed {
            scope: scope.duplicate(),
            subject: SubjectId::new(subject),
            basis: RemovalBasis::PolicyViolation,
        },
    }
}

/// The kernel input an inbound gossip message feeds once its verdict is
/// in: an admitted claim introduces its subject, an admitted witness
/// record is received, an applied moderation becomes its assessment, and
/// an applied override is handed to the kernel. Every other verdict feeds
/// nothing (chat is shown, digests go through negotiation, refusals are
/// only reported).
pub open spec fn spec_gossip_input(msg: GossipMsg, verdict: GossipVerdict, scope: Seq<char>) -> Option<InputV> {
    match verdict {
        GossipVerdict::AdmitClaim => match msg {
            GossipMsg::Claim(c) => Some(InputV::Introduce(c@)),
            _ => None,
        },
        GossipVerdict::AdmitWitness => match msg {
            GossipMsg::Witness(w) => Some(InputV::WitnessRecordReceived(w@)),
            _ => None,
        },
        GossipVerdict::ApplyModeration => match msg {
            GossipMsg::Moderation { subject, action, .. } => Some(spec_moderation_input(scope, subject@, action)),
            _ => None,
        },
        GossipVerdict::ApplyOverride => match msg {
            GossipMsg::Override(o) => Some(InputV::Override(o@)),
            _ => None,
        },
        _ => None,
    }
}

pub fn gossip_input(msg: &GossipMsg, verdict: GossipVerdict, scope: &ScopeId) -> (r: Option<Input>)
    ensures
        r matches Some(i) ==> spec_gossip_input(*msg, verdict, scope@) == Some(i@),
        r is None ==> spec_gossip_input(*msg, verdict, scope@) is None,
{
    match verdict {
        GossipVerdict::AdmitClaim => match msg {
            GossipMsg::Claim(c) => Some(Input::Introduce(c.duplicate())),
            _ => None,
        },
        GossipVerdict::AdmitWitness => match msg {
            GossipMsg::Witness(w) => Some(Input::WitnessRecordReceived(w.duplicate())),
            _ => None,
        },
        GossipVerdict::ApplyModeration => match msg {
            GossipMsg::Moderation { subject, action, .. } => Some(moderation_input(scope, subject.as_str(), *action)),
            _ => None,
        },
        GossipVerdict::ApplyOverride => match msg {
            GossipMsg::Override(o) => Some(Input::Override(o.duplicate())),
            _ => None,
        },
        _ => None,
    }
}

/// The claim a node publishes to introduce a subject into its scope,
/// vouched by `introducer`: at the first epoch, with no evidence yet.
pub open spec fn spec_subject_claim(subject: Seq<char>, asserted: AssertedState, scope: Seq<char>, introducer: Seq<char>) -> ClaimV {
    ClaimV { subject, asserted, scope, provenance: introducer, epoch: Epoch(1), evidence: Seq::empty() }
}

pub fn subject_claim(subject: &str, asserted: AssertedState, scope: &ScopeId, introducer: &str) -> (r: Claim)
    ensures
        r@ == spec_subject_claim(subject@, asserted, scope@, introducer@),
{
    Claim {
        subject: SubjectId::new(subject),
        asserted,
        scope: scope.duplicate(),
        provenance: Provenance { introducer: PeerId::new(introducer) },
        epoch: Epoch(1),
        evidence: Vec::new(),
    }
}

/// The witness record a node publishes about a subject: its own
/// observation at the first epoch, carrying the trust its own standing
/// has earned.
pub open spec fn own_record_matches(
    r: WitnessRecordV,
    me: Seq<char>,
    subject: Seq<char>,
    mode: ObservationMode,
    stance: Stance,
    scope: Seq<char>,
    trust: TrustGrade,
) -> bool {
    &&& r.witness == me
    &&& r.subject == subject
    &&& r.about is None
    &&& r.stance == stance
    &&& r.mode == mode
    &&& r.scope == scope
    &&& r.epoch == Epoch(1)
    &&& r.trust_context == trust
    &&& r.observation.spec_bytes() == domain_digest(
        "resonant/observation/v1"@,
        framed_str(me) + framed_str(subject) + seq![mode_byte(mode)] + le_u64(1),
    )
}

pub fn own_witness_record(
    me: &str,
    subject: &str,
    mode: ObservationMode,
    stance: Stance,
    scope: &ScopeId,
    trust: TrustGrade,
) -> (r: WitnessRecord)
    ensures
        own_record_matches(r@, me@, subject@, mode, stance, scope@, trust),
{
    let observation = Observation {
        observer: WitnessId::new(me),
        subject: SubjectId::new(subject),
        mode,
        epoch: Epoch(1),
    };
    let id = observation.id();
    WitnessRecord {
        witness: WitnessId::new(me),
        subject: SubjectId::new(subject),
        about: None,
        stance,
        observation: id,
        mode,
        scope: scope.duplicate(),
        epoch: Epoch(1),
        trust_context: trust,
    }
}

} // verus!
