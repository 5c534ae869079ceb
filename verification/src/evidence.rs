//! Evidence objects: observations, claims, witness records.
//!
//! `Observation` (local evidence) and `Claim` (transmissible assertion) are
//! separate types with no conversion between them, so received rumor can
//! never masquerade as direct contact. Claims and witness records
//! reference observations by id only. Each object's id is the
//! domain-separated BLAKE3 digest of its canonical bytes.

use crate::encode::{
    digest_with_domain, domain_digest, framed_str, le_u64, write_byte, write_bytes, write_str,
    write_u64,
};
use crate::epoch::Epoch;
use crate::id::{ClaimId, ObservationId, PeerId, SubjectId, WitnessId, WitnessRecordId};
use crate::scope::ScopeId;
use crate::trust::TrustGrade;
use vstd::prelude::*;

verus! {

/// How a local observation was made. Directness stays legible.
#[derive(Debug, Clone, Copy, PartialEq, Eq, Structural, PartialOrd, Ord)]
pub enum ObservationMode {
    DirectContact,
    Timeout,
    ChallengeResponse,
    TopologyEvidence,
    AdminInspection,
}

pub open spec fn mode_byte(m: ObservationMode) -> u8 {
    match m {
        ObservationMode::DirectContact => 0,
        ObservationMode::Timeout => 1,
        ObservationMode::ChallengeResponse => 2,
        ObservationMode::TopologyEvidence => 3,
        ObservationMode::AdminInspection => 4,
    }
}

pub fn observation_mode_byte(m: ObservationMode) -> (r: u8)
    ensures
        r == mode_byte(m),
{
    match m {
        ObservationMode::DirectContact => 0,
        ObservationMode::Timeout => 1,
        ObservationMode::ChallengeResponse => 2,
        ObservationMode::TopologyEvidence => 3,
        ObservationMode::AdminInspection => 4,
    }
}

/// Local, non-transmissible evidence. Never appears in a claim or effect:
/// only its hash does.
#[derive(Debug, Clone, PartialEq, Eq)]
pub struct Observation {
    pub observer: WitnessId,
    pub subject: SubjectId,
    pub mode: ObservationMode,
    pub epoch: Epoch,
}

pub open spec fn observation_bytes(o: Observation) -> Seq<u8> {
    framed_str(o.observer@) + framed_str(o.subject@) + seq![mode_byte(o.mode)] + le_u64(o.epoch.0)
}

impl Observation {
    pub fn id(&self) -> (r: ObservationId)
        ensures
            r.spec_bytes() == domain_digest("resonant/observation/v1"@, observation_bytes(*self)),
    {
        let mut out: Vec<u8> = Vec::new();
        write_str(&mut out, self.observer.as_str());
        write_str(&mut out, self.subject.as_str());
        write_byte(&mut out, observation_mode_byte(self.mode));
        write_u64(&mut out, self.epoch.0);
        assert(out@ =~= observation_bytes(*self));
        ObservationId::from_bytes(digest_with_domain("resonant/observation/v1", out.as_slice()))
    }
}

/// What a claim proposes about its subject (distinct from what any scope
/// believes: introduction is not acceptance).
#[derive(Debug, Clone, Copy, PartialEq, Eq, Structural, PartialOrd, Ord)]
pub enum AssertedState {
    Present,
    Departed,
    Compromised,
}

pub open spec fn asserted_byte(a: AssertedState) -> u8 {
    match a {
        AssertedState::Present => 0,
        AssertedState::Departed => 1,
        AssertedState::Compromised => 2,
    }
}

/// Who introduced a claim and by what right.
#[derive(Debug, Clone, PartialEq, Eq, PartialOrd, Ord)]
pub struct Provenance {
    pub introducer: PeerId,
}

impl View for Provenance {
    type V = Seq<char>;

    open spec fn view(&self) -> Seq<char> {
        self.introducer@
    }
}

impl Provenance {
    pub fn duplicate(&self) -> (r: Provenance)
        ensures
            r@ == self@,
    {
        Provenance { introducer: self.introducer.duplicate() }
    }
}

/// A transmissible assertion about a subject, scoped by construction.
#[derive(Debug, Clone, PartialEq, Eq)]
pub struct Claim {
    pub subject: SubjectId,
    pub asserted: AssertedState,
    pub scope: ScopeId,
    pub provenance: Provenance,
    pub epoch: Epoch,
    pub evidence: Vec<ObservationId>,
}

pub open spec fn observation_ids_bytes(ids: Seq<ObservationId>) -> Seq<u8>
    decreases ids.len(),
{
    if ids.len() == 0 {
        Seq::empty()
    } else {
        observation_ids_bytes(ids.drop_last()) + ids.last().spec_bytes()
    }
}

pub struct ClaimV {
    pub subject: Seq<char>,
    pub asserted: AssertedState,
    pub scope: Seq<char>,
    pub provenance: Seq<char>,
    pub epoch: Epoch,
    pub evidence: Seq<ObservationId>,
}

impl View for Claim {
    type V = ClaimV;

    open spec fn view(&self) -> ClaimV {
        ClaimV {
            subject: self.subject@,
            asserted: self.asserted,
            scope: self.scope@,
            provenance: self.provenance@,
            epoch: self.epoch,
            evidence: self.evidence@,
        }
    }
}

pub open spec fn claim_bytes(c: ClaimV) -> Seq<u8> {
    framed_str(c.subject) + seq![asserted_byte(c.asserted)] + framed_str(c.scope) + framed_str(
        c.provenance,
    ) + le_u64(c.epoch.0) + le_u64(c.evidence.len() as u64) + observation_ids_bytes(c.evidence)
}

/// A claim's id: the domain-separated digest of its canonical bytes.
pub open spec fn claim_id(c: ClaimV) -> ClaimId {
    ClaimId::with_bytes(domain_digest("resonant/claim/v1"@, claim_bytes(c)))
}

fn asserted_state_byte(a: AssertedState) -> (r: u8)
    ensures
        r == asserted_byte(a),
{
    match a {
        AssertedState::Present => 0,
        AssertedState::Departed => 1,
        AssertedState::Compromised => 2,
    }
}

impl Claim {
    pub fn duplicate(&self) -> (r: Self)
        ensures
            r@ == self@,
    {
        let mut evidence: Vec<ObservationId> = Vec::new();
        let mut i: usize = 0;
        while i < self.evidence.len()
            invariant
                i <= self.evidence@.len(),
                evidence@ == self.evidence@.subrange(0, i as int),
            decreases self.evidence@.len() - i,
        {
            evidence.push(self.evidence[i]);
            i = i + 1;
            assert(evidence@ =~= self.evidence@.subrange(0, i as int));
        }
        assert(evidence@ =~= self.evidence@);
        Claim {
            subject: self.subject.duplicate(),
            asserted: self.asserted,
            scope: self.scope.duplicate(),
            provenance: self.provenance.duplicate(),
            epoch: self.epoch,
            evidence,
        }
    }

    pub fn id(&self) -> (r: ClaimId)
        ensures
            r.spec_bytes() == domain_digest("resonant/claim/v1"@, claim_bytes(self@)),
            r == claim_id(self@),
    {
        let mut out: Vec<u8> = Vec::new();
        write_str(&mut out, self.subject.as_str());
        write_byte(&mut out, asserted_state_byte(self.asserted));
        write_str(&mut out, self.scope.as_str());
        write_str(&mut out, self.provenance.introducer.as_str());
        write_u64(&mut out, self.epoch.0);
        write_u64(&mut out, self.evidence.len() as u64);
        let ghost prefix = out@;
        let mut i: usize = 0;
        while i < self.evidence.len()
            invariant
                i <= self.evidence@.len(),
                out@ == prefix + observation_ids_bytes(self.evidence@.subrange(0, i as int)),
            decreases self.evidence@.len() - i,
        {
            write_bytes(&mut out, self.evidence[i].as_bytes().as_slice());
            proof {
                let next = self.evidence@.subrange(0, i + 1);
                assert(next.drop_last() =~= self.evidence@.subrange(0, i as int));
            }
            i = i + 1;
            assert(out@ =~= prefix + observation_ids_bytes(self.evidence@.subrange(0, i as int)));
        }
        assert(self.evidence@.subrange(0, i as int) =~= self.evidence@);
        assert(out@ =~= claim_bytes(self@));
        let r = ClaimId::from_bytes(digest_with_domain("resonant/claim/v1", out.as_slice()));
        proof {
            r.lemma_with_bytes();
        }
        r
    }
}

/// A witness's position. Stances never collapse into a single vote.
#[derive(Debug, Clone, Copy, PartialEq, Eq, Structural, PartialOrd, Ord)]
pub enum Stance {
    Corroborate,
    Dispute,
    Suspect,
    SupportRevocation,
}

pub open spec fn stance_byte(s: Stance) -> u8 {
    match s {
        Stance::Corroborate => 0,
        Stance::Dispute => 1,
        Stance::Suspect => 2,
        Stance::SupportRevocation => 3,
    }
}

pub(crate) fn stance_to_byte(s: Stance) -> (r: u8)
    ensures
        r == stance_byte(s),
{
    match s {
        Stance::Corroborate => 0,
        Stance::Dispute => 1,
        Stance::Suspect => 2,
        Stance::SupportRevocation => 3,
    }
}

/// A protocol-visible record of witnessing: distinct from the witness (an
/// actor) and the observation (local evidence).
#[derive(Debug, Clone, PartialEq, Eq)]
pub struct WitnessRecord {
    pub witness: WitnessId,
    pub subject: SubjectId,
    pub about: Option<ClaimId>,
    pub stance: Stance,
    pub observation: ObservationId,
    /// How the referenced observation was made.
    pub mode: ObservationMode,
    pub scope: ScopeId,
    pub epoch: Epoch,
    /// Scoped trust contribution, annotated at assembly time.
    pub trust_context: TrustGrade,
}

pub struct WitnessRecordV {
    pub witness: Seq<char>,
    pub subject: Seq<char>,
    pub about: Option<ClaimId>,
    pub stance: Stance,
    pub observation: ObservationId,
    pub mode: ObservationMode,
    pub scope: Seq<char>,
    pub epoch: Epoch,
    pub trust_context: TrustGrade,
}

impl View for WitnessRecord {
    type V = WitnessRecordV;

    open spec fn view(&self) -> WitnessRecordV {
        WitnessRecordV {
            witness: self.witness@,
            subject: self.subject@,
            about: self.about,
            stance: self.stance,
            observation: self.observation,
            mode: self.mode,
            scope: self.scope@,
            epoch: self.epoch,
            trust_context: self.trust_context,
        }
    }
}

pub open spec fn record_bytes(r: WitnessRecordV) -> Seq<u8> {
    framed_str(r.witness) + framed_str(r.subject) + (match r.about {
        Some(c) => seq![1u8] + c.spec_bytes(),
        None => seq![0u8],
    }) + seq![stance_byte(r.stance)] + r.observation.spec_bytes() + seq![mode_byte(r.mode)]
        + framed_str(r.scope) + le_u64(r.epoch.0) + seq![r.trust_context.value()]
}

pub open spec fn record_id(r: WitnessRecordV) -> Seq<u8> {
    domain_digest("resonant/witness-record/v1"@, record_bytes(r))
}

/// A witness record's id.
pub open spec fn witness_record_id(r: WitnessRecordV) -> WitnessRecordId {
    WitnessRecordId::with_bytes(record_id(r))
}

impl WitnessRecord {
    pub fn id(&self) -> (r: WitnessRecordId)
        ensures
            r.spec_bytes() == record_id(self@),
            r == witness_record_id(self@),
    {
        let mut out: Vec<u8> = Vec::new();
        write_str(&mut out, self.witness.as_str());
        write_str(&mut out, self.subject.as_str());
        match &self.about {
            Some(claim) => {
                write_byte(&mut out, 1);
                write_bytes(&mut out, claim.as_bytes().as_slice());
            },
            None => {
                write_byte(&mut out, 0);
            },
        }
        write_byte(&mut out, stance_to_byte(self.stance));
        write_bytes(&mut out, self.observation.as_bytes().as_slice());
        write_byte(&mut out, observation_mode_byte(self.mode));
        write_str(&mut out, self.scope.as_str());
        write_u64(&mut out, self.epoch.0);
        write_byte(&mut out, self.trust_context.get());
        assert(out@ =~= record_bytes(self@));
        let r = WitnessRecordId::from_bytes(
            digest_with_domain("resonant/witness-record/v1", out.as_slice()),
        );
        proof {
            r.lemma_with_bytes();
        }
        r
    }

    pub fn duplicate(&self) -> (r: WitnessRecord)
        ensures
            r@ == self@,
    {
        WitnessRecord {
            witness: self.witness.duplicate(),
            subject: self.subject.duplicate(),
            about: self.about,
            stance: self.stance,
            observation: self.observation,
            mode: self.mode,
            scope: self.scope.duplicate(),
            epoch: self.epoch,
            trust_context: self.trust_context,
        }
    }
}

/// Witness quality: how good the corroboration paths are.
#[derive(Debug, Clone, Copy, PartialEq, Eq, Structural, PartialOrd, Ord, Hash)]
pub enum Quality {
    Weak,
    Mixed,
    Strong,
}

/// Witness diversity: how independent the corroboration paths are.
/// `Laundered` marks corroboration manufactured inside one collusion
/// surface; it is worth less than no diversity at all.
#[derive(Debug, Clone, Copy, PartialEq, Eq, Structural, PartialOrd, Ord, Hash)]
pub enum Diversity {
    Laundered,
    SingleScope,
    Mixed,
    CrossScope,
}

/// The corroboration shape of a belief: count, quality, diversity.
#[derive(Debug, Clone, Copy, PartialEq, Eq, Structural)]
pub struct WitnessSummary {
    pub count: u32,
    pub quality: Quality,
    pub diversity: Diversity,
}

} // verus!
