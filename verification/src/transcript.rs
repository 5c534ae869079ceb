//! The transcript: a tamper-evident, replayable second representation of
//! every decision the kernel makes.
//!
//! Kernel entry points take a `TranscriptSink`, so there is no code path
//! that decides without emitting; events are hash-chained (`SealedEvent`)
//! over their canonical bytes, so the transcript is tamper-evident; and
//! because the kernel is deterministic, re-running the recorded inputs
//! reproduces the chain digest for digest (`verify_replay`).

use crate::belief::state::{state_index, BeliefState, EventKind};
use crate::encode::{framed_str, le_u64, write_byte, write_bytes, write_str, write_u64};
use crate::epoch::{Epoch, Round};
use crate::evidence::{stance_byte, stance_to_byte, Stance};
use crate::hash::{blake3_digest, blake3_hash};
use crate::id::{ClaimId, OverrideId, PeerId, ResidueId, SubjectId, TrustRootId, WitnessRecordId};
use crate::merge::{DecidedBy, OverallOutcome, RuleId};
use crate::rank::{
    entry_views, exclusion_views, peer_views, seed_bytes, ExclusionReason, ExclusionReasonV, RankedSelection, RankedSelectionV};
use crate::scope::ScopeId;
use crate::trust::{RootEventKind, RootState, TrustGrade};
use vstd::prelude::*;
use vstd::utf8::encode_utf8;

verus! {

/// Every decision the kernel can make, as data.
#[derive(Debug, PartialEq, Eq)]
pub enum TranscriptEvent {
    ClaimAdmitted { scope: ScopeId, subject: SubjectId, claim: ClaimId },
    WitnessRecorded { scope: ScopeId, subject: SubjectId, record: WitnessRecordId, stance: Stance },
    TransitionApplied {
        scope: ScopeId,
        subject: SubjectId,
        from: BeliefState,
        to: BeliefState,
        event: EventKind,
        at: (Epoch, Round),
    },
    /// Refusals are visible too: a hysteresis hold is a decision.
    TransitionRefused { scope: ScopeId, subject: SubjectId, event: EventKind, reason: String },
    RankComputed { selection: RankedSelection },
    MergeEvaluated {
        scope: ScopeId,
        subject: SubjectId,
        rule: RuleId,
        decided_by: DecidedBy,
        projected: BeliefState,
    },
    ResiduePreserved {
        scope: ScopeId,
        subject: SubjectId,
        residue: ResidueId,
        superseded: Option<ResidueId>,
        handled_by_override: bool,
    },
    ReunionCompleted {
        scope: ScopeId,
        input_digest: [u8; 32],
        overall: OverallOutcome,
        unresolved_residue: usize,
    },
    TrustRootChanged {
        scope: ScopeId,
        root: TrustRootId,
        from: RootState,
        to: RootState,
        basis: String,
    },
    OverrideApplied {
        scope: ScopeId,
        subject: SubjectId,
        override_id: OverrideId,
        forced: BeliefState,
    },
    EpochAdvanced { scope: ScopeId, epoch: Epoch },
    TickAdvanced { round: Round },
    /// A trust root was proposed for a scope.
    TrustRootProposed { scope: ScopeId, root: TrustRootId, basis: String, grade: TrustGrade },
    /// A root move was refused: the root has no standing in the scope
    /// (`standing` is `None`), or the move is invalid from its state.
    TrustRootRefused { scope: ScopeId, root: TrustRootId, event: RootEventKind, standing: Option<RootState> },
    /// A remote digest was compared with the local one; `verdict` names
    /// what the comparison decided.
    DigestCompared { scope: ScopeId, remote: [u8; 32], verdict: String },
    /// An override was refused: no view holds its subject.
    OverrideRefused { subject: SubjectId, override_id: OverrideId, forced: BeliefState },
}

pub enum TranscriptEventV {
    ClaimAdmitted { scope: Seq<char>, subject: Seq<char>, claim: ClaimId },
    WitnessRecorded {
        scope: Seq<char>,
        subject: Seq<char>,
        record: WitnessRecordId,
        stance: Stance,
    },
    TransitionApplied {
        scope: Seq<char>,
        subject: Seq<char>,
        from: BeliefState,
        to: BeliefState,
        event: EventKind,
        at: (Epoch, Round),
    },
    TransitionRefused { scope: Seq<char>, subject: Seq<char>, event: EventKind, reason: Seq<char> },
    RankComputed { selection: RankedSelectionV },
    MergeEvaluated {
        scope: Seq<char>,
        subject: Seq<char>,
        rule: RuleId,
        decided_by: DecidedBy,
        projected: BeliefState,
    },
    ResiduePreserved {
        scope: Seq<char>,
        subject: Seq<char>,
        residue: ResidueId,
        superseded: Option<ResidueId>,
        handled_by_override: bool,
    },
    ReunionCompleted {
        scope: Seq<char>,
        input_digest: Seq<u8>,
        overall: OverallOutcome,
        unresolved_residue: usize,
    },
    TrustRootChanged {
        scope: Seq<char>,
        root: Seq<char>,
        from: RootState,
        to: RootState,
        basis: Seq<char>,
    },
    OverrideApplied {
        scope: Seq<char>,
        subject: Seq<char>,
        override_id: OverrideId,
        forced: BeliefState,
    },
    EpochAdvanced { scope: Seq<char>, epoch: Epoch },
    TickAdvanced { round: Round },
    TrustRootProposed { scope: Seq<char>, root: Seq<char>, basis: Seq<char>, grade: TrustGrade },
    TrustRootRefused { scope: Seq<char>, root: Seq<char>, event: RootEventKind, standing: Option<RootState> },
    DigestCompared { scope: Seq<char>, remote: Seq<u8>, verdict: Seq<char> },
    OverrideRefused { subject: Seq<char>, override_id: OverrideId, forced: BeliefState },
}

impl View for TranscriptEvent {
    type V = TranscriptEventV;

    open spec fn view(&self) -> TranscriptEventV {
        match self {
            TranscriptEvent::ClaimAdmitted { scope, subject, claim } => TranscriptEventV::ClaimAdmitted {
                scope: scope@,
                subject: subject@,
                claim: *claim,
            },
            TranscriptEvent::WitnessRecorded {
                scope,
                subject,
                record,
                stance,
            } => TranscriptEventV::WitnessRecorded {
                scope: scope@,
                subject: subject@,
                record: *record,
                stance: *stance,
            },
            TranscriptEvent::TransitionApplied {
                scope,
                subject,
                from,
                to,
                event,
                at,
            } => TranscriptEventV::TransitionApplied {
                scope: scope@,
                subject: subject@,
                from: *from,
                to: *to,
                event: *event,
                at: *at,
            },
            TranscriptEvent::TransitionRefused {
                scope,
                subject,
                event,
                reason,
            } => TranscriptEventV::TransitionRefused {
                scope: scope@,
                subject: subject@,
                event: *event,
                reason: reason@,
            },
            TranscriptEvent::RankComputed { selection } => TranscriptEventV::RankComputed {
                selection: selection@,
            },
            TranscriptEvent::MergeEvaluated {
                scope,
                subject,
                rule,
                decided_by,
                projected,
            } => TranscriptEventV::MergeEvaluated {
                scope: scope@,
                subject: subject@,
                rule: *rule,
                decided_by: *decided_by,
                projected: *projected,
            },
            TranscriptEvent::ResiduePreserved {
                scope,
                subject,
                residue,
                superseded,
                handled_by_override,
            } => TranscriptEventV::ResiduePreserved {
                scope: scope@,
                subject: subject@,
                residue: *residue,
                superseded: *superseded,
                handled_by_override: *handled_by_override,
            },
            TranscriptEvent::ReunionCompleted {
                scope,
                input_digest,
                overall,
                unresolved_residue,
            } => TranscriptEventV::ReunionCompleted {
                scope: scope@,
                input_digest: input_digest@,
                overall: *overall,
                unresolved_residue: *unresolved_residue,
            },
            TranscriptEvent::TrustRootChanged {
                scope,
                root,
                from,
                to,
                basis,
            } => TranscriptEventV::TrustRootChanged {
                scope: scope@,
                root: root@,
                from: *from,
                to: *to,
                basis: basis@,
            },
            TranscriptEvent::OverrideApplied {
                scope,
                subject,
                override_id,
                forced,
            } => TranscriptEventV::OverrideApplied {
                scope: scope@,
                subject: subject@,
                override_id: *override_id,
                forced: *forced,
            },
            TranscriptEvent::EpochAdvanced { scope, epoch } => TranscriptEventV::EpochAdvanced {
                scope: scope@,
                epoch: *epoch,
            },
            TranscriptEvent::TickAdvanced { round } => TranscriptEventV::TickAdvanced {
                round: *round,
            },
            TranscriptEvent::TrustRootProposed { scope, root, basis, grade } =>
                TranscriptEventV::TrustRootProposed {
                scope: scope@,
                root: root@,
                basis: basis@,
                grade: *grade,
            },
            TranscriptEvent::TrustRootRefused { scope, root, event, standing } =>
                TranscriptEventV::TrustRootRefused {
                scope: scope@,
                root: root@,
                event: *event,
                standing: *standing,
            },
            TranscriptEvent::DigestCompared { scope, remote, verdict } =>
                TranscriptEventV::DigestCompared { scope: scope@, remote: remote@, verdict: verdict@ },
            TranscriptEvent::OverrideRefused { subject, override_id, forced } =>
                TranscriptEventV::OverrideRefused { subject: subject@, override_id: *override_id, forced: *forced },
        }
    }
}

/// Whether an event concerns the given (scope, subject).
pub open spec fn spec_touches(e: TranscriptEventV, scope: Seq<char>, subject: Seq<char>) -> bool {
    match e {
        TranscriptEventV::ClaimAdmitted { scope: s, subject: x, .. } => s == scope && x == subject,
        TranscriptEventV::WitnessRecorded { scope: s, subject: x, .. } => s == scope && x
            == subject,
        TranscriptEventV::TransitionApplied { scope: s, subject: x, .. } => s == scope && x
            == subject,
        TranscriptEventV::TransitionRefused { scope: s, subject: x, .. } => s == scope && x
            == subject,
        TranscriptEventV::MergeEvaluated { scope: s, subject: x, .. } => s == scope && x == subject,
        TranscriptEventV::ResiduePreserved { scope: s, subject: x, .. } => s == scope && x
            == subject,
        TranscriptEventV::OverrideApplied { scope: s, subject: x, .. } => s == scope && x
            == subject,
        TranscriptEventV::RankComputed { selection } => selection.seed.scope == scope
            && selection.seed.subject == Some(subject),
        TranscriptEventV::ReunionCompleted { scope: s, .. } => s == scope,
        TranscriptEventV::EpochAdvanced { scope: s, .. } => s == scope,
        TranscriptEventV::TrustRootChanged { .. } => false,
        TranscriptEventV::TickAdvanced { .. } => false,
        TranscriptEventV::TrustRootProposed { .. } => false,
        TranscriptEventV::TrustRootRefused { .. } => false,
        TranscriptEventV::DigestCompared { .. } => false,
        TranscriptEventV::OverrideRefused { .. } => false,
    }
}

impl TranscriptEvent {
    /// Does this event concern the given (scope, subject)?
    pub fn touches(&self, scope: &ScopeId, subject: &SubjectId) -> (r: bool)
        ensures
            r == spec_touches(self@, scope@, subject@),
    {
        match self {
            TranscriptEvent::ClaimAdmitted { scope: s, subject: x, .. }
            | TranscriptEvent::WitnessRecorded { scope: s, subject: x, .. }
            | TranscriptEvent::TransitionApplied { scope: s, subject: x, .. }
            | TranscriptEvent::TransitionRefused { scope: s, subject: x, .. }
            | TranscriptEvent::MergeEvaluated { scope: s, subject: x, .. }
            | TranscriptEvent::ResiduePreserved { scope: s, subject: x, .. }
            | TranscriptEvent::OverrideApplied { scope: s, subject: x, .. } => s.same(scope)
                && x.same(subject),
            TranscriptEvent::RankComputed { selection } => {
                selection.seed.scope.same(scope) && match &selection.seed.subject {
                    Some(x) => x.same(subject),
                    None => false,
                }
            },
            TranscriptEvent::ReunionCompleted { scope: s, .. }
            | TranscriptEvent::EpochAdvanced { scope: s, .. } => s.same(scope),
            TranscriptEvent::TrustRootChanged { .. }
            | TranscriptEvent::TickAdvanced { .. }
            | TranscriptEvent::TrustRootProposed { .. }
            | TranscriptEvent::TrustRootRefused { .. }
            | TranscriptEvent::DigestCompared { .. }
            | TranscriptEvent::OverrideRefused { .. } => false,
        }
    }

    pub fn duplicate(&self) -> (r: Self)
        ensures
            r@ == self@,
    {
        match self {
            TranscriptEvent::ClaimAdmitted { scope, subject, claim } => TranscriptEvent::ClaimAdmitted {
                scope: scope.duplicate(),
                subject: subject.duplicate(),
                claim: *claim,
            },
            TranscriptEvent::WitnessRecorded {
                scope,
                subject,
                record,
                stance,
            } => TranscriptEvent::WitnessRecorded {
                scope: scope.duplicate(),
                subject: subject.duplicate(),
                record: *record,
                stance: *stance,
            },
            TranscriptEvent::TransitionApplied {
                scope,
                subject,
                from,
                to,
                event,
                at,
            } => TranscriptEvent::TransitionApplied {
                scope: scope.duplicate(),
                subject: subject.duplicate(),
                from: *from,
                to: *to,
                event: *event,
                at: *at,
            },
            TranscriptEvent::TransitionRefused {
                scope,
                subject,
                event,
                reason,
            } => TranscriptEvent::TransitionRefused {
                scope: scope.duplicate(),
                subject: subject.duplicate(),
                event: *event,
                reason: reason.clone(),
            },
            TranscriptEvent::RankComputed { selection } => TranscriptEvent::RankComputed {
                selection: selection.duplicate(),
            },
            TranscriptEvent::MergeEvaluated {
                scope,
                subject,
                rule,
                decided_by,
                projected,
            } => TranscriptEvent::MergeEvaluated {
                scope: scope.duplicate(),
                subject: subject.duplicate(),
                rule: *rule,
                decided_by: *decided_by,
                projected: *projected,
            },
            TranscriptEvent::ResiduePreserved {
                scope,
                subject,
                residue,
                superseded,
                handled_by_override,
            } => TranscriptEvent::ResiduePreserved {
                scope: scope.duplicate(),
                subject: subject.duplicate(),
                residue: *residue,
                superseded: *superseded,
                handled_by_override: *handled_by_override,
            },
            TranscriptEvent::ReunionCompleted {
                scope,
                input_digest,
                overall,
                unresolved_residue,
            } => TranscriptEvent::ReunionCompleted {
                scope: scope.duplicate(),
                input_digest: *input_digest,
                overall: *overall,
                unresolved_residue: *unresolved_residue,
            },
            TranscriptEvent::TrustRootChanged {
                scope,
                root,
                from,
                to,
                basis,
            } => TranscriptEvent::TrustRootChanged {
                scope: scope.duplicate(),
                root: root.duplicate(),
                from: *from,
                to: *to,
                basis: basis.clone(),
            },
            TranscriptEvent::OverrideApplied {
                scope,
                subject,
                override_id,
                forced,
            } => TranscriptEvent::OverrideApplied {
                scope: scope.duplicate(),
                subject: subject.duplicate(),
                override_id: *override_id,
                forced: *forced,
            },
            TranscriptEvent::EpochAdvanced { scope, epoch } => TranscriptEvent::EpochAdvanced {
                scope: scope.duplicate(),
                epoch: *epoch,
            },
            TranscriptEvent::TickAdvanced { round } => TranscriptEvent::TickAdvanced {
                round: *round,
            },
            TranscriptEvent::TrustRootProposed { scope, root, basis, grade } =>
                TranscriptEvent::TrustRootProposed {
                scope: scope.duplicate(),
                root: root.duplicate(),
                basis: basis.clone(),
                grade: *grade,
            },
            TranscriptEvent::TrustRootRefused { scope, root, event, standing } =>
                TranscriptEvent::TrustRootRefused {
                scope: scope.duplicate(),
                root: root.duplicate(),
                event: *event,
                standing: *standing,
            },
            TranscriptEvent::DigestCompared { scope, remote, verdict } => TranscriptEvent::DigestCompared {
                scope: scope.duplicate(),
                remote: *remote,
                verdict: verdict.clone(),
            },
            TranscriptEvent::OverrideRefused { subject, override_id, forced } => TranscriptEvent::OverrideRefused {
                subject: subject.duplicate(),
                override_id: *override_id,
                forced: *forced,
            },
        }
    }
}

impl Clone for TranscriptEvent {
    fn clone(&self) -> (r: Self)
        ensures
            r@ == self@,
    {
        self.duplicate()
    }
}

// ---------------------------------------------------------------------------
// Canonical bytes
// ---------------------------------------------------------------------------

pub open spec fn kind_index(x: EventKind) -> u8 {
    match x {
        EventKind::Introduced => 0,
        EventKind::WitnessRecorded => 1,
        EventKind::CorroborationReached => 2,
        EventKind::ConfidenceNarrowed => 3,
        EventKind::SuspicionRaised => 4,
        EventKind::ConflictDetected => 5,
        EventKind::Revoked => 6,
        EventKind::QuarantineImposed => 7,
        EventKind::QuarantineReleased => 8,
        EventKind::RemovalDecided => 9,
        EventKind::Reintroduced => 10,
        EventKind::EpochReset => 11,
        EventKind::MergeProjected => 12,
        EventKind::OverrideApplied => 13,
    }
}

fn kind_index_of(x: EventKind) -> (r: u8)
    ensures
        r == kind_index(x),
{
    match x {
        EventKind::Introduced => 0,
        EventKind::WitnessRecorded => 1,
        EventKind::CorroborationReached => 2,
        EventKind::ConfidenceNarrowed => 3,
        EventKind::SuspicionRaised => 4,
        EventKind::ConflictDetected => 5,
        EventKind::Revoked => 6,
        EventKind::QuarantineImposed => 7,
        EventKind::QuarantineReleased => 8,
        EventKind::RemovalDecided => 9,
        EventKind::Reintroduced => 10,
        EventKind::EpochReset => 11,
        EventKind::MergeProjected => 12,
        EventKind::OverrideApplied => 13,
    }
}

pub open spec fn rule_index(x: RuleId) -> u8 {
    match x {
        RuleId::NoAdmissibleInput => 0,
        RuleId::SingleSided => 1,
        RuleId::CleanConvergence => 2,
        RuleId::LaunderingDiscount => 3,
        RuleId::SameEpochDispute => 4,
        RuleId::FreshRestrictiveDominates => 5,
        RuleId::RestrictiveDominance => 6,
        RuleId::ConflictSurvived => 7,
        RuleId::FreshnessDowngrade => 8,
        RuleId::PermissiveConverged => 9,
        RuleId::Fallback => 10,
        RuleId::OverrideApplied => 11,
    }
}

fn rule_index_of(x: RuleId) -> (r: u8)
    ensures
        r == rule_index(x),
{
    match x {
        RuleId::NoAdmissibleInput => 0,
        RuleId::SingleSided => 1,
        RuleId::CleanConvergence => 2,
        RuleId::LaunderingDiscount => 3,
        RuleId::SameEpochDispute => 4,
        RuleId::FreshRestrictiveDominates => 5,
        RuleId::RestrictiveDominance => 6,
        RuleId::ConflictSurvived => 7,
        RuleId::FreshnessDowngrade => 8,
        RuleId::PermissiveConverged => 9,
        RuleId::Fallback => 10,
        RuleId::OverrideApplied => 11,
    }
}

pub open spec fn decided_index(x: DecidedBy) -> u8 {
    match x {
        DecidedBy::AdmissibilityGate => 0,
        DecidedBy::StateAgreement => 1,
        DecidedBy::Corroboration => 2,
        DecidedBy::Freshness => 3,
        DecidedBy::TrustAndAuthority => 4,
        DecidedBy::StatusPreference => 5,
        DecidedBy::Informer => 6,
        DecidedBy::InputOrder => 7,
        DecidedBy::Unresolved => 8,
        DecidedBy::Override => 9,
    }
}

fn decided_index_of(x: DecidedBy) -> (r: u8)
    ensures
        r == decided_index(x),
{
    match x {
        DecidedBy::AdmissibilityGate => 0,
        DecidedBy::StateAgreement => 1,
        DecidedBy::Corroboration => 2,
        DecidedBy::Freshness => 3,
        DecidedBy::TrustAndAuthority => 4,
        DecidedBy::StatusPreference => 5,
        DecidedBy::Informer => 6,
        DecidedBy::InputOrder => 7,
        DecidedBy::Unresolved => 8,
        DecidedBy::Override => 9,
    }
}

pub open spec fn overall_index(x: OverallOutcome) -> u8 {
    match x {
        OverallOutcome::Stable => 0,
        OverallOutcome::Provisional => 1,
        OverallOutcome::StableWithOverride => 2,
        OverallOutcome::ProvisionalWithOverride => 3,
    }
}

fn overall_index_of(x: OverallOutcome) -> (r: u8)
    ensures
        r == overall_index(x),
{
    match x {
        OverallOutcome::Stable => 0,
        OverallOutcome::Provisional => 1,
        OverallOutcome::StableWithOverride => 2,
        OverallOutcome::ProvisionalWithOverride => 3,
    }
}

pub open spec fn root_state_index(x: RootState) -> u8 {
    match x {
        RootState::Proposed => 0,
        RootState::Probation => 1,
        RootState::Active => 2,
        RootState::Narrowed => 3,
        RootState::Suspended => 4,
        RootState::Revoked => 5,
    }
}

fn root_state_index_of(x: RootState) -> (r: u8)
    ensures
        r == root_state_index(x),
{
    match x {
        RootState::Proposed => 0,
        RootState::Probation => 1,
        RootState::Active => 2,
        RootState::Narrowed => 3,
        RootState::Suspended => 4,
        RootState::Revoked => 5,
    }
}

pub open spec fn root_event_index(x: RootEventKind) -> u8 {
    match x {
        RootEventKind::Admitted => 0,
        RootEventKind::ProbationPassed => 1,
        RootEventKind::Narrowed => 2,
        RootEventKind::Reaffirmed => 3,
        RootEventKind::Suspended => 4,
        RootEventKind::Reinstated => 5,
        RootEventKind::Revoked => 6,
    }
}

fn root_event_index_of(x: RootEventKind) -> (r: u8)
    ensures
        r == root_event_index(x),
{
    match x {
        RootEventKind::Admitted => 0,
        RootEventKind::ProbationPassed => 1,
        RootEventKind::Narrowed => 2,
        RootEventKind::Reaffirmed => 3,
        RootEventKind::Suspended => 4,
        RootEventKind::Reinstated => 5,
        RootEventKind::Revoked => 6,
    }
}

pub open spec fn names_bytes(names: Seq<Seq<char>>) -> Seq<u8>
    decreases names.len(),
{
    if names.len() == 0 {
        Seq::empty()
    } else {
        names_bytes(names.drop_last()) + framed_str(names.last())
    }
}

pub open spec fn list_bytes(names: Seq<Seq<char>>) -> Seq<u8> {
    le_u64(names.len() as u64) + names_bytes(names)
}

pub open spec fn reason_bytes(r: ExclusionReasonV) -> Seq<u8> {
    match r {
        ExclusionReasonV::TopologyPolicy(text) => seq![0u8] + framed_str(text),
        ExclusionReasonV::Quarantined => seq![1u8],
        ExclusionReasonV::Removed => seq![2u8],
        ExclusionReasonV::StaleEpoch => seq![3u8],
        ExclusionReasonV::OperatorHold => seq![4u8],
    }
}

pub open spec fn exclusions_bytes(ex: Seq<(Seq<char>, ExclusionReasonV)>) -> Seq<u8>
    decreases ex.len(),
{
    if ex.len() == 0 {
        Seq::empty()
    } else {
        exclusions_bytes(ex.drop_last()) + framed_str(ex.last().0) + reason_bytes(ex.last().1)
    }
}

pub open spec fn ranked_bytes(ranked: Seq<(Seq<char>, Seq<u8>)>) -> Seq<u8>
    decreases ranked.len(),
{
    if ranked.len() == 0 {
        Seq::empty()
    } else {
        ranked_bytes(ranked.drop_last()) + framed_str(ranked.last().0) + ranked.last().1
    }
}

/// A selection's canonical bytes: seed, seed digest, pool, exclusions,
/// ranked order, selection; every list length-prefixed.
pub open spec fn selection_bytes(sel: RankedSelectionV) -> Seq<u8> {
    seed_bytes(sel.seed) + sel.seed_digest + list_bytes(sel.pool) + le_u64(sel.excluded.len() as u64)
        + exclusions_bytes(sel.excluded) + le_u64(sel.ranked.len() as u64) + ranked_bytes(
        sel.ranked,
    ) + list_bytes(sel.selected)
}

/// An event's canonical bytes: a variant tag, then its fields in order.
pub open spec fn event_bytes(e: TranscriptEventV) -> Seq<u8> {
    match e {
        TranscriptEventV::ClaimAdmitted { scope, subject, claim } => seq![0u8] + framed_str(scope)
            + framed_str(subject) + claim.spec_bytes(),
        TranscriptEventV::WitnessRecorded { scope, subject, record, stance } => seq![1u8]
            + framed_str(scope) + framed_str(subject) + record.spec_bytes() + seq![stance_byte(stance)],
        TranscriptEventV::TransitionApplied { scope, subject, from, to, event, at } => seq![2u8]
            + framed_str(scope) + framed_str(subject) + seq![
            state_index(from),
            state_index(to),
            kind_index(event),
        ] + le_u64(at.0.0) + le_u64(at.1.0),
        TranscriptEventV::TransitionRefused { scope, subject, event, reason } => seq![3u8]
            + framed_str(scope) + framed_str(subject) + seq![kind_index(event)] + framed_str(reason),
        TranscriptEventV::RankComputed { selection } => seq![4u8] + selection_bytes(selection),
        TranscriptEventV::MergeEvaluated { scope, subject, rule, decided_by, projected } =>
            seq![5u8] + framed_str(scope) + framed_str(subject) + seq![
            rule_index(rule),
            decided_index(decided_by),
            state_index(projected),
        ],
        TranscriptEventV::ResiduePreserved {
            scope,
            subject,
            residue,
            superseded,
            handled_by_override,
        } => seq![6u8] + framed_str(scope) + framed_str(subject) + residue.spec_bytes() + match superseded {
            Some(x) => seq![1u8] + x.spec_bytes(),
            None => seq![0u8],
        } + seq![if handled_by_override { 1u8 } else { 0u8 }],
        TranscriptEventV::ReunionCompleted { scope, input_digest, overall, unresolved_residue } =>
            seq![7u8] + framed_str(scope) + input_digest + seq![overall_index(overall)] + le_u64(
            unresolved_residue as u64,
        ),
        TranscriptEventV::TrustRootChanged { scope, root, from, to, basis } => seq![8u8]
            + framed_str(scope) + framed_str(root) + seq![root_state_index(from), root_state_index(to)]
            + framed_str(basis),
        TranscriptEventV::OverrideApplied { scope, subject, override_id, forced } => seq![9u8]
            + framed_str(scope) + framed_str(subject) + override_id.spec_bytes() + seq![
            state_index(forced),
        ],
        TranscriptEventV::EpochAdvanced { scope, epoch } => seq![10u8] + framed_str(scope) + le_u64(
            epoch.0,
        ),
        TranscriptEventV::TickAdvanced { round } => seq![11u8] + le_u64(round.0),
        TranscriptEventV::TrustRootProposed { scope, root, basis, grade } => seq![12u8]
            + framed_str(scope) + framed_str(root) + framed_str(basis) + seq![grade.value()],
        TranscriptEventV::TrustRootRefused { scope, root, event, standing } => seq![13u8]
            + framed_str(scope) + framed_str(root) + seq![root_event_index(event)] + match standing {
            Some(x) => seq![1u8, root_state_index(x)],
            None => seq![0u8],
        },
        TranscriptEventV::DigestCompared { scope, remote, verdict } => seq![14u8] + framed_str(scope)
            + remote + framed_str(verdict),
        TranscriptEventV::OverrideRefused { subject, override_id, forced } => seq![15u8] + framed_str(subject)
            + override_id.spec_bytes() + seq![state_index(forced)],
    }
}

fn write_names(out: &mut Vec<u8>, names: &Vec<PeerId>)
    ensures
        final(out)@ == old(out)@ + list_bytes(peer_views(names@)),
{
    write_u64(out, names.len() as u64);
    let ghost start = out@;
    let ghost pv = peer_views(names@);
    let mut i: usize = 0;
    while i < names.len()
        invariant
            i <= names@.len(),
            pv == peer_views(names@),
            out@ == start + names_bytes(pv.subrange(0, i as int)),
        decreases names@.len() - i,
    {
        write_str(out, names[i].as_str());
        proof {
            let next = pv.subrange(0, i + 1);
            assert(next.drop_last() =~= pv.subrange(0, i as int));
            assert(next.last() == names@[i as int]@);
        }
        i = i + 1;
        assert(out@ =~= start + names_bytes(pv.subrange(0, i as int)));
    }
    assert(pv.subrange(0, i as int) =~= pv);
    assert(final(out)@ =~= old(out)@ + list_bytes(pv));
}

fn write_reason(out: &mut Vec<u8>, r: &ExclusionReason)
    ensures
        final(out)@ == old(out)@ + reason_bytes(r@),
{
    match r {
        ExclusionReason::TopologyPolicy(text) => {
            write_byte(out, 0);
            write_str(out, text.as_str());
        },
        ExclusionReason::Quarantined => write_byte(out, 1),
        ExclusionReason::Removed => write_byte(out, 2),
        ExclusionReason::StaleEpoch => write_byte(out, 3),
        ExclusionReason::OperatorHold => write_byte(out, 4),
    }
    assert(final(out)@ =~= old(out)@ + reason_bytes(r@));
}

fn write_selection(out: &mut Vec<u8>, sel: &RankedSelection)
    ensures
        final(out)@ == old(out)@ + selection_bytes(sel@),
{
    let ghost start = out@;
    let seed = sel.seed.canonical_bytes();
    write_bytes(out, seed.as_slice());
    write_bytes(out, sel.seed_digest.as_slice());
    write_names(out, &sel.pool);
    write_u64(out, sel.excluded.len() as u64);
    let ghost ev = exclusion_views(sel.excluded@);
    let ghost mid = out@;
    let mut i: usize = 0;
    while i < sel.excluded.len()
        invariant
            i <= sel.excluded@.len(),
            ev == exclusion_views(sel.excluded@),
            out@ == mid + exclusions_bytes(ev.subrange(0, i as int)),
        decreases sel.excluded@.len() - i,
    {
        write_str(out, sel.excluded[i].0.as_str());
        write_reason(out, &sel.excluded[i].1);
        proof {
            let next = ev.subrange(0, i + 1);
            assert(next.drop_last() =~= ev.subrange(0, i as int));
            assert(next.last() == ev[i as int]);
        }
        i = i + 1;
        assert(out@ =~= mid + exclusions_bytes(ev.subrange(0, i as int)));
    }
    assert(ev.subrange(0, i as int) =~= ev);
    write_u64(out, sel.ranked.len() as u64);
    let ghost rv = entry_views(sel.ranked@);
    let ghost mid2 = out@;
    let mut k: usize = 0;
    while k < sel.ranked.len()
        invariant
            k <= sel.ranked@.len(),
            rv == entry_views(sel.ranked@),
            out@ == mid2 + ranked_bytes(rv.subrange(0, k as int)),
        decreases sel.ranked@.len() - k,
    {
        write_str(out, sel.ranked[k].0.as_str());
        write_bytes(out, sel.ranked[k].1.0.as_slice());
        proof {
            let next = rv.subrange(0, k + 1);
            assert(next.drop_last() =~= rv.subrange(0, k as int));
            assert(next.last() == rv[k as int]);
        }
        k = k + 1;
        assert(out@ =~= mid2 + ranked_bytes(rv.subrange(0, k as int)));
    }
    assert(rv.subrange(0, k as int) =~= rv);
    write_names(out, &sel.selected);
    assert(final(out)@ =~= start + selection_bytes(sel@));
}

/// The canonical bytes of the trust-root and digest events.
fn write_late_event(out: &mut Vec<u8>, e: &TranscriptEvent)
    requires
        e is TrustRootProposed || e is TrustRootRefused || e is DigestCompared || e is OverrideRefused,
    ensures
        final(out)@ == old(out)@ + event_bytes(e@),
{
    let ghost start = out@;
    match e {
        TranscriptEvent::TrustRootProposed { scope, root, basis, grade } => {
            write_byte(out, 12);
            write_str(out, scope.as_str());
            write_str(out, root.as_str());
            write_str(out, basis.as_str());
            write_byte(out, grade.get());
            assert(out@ =~= start + event_bytes(e@));
        },
        TranscriptEvent::TrustRootRefused { scope, root, event, standing } => {
            write_byte(out, 13);
            write_str(out, scope.as_str());
            write_str(out, root.as_str());
            write_byte(out, root_event_index_of(*event));
            match standing {
                Some(x) => {
                    write_byte(out, 1);
                    write_byte(out, root_state_index_of(*x));
                },
                None => write_byte(out, 0),
            }
            assert(out@ =~= start + event_bytes(e@));
        },
        TranscriptEvent::DigestCompared { scope, remote, verdict } => {
            write_byte(out, 14);
            write_str(out, scope.as_str());
            write_bytes(out, remote.as_slice());
            write_str(out, verdict.as_str());
            assert(out@ =~= start + event_bytes(e@));
        },
        TranscriptEvent::OverrideRefused { subject, override_id, forced } => {
            write_byte(out, 15);
            write_str(out, subject.as_str());
            write_bytes(out, override_id.as_bytes().as_slice());
            write_byte(out, forced.index());
            assert(out@ =~= start + event_bytes(e@));
        },
        _ => {},
    }
}

#[verifier::spinoff_prover]
#[verifier::rlimit(100)]
fn write_event(out: &mut Vec<u8>, e: &TranscriptEvent)
    ensures
        final(out)@ == old(out)@ + event_bytes(e@),
{
    let ghost start = out@;
    match e {
        TranscriptEvent::ClaimAdmitted { scope, subject, claim } => {
            write_byte(out, 0);
            write_str(out, scope.as_str());
            write_str(out, subject.as_str());
            write_bytes(out, claim.as_bytes().as_slice());
            assert(out@ =~= start + event_bytes(e@));
        },
        TranscriptEvent::WitnessRecorded { scope, subject, record, stance } => {
            write_byte(out, 1);
            write_str(out, scope.as_str());
            write_str(out, subject.as_str());
            write_bytes(out, record.as_bytes().as_slice());
            write_byte(out, stance_to_byte(*stance));
            assert(out@ =~= start + event_bytes(e@));
        },
        TranscriptEvent::TransitionApplied { scope, subject, from, to, event, at } => {
            write_byte(out, 2);
            write_str(out, scope.as_str());
            write_str(out, subject.as_str());
            write_byte(out, from.index());
            write_byte(out, to.index());
            write_byte(out, kind_index_of(*event));
            write_u64(out, at.0.0);
            write_u64(out, at.1.0);
            assert(out@ =~= start + event_bytes(e@));
        },
        TranscriptEvent::TransitionRefused { scope, subject, event, reason } => {
            write_byte(out, 3);
            write_str(out, scope.as_str());
            write_str(out, subject.as_str());
            write_byte(out, kind_index_of(*event));
            write_str(out, reason.as_str());
            assert(out@ =~= start + event_bytes(e@));
        },
        TranscriptEvent::RankComputed { selection } => {
            write_byte(out, 4);
            write_selection(out, selection);
            assert(out@ =~= start + event_bytes(e@));
        },
        TranscriptEvent::MergeEvaluated { scope, subject, rule, decided_by, projected } => {
            write_byte(out, 5);
            write_str(out, scope.as_str());
            write_str(out, subject.as_str());
            write_byte(out, rule_index_of(*rule));
            write_byte(out, decided_index_of(*decided_by));
            write_byte(out, projected.index());
            assert(out@ =~= start + event_bytes(e@));
        },
        TranscriptEvent::ResiduePreserved {
            scope,
            subject,
            residue,
            superseded,
            handled_by_override,
        } => {
            write_byte(out, 6);
            write_str(out, scope.as_str());
            write_str(out, subject.as_str());
            write_bytes(out, residue.as_bytes().as_slice());
            match superseded {
                Some(x) => {
                    write_byte(out, 1);
                    write_bytes(out, x.as_bytes().as_slice());
                },
                None => write_byte(out, 0),
            }
            write_byte(
                out,
                if *handled_by_override {
                    1
                } else {
                    0
                },
            );
            assert(out@ =~= start + event_bytes(e@));
        },
        TranscriptEvent::ReunionCompleted { scope, input_digest, overall, unresolved_residue } => {
            write_byte(out, 7);
            write_str(out, scope.as_str());
            write_bytes(out, input_digest.as_slice());
            write_byte(out, overall_index_of(*overall));
            write_u64(out, *unresolved_residue as u64);
            assert(out@ =~= start + event_bytes(e@));
        },
        TranscriptEvent::TrustRootChanged { scope, root, from, to, basis } => {
            write_byte(out, 8);
            write_str(out, scope.as_str());
            write_str(out, root.as_str());
            write_byte(out, root_state_index_of(*from));
            write_byte(out, root_state_index_of(*to));
            write_str(out, basis.as_str());
            assert(out@ =~= start + event_bytes(e@));
        },
        TranscriptEvent::OverrideApplied { scope, subject, override_id, forced } => {
            write_byte(out, 9);
            write_str(out, scope.as_str());
            write_str(out, subject.as_str());
            write_bytes(out, override_id.as_bytes().as_slice());
            write_byte(out, forced.index());
            assert(out@ =~= start + event_bytes(e@));
        },
        TranscriptEvent::EpochAdvanced { scope, epoch } => {
            write_byte(out, 10);
            write_str(out, scope.as_str());
            write_u64(out, epoch.0);
            assert(out@ =~= start + event_bytes(e@));
        },
        TranscriptEvent::TickAdvanced { round } => {
            write_byte(out, 11);
            write_u64(out, round.0);
            assert(out@ =~= start + event_bytes(e@));
        },
        TranscriptEvent::TrustRootProposed { .. }
        | TranscriptEvent::TrustRootRefused { .. }
        | TranscriptEvent::DigestCompared { .. }
        | TranscriptEvent::OverrideRefused { .. } => write_late_event(out, e),
    }
}

// ---------------------------------------------------------------------------
// The chain
// ---------------------------------------------------------------------------

/// An event sealed into the hash chain.
#[derive(Debug, PartialEq, Eq)]
pub struct SealedEvent {
    pub seq: u64,
    pub parent: [u8; 32],
    pub event: TranscriptEvent,
    pub digest: [u8; 32],
}

pub struct SealedEventV {
    pub seq: u64,
    pub parent: Seq<u8>,
    pub event: TranscriptEventV,
    pub digest: Seq<u8>,
}

impl View for SealedEvent {
    type V = SealedEventV;

    open spec fn view(&self) -> SealedEventV {
        SealedEventV {
            seq: self.seq,
            parent: self.parent@,
            event: self.event@,
            digest: self.digest@,
        }
    }
}

impl SealedEvent {
    pub fn duplicate(&self) -> (r: Self)
        ensures
            r@ == self@,
    {
        SealedEvent {
            seq: self.seq,
            parent: self.parent,
            event: self.event.duplicate(),
            digest: self.digest,
        }
    }
}

impl Clone for SealedEvent {
    fn clone(&self) -> (r: Self)
        ensures
            r@ == self@,
    {
        self.duplicate()
    }
}

/// The digest sealing an event at position `seq` under `parent`.
pub open spec fn seal_digest(parent: Seq<u8>, seq: u64, e: TranscriptEventV) -> Seq<u8> {
    blake3_digest(encode_utf8("resonant/transcript/v1"@) + parent + le_u64(seq) + event_bytes(e))
}

/// The parent of the first event: 32 zero bytes.
pub open spec fn genesis() -> Seq<u8> {
    Seq::new(32, |i: int| 0u8)
}

fn seal(parent: &[u8; 32], seq: u64, event: &TranscriptEvent) -> (r: [u8; 32])
    ensures
        r@ == seal_digest(parent@, seq, event@),
{
    let mut bytes: Vec<u8> = Vec::new();
    write_bytes(&mut bytes, "resonant/transcript/v1".as_bytes());
    write_bytes(&mut bytes, parent.as_slice());
    write_u64(&mut bytes, seq);
    write_event(&mut bytes, event);
    assert(bytes@ =~= encode_utf8("resonant/transcript/v1"@) + parent@ + le_u64(seq) + event_bytes(
        event@,
    ));
    blake3_hash(bytes.as_slice())
}

/// Why a chain does not verify.
#[derive(Debug, Clone, Copy, PartialEq, Eq, Structural)]
pub enum ChainError {
    Sequence { seq: u64 },
    Parent { seq: u64 },
    Digest { seq: u64 },
}

pub open spec fn chain_error_text(e: ChainError) -> Seq<char> {
    match e {
        ChainError::Sequence { seq } => "event "@ + crate::text::decimal(seq as nat)
            + ": sequence out of order"@,
        ChainError::Parent { seq } => "event "@ + crate::text::decimal(seq as nat)
            + ": parent digest does not match previous event"@,
        ChainError::Digest { seq } => "event "@ + crate::text::decimal(seq as nat)
            + ": sealed digest does not match event content"@,
    }
}

impl ChainError {
    /// The human-readable chain error message.
    pub fn describe(&self) -> (r: String)
        ensures
            r@ == chain_error_text(*self),
    {
        let mut out = crate::text::string_of("event ");
        match self {
            ChainError::Sequence { seq } => {
                crate::text::push_decimal(&mut out, *seq);
                vstd::string::StringExecFns::append(&mut out, ": sequence out of order");
            },
            ChainError::Parent { seq } => {
                crate::text::push_decimal(&mut out, *seq);
                vstd::string::StringExecFns::append(
                    &mut out,
                    ": parent digest does not match previous event",
                );
            },
            ChainError::Digest { seq } => {
                crate::text::push_decimal(&mut out, *seq);
                vstd::string::StringExecFns::append(
                    &mut out,
                    ": sealed digest does not match event content",
                );
            },
        }
        out
    }
}

/// The parent event `i` must name.
pub open spec fn expected_parent(events: Seq<SealedEventV>, i: int) -> Seq<u8> {
    if i == 0 {
        genesis()
    } else {
        events[i - 1].digest
    }
}

/// The check on event `i`, given that every earlier event passed.
pub open spec fn check_at(events: Seq<SealedEventV>, i: int) -> Option<ChainError> {
    let e = events[i];
    if e.seq != i {
        Some(ChainError::Sequence { seq: e.seq })
    } else if e.parent != expected_parent(events, i) {
        Some(ChainError::Parent { seq: i as u64 })
    } else if seal_digest(expected_parent(events, i), i as u64, e.event) != e.digest {
        Some(ChainError::Digest { seq: i as u64 })
    } else {
        None
    }
}

/// The first failing check from position `i` on.
pub open spec fn first_failure(events: Seq<SealedEventV>, i: nat) -> Option<ChainError>
    decreases events.len() - i,
{
    if i >= events.len() {
        None
    } else {
        match check_at(events, i as int) {
            Some(e) => Some(e),
            None => first_failure(events, i + 1),
        }
    }
}

/// A well-formed chain: every event in sequence, naming its predecessor's
/// digest, and sealed over its own content.
pub open spec fn chain_valid(events: Seq<SealedEventV>) -> bool {
    forall|i: int| 0 <= i < events.len() ==> #[trigger] check_at(events, i) is None
}

/// Where transcript events go. Kernel decision paths require one, so a
/// decision without a transcript entry cannot be written.
pub trait TranscriptSink: Sized {
    /// The events this sink has kept.
    spec fn kept(&self) -> Seq<TranscriptEventV>;

    /// Whether the sink keeps what it is given.
    spec fn retains() -> bool;

    /// The sink's own integrity (for a transcript: a well-formed chain).
    spec fn sink_wf(&self) -> bool;

    fn record(&mut self, event: TranscriptEvent)
        ensures
            final(self).kept() == if Self::retains() {
                old(self).kept().push(event@)
            } else {
                old(self).kept()
            },
            old(self).sink_wf() ==> final(self).sink_wf(),
    ;
}

/// A sink that drops events, for callers that genuinely only want the
/// return value. Using it is a visible choice.
pub struct DiscardSink;

impl TranscriptSink for DiscardSink {
    open spec fn kept(&self) -> Seq<TranscriptEventV> {
        Seq::empty()
    }

    open spec fn retains() -> bool {
        false
    }

    open spec fn sink_wf(&self) -> bool {
        true
    }

    fn record(&mut self, event: TranscriptEvent) {
    }
}

/// The default sink: an append-only, hash-chained event log.
#[derive(Debug, PartialEq, Eq)]
pub struct Transcript {
    events: Vec<SealedEvent>,
}

impl View for Transcript {
    type V = Seq<SealedEventV>;

    closed spec fn view(&self) -> Seq<SealedEventV> {
        self.events@.map_values(|e: SealedEvent| e@)
    }
}

/// The events a chain seals, in order.
pub open spec fn chain_events(events: Seq<SealedEventV>) -> Seq<TranscriptEventV> {
    events.map_values(|e: SealedEventV| e.event)
}

/// The sealed events concerning a (scope, subject), in order.
pub open spec fn explained(events: Seq<SealedEventV>, scope: Seq<char>, subject: Seq<char>) -> Seq<SealedEventV>
    decreases events.len(),
{
    if events.len() == 0 {
        Seq::empty()
    } else {
        explained(events.drop_last(), scope, subject) + if spec_touches(
            events.last().event,
            scope,
            subject,
        ) {
            seq![events.last()]
        } else {
            Seq::empty()
        }
    }
}

proof fn lemma_first_failure_skip(events: Seq<SealedEventV>, i: nat)
    requires
        i < events.len(),
        check_at(events, i as int) is None,
    ensures
        first_failure(events, i) == first_failure(events, i + 1),
{
}

proof fn lemma_valid_has_no_failure(events: Seq<SealedEventV>, i: nat)
    requires
        chain_valid(events),
    ensures
        first_failure(events, i) is None,
    decreases events.len() - i,
{
    if i < events.len() {
        assert(check_at(events, i as int) is None);
        lemma_valid_has_no_failure(events, i + 1);
    }
}

proof fn lemma_no_failure_is_valid(events: Seq<SealedEventV>, i: nat)
    requires
        first_failure(events, i) is None,
    ensures
        forall|j: int| i <= j < events.len() ==> #[trigger] check_at(events, j) is None,
    decreases events.len() - i,
{
    if i < events.len() {
        lemma_no_failure_is_valid(events, i + 1);
    }
}

impl Transcript {
    pub fn new() -> (r: Self)
        ensures
            r@ == Seq::<SealedEventV>::empty(),
    {
        let r = Transcript { events: Vec::new() };
        assert(r@ =~= Seq::<SealedEventV>::empty());
        r
    }

    pub fn events(&self) -> (r: &[SealedEvent])
        ensures
            r@.map_values(|e: SealedEvent| e@) == self@,
    {
        self.events.as_slice()
    }

    pub fn len(&self) -> (n: usize)
        ensures
            n == self@.len(),
    {
        self.events.len()
    }

    pub fn is_empty(&self) -> (b: bool)
        ensures
            b == (self@.len() == 0),
    {
        self.events.len() == 0
    }

    /// Digest of the whole chain (the last event's digest).
    pub fn head(&self) -> (r: Option<[u8; 32]>)
        ensures
            match r {
                Some(d) => self@.len() > 0 && d@ == self@.last().digest,
                None => self@.len() == 0,
            },
    {
        if self.events.len() == 0 {
            None
        } else {
            Some(self.events[self.events.len() - 1].digest)
        }
    }

    /// Verify the hash chain end to end.
    pub fn verify_chain(&self) -> (r: Result<(), ChainError>)
        ensures
            match first_failure(self@, 0) {
                Some(e) => r == Err::<(), ChainError>(e),
                None => r is Ok,
            },
            r is Ok <==> chain_valid(self@),
    {
        let ghost events = self@;
        let mut parent: [u8; 32] = [0u8; 32];
        proof {
            assert(parent@ =~= genesis());
        }
        let mut index: usize = 0;
        while index < self.events.len()
            invariant
                index <= events.len(),
                events == self@,
                first_failure(events, 0) == first_failure(events, index as nat),
                parent@ == expected_parent(events, index as int),
            decreases events.len() - index,
        {
            let sealed = &self.events[index];
            let seq = index as u64;
            assert(events[index as int] == sealed@);
            if sealed.seq != seq {
                return Err(ChainError::Sequence { seq: sealed.seq });
            }
            if !crate::order::bytes_equal(sealed.parent.as_slice(), parent.as_slice()) {
                return Err(ChainError::Parent { seq });
            }
            let d = seal(&parent, seq, &sealed.event);
            if !crate::order::bytes_equal(d.as_slice(), sealed.digest.as_slice()) {
                return Err(ChainError::Digest { seq });
            }
            proof {
                lemma_first_failure_skip(events, index as nat);
            }
            parent = sealed.digest;
            index = index + 1;
        }
        proof {
            lemma_no_failure_is_valid(events, 0);
            if chain_valid(events) {
                lemma_valid_has_no_failure(events, 0);
            }
        }
        Ok(())
    }

    /// The causal chain for one (scope, subject): introduction, witness
    /// records, transitions (including refusals), merge traces, residue
    /// lineage, overrides.
    pub fn explain(&self, scope: &ScopeId, subject: &SubjectId) -> (r: Vec<&SealedEvent>)
        ensures
            r@.map_values(|e: &SealedEvent| e@) == explained(self@, scope@, subject@),
    {
        let ghost events = self@;
        let mut out: Vec<&SealedEvent> = Vec::new();
        let mut i: usize = 0;
        while i < self.events.len()
            invariant
                i <= events.len(),
                events == self@,
                out@.map_values(|e: &SealedEvent| e@) == explained(events.subrange(0, i as int), scope@, subject@),
            decreases events.len() - i,
        {
            let sealed = &self.events[i];
            proof {
                let next = events.subrange(0, i + 1);
                assert(next.drop_last() =~= events.subrange(0, i as int));
                assert(next.last() == sealed@);
            }
            let ghost before = out@;
            if sealed.event.touches(scope, subject) {
                out.push(sealed);
                assert(out@.map_values(|e: &SealedEvent| e@) =~= before.map_values(
                    |e: &SealedEvent| e@,
                ).push(sealed@));
            }
            i = i + 1;
            assert(out@.map_values(|e: &SealedEvent| e@) =~= explained(events.subrange(0, i as int), scope@, subject@));
        }
        assert(events.subrange(0, i as int) =~= events);
        out
    }
}

impl TranscriptSink for Transcript {
    open spec fn kept(&self) -> Seq<TranscriptEventV> {
        chain_events(self@)
    }

    open spec fn retains() -> bool {
        true
    }

    open spec fn sink_wf(&self) -> bool {
        chain_valid(self@)
    }

    /// Seal and append: the event's sequence number is its position, its
    /// parent the previous head (or the genesis zeros).
    fn record(&mut self, event: TranscriptEvent)
        ensures
            final(self)@ == old(self)@.push(
                SealedEventV {
                    seq: old(self)@.len() as u64,
                    parent: expected_parent(old(self)@, old(self)@.len() as int),
                    event: event@,
                    digest: seal_digest(
                        expected_parent(old(self)@, old(self)@.len() as int),
                        old(self)@.len() as u64,
                        event@,
                    ),
                },
            ),
            chain_valid(old(self)@) ==> chain_valid(final(self)@),
    {
        let ghost before = self@;
        let seq = self.events.len() as u64;
        let parent = match self.head() {
            Some(d) => d,
            None => [0u8; 32],
        };
        proof {
            if before.len() == 0 {
                assert(parent@ =~= genesis());
            }
        }
        let digest = seal(&parent, seq, &event);
        let ghost ev = event@;
        self.events.push(SealedEvent { seq, parent, event, digest });
        proof {
            assert(self@ =~= before.push(SealedEventV { seq, parent: parent@, event: ev, digest: digest@ }));
            assert(chain_events(self@) =~= chain_events(before).push(ev));
            if chain_valid(before) {
                assert forall|i: int| 0 <= i < self@.len() implies #[trigger] check_at(self@, i) is None by {
                    if i < before.len() {
                        assert(check_at(before, i) is None);
                        assert(self@[i] == before[i]);
                        if i > 0 {
                            assert(self@[i - 1] == before[i - 1]);
                        }
                    }
                }
            }
        }
    }
}

/// A transcript built by `record` alone always verifies: every record
/// keeps the chain well-formed, and `verify_chain` accepts exactly the
/// well-formed chains.
pub proof fn lemma_valid_chain_verifies(events: Seq<SealedEventV>)
    requires
        chain_valid(events),
    ensures
        first_failure(events, 0) is None,
{
    lemma_valid_has_no_failure(events, 0);
}

/// The chain `record` builds from an empty transcript for these events.
pub open spec fn seal_chain(events: Seq<TranscriptEventV>) -> Seq<SealedEventV>
    decreases events.len(),
{
    if events.len() == 0 {
        Seq::empty()
    } else {
        let prev = seal_chain(events.drop_last());
        let parent = expected_parent(prev, prev.len() as int);
        prev.push(
            SealedEventV {
                seq: prev.len() as u64,
                parent,
                event: events.last(),
                digest: seal_digest(parent, prev.len() as u64, events.last()),
            },
        )
    }
}

proof fn lemma_seal_chain_len(events: Seq<TranscriptEventV>)
    ensures
        seal_chain(events).len() == events.len(),
    decreases events.len(),
{
    if events.len() > 0 {
        lemma_seal_chain_len(events.drop_last());
    }
}

/// A well-formed chain is exactly the sealing of its events: nothing but
/// the events is free in it.
pub proof fn lemma_valid_chain_is_sealed(events: Seq<SealedEventV>)
    requires
        chain_valid(events),
    ensures
        events == seal_chain(chain_events(events)),
    decreases events.len(),
{
    if events.len() > 0 {
        let d = events.drop_last();
        assert forall|i: int| 0 <= i < d.len() implies #[trigger] check_at(d, i) is None by {
            assert(check_at(events, i) is None);
            assert(d[i] == events[i]);
            if i > 0 {
                assert(d[i - 1] == events[i - 1]);
            }
        }
        lemma_valid_chain_is_sealed(d);
        assert(chain_events(events).drop_last() =~= chain_events(d));
        lemma_seal_chain_len(chain_events(d));
        let n = events.len() - 1;
        assert(check_at(events, n) is None);
        if n > 0 {
            assert(events[n - 1] == d[n - 1]);
        }
        assert(seal_chain(chain_events(events)) =~= events);
    } else {
        assert(events =~= seal_chain(chain_events(events)));
    }
}

impl Transcript {
    /// An independent copy of the chain.
    pub fn duplicate(&self) -> (r: Self)
        ensures
            r@ == self@,
    {
        let mut events: Vec<SealedEvent> = Vec::new();
        let mut i: usize = 0;
        while i < self.events.len()
            invariant
                i <= self.events@.len(),
                events@.map_values(|e: SealedEvent| e@) == self.events@.subrange(0, i as int).map_values(
                    |e: SealedEvent| e@,
                ),
            decreases self.events@.len() - i,
        {
            let ghost before = events@;
            events.push(self.events[i].duplicate());
            proof {
                assert(self.events@.subrange(0, i + 1) =~= self.events@.subrange(0, i as int).push(self.events@[i as int]));
                assert(events@.map_values(|e: SealedEvent| e@) =~= before.map_values(|e: SealedEvent| e@).push(self.events@[i as int]@));
                assert(self.events@.subrange(0, i + 1).map_values(|e: SealedEvent| e@) =~= self.events@.subrange(0, i as int).map_values(|e: SealedEvent| e@).push(self.events@[i as int]@));
            }
            i = i + 1;
        }
        assert(self.events@.subrange(0, i as int) =~= self.events@);
        Transcript { events }
    }
}

impl Clone for Transcript {
    fn clone(&self) -> (r: Self)
        ensures
            r@ == self@,
    {
        self.duplicate()
    }
}

impl Default for Transcript {
    fn default() -> (r: Self)
        ensures
            r@ == Seq::<SealedEventV>::empty(),
    {
        Transcript::new()
    }
}

} // verus!
