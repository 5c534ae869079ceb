//! The canonical nine-state scoped belief lifecycle.
//!
//! `transition_table` is the executable form of the canonical table, row
//! by row. Merge output classes project onto these states; they are not a
//! second lifecycle. There is deliberately no `Revoked` state: revocation
//! is `BeliefEvent::Revoked`, a visible transition event, never a durable
//! state. Where several targets are plausible, the conservative reading is
//! pinned: recovery re-strengthens through `provisional`, quarantine
//! releases to `provisional`, and `witnessed` has no direct edge to
//! `removed`.

use crate::collections::OrderedKey;
use crate::epoch::Epoch;
use crate::order::compare_bytes;
use crate::evidence::{Provenance, Stance};
use crate::id::{ClaimId, OverrideId, SubjectId, TrustRootId, WitnessId, WitnessRecordId};
use crate::scope::ScopeId;
use crate::trust::Confidence;
use crate::util::NonEmpty;
use vstd::prelude::*;

verus! {

/// Scoped belief about a subject. Exactly the nine canonical states.
#[derive(Debug, Clone, Copy, PartialEq, Eq, Structural, PartialOrd, Ord, Hash)]
pub enum BeliefState {
    Unknown,
    Introduced,
    Witnessed,
    Provisional,
    Accepted,
    Suspected,
    Disputed,
    Quarantined,
    Removed,
}

pub open spec fn state_name(s: BeliefState) -> Seq<char> {
    match s {
        BeliefState::Unknown => "unknown"@,
        BeliefState::Introduced => "introduced"@,
        BeliefState::Witnessed => "witnessed"@,
        BeliefState::Provisional => "provisional"@,
        BeliefState::Accepted => "accepted"@,
        BeliefState::Suspected => "suspected"@,
        BeliefState::Disputed => "disputed"@,
        BeliefState::Quarantined => "quarantined"@,
        BeliefState::Removed => "removed"@,
    }
}

impl View for BeliefState {
    type V = BeliefState;

    open spec fn view(&self) -> BeliefState {
        *self
    }
}

/// A state's position in lifecycle order.
pub open spec fn state_index(s: BeliefState) -> u8 {
    match s {
        BeliefState::Unknown => 0,
        BeliefState::Introduced => 1,
        BeliefState::Witnessed => 2,
        BeliefState::Provisional => 3,
        BeliefState::Accepted => 4,
        BeliefState::Suspected => 5,
        BeliefState::Disputed => 6,
        BeliefState::Quarantined => 7,
        BeliefState::Removed => 8,
    }
}

/// The state at a position in lifecycle order.
pub open spec fn state_at(i: int) -> BeliefState {
    if i == 0 {
        BeliefState::Unknown
    } else if i == 1 {
        BeliefState::Introduced
    } else if i == 2 {
        BeliefState::Witnessed
    } else if i == 3 {
        BeliefState::Provisional
    } else if i == 4 {
        BeliefState::Accepted
    } else if i == 5 {
        BeliefState::Suspected
    } else if i == 6 {
        BeliefState::Disputed
    } else if i == 7 {
        BeliefState::Quarantined
    } else {
        BeliefState::Removed
    }
}

impl OrderedKey for BeliefState {
    open spec fn order_bytes(k: BeliefState) -> Seq<u8> {
        seq![state_index(k)]
    }

    proof fn lemma_order_bytes_injective(a: BeliefState, b: BeliefState) {
        if seq![state_index(a)] == seq![state_index(b)] {
            assert(seq![state_index(a)][0] == seq![state_index(b)][0]);
        }
    }

    fn compare_key(&self, other: &Self) -> (r: i8) {
        let a = self.index();
        let b = other.index();
        let sa = [a];
        let sb = [b];
        assert(sa@ =~= seq![a]);
        assert(sb@ =~= seq![b]);
        compare_bytes(sa.as_slice(), sb.as_slice())
    }

    fn copy_key(&self) -> (r: Self) {
        *self
    }
}

impl BeliefState {
    /// The state's position in lifecycle order.
    pub fn index(self) -> (r: u8)
        ensures
            r == state_index(self),
            r < 9,
            state_at(r as int) == self,
    {
        match self {
            BeliefState::Unknown => 0,
            BeliefState::Introduced => 1,
            BeliefState::Witnessed => 2,
            BeliefState::Provisional => 3,
            BeliefState::Accepted => 4,
            BeliefState::Suspected => 5,
            BeliefState::Disputed => 6,
            BeliefState::Quarantined => 7,
            BeliefState::Removed => 8,
        }
    }

    /// The state at a position in lifecycle order.
    pub fn at_index(i: u8) -> (r: BeliefState)
        requires
            i < 9,
        ensures
            r == state_at(i as int),
            state_index(r) == i,
    {
        if i == 0 {
            BeliefState::Unknown
        } else if i == 1 {
            BeliefState::Introduced
        } else if i == 2 {
            BeliefState::Witnessed
        } else if i == 3 {
            BeliefState::Provisional
        } else if i == 4 {
            BeliefState::Accepted
        } else if i == 5 {
            BeliefState::Suspected
        } else if i == 6 {
            BeliefState::Disputed
        } else if i == 7 {
            BeliefState::Quarantined
        } else {
            BeliefState::Removed
        }
    }
}

impl BeliefState {
    /// All nine states, in lifecycle order.
    pub fn all() -> (r: [BeliefState; 9])
        ensures
            r@ == seq![
                BeliefState::Unknown,
                BeliefState::Introduced,
                BeliefState::Witnessed,
                BeliefState::Provisional,
                BeliefState::Accepted,
                BeliefState::Suspected,
                BeliefState::Disputed,
                BeliefState::Quarantined,
                BeliefState::Removed,
            ],
    {
        let r = [
            BeliefState::Unknown,
            BeliefState::Introduced,
            BeliefState::Witnessed,
            BeliefState::Provisional,
            BeliefState::Accepted,
            BeliefState::Suspected,
            BeliefState::Disputed,
            BeliefState::Quarantined,
            BeliefState::Removed,
        ];
        assert(r@ =~= seq![
            BeliefState::Unknown,
            BeliefState::Introduced,
            BeliefState::Witnessed,
            BeliefState::Provisional,
            BeliefState::Accepted,
            BeliefState::Suspected,
            BeliefState::Disputed,
            BeliefState::Quarantined,
            BeliefState::Removed,
        ]);
        r
    }

    pub fn as_str(self) -> (r: &'static str)
        ensures
            r@ == state_name(self),
    {
        match self {
            BeliefState::Unknown => "unknown",
            BeliefState::Introduced => "introduced",
            BeliefState::Witnessed => "witnessed",
            BeliefState::Provisional => "provisional",
            BeliefState::Accepted => "accepted",
            BeliefState::Suspected => "suspected",
            BeliefState::Disputed => "disputed",
            BeliefState::Quarantined => "quarantined",
            BeliefState::Removed => "removed",
        }
    }
}

/// Why confidence narrowed without active conflict.
#[derive(Debug, Clone, Copy, PartialEq, Eq, Structural)]
pub enum NarrowReason {
    FreshnessLoss,
    CorroborationDecay,
}

/// Why previously stronger belief degraded into suspicion.
#[derive(Debug, Clone, Copy, PartialEq, Eq, Structural)]
pub enum SuspicionBasis {
    FreshnessLoss,
    FailedCorroboration,
    EarlyConflictPressure,
}

/// Why propagation/acceptance was suspended.
#[derive(Debug, Clone, Copy, PartialEq, Eq)]
pub enum QuarantineReason {
    ConflictPressure,
    TrustRepairInProgress,
    OperatorHold(OverrideId),
}

/// Why a subject stopped being treated as a member in this scope.
#[derive(Debug, Clone, Copy, PartialEq, Eq, Structural)]
pub enum RemovalBasis {
    Departure,
    PolicyViolation,
    RevocationOutcome,
}

/// What a revocation event targets.
#[derive(Debug, Clone, PartialEq, Eq)]
pub enum RevocationTarget {
    SubjectAcceptance { scope: ScopeId, subject: SubjectId },
    WitnessStanding { scope: ScopeId, witness: WitnessId },
    TrustRootStanding { scope: ScopeId, root: TrustRootId },
}

pub enum RevocationTargetV {
    SubjectAcceptance { scope: Seq<char>, subject: Seq<char> },
    WitnessStanding { scope: Seq<char>, witness: Seq<char> },
    TrustRootStanding { scope: Seq<char>, root: Seq<char> },
}

impl View for RevocationTarget {
    type V = RevocationTargetV;

    open spec fn view(&self) -> RevocationTargetV {
        match self {
            RevocationTarget::SubjectAcceptance { scope, subject } => RevocationTargetV::SubjectAcceptance {
                scope: scope@,
                subject: subject@,
            },
            RevocationTarget::WitnessStanding { scope, witness } => RevocationTargetV::WitnessStanding {
                scope: scope@,
                witness: witness@,
            },
            RevocationTarget::TrustRootStanding { scope, root } => RevocationTargetV::TrustRootStanding {
                scope: scope@,
                root: root@,
            },
        }
    }
}

impl RevocationTarget {
    pub fn duplicate(&self) -> (r: Self)
        ensures
            r@ == self@,
    {
        match self {
            RevocationTarget::SubjectAcceptance { scope, subject } => RevocationTarget::SubjectAcceptance {
                scope: scope.duplicate(),
                subject: subject.duplicate(),
            },
            RevocationTarget::WitnessStanding { scope, witness } => RevocationTarget::WitnessStanding {
                scope: scope.duplicate(),
                witness: witness.duplicate(),
            },
            RevocationTarget::TrustRootStanding { scope, root } => RevocationTarget::TrustRootStanding {
                scope: scope.duplicate(),
                root: root.duplicate(),
            },
        }
    }
}

/// What backs a revocation: attributable records or a visible override.
#[derive(Debug, Clone, PartialEq, Eq)]
pub enum RevocationSupport {
    Witnessed(NonEmpty<WitnessRecordId>),
    Override(OverrideId),
}

pub enum RevocationSupportV {
    Witnessed(Seq<WitnessRecordId>),
    Override(OverrideId),
}

impl View for RevocationSupport {
    type V = RevocationSupportV;

    open spec fn view(&self) -> RevocationSupportV {
        match self {
            RevocationSupport::Witnessed(records) => RevocationSupportV::Witnessed(records@),
            RevocationSupport::Override(id) => RevocationSupportV::Override(*id),
        }
    }
}

impl RevocationSupport {
    pub fn duplicate(&self) -> (r: Self)
        ensures
            r@ == self@,
    {
        match self {
            RevocationSupport::Witnessed(records) => RevocationSupport::Witnessed(records.duplicate()),
            RevocationSupport::Override(id) => RevocationSupport::Override(*id),
        }
    }
}

/// Revocation is a visible transition event, not a durable state.
#[derive(Debug, Clone, PartialEq, Eq)]
pub struct RevocationEvent {
    pub target: RevocationTarget,
    /// Must be one of suspected / disputed / quarantined / removed.
    pub outcome: BeliefState,
    pub supported_by: RevocationSupport,
    pub epoch: Epoch,
}

pub struct RevocationEventV {
    pub target: RevocationTargetV,
    pub outcome: BeliefState,
    pub supported_by: RevocationSupportV,
    pub epoch: Epoch,
}

impl View for RevocationEvent {
    type V = RevocationEventV;

    open spec fn view(&self) -> RevocationEventV {
        RevocationEventV {
            target: self.target@,
            outcome: self.outcome,
            supported_by: self.supported_by@,
            epoch: self.epoch,
        }
    }
}

impl RevocationEvent {
    pub fn duplicate(&self) -> (r: Self)
        ensures
            r@ == self@,
    {
        RevocationEvent {
            target: self.target.duplicate(),
            outcome: self.outcome,
            supported_by: self.supported_by.duplicate(),
            epoch: self.epoch,
        }
    }
}

/// Events that move scoped belief. Every variant carries the evidence that
/// justifies it: transitions cannot happen without evidence.
#[derive(Debug, Clone, PartialEq, Eq)]
pub enum BeliefEvent {
    /// A claim was admitted into scope. Introduction is not acceptance.
    Introduced { claim: ClaimId, provenance: Provenance },
    /// A witness record arrived. Only moves introduced -> witnessed; in
    /// later states the record is absorbed as evidence.
    WitnessRecorded { record: WitnessRecordId, stance: Stance },
    /// Scoped corroboration got strong enough to strengthen belief one step.
    CorroborationReached { records: NonEmpty<WitnessRecordId>, confidence: Confidence },
    /// Confidence narrowed without active conflict.
    ConfidenceNarrowed { reason: NarrowReason },
    /// Previously stronger belief degraded.
    SuspicionRaised { basis: SuspicionBasis },
    /// Fresh admissible evidence is in active conflict.
    ConflictDetected { opposing: NonEmpty<WitnessRecordId> },
    /// Revocation: an event, never a state.
    Revoked(RevocationEvent),
    QuarantineImposed { reason: QuarantineReason },
    /// Release requires fresh corroboration by construction.
    QuarantineReleased { fresh: NonEmpty<WitnessRecordId> },
    RemovalDecided { basis: RemovalBasis },
    /// removed -> introduced with a new claim.
    Reintroduced { claim: ClaimId },
    /// removed -> unknown, only in a strictly newer epoch.
    EpochReset { new_epoch: Epoch },
    /// A merge outcome projected onto this cell.
    MergeProjected { input_digest: [u8; 32], to: BeliefState },
    /// An operator override: it can force any state, and the transition
    /// permanently cites the override id.
    OverrideApplied { override_id: OverrideId, to: BeliefState },
}

pub enum BeliefEventV {
    Introduced { claim: ClaimId, provenance: Seq<char> },
    WitnessRecorded { record: WitnessRecordId, stance: Stance },
    CorroborationReached { records: Seq<WitnessRecordId>, confidence: Confidence },
    ConfidenceNarrowed { reason: NarrowReason },
    SuspicionRaised { basis: SuspicionBasis },
    ConflictDetected { opposing: Seq<WitnessRecordId> },
    Revoked(RevocationEventV),
    QuarantineImposed { reason: QuarantineReason },
    QuarantineReleased { fresh: Seq<WitnessRecordId> },
    RemovalDecided { basis: RemovalBasis },
    Reintroduced { claim: ClaimId },
    EpochReset { new_epoch: Epoch },
    MergeProjected { input_digest: Seq<u8>, to: BeliefState },
    OverrideApplied { override_id: OverrideId, to: BeliefState },
}

impl View for BeliefEvent {
    type V = BeliefEventV;

    open spec fn view(&self) -> BeliefEventV {
        match self {
            BeliefEvent::Introduced { claim, provenance } => BeliefEventV::Introduced {
                claim: *claim,
                provenance: provenance@,
            },
            BeliefEvent::WitnessRecorded { record, stance } => BeliefEventV::WitnessRecorded {
                record: *record,
                stance: *stance,
            },
            BeliefEvent::CorroborationReached { records, confidence } => BeliefEventV::CorroborationReached {
                records: records@,
                confidence: *confidence,
            },
            BeliefEvent::ConfidenceNarrowed { reason } => BeliefEventV::ConfidenceNarrowed {
                reason: *reason,
            },
            BeliefEvent::SuspicionRaised { basis } => BeliefEventV::SuspicionRaised { basis: *basis },
            BeliefEvent::ConflictDetected { opposing } => BeliefEventV::ConflictDetected {
                opposing: opposing@,
            },
            BeliefEvent::Revoked(rev) => BeliefEventV::Revoked(rev@),
            BeliefEvent::QuarantineImposed { reason } => BeliefEventV::QuarantineImposed {
                reason: *reason,
            },
            BeliefEvent::QuarantineReleased { fresh } => BeliefEventV::QuarantineReleased {
                fresh: fresh@,
            },
            BeliefEvent::RemovalDecided { basis } => BeliefEventV::RemovalDecided { basis: *basis },
            BeliefEvent::Reintroduced { claim } => BeliefEventV::Reintroduced { claim: *claim },
            BeliefEvent::EpochReset { new_epoch } => BeliefEventV::EpochReset {
                new_epoch: *new_epoch,
            },
            BeliefEvent::MergeProjected { input_digest, to } => BeliefEventV::MergeProjected {
                input_digest: input_digest@,
                to: *to,
            },
            BeliefEvent::OverrideApplied { override_id, to } => BeliefEventV::OverrideApplied {
                override_id: *override_id,
                to: *to,
            },
        }
    }
}

/// Discriminant of `BeliefEvent`, used in tables and errors.
#[derive(Debug, Clone, Copy, PartialEq, Eq, Structural, PartialOrd, Ord, Hash)]
pub enum EventKind {
    Introduced,
    WitnessRecorded,
    CorroborationReached,
    ConfidenceNarrowed,
    SuspicionRaised,
    ConflictDetected,
    Revoked,
    QuarantineImposed,
    QuarantineReleased,
    RemovalDecided,
    Reintroduced,
    EpochReset,
    MergeProjected,
    OverrideApplied,
}

pub open spec fn event_kind(e: BeliefEventV) -> EventKind {
    match e {
        BeliefEventV::Introduced { .. } => EventKind::Introduced,
        BeliefEventV::WitnessRecorded { .. } => EventKind::WitnessRecorded,
        BeliefEventV::CorroborationReached { .. } => EventKind::CorroborationReached,
        BeliefEventV::ConfidenceNarrowed { .. } => EventKind::ConfidenceNarrowed,
        BeliefEventV::SuspicionRaised { .. } => EventKind::SuspicionRaised,
        BeliefEventV::ConflictDetected { .. } => EventKind::ConflictDetected,
        BeliefEventV::Revoked(_) => EventKind::Revoked,
        BeliefEventV::QuarantineImposed { .. } => EventKind::QuarantineImposed,
        BeliefEventV::QuarantineReleased { .. } => EventKind::QuarantineReleased,
        BeliefEventV::RemovalDecided { .. } => EventKind::RemovalDecided,
        BeliefEventV::Reintroduced { .. } => EventKind::Reintroduced,
        BeliefEventV::EpochReset { .. } => EventKind::EpochReset,
        BeliefEventV::MergeProjected { .. } => EventKind::MergeProjected,
        BeliefEventV::OverrideApplied { .. } => EventKind::OverrideApplied,
    }
}

impl BeliefEvent {
    pub fn kind(&self) -> (k: EventKind)
        ensures
            k == event_kind(self@),
    {
        match self {
            BeliefEvent::Introduced { .. } => EventKind::Introduced,
            BeliefEvent::WitnessRecorded { .. } => EventKind::WitnessRecorded,
            BeliefEvent::CorroborationReached { .. } => EventKind::CorroborationReached,
            BeliefEvent::ConfidenceNarrowed { .. } => EventKind::ConfidenceNarrowed,
            BeliefEvent::SuspicionRaised { .. } => EventKind::SuspicionRaised,
            BeliefEvent::ConflictDetected { .. } => EventKind::ConflictDetected,
            BeliefEvent::Revoked(_) => EventKind::Revoked,
            BeliefEvent::QuarantineImposed { .. } => EventKind::QuarantineImposed,
            BeliefEvent::QuarantineReleased { .. } => EventKind::QuarantineReleased,
            BeliefEvent::RemovalDecided { .. } => EventKind::RemovalDecided,
            BeliefEvent::Reintroduced { .. } => EventKind::Reintroduced,
            BeliefEvent::EpochReset { .. } => EventKind::EpochReset,
            BeliefEvent::MergeProjected { .. } => EventKind::MergeProjected,
            BeliefEvent::OverrideApplied { .. } => EventKind::OverrideApplied,
        }
    }

    pub fn duplicate(&self) -> (r: Self)
        ensures
            r@ == self@,
    {
        match self {
            BeliefEvent::Introduced { claim, provenance } => BeliefEvent::Introduced {
                claim: *claim,
                provenance: provenance.duplicate(),
            },
            BeliefEvent::WitnessRecorded { record, stance } => BeliefEvent::WitnessRecorded {
                record: *record,
                stance: *stance,
            },
            BeliefEvent::CorroborationReached { records, confidence } => BeliefEvent::CorroborationReached {
                records: records.duplicate(),
                confidence: *confidence,
            },
            BeliefEvent::ConfidenceNarrowed { reason } => BeliefEvent::ConfidenceNarrowed {
                reason: *reason,
            },
            BeliefEvent::SuspicionRaised { basis } => BeliefEvent::SuspicionRaised { basis: *basis },
            BeliefEvent::ConflictDetected { opposing } => BeliefEvent::ConflictDetected {
                opposing: opposing.duplicate(),
            },
            BeliefEvent::Revoked(rev) => BeliefEvent::Revoked(rev.duplicate()),
            BeliefEvent::QuarantineImposed { reason } => BeliefEvent::QuarantineImposed {
                reason: *reason,
            },
            BeliefEvent::QuarantineReleased { fresh } => BeliefEvent::QuarantineReleased {
                fresh: fresh.duplicate(),
            },
            BeliefEvent::RemovalDecided { basis } => BeliefEvent::RemovalDecided { basis: *basis },
            BeliefEvent::Reintroduced { claim } => BeliefEvent::Reintroduced { claim: *claim },
            BeliefEvent::EpochReset { new_epoch } => BeliefEvent::EpochReset {
                new_epoch: *new_epoch,
            },
            BeliefEvent::MergeProjected { input_digest, to } => BeliefEvent::MergeProjected {
                input_digest: *input_digest,
                to: *to,
            },
            BeliefEvent::OverrideApplied { override_id, to } => BeliefEvent::OverrideApplied {
                override_id: *override_id,
                to: *to,
            },
        }
    }
}

/// The canonical table, organic edges only, as a function: where `kind`
/// takes `from`, or `None` when the table has no such row.
pub open spec fn table_step(from: BeliefState, kind: EventKind) -> Option<BeliefState> {
    match (from, kind) {
        (BeliefState::Unknown, EventKind::Introduced) => Some(BeliefState::Introduced),
        (BeliefState::Introduced, EventKind::WitnessRecorded) => Some(BeliefState::Witnessed),
        (BeliefState::Introduced, EventKind::QuarantineImposed) => Some(BeliefState::Quarantined),
        (BeliefState::Introduced, EventKind::RemovalDecided) => Some(BeliefState::Removed),
        (BeliefState::Witnessed, EventKind::CorroborationReached) => Some(BeliefState::Provisional),
        (BeliefState::Witnessed, EventKind::SuspicionRaised) => Some(BeliefState::Suspected),
        (BeliefState::Witnessed, EventKind::ConflictDetected) => Some(BeliefState::Disputed),
        (BeliefState::Witnessed, EventKind::QuarantineImposed) => Some(BeliefState::Quarantined),
        (BeliefState::Provisional, EventKind::CorroborationReached) => Some(BeliefState::Accepted),
        (BeliefState::Provisional, EventKind::ConfidenceNarrowed) => Some(BeliefState::Witnessed),
        (BeliefState::Provisional, EventKind::SuspicionRaised) => Some(BeliefState::Suspected),
        (BeliefState::Provisional, EventKind::ConflictDetected) => Some(BeliefState::Disputed),
        (BeliefState::Provisional, EventKind::QuarantineImposed) => Some(BeliefState::Quarantined),
        (BeliefState::Provisional, EventKind::RemovalDecided) => Some(BeliefState::Removed),
        (BeliefState::Accepted, EventKind::ConfidenceNarrowed) => Some(BeliefState::Provisional),
        (BeliefState::Accepted, EventKind::SuspicionRaised) => Some(BeliefState::Suspected),
        (BeliefState::Accepted, EventKind::ConflictDetected) => Some(BeliefState::Disputed),
        (BeliefState::Accepted, EventKind::QuarantineImposed) => Some(BeliefState::Quarantined),
        (BeliefState::Accepted, EventKind::RemovalDecided) => Some(BeliefState::Removed),
        (BeliefState::Suspected, EventKind::CorroborationReached) => Some(BeliefState::Provisional),
        (BeliefState::Suspected, EventKind::ConfidenceNarrowed) => Some(BeliefState::Witnessed),
        (BeliefState::Suspected, EventKind::ConflictDetected) => Some(BeliefState::Disputed),
        (BeliefState::Suspected, EventKind::QuarantineImposed) => Some(BeliefState::Quarantined),
        (BeliefState::Suspected, EventKind::RemovalDecided) => Some(BeliefState::Removed),
        (BeliefState::Disputed, EventKind::CorroborationReached) => Some(BeliefState::Provisional),
        (BeliefState::Disputed, EventKind::QuarantineImposed) => Some(BeliefState::Quarantined),
        (BeliefState::Disputed, EventKind::RemovalDecided) => Some(BeliefState::Removed),
        (BeliefState::Quarantined, EventKind::QuarantineReleased) => Some(BeliefState::Provisional),
        (BeliefState::Quarantined, EventKind::RemovalDecided) => Some(BeliefState::Removed),
        (BeliefState::Removed, EventKind::Reintroduced) => Some(BeliefState::Introduced),
        (BeliefState::Removed, EventKind::EpochReset) => Some(BeliefState::Unknown),
        _ => None,
    }
}

/// The canonical table as rows (from, event, to).
pub open spec fn spec_transition_table() -> Seq<(BeliefState, EventKind, BeliefState)> {
    seq![
        (BeliefState::Unknown, EventKind::Introduced, BeliefState::Introduced),
        (BeliefState::Introduced, EventKind::WitnessRecorded, BeliefState::Witnessed),
        (BeliefState::Introduced, EventKind::QuarantineImposed, BeliefState::Quarantined),
        (BeliefState::Introduced, EventKind::RemovalDecided, BeliefState::Removed),
        (BeliefState::Witnessed, EventKind::CorroborationReached, BeliefState::Provisional),
        (BeliefState::Witnessed, EventKind::SuspicionRaised, BeliefState::Suspected),
        (BeliefState::Witnessed, EventKind::ConflictDetected, BeliefState::Disputed),
        (BeliefState::Witnessed, EventKind::QuarantineImposed, BeliefState::Quarantined),
        (BeliefState::Provisional, EventKind::CorroborationReached, BeliefState::Accepted),
        (BeliefState::Provisional, EventKind::ConfidenceNarrowed, BeliefState::Witnessed),
        (BeliefState::Provisional, EventKind::SuspicionRaised, BeliefState::Suspected),
        (BeliefState::Provisional, EventKind::ConflictDetected, BeliefState::Disputed),
        (BeliefState::Provisional, EventKind::QuarantineImposed, BeliefState::Quarantined),
        (BeliefState::Provisional, EventKind::RemovalDecided, BeliefState::Removed),
        (BeliefState::Accepted, EventKind::ConfidenceNarrowed, BeliefState::Provisional),
        (BeliefState::Accepted, EventKind::SuspicionRaised, BeliefState::Suspected),
        (BeliefState::Accepted, EventKind::ConflictDetected, BeliefState::Disputed),
        (BeliefState::Accepted, EventKind::QuarantineImposed, BeliefState::Quarantined),
        (BeliefState::Accepted, EventKind::RemovalDecided, BeliefState::Removed),
        (BeliefState::Suspected, EventKind::CorroborationReached, BeliefState::Provisional),
        (BeliefState::Suspected, EventKind::ConfidenceNarrowed, BeliefState::Witnessed),
        (BeliefState::Suspected, EventKind::ConflictDetected, BeliefState::Disputed),
        (BeliefState::Suspected, EventKind::QuarantineImposed, BeliefState::Quarantined),
        (BeliefState::Suspected, EventKind::RemovalDecided, BeliefState::Removed),
        (BeliefState::Disputed, EventKind::CorroborationReached, BeliefState::Provisional),
        (BeliefState::Disputed, EventKind::QuarantineImposed, BeliefState::Quarantined),
        (BeliefState::Disputed, EventKind::RemovalDecided, BeliefState::Removed),
        (BeliefState::Quarantined, EventKind::QuarantineReleased, BeliefState::Provisional),
        (BeliefState::Quarantined, EventKind::RemovalDecided, BeliefState::Removed),
        (BeliefState::Removed, EventKind::Reintroduced, BeliefState::Introduced),
        (BeliefState::Removed, EventKind::EpochReset, BeliefState::Unknown)
    ]
}

/// The canonical table, row by row. `Revoked`, `MergeProjected`, and
/// `OverrideApplied` carry their target in the event and are validated
/// separately in `transition`.
pub fn transition_table() -> (t: Vec<(BeliefState, EventKind, BeliefState)>)
    ensures
        t@ == spec_transition_table(),
{
    let mut t: Vec<(BeliefState, EventKind, BeliefState)> = Vec::new();
    t.push((BeliefState::Unknown, EventKind::Introduced, BeliefState::Introduced));
    t.push((BeliefState::Introduced, EventKind::WitnessRecorded, BeliefState::Witnessed));
    t.push((BeliefState::Introduced, EventKind::QuarantineImposed, BeliefState::Quarantined));
    t.push((BeliefState::Introduced, EventKind::RemovalDecided, BeliefState::Removed));
    t.push((BeliefState::Witnessed, EventKind::CorroborationReached, BeliefState::Provisional));
    t.push((BeliefState::Witnessed, EventKind::SuspicionRaised, BeliefState::Suspected));
    t.push((BeliefState::Witnessed, EventKind::ConflictDetected, BeliefState::Disputed));
    t.push((BeliefState::Witnessed, EventKind::QuarantineImposed, BeliefState::Quarantined));
    t.push((BeliefState::Provisional, EventKind::CorroborationReached, BeliefState::Accepted));
    t.push((BeliefState::Provisional, EventKind::ConfidenceNarrowed, BeliefState::Witnessed));
    t.push((BeliefState::Provisional, EventKind::SuspicionRaised, BeliefState::Suspected));
    t.push((BeliefState::Provisional, EventKind::ConflictDetected, BeliefState::Disputed));
    t.push((BeliefState::Provisional, EventKind::QuarantineImposed, BeliefState::Quarantined));
    t.push((BeliefState::Provisional, EventKind::RemovalDecided, BeliefState::Removed));
    t.push((BeliefState::Accepted, EventKind::ConfidenceNarrowed, BeliefState::Provisional));
    t.push((BeliefState::Accepted, EventKind::SuspicionRaised, BeliefState::Suspected));
    t.push((BeliefState::Accepted, EventKind::ConflictDetected, BeliefState::Disputed));
    t.push((BeliefState::Accepted, EventKind::QuarantineImposed, BeliefState::Quarantined));
    t.push((BeliefState::Accepted, EventKind::RemovalDecided, BeliefState::Removed));
    t.push((BeliefState::Suspected, EventKind::CorroborationReached, BeliefState::Provisional));
    t.push((BeliefState::Suspected, EventKind::ConfidenceNarrowed, BeliefState::Witnessed));
    t.push((BeliefState::Suspected, EventKind::ConflictDetected, BeliefState::Disputed));
    t.push((BeliefState::Suspected, EventKind::QuarantineImposed, BeliefState::Quarantined));
    t.push((BeliefState::Suspected, EventKind::RemovalDecided, BeliefState::Removed));
    t.push((BeliefState::Disputed, EventKind::CorroborationReached, BeliefState::Provisional));
    t.push((BeliefState::Disputed, EventKind::QuarantineImposed, BeliefState::Quarantined));
    t.push((BeliefState::Disputed, EventKind::RemovalDecided, BeliefState::Removed));
    t.push((BeliefState::Quarantined, EventKind::QuarantineReleased, BeliefState::Provisional));
    t.push((BeliefState::Quarantined, EventKind::RemovalDecided, BeliefState::Removed));
    t.push((BeliefState::Removed, EventKind::Reintroduced, BeliefState::Introduced));
    t.push((BeliefState::Removed, EventKind::EpochReset, BeliefState::Unknown));
    assert(t@ =~= spec_transition_table());
    t
}

fn table_lookup(from: BeliefState, kind: EventKind) -> (r: Option<BeliefState>)
    ensures
        r == table_step(from, kind),
{
    match (from, kind) {
        (BeliefState::Unknown, EventKind::Introduced) => Some(BeliefState::Introduced),
        (BeliefState::Introduced, EventKind::WitnessRecorded) => Some(BeliefState::Witnessed),
        (BeliefState::Introduced, EventKind::QuarantineImposed) => Some(BeliefState::Quarantined),
        (BeliefState::Introduced, EventKind::RemovalDecided) => Some(BeliefState::Removed),
        (BeliefState::Witnessed, EventKind::CorroborationReached) => Some(BeliefState::Provisional),
        (BeliefState::Witnessed, EventKind::SuspicionRaised) => Some(BeliefState::Suspected),
        (BeliefState::Witnessed, EventKind::ConflictDetected) => Some(BeliefState::Disputed),
        (BeliefState::Witnessed, EventKind::QuarantineImposed) => Some(BeliefState::Quarantined),
        (BeliefState::Provisional, EventKind::CorroborationReached) => Some(BeliefState::Accepted),
        (BeliefState::Provisional, EventKind::ConfidenceNarrowed) => Some(BeliefState::Witnessed),
        (BeliefState::Provisional, EventKind::SuspicionRaised) => Some(BeliefState::Suspected),
        (BeliefState::Provisional, EventKind::ConflictDetected) => Some(BeliefState::Disputed),
        (BeliefState::Provisional, EventKind::QuarantineImposed) => Some(BeliefState::Quarantined),
        (BeliefState::Provisional, EventKind::RemovalDecided) => Some(BeliefState::Removed),
        (BeliefState::Accepted, EventKind::ConfidenceNarrowed) => Some(BeliefState::Provisional),
        (BeliefState::Accepted, EventKind::SuspicionRaised) => Some(BeliefState::Suspected),
        (BeliefState::Accepted, EventKind::ConflictDetected) => Some(BeliefState::Disputed),
        (BeliefState::Accepted, EventKind::QuarantineImposed) => Some(BeliefState::Quarantined),
        (BeliefState::Accepted, EventKind::RemovalDecided) => Some(BeliefState::Removed),
        (BeliefState::Suspected, EventKind::CorroborationReached) => Some(BeliefState::Provisional),
        (BeliefState::Suspected, EventKind::ConfidenceNarrowed) => Some(BeliefState::Witnessed),
        (BeliefState::Suspected, EventKind::ConflictDetected) => Some(BeliefState::Disputed),
        (BeliefState::Suspected, EventKind::QuarantineImposed) => Some(BeliefState::Quarantined),
        (BeliefState::Suspected, EventKind::RemovalDecided) => Some(BeliefState::Removed),
        (BeliefState::Disputed, EventKind::CorroborationReached) => Some(BeliefState::Provisional),
        (BeliefState::Disputed, EventKind::QuarantineImposed) => Some(BeliefState::Quarantined),
        (BeliefState::Disputed, EventKind::RemovalDecided) => Some(BeliefState::Removed),
        (BeliefState::Quarantined, EventKind::QuarantineReleased) => Some(BeliefState::Provisional),
        (BeliefState::Quarantined, EventKind::RemovalDecided) => Some(BeliefState::Removed),
        (BeliefState::Removed, EventKind::Reintroduced) => Some(BeliefState::Introduced),
        (BeliefState::Removed, EventKind::EpochReset) => Some(BeliefState::Unknown),
        _ => None,
    }
}

/// A refused transition: the state and the event kind it did not accept.
#[derive(Debug, Clone, Copy, PartialEq, Eq, Structural)]
pub struct InvalidTransition {
    pub from: BeliefState,
    pub event: EventKind,
}

pub open spec fn is_degraded(s: BeliefState) -> bool {
    s == BeliefState::Suspected || s == BeliefState::Disputed || s == BeliefState::Quarantined
        || s == BeliefState::Removed
}

/// Whether revocation may drive `from` to `outcome`: only toward the four
/// degraded states, and only along edges the table already permits.
pub open spec fn revocation_allowed(from: BeliefState, outcome: BeliefState) -> bool {
    is_degraded(outcome) && match from {
        BeliefState::Provisional | BeliefState::Accepted => true,
        BeliefState::Suspected => outcome != BeliefState::Suspected,
        BeliefState::Disputed => outcome == BeliefState::Quarantined || outcome
            == BeliefState::Removed,
        BeliefState::Quarantined => outcome == BeliefState::Removed,
        _ => false,
    }
}

/// Whether a merge may project `to` onto a cell in `from`: no resurrection
/// (to unknown except from removed) and no re-introduction over live belief.
pub open spec fn projection_allowed(from: BeliefState, to: BeliefState) -> bool {
    let resurrects = to == BeliefState::Unknown && from != BeliefState::Removed;
    let reintroduces = to == BeliefState::Introduced && !(from == BeliefState::Unknown || from
        == BeliefState::Removed);
    !resurrects && !reintroduces
}

/// The target state for an event, or refusal.
pub open spec fn spec_transition(from: BeliefState, event: BeliefEventV) -> Result<BeliefState, InvalidTransition> {
    let refuse = InvalidTransition { from, event: event_kind(event) };
    match event {
        BeliefEventV::Revoked(rev) => if revocation_allowed(from, rev.outcome) {
            Ok(rev.outcome)
        } else {
            Err(refuse)
        },
        BeliefEventV::MergeProjected { to, .. } => if projection_allowed(from, to) {
            Ok(to)
        } else {
            Err(refuse)
        },
        BeliefEventV::OverrideApplied { to, .. } => Ok(to),
        _ => match table_step(from, event_kind(event)) {
            Some(to) => Ok(to),
            None => Err(refuse),
        },
    }
}

/// Compute the target state for an event, or refuse.
///
/// Organic events follow the canonical table exactly. `Revoked` may only
/// drive toward a degraded state along permitted edges; `MergeProjected`
/// may not resurrect or re-introduce; `OverrideApplied` may force any
/// state, paid for with permanent visibility.
pub fn transition(from: BeliefState, event: &BeliefEvent) -> (r: Result<BeliefState, InvalidTransition>)
    ensures
        r == spec_transition(from, event@),
{
    let refuse = InvalidTransition { from, event: event.kind() };
    match event {
        BeliefEvent::Revoked(rev) => {
            let outcome = rev.outcome;
            let degraded = match outcome {
                BeliefState::Suspected | BeliefState::Disputed | BeliefState::Quarantined
                | BeliefState::Removed => true,
                _ => false,
            };
            let along_edge = match from {
                BeliefState::Provisional | BeliefState::Accepted => true,
                BeliefState::Suspected => outcome != BeliefState::Suspected,
                BeliefState::Disputed => outcome == BeliefState::Quarantined || outcome
                    == BeliefState::Removed,
                BeliefState::Quarantined => outcome == BeliefState::Removed,
                _ => false,
            };
            if degraded && along_edge {
                Ok(outcome)
            } else {
                Err(refuse)
            }
        },
        BeliefEvent::MergeProjected { to, .. } => {
            let resurrects = *to == BeliefState::Unknown && from != BeliefState::Removed;
            let reintroduces = *to == BeliefState::Introduced && !(from == BeliefState::Unknown
                || from == BeliefState::Removed);
            if resurrects || reintroduces {
                Err(refuse)
            } else {
                Ok(*to)
            }
        },
        BeliefEvent::OverrideApplied { to, .. } => Ok(*to),
        _ => match table_lookup(from, event.kind()) {
            Some(to) => Ok(to),
            None => Err(refuse),
        },
    }
}

/// Revocation never strengthens, never resets, and never moves sideways:
/// every successful revocation lands in a degraded state.
pub proof fn lemma_revocation_only_degrades(from: BeliefState, rev: RevocationEventV)
    ensures
        spec_transition(from, BeliefEventV::Revoked(rev)) matches Ok(to) ==> is_degraded(to)
            && to == rev.outcome,
{
}

/// A merge projection can never resurrect a live subject into `unknown`
/// nor re-introduce it.
pub proof fn lemma_projection_cannot_resurrect(from: BeliefState, digest: Seq<u8>, to: BeliefState)
    requires
        from != BeliefState::Unknown,
        from != BeliefState::Removed,
    ensures
        spec_transition(from, BeliefEventV::MergeProjected { input_digest: digest, to })
            matches Ok(t) ==> t != BeliefState::Unknown && t != BeliefState::Introduced,
{
}

/// No organic event takes `witnessed` straight to `removed`.
pub proof fn lemma_no_witnessed_to_removed(kind: EventKind)
    ensures
        table_step(BeliefState::Witnessed, kind) != Some(BeliefState::Removed),
{
}

} // verus!
