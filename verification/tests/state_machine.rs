//! The canonical belief lifecycle, tested row by row against the
//! transition table plus the kernel's pinned edges.

use resonant::belief::{
    transition, transition_table, BeliefCell, BeliefEvent, BeliefState, EventKind, NarrowReason,
    QuarantineReason, RemovalBasis, RevocationEvent, RevocationSupport, RevocationTarget,
    SuspicionBasis, TransitionError,
};
use resonant::epoch::{Epoch, Round};
use resonant::evidence::{Provenance, Stance};
use resonant::id::{ClaimId, OverrideId, PeerId, SubjectId, WitnessRecordId};
use resonant::policy::PolicyBundle;
use resonant::scope::ScopeId;
use resonant::trust::Confidence;
use resonant::util::NonEmpty;

fn rec(n: u8) -> WitnessRecordId {
    WitnessRecordId::from_bytes([n; 32])
}

fn sample_event(kind: EventKind) -> BeliefEvent {
    match kind {
        EventKind::Introduced => BeliefEvent::Introduced {
            claim: ClaimId::from_bytes([1; 32]),
            provenance: Provenance {
                introducer: PeerId::new("intro"),
            },
        },
        EventKind::WitnessRecorded => BeliefEvent::WitnessRecorded {
            record: rec(2),
            stance: Stance::Corroborate,
        },
        EventKind::CorroborationReached => BeliefEvent::CorroborationReached {
            records: NonEmpty::new(rec(3)),
            confidence: Confidence::Bounded,
        },
        EventKind::ConfidenceNarrowed => BeliefEvent::ConfidenceNarrowed {
            reason: NarrowReason::FreshnessLoss,
        },
        EventKind::SuspicionRaised => BeliefEvent::SuspicionRaised {
            basis: SuspicionBasis::FailedCorroboration,
        },
        EventKind::ConflictDetected => BeliefEvent::ConflictDetected {
            opposing: NonEmpty::new(rec(4)),
        },
        EventKind::Revoked => BeliefEvent::Revoked(RevocationEvent {
            target: RevocationTarget::SubjectAcceptance {
                scope: ScopeId::new("s"),
                subject: SubjectId::new("x"),
            },
            outcome: BeliefState::Removed,
            supported_by: RevocationSupport::Witnessed(NonEmpty::new(rec(5))),
            epoch: Epoch(1),
        }),
        EventKind::QuarantineImposed => BeliefEvent::QuarantineImposed {
            reason: QuarantineReason::ConflictPressure,
        },
        EventKind::QuarantineReleased => BeliefEvent::QuarantineReleased {
            fresh: NonEmpty::new(rec(6)),
        },
        EventKind::RemovalDecided => BeliefEvent::RemovalDecided {
            basis: RemovalBasis::Departure,
        },
        EventKind::Reintroduced => BeliefEvent::Reintroduced {
            claim: ClaimId::from_bytes([7; 32]),
        },
        EventKind::EpochReset => BeliefEvent::EpochReset {
            new_epoch: Epoch(99),
        },
        EventKind::MergeProjected => BeliefEvent::MergeProjected {
            input_digest: [8; 32],
            to: BeliefState::Provisional,
        },
        EventKind::OverrideApplied => BeliefEvent::OverrideApplied {
            override_id: OverrideId::from_bytes([9; 32]),
            to: BeliefState::Quarantined,
        },
    }
}

const ORGANIC: [EventKind; 12] = [
    EventKind::Introduced,
    EventKind::WitnessRecorded,
    EventKind::CorroborationReached,
    EventKind::ConfidenceNarrowed,
    EventKind::SuspicionRaised,
    EventKind::ConflictDetected,
    EventKind::QuarantineImposed,
    EventKind::QuarantineReleased,
    EventKind::RemovalDecided,
    EventKind::Reintroduced,
    EventKind::EpochReset,
    EventKind::Revoked,
];

#[test]
fn transition_function_matches_table_exhaustively() {
    let table = transition_table();
    for from in BeliefState::all() {
        for kind in ORGANIC {
            if kind == EventKind::Revoked {
                continue;
            }
            let expected = table
                .iter()
                .find(|(f, k, _)| *f == from && *k == kind)
                .map(|(_, _, to)| *to);
            let got = transition(from, &sample_event(kind)).ok();
            assert_eq!(got, expected, "({from:?}, {kind:?})");
        }
    }
}

#[test]
fn revocation_is_an_event_not_a_state() {
    // The nine canonical states are exactly the nine.
    assert_eq!(BeliefState::all().len(), 9);

    let revoke_to = |outcome: BeliefState| {
        BeliefEvent::Revoked(RevocationEvent {
            target: RevocationTarget::SubjectAcceptance {
                scope: ScopeId::new("s"),
                subject: SubjectId::new("x"),
            },
            outcome,
            supported_by: RevocationSupport::Override(OverrideId::from_bytes([1; 32])),
            epoch: Epoch(4),
        })
    };

    // Revocation can never strengthen or reset.
    for target in [
        BeliefState::Accepted,
        BeliefState::Provisional,
        BeliefState::Unknown,
    ] {
        assert!(transition(BeliefState::Accepted, &revoke_to(target)).is_err());
    }
    // From accepted, all four degraded outcomes are reachable.
    for target in [
        BeliefState::Suspected,
        BeliefState::Disputed,
        BeliefState::Quarantined,
        BeliefState::Removed,
    ] {
        assert_eq!(
            transition(BeliefState::Accepted, &revoke_to(target)),
            Ok(target)
        );
    }
    // Degradation is monotone.
    assert_eq!(
        transition(BeliefState::Quarantined, &revoke_to(BeliefState::Removed)),
        Ok(BeliefState::Removed)
    );
    assert!(transition(BeliefState::Quarantined, &revoke_to(BeliefState::Suspected)).is_err());
    // Nothing weaker than provisional can be revoked.
    assert!(transition(BeliefState::Witnessed, &revoke_to(BeliefState::Removed)).is_err());
}

#[test]
fn merge_projection_limits() {
    let project = |to| BeliefEvent::MergeProjected {
        input_digest: [0; 32],
        to,
    };
    assert!(transition(BeliefState::Accepted, &project(BeliefState::Unknown)).is_err());
    assert!(transition(BeliefState::Accepted, &project(BeliefState::Introduced)).is_err());
    assert_eq!(
        transition(BeliefState::Unknown, &project(BeliefState::Introduced)),
        Ok(BeliefState::Introduced)
    );
    assert_eq!(
        transition(BeliefState::Removed, &project(BeliefState::Unknown)),
        Ok(BeliefState::Unknown)
    );
    assert_eq!(
        transition(BeliefState::Accepted, &project(BeliefState::Removed)),
        Ok(BeliefState::Removed)
    );
}

fn walk_to_provisional(cell: &mut BeliefCell, policy: &PolicyBundle) -> u64 {
    let mut round = 0u64;
    let fire = |cell: &mut BeliefCell, event: BeliefEvent, round: u64| {
        cell.apply(event, (Epoch(1), Round(round)), policy).unwrap();
    };
    fire(cell, sample_event(EventKind::Introduced), round);
    round += 1;
    fire(cell, sample_event(EventKind::WitnessRecorded), round);
    round += policy.strengthen_hysteresis_rounds;
    fire(cell, sample_event(EventKind::CorroborationReached), round);
    round
}

#[test]
fn hysteresis_is_asymmetric() {
    let policy = PolicyBundle::default();
    let mut cell = BeliefCell::new((Epoch(1), Round(0)));
    let round = walk_to_provisional(&mut cell, &policy);
    assert_eq!(cell.state(), BeliefState::Provisional);

    // Immediate re-strengthening is refused, visibly.
    let too_soon = cell.apply(
        sample_event(EventKind::CorroborationReached),
        (Epoch(1), Round(round)),
        &policy,
    );
    assert!(matches!(
        too_soon,
        Err(TransitionError::HysteresisHold { .. })
    ));

    // Immediate weakening is allowed.
    let weaken = cell.apply(
        sample_event(EventKind::SuspicionRaised),
        (Epoch(1), Round(round)),
        &policy,
    );
    assert_eq!(weaken.unwrap().unwrap().to, BeliefState::Suspected);
}

#[test]
fn epoch_reset_is_gated() {
    let policy = PolicyBundle::default();
    let mut cell = BeliefCell::new((Epoch(5), Round(0)));
    cell.apply(
        sample_event(EventKind::Introduced),
        (Epoch(5), Round(0)),
        &policy,
    )
    .unwrap();
    cell.apply(
        sample_event(EventKind::RemovalDecided),
        (Epoch(5), Round(1)),
        &policy,
    )
    .unwrap();
    assert_eq!(cell.state(), BeliefState::Removed);

    let stale = cell.apply(
        BeliefEvent::EpochReset {
            new_epoch: Epoch(5),
        },
        (Epoch(5), Round(2)),
        &policy,
    );
    assert!(matches!(stale, Err(TransitionError::EpochNotNewer { .. })));

    let fresh = cell.apply(
        BeliefEvent::EpochReset {
            new_epoch: Epoch(6),
        },
        (Epoch(6), Round(3)),
        &policy,
    );
    assert_eq!(fresh.unwrap().unwrap().to, BeliefState::Unknown);
    assert!(
        cell.supporting().is_empty(),
        "reset clears evidence from the prior life"
    );
}

#[test]
fn evidence_absorbs_and_history_records() {
    let policy = PolicyBundle::default();
    let mut cell = BeliefCell::new((Epoch(1), Round(0)));
    walk_to_provisional(&mut cell, &policy);

    let absorbed = cell
        .apply(
            BeliefEvent::WitnessRecorded {
                record: rec(42),
                stance: Stance::Dispute,
            },
            (Epoch(1), Round(9)),
            &policy,
        )
        .unwrap();
    assert!(
        absorbed.is_none(),
        "extra record is evidence, not a transition"
    );
    assert!(cell.opposing().contains(&rec(42)));
    assert_eq!(cell.state(), BeliefState::Provisional);
    // unknown -> introduced -> witnessed -> provisional
    assert_eq!(cell.history().len(), 3);
}
