//! The sans-IO driver, the transcript chain, replay verification, the
//! digest contract, and the trust-root standing machine.

use resonant::belief::{BeliefEvent, BeliefState, MembershipView};
use resonant::digest::{compare, DigestVerdict, RepairDigest};
use resonant::epoch::{Epoch, Round};
use resonant::evidence::{
    AssertedState, Claim, Observation, ObservationMode, Provenance, Stance, WitnessRecord,
};
use resonant::id::{OperatorId, PeerId, SubjectId, TrustRootId, WitnessId};
use resonant::operator::OperatorOverride;
use resonant::kernel::{verify_replay, Effect, Input, Kernel};
use resonant::policy::PolicyBundle;
use resonant::rank::{ExclusionReason, RankDomain};
use resonant::scope::ScopeId;
use resonant::transcript::{Transcript, TranscriptEvent, TranscriptSink};
use resonant::trust::{
    Confidence, RevocationSupport, RootBasis, RootEvent, RootEventKind, RootState, TrustGrade,
    TrustRootStanding,
};
use resonant::collections::SortedMap;
use resonant::evidence::{Diversity, Quality, WitnessSummary};
use resonant::merge::engine::MergeSide;
use resonant::merge::BeliefFragment;
use resonant::scope::ScopeAuthority;
use resonant::util::NonEmpty;

fn scope() -> ScopeId {
    ScopeId::new("rack-7")
}

fn subject() -> SubjectId {
    SubjectId::new("iona")
}

fn claim() -> Claim {
    Claim {
        subject: subject(),
        asserted: AssertedState::Present,
        scope: scope(),
        provenance: Provenance {
            introducer: PeerId::new("gateway"),
        },
        epoch: Epoch(1),
        evidence: vec![],
    }
}

fn witness_record(witness: &str, stance: Stance) -> WitnessRecord {
    let observation = Observation {
        observer: WitnessId::new(witness),
        subject: subject(),
        mode: ObservationMode::DirectContact,
        epoch: Epoch(1),
    };
    WitnessRecord {
        witness: WitnessId::new(witness),
        subject: subject(),
        about: None,
        stance,
        observation: observation.id(),
        mode: ObservationMode::DirectContact,
        scope: scope(),
        epoch: Epoch(1),
        trust_context: TrustGrade::new(70),
    }
}

#[test]
fn lifecycle_is_fully_transcripted_and_replayable() {
    let mut kernel = Kernel::new(PolicyBundle::default());
    let mut transcript = Transcript::new();
    let record = witness_record("w1", Stance::Corroborate);
    let record_id = record.id();

    let inputs = vec![
        Input::EpochAdvanced {
            scope: scope(),
            epoch: Epoch(1),
        },
        Input::Introduce(claim()),
        Input::WitnessRecordReceived(record),
        // Too soon: hysteresis holds (visible refusal, not silence).
        Input::CorroborationAssessed {
            scope: scope(),
            subject: subject(),
            records: NonEmpty::new(record_id),
            confidence: Confidence::Bounded,
        },
        Input::Tick,
        Input::Tick,
        Input::CorroborationAssessed {
            scope: scope(),
            subject: subject(),
            records: NonEmpty::new(record_id),
            confidence: Confidence::Bounded,
        },
    ];
    for input in &inputs {
        kernel.handle(input.clone(), &mut transcript);
    }

    let view = kernel.view(&scope()).unwrap();
    assert_eq!(
        view.belief(&subject()).unwrap().state(),
        BeliefState::Provisional
    );

    // The chain is intact and the story is queryable.
    transcript.verify_chain().unwrap();
    let story = transcript.explain(&scope(), &subject());
    assert!(story
        .iter()
        .any(|e| matches!(e.event, TranscriptEvent::ClaimAdmitted { .. })));
    assert!(
        story.iter().any(
            |e| matches!(&e.event, TranscriptEvent::TransitionRefused { reason, .. }
            if reason.contains("hysteresis"))
        ),
        "the hysteresis hold must be visible in the story"
    );
    assert!(story.iter().any(|e| matches!(
        e.event,
        TranscriptEvent::TransitionApplied {
            to: BeliefState::Provisional,
            ..
        }
    )));

    // Replaying the same inputs reproduces the chain digest-for-digest.
    verify_replay(PolicyBundle::default(), &inputs, &transcript).unwrap();

    // A tampered transcript fails verification.
    let mut tampered = transcript.clone();
    tampered.record(TranscriptEvent::TickAdvanced { round: Round(99) });
    assert!(verify_replay(PolicyBundle::default(), &inputs, &tampered).is_err());
}

#[test]
fn witness_selection_is_accountable() {
    let mut kernel = Kernel::new(PolicyBundle::default());
    let mut transcript = Transcript::new();
    let pool: Vec<PeerId> = ["p1", "p2", "p3", "p4", "p5"]
        .into_iter()
        .map(PeerId::new)
        .collect();
    let effects = kernel.handle(
        Input::RequestWitnessSelection {
            domain: RankDomain::WitnessSelection,
            scope: scope(),
            subject: Some(subject()),
            pool,
            excluded: vec![(PeerId::new("p3"), ExclusionReason::Quarantined)],
            take: 2,
        },
        &mut transcript,
    );
    let [Effect::WitnessSetSelected(selection)] = &effects[..] else {
        panic!("expected a witness set effect");
    };
    assert_eq!(selection.selected.len(), 2);
    assert!(!selection.selected.contains(&PeerId::new("p3")));
    resonant::rank::reconstruct(selection).unwrap();
    assert!(transcript
        .events()
        .iter()
        .any(|e| matches!(e.event, TranscriptEvent::RankComputed { .. })));
}

#[test]
fn digest_contract() {
    let mut view = MembershipView::new(scope(), Epoch(3));
    let digest = RepairDigest::of(&view);
    assert!(!digest.has_unresolved_disagreement());
    assert_eq!(compare(&digest, &digest), DigestVerdict::NoAction);

    // Grow a belief so the views differ.
    let policy = PolicyBundle::default();
    let cell = view.cell_mut(subject(), (Epoch(3), Round(0)));
    cell.apply(
        BeliefEvent::Introduced {
            claim: claim().id(),
            provenance: Provenance {
                introducer: PeerId::new("gateway"),
            },
        },
        (Epoch(3), Round(0)),
        &policy,
    )
    .unwrap();
    let grown = RepairDigest::of(&view);
    let empty = RepairDigest::of(&MembershipView::new(scope(), Epoch(3)));
    match compare(&empty, &grown) {
        DigestVerdict::FetchDetail(subjects) => assert_eq!(subjects, vec![subject()]),
        other => panic!("expected FetchDetail, got {other:?}"),
    }

    // Cross-scope digests never reconcile by fetch.
    let foreign = RepairDigest::of(&MembershipView::new(ScopeId::new("elsewhere"), Epoch(3)));
    assert!(matches!(
        compare(&digest, &foreign),
        DigestVerdict::HoldForRepair(_)
    ));
}

#[test]
fn trust_root_lifecycle() {
    let record = witness_record("w1", Stance::Corroborate).id();

    // Operator-installed roots activate directly.
    let mut installed = TrustRootStanding::propose(
        TrustRootId::new("ca-root"),
        scope(),
        RootBasis::OperatorPolicy {
            operator_note: "bootstrap".into(),
        },
        TrustGrade::new(90),
    );
    assert_eq!(
        installed.apply(&RootEvent::Admitted).unwrap(),
        (RootState::Proposed, RootState::Active)
    );
    assert_eq!(installed.effective_grade(), TrustGrade::new(90));

    // Earned standing must pass through probation, at half weight.
    let mut earned = TrustRootStanding::propose(
        TrustRootId::new("veteran-witness"),
        scope(),
        RootBasis::EarnedHistory {
            justification: NonEmpty::new(record),
        },
        TrustGrade::new(80),
    );
    assert_eq!(
        earned.apply(&RootEvent::Admitted).unwrap(),
        (RootState::Proposed, RootState::Probation)
    );
    assert_eq!(earned.effective_grade(), TrustGrade::new(40));
    earned
        .apply(&RootEvent::ProbationPassed {
            corroboration: NonEmpty::new(record),
        })
        .unwrap();
    assert_eq!(earned.state(), RootState::Active);

    // Revocation is terminal and zeroes effective trust.
    earned
        .apply(&RootEvent::Revoked {
            support: RevocationSupport::Witnessed(NonEmpty::new(record)),
        })
        .unwrap();
    assert_eq!(earned.state(), RootState::Revoked);
    assert_eq!(earned.effective_grade(), TrustGrade::new(0));
    assert!(earned
        .apply(&RootEvent::Reinstated {
            review_note: "no".into()
        })
        .is_err());
}

#[test]
fn trust_root_decisions_are_transcripted() {
    let mut kernel = Kernel::new(PolicyBundle::default());
    let mut transcript = Transcript::new();
    let root = TrustRootId::new("ca-root");
    // A move on a root without standing is refused, visibly.
    kernel.handle(
        Input::TrustRootEvent { root: root.clone(), scope: scope(), event: RootEvent::Admitted },
        &mut transcript,
    );
    assert_eq!(transcript.len(), 1);
    assert!(matches!(
        &transcript.events()[0].event,
        TranscriptEvent::TrustRootRefused { standing: None, event: RootEventKind::Admitted, .. }
    ));
    // The proposal itself is a decision.
    kernel.handle(
        Input::TrustRootProposed {
            root: root.clone(),
            scope: scope(),
            basis: RootBasis::OperatorPolicy { operator_note: "bootstrap".into() },
            grade: TrustGrade::new(90),
        },
        &mut transcript,
    );
    assert_eq!(transcript.len(), 2);
    match &transcript.events()[1].event {
        TranscriptEvent::TrustRootProposed { scope: s, root: r, basis, grade } => {
            assert_eq!(s, &scope());
            assert_eq!(r, &root);
            assert_eq!(basis, "operator-policy");
            assert_eq!(*grade, TrustGrade::new(90));
        }
        other => panic!("unexpected event {:?}", other),
    }
    kernel.handle(
        Input::TrustRootEvent { root: root.clone(), scope: scope(), event: RootEvent::Admitted },
        &mut transcript,
    );
    assert!(matches!(
        &transcript.events()[2].event,
        TranscriptEvent::TrustRootChanged { from: RootState::Proposed, to: RootState::Active, .. }
    ));
    // An invalid move from a live standing is refused, naming the state.
    kernel.handle(
        Input::TrustRootEvent { root: root.clone(), scope: scope(), event: RootEvent::Reaffirmed },
        &mut transcript,
    );
    assert_eq!(transcript.len(), 4);
    assert!(matches!(
        &transcript.events()[3].event,
        TranscriptEvent::TrustRootRefused {
            standing: Some(RootState::Active),
            event: RootEventKind::Reaffirmed,
            ..
        }
    ));
    transcript.verify_chain().unwrap();
}

#[test]
fn digest_comparisons_are_transcripted() {
    let mut kernel = Kernel::new(PolicyBundle::default());
    let mut transcript = Transcript::new();
    kernel.handle(Input::EpochAdvanced { scope: scope(), epoch: Epoch(1) }, &mut transcript);
    let own = RepairDigest::of(kernel.view(&scope()).unwrap());
    let effects = kernel.handle(Input::DigestReceived(own.clone()), &mut transcript);
    assert!(effects.is_empty());
    assert_eq!(transcript.len(), 2);
    match &transcript.events()[1].event {
        TranscriptEvent::DigestCompared { scope: s, remote, verdict } => {
            assert_eq!(s, &scope());
            assert_eq!(remote, &own.content_hash);
            assert_eq!(verdict, "no-action");
        }
        other => panic!("unexpected event {:?}", other),
    }
}

fn conflict_side(label: &str, state: BeliefState) -> MergeSide {
    let mut fragments = SortedMap::new();
    fragments.insert(
        subject(),
        BeliefFragment {
            state,
            epoch: Epoch(2),
            trust: TrustGrade::new(70),
            authority: ScopeAuthority::Global,
            witness: WitnessSummary { count: 3, quality: Quality::Strong, diversity: Diversity::CrossScope },
        },
    );
    MergeSide { label: label.to_string(), epoch: Epoch(2), fragments }
}

#[test]
fn superseded_residue_is_transcripted() {
    let mut kernel = Kernel::new(PolicyBundle::default());
    let mut transcript = Transcript::new();
    kernel.handle(Input::EpochAdvanced { scope: scope(), epoch: Epoch(2) }, &mut transcript);
    for round in [Round(10), Round(20)] {
        kernel.handle(
            Input::ReunionRequested {
                scope: scope(),
                round,
                subjects: vec![subject()],
                side_a: conflict_side("a", BeliefState::Accepted),
                side_b: conflict_side("b", BeliefState::Removed),
                operator_override: None,
            },
            &mut transcript,
        );
    }
    let live = kernel.view(&scope()).unwrap().residue().ids();
    let replaced: Vec<_> = transcript
        .events()
        .iter()
        .filter_map(|e| match &e.event {
            TranscriptEvent::ResiduePreserved { residue, superseded: Some(old), .. } => Some((*residue, *old)),
            _ => None,
        })
        .collect();
    // The second reunion's residue replaced the first one's, visibly.
    assert_eq!(replaced.len(), 1);
    let (new_id, old_id) = replaced[0];
    assert_ne!(new_id, old_id);
    assert!(live.contains(&new_id));
    assert!(!live.contains(&old_id));
    transcript.verify_chain().unwrap();
}

#[test]
fn override_for_an_unknown_subject_is_refused_visibly() {
    let mut kernel = Kernel::new(PolicyBundle::default());
    let mut transcript = Transcript::new();
    kernel.handle(Input::EpochAdvanced { scope: scope(), epoch: Epoch(1) }, &mut transcript);
    let op = OperatorOverride {
        operator: OperatorId::new("ops"),
        subject: SubjectId::new("nobody"),
        forced: BeliefState::Removed,
        reason: "decommissioned".to_string(),
        epoch: Epoch(1),
    };
    let id = op.id();
    let effects = kernel.handle(Input::Override(op), &mut transcript);
    assert!(effects.is_empty());
    assert_eq!(transcript.len(), 2);
    match &transcript.events()[1].event {
        TranscriptEvent::OverrideRefused { subject, override_id, forced } => {
            assert_eq!(subject, &SubjectId::new("nobody"));
            assert_eq!(override_id, &id);
            assert_eq!(*forced, BeliefState::Removed);
        }
        other => panic!("unexpected event {:?}", other),
    }
    transcript.verify_chain().unwrap();
}
