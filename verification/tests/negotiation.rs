//! Reunion negotiation decisions on concrete values.

use resonant::collections::SortedMap;
use resonant::epoch::Epoch;
use resonant::evidence::{Diversity, Quality, WitnessSummary};
use resonant::id::SubjectId;
use resonant::belief::{BeliefState, QuarantineReason, RemovalBasis};
use resonant::evidence::{AssertedState, Observation, ObservationMode, Stance, WitnessRecord};
use resonant::id::WitnessId;
use resonant::kernel::{Input, Kernel};
use resonant::net::duties::{advancement_inputs, moderation_input, own_witness_record, subject_claim};
use resonant::net::wire::Moderation;
use resonant::policy::PolicyBundle;
use resonant::scope::ScopeId;
use resonant::transcript::Transcript;
use resonant::trust::Confidence;
use resonant::witnessing::EvidenceBook;
use resonant::merge::engine::MergeSide;
use resonant::merge::BeliefFragment;
use resonant::belief::MembershipView;
use resonant::digest::RepairDigest;
use resonant::net::negotiation::{
    ack_agrees, digest_step, expected_round, liveness_due, mine_is_side_a, plan_reunion, reunion_subjects,
    tick_duties, DigestStep, TickDuties,
};
use resonant::scope::ScopeAuthority;
use resonant::trust::TrustGrade;
use resonant::witnessing::rendezvous_round;

fn fragment() -> BeliefFragment {
    BeliefFragment {
        state: BeliefState::Accepted,
        epoch: Epoch(1),
        trust: TrustGrade::new(50),
        authority: ScopeAuthority::Global,
        witness: WitnessSummary { count: 1, quality: Quality::Weak, diversity: Diversity::SingleScope },
    }
}

fn side(label: &str, subjects: &[&str]) -> MergeSide {
    let mut fragments = SortedMap::new();
    for s in subjects {
        fragments.insert(SubjectId::new(s), fragment());
    }
    MergeSide { label: label.to_string(), epoch: Epoch(1), fragments }
}

#[test]
fn lower_hash_is_side_a() {
    let low = [1u8; 32];
    let mut high = [1u8; 32];
    high[31] = 2;
    assert!(mine_is_side_a(&low, &high));
    assert!(!mine_is_side_a(&high, &low));
    assert!(mine_is_side_a(&low, &low));
}

#[test]
fn acknowledged_round_must_lie_within_sixty_four_of_own() {
    let lo = [3u8; 32];
    let hi = [9u8; 32];
    let floor = rendezvous_round(&[100], &lo, &hi).0;
    assert!(floor >= 116 && floor < 132);
    assert!(expected_round(100, &lo, &hi, floor));
    assert!(expected_round(100, &lo, &hi, floor + 64));
    assert!(!expected_round(100, &lo, &hi, floor + 65));
    assert!(expected_round(100, &lo, &hi, floor - 64));
    assert!(!expected_round(100, &lo, &hi, floor - 65));
}

#[test]
fn low_rounds_floor_at_zero() {
    let lo = [3u8; 32];
    let hi = [9u8; 32];
    assert!(expected_round(0, &lo, &hi, 0));
}

#[test]
fn acknowledgment_needs_scope_digests_and_round() {
    let lo = [3u8; 32];
    let hi = [9u8; 32];
    let other = [7u8; 32];
    let round = rendezvous_round(&[100], &lo, &hi).0;
    assert!(ack_agrees(true, Some(&hi), &lo, &hi, &lo, 100, round));
    assert!(!ack_agrees(false, Some(&hi), &lo, &hi, &lo, 100, round));
    assert!(!ack_agrees(true, None, &lo, &hi, &lo, 100, round));
    assert!(!ack_agrees(true, Some(&other), &lo, &hi, &lo, 100, round));
    assert!(!ack_agrees(true, Some(&hi), &lo, &hi, &other, 100, round));
    assert!(!ack_agrees(true, Some(&hi), &lo, &hi, &lo, 100, round + 200));
}

#[test]
fn reunion_covers_the_sorted_union() {
    let a = side("a", &["erin", "bob"]);
    let b = side("b", &["carol", "bob"]);
    let subjects = reunion_subjects(&a, &b);
    let names: Vec<&str> = subjects.iter().map(|s| s.as_str()).collect();
    assert_eq!(names, vec!["bob", "carol", "erin"]);
}

#[test]
fn duties_follow_the_round() {
    assert_eq!(tick_duties(30), TickDuties { share_digest: true, reshare_claims: true, redial_pending: true });
    assert_eq!(tick_duties(10), TickDuties { share_digest: true, reshare_claims: false, redial_pending: false });
    assert_eq!(tick_duties(7), TickDuties { share_digest: false, reshare_claims: false, redial_pending: false });
}

#[test]
fn liveness_is_debounced() {
    assert!(!liveness_due(14, 10));
    assert!(liveness_due(15, 10));
    assert!(!liveness_due(3, 10));
}

fn node_claim(subject: &str, voucher: &str) -> resonant::evidence::Claim {
    subject_claim(subject, AssertedState::Present, &ScopeId::new("room:net"), voucher)
}

#[test]
fn published_claims_and_records_have_the_node_shape() {
    let claim = node_claim("carol", "alice");
    assert_eq!(claim.subject.as_str(), "carol");
    assert_eq!(claim.provenance.introducer.as_str(), "alice");
    assert_eq!(claim.epoch, Epoch(1));
    assert!(claim.evidence.is_empty());
    let record = own_witness_record(
        "bob",
        "carol",
        ObservationMode::DirectContact,
        Stance::Corroborate,
        &ScopeId::new("room:net"),
        TrustGrade::new(70),
    );
    let observation = Observation {
        observer: WitnessId::new("bob"),
        subject: SubjectId::new("carol"),
        mode: ObservationMode::DirectContact,
        epoch: Epoch(1),
    };
    assert_eq!(record.observation, observation.id());
    assert_eq!(record.witness.as_str(), "bob");
    assert_eq!(record.trust_context, TrustGrade::new(70));
    assert!(record.about.is_none());
}

#[test]
fn moderation_stands_for_an_assessment() {
    let scope = ScopeId::new("room:net");
    match moderation_input(&scope, "carol", Moderation::Mute) {
        Input::QuarantineAssessed { subject, reason, .. } => {
            assert_eq!(subject.as_str(), "carol");
            assert_eq!(reason, QuarantineReason::ConflictPressure);
        }
        _ => panic!("a mute quarantines"),
    }
    match moderation_input(&scope, "carol", Moderation::Ban) {
        Input::RemovalAssessed { basis, .. } => assert_eq!(basis, RemovalBasis::PolicyViolation),
        _ => panic!("a ban removes"),
    }
}

#[test]
fn a_tick_assesses_subjects_ready_to_advance() {
    let scope = ScopeId::new("room:net");
    let policy = PolicyBundle::default();
    let mut kernel = Kernel::new(policy);
    let mut transcript = Transcript::new();
    let mut book = EvidenceBook::new();
    for (subject, voucher) in [("bob", "alice"), ("dave", "erin"), ("hon", "gateway")] {
        let claim = node_claim(subject, voucher);
        book.record_claim(&claim);
        kernel.handle(Input::Introduce(claim), &mut transcript);
    }
    for (by, mode) in [("bob", ObservationMode::DirectContact), ("dave", ObservationMode::ChallengeResponse)] {
        let record = own_witness_record("x", "hon", mode, Stance::Corroborate, &scope, TrustGrade::new(70));
        let record = WitnessRecord { witness: WitnessId::new(by), ..record };
        book.record_witness(record.clone());
        kernel.handle(Input::WitnessRecordReceived(record), &mut transcript);
    }
    let view = kernel.view(&scope).unwrap();
    assert_eq!(view.belief(&SubjectId::new("hon")).unwrap().state(), BeliefState::Witnessed);
    let inputs = advancement_inputs(&book, view);
    assert_eq!(inputs.len(), 1);
    match &inputs[0] {
        Input::CorroborationAssessed { subject, records, confidence, .. } => {
            assert_eq!(subject.as_str(), "hon");
            assert_eq!(records.len(), 2);
            assert_eq!(*confidence, Confidence::Bounded);
        }
        _ => panic!("expected an assessment"),
    }
}

#[test]
fn both_sides_agree_on_orientation() {
    let x = [4u8; 32];
    let mut y = [4u8; 32];
    y[7] = 9;
    assert_ne!(mine_is_side_a(&x, &y), mine_is_side_a(&y, &x));
    assert!(mine_is_side_a(&x, &y));
}

#[test]
fn both_nodes_plan_the_same_reunion() {
    let x = side("island-x", &["bob", "carol"]);
    let y = side("island-y", &["carol", "dave"]);
    let hx = [5u8; 32];
    let hy = [2u8; 32];
    let p = plan_reunion(x.duplicate(), &hx, y.duplicate(), &hy, 40, 55).unwrap();
    let q = plan_reunion(y.duplicate(), &hy, x.duplicate(), &hx, 55, 40).unwrap();
    assert_eq!(p.round, q.round);
    assert_eq!(p.digest_lo, hy);
    assert_eq!(q.digest_lo, hy);
    assert_eq!(p.digest_hi, hx);
    assert_eq!(p.side_a.label, "island-y");
    assert_eq!(q.side_a.label, "island-y");
    assert_eq!(p.side_b.label, "island-x");
    assert_eq!(p.round, rendezvous_round(&[40, 55], &hx, &hy).0);
    assert!(p.round >= 55 + 16 && p.round < 55 + 32);
    assert!(plan_reunion(x.duplicate(), &hx, y, &hx, 1, 2).is_none());
}

#[test]
fn digests_lead_to_a_fetch_only_on_material_divergence() {
    let mut calm = MembershipView::new(ScopeId::new("room:net"), Epoch(1));
    calm.cell_mut(SubjectId::new("carol"), (Epoch(1), resonant::epoch::Round(0)));
    let local = RepairDigest::of(&calm);
    let other = RepairDigest::of(&MembershipView::new(ScopeId::new("room:net"), Epoch(1)));
    assert_eq!(digest_step(None, &other, false, false), DigestStep::Ignore);
    assert_eq!(digest_step(Some(&local), &local, false, false), DigestStep::Ignore);
    assert_eq!(digest_step(Some(&local), &other, true, false), DigestStep::Ignore);
    // An introduced subject against an empty view is drift, not conflict.
    assert_eq!(digest_step(Some(&local), &other, false, false), DigestStep::Record);
}
