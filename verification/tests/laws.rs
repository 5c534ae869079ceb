//! The library's laws on concrete values: merge calculus, rank, digest,
//! trust, the state machine, and the BLAKE3 boundary.

use resonant::belief::{transition, BeliefEvent, BeliefState, MembershipView};
use resonant::collections::SortedMap;
use resonant::digest::RepairDigest;
use resonant::encode::digest_with_domain;
use resonant::epoch::{Epoch, Round};
use resonant::evidence::{Diversity, Quality, WitnessSummary};
use resonant::id::{ClaimId, PeerId, SubjectId};
use resonant::merge::engine::{deterministic_reunion, MergeSide, ReunionContext};
use resonant::merge::{BeliefFragment, MergeStability};
use resonant::policy::MergePolicy;
use resonant::rank::{permutation_rank, reconstruct, RankDomain, RankSeed};
use resonant::scope::{ScopeAuthority, ScopeId};
use resonant::trust::TrustGrade;

fn fragment(state: BeliefState, epoch: u64, trust: u8, count: u32, quality: Quality, diversity: Diversity) -> BeliefFragment {
    BeliefFragment {
        state,
        epoch: Epoch(epoch),
        trust: TrustGrade::new(trust),
        authority: ScopeAuthority::Global,
        witness: WitnessSummary { count, quality, diversity },
    }
}

fn side(label: &str, f: Option<BeliefFragment>) -> MergeSide {
    let mut fragments = SortedMap::new();
    if let Some(f) = f {
        fragments.insert(SubjectId::new("dave"), f);
    }
    MergeSide { label: label.to_string(), epoch: Epoch(5), fragments }
}

fn reunion(a: Option<BeliefFragment>, b: Option<BeliefFragment>) -> resonant::merge::engine::ReunionOutcome {
    let ctx = ReunionContext { scope: ScopeId::new("room"), epoch: Epoch(5), round: Round(9) };
    deterministic_reunion(
        &MergePolicy::lab_compat(),
        &ctx,
        &[SubjectId::new("dave")],
        &side("a", a),
        &side("b", b),
        None,
    )
}

#[test]
fn cross_class_conflict_leaves_residue() {
    let a = fragment(BeliefState::Accepted, 5, 80, 3, Quality::Strong, Diversity::CrossScope);
    let b = fragment(BeliefState::Removed, 5, 80, 3, Quality::Strong, Diversity::CrossScope);
    let out = reunion(Some(a), Some(b));
    assert_eq!(out.outcomes.len(), 1);
    assert!(!out.outcomes[0].resolution.residue().is_empty());
}

#[test]
fn witness_count_never_decides_across_classes() {
    let a = fragment(BeliefState::Accepted, 5, 80, 3, Quality::Strong, Diversity::CrossScope);
    let b = fragment(BeliefState::Removed, 5, 80, 3, Quality::Strong, Diversity::CrossScope);
    let loud = fragment(BeliefState::Removed, 5, 80, 300, Quality::Strong, Diversity::CrossScope);
    let quiet = reunion(Some(a), Some(b));
    let shouted = reunion(Some(a), Some(loud));
    assert_eq!(quiet.outcomes[0].resolution.project(), shouted.outcomes[0].resolution.project());
    assert_eq!(quiet.outcomes[0].source, shouted.outcomes[0].source);
}

#[test]
fn single_side_never_stabilizes_tentative_belief() {
    let a = fragment(BeliefState::Provisional, 5, 90, 3, Quality::Strong, Diversity::CrossScope);
    let out = reunion(Some(a), None);
    assert_eq!(out.outcomes[0].resolution.stability(), MergeStability::Provisional);
    assert!(!out.outcomes[0].resolution.residue().is_empty());
}

#[test]
fn shared_dispute_stays_visible() {
    let a = fragment(BeliefState::Disputed, 5, 70, 2, Quality::Mixed, Diversity::Mixed);
    let out = reunion(Some(a), Some(a));
    assert_eq!(out.outcomes[0].resolution.project(), BeliefState::Disputed);
    assert!(!out.outcomes[0].resolution.residue().is_empty());
}

#[test]
fn applying_a_reunion_keeps_its_residue() {
    let a = fragment(BeliefState::Accepted, 5, 80, 3, Quality::Strong, Diversity::CrossScope);
    let b = fragment(BeliefState::Removed, 5, 80, 3, Quality::Strong, Diversity::CrossScope);
    let out = reunion(Some(a), Some(b));
    let expected = out.digest.unresolved_residue;
    let mut view = MembershipView::new(ScopeId::new("room"), Epoch(5));
    let applied = out.apply_to(&mut view, &resonant::policy::PolicyBundle::default(), (Epoch(5), Round(9)));
    assert!(applied.is_ok());
    assert!(expected >= 1);
    assert!(view.residue().unhandled() >= 1);
    assert!(RepairDigest::of(&view).has_unresolved_disagreement());
}

#[test]
fn a_new_candidate_does_not_reshuffle_the_others() {
    let seed = || RankSeed {
        domain: RankDomain::WitnessSelection,
        scope: ScopeId::new("demo"),
        subject: None,
        epoch: Epoch(1),
        round: Round(0),
    };
    let names = ["p1", "p2", "p3", "p4"];
    let small = permutation_rank(seed(), names.iter().map(|n| PeerId::new(n)).collect(), vec![], 4);
    let mut bigger_pool: Vec<PeerId> = names.iter().map(|n| PeerId::new(n)).collect();
    bigger_pool.push(PeerId::new("p5"));
    let big = permutation_rank(seed(), bigger_pool, vec![], 5);
    let order_small: Vec<String> = small.ranked.iter().map(|(p, _)| p.as_str().to_string()).collect();
    let order_big: Vec<String> = big
        .ranked
        .iter()
        .map(|(p, _)| p.as_str().to_string())
        .filter(|n| n != "p5")
        .collect();
    assert_eq!(order_small, order_big);
    assert!(reconstruct(&small).is_ok());
    assert!(reconstruct(&big).is_ok());
    // Rotating the round rotates the order deterministically.
    let again = permutation_rank(seed(), names.iter().map(|n| PeerId::new(n)).collect(), vec![], 4);
    assert_eq!(small.ranked, again.ranked);
}

#[test]
fn informer_is_capped() {
    let p = MergePolicy::lab_compat();
    assert_eq!(p.informer_score(2), 4);
    assert_eq!(p.informer_score(5), 10);
    assert_eq!(p.informer_score(400), 10);
}

#[test]
fn grades_clamp_and_band() {
    assert_eq!(TrustGrade::new(250).get(), 100);
    assert_eq!(TrustGrade::new(42).get(), 42);
}

#[test]
fn witnessed_is_never_removed_organically() {
    let events = [
        BeliefEvent::RemovalDecided { basis: resonant::belief::RemovalBasis::Departure },
        BeliefEvent::Reintroduced { claim: ClaimId::from_bytes([1; 32]) },
        BeliefEvent::EpochReset { new_epoch: Epoch(9) },
    ];
    for e in events {
        assert_ne!(transition(BeliefState::Witnessed, &e).ok(), Some(BeliefState::Removed));
    }
}

#[test]
fn domain_digests_are_blake3_of_the_framed_bytes() {
    let body = b"membership";
    let got = digest_with_domain("resonant/test/v1", body);
    let mut framed = Vec::new();
    framed.extend_from_slice(&(16u64).to_le_bytes());
    framed.extend_from_slice(b"resonant/test/v1");
    framed.extend_from_slice(body);
    assert_eq!(got, *blake3::hash(&framed).as_bytes());
    assert_ne!(&got[..], &framed[..32]);
}

fn scaled_policy(scale: i64, one_sided_stable: i64) -> MergePolicy {
    let p = MergePolicy::lab_compat();
    MergePolicy {
        quality_strong: p.quality_strong * scale,
        quality_mixed: p.quality_mixed * scale,
        quality_weak: p.quality_weak * scale,
        diversity_cross_scope: p.diversity_cross_scope * scale,
        diversity_mixed: p.diversity_mixed * scale,
        diversity_single_scope: p.diversity_single_scope * scale,
        diversity_laundered: p.diversity_laundered * scale,
        scope_global: p.scope_global * scale,
        scope_regional: p.scope_regional * scale,
        scope_local: p.scope_local * scale,
        informer_cap: p.informer_cap * scale,
        one_sided_stable,
        permissive_epoch_slack: p.permissive_epoch_slack * scale,
        permissive_margin: p.permissive_margin * scale,
        laundering_tolerance: p.laundering_tolerance * scale,
        dispute_closeness: p.dispute_closeness * scale,
        restrictive_fresh_slack: p.restrictive_fresh_slack * scale,
        restrictive_dominance: p.restrictive_dominance * scale,
        accept_converge_margin: p.accept_converge_margin * scale,
    }
}

fn reunion_under(policy: &MergePolicy, a: Option<BeliefFragment>, b: Option<BeliefFragment>) -> resonant::merge::engine::ReunionOutcome {
    let ctx = ReunionContext { scope: ScopeId::new("room"), epoch: Epoch(5), round: Round(9) };
    deterministic_reunion(policy, &ctx, &[SubjectId::new("dave")], &side("a", a), &side("b", b), None)
}

#[test]
fn large_policy_weights_merge_by_the_same_rules() {
    let scale: i64 = 1 << 50;
    // One side: score 80 + 48*scale + min(3*2, 10*scale) = 48*scale + 86.
    let a = fragment(BeliefState::Accepted, 5, 80, 3, Quality::Strong, Diversity::CrossScope);
    let strict = reunion_under(&scaled_policy(scale, 95 * scale), Some(a), None);
    assert_eq!(strict.outcomes[0].source, resonant::merge::MergeSource::SideA);
    assert_eq!(strict.outcomes[0].resolution.project(), BeliefState::Accepted);
    assert_eq!(strict.outcomes[0].resolution.stability(), MergeStability::Provisional);
    assert_eq!(strict.outcomes[0].resolution.residue().len(), 1);
    let lenient = reunion_under(&scaled_policy(scale, 48 * scale + 86), Some(a), None);
    assert_eq!(lenient.outcomes[0].resolution.stability(), MergeStability::Stable);
    assert!(lenient.outcomes[0].resolution.residue().is_empty());
    let short = reunion_under(&scaled_policy(scale, 48 * scale + 87), Some(a), None);
    assert_eq!(short.outcomes[0].resolution.stability(), MergeStability::Provisional);
    // A same-epoch cross-class conflict still leaves residue.
    let b = fragment(BeliefState::Removed, 5, 80, 3, Quality::Strong, Diversity::CrossScope);
    let conflict = reunion_under(&scaled_policy(scale, 95 * scale), Some(a), Some(b));
    assert!(!conflict.outcomes[0].resolution.residue().is_empty());
}
