//! The conformance and demonstration layer: divergence replay, the merge
//! oracle, the golden table, kernel/oracle conformance, the seeded
//! simulator, and the story theater.

use resonant::belief::BeliefState;
use resonant::collections::SortedMap;
use resonant::evidence::{Diversity, Quality, WitnessSummary};
use resonant::id::SubjectId;
use resonant::lab::audit::{audit_corpus, prefix_disagreements};
use resonant::lab::conformance::{compare, run_kernel_reunion};
use resonant::lab::golden::{check_case, golden_cases};
use resonant::lab::oracle::{
    build_naive_comparison, compute_island_digest, entry_score, is_meaningful, merge_subject,
    run_deterministic_merge, run_naive_reunion, OverallOutcome, Source, Stability, MEANINGLESS_SCORE,
};
use resonant::lab::replay::materialize;
use resonant::lab::scenario::{
    Event, InitialState, IslandPatch, IslandView, MemberEntry, OperatorOverride, Patches, Scenario,
    Scope, Subject,
};
use resonant::lab::sim::{derive_seed, run, SimConfig, SplitMix64};
use resonant::lab::theater::{run_story, stories};
use resonant::policy::MergePolicy;

fn entry(status: BeliefState, epoch: u64, trust: i64, count: u32, quality: Quality, diversity: Diversity) -> MemberEntry {
    MemberEntry {
        status,
        epoch,
        trust_weight: trust,
        scope: Scope::Global,
        witness_summary: WitnessSummary { count, quality, diversity },
        explanation: String::from("seen"),
    }
}

fn subject(id: &str, label: &str) -> Subject {
    Subject {
        id: id.to_string(),
        label: label.to_string(),
        role: "node".to_string(),
        domain: "cluster".to_string(),
    }
}

fn island(label: &str, epoch: u64, members: Vec<(&str, MemberEntry)>) -> IslandView {
    let mut m = SortedMap::new();
    for (id, e) in members {
        m.insert(SubjectId::new(id), e);
    }
    IslandView {
        label: label.to_string(),
        scope: Scope::Global,
        local_epoch: epoch,
        members: m,
    }
}

fn scenario(subjects: Vec<Subject>, a: IslandView, b: IslandView, events: Vec<Event>, op: Option<OperatorOverride>) -> Scenario {
    Scenario {
        id: "mini".to_string(),
        title: "mini".to_string(),
        summary: String::new(),
        difference_from_quorum_lab: String::new(),
        notes: vec![],
        allow_operator_override: op.is_some(),
        operator_override: op,
        expected_merge_tensions: vec![],
        subjects,
        initial: InitialState {
            policy_name: "lab".to_string(),
            policy_summary: String::new(),
            island_a: a,
            island_b: b,
        },
        events,
    }
}

fn conflict_scenario() -> Scenario {
    let a = island("Island A", 42, vec![("nyx", entry(BeliefState::Accepted, 42, 90, 4, Quality::Strong, Diversity::CrossScope))]);
    let b = island("Island B", 42, vec![("nyx", entry(BeliefState::Quarantined, 42, 88, 4, Quality::Strong, Diversity::CrossScope))]);
    let op = OperatorOverride {
        subject_id: "nyx".to_string(),
        status: BeliefState::Quarantined,
        reason: "operator quarantines nyx".to_string(),
    };
    scenario(vec![subject("nyx", "Nyx")], a, b, vec![], Some(op))
}

#[test]
fn entry_scores_follow_the_table() {
    let p = MergePolicy::lab_compat();
    let e = entry(BeliefState::Accepted, 42, 90, 4, Quality::Strong, Diversity::CrossScope);
    // 90 + 22 (strong) + 14 (cross-scope) + 12 (global) + 8 (informer).
    assert_eq!(entry_score(&p, Some(&e)), 146);
    let loud = entry(BeliefState::Accepted, 1, 10, 40, Quality::Weak, Diversity::Laundered);
    // The informer is capped at 10: 10 - 8 - 16 + 12 + 10.
    assert_eq!(entry_score(&p, Some(&loud)), 8);
    assert_eq!(entry_score(&p, None), MEANINGLESS_SCORE);
    let unknown = entry(BeliefState::Unknown, 1, 50, 1, Quality::Strong, Diversity::CrossScope);
    assert!(!is_meaningful(Some(&unknown)));
    assert_eq!(entry_score(&p, Some(&unknown)), MEANINGLESS_SCORE);
    let zero = entry(BeliefState::Accepted, 1, 0, 1, Quality::Strong, Diversity::CrossScope);
    assert!(!is_meaningful(Some(&zero)));
}

#[test]
fn same_epoch_conflict_is_an_honest_dispute() {
    let p = MergePolicy::lab_compat();
    let a = entry(BeliefState::Accepted, 42, 90, 4, Quality::Strong, Diversity::CrossScope);
    let b = entry(BeliefState::Quarantined, 42, 88, 4, Quality::Strong, Diversity::CrossScope);
    let m = merge_subject(&p, &subject("nyx", "Nyx"), Some(&a), Some(&b));
    assert_eq!(m.status, BeliefState::Disputed);
    assert_eq!(m.source, Source::Both);
    assert_eq!(m.stability, Stability::Provisional);
    assert_eq!(m.epoch, 42);
    assert_eq!(m.trust_weight, 90);
    let residue = m.residue.expect("the dispute leaves residue");
    assert_eq!(
        residue.detail,
        "Island A says accepted. Island B says quarantined. Both paths remain fresh enough that deterministic reunion refuses to counterfeit certainty."
    );
    assert!(!residue.handled_by_override);
    assert_eq!(m.rule_summary, vec!["Same-epoch high-trust conflict survives as residue.".to_string()]);
}

#[test]
fn one_sided_and_agreeing_merges() {
    let p = MergePolicy::lab_compat();
    let a = entry(BeliefState::Accepted, 10, 80, 3, Quality::Strong, Diversity::CrossScope);
    let one = merge_subject(&p, &subject("iona", "Iona"), Some(&a), None);
    assert_eq!(one.source, Source::IslandA);
    assert_eq!(one.stability, Stability::Stable);
    assert_eq!(one.explanation, "Only Island A carried an admissible path into reunion.");
    assert!(one.residue.is_none());

    let b = entry(BeliefState::Accepted, 11, 70, 3, Quality::Strong, Diversity::CrossScope);
    let both = merge_subject(&p, &subject("iona", "Iona"), Some(&a), Some(&b));
    assert_eq!(both.source, Source::Both);
    assert_eq!(both.epoch, 11);
    assert_eq!(both.trust_weight, 80);
    assert_eq!(both.explanation, "Both islands converge on accepted.");
    assert_eq!(
        both.rule_summary,
        vec![
            "Matching local outcomes converge cleanly.".to_string(),
            "Island A supplied the stronger retained detail.".to_string()
        ]
    );

    let none = merge_subject(&p, &subject("ghost", "Ghost"), None, None);
    assert_eq!(none.status, BeliefState::Unknown);
    assert_eq!(none.source, Source::Neither);
    assert_eq!(none.explanation, "No admissible view survived the reunion.");
}

#[test]
fn laundered_cluster_is_discounted() {
    let p = MergePolicy::lab_compat();
    let a = entry(BeliefState::Accepted, 5, 70, 2, Quality::Strong, Diversity::CrossScope);
    let b = entry(BeliefState::Provisional, 5, 60, 6, Quality::Weak, Diversity::Laundered);
    let m = merge_subject(&p, &subject("lumen", "Lumen"), Some(&a), Some(&b));
    assert_eq!(m.source, Source::IslandA);
    assert_eq!(m.status, BeliefState::Provisional);
    assert_eq!(m.stability, Stability::Provisional);
    assert_eq!(m.trust_weight, 70);
    assert_eq!(m.rule_summary[1], "Island A preserved the more admissible path.");
    assert_eq!(
        m.residue.unwrap().detail,
        "Island B accumulated a louder but lower-quality witness cluster. The merge retains that laundering attempt as visible residue."
    );
}

#[test]
fn fresher_restriction_wins_the_race_with_a_scar() {
    let p = MergePolicy::lab_compat();
    let a = entry(BeliefState::Removed, 84, 95, 3, Quality::Strong, Diversity::CrossScope);
    let b = entry(BeliefState::Accepted, 83, 92, 3, Quality::Strong, Diversity::CrossScope);
    let m = merge_subject(&p, &subject("iona", "Iona"), Some(&a), Some(&b));
    assert_eq!(m.status, BeliefState::Removed);
    assert_eq!(m.source, Source::IslandA);
    assert_eq!(m.stability, Stability::Stable);
    assert_eq!(m.epoch, 84);
    assert_eq!(
        m.residue.unwrap().detail,
        "Island B still carried a coherent permissive path. The race remains visible even though the newer restrictive path wins."
    );
}

#[test]
fn fresher_provisional_downgrades_stale_acceptance() {
    let p = MergePolicy::lab_compat();
    let a = entry(BeliefState::Provisional, 42, 80, 2, Quality::Strong, Diversity::CrossScope);
    let b = entry(BeliefState::Accepted, 40, 30, 1, Quality::Weak, Diversity::SingleScope);
    let m = merge_subject(&p, &subject("morrow", "Morrow"), Some(&a), Some(&b));
    assert_eq!(m.source, Source::IslandA);
    assert_eq!(m.status, BeliefState::Provisional);
    assert_eq!(m.stability, Stability::Provisional);
    assert_eq!(
        m.residue.unwrap().detail,
        "accepted on the older path remains visible as residue, because recontact did not restore innocence."
    );
}

#[test]
fn deterministic_merge_with_and_without_override() {
    let p = MergePolicy::lab_compat();
    let s = conflict_scenario();
    let current = materialize(&s, 0);
    let plain = run_deterministic_merge(&p, &s, &current, false);
    assert_eq!(plain.digest.overall_outcome, OverallOutcome::Provisional);
    assert_eq!(plain.digest.unresolved.len(), 1);
    assert_eq!(plain.residues.len(), 1);
    assert_eq!(plain.digest.compared_subjects, 1);
    assert_eq!(
        plain.digest.inputs,
        vec![
            "Island A epoch 42".to_string(),
            "Island B epoch 42".to_string(),
            "0 divergence event(s) replayed".to_string()
        ]
    );
    assert!(plain.digest.applied_override.is_none());

    let forced = run_deterministic_merge(&p, &s, &current, true);
    assert_eq!(forced.digest.overall_outcome, OverallOutcome::StableWithOverride);
    assert!(forced.digest.unresolved.is_empty());
    let m = &forced.members[0];
    assert_eq!(m.status, BeliefState::Quarantined);
    assert_eq!(m.source, Source::Override);
    assert_eq!(m.stability, Stability::StableWithOverride);
    assert_eq!(m.explanation, "operator quarantines nyx");
    let r = m.residue.as_ref().unwrap();
    assert!(r.handled_by_override);
    assert!(r.detail.ends_with(" OperatorOverride forced a visible intervention instead of silent collapse."));
    assert_eq!(m.rule_summary.last().unwrap(), "OperatorOverride applied visibly.");
    assert_eq!(
        forced.digest.rules_fired,
        vec![
            "Same-epoch high-trust conflict survives as residue.".to_string(),
            "OperatorOverride applied visibly.".to_string()
        ]
    );
}

#[test]
fn naive_reunion_would_erase_the_dispute() {
    let p = MergePolicy::lab_compat();
    let s = conflict_scenario();
    let current = materialize(&s, 0);
    let naive = run_naive_reunion(&s, &current);
    assert_eq!(naive[0].status, BeliefState::Accepted);
    assert_eq!(naive[0].source, "Island A");
    let det = run_deterministic_merge(&p, &s, &current, false);
    let cmp = build_naive_comparison(&s, &current, &det);
    assert_eq!(cmp.diffs.len(), 1);
    assert_eq!(cmp.diffs[0].note, "Naive reunion would erase visible residue.");
    assert_eq!(cmp.diffs[0].naive_status, BeliefState::Accepted);
    assert_eq!(cmp.diffs[0].deterministic_status, BeliefState::Disputed);
}

#[test]
fn island_digest_counts_by_state_name() {
    let v = island(
        "A",
        1,
        vec![
            ("a", entry(BeliefState::Accepted, 1, 50, 1, Quality::Strong, Diversity::CrossScope)),
            ("b", entry(BeliefState::Removed, 1, 50, 1, Quality::Strong, Diversity::CrossScope)),
            ("c", entry(BeliefState::Accepted, 1, 50, 1, Quality::Strong, Diversity::CrossScope)),
        ],
    );
    assert_eq!(
        compute_island_digest(&v),
        vec![("accepted".to_string(), 2), ("removed".to_string(), 1)]
    );
}

#[test]
fn replay_applies_patches_in_order_and_clamps() {
    let mut s = conflict_scenario();
    let mut patch_members = SortedMap::new();
    patch_members.insert(
        SubjectId::new("nyx"),
        entry(BeliefState::Removed, 43, 91, 4, Quality::Strong, Diversity::CrossScope),
    );
    s.events.push(Event {
        id: "e1".to_string(),
        label: "ban".to_string(),
        description: String::new(),
        patches: Patches {
            island_a: Some(IslandPatch {
                local_epoch: Some(43),
                members: Some(patch_members),
                log: Some("A bans nyx".to_string()),
            }),
            island_b: None,
        },
    });
    let none = materialize(&s, 0);
    assert_eq!(none.steps_replayed, 0);
    assert_eq!(none.island_a.local_epoch, 42);
    let all = materialize(&s, 99);
    assert_eq!(all.steps_replayed, 1);
    assert_eq!(all.island_a.local_epoch, 43);
    assert_eq!(all.island_b.local_epoch, 42);
    assert_eq!(all.island_a.members.get(&SubjectId::new("nyx")).unwrap().status, BeliefState::Removed);
    assert_eq!(all.logs.len(), 1);
    assert_eq!(all.logs[0].island, "island_a");
    assert_eq!(all.logs[0].event_label, "ban");
    assert_eq!(all.logs[0].detail, "A bans nyx");
}

#[test]
fn golden_table_shape_and_clean_case() {
    let cases = golden_cases();
    assert_eq!(cases.len(), 7, "six scenarios plus the override variant");
    assert_eq!(cases[0].scenario_id, "deterministic-reunion-clean");
    assert_eq!(cases[5].overall, OverallOutcome::StableWithOverride);
    assert!(cases[5].apply_override);
    assert_eq!(cases[6].subjects[0].subject_id, "iona");
    assert_eq!(cases[6].subjects[0].status, BeliefState::Removed);

    // A clean room: every subject accepted on both islands.
    let names = ["iona", "kestrel", "lumen", "morrow", "nyx"];
    let good = || entry(BeliefState::Accepted, 7, 90, 4, Quality::Strong, Diversity::CrossScope);
    let a = island("Island A", 7, names.iter().map(|n| (*n, good())).collect());
    let b = island("Island B", 7, names.iter().map(|n| (*n, good())).collect());
    let s = scenario(names.iter().map(|n| subject(n, n)).collect(), a, b, vec![], None);
    let report = check_case(&MergePolicy::lab_compat(), &s, &cases[0]);
    assert!(report.passed(), "{:?}", report.failures);
    // The same room does not meet the stale-witness case.
    let report = check_case(&MergePolicy::lab_compat(), &s, &cases[1]);
    assert!(!report.passed());
    assert_eq!(report.failures[0], "overall outcome: expected Provisional, got Stable");
}

#[test]
fn kernel_matches_oracle_on_a_dispute() {
    let p = MergePolicy::lab_compat();
    let s = conflict_scenario();
    let current = materialize(&s, 0);
    for apply in [false, true] {
        let kernel = run_kernel_reunion(&p, &s, &current, apply);
        let oracle = run_deterministic_merge(&p, &s, &current, apply);
        let failures = compare(&kernel, &oracle);
        assert!(failures.is_empty(), "override={apply}: {failures:?}");
    }
}

#[test]
fn splitmix_is_the_reference_sequence() {
    // SplitMix64 seeded with 0: the first output of the reference generator.
    let mut rng = SplitMix64::new(0);
    assert_eq!(rng.next_u64(), 0xe220a8397b1dcdaf);
    assert_eq!(rng.next_u64(), 0x6e789e6aa1b965f4);
    let mut r = SplitMix64::new(7);
    assert!(r.pick(10) < 10);
    let mut z = SplitMix64::new(7);
    assert_eq!(z.pick(0), 0);
    // Sub-seeds are domain separated and reproducible.
    assert_eq!(derive_seed(42, "victim", &[]), derive_seed(42, "victim", &[]));
    assert_ne!(derive_seed(42, "victim", &[]), derive_seed(42, "trust", &[]));
    assert_ne!(derive_seed(42, "trust", &[3]), derive_seed(42, "trust", &[4]));
}

#[test]
fn simulation_is_reproducible() {
    let config = SimConfig { seed: 9, nodes: 6, subjects: 3, operator_override: false };
    let one = run(&config);
    let two = run(&config);
    assert_eq!(one.narrative, two.narrative);
    assert_eq!(one.victim, two.victim);
    assert_eq!(one.transcript_heads, two.transcript_heads);
    assert_eq!(one.island_digests, two.island_digests);
}

#[test]
fn reunion_converges_and_preserves_the_conflict() {
    for seed in [0u64, 1, 42, 7777, u64::MAX] {
        let report = run(&SimConfig { seed, operator_override: false, ..SimConfig::default() });
        assert!(report.converged, "islands diverged after reunion (seed {seed})");
        assert_eq!(report.victim_state, BeliefState::Disputed);
        assert!(report.unresolved_residue >= 1, "the conflict must leave residue");
        assert_eq!(report.overall, resonant::merge::OverallOutcome::Provisional);
    }
}

#[test]
fn override_marks_but_never_erases() {
    for seed in [0u64, 3, 42, 1234] {
        let report = run(&SimConfig { seed, operator_override: true, ..SimConfig::default() });
        assert!(report.converged);
        assert_eq!(report.victim_state, BeliefState::Quarantined);
        assert_eq!(report.unresolved_residue, 0);
        assert!(report.handled_residue >= 1, "the scar must remain, marked handled");
        assert_eq!(report.overall, resonant::merge::OverallOutcome::StableWithOverride);
    }
}

#[test]
fn all_stories_pass() {
    for story in stories() {
        let report = run_story(&story);
        assert!(
            report.passed(),
            "{} failed:\n  {}\n---\n{}",
            report.name,
            report.failures.join("\n  "),
            report.lines.join("\n")
        );
    }
}

fn banned_on_a() -> Scenario {
    let mut s = conflict_scenario();
    let mut patch_members = SortedMap::new();
    patch_members.insert(
        SubjectId::new("nyx"),
        entry(BeliefState::Removed, 43, 91, 4, Quality::Strong, Diversity::CrossScope),
    );
    s.events.push(Event {
        id: "e1".to_string(),
        label: "ban".to_string(),
        description: String::new(),
        patches: Patches {
            island_a: Some(IslandPatch {
                local_epoch: Some(43),
                members: Some(patch_members),
                log: Some("A bans nyx".to_string()),
            }),
            island_b: None,
        },
    });
    s
}

#[test]
fn kernel_agrees_with_oracle_on_every_prefix_of_a_small_scenario() {
    let p = MergePolicy::lab_compat();
    assert_eq!(prefix_disagreements(&p, &conflict_scenario()), 0);
    assert_eq!(prefix_disagreements(&p, &banned_on_a()), 0);
}

#[test]
fn audit_reports_missing_golden_scenarios_and_conformance() {
    let p = MergePolicy::lab_compat();
    let corpus = vec![banned_on_a()];
    let (lines, passed) = audit_corpus(&p, &corpus);
    let cases = golden_cases();
    assert!(!passed);
    assert_eq!(lines[0], "golden outcome table:");
    for (k, case) in cases.iter().enumerate() {
        assert_eq!(lines[1 + k], format!("  FAIL {} \u{2014} missing from corpus", case.scenario_id));
    }
    assert_eq!(lines[1 + cases.len()], "kernel-vs-oracle conformance (every replay prefix):");
    assert_eq!(lines[2 + cases.len()], "  ok   mini");
    assert_eq!(lines[3 + cases.len()], format!("\n{} check(s) failed.", cases.len()));
    assert_eq!(lines.len(), 4 + cases.len());
}

#[test]
fn sim_report_reads_island_a_digest() {
    for override_on in [false, true] {
        let report = run(&SimConfig { seed: 7, operator_override: override_on, ..SimConfig::default() });
        let digest = &report.island_digests[0];
        let victim = SubjectId::new(&report.victim);
        let (state, _) = *digest.subject_summaries.get(&victim).unwrap();
        assert_eq!(report.victim_state, state);
        assert_eq!(report.unresolved_residue, digest.unhandled_residue);
        assert_eq!(report.unresolved_residue + report.handled_residue, digest.residue_ids.len());
        assert_eq!(
            matches!(
                report.overall,
                resonant::merge::OverallOutcome::StableWithOverride
                    | resonant::merge::OverallOutcome::ProvisionalWithOverride
            ),
            override_on
        );
    }
}

#[test]
fn story_corpus_scripts() {
    let all = stories();
    let lens: Vec<usize> = all.iter().map(|s| s.steps.len()).collect();
    assert_eq!(lens, vec![19, 20, 24]);
    let casts: Vec<usize> = all.iter().map(|s| s.actors.len()).collect();
    assert_eq!(casts, vec![9, 4, 4]);
    assert!(all.iter().all(|s| s.creator == "alice"));
    assert_eq!(all[2].actors, all[1].actors);
}
