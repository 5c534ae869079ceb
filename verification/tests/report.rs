//! The scenario run report, held against Rust's own formatting of the
//! same values.

use resonant::belief::BeliefState;
use resonant::collections::SortedMap;
use resonant::evidence::{Diversity, Quality, WitnessSummary};
use resonant::id::SubjectId;
use resonant::lab::oracle::{build_naive_comparison, compute_island_digest, run_deterministic_merge, OverallOutcome, Stability};
use resonant::lab::golden::outcome_debug_str;
use resonant::lab::replay::materialize;
use resonant::lab::report::{
    island_line, override_target_undisputed, run_report, stability_str, str_contains,
};
use resonant::lab::scenario::{InitialState, IslandView, MemberEntry, OperatorOverride, Scenario, Scope, Subject};
use resonant::epoch::{Epoch, Round};
use resonant::id::PeerId;
use resonant::lab::report::{index_lines, rank_report, sim_report_lines};
use resonant::lab::scenario::{IndexEntry, ScenarioIndex};
use resonant::lab::sim::{run as run_sim, SimConfig};
use resonant::policy::MergePolicy;
use resonant::rank::{permutation_rank, RankDomain, RankSeed};
use resonant::scope::ScopeId;
use resonant::text::{push_padded, push_right_aligned};

fn entry(status: BeliefState, epoch: u64, trust: i64) -> MemberEntry {
    MemberEntry {
        status,
        epoch,
        trust_weight: trust,
        scope: Scope::Global,
        witness_summary: WitnessSummary { count: 4, quality: Quality::Strong, diversity: Diversity::CrossScope },
        explanation: String::from("seen"),
    }
}

fn island(label: &str, epoch: u64, members: Vec<(&str, MemberEntry)>) -> IslandView {
    let mut m = SortedMap::new();
    for (id, e) in members {
        m.insert(SubjectId::new(id), e);
    }
    IslandView { label: label.to_string(), scope: Scope::Global, local_epoch: epoch, members: m }
}

fn conflict_scenario() -> Scenario {
    let a = island(
        "Island A",
        42,
        vec![("nyx", entry(BeliefState::Accepted, 42, 90)), ("oak", entry(BeliefState::Accepted, 40, 70))],
    );
    let b = island(
        "Island B",
        42,
        vec![("nyx", entry(BeliefState::Quarantined, 42, 88)), ("oak", entry(BeliefState::Accepted, 41, 72))],
    );
    Scenario {
        id: "mini".to_string(),
        title: "A small dispute".to_string(),
        summary: "Two islands disagree about nyx.".to_string(),
        difference_from_quorum_lab: String::new(),
        notes: vec![],
        allow_operator_override: true,
        operator_override: Some(OperatorOverride {
            subject_id: "nyx".to_string(),
            status: BeliefState::Quarantined,
            reason: "operator quarantines nyx".to_string(),
        }),
        expected_merge_tensions: vec![],
        subjects: vec![
            Subject { id: "nyx".to_string(), label: "Nyx".to_string(), role: "node".to_string(), domain: "c".to_string() },
            Subject { id: "oak".to_string(), label: "Oak".to_string(), role: "node".to_string(), domain: "c".to_string() },
        ],
        initial: InitialState { policy_name: "lab".to_string(), policy_summary: String::new(), island_a: a, island_b: b },
        events: vec![],
    }
}

#[test]
fn padding_matches_the_formatter() {
    let mut left = String::new();
    push_padded(&mut left, "nyx", 10);
    assert_eq!(left, format!("{:10}", "nyx"));
    let mut long = String::new();
    push_padded(&mut long, "a-very-long-label", 5);
    assert_eq!(long, format!("{:5}", "a-very-long-label"));
    let mut right = String::new();
    push_right_aligned(&mut right, "42", 5);
    assert_eq!(right, format!("{:5}", 42));
}

#[test]
fn names_of_stability_and_outcome() {
    assert_eq!(stability_str(Stability::StableWithOverride), "stablewithoverride");
    assert_eq!(stability_str(Stability::Provisional), format!("{:?}", Stability::Provisional).to_lowercase());
    assert_eq!(outcome_debug_str(OverallOutcome::ProvisionalWithOverride), "ProvisionalWithOverride");
}

#[test]
fn island_lines_show_counts_by_state_name() {
    let s = conflict_scenario();
    let current = materialize(&s, 0);
    let counts = compute_island_digest(&current.island_b);
    let summary: Vec<String> = counts.iter().map(|(status, n)| format!("{n} {status}")).collect();
    assert_eq!(
        island_line(&current.island_b),
        format!("{:9} epoch {:4}  {}", current.island_b.label, current.island_b.local_epoch, summary.join(", "))
    );
    assert_eq!(island_line(&current.island_b), "Island B  epoch   42  1 accepted, 1 quarantined");
}

#[test]
fn report_lays_out_every_section() {
    let p = MergePolicy::lab_compat();
    let s = conflict_scenario();
    let current = materialize(&s, 0);
    let merge = run_deterministic_merge(&p, &s, &current, false);
    let naive = build_naive_comparison(&s, &current, &merge);
    let lines = run_report(&s, &current, &merge, &[], Some(&naive));
    assert_eq!(lines[0], "mini \u{2014} A small dispute");
    assert_eq!(lines[1], "Two islands disagree about nyx.\n");
    assert_eq!(lines[2], "replayed 0 of 0 divergence event(s)\n");
    assert_eq!(lines[5], "\nmerged view:");
    assert_eq!(
        lines[6],
        format!("  {:10} {:12} {:9} {:22} {:5} {:5}", "subject", "status", "source", "stability", "epoch", "trust")
    );
    for (k, m) in merge.members.iter().enumerate() {
        assert_eq!(
            lines[7 + k],
            format!(
                "  {:10} {:12} {:9} {:22} {:5} {:5}",
                m.subject_label,
                m.status.as_str(),
                m.source.as_str(),
                format!("{:?}", m.stability).to_lowercase(),
                m.epoch,
                m.trust_weight
            )
        );
    }
    let at = 7 + merge.members.len();
    assert_eq!(lines[at], "\nvisible residue:");
    let r = &merge.residues[0];
    assert_eq!(lines[at + 1], format!("  {}\n    {}", r.subject_label, r.detail));
    assert_eq!(lines[at + 2], "\nrepair digest:");
    assert_eq!(lines[at + 3], format!("  outcome: {:?}", merge.digest.overall_outcome));
    assert_eq!(lines[at + 4], format!("  input:   {}", merge.digest.inputs[0]));
    let check = lines.iter().position(|l| l.starts_with("\nkernel cross-check")).unwrap();
    assert_eq!(lines[check], "\nkernel cross-check: the typed merge engine agrees with the lab oracle.");
    assert_eq!(lines[check + 1], "\nnaive reunion (\"latest or loudest wins\"):");
    assert_eq!(lines[check + 4], "  differences:");
    let d = &naive.diffs[0];
    assert_eq!(
        lines[check + 5],
        format!(
            "    {}: naive {} vs deterministic {} \u{2014} {}",
            d.subject_label,
            d.naive_status.as_str(),
            d.deterministic_status.as_str(),
            d.note
        )
    );
    assert_eq!(lines.len(), check + 6);
}

#[test]
fn failed_cross_check_ends_the_report() {
    let p = MergePolicy::lab_compat();
    let s = conflict_scenario();
    let current = materialize(&s, 0);
    let merge = run_deterministic_merge(&p, &s, &current, false);
    let naive = build_naive_comparison(&s, &current, &merge);
    let failures = vec!["nyx: state differs".to_string()];
    let lines = run_report(&s, &current, &merge, &failures, Some(&naive));
    let n = lines.len();
    assert_eq!(lines[n - 2], "\nkernel cross-check FAILED:");
    assert_eq!(lines[n - 1], "  nyx: state differs");
}

#[test]
fn clean_merge_says_so() {
    let p = MergePolicy::lab_compat();
    let mut s = conflict_scenario();
    s.initial.island_b = island("Island B", 42, vec![("oak", entry(BeliefState::Accepted, 41, 72))]);
    s.initial.island_a = island("Island A", 42, vec![("oak", entry(BeliefState::Accepted, 40, 70))]);
    let current = materialize(&s, 0);
    let merge = run_deterministic_merge(&p, &s, &current, false);
    let lines = run_report(&s, &current, &merge, &[], None);
    assert!(lines.contains(&"  (none \u{2014} every path converged cleanly)".to_string()));
    assert_eq!(lines.last().unwrap(), "\nkernel cross-check: the typed merge engine agrees with the lab oracle.");
}

#[test]
fn override_warning_needs_an_undisputed_target() {
    let p = MergePolicy::lab_compat();
    let s = conflict_scenario();
    let current = materialize(&s, 0);
    let forced = run_deterministic_merge(&p, &s, &current, true);
    assert!(!override_target_undisputed(&forced, &"nyx".to_string()));
    assert!(override_target_undisputed(&forced, &"oak".to_string()));
    assert!(!override_target_undisputed(&forced, &"nobody".to_string()));
    assert!(str_contains("OperatorOverride applied visibly.", "OperatorOverride"));
    assert!(str_contains("abc", ""));
    assert!(!str_contains("Operator", "OperatorOverride"));
}

fn seed() -> RankSeed {
    RankSeed {
        domain: RankDomain::WitnessSelection,
        scope: ScopeId::new("room"),
        subject: None,
        epoch: Epoch(3),
        round: Round(7),
    }
}

#[test]
fn rank_report_matches_the_console_layout() {
    let pool: Vec<PeerId> = ["alice", "bob", "carol"].iter().map(|c| PeerId::new(c)).collect();
    let selection = permutation_rank(seed(), pool, vec![], 2);
    let (lines, ok) = rank_report("room", 3, 7, &selection, 2, true);
    assert!(ok);
    assert_eq!(lines[0], "rank seed: domain=witness-selection scope=room epoch=3 round=7");
    assert_eq!(lines[1], "selected 2 of 3:");
    for (position, (peer, token)) in selection.ranked.iter().enumerate() {
        let mark = if position < 2 { "*" } else { " " };
        assert_eq!(
            lines[2 + position],
            format!("  {mark} {position:2}. {:12} token {}", peer.as_str(), token.short_hex())
        );
    }
    assert_eq!(
        lines[5],
        "reconstruction: ok \u{2014} any observer holding the seed and pool derives this exact order"
    );
    assert_eq!(lines[6], "hint: change --round to watch the order rotate (hotspot damping).");
    let (plain, ok) = rank_report("room", 3, 7, &selection, 2, false);
    assert!(ok);
    assert_eq!(plain.len(), 5);
    assert_eq!(plain[4], format!("  {} {:2}. {}", " ", 2, selection.ranked[2].0.as_str()));
}

#[test]
fn sim_summary_lines() {
    let report = run_sim(&SimConfig { seed: 7, nodes: 5, subjects: 4, operator_override: false });
    let lines = sim_report_lines(&report);
    assert_eq!(lines[0], "resonant sim (seed 7):");
    for (k, line) in report.narrative.iter().enumerate() {
        assert_eq!(lines[1 + k], format!("  {line}"));
    }
    let at = 1 + report.narrative.len();
    assert_eq!(lines[at], format!("\n  victim {} -> {}", report.victim, report.victim_state.as_str()));
    assert_eq!(
        lines[at + 1],
        format!("  residue: {} unresolved, {} handled by override", report.unresolved_residue, report.handled_residue)
    );
    assert_eq!(lines[at + 2], format!("  overall: {:?}", report.overall));
    assert_eq!(
        lines[at + 3],
        format!(
            "  islands converged: {} (content hashes {})",
            report.converged,
            if report.converged { "match" } else { "differ" }
        )
    );
    assert_eq!(
        lines[at + 4],
        format!("  transcript heads: island A {} / island B {}", report.transcript_heads[0], report.transcript_heads[1])
    );
}

#[test]
fn corpus_listing() {
    let index = ScenarioIndex {
        lab: "resonant-lab".to_string(),
        scenarios: vec![IndexEntry { id: "clean".to_string(), title: "Clean reunion".to_string(), path: "clean.json".to_string() }],
    };
    let lines = index_lines(&index, "docs/scenarios");
    assert_eq!(lines, vec![
        "scenario corpus: resonant-lab (docs/scenarios)".to_string(),
        format!("  {:44} {}", "clean", "Clean reunion"),
    ]);
}
