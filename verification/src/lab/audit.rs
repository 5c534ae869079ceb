//! Auditing a scenario corpus: every golden case against its scenario,
//! and the kernel against the oracle on every replay prefix of every
//! scenario, with and without the operator override where one is
//! allowed.

use crate::epoch::{Epoch, Round};
use crate::lab::conformance::{
    compare, failures_against, kernel_override, reunion_ctx, run_kernel_reunion, spec_override, spec_side,
    subject_ids};
use crate::lab::golden::{case_failures, cases_view, check_case, golden_cases, golden_table, GoldenCaseV};
use crate::lab::oracle::{
    any_provisional, final_members_of, max_u64, override_applies, residues_of, residues_view,
    run_deterministic_merge, spec_overall, unhandled_of, MergedMemberV};
use crate::lab::replay::{lemma_replay_in_range, materialize, replay, scenario_in_range};
use crate::lab::scenario::{IslandViewV, Scenario};
use crate::merge::engine::{reunion_result, ReunionContextV, ReunionOutcomeV};
use crate::policy::{merge_policy_bounded, MergePolicy};
use crate::text::{decimal, push_decimal, string_of, strings_view};
use vstd::prelude::*;
use vstd::string::StringExecFns;

verus! {

/// The islands after replaying the first `n` divergence events.
pub open spec fn islands_after(s: Scenario, n: int) -> (IslandViewV, IslandViewV) {
    let (a, b, _) = replay(s.initial.island_a@, s.initial.island_b@, s.events@.subrange(0, n));
    (a, b)
}

pub open spec fn ctx_after(a: IslandViewV, b: IslandViewV, n: int) -> ReunionContextV {
    ReunionContextV {
        scope: "reunion"@,
        epoch: Epoch(max_u64(a.local_epoch, b.local_epoch)),
        round: Round(n as u64),
    }
}

/// The kernel's reunion of the islands after `n` events.
pub open spec fn kernel_after(p: MergePolicy, s: Scenario, n: int, apply: bool) -> ReunionOutcomeV {
    let (a, b) = islands_after(s, n);
    let ctx = ctx_after(a, b, n);
    reunion_result(
        p,
        ctx,
        subject_ids(s.subjects@),
        spec_side(a),
        spec_side(b),
        if override_applies(s, apply) {
            Some(spec_override(s.operator_override.unwrap(), ctx.epoch))
        } else {
            None
        },
    )
}

/// The oracle's merged members of the islands after `n` events.
pub open spec fn oracle_after(p: MergePolicy, s: Scenario, n: int, apply: bool) -> Seq<MergedMemberV> {
    let (a, b) = islands_after(s, n);
    final_members_of(p, s, a, b, apply)
}

/// How many ways the kernel and the oracle disagree after `n` events.
pub open spec fn disagreements_after(p: MergePolicy, s: Scenario, n: int, apply: bool) -> nat {
    let ms = oracle_after(p, s, n, apply);
    let unresolved = unhandled_of(residues_of(ms));
    failures_against(
        kernel_after(p, s, n, apply),
        ms,
        spec_overall(apply, unresolved.len() == 0, any_provisional(ms)),
        unresolved.len(),
    ).len()
}

/// Disagreements after `n` events, over the override settings the
/// scenario allows.
pub open spec fn step_disagreements(p: MergePolicy, s: Scenario, n: int) -> nat {
    disagreements_after(p, s, n, false) + if s.allow_operator_override {
        disagreements_after(p, s, n, true)
    } else {
        0
    }
}

/// Disagreements over the first `upto` replay prefixes.
pub open spec fn prefix_total(p: MergePolicy, s: Scenario, upto: nat) -> nat
    decreases upto,
{
    if upto == 0 {
        0
    } else {
        prefix_total(p, s, (upto - 1) as nat) + step_disagreements(p, s, upto - 1)
    }
}

pub open spec fn capped(n: nat) -> usize {
    if n <= usize::MAX {
        n as usize
    } else {
        usize::MAX
    }
}

fn disagreements_at(policy: &MergePolicy, scenario: &Scenario, steps: usize, apply: bool) -> (r: usize)
    requires
        merge_policy_bounded(*policy),
        scenario_in_range(*scenario),
        steps <= scenario.events@.len(),
    ensures
        r == disagreements_after(*policy, *scenario, steps as int, apply),
{
    let current = materialize(scenario, steps);
    proof {
        lemma_replay_in_range(*scenario, steps as int);
    }
    let oracle = run_deterministic_merge(policy, scenario, &current, apply);
    let kernel = run_kernel_reunion(policy, scenario, &current, apply);
    assert(reunion_ctx(current) == ctx_after(current.island_a@, current.island_b@, steps as int));
    assert(kernel_override(*scenario, current, apply) == (if override_applies(*scenario, apply) {
        Some(spec_override(scenario.operator_override.unwrap(), ctx_after(current.island_a@, current.island_b@, steps as int).epoch))
    } else {
        None
    }));
    assert(residues_view(oracle.digest.unresolved@).len() == oracle.digest.unresolved@.len());
    let failures = compare(&kernel, &oracle);
    assert(strings_view(failures@).len() == failures@.len());
    failures.len()
}

/// The kernel's disagreements with the oracle over every replay prefix of
/// a scenario, with and without the override where it is allowed
/// (capped at the largest count a `usize` holds).
pub fn prefix_disagreements(policy: &MergePolicy, scenario: &Scenario) -> (r: usize)
    requires
        merge_policy_bounded(*policy),
        scenario_in_range(*scenario),
    ensures
        r == capped(prefix_total(*policy, *scenario, (scenario.events@.len() + 1) as nat)),
{
    let n = scenario.events.len();
    let mut total: usize = 0;
    let mut steps: usize = 0;
    loop
        invariant
            n == scenario.events@.len(),
            steps <= n,
            merge_policy_bounded(*policy),
            scenario_in_range(*scenario),
            total == capped(prefix_total(*policy, *scenario, steps as nat)),
        decreases n - steps,
    {
        let mut here = disagreements_at(policy, scenario, steps, false);
        if scenario.allow_operator_override {
            let with = disagreements_at(policy, scenario, steps, true);
            here = here.saturating_add(with);
        }
        total = total.saturating_add(here);
        assert(total == capped(prefix_total(*policy, *scenario, (steps + 1) as nat)));
        if steps == n {
            return total;
        }
        steps = steps + 1;
    }
}

/// The first scenario in the corpus with the given id.
pub open spec fn first_with_scenario_id(corpus: Seq<Scenario>, id: Seq<char>) -> Option<int>
    decreases corpus.len(),
{
    if corpus.len() == 0 {
        None
    } else if corpus[0].id@ == id {
        Some(0)
    } else {
        match first_with_scenario_id(corpus.drop_first(), id) {
            Some(i) => Some(i + 1),
            None => None,
        }
    }
}

/// What a golden case finds wrong with the fully replayed scenario.
pub open spec fn golden_failures(p: MergePolicy, s: Scenario, c: GoldenCaseV) -> Seq<Seq<char>> {
    let (a, b, _) = replay(s.initial.island_a@, s.initial.island_b@, s.events@);
    let ms = final_members_of(p, s, a, b, c.apply_override);
    let unresolved = unhandled_of(residues_of(ms));
    case_failures(c, ms, spec_overall(c.apply_override, unresolved.len() == 0, any_provisional(ms)), unresolved.len())
}

pub open spec fn case_label(c: GoldenCaseV) -> Seq<char> {
    c.scenario_id + if c.apply_override {
        " (+override)"@
    } else {
        Seq::empty()
    }
}

pub open spec fn indented(items: Seq<Seq<char>>) -> Seq<Seq<char>> {
    items.map_values(|i: Seq<char>| "         "@ + i)
}

/// A golden case's lines, and whether it failed.
pub open spec fn case_outcome(p: MergePolicy, corpus: Seq<Scenario>, c: GoldenCaseV) -> (Seq<Seq<char>>, bool) {
    match first_with_scenario_id(corpus, c.scenario_id) {
        None => (seq!["  FAIL "@ + c.scenario_id + " \u{2014} missing from corpus"@], true),
        Some(i) => {
            let f = golden_failures(p, corpus[i], c);
            if f.len() == 0 {
                (seq!["  ok   "@ + case_label(c)], false)
            } else {
                (seq!["  FAIL "@ + case_label(c)] + indented(f), true)
            }
        },
    }
}

pub open spec fn golden_section(p: MergePolicy, corpus: Seq<Scenario>, cases: Seq<GoldenCaseV>) -> (Seq<Seq<char>>, nat)
    decreases cases.len(),
{
    if cases.len() == 0 {
        (Seq::empty(), 0)
    } else {
        let (lines, failed) = golden_section(p, corpus, cases.drop_last());
        let (more, bad) = case_outcome(p, corpus, cases.last());
        (lines + more, failed + if bad {
            1nat
        } else {
            0nat
        })
    }
}

/// A scenario's conformance line, and whether it failed.
pub open spec fn conformance_outcome(p: MergePolicy, s: Scenario) -> (Seq<char>, bool) {
    let t = capped(prefix_total(p, s, (s.events@.len() + 1) as nat));
    if t == 0 {
        ("  ok   "@ + s.id@, false)
    } else {
        ("  FAIL "@ + s.id@ + " \u{2014} "@ + decimal(t as nat) + " disagreement(s)"@, true)
    }
}

pub open spec fn conformance_section(p: MergePolicy, corpus: Seq<Scenario>) -> (Seq<Seq<char>>, nat)
    decreases corpus.len(),
{
    if corpus.len() == 0 {
        (Seq::empty(), 0)
    } else {
        let (lines, failed) = conformance_section(p, corpus.drop_last());
        let (line, bad) = conformance_outcome(p, corpus.last());
        (lines.push(line), failed + if bad {
            1nat
        } else {
            0nat
        })
    }
}

/// The corpus audit as the console shows it, and whether every check
/// passed.
pub open spec fn audit_text(p: MergePolicy, corpus: Seq<Scenario>) -> (Seq<Seq<char>>, bool) {
    let (golden, golden_failed) = golden_section(p, corpus, golden_table());
    let (conform, conform_failed) = conformance_section(p, corpus);
    let failed = golden_failed + conform_failed;
    (seq!["golden outcome table:"@] + golden + seq!["kernel-vs-oracle conformance (every replay prefix):"@]
        + conform + seq![
        if failed == 0 {
            "\nall scenarios conform."@
        } else {
            "\n"@ + decimal(failed) + " check(s) failed."@
        },
    ], failed == 0)
}

fn find_scenario(corpus: &[Scenario], id: &String) -> (r: Option<usize>)
    ensures
        match first_with_scenario_id(corpus@, id@) {
            Some(i) => 0 <= i < corpus@.len() && r == Some(i as usize),
            None => r is None,
        },
{
    let mut k: usize = 0;
    assert(corpus@.skip(0) =~= corpus@);
    while k < corpus.len()
        invariant
            k <= corpus@.len(),
            first_with_scenario_id(corpus@, id@) == match first_with_scenario_id(corpus@.skip(k as int), id@) {
                Some(i) => Some(i + k),
                None => None,
            },
        decreases corpus@.len() - k,
    {
        assert(corpus@.skip(k as int).drop_first() =~= corpus@.skip(k + 1));
        assert(corpus@.skip(k as int)[0] == corpus@[k as int]);
        if corpus[k].id == *id {
            assert(first_with_scenario_id(corpus@.skip(k as int), id@) == Some(0int));
            return Some(k);
        }
        k = k + 1;
    }
    None
}

fn push_line(out: &mut Vec<String>, line: String)
    ensures
        strings_view(final(out)@) == strings_view(old(out)@).push(line@),
{
    let ghost before = strings_view(out@);
    out.push(line);
    assert(strings_view(out@) =~= before.push(line@));
}

fn case_lines(policy: &MergePolicy, corpus: &[Scenario], case: &crate::lab::golden::GoldenCase, out: &mut Vec<String>) -> (bad: bool)
    requires
        merge_policy_bounded(*policy),
        forall|i: int| 0 <= i < corpus@.len() ==> scenario_in_range(#[trigger] corpus@[i]),
    ensures
        strings_view(final(out)@) == strings_view(old(out)@) + case_outcome(*policy, corpus@, case@).0,
        bad == case_outcome(*policy, corpus@, case@).1,
{
    let ghost start = strings_view(out@);
    match find_scenario(corpus, &case.scenario_id) {
        None => {
            let mut line = string_of("  FAIL ");
            line.append(case.scenario_id.as_str());
            line.append(" \u{2014} missing from corpus");
            push_line(out, line);
            true
        },
        Some(i) => {
            assert(scenario_in_range(corpus@[i as int]));
            let report = check_case(policy, &corpus[i], case);
            assert(first_with_scenario_id(corpus@, case@.scenario_id) == Some(i as int));
            assert(strings_view(report.failures@) == golden_failures(*policy, corpus@[i as int], case@));
            assert(strings_view(report.failures@).len() == report.failures@.len());
            let mut label = string_of(case.scenario_id.as_str());
            if case.apply_override {
                label.append(" (+override)");
            }
            assert(label@ == case_label(case@));
            if report.passed() {
                let mut line = string_of("  ok   ");
                line.append(label.as_str());
                push_line(out, line);
                assert(strings_view(out@) =~= start + case_outcome(*policy, corpus@, case@).0);
                false
            } else {
                let mut line = string_of("  FAIL ");
                line.append(label.as_str());
                push_line(out, line);
                let ghost mid = strings_view(out@);
                let ghost fv = strings_view(report.failures@);
                let mut j: usize = 0;
                while j < report.failures.len()
                    invariant
                        j <= report.failures@.len(),
                        fv == strings_view(report.failures@),
                        strings_view(out@) == mid + indented(fv.subrange(0, j as int)),
                    decreases report.failures@.len() - j,
                {
                    let mut l = string_of("         ");
                    l.append(report.failures[j].as_str());
                    push_line(out, l);
                    assert(indented(fv.subrange(0, j + 1)) =~= indented(fv.subrange(0, j as int)).push(
                        "         "@ + fv[j as int],
                    ));
                    j = j + 1;
                }
                assert(fv.subrange(0, j as int) =~= fv);
                assert(strings_view(out@) =~= start + case_outcome(*policy, corpus@, case@).0);
                true
            }
        },
    }
}

fn golden_lines(policy: &MergePolicy, corpus: &[Scenario], out: &mut Vec<String>) -> (failed: usize)
    requires
        merge_policy_bounded(*policy),
        forall|i: int| 0 <= i < corpus@.len() ==> scenario_in_range(#[trigger] corpus@[i]),
    ensures
        strings_view(final(out)@) == strings_view(old(out)@) + golden_section(*policy, corpus@, golden_table()).0,
        failed == golden_section(*policy, corpus@, golden_table()).1,
        failed <= golden_table().len(),
{
    let cases = golden_cases();
    let ghost table = cases_view(cases@);
    let ghost start = strings_view(out@);
    let mut failed: usize = 0;
    let mut k: usize = 0;
    while k < cases.len()
        invariant
            k <= cases@.len(),
            table == cases_view(cases@),
            table == golden_table(),
            merge_policy_bounded(*policy),
            forall|i: int| 0 <= i < corpus@.len() ==> scenario_in_range(#[trigger] corpus@[i]),
            strings_view(out@) == start + golden_section(*policy, corpus@, table.subrange(0, k as int)).0,
            failed == golden_section(*policy, corpus@, table.subrange(0, k as int)).1,
            failed <= k,
        decreases cases@.len() - k,
    {
        let case = &cases[k];
        let ghost c = table[k as int];
        assert(case@ == c);
        assert(table.subrange(0, k + 1).drop_last() =~= table.subrange(0, k as int));
        if case_lines(policy, corpus, case, out) {
            failed = failed + 1;
        }
        k = k + 1;
        assert(strings_view(out@) =~= start + golden_section(*policy, corpus@, table.subrange(0, k as int)).0);
    }
    assert(table.subrange(0, k as int) =~= table);
    failed
}

fn conformance_lines(policy: &MergePolicy, corpus: &[Scenario], out: &mut Vec<String>) -> (failed: usize)
    requires
        merge_policy_bounded(*policy),
        forall|i: int| 0 <= i < corpus@.len() ==> scenario_in_range(#[trigger] corpus@[i]),
    ensures
        strings_view(final(out)@) == strings_view(old(out)@) + conformance_section(*policy, corpus@).0,
        failed == conformance_section(*policy, corpus@).1,
        failed <= corpus@.len(),
{
    let ghost start = strings_view(out@);
    let mut failed: usize = 0;
    let mut k: usize = 0;
    while k < corpus.len()
        invariant
            k <= corpus@.len(),
            merge_policy_bounded(*policy),
            forall|i: int| 0 <= i < corpus@.len() ==> scenario_in_range(#[trigger] corpus@[i]),
            strings_view(out@) == start + conformance_section(*policy, corpus@.subrange(0, k as int)).0,
            failed == conformance_section(*policy, corpus@.subrange(0, k as int)).1,
            failed <= k,
        decreases corpus@.len() - k,
    {
        let s = &corpus[k];
        assert(scenario_in_range(corpus@[k as int]));
        assert(corpus@.subrange(0, k + 1).drop_last() =~= corpus@.subrange(0, k as int));
        let t = prefix_disagreements(policy, s);
        if t == 0 {
            let mut line = string_of("  ok   ");
            line.append(s.id.as_str());
            push_line(out, line);
        } else {
            let mut line = string_of("  FAIL ");
            line.append(s.id.as_str());
            line.append(" \u{2014} ");
            push_decimal(&mut line, t as u64);
            line.append(" disagreement(s)");
            push_line(out, line);
            failed = failed + 1;
        }
        k = k + 1;
        assert(strings_view(out@) =~= start + conformance_section(*policy, corpus@.subrange(0, k as int)).0);
    }
    assert(corpus@.subrange(0, k as int) =~= corpus@);
    failed
}

/// Audit a scenario corpus: the golden outcome table, then kernel/oracle
/// conformance on every replay prefix. Returns the console lines and
/// whether every check passed.
pub fn audit_corpus(policy: &MergePolicy, corpus: &[Scenario]) -> (r: (Vec<String>, bool))
    requires
        merge_policy_bounded(*policy),
        forall|i: int| 0 <= i < corpus@.len() ==> scenario_in_range(#[trigger] corpus@[i]),
        corpus@.len() + golden_table().len() <= usize::MAX,
    ensures
        strings_view(r.0@) == audit_text(*policy, corpus@).0,
        r.1 == audit_text(*policy, corpus@).1,
{
    let mut out: Vec<String> = Vec::new();
    push_line(&mut out, string_of("golden outcome table:"));
    let golden_failed = golden_lines(policy, corpus, &mut out);
    push_line(&mut out, string_of("kernel-vs-oracle conformance (every replay prefix):"));
    let conform_failed = conformance_lines(policy, corpus, &mut out);
    let failed = golden_failed + conform_failed;
    if failed == 0 {
        push_line(&mut out, string_of("\nall scenarios conform."));
    } else {
        let mut line = string_of("\n");
        push_decimal(&mut line, failed as u64);
        line.append(" check(s) failed.");
        push_line(&mut out, line);
    }
    assert(strings_view(out@) =~= audit_text(*policy, corpus@).0);
    (out, failed == 0)
}

} // verus!
