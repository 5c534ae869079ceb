//! Hand-derived golden outcomes for the scenario corpus.
//!
//! Each expectation was derived by hand-executing the lab's merge
//! semantics over the scenario files (entry scores noted inline so a
//! failing diff is self-explanatory). Shared by the conformance tests and
//! by the command-line scenario verifier.

use crate::belief::state::{state_name, BeliefState};
use crate::lab::oracle::{
    any_provisional, final_members_of, first_with_id, members_view, residues_of, run_deterministic_merge,
    spec_overall, unhandled_of, MergedMember, MergedMemberV, OverallOutcome,
    Source, Stability};
use crate::lab::replay::{materialize, replay, scenario_in_range};
use crate::lab::scenario::Scenario;
use crate::policy::{merge_policy_bounded, MergePolicy};
use crate::text::{bool_str, bool_text, decimal, push_decimal, string_of, strings_view};
use vstd::prelude::*;
use vstd::string::StringExecFns;

verus! {

pub struct GoldenSubject {
    pub subject_id: String,
    pub status: BeliefState,
    pub source: Source,
    pub stability: Stability,
    pub has_residue: bool,
}

pub struct GoldenSubjectV {
    pub subject_id: Seq<char>,
    pub status: BeliefState,
    pub source: Source,
    pub stability: Stability,
    pub has_residue: bool,
}

impl View for GoldenSubject {
    type V = GoldenSubjectV;

    open spec fn view(&self) -> GoldenSubjectV {
        GoldenSubjectV {
            subject_id: self.subject_id@,
            status: self.status,
            source: self.source,
            stability: self.stability,
            has_residue: self.has_residue,
        }
    }
}

pub struct GoldenCase {
    pub scenario_id: String,
    pub apply_override: bool,
    pub overall: OverallOutcome,
    pub unresolved_count: usize,
    pub subjects: Vec<GoldenSubject>,
}

pub struct GoldenCaseV {
    pub scenario_id: Seq<char>,
    pub apply_override: bool,
    pub overall: OverallOutcome,
    pub unresolved_count: usize,
    pub subjects: Seq<GoldenSubjectV>,
}

impl View for GoldenCase {
    type V = GoldenCaseV;

    open spec fn view(&self) -> GoldenCaseV {
        GoldenCaseV {
            scenario_id: self.scenario_id@,
            apply_override: self.apply_override,
            overall: self.overall,
            unresolved_count: self.unresolved_count,
            subjects: self.subjects@.map_values(|g: GoldenSubject| g@),
        }
    }
}

pub open spec fn row(id: Seq<char>, status: BeliefState, source: Source, stability: Stability, has_residue: bool) -> GoldenSubjectV {
    GoldenSubjectV { subject_id: id, status, source, stability, has_residue }
}

/// A subject both islands accept alike: accepted, from both, stable, no residue.
pub open spec fn clean_row(id: Seq<char>) -> GoldenSubjectV {
    row(id, BeliefState::Accepted, Source::Both, Stability::Stable, false)
}

/// The five corpus subjects, all clean except `odd`, which gets `special`.
pub open spec fn rows_with(odd: Seq<char>, special: GoldenSubjectV) -> Seq<GoldenSubjectV> {
    seq!["iona"@, "kestrel"@, "lumen"@, "morrow"@, "nyx"@].map_values(
        |id: Seq<char>| if id == odd { special } else { clean_row(id) },
    )
}

pub open spec fn case(id: Seq<char>, apply_override: bool, overall: OverallOutcome, unresolved_count: usize, subjects: Seq<GoldenSubjectV>) -> GoldenCaseV {
    GoldenCaseV { scenario_id: id, apply_override, overall, unresolved_count, subjects }
}

/// The golden table, all cases at full replay.
pub open spec fn golden_table() -> Seq<GoldenCaseV> {
    seq![
        case("deterministic-reunion-clean"@, false, OverallOutcome::Stable, 0, rows_with(""@, clean_row(""@))),
        case(
            "deterministic-reunion-stale-witness"@,
            false,
            OverallOutcome::Provisional,
            1,
            rows_with("morrow"@, row("morrow"@, BeliefState::Provisional, Source::IslandA, Stability::Provisional, true)),
        ),
        case(
            "deterministic-reunion-conflicting-acceptance"@,
            false,
            OverallOutcome::Provisional,
            1,
            rows_with("nyx"@, row("nyx"@, BeliefState::Disputed, Source::Both, Stability::Provisional, true)),
        ),
        case(
            "deterministic-reunion-trust-laundering"@,
            false,
            OverallOutcome::Provisional,
            1,
            rows_with("lumen"@, row("lumen"@, BeliefState::Provisional, Source::IslandA, Stability::Provisional, true)),
        ),
        case(
            "deterministic-reunion-operator-override"@,
            false,
            OverallOutcome::Provisional,
            1,
            rows_with("kestrel"@, row("kestrel"@, BeliefState::Disputed, Source::Both, Stability::Provisional, true)),
        ),
        case(
            "deterministic-reunion-operator-override"@,
            true,
            OverallOutcome::StableWithOverride,
            0,
            rows_with(
                "kestrel"@,
                row("kestrel"@, BeliefState::Quarantined, Source::Override, Stability::StableWithOverride, true),
            ),
        ),
        case(
            "deterministic-reunion-epoch-race"@,
            false,
            OverallOutcome::Provisional,
            1,
            rows_with("iona"@, row("iona"@, BeliefState::Removed, Source::IslandA, Stability::Stable, true)),
        ),
    ]
}

fn name_eq(a: &str, b: &str) -> (r: bool)
    ensures
        r == (a@ == b@),
{
    string_of(a) == string_of(b)
}

fn golden_row(id: &str, status: BeliefState, source: Source, stability: Stability, has_residue: bool) -> (r: GoldenSubject)
    ensures
        r@ == row(id@, status, source, stability, has_residue),
{
    GoldenSubject { subject_id: string_of(id), status, source, stability, has_residue }
}

/// The five corpus subjects in order, all clean except `odd`.
fn subjects_with(odd: &str, status: BeliefState, source: Source, stability: Stability, has_residue: bool) -> (r: Vec<GoldenSubject>)
    ensures
        r@.map_values(|g: GoldenSubject| g@) == rows_with(odd@, row(odd@, status, source, stability, has_residue)),
{
    let names: [&str; 5] = ["iona", "kestrel", "lumen", "morrow", "nyx"];
    let ghost nv = seq!["iona"@, "kestrel"@, "lumen"@, "morrow"@, "nyx"@];
    let ghost special = row(odd@, status, source, stability, has_residue);
    let ghost f = |id: Seq<char>| if id == odd@ { special } else { clean_row(id) };
    assert(names@.map_values(|s: &str| s@) =~= nv);
    let mut out: Vec<GoldenSubject> = Vec::new();
    let mut i: usize = 0;
    while i < 5
        invariant
            i <= 5,
            names@.map_values(|s: &str| s@) == nv,
            f == (|id: Seq<char>| if id == odd@ { special } else { clean_row(id) }),
            special == row(odd@, status, source, stability, has_residue),
            out@.map_values(|g: GoldenSubject| g@) == nv.subrange(0, i as int).map_values(f),
        decreases 5 - i,
    {
        let name = names[i];
        assert(name@ == nv[i as int]);
        let ghost before = out@;
        let g = if name_eq(name, odd) {
            golden_row(name, status, source, stability, has_residue)
        } else {
            golden_row(name, BeliefState::Accepted, Source::Both, Stability::Stable, false)
        };
        assert(g@ == f(nv[i as int]));
        out.push(g);
        proof {
            assert(out@.map_values(|g: GoldenSubject| g@) =~= before.map_values(|g: GoldenSubject| g@).push(f(nv[i as int])));
            assert(nv.subrange(0, i + 1).map_values(f) =~= nv.subrange(0, i as int).map_values(f).push(f(nv[i as int])));
        }
        i = i + 1;
    }
    assert(nv.subrange(0, 5) =~= nv);
    out
}


fn golden_case(id: &str, apply_override: bool, overall: OverallOutcome, unresolved_count: usize, subjects: Vec<GoldenSubject>) -> (r: GoldenCase)
    ensures
        r@ == case(id@, apply_override, overall, unresolved_count, subjects@.map_values(|g: GoldenSubject| g@)),
{
    GoldenCase { scenario_id: string_of(id), apply_override, overall, unresolved_count, subjects }
}

pub open spec fn cases_view(v: Seq<GoldenCase>) -> Seq<GoldenCaseV> {
    v.map_values(|c: GoldenCase| c@)
}

/// The golden table, all cases at full replay.
pub fn golden_cases() -> (r: Vec<GoldenCase>)
    ensures
        cases_view(r@) == golden_table(),
{
    let mut r: Vec<GoldenCase> = Vec::new();
    // 1. Clean reunion: every subject converges accepted/both/stable.
    //    iona A 140 vs B 141, kestrel A 138 vs B 136, lumen A 139 vs B 137,
    //    morrow A 119 vs B 120, nyx A 101 vs B 136.
    r.push(golden_case(
        "deterministic-reunion-clean",
        false,
        OverallOutcome::Stable,
        0,
        subjects_with("", BeliefState::Accepted, Source::Both, Stability::Stable, false),
    ));
    // 2. Stale witness: fresher provisional (A, e42, score 126) beats stale
    //    acceptance (B, e40, score 60); recontact does not restore innocence.
    r.push(golden_case(
        "deterministic-reunion-stale-witness",
        false,
        OverallOutcome::Provisional,
        1,
        subjects_with("morrow", BeliefState::Provisional, Source::IslandA, Stability::Provisional, true),
    ));
    // 3. Conflicting acceptance: same-epoch accepted (A, 140) vs quarantined
    //    (B, 138), delta 2 < 14 -> honest dispute.
    r.push(golden_case(
        "deterministic-reunion-conflicting-acceptance",
        false,
        OverallOutcome::Provisional,
        1,
        subjects_with("nyx", BeliefState::Disputed, Source::Both, Stability::Provisional, true),
    ));
    // 4. Trust laundering: 2 strong cross-scope witnesses (A, 112) beat 6
    //    laundered ones (B, 47): quality dominates count.
    r.push(golden_case(
        "deterministic-reunion-trust-laundering",
        false,
        OverallOutcome::Provisional,
        1,
        subjects_with("lumen", BeliefState::Provisional, Source::IslandA, Stability::Provisional, true),
    ));
    // 5a. Override scenario without the override: regional acceptance
    //     (A, 117) vs global removal (B, 111) at the same epoch, delta 6 < 14.
    r.push(golden_case(
        "deterministic-reunion-operator-override",
        false,
        OverallOutcome::Provisional,
        1,
        subjects_with("kestrel", BeliefState::Disputed, Source::Both, Stability::Provisional, true),
    ));
    // 5b. With the override: quarantine forced visibly; the residue is
    //     marked handled, never erased.
    r.push(golden_case(
        "deterministic-reunion-operator-override",
        true,
        OverallOutcome::StableWithOverride,
        0,
        subjects_with("kestrel", BeliefState::Quarantined, Source::Override, Stability::StableWithOverride, true),
    ));
    // 6. Epoch race: newer removal (A, e84, 139) dominates older acceptance
    //    (B, e83, 136 >= 139-6): stable with a visible race scar.
    r.push(golden_case(
        "deterministic-reunion-epoch-race",
        false,
        OverallOutcome::Provisional,
        1,
        subjects_with("iona", BeliefState::Removed, Source::IslandA, Stability::Stable, true),
    ));
    assert(cases_view(r@) =~= golden_table());
    r
}

/// Failures found when checking one golden case against the oracle.
pub struct CaseReport {
    pub scenario_id: String,
    pub apply_override: bool,
    pub failures: Vec<String>,
}

impl CaseReport {
    pub fn passed(&self) -> (r: bool)
        ensures
            r == (self.failures@.len() == 0),
    {
        self.failures.len() == 0
    }
}

pub open spec fn outcome_debug(o: OverallOutcome) -> Seq<char> {
    match o {
        OverallOutcome::Stable => "Stable"@,
        OverallOutcome::Provisional => "Provisional"@,
        OverallOutcome::StableWithOverride => "StableWithOverride"@,
        OverallOutcome::ProvisionalWithOverride => "ProvisionalWithOverride"@,
    }
}

pub open spec fn source_debug(s: Source) -> Seq<char> {
    match s {
        Source::Neither => "None"@,
        Source::IslandA => "IslandA"@,
        Source::IslandB => "IslandB"@,
        Source::Both => "Both"@,
        Source::Override => "Override"@,
    }
}

pub open spec fn stability_debug(s: Stability) -> Seq<char> {
    match s {
        Stability::Stable => "Stable"@,
        Stability::Provisional => "Provisional"@,
        Stability::StableWithOverride => "StableWithOverride"@,
    }
}

pub fn outcome_debug_str(o: OverallOutcome) -> (r: &'static str)
    ensures
        r@ == outcome_debug(o),
{
    match o {
        OverallOutcome::Stable => "Stable",
        OverallOutcome::Provisional => "Provisional",
        OverallOutcome::StableWithOverride => "StableWithOverride",
        OverallOutcome::ProvisionalWithOverride => "ProvisionalWithOverride",
    }
}

fn source_debug_str(s: Source) -> (r: &'static str)
    ensures
        r@ == source_debug(s),
{
    match s {
        Source::Neither => "None",
        Source::IslandA => "IslandA",
        Source::IslandB => "IslandB",
        Source::Both => "Both",
        Source::Override => "Override",
    }
}

fn stability_debug_str(s: Stability) -> (r: &'static str)
    ensures
        r@ == stability_debug(s),
{
    match s {
        Stability::Stable => "Stable",
        Stability::Provisional => "Provisional",
        Stability::StableWithOverride => "StableWithOverride",
    }
}

pub open spec fn when(c: bool, line: Seq<char>) -> Seq<Seq<char>> {
    if c {
        seq![line]
    } else {
        Seq::empty()
    }
}

/// The mismatches for one expected subject.
pub open spec fn subject_failures(g: GoldenSubjectV, ms: Seq<MergedMemberV>) -> Seq<Seq<char>> {
    match first_with_id(ms, g.subject_id) {
        None => seq!["subject "@ + g.subject_id + " missing from merge output"@],
        Some(i) => {
            let m = ms[i];
            when(
                m.status != g.status,
                g.subject_id + ": status expected "@ + state_name(g.status) + ", got "@ + state_name(m.status),
            ) + when(
                m.source != g.source,
                g.subject_id + ": source expected "@ + source_debug(g.source) + ", got "@ + source_debug(m.source),
            ) + when(
                m.stability != g.stability,
                g.subject_id + ": stability expected "@ + stability_debug(g.stability) + ", got "@
                    + stability_debug(m.stability),
            ) + when(
                (m.residue is Some) != g.has_residue,
                g.subject_id + ": residue expected "@ + bool_text(g.has_residue) + ", got "@ + bool_text(
                    m.residue is Some,
                ),
            )
        },
    }
}

pub open spec fn subjects_failures(gs: Seq<GoldenSubjectV>, ms: Seq<MergedMemberV>) -> Seq<Seq<char>>
    decreases gs.len(),
{
    if gs.len() == 0 {
        Seq::empty()
    } else {
        subjects_failures(gs.drop_last(), ms) + subject_failures(gs.last(), ms)
    }
}

/// Every way the oracle's merge misses a golden case.
pub open spec fn case_failures(c: GoldenCaseV, ms: Seq<MergedMemberV>, overall: OverallOutcome, unresolved: nat) -> Seq<Seq<char>> {
    when(
        overall != c.overall,
        "overall outcome: expected "@ + outcome_debug(c.overall) + ", got "@ + outcome_debug(overall),
    ) + when(
        unresolved != c.unresolved_count,
        "unresolved residue: expected "@ + decimal(c.unresolved_count as nat) + ", got "@ + decimal(unresolved),
    ) + subjects_failures(c.subjects, ms)
}

fn push_when(out: &mut Vec<String>, cond: bool, line: String)
    ensures
        strings_view(final(out)@) == strings_view(old(out)@) + when(cond, line@),
{
    let ghost before = out@;
    if cond {
        out.push(line);
    }
    assert(strings_view(out@) =~= strings_view(before) + when(cond, line@));
}

fn expected_line(id: &String, label: &str, expected: &str, got: &str) -> (r: String)
    ensures
        r@ == id@ + label@ + expected@ + ", got "@ + got@,
{
    let mut line = id.clone();
    line.append(label);
    line.append(expected);
    line.append(", got ");
    line.append(got);
    line
}

fn check_subject(g: &GoldenSubject, members: &Vec<MergedMember>, out: &mut Vec<String>)
    ensures
        strings_view(final(out)@) == strings_view(old(out)@) + subject_failures(g@, members_view(members@)),
{
    let ghost start = strings_view(out@);
    let ghost mv = members_view(members@);
    let found = crate::lab::oracle::find_member(members, &g.subject_id);
    let k = match found {
        Some(k) => k,
        None => {
            let mut line = string_of("subject ");
            line.append(g.subject_id.as_str());
            line.append(" missing from merge output");
            out.push(line);
            assert(strings_view(out@) =~= start + subject_failures(g@, mv));
            return;
        },
    };
    let m = &members[k];
    assert(mv[k as int] == m@);
    push_when(
        out,
        m.status != g.status,
        expected_line(&g.subject_id, ": status expected ", g.status.as_str(), m.status.as_str()),
    );
    push_when(
        out,
        m.source != g.source,
        expected_line(&g.subject_id, ": source expected ", source_debug_str(g.source), source_debug_str(m.source)),
    );
    push_when(
        out,
        m.stability != g.stability,
        expected_line(
            &g.subject_id,
            ": stability expected ",
            stability_debug_str(g.stability),
            stability_debug_str(m.stability),
        ),
    );
    let has = m.residue.is_some();
    push_when(
        out,
        has != g.has_residue,
        expected_line(&g.subject_id, ": residue expected ", bool_str(g.has_residue), bool_str(has)),
    );
    assert(strings_view(out@) =~= start + subject_failures(g@, mv));
}

/// Run the oracle at full replay for one golden case and compare.
pub fn check_case(policy: &MergePolicy, scenario: &Scenario, case: &GoldenCase) -> (r: CaseReport)
    requires
        merge_policy_bounded(*policy),
        scenario_in_range(*scenario),
    ensures
        r.scenario_id@ == case@.scenario_id,
        r.apply_override == case.apply_override,
        ({
            let (a, b, _) = replay(scenario.initial.island_a@, scenario.initial.island_b@, scenario.events@);
            let ms = final_members_of(*policy, *scenario, a, b, case.apply_override);
            let unresolved = unhandled_of(residues_of(ms));
            strings_view(r.failures@) == case_failures(
                case@,
                ms,
                spec_overall(case.apply_override, unresolved.len() == 0, any_provisional(ms)),
                unresolved.len(),
            )
        }),
{
    let current = materialize(scenario, scenario.events.len());
    assert(scenario.events@.subrange(0, scenario.events@.len() as int) =~= scenario.events@);
    proof {
        crate::lab::replay::lemma_replay_in_range(*scenario, scenario.events@.len() as int);
    }
    let merge = run_deterministic_merge(policy, scenario, &current, case.apply_override);
    let mut failures: Vec<String> = Vec::new();
    let got = merge.digest.overall_outcome;
    if got != case.overall {
        let mut line = string_of("overall outcome: expected ");
        line.append(outcome_debug_str(case.overall));
        line.append(", got ");
        line.append(outcome_debug_str(got));
        failures.push(line);
    }
    let n = merge.digest.unresolved.len();
    if n != case.unresolved_count {
        let mut line = string_of("unresolved residue: expected ");
        push_decimal(&mut line, case.unresolved_count as u64);
        line.append(", got ");
        push_decimal(&mut line, n as u64);
        failures.push(line);
    }
    let ghost head = strings_view(failures@);
    let ghost gv = case@.subjects;
    let ghost mv = members_view(merge.members@);
    let mut i: usize = 0;
    while i < case.subjects.len()
        invariant
            i <= case.subjects@.len(),
            gv == case@.subjects,
            mv == members_view(merge.members@),
            strings_view(failures@) == head + subjects_failures(gv.subrange(0, i as int), mv),
        decreases case.subjects@.len() - i,
    {
        proof {
            let next = gv.subrange(0, i + 1);
            assert(next.drop_last() =~= gv.subrange(0, i as int));
            assert(next.last() == case.subjects@[i as int]@);
        }
        check_subject(&case.subjects[i], &merge.members, &mut failures);
        proof {
            assert(strings_view(failures@) =~= head + subjects_failures(gv.subrange(0, i + 1), mv));
        }
        i = i + 1;
    }
    assert(gv.subrange(0, i as int) =~= gv);
    assert(strings_view(failures@) =~= when(got != case.overall, "overall outcome: expected "@ + outcome_debug(case.overall) + ", got "@ + outcome_debug(got)) + when(n != case.unresolved_count, "unresolved residue: expected "@ + decimal(case.unresolved_count as nat) + ", got "@ + decimal(n as nat)) + subjects_failures(gv, mv));
    CaseReport { scenario_id: case.scenario_id.clone(), apply_override: case.apply_override, failures }
}

} // verus!
