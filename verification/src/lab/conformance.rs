//! Adapter between the scenario corpus and the kernel's merge engine,
//! plus the structural-equivalence checks between kernel and oracle.

use crate::belief::state::state_name;
use crate::collections::SortedMap;
use crate::epoch::{Epoch, Round};
use crate::id::{OperatorId, SubjectId};
use crate::lab::golden::{outcome_debug, outcome_debug_str};
use crate::lab::oracle;
use crate::lab::oracle::{members_view, MergedMemberV};
use crate::lab::replay::CurrentState;
use crate::lab::scenario::{IslandView, IslandViewV, MemberEntry, Scenario, Scope};
use crate::merge::engine::{
    deterministic_reunion, reunion_result, MergeSide, MergeSideV, ReunionContext, ReunionContextV,
    ReunionOutcome, ReunionOutcomeV,
};
use crate::merge::{
    SubjectMergeOutcome, spec_project, spec_residue, spec_stability, BeliefFragment, MergeSource, MergeStability,
    SubjectMergeOutcomeV,
};
use crate::operator::{OperatorOverride, OperatorOverrideV};
use crate::policy::{merge_policy_bounded, MergePolicy};
use crate::residue::{Residue, ResidueV};
use crate::scope::{ScopeAuthority, ScopeId};
use crate::text::{bool_str, bool_text, decimal, push_decimal, push_signed, signed_decimal, string_of, strings_view};
use crate::trust::{grade_of, TrustGrade};
use vstd::prelude::*;
use vstd::string::StringExecFns;

verus! {

/// A trust weight clamped into a grade's range.
pub open spec fn clamp_weight(w: i64) -> u8 {
    if w < 0 {
        0
    } else if w > 100 {
        100
    } else {
        w as u8
    }
}

pub open spec fn authority_of(s: Scope) -> ScopeAuthority {
    match s {
        Scope::Global => ScopeAuthority::Global,
        _ => ScopeAuthority::Regional,
    }
}

/// A corpus entry as the kernel's merge input.
pub open spec fn spec_fragment(e: MemberEntry) -> BeliefFragment {
    BeliefFragment {
        state: e.status,
        epoch: Epoch(e.epoch),
        trust: grade_of(clamp_weight(e.trust_weight)),
        authority: authority_of(e.scope),
        witness: e.witness_summary,
    }
}

pub fn to_fragment(entry: &MemberEntry) -> (r: BeliefFragment)
    ensures
        r == spec_fragment(*entry),
{
    let w: u8 = if entry.trust_weight < 0 {
        0
    } else if entry.trust_weight > 100 {
        100
    } else {
        entry.trust_weight as u8
    };
    BeliefFragment {
        state: entry.status,
        epoch: Epoch(entry.epoch),
        trust: TrustGrade::new(w),
        authority: match entry.scope {
            Scope::Global => ScopeAuthority::Global,
            Scope::RegionalA | Scope::RegionalB => ScopeAuthority::Regional,
        },
        witness: entry.witness_summary,
    }
}

pub open spec fn fragment_entry(e: (Seq<char>, MemberEntry)) -> (Seq<char>, BeliefFragment) {
    (e.0, spec_fragment(e.1))
}

/// An island as one side of a kernel reunion.
pub open spec fn spec_side(v: IslandViewV) -> MergeSideV {
    MergeSideV {
        label: v.label,
        epoch: Epoch(v.local_epoch),
        fragments: v.members.map_values(|e: (Seq<char>, MemberEntry)| fragment_entry(e)),
    }
}

pub fn to_side(island: &IslandView) -> (r: MergeSide)
    ensures
        r@ == spec_side(island@),
{
    let m = &island.members;
    let ghost g = |e: (SubjectId, BeliefFragment)| (e.0@, e.1@);
    let ghost f = |e: (Seq<char>, MemberEntry)| fragment_entry(e);
    let mut entries: Vec<(SubjectId, BeliefFragment)> = Vec::new();
    let mut i: usize = 0;
    while i < m.len()
        invariant
            i <= m@.len(),
            m == &island.members,
            g == (|e: (SubjectId, BeliefFragment)| (e.0@, e.1@)),
            f == (|e: (Seq<char>, MemberEntry)| fragment_entry(e)),
            entries@.map_values(g) == m@.subrange(0, i as int).map_values(f),
        decreases m@.len() - i,
    {
        let ghost before = entries@;
        let k = m.key_at(i).duplicate();
        let frag = to_fragment(m.value_at(i));
        assert((k@, frag@) == f(m@[i as int]));
        entries.push((k, frag));
        proof {
            assert(entries@.map_values(g) =~= before.map_values(g).push(f(m@[i as int])));
            assert(m@.subrange(0, i + 1) =~= m@.subrange(0, i as int).push(m@[i as int]));
            assert(m@.subrange(0, i + 1).map_values(f) =~= m@.subrange(0, i as int).map_values(f).push(f(m@[i as int])));
        }
        i = i + 1;
    }
    assert(m@.subrange(0, i as int) =~= m@);
    MergeSide { label: island.label.clone(), epoch: Epoch(island.local_epoch), fragments: SortedMap::from_entries(entries) }
}

/// A corpus override as a kernel operator override.
pub open spec fn spec_override(op: crate::lab::scenario::OperatorOverride, epoch: Epoch) -> OperatorOverrideV {
    OperatorOverrideV {
        operator: "scenario-operator"@,
        subject: op.subject_id@,
        forced: op.status,
        reason: op.reason@,
        epoch,
    }
}

pub fn to_override(op: &crate::lab::scenario::OperatorOverride, epoch: Epoch) -> (r: OperatorOverride)
    ensures
        r@ == spec_override(*op, epoch),
{
    OperatorOverride {
        operator: OperatorId::new("scenario-operator"),
        subject: SubjectId::new(op.subject_id.as_str()),
        forced: op.status,
        reason: op.reason.clone(),
        epoch,
    }
}

pub open spec fn reunion_ctx(c: CurrentState) -> ReunionContextV {
    ReunionContextV {
        scope: "reunion"@,
        epoch: Epoch(oracle::max_u64(c.island_a.local_epoch, c.island_b.local_epoch)),
        round: Round(c.steps_replayed as u64),
    }
}

pub open spec fn subject_ids(subjects: Seq<crate::lab::scenario::Subject>) -> Seq<Seq<char>> {
    subjects.map_values(|s: crate::lab::scenario::Subject| s.id@)
}

pub open spec fn kernel_override(s: Scenario, c: CurrentState, apply_override: bool) -> Option<OperatorOverrideV> {
    if oracle::override_applies(s, apply_override) {
        Some(spec_override(s.operator_override.unwrap(), reunion_ctx(c).epoch))
    } else {
        None
    }
}

/// Run the kernel's deterministic reunion over a materialized scenario
/// state.
pub fn run_kernel_reunion(
    policy: &MergePolicy,
    scenario: &Scenario,
    current: &CurrentState,
    apply_override: bool,
) -> (r: ReunionOutcome)
    requires
        merge_policy_bounded(*policy),
    ensures
        r@ == reunion_result(
            *policy,
            reunion_ctx(*current),
            subject_ids(scenario.subjects@),
            spec_side(current.island_a@),
            spec_side(current.island_b@),
            kernel_override(*scenario, *current, apply_override),
        ),
{
    let epoch = if current.island_a.local_epoch >= current.island_b.local_epoch {
        current.island_a.local_epoch
    } else {
        current.island_b.local_epoch
    };
    let ctx = ReunionContext {
        scope: ScopeId::new("reunion"),
        epoch: Epoch(epoch),
        round: Round(current.steps_replayed as u64),
    };
    let mut subjects: Vec<SubjectId> = Vec::new();
    let mut i: usize = 0;
    while i < scenario.subjects.len()
        invariant
            i <= scenario.subjects@.len(),
            crate::merge::engine::subject_views(subjects@) == subject_ids(scenario.subjects@.subrange(0, i as int)),
        decreases scenario.subjects@.len() - i,
    {
        let ghost before = subjects@;
        subjects.push(SubjectId::new(scenario.subjects[i].id.as_str()));
        proof {
            assert(crate::merge::engine::subject_views(subjects@) =~= crate::merge::engine::subject_views(before).push(scenario.subjects@[i as int].id@));
            assert(scenario.subjects@.subrange(0, i + 1) =~= scenario.subjects@.subrange(0, i as int).push(scenario.subjects@[i as int]));
            assert(subject_ids(scenario.subjects@.subrange(0, i + 1)) =~= subject_ids(scenario.subjects@.subrange(0, i as int)).push(scenario.subjects@[i as int].id@));
        }
        i = i + 1;
    }
    assert(scenario.subjects@.subrange(0, i as int) =~= scenario.subjects@);
    let side_a = to_side(&current.island_a);
    let side_b = to_side(&current.island_b);
    if apply_override && scenario.allow_operator_override {
        match &scenario.operator_override {
            Some(o) => {
                let op = to_override(o, ctx.epoch);
                return deterministic_reunion(policy, &ctx, subjects.as_slice(), &side_a, &side_b, Some(&op));
            },
            None => {},
        }
    }
    deterministic_reunion(policy, &ctx, subjects.as_slice(), &side_a, &side_b, None)
}

pub open spec fn kernel_source_name(s: MergeSource) -> Seq<char> {
    match s {
        MergeSource::Neither => "None"@,
        MergeSource::SideA => "SideA"@,
        MergeSource::SideB => "SideB"@,
        MergeSource::Both => "Both"@,
        MergeSource::Override => "Override"@,
    }
}

pub open spec fn oracle_source_name(s: oracle::Source) -> Seq<char> {
    match s {
        oracle::Source::Neither => "None"@,
        oracle::Source::IslandA => "IslandA"@,
        oracle::Source::IslandB => "IslandB"@,
        oracle::Source::Both => "Both"@,
        oracle::Source::Override => "Override"@,
    }
}

pub open spec fn kernel_stability_name(s: MergeStability) -> Seq<char> {
    match s {
        MergeStability::Stable => "Stable"@,
        MergeStability::Provisional => "Provisional"@,
        MergeStability::StableWithOverride => "StableWithOverride"@,
    }
}

pub open spec fn oracle_stability_name(s: oracle::Stability) -> Seq<char> {
    match s {
        oracle::Stability::Stable => "Stable"@,
        oracle::Stability::Provisional => "Provisional"@,
        oracle::Stability::StableWithOverride => "StableWithOverride"@,
    }
}

pub open spec fn kernel_outcome_name(o: crate::merge::OverallOutcome) -> Seq<char> {
    match o {
        crate::merge::OverallOutcome::Stable => "Stable"@,
        crate::merge::OverallOutcome::Provisional => "Provisional"@,
        crate::merge::OverallOutcome::StableWithOverride => "StableWithOverride"@,
        crate::merge::OverallOutcome::ProvisionalWithOverride => "ProvisionalWithOverride"@,
    }
}

pub open spec fn source_matches(k: MergeSource, o: oracle::Source) -> bool {
    (k == MergeSource::Neither && o == oracle::Source::Neither) || (k == MergeSource::SideA && o
        == oracle::Source::IslandA) || (k == MergeSource::SideB && o == oracle::Source::IslandB) || (k
        == MergeSource::Both && o == oracle::Source::Both) || (k == MergeSource::Override && o
        == oracle::Source::Override)
}

pub open spec fn stability_matches(k: MergeStability, o: oracle::Stability) -> bool {
    (k == MergeStability::Stable && o == oracle::Stability::Stable) || (k == MergeStability::Provisional
        && o == oracle::Stability::Provisional) || (k == MergeStability::StableWithOverride && o
        == oracle::Stability::StableWithOverride)
}

pub open spec fn overall_matches(k: crate::merge::OverallOutcome, o: oracle::OverallOutcome) -> bool {
    (k == crate::merge::OverallOutcome::Stable && o == oracle::OverallOutcome::Stable) || (k
        == crate::merge::OverallOutcome::Provisional && o == oracle::OverallOutcome::Provisional) || (
    k == crate::merge::OverallOutcome::StableWithOverride && o
        == oracle::OverallOutcome::StableWithOverride) || (k
        == crate::merge::OverallOutcome::ProvisionalWithOverride && o
        == oracle::OverallOutcome::ProvisionalWithOverride)
}

/// The first kernel outcome for a subject, if any.
pub open spec fn first_outcome(outs: Seq<SubjectMergeOutcomeV>, id: Seq<char>) -> Option<int>
    decreases outs.len(),
{
    if outs.len() == 0 {
        None
    } else if outs[0].subject == id {
        Some(0)
    } else {
        match first_outcome(outs.drop_first(), id) {
            Some(i) => Some(i + 1),
            None => None,
        }
    }
}

pub open spec fn all_handled(rs: Seq<ResidueV>) -> bool {
    forall|i: int| 0 <= i < rs.len() ==> (#[trigger] rs[i]).handled_by is Some
}

pub open spec fn when(c: bool, line: Seq<char>) -> Seq<Seq<char>> {
    if c {
        seq![line]
    } else {
        Seq::empty()
    }
}

pub open spec fn state_fail(o: SubjectMergeOutcomeV, m: MergedMemberV) -> Seq<Seq<char>> {
    let ks = spec_project(o.resolution);
    when(ks != m.status, m.subject_id + ": state "@ + state_name(ks) + " vs oracle "@ + state_name(m.status))
}

pub open spec fn source_fail(o: SubjectMergeOutcomeV, m: MergedMemberV) -> Seq<Seq<char>> {
    when(
        !source_matches(o.source, m.source),
        m.subject_id + ": source "@ + kernel_source_name(o.source) + " vs oracle "@ + oracle_source_name(m.source),
    )
}

pub open spec fn stability_fail(o: SubjectMergeOutcomeV, m: MergedMemberV) -> Seq<Seq<char>> {
    let kst = spec_stability(o.resolution);
    when(
        !stability_matches(kst, m.stability),
        m.subject_id + ": stability "@ + kernel_stability_name(kst) + " vs oracle "@ + oracle_stability_name(
            m.stability,
        ),
    )
}

pub open spec fn epoch_fail(o: SubjectMergeOutcomeV, m: MergedMemberV) -> Seq<Seq<char>> {
    when(
        o.epoch.0 != m.epoch,
        m.subject_id + ": epoch e"@ + decimal(o.epoch.0 as nat) + " vs oracle "@ + decimal(m.epoch as nat),
    )
}

pub open spec fn trust_fail(o: SubjectMergeOutcomeV, m: MergedMemberV) -> Seq<Seq<char>> {
    when(
        o.trust != m.trust_weight,
        m.subject_id + ": trust "@ + decimal(o.trust as nat) + " vs oracle "@ + signed_decimal(m.trust_weight as int),
    )
}

pub open spec fn presence_fail(o: SubjectMergeOutcomeV, m: MergedMemberV) -> Seq<Seq<char>> {
    let kr = spec_residue(o.resolution);
    when(
        (kr.len() == 0) != (m.residue is None),
        m.subject_id + ": residue presence "@ + bool_text(kr.len() != 0) + " vs oracle "@ + bool_text(m.residue is Some),
    )
}

pub open spec fn handled_fail(o: SubjectMergeOutcomeV, m: MergedMemberV) -> Seq<Seq<char>> {
    let kr = spec_residue(o.resolution);
    match m.residue {
        Some(or) => {
            let kh = all_handled(kr) && kr.len() != 0;
            when(
                kh != or.handled_by_override,
                m.subject_id + ": residue handled "@ + bool_text(kh) + " vs oracle "@ + bool_text(or.handled_by_override),
            )
        },
        None => Seq::empty(),
    }
}

/// The structural mismatches between an oracle member and the kernel's
/// outcome for its subject, in a fixed order.
pub open spec fn found_failures(o: SubjectMergeOutcomeV, m: MergedMemberV) -> Seq<Seq<char>> {
    state_fail(o, m) + source_fail(o, m) + stability_fail(o, m) + epoch_fail(o, m) + trust_fail(o, m)
        + presence_fail(o, m) + handled_fail(o, m)
}

/// The mismatches for one oracle member: a missing subject, or the
/// structural differences from the kernel's outcome.
pub open spec fn member_failures(outs: Seq<SubjectMergeOutcomeV>, m: MergedMemberV) -> Seq<Seq<char>> {
    match first_outcome(outs, m.subject_id) {
        None => seq![m.subject_id + ": missing from kernel output"@],
        Some(i) => found_failures(outs[i], m),
    }
}

pub open spec fn members_failures(outs: Seq<SubjectMergeOutcomeV>, ms: Seq<MergedMemberV>) -> Seq<Seq<char>>
    decreases ms.len(),
{
    if ms.len() == 0 {
        Seq::empty()
    } else {
        members_failures(outs, ms.drop_last()) + member_failures(outs, ms.last())
    }
}

/// Every structural mismatch between the kernel's reunion and the
/// oracle's merge; empty exactly when the two agree.
/// Where the kernel's reunion disagrees with the oracle's members,
/// overall outcome and count of unresolved residue.
pub open spec fn failures_against(
    k: ReunionOutcomeV,
    ms: Seq<MergedMemberV>,
    overall: oracle::OverallOutcome,
    unresolved: nat,
) -> Seq<Seq<char>> {
    members_failures(k.outcomes, ms) + when(
        !overall_matches(k.digest.overall, overall),
        "overall "@ + kernel_outcome_name(k.digest.overall) + " vs oracle "@ + outcome_debug(overall),
    ) + when(
        k.digest.unresolved_residue != unresolved,
        "unresolved "@ + decimal(k.digest.unresolved_residue as nat) + " vs oracle "@ + decimal(unresolved),
    )
}

pub open spec fn comparison_failures(k: ReunionOutcomeV, o: oracle::DeterministicMerge) -> Seq<Seq<char>> {
    failures_against(k, members_view(o.members@), o.digest.overall_outcome, o.digest.unresolved@.len())
}


fn kernel_source_str(s: MergeSource) -> (r: &'static str)
    ensures
        r@ == kernel_source_name(s),
{
    match s {
        MergeSource::Neither => "None",
        MergeSource::SideA => "SideA",
        MergeSource::SideB => "SideB",
        MergeSource::Both => "Both",
        MergeSource::Override => "Override",
    }
}

fn oracle_source_str(s: oracle::Source) -> (r: &'static str)
    ensures
        r@ == oracle_source_name(s),
{
    match s {
        oracle::Source::Neither => "None",
        oracle::Source::IslandA => "IslandA",
        oracle::Source::IslandB => "IslandB",
        oracle::Source::Both => "Both",
        oracle::Source::Override => "Override",
    }
}

fn kernel_stability_str(s: MergeStability) -> (r: &'static str)
    ensures
        r@ == kernel_stability_name(s),
{
    match s {
        MergeStability::Stable => "Stable",
        MergeStability::Provisional => "Provisional",
        MergeStability::StableWithOverride => "StableWithOverride",
    }
}

fn oracle_stability_str(s: oracle::Stability) -> (r: &'static str)
    ensures
        r@ == oracle_stability_name(s),
{
    match s {
        oracle::Stability::Stable => "Stable",
        oracle::Stability::Provisional => "Provisional",
        oracle::Stability::StableWithOverride => "StableWithOverride",
    }
}

pub fn kernel_outcome_str(o: crate::merge::OverallOutcome) -> (r: &'static str)
    ensures
        r@ == kernel_outcome_name(o),
{
    match o {
        crate::merge::OverallOutcome::Stable => "Stable",
        crate::merge::OverallOutcome::Provisional => "Provisional",
        crate::merge::OverallOutcome::StableWithOverride => "StableWithOverride",
        crate::merge::OverallOutcome::ProvisionalWithOverride => "ProvisionalWithOverride",
    }
}

fn source_match(k: MergeSource, o: oracle::Source) -> (r: bool)
    ensures
        r == source_matches(k, o),
{
    match (k, o) {
        (MergeSource::Neither, oracle::Source::Neither) => true,
        (MergeSource::SideA, oracle::Source::IslandA) => true,
        (MergeSource::SideB, oracle::Source::IslandB) => true,
        (MergeSource::Both, oracle::Source::Both) => true,
        (MergeSource::Override, oracle::Source::Override) => true,
        _ => false,
    }
}

fn stability_match(k: MergeStability, o: oracle::Stability) -> (r: bool)
    ensures
        r == stability_matches(k, o),
{
    match (k, o) {
        (MergeStability::Stable, oracle::Stability::Stable) => true,
        (MergeStability::Provisional, oracle::Stability::Provisional) => true,
        (MergeStability::StableWithOverride, oracle::Stability::StableWithOverride) => true,
        _ => false,
    }
}

fn overall_match(k: crate::merge::OverallOutcome, o: oracle::OverallOutcome) -> (r: bool)
    ensures
        r == overall_matches(k, o),
{
    match (k, o) {
        (crate::merge::OverallOutcome::Stable, oracle::OverallOutcome::Stable) => true,
        (crate::merge::OverallOutcome::Provisional, oracle::OverallOutcome::Provisional) => true,
        (crate::merge::OverallOutcome::StableWithOverride, oracle::OverallOutcome::StableWithOverride) => true,
        (
            crate::merge::OverallOutcome::ProvisionalWithOverride,
            oracle::OverallOutcome::ProvisionalWithOverride,
        ) => true,
        _ => false,
    }
}

pub open spec fn outcome_views(v: Seq<SubjectMergeOutcome>) -> Seq<SubjectMergeOutcomeV> {
    v.map_values(|o: SubjectMergeOutcome| o@)
}

proof fn lemma_first_outcome_at(outs: Seq<SubjectMergeOutcomeV>, id: Seq<char>, i: int)
    requires
        0 <= i < outs.len(),
        outs[i].subject == id,
        forall|j: int| 0 <= j < i ==> #[trigger] outs[j].subject != id,
    ensures
        first_outcome(outs, id) == Some(i),
    decreases i,
{
    if i > 0 {
        let t = outs.drop_first();
        assert forall|j: int| 0 <= j < i - 1 implies #[trigger] t[j].subject != id by {
            assert(t[j] == outs[j + 1]);
        }
        lemma_first_outcome_at(t, id, i - 1);
    }
}

proof fn lemma_first_outcome_none(outs: Seq<SubjectMergeOutcomeV>, id: Seq<char>)
    requires
        forall|j: int| 0 <= j < outs.len() ==> #[trigger] outs[j].subject != id,
    ensures
        first_outcome(outs, id) is None,
    decreases outs.len(),
{
    if outs.len() > 0 {
        let t = outs.drop_first();
        assert forall|j: int| 0 <= j < t.len() implies #[trigger] t[j].subject != id by {
            assert(t[j] == outs[j + 1]);
        }
        lemma_first_outcome_none(t, id);
    }
}

fn find_outcome(outs: &Vec<SubjectMergeOutcome>, id: &String) -> (r: Option<usize>)
    ensures
        r matches Some(i) ==> i < outs@.len() && first_outcome(outcome_views(outs@), id@) == Some(i as int),
        r is None ==> first_outcome(outcome_views(outs@), id@) is None,
{
    let ghost ov = outcome_views(outs@);
    let key = SubjectId::new(id.as_str());
    let mut i: usize = 0;
    while i < outs.len()
        invariant
            i <= outs@.len(),
            ov == outcome_views(outs@),
            key@ == id@,
            forall|j: int| 0 <= j < i ==> #[trigger] ov[j].subject != id@,
        decreases outs@.len() - i,
    {
        if outs[i].subject.same(&key) {
            proof {
                lemma_first_outcome_at(ov, id@, i as int);
            }
            return Some(i);
        }
        i = i + 1;
    }
    proof {
        lemma_first_outcome_none(ov, id@);
    }
    None
}

fn residues_handled(rs: &Vec<&Residue>) -> (r: bool)
    ensures
        r == (all_handled(rs@.map_values(|x: &Residue| x@)) && rs@.len() != 0),
{
    let ghost rv = rs@.map_values(|x: &Residue| x@);
    if rs.len() == 0 {
        return false;
    }
    let mut i: usize = 0;
    while i < rs.len()
        invariant
            i <= rs@.len(),
            rs@.len() != 0,
            rv == rs@.map_values(|x: &Residue| x@),
            forall|j: int| 0 <= j < i ==> (#[trigger] rv[j]).handled_by is Some,
        decreases rs@.len() - i,
    {
        if rs[i].handled_by().is_none() {
            assert(rv[i as int].handled_by is None);
            return false;
        }
        i = i + 1;
    }
    true
}

fn push_line(out: &mut Vec<String>, line: String)
    ensures
        strings_view(final(out)@) == strings_view(old(out)@).push(line@),
{
    let ghost before = out@;
    out.push(line);
    assert(strings_view(out@) =~= strings_view(before).push(line@));
}

fn prefixed(id: &String, label: &str) -> (r: String)
    ensures
        r@ == id@ + label@,
{
    let mut r = id.clone();
    r.append(label);
    r
}

fn push_when(out: &mut Vec<String>, cond: bool, line: String)
    ensures
        strings_view(final(out)@) == strings_view(old(out)@) + when(cond, line@),
{
    let ghost before = out@;
    if cond {
        out.push(line);
        assert(strings_view(out@) =~= strings_view(before) + when(cond, line@));
    } else {
        assert(strings_view(out@) =~= strings_view(before) + when(cond, line@));
    }
}

fn line4(id: &String, label: &str, k: &str, o: &str) -> (r: String)
    ensures
        r@ == id@ + label@ + k@ + " vs oracle "@ + o@,
{
    let mut line = prefixed(id, label);
    line.append(k);
    line.append(" vs oracle ");
    line.append(o);
    line
}

proof fn lemma_add_assoc(a: Seq<Seq<char>>, b: Seq<Seq<char>>, c: Seq<Seq<char>>)
    ensures
        a + b + c == a + (b + c),
{
    assert(a + b + c =~= a + (b + c));
}

fn check_state(o: &SubjectMergeOutcome, m: &oracle::MergedMember, out: &mut Vec<String>)
    ensures
        strings_view(final(out)@) == strings_view(old(out)@) + state_fail(o@, m@),
{
    let ks = o.resolution.project();
    push_when(out, ks != m.status, line4(&m.subject_id, ": state ", ks.as_str(), m.status.as_str()));
}

fn check_source(o: &SubjectMergeOutcome, m: &oracle::MergedMember, out: &mut Vec<String>)
    ensures
        strings_view(final(out)@) == strings_view(old(out)@) + source_fail(o@, m@),
{
    push_when(
        out,
        !source_match(o.source, m.source),
        line4(&m.subject_id, ": source ", kernel_source_str(o.source), oracle_source_str(m.source)),
    );
}

fn check_stability(o: &SubjectMergeOutcome, m: &oracle::MergedMember, out: &mut Vec<String>)
    ensures
        strings_view(final(out)@) == strings_view(old(out)@) + stability_fail(o@, m@),
{
    let kst = o.resolution.stability();
    push_when(
        out,
        !stability_match(kst, m.stability),
        line4(&m.subject_id, ": stability ", kernel_stability_str(kst), oracle_stability_str(m.stability)),
    );
}

fn check_epoch(o: &SubjectMergeOutcome, m: &oracle::MergedMember, out: &mut Vec<String>)
    ensures
        strings_view(final(out)@) == strings_view(old(out)@) + epoch_fail(o@, m@),
{
    let mut line = prefixed(&m.subject_id, ": epoch e");
    push_decimal(&mut line, o.epoch.get());
    line.append(" vs oracle ");
    push_decimal(&mut line, m.epoch);
    push_when(out, o.epoch.get() != m.epoch, line);
}

fn check_trust(o: &SubjectMergeOutcome, m: &oracle::MergedMember, out: &mut Vec<String>)
    ensures
        strings_view(final(out)@) == strings_view(old(out)@) + trust_fail(o@, m@),
{
    let kt = o.trust.get();
    let mut line = prefixed(&m.subject_id, ": trust ");
    push_decimal(&mut line, kt as u64);
    line.append(" vs oracle ");
    push_signed(&mut line, m.trust_weight);
    push_when(out, (kt as i64) != m.trust_weight, line);
}

fn check_presence(o: &SubjectMergeOutcome, m: &oracle::MergedMember, out: &mut Vec<String>)
    ensures
        strings_view(final(out)@) == strings_view(old(out)@) + presence_fail(o@, m@),
{
    let kr = o.resolution.residue();
    let kernel_has = kr.len() != 0;
    let oracle_has = m.residue.is_some();
    push_when(
        out,
        kernel_has != oracle_has,
        line4(&m.subject_id, ": residue presence ", bool_str(kernel_has), bool_str(oracle_has)),
    );
}

fn check_handled(o: &SubjectMergeOutcome, m: &oracle::MergedMember, out: &mut Vec<String>)
    ensures
        strings_view(final(out)@) == strings_view(old(out)@) + handled_fail(o@, m@),
{
    let ghost start = strings_view(out@);
    match &m.residue {
        Some(or) => {
            let kr = o.resolution.residue();
            let kh = residues_handled(&kr);
            push_when(
                out,
                kh != or.handled_by_override,
                line4(&m.subject_id, ": residue handled ", bool_str(kh), bool_str(or.handled_by_override)),
            );
        },
        None => {
            assert(strings_view(out@) =~= start + Seq::<Seq<char>>::empty());
        },
    }
}

fn check_found(o: &SubjectMergeOutcome, m: &oracle::MergedMember, out: &mut Vec<String>)
    ensures
        strings_view(final(out)@) == strings_view(old(out)@) + found_failures(o@, m@),
{
    let ghost s0 = strings_view(out@);
    let ghost (ov, mv) = (o@, m@);
    check_state(o, m, out);
    check_source(o, m, out);
    proof {
        lemma_add_assoc(s0, state_fail(ov, mv), source_fail(ov, mv));
    }
    let ghost f2 = state_fail(ov, mv) + source_fail(ov, mv);
    check_stability(o, m, out);
    proof {
        lemma_add_assoc(s0, f2, stability_fail(ov, mv));
    }
    let ghost f3 = f2 + stability_fail(ov, mv);
    check_epoch(o, m, out);
    proof {
        lemma_add_assoc(s0, f3, epoch_fail(ov, mv));
    }
    let ghost f4 = f3 + epoch_fail(ov, mv);
    check_trust(o, m, out);
    proof {
        lemma_add_assoc(s0, f4, trust_fail(ov, mv));
    }
    let ghost f5 = f4 + trust_fail(ov, mv);
    check_presence(o, m, out);
    proof {
        lemma_add_assoc(s0, f5, presence_fail(ov, mv));
    }
    let ghost f6 = f5 + presence_fail(ov, mv);
    check_handled(o, m, out);
    proof {
        lemma_add_assoc(s0, f6, handled_fail(ov, mv));
    }
}

fn check_member(outs: &Vec<SubjectMergeOutcome>, m: &oracle::MergedMember, out: &mut Vec<String>)
    ensures
        strings_view(final(out)@) == strings_view(old(out)@) + member_failures(
            outcome_views(outs@),
            m@,
        ),
{
    let ghost ov = outcome_views(outs@);
    match find_outcome(outs, &m.subject_id) {
        Some(i) => {
            assert(ov[i as int] == outs@[i as int]@);
            check_found(&outs[i], m, out);
        },
        None => {
            let ghost start = strings_view(out@);
            push_line(out, prefixed(&m.subject_id, ": missing from kernel output"));
            assert(strings_view(out@) =~= start + member_failures(ov, m@));
        },
    }
}

/// Compare the kernel's reunion against the oracle's merge, structurally:
/// per-subject state, source, stability, epoch, trust, residue presence
/// and handled flag, plus overall outcome and unresolved count.
/// Explanation strings are the oracle's own surface and are not compared.
pub fn compare(kernel: &ReunionOutcome, oracle_merge: &oracle::DeterministicMerge) -> (r: Vec<String>)
    ensures
        strings_view(r@) == comparison_failures(kernel@, *oracle_merge),
{
    let mut failures: Vec<String> = Vec::new();
    let ghost mv = members_view(oracle_merge.members@);
    let ghost ov = outcome_views(kernel.outcomes@);
    assert(ov == kernel@.outcomes);
    let mut i: usize = 0;
    while i < oracle_merge.members.len()
        invariant
            i <= oracle_merge.members@.len(),
            mv == members_view(oracle_merge.members@),
            ov == outcome_views(kernel.outcomes@),
            strings_view(failures@) == members_failures(ov, mv.subrange(0, i as int)),
        decreases oracle_merge.members@.len() - i,
    {
        proof {
            let next = mv.subrange(0, i + 1);
            assert(next.drop_last() =~= mv.subrange(0, i as int));
            assert(next.last() == oracle_merge.members@[i as int]@);
        }
        check_member(&kernel.outcomes, &oracle_merge.members[i], &mut failures);
        i = i + 1;
    }
    assert(mv.subrange(0, i as int) =~= mv);
    if !overall_match(kernel.digest.overall, oracle_merge.digest.overall_outcome) {
        let mut line = string_of("overall ");
        line.append(kernel_outcome_str(kernel.digest.overall));
        line.append(" vs oracle ");
        line.append(outcome_debug_str(oracle_merge.digest.overall_outcome));
        push_line(&mut failures, line);
    }
    if kernel.digest.unresolved_residue != oracle_merge.digest.unresolved.len() {
        let mut line = string_of("unresolved ");
        push_decimal(&mut line, kernel.digest.unresolved_residue as u64);
        line.append(" vs oracle ");
        push_decimal(&mut line, oracle_merge.digest.unresolved.len() as u64);
        push_line(&mut failures, line);
    }
    assert(strings_view(failures@) =~= comparison_failures(kernel@, *oracle_merge));
    failures
}


} // verus!
