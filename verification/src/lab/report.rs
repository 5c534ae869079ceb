//! The text report of a scenario run: the scenario's heading, each
//! island's status counts, the merged view with its residue and repair
//! digest, the kernel cross-check, and the naive comparison. Each entry
//! is one line as the console shows it (an entry may hold a line break).

use crate::belief::state::{state_name, BeliefState};
use crate::lab::oracle::{
    compute_island_digest, diffs_view, digest_rows, find_member, first_with_id, members_view, naive_view,
    residues_view, rows_view, source_name, states_by_name, DeterministicMerge, MergedMember, MergedMemberV,
    NaiveComparison, NaiveDiff, NaiveDiffV, NaiveMember, NaiveMemberV, OracleResidue, OracleResidueV, Stability};
use crate::lab::conformance::{kernel_outcome_name, kernel_outcome_str};
use crate::lab::golden::{outcome_debug, outcome_debug_str};
use crate::lab::sim::SimReport;
use crate::lab::replay::CurrentState;
use crate::lab::scenario::{IndexEntry, IslandView, IslandViewV, Scenario, ScenarioIndex};
use crate::rank::{divergence_text, hex_of, reconstruct, spec_reconstruct, RankedSelection, RankedSelectionV};
use crate::text::{
    bool_str, bool_text, decimal, join_with, pad_left, pad_right, push_decimal, push_padded, push_right_aligned, push_signed,
    signed_decimal, string_of, strings_view};
use vstd::prelude::*;
use vstd::string::StringExecFns;

verus! {

pub open spec fn stability_text(s: Stability) -> Seq<char> {
    match s {
        Stability::Stable => "stable"@,
        Stability::Provisional => "provisional"@,
        Stability::StableWithOverride => "stablewithoverride"@,
    }
}

pub fn stability_str(s: Stability) -> (r: &'static str)
    ensures
        r@ == stability_text(s),
{
    match s {
        Stability::Stable => "stable",
        Stability::Provisional => "provisional",
        Stability::StableWithOverride => "stablewithoverride",
    }
}

pub open spec fn count_text(row: (Seq<char>, nat)) -> Seq<char> {
    decimal(row.1) + " "@ + row.0
}

pub open spec fn count_texts(rows: Seq<(Seq<char>, nat)>) -> Seq<Seq<char>> {
    rows.map_values(|r: (Seq<char>, nat)| count_text(r))
}

/// An island's label, local epoch and status counts.
pub open spec fn island_text(i: IslandViewV) -> Seq<char> {
    pad_right(i.label, 9) + " epoch "@ + pad_left(decimal(i.local_epoch as nat), 4) + "  "@ + join_with(
        count_texts(digest_rows(states_by_name(), i.members)),
        ", "@,
    )
}

pub fn island_line(island: &IslandView) -> (r: String)
    ensures
        r@ == island_text(island@),
{
    let rows = compute_island_digest(island);
    let ghost rv = rows_view(rows@);
    let mut out = String::new();
    push_padded(&mut out, island.label.as_str(), 9);
    out.append(" epoch ");
    let mut epoch = String::new();
    push_decimal(&mut epoch, island.local_epoch);
    push_right_aligned(&mut out, epoch.as_str(), 4);
    out.append("  ");
    let ghost head = out@;
    let mut k: usize = 0;
    while k < rows.len()
        invariant
            k <= rows@.len(),
            rv == rows_view(rows@),
            out@ == head + join_with(count_texts(rv.subrange(0, k as int)), ", "@),
        decreases rows@.len() - k,
    {
        let ghost next = count_texts(rv.subrange(0, k + 1));
        assert(next.drop_last() =~= count_texts(rv.subrange(0, k as int)));
        assert(next.last() == count_text(rv[k as int]));
        if k > 0 {
            out.append(", ");
        }
        push_decimal(&mut out, rows[k].1 as u64);
        out.append(" ");
        out.append(rows[k].0.as_str());
        k = k + 1;
        assert(out@ =~= head + join_with(next, ", "@));
    }
    assert(rv.subrange(0, k as int) =~= rv);
    out
}

pub open spec fn header_text() -> Seq<char> {
    "  "@ + pad_right("subject"@, 10) + " "@ + pad_right("status"@, 12) + " "@ + pad_right("source"@, 9)
        + " "@ + pad_right("stability"@, 22) + " "@ + pad_right("epoch"@, 5) + " "@ + pad_right(
        "trust"@,
        5,
    )
}

fn header_line() -> (r: String)
    ensures
        r@ == header_text(),
{
    let mut out = string_of("  ");
    push_padded(&mut out, "subject", 10);
    out.append(" ");
    push_padded(&mut out, "status", 12);
    out.append(" ");
    push_padded(&mut out, "source", 9);
    out.append(" ");
    push_padded(&mut out, "stability", 22);
    out.append(" ");
    push_padded(&mut out, "epoch", 5);
    out.append(" ");
    push_padded(&mut out, "trust", 5);
    out
}

/// One merged member as a table row.
pub open spec fn member_text(m: MergedMemberV) -> Seq<char> {
    "  "@ + pad_right(m.subject_label, 10) + " "@ + pad_right(state_name(m.status), 12) + " "@ + pad_right(
        source_name(m.source),
        9,
    ) + " "@ + pad_right(stability_text(m.stability), 22) + " "@ + pad_left(decimal(m.epoch as nat), 5)
        + " "@ + pad_left(signed_decimal(m.trust_weight as int), 5)
}

fn member_line(m: &MergedMember) -> (r: String)
    ensures
        r@ == member_text(m@),
{
    let mut out = string_of("  ");
    push_padded(&mut out, m.subject_label.as_str(), 10);
    out.append(" ");
    push_padded(&mut out, m.status.as_str(), 12);
    out.append(" ");
    push_padded(&mut out, m.source.as_str(), 9);
    out.append(" ");
    push_padded(&mut out, stability_str(m.stability), 22);
    out.append(" ");
    let mut epoch = String::new();
    push_decimal(&mut epoch, m.epoch);
    push_right_aligned(&mut out, epoch.as_str(), 5);
    out.append(" ");
    let mut trust = String::new();
    push_signed(&mut trust, m.trust_weight);
    push_right_aligned(&mut out, trust.as_str(), 5);
    out
}

/// A residue entry: its subject, whether an override handled it, and
/// its detail on an indented second line.
pub open spec fn residue_entry_text(r: OracleResidueV) -> Seq<char> {
    "  "@ + r.subject_label + (if r.handled_by_override {
        " [handled by override]"@
    } else {
        Seq::empty()
    }) + "\n    "@ + r.detail
}

fn residue_entry_line(r: &OracleResidue) -> (s: String)
    ensures
        s@ == residue_entry_text(r@),
{
    let mut out = string_of("  ");
    out.append(r.subject_label.as_str());
    if r.handled_by_override {
        out.append(" [handled by override]");
    }
    out.append("\n    ");
    out.append(r.detail.as_str());
    out
}

pub open spec fn naive_member_text(m: NaiveMemberV) -> Seq<char> {
    "  "@ + pad_right(m.subject_label, 10) + " "@ + pad_right(state_name(m.status), 12) + " from "@
        + m.source
}

fn naive_member_line(m: &NaiveMember) -> (r: String)
    ensures
        r@ == naive_member_text(m@),
{
    let mut out = string_of("  ");
    push_padded(&mut out, m.subject_label.as_str(), 10);
    out.append(" ");
    push_padded(&mut out, m.status.as_str(), 12);
    out.append(" from ");
    out.append(m.source.as_str());
    out
}

pub open spec fn diff_text(d: NaiveDiffV) -> Seq<char> {
    "    "@ + d.subject_label + ": naive "@ + state_name(d.naive_status) + " vs deterministic "@
        + state_name(d.deterministic_status) + " \u{2014} "@ + d.note
}

fn diff_line(d: &NaiveDiff) -> (r: String)
    ensures
        r@ == diff_text(d@),
{
    let mut out = string_of("    ");
    out.append(d.subject_label.as_str());
    out.append(": naive ");
    out.append(d.naive_status.as_str());
    out.append(" vs deterministic ");
    out.append(d.deterministic_status.as_str());
    out.append(" \u{2014} ");
    out.append(d.note.as_str());
    out
}

pub open spec fn member_lines(ms: Seq<MergedMemberV>) -> Seq<Seq<char>> {
    ms.map_values(|m: MergedMemberV| member_text(m))
}

pub open spec fn residue_lines(rs: Seq<OracleResidueV>) -> Seq<Seq<char>> {
    rs.map_values(|r: OracleResidueV| residue_entry_text(r))
}

pub open spec fn naive_lines(ms: Seq<NaiveMemberV>) -> Seq<Seq<char>> {
    ms.map_values(|m: NaiveMemberV| naive_member_text(m))
}

pub open spec fn diff_lines(ds: Seq<NaiveDiffV>) -> Seq<Seq<char>> {
    ds.map_values(|d: NaiveDiffV| diff_text(d))
}

pub open spec fn prefixed(prefix: Seq<char>, items: Seq<Seq<char>>) -> Seq<Seq<char>> {
    items.map_values(|i: Seq<char>| prefix + i)
}

fn push_line(out: &mut Vec<String>, line: String)
    ensures
        strings_view(final(out)@) == strings_view(old(out)@).push(line@),
{
    let ghost before = strings_view(out@);
    out.push(line);
    assert(strings_view(out@) =~= before.push(line@));
}

fn push_member_lines(out: &mut Vec<String>, ms: &[MergedMember])
    ensures
        strings_view(final(out)@) == strings_view(old(out)@) + member_lines(members_view(ms@)),
{
    let ghost start = strings_view(out@);
    let ghost mv = members_view(ms@);
    let mut k: usize = 0;
    while k < ms.len()
        invariant
            k <= ms@.len(),
            mv == members_view(ms@),
            strings_view(out@) == start + member_lines(mv.subrange(0, k as int)),
        decreases ms@.len() - k,
    {
        push_line(out, member_line(&ms[k]));
        assert(member_lines(mv.subrange(0, k + 1)) =~= member_lines(mv.subrange(0, k as int)).push(
            member_text(mv[k as int]),
        ));
        k = k + 1;
    }
    assert(mv.subrange(0, k as int) =~= mv);
}

fn push_residue_lines(out: &mut Vec<String>, rs: &[OracleResidue])
    ensures
        strings_view(final(out)@) == strings_view(old(out)@) + residue_lines(residues_view(rs@)),
{
    let ghost start = strings_view(out@);
    let ghost rv = residues_view(rs@);
    let mut k: usize = 0;
    while k < rs.len()
        invariant
            k <= rs@.len(),
            rv == residues_view(rs@),
            strings_view(out@) == start + residue_lines(rv.subrange(0, k as int)),
        decreases rs@.len() - k,
    {
        push_line(out, residue_entry_line(&rs[k]));
        assert(residue_lines(rv.subrange(0, k + 1)) =~= residue_lines(rv.subrange(0, k as int)).push(
            residue_entry_text(rv[k as int]),
        ));
        k = k + 1;
    }
    assert(rv.subrange(0, k as int) =~= rv);
}

fn push_naive_lines(out: &mut Vec<String>, ms: &[NaiveMember])
    ensures
        strings_view(final(out)@) == strings_view(old(out)@) + naive_lines(naive_view(ms@)),
{
    let ghost start = strings_view(out@);
    let ghost mv = naive_view(ms@);
    let mut k: usize = 0;
    while k < ms.len()
        invariant
            k <= ms@.len(),
            mv == naive_view(ms@),
            strings_view(out@) == start + naive_lines(mv.subrange(0, k as int)),
        decreases ms@.len() - k,
    {
        push_line(out, naive_member_line(&ms[k]));
        assert(naive_lines(mv.subrange(0, k + 1)) =~= naive_lines(mv.subrange(0, k as int)).push(
            naive_member_text(mv[k as int]),
        ));
        k = k + 1;
    }
    assert(mv.subrange(0, k as int) =~= mv);
}

fn push_diff_lines(out: &mut Vec<String>, ds: &[NaiveDiff])
    ensures
        strings_view(final(out)@) == strings_view(old(out)@) + diff_lines(diffs_view(ds@)),
{
    let ghost start = strings_view(out@);
    let ghost dv = diffs_view(ds@);
    let mut k: usize = 0;
    while k < ds.len()
        invariant
            k <= ds@.len(),
            dv == diffs_view(ds@),
            strings_view(out@) == start + diff_lines(dv.subrange(0, k as int)),
        decreases ds@.len() - k,
    {
        push_line(out, diff_line(&ds[k]));
        assert(diff_lines(dv.subrange(0, k + 1)) =~= diff_lines(dv.subrange(0, k as int)).push(
            diff_text(dv[k as int]),
        ));
        k = k + 1;
    }
    assert(dv.subrange(0, k as int) =~= dv);
}

fn push_prefixed(out: &mut Vec<String>, prefix: &str, items: &[String])
    ensures
        strings_view(final(out)@) == strings_view(old(out)@) + prefixed(prefix@, strings_view(items@)),
{
    let ghost start = strings_view(out@);
    let ghost iv = strings_view(items@);
    let mut k: usize = 0;
    while k < items.len()
        invariant
            k <= items@.len(),
            iv == strings_view(items@),
            strings_view(out@) == start + prefixed(prefix@, iv.subrange(0, k as int)),
        decreases items@.len() - k,
    {
        let mut line = string_of(prefix);
        line.append(items[k].as_str());
        push_line(out, line);
        assert(prefixed(prefix@, iv.subrange(0, k + 1)) =~= prefixed(prefix@, iv.subrange(0, k as int)).push(
            prefix@ + iv[k as int],
        ));
        k = k + 1;
    }
    assert(iv.subrange(0, k as int) =~= iv);
}

/// The scenario's heading: its id and title, its summary, and how much
/// of it was replayed.
pub open spec fn heading_text(s: Scenario, cur: CurrentState) -> Seq<Seq<char>> {
    seq![
        s.id@ + " \u{2014} "@ + s.title@,
        s.summary@ + "\n"@,
        "replayed "@ + decimal(cur.steps_replayed as nat) + " of "@ + decimal(s.events@.len())
            + " divergence event(s)\n"@,
    ]
}

/// The merged view, its residue and its repair digest.
pub open spec fn merge_text(merge: DeterministicMerge) -> Seq<Seq<char>> {
    seq!["\nmerged view:"@, header_text()] + member_lines(members_view(merge.members@)) + seq![
        "\nvisible residue:"@,
    ] + (if merge.residues@.len() == 0 {
        seq!["  (none \u{2014} every path converged cleanly)"@]
    } else {
        Seq::empty()
    }) + residue_lines(residues_view(merge.residues@)) + seq![
        "\nrepair digest:"@,
        "  outcome: "@ + outcome_debug(merge.digest.overall_outcome),
    ] + prefixed("  input:   "@, strings_view(merge.digest.inputs@)) + prefixed(
        "  rule:    "@,
        strings_view(merge.digest.rules_fired@),
    )
}

/// The naive comparison: what "latest or loudest wins" would have kept,
/// and where it differs.
pub open spec fn naive_text(c: NaiveComparison) -> Seq<Seq<char>> {
    seq!["\nnaive reunion (\"latest or loudest wins\"):"@] + naive_lines(naive_view(c.naive@)) + (if c.diffs@.len()
        == 0 {
        seq!["  no differences \u{2014} nothing here needed honesty."@]
    } else {
        seq!["  differences:"@] + diff_lines(diffs_view(c.diffs@))
    })
}

/// The kernel cross-check; the naive comparison follows only when the
/// cross-check agreed.
pub open spec fn check_text(failures: Seq<Seq<char>>, naive: Option<NaiveComparison>) -> Seq<Seq<char>> {
    if failures.len() == 0 {
        seq!["\nkernel cross-check: the typed merge engine agrees with the lab oracle."@] + match naive {
            Some(c) => naive_text(c),
            None => Seq::empty(),
        }
    } else {
        seq!["\nkernel cross-check FAILED:"@] + prefixed("  "@, failures)
    }
}

pub open spec fn run_report_text(
    s: Scenario,
    cur: CurrentState,
    merge: DeterministicMerge,
    failures: Seq<Seq<char>>,
    naive: Option<NaiveComparison>,
) -> Seq<Seq<char>> {
    heading_text(s, cur) + seq![island_text(cur.island_a@), island_text(cur.island_b@)] + merge_text(merge)
        + check_text(failures, naive)
}

fn push_merge_lines(out: &mut Vec<String>, merge: &DeterministicMerge)
    ensures
        strings_view(final(out)@) == strings_view(old(out)@) + merge_text(*merge),
{
    let ghost start = strings_view(out@);
    push_line(out, string_of("\nmerged view:"));
    push_line(out, header_line());
    push_member_lines(out, merge.members.as_slice());
    push_line(out, string_of("\nvisible residue:"));
    if merge.residues.len() == 0 {
        push_line(out, string_of("  (none \u{2014} every path converged cleanly)"));
    }
    push_residue_lines(out, merge.residues.as_slice());
    push_line(out, string_of("\nrepair digest:"));
    let mut outcome = string_of("  outcome: ");
    outcome.append(outcome_debug_str(merge.digest.overall_outcome));
    push_line(out, outcome);
    push_prefixed(out, "  input:   ", merge.digest.inputs.as_slice());
    push_prefixed(out, "  rule:    ", merge.digest.rules_fired.as_slice());
    assert(strings_view(out@) =~= start + merge_text(*merge));
}

fn push_naive_text(out: &mut Vec<String>, c: &NaiveComparison)
    ensures
        strings_view(final(out)@) == strings_view(old(out)@) + naive_text(*c),
{
    let ghost start = strings_view(out@);
    push_line(out, string_of("\nnaive reunion (\"latest or loudest wins\"):"));
    push_naive_lines(out, c.naive.as_slice());
    if c.diffs.len() == 0 {
        push_line(out, string_of("  no differences \u{2014} nothing here needed honesty."));
    } else {
        push_line(out, string_of("  differences:"));
        push_diff_lines(out, c.diffs.as_slice());
    }
    assert(strings_view(out@) =~= start + naive_text(*c));
}

/// The console report of a scenario run, line by line.
pub fn run_report(
    scenario: &Scenario,
    current: &CurrentState,
    merge: &DeterministicMerge,
    failures: &[String],
    naive: Option<&NaiveComparison>,
) -> (r: Vec<String>)
    ensures
        strings_view(r@) == run_report_text(
            *scenario,
            *current,
            *merge,
            strings_view(failures@),
            match naive {
                Some(c) => Some(*c),
                None => None,
            },
        ),
{
    let mut out: Vec<String> = Vec::new();
    let mut title = string_of(scenario.id.as_str());
    title.append(" \u{2014} ");
    title.append(scenario.title.as_str());
    push_line(&mut out, title);
    let mut summary = string_of(scenario.summary.as_str());
    summary.append("\n");
    push_line(&mut out, summary);
    let mut replayed = string_of("replayed ");
    push_decimal(&mut replayed, current.steps_replayed as u64);
    replayed.append(" of ");
    push_decimal(&mut replayed, scenario.events.len() as u64);
    replayed.append(" divergence event(s)\n");
    push_line(&mut out, replayed);
    push_line(&mut out, island_line(&current.island_a));
    push_line(&mut out, island_line(&current.island_b));
    push_merge_lines(&mut out, merge);
    if failures.len() == 0 {
        push_line(
            &mut out,
            string_of("\nkernel cross-check: the typed merge engine agrees with the lab oracle."),
        );
        match naive {
            Some(c) => push_naive_text(&mut out, c),
            None => {},
        }
    } else {
        push_line(&mut out, string_of("\nkernel cross-check FAILED:"));
        push_prefixed(&mut out, "  ", failures);
    }
    assert(strings_view(out@) =~= run_report_text(
        *scenario,
        *current,
        *merge,
        strings_view(failures@),
        match naive {
            Some(c) => Some(*c),
            None => None,
        },
    ));
    out
}

pub open spec fn contains_text(s: Seq<char>, pat: Seq<char>) -> bool {
    exists|i: int| 0 <= i && i + pat.len() <= s.len() && #[trigger] s.subrange(i, i + pat.len()) == pat
}

pub fn str_contains(s: &str, pat: &str) -> (r: bool)
    ensures
        r == contains_text(s@, pat@),
{
    let n = s.unicode_len();
    let m = pat.unicode_len();
    if m > n {
        proof {
            assert forall|i: int| !(0 <= i && i + m <= n && #[trigger] s@.subrange(i, i + m) == pat@) by {}
        }
        return false;
    }
    let mut i: usize = 0;
    while i <= n - m
        invariant
            n == s@.len(),
            m == pat@.len(),
            m <= n,
            i <= n - m + 1,
            forall|j: int| 0 <= j < i ==> #[trigger] s@.subrange(j, j + m) != pat@,
        decreases n - m + 1 - i,
    {
        let mut k: usize = 0;
        let mut same = true;
        while k < m
            invariant
                n == s@.len(),
                m == pat@.len(),
                i + m <= n,
                k <= m,
                same <==> forall|j: int| 0 <= j < k ==> s@[i + j] == pat@[j],
            decreases m - k,
        {
            if s.get_char(i + k) != pat.get_char(k) {
                same = false;
            }
            k = k + 1;
        }
        if same {
            assert(s@.subrange(i as int, i + m) =~= pat@);
            return true;
        }
        proof {
            if s@.subrange(i as int, i + m) == pat@ {
                assert forall|j: int| 0 <= j < m implies s@[i + j] == pat@[j] by {
                    assert(s@.subrange(i as int, i + m)[j] == s@[i + j]);
                }
            }
        }
        i = i + 1;
    }
    false
}

/// An override that lands on a subject the merge did not leave in
/// dispute: the target is neither quarantined nor already marked by an
/// operator override rule.
pub open spec fn spec_override_target_undisputed(members: Seq<MergedMemberV>, subject: Seq<char>) -> bool {
    match first_with_id(members, subject) {
        Some(i) => members[i].status != BeliefState::Quarantined && forall|j: int|
            0 <= j < members[i].rule_summary.len() ==> !contains_text(
                #[trigger] members[i].rule_summary[j],
                "OperatorOverride"@,
            ),
        None => false,
    }
}

pub fn override_target_undisputed(merge: &DeterministicMerge, subject: &String) -> (r: bool)
    ensures
        r == spec_override_target_undisputed(members_view(merge.members@), subject@),
{
    match find_member(&merge.members, subject) {
        None => false,
        Some(i) => {
            let t = &merge.members[i];
            assert(members_view(merge.members@)[i as int] == t@);
            if t.status == BeliefState::Quarantined {
                return false;
            }
            let mut k: usize = 0;
            while k < t.rule_summary.len()
                invariant
                    k <= t.rule_summary@.len(),
                    i < merge.members@.len(),
                    members_view(merge.members@)[i as int] == t@,
                    first_with_id(members_view(merge.members@), subject@) == Some(i as int),
                    forall|j: int| 0 <= j < k ==> !contains_text(#[trigger] strings_view(t.rule_summary@)[j], "OperatorOverride"@),
                decreases t.rule_summary@.len() - k,
            {
                if str_contains(t.rule_summary[k].as_str(), "OperatorOverride") {
                    assert(strings_view(t.rule_summary@)[k as int] == t.rule_summary@[k as int]@);
                    assert(members_view(merge.members@)[i as int].rule_summary[k as int]
                        == t.rule_summary@[k as int]@);
                    assert(contains_text(
                        members_view(merge.members@)[i as int].rule_summary[k as int],
                        "OperatorOverride"@,
                    ));
                    return false;
                }
                k = k + 1;
            }
            true
        },
    }
}

/// One ranked candidate: a mark for the selected head, its position, and
/// in audit mode its padded id and token prefix.
pub open spec fn rank_entry_text(position: int, entry: (Seq<char>, Seq<u8>), take: nat, audit: bool) -> Seq<char> {
    "  "@ + (if position < take {
        "*"@
    } else {
        " "@
    }) + " "@ + pad_left(decimal(position as nat), 2) + ". "@ + if audit {
        pad_right(entry.0, 12) + " token "@ + hex_of(entry.1.subrange(0, 6))
    } else {
        entry.0
    }
}

pub open spec fn rank_entry_lines(ranked: Seq<(Seq<char>, Seq<u8>)>, take: nat, audit: bool) -> Seq<Seq<char>> {
    Seq::new(ranked.len(), |i: int| rank_entry_text(i, ranked[i], take, audit))
}

/// The rank command's output, and whether an audit reconstructed the
/// order.
pub open spec fn rank_report_text(
    scope: Seq<char>,
    epoch: u64,
    round: u64,
    sel: RankedSelectionV,
    take: nat,
    audit: bool,
) -> (Seq<Seq<char>>, bool) {
    let body = seq![
        "rank seed: domain=witness-selection scope="@ + scope + " epoch="@ + decimal(epoch as nat) + " round="@
            + decimal(round as nat),
        "selected "@ + decimal(sel.selected.len()) + " of "@ + decimal(sel.pool.len()) + ":"@,
    ] + rank_entry_lines(sel.ranked, take, audit);
    if !audit {
        (body, true)
    } else {
        match spec_reconstruct(sel) {
            Ok(_) => (body + seq![
                "reconstruction: ok \u{2014} any observer holding the seed and pool derives this exact order"@,
                "hint: change --round to watch the order rotate (hotspot damping)."@,
            ], true),
            Err(d) => (body + seq!["reconstruction FAILED: "@ + divergence_text(d)], false),
        }
    }
}

fn rank_entry_line(position: usize, entry: &(crate::id::PeerId, crate::rank::RankToken), take: usize, audit: bool) -> (r: String)
    ensures
        r@ == rank_entry_text(position as int, crate::rank::entry_view(*entry), take as nat, audit),
{
    let mut out = string_of("  ");
    if position < take {
        out.append("*");
    } else {
        out.append(" ");
    }
    out.append(" ");
    let mut pos = String::new();
    push_decimal(&mut pos, position as u64);
    push_right_aligned(&mut out, pos.as_str(), 2);
    out.append(". ");
    if audit {
        push_padded(&mut out, entry.0.as_str(), 12);
        out.append(" token ");
        let hex = entry.1.short_hex();
        out.append(hex.as_str());
    } else {
        out.append(entry.0.as_str());
    }
    out
}

/// Render a ranked selection, reconstructing it first in audit mode.
pub fn rank_report(
    scope: &str,
    epoch: u64,
    round: u64,
    selection: &RankedSelection,
    take: usize,
    audit: bool,
) -> (r: (Vec<String>, bool))
    ensures
        strings_view(r.0@) == rank_report_text(scope@, epoch, round, selection@, take as nat, audit).0,
        r.1 == rank_report_text(scope@, epoch, round, selection@, take as nat, audit).1,
{
    let mut out: Vec<String> = Vec::new();
    let mut head = string_of("rank seed: domain=witness-selection scope=");
    head.append(scope);
    head.append(" epoch=");
    push_decimal(&mut head, epoch);
    head.append(" round=");
    push_decimal(&mut head, round);
    push_line(&mut out, head);
    let mut counts = string_of("selected ");
    push_decimal(&mut counts, selection.selected.len() as u64);
    counts.append(" of ");
    push_decimal(&mut counts, selection.pool.len() as u64);
    counts.append(":");
    push_line(&mut out, counts);
    let ghost start = strings_view(out@);
    let ghost rv = selection@.ranked;
    let mut k: usize = 0;
    while k < selection.ranked.len()
        invariant
            k <= selection.ranked@.len(),
            rv == selection@.ranked,
            rv == crate::rank::entry_views(selection.ranked@),
            strings_view(out@) == start + rank_entry_lines(rv.subrange(0, k as int), take as nat, audit),
        decreases selection.ranked@.len() - k,
    {
        push_line(&mut out, rank_entry_line(k, &selection.ranked[k], take, audit));
        assert(rank_entry_lines(rv.subrange(0, k + 1), take as nat, audit) =~= rank_entry_lines(
            rv.subrange(0, k as int),
            take as nat,
            audit,
        ).push(rank_entry_text(k as int, rv[k as int], take as nat, audit)));
        k = k + 1;
    }
    assert(rv.subrange(0, k as int) =~= rv);
    if !audit {
        return (out, true);
    }
    match reconstruct(selection) {
        Ok(()) => {
            push_line(
                &mut out,
                string_of("reconstruction: ok \u{2014} any observer holding the seed and pool derives this exact order"),
            );
            push_line(&mut out, string_of("hint: change --round to watch the order rotate (hotspot damping)."));
            (out, true)
        },
        Err(d) => {
            let mut line = string_of("reconstruction FAILED: ");
            let text = d.describe();
            line.append(text.as_str());
            push_line(&mut out, line);
            (out, false)
        },
    }
}

/// The simulation's console summary.
pub open spec fn sim_report_text(r: SimReport) -> Seq<Seq<char>> {
    seq!["resonant sim (seed "@ + decimal(r.config.seed as nat) + "):"@] + prefixed("  "@, strings_view(r.narrative@))
        + seq![
        "\n  victim "@ + r.victim@ + " -> "@ + state_name(r.victim_state),
        "  residue: "@ + decimal(r.unresolved_residue as nat) + " unresolved, "@ + decimal(
            r.handled_residue as nat,
        ) + " handled by override"@,
        "  overall: "@ + kernel_outcome_name(r.overall),
        "  islands converged: "@ + bool_text(r.converged) + " (content hashes "@ + (if r.converged {
            "match"@
        } else {
            "differ"@
        }) + ")"@,
        "  transcript heads: island A "@ + r.transcript_heads@[0]@ + " / island B "@ + r.transcript_heads@[1]@,
    ]
}

pub fn sim_report_lines(r: &SimReport) -> (lines: Vec<String>)
    ensures
        strings_view(lines@) == sim_report_text(*r),
{
    let mut out: Vec<String> = Vec::new();
    let mut head = string_of("resonant sim (seed ");
    push_decimal(&mut head, r.config.seed);
    head.append("):");
    push_line(&mut out, head);
    push_prefixed(&mut out, "  ", r.narrative.as_slice());
    let mut victim = string_of("\n  victim ");
    victim.append(r.victim.as_str());
    victim.append(" -> ");
    victim.append(r.victim_state.as_str());
    push_line(&mut out, victim);
    let mut residue = string_of("  residue: ");
    push_decimal(&mut residue, r.unresolved_residue as u64);
    residue.append(" unresolved, ");
    push_decimal(&mut residue, r.handled_residue as u64);
    residue.append(" handled by override");
    push_line(&mut out, residue);
    let mut overall = string_of("  overall: ");
    overall.append(kernel_outcome_str(r.overall));
    push_line(&mut out, overall);
    let mut converged = string_of("  islands converged: ");
    converged.append(bool_str(r.converged));
    converged.append(" (content hashes ");
    if r.converged {
        converged.append("match");
    } else {
        converged.append("differ");
    }
    converged.append(")");
    push_line(&mut out, converged);
    let mut heads = string_of("  transcript heads: island A ");
    heads.append(r.transcript_heads[0].as_str());
    heads.append(" / island B ");
    heads.append(r.transcript_heads[1].as_str());
    push_line(&mut out, heads);
    assert(strings_view(out@) =~= sim_report_text(*r));
    out
}

pub open spec fn index_entry_text(e: IndexEntry) -> Seq<char> {
    "  "@ + pad_right(e.id@, 44) + " "@ + e.title@
}

pub open spec fn index_entry_lines(es: Seq<IndexEntry>) -> Seq<Seq<char>> {
    es.map_values(|e: IndexEntry| index_entry_text(e))
}

/// The corpus listing: the lab's name and where the corpus lies, then
/// each scenario's id and title.
pub open spec fn index_text(index: ScenarioIndex, location: Seq<char>) -> Seq<Seq<char>> {
    seq!["scenario corpus: "@ + index.lab@ + " ("@ + location + ")"@] + index_entry_lines(index.scenarios@)
}

pub fn index_lines(index: &ScenarioIndex, location: &str) -> (r: Vec<String>)
    ensures
        strings_view(r@) == index_text(*index, location@),
{
    let mut out: Vec<String> = Vec::new();
    let mut head = string_of("scenario corpus: ");
    head.append(index.lab.as_str());
    head.append(" (");
    head.append(location);
    head.append(")");
    push_line(&mut out, head);
    let ghost start = strings_view(out@);
    let ghost es = index.scenarios@;
    let mut k: usize = 0;
    while k < index.scenarios.len()
        invariant
            k <= es.len(),
            es == index.scenarios@,
            strings_view(out@) == start + index_entry_lines(es.subrange(0, k as int)),
        decreases es.len() - k,
    {
        let e = &index.scenarios[k];
        let mut line = string_of("  ");
        push_padded(&mut line, e.id.as_str(), 44);
        line.append(" ");
        line.append(e.title.as_str());
        push_line(&mut out, line);
        assert(index_entry_lines(es.subrange(0, k + 1)) =~= index_entry_lines(es.subrange(0, k as int)).push(
            index_entry_text(es[k as int]),
        ));
        k = k + 1;
    }
    assert(es.subrange(0, k as int) =~= es);
    out
}

} // verus!
