//! The reference merge oracle.
//!
//! A direct, string-exact rendering of the Deterministic Reunion Lab's
//! merge semantics: per-subject merge, whole-view deterministic reunion
//! with an optional operator override, the naive "latest or loudest wins"
//! strawman, the comparison between the two, and per-island status counts.
//! The kernel's tiered merge engine is checked for structural equivalence
//! against this oracle on the whole corpus.
//!
//! Ties resolved toward Island A by input order are named in the rule
//! summary rather than left implicit.

use crate::belief::state::{state_name, BeliefState};
use crate::evidence::{Diversity, Quality};
use crate::collections::map_get;
use crate::id::SubjectId;
use crate::lab::replay::CurrentState;
use crate::lab::scenario::{IslandView, IslandViewV, MemberEntry, OperatorOverride, Scenario, Scope, Subject};
use crate::text::{decimal, push_decimal};
use crate::policy::{
    merge_policy_bounded, WEIGHT_LIMIT, spec_diversity_score, spec_informer_score, spec_quality_score, MergePolicy};
use crate::text::{string_of, strings_view};
use vstd::prelude::*;
use vstd::string::StringExecFns;

verus! {

pub const MEANINGLESS_SCORE: i64 = -999;

/// Where a merged belief came from.
#[derive(Debug, Clone, Copy, PartialEq, Eq, Structural)]
pub enum Source {
    Neither,
    IslandA,
    IslandB,
    Both,
    Override,
}

pub open spec fn source_name(s: Source) -> Seq<char> {
    match s {
        Source::Neither => "none"@,
        Source::IslandA => "island_a"@,
        Source::IslandB => "island_b"@,
        Source::Both => "both"@,
        Source::Override => "override"@,
    }
}

impl Source {
    pub fn as_str(self) -> (r: &'static str)
        ensures
            r@ == source_name(self),
    {
        match self {
            Source::Neither => "none",
            Source::IslandA => "island_a",
            Source::IslandB => "island_b",
            Source::Both => "both",
            Source::Override => "override",
        }
    }
}

/// Stability of a merged belief. Independent of residue: an epoch race
/// can merge `stable` yet still carry a visible scar.
#[derive(Debug, Clone, Copy, PartialEq, Eq, Structural)]
pub enum Stability {
    Stable,
    Provisional,
    StableWithOverride,
}

#[derive(Debug, Clone, PartialEq, Eq)]
pub struct OracleResidue {
    pub subject_label: String,
    pub detail: String,
    pub handled_by_override: bool,
}

pub struct OracleResidueV {
    pub subject_label: Seq<char>,
    pub detail: Seq<char>,
    pub handled_by_override: bool,
}

impl View for OracleResidue {
    type V = OracleResidueV;

    open spec fn view(&self) -> OracleResidueV {
        OracleResidueV {
            subject_label: self.subject_label@,
            detail: self.detail@,
            handled_by_override: self.handled_by_override,
        }
    }
}

impl OracleResidue {
    pub fn duplicate(&self) -> (r: Self)
        ensures
            r@ == self@,
    {
        OracleResidue {
            subject_label: self.subject_label.clone(),
            detail: self.detail.clone(),
            handled_by_override: self.handled_by_override,
        }
    }
}

pub open spec fn residue_view(r: Option<OracleResidue>) -> Option<OracleResidueV> {
    match r {
        Some(x) => Some(x@),
        None => None,
    }
}

#[derive(Debug, Clone, PartialEq, Eq)]
pub struct MergedMember {
    pub subject_id: String,
    pub subject_label: String,
    pub source: Source,
    pub status: BeliefState,
    pub stability: Stability,
    pub epoch: u64,
    pub trust_weight: i64,
    pub explanation: String,
    pub rule_summary: Vec<String>,
    pub residue: Option<OracleResidue>,
}

pub struct MergedMemberV {
    pub subject_id: Seq<char>,
    pub subject_label: Seq<char>,
    pub source: Source,
    pub status: BeliefState,
    pub stability: Stability,
    pub epoch: u64,
    pub trust_weight: i64,
    pub explanation: Seq<char>,
    pub rule_summary: Seq<Seq<char>>,
    pub residue: Option<OracleResidueV>,
}

impl View for MergedMember {
    type V = MergedMemberV;

    open spec fn view(&self) -> MergedMemberV {
        MergedMemberV {
            subject_id: self.subject_id@,
            subject_label: self.subject_label@,
            source: self.source,
            status: self.status,
            stability: self.stability,
            epoch: self.epoch,
            trust_weight: self.trust_weight,
            explanation: self.explanation@,
            rule_summary: strings_view(self.rule_summary@),
            residue: residue_view(self.residue),
        }
    }
}

pub fn copy_strings(v: &Vec<String>) -> (r: Vec<String>)
    ensures
        strings_view(r@) == strings_view(v@),
{
    let mut out: Vec<String> = Vec::new();
    let mut i: usize = 0;
    while i < v.len()
        invariant
            i <= v@.len(),
            strings_view(out@) == strings_view(v@.subrange(0, i as int)),
        decreases v@.len() - i,
    {
        let ghost before = out@;
        out.push(v[i].clone());
        proof {
            assert(strings_view(out@) =~= strings_view(before).push(v@[i as int]@));
            assert(v@.subrange(0, i + 1) =~= v@.subrange(0, i as int).push(v@[i as int]));
            assert(strings_view(v@.subrange(0, i + 1)) =~= strings_view(v@.subrange(0, i as int)).push(v@[i as int]@));
        }
        i = i + 1;
    }
    assert(v@.subrange(0, i as int) =~= v@);
    out
}

impl MergedMember {
    pub fn duplicate(&self) -> (r: Self)
        ensures
            r@ == self@,
    {
        MergedMember {
            subject_id: self.subject_id.clone(),
            subject_label: self.subject_label.clone(),
            source: self.source,
            status: self.status,
            stability: self.stability,
            epoch: self.epoch,
            trust_weight: self.trust_weight,
            explanation: self.explanation.clone(),
            rule_summary: copy_strings(&self.rule_summary),
            residue: match &self.residue {
                Some(r) => Some(r.duplicate()),
                None => None,
            },
        }
    }
}

/// A present entry with a known status and positive trust weight.
pub open spec fn spec_meaningful(e: Option<MemberEntry>) -> bool {
    e matches Some(x) && x.status != BeliefState::Unknown && x.trust_weight > 0
}

pub open spec fn spec_restrictive(e: MemberEntry) -> bool {
    e.status == BeliefState::Removed || e.status == BeliefState::Quarantined
}

pub open spec fn spec_permissive(e: MemberEntry) -> bool {
    e.status == BeliefState::Accepted || e.status == BeliefState::Provisional
}

pub open spec fn spec_scope_score(p: MergePolicy, s: Scope) -> i64 {
    match s {
        Scope::Global => p.scope_global,
        _ => p.scope_regional,
    }
}

/// Trust weight plus quality, diversity, scope and capped informer
/// scores; `MEANINGLESS_SCORE` for an entry that does not count.
pub open spec fn spec_entry_score(p: MergePolicy, e: Option<MemberEntry>) -> int {
    if !spec_meaningful(e) {
        -999
    } else {
        let x = e.unwrap();
        x.trust_weight + spec_quality_score(p, x.witness_summary.quality) + spec_diversity_score(
            p,
            x.witness_summary.diversity,
        ) + spec_scope_score(p, x.scope) + spec_informer_score(p, x.witness_summary.count)
    }
}

/// Trust weights the score arithmetic carries without overflow.
pub open spec fn weight_in_range(e: Option<MemberEntry>) -> bool {
    e matches Some(x) ==> -WEIGHT_LIMIT <= x.trust_weight <= WEIGHT_LIMIT
}

pub fn is_meaningful(entry: Option<&MemberEntry>) -> (r: bool)
    ensures
        r == spec_meaningful(option_entry(entry)),
{
    match entry {
        Some(e) => e.status != BeliefState::Unknown && e.trust_weight > 0,
        None => false,
    }
}

pub open spec fn option_entry(e: Option<&MemberEntry>) -> Option<MemberEntry> {
    match e {
        Some(x) => Some(*x),
        None => None,
    }
}

pub fn is_restrictive(entry: &MemberEntry) -> (r: bool)
    ensures
        r == spec_restrictive(*entry),
{
    entry.status == BeliefState::Removed || entry.status == BeliefState::Quarantined
}

pub fn is_permissive(entry: &MemberEntry) -> (r: bool)
    ensures
        r == spec_permissive(*entry),
{
    entry.status == BeliefState::Accepted || entry.status == BeliefState::Provisional
}

pub fn entry_score(policy: &MergePolicy, entry: Option<&MemberEntry>) -> (r: i64)
    requires
        merge_policy_bounded(*policy),
        weight_in_range(option_entry(entry)),
    ensures
        r == spec_entry_score(*policy, option_entry(entry)),
        -5 * WEIGHT_LIMIT <= r <= 5 * WEIGHT_LIMIT,
{
    if !is_meaningful(entry) {
        return MEANINGLESS_SCORE;
    }
    let e = entry.unwrap();
    let scope_score = match e.scope {
        Scope::Global => policy.scope_global,
        Scope::RegionalA | Scope::RegionalB => policy.scope_regional,
    };
    let informer = policy.informer_score(e.witness_summary.count);
    proof {
        crate::policy::lemma_informer_capped(*policy, e.witness_summary.count);
    }
    e.trust_weight + policy.quality_score(e.witness_summary.quality) + policy.diversity_score(
        e.witness_summary.diversity,
    ) + scope_score + informer
}

/// Which permissive side the oracle keeps: fresher within slack, then
/// clearly stronger, then the accepted one, then Island A on a tie.
pub open spec fn spec_choose_a(p: MergePolicy, a: MemberEntry, b: MemberEntry) -> bool {
    let sa = spec_entry_score(p, Some(a));
    let sb = spec_entry_score(p, Some(b));
    if a.epoch > b.epoch && sa >= sb - p.permissive_epoch_slack {
        true
    } else if b.epoch > a.epoch && sb >= sa - p.permissive_epoch_slack {
        false
    } else if sa > sb + p.permissive_margin {
        true
    } else if sb > sa + p.permissive_margin {
        false
    } else if a.status == BeliefState::Accepted && b.status != BeliefState::Accepted {
        true
    } else if b.status == BeliefState::Accepted && a.status != BeliefState::Accepted {
        false
    } else {
        sa >= sb
    }
}

fn choose_a(policy: &MergePolicy, a: &MemberEntry, b: &MemberEntry) -> (r: bool)
    requires
        merge_policy_bounded(*policy),
        weight_in_range(Some(*a)),
        weight_in_range(Some(*b)),
    ensures
        r == spec_choose_a(*policy, *a, *b),
{
    let score_a = entry_score(policy, Some(a));
    let score_b = entry_score(policy, Some(b));
    if a.epoch > b.epoch && score_a >= score_b - policy.permissive_epoch_slack {
        return true;
    }
    if b.epoch > a.epoch && score_b >= score_a - policy.permissive_epoch_slack {
        return false;
    }
    if score_a > score_b + policy.permissive_margin {
        return true;
    }
    if score_b > score_a + policy.permissive_margin {
        return false;
    }
    if a.status == BeliefState::Accepted && b.status != BeliefState::Accepted {
        return true;
    }
    if b.status == BeliefState::Accepted && a.status != BeliefState::Accepted {
        return false;
    }
    score_a >= score_b
}

pub open spec fn max_u64(x: u64, y: u64) -> u64 {
    if x >= y {
        x
    } else {
        y
    }
}

pub open spec fn max_i64(x: i64, y: i64) -> i64 {
    if x >= y {
        x
    } else {
        y
    }
}

pub open spec fn epoch_or_zero(e: Option<MemberEntry>) -> u64 {
    match e {
        Some(x) => x.epoch,
        None => 0,
    }
}

pub open spec fn weight_or_zero(e: Option<MemberEntry>) -> i64 {
    match e {
        Some(x) => x.trust_weight,
        None => 0,
    }
}

pub open spec fn unresolved_note(subject: Subject, detail: Seq<char>) -> Option<OracleResidueV> {
    Some(OracleResidueV { subject_label: subject.label@, detail, handled_by_override: false })
}

/// The merged member before any rule fires.
pub open spec fn base_member(subject: Subject, a: Option<MemberEntry>, b: Option<MemberEntry>) -> MergedMemberV {
    MergedMemberV {
        subject_id: subject.id@,
        subject_label: subject.label@,
        source: Source::Neither,
        status: BeliefState::Unknown,
        stability: Stability::Stable,
        epoch: max_u64(epoch_or_zero(a), epoch_or_zero(b)),
        trust_weight: max_i64(weight_or_zero(a), weight_or_zero(b)),
        explanation: "No admissible view survived the reunion."@,
        rule_summary: Seq::empty(),
        residue: None,
    }
}

pub open spec fn one_sided_detail() -> Seq<char> {
    "Only one island had enough evidence to speak. Reunion preserves that asymmetry instead of pretending shared certainty."@
}

/// Exactly one side is admissible: carry it forward.
pub open spec fn one_sided_member(p: MergePolicy, subject: Subject, a: Option<MemberEntry>, b: Option<MemberEntry>) -> MergedMemberV {
    let base = base_member(subject, a, b);
    let (e, source, island) = if spec_meaningful(a) {
        (a.unwrap(), Source::IslandA, "Island A"@)
    } else {
        (b.unwrap(), Source::IslandB, "Island B"@)
    };
    let stability = if spec_entry_score(p, Some(e)) >= p.one_sided_stable && e.status
        != BeliefState::Provisional {
        Stability::Stable
    } else {
        Stability::Provisional
    };
    MergedMemberV {
        source,
        status: e.status,
        stability,
        epoch: e.epoch,
        trust_weight: e.trust_weight,
        explanation: "Only "@ + island + " carried an admissible path into reunion."@,
        rule_summary: seq!["Single-sided admissible state carried forward."@],
        residue: if stability == Stability::Provisional {
            unresolved_note(subject, one_sided_detail())
        } else {
            None
        },
        ..base
    }
}

/// Both sides agree on the state.
pub open spec fn agreeing_member(p: MergePolicy, subject: Subject, a: MemberEntry, b: MemberEntry) -> MergedMemberV {
    let base = base_member(subject, Some(a), Some(b));
    MergedMemberV {
        source: Source::Both,
        status: a.status,
        stability: if a.status == BeliefState::Provisional {
            Stability::Provisional
        } else {
            Stability::Stable
        },
        epoch: max_u64(a.epoch, b.epoch),
        trust_weight: max_i64(a.trust_weight, b.trust_weight),
        explanation: "Both islands converge on "@ + state_name(a.status) + "."@,
        rule_summary: seq![
            "Matching local outcomes converge cleanly."@,
            if spec_entry_score(p, Some(a)) >= spec_entry_score(p, Some(b)) {
                "Island A supplied the stronger retained detail."@
            } else {
                "Island B supplied the stronger retained detail."@
            },
        ],
        residue: None,
        ..base
    }
}

/// Is a laundered cluster discounted? (If both sides were laundered,
/// Island A is the one treated as laundered.)
pub open spec fn launder_applies(p: MergePolicy, a: MemberEntry, b: MemberEntry) -> bool {
    let la = a.witness_summary.diversity == Diversity::Laundered;
    let lb = b.witness_summary.diversity == Diversity::Laundered;
    let (laundered, other) = if la {
        (a, b)
    } else {
        (b, a)
    };
    (la || lb) && spec_entry_score(p, Some(other)) >= spec_entry_score(p, Some(laundered))
        - p.laundering_tolerance
}

pub open spec fn laundered_member(subject: Subject, a: MemberEntry, b: MemberEntry) -> MergedMemberV {
    let base = base_member(subject, Some(a), Some(b));
    let la = a.witness_summary.diversity == Diversity::Laundered;
    let (laundered, laundered_island, other, other_source, other_island) = if la {
        (a, "Island A"@, b, Source::IslandB, "Island B"@)
    } else {
        (b, "Island B"@, a, Source::IslandA, "Island A"@)
    };
    MergedMemberV {
        source: other_source,
        status: if other.status == BeliefState::Accepted {
            BeliefState::Provisional
        } else {
            other.status
        },
        stability: Stability::Provisional,
        epoch: max_u64(other.epoch, laundered.epoch),
        trust_weight: other.trust_weight,
        explanation: "Low-quality reinforcing witnesses were discounted during reunion."@,
        rule_summary: seq![
            "Trust and corroboration quality dominated raw witness count."@,
            other_island + " preserved the more admissible path."@,
        ],
        residue: unresolved_note(
            subject,
            laundered_island
                + " accumulated a louder but lower-quality witness cluster. The merge retains that laundering attempt as visible residue."@,
        ),
        ..base
    }
}

pub open spec fn abs_int(x: int) -> int {
    if x < 0 {
        -x
    } else {
        x
    }
}

/// A restrictive side meets a differing state. (If both sides are
/// restrictive, Island A is the restrictive one.)
pub open spec fn restrictive_member(p: MergePolicy, subject: Subject, a: MemberEntry, b: MemberEntry) -> MergedMemberV {
    let base = base_member(subject, Some(a), Some(b));
    let sa = spec_entry_score(p, Some(a));
    let sb = spec_entry_score(p, Some(b));
    let (r, q, r_source, q_island) = if spec_restrictive(a) {
        (a, b, Source::IslandA, "Island B"@)
    } else {
        (b, a, Source::IslandB, "Island A"@)
    };
    let sr = spec_entry_score(p, Some(r));
    let sq = spec_entry_score(p, Some(q));
    if r.epoch == q.epoch && r.witness_summary.quality != Quality::Weak && q.witness_summary.quality
        != Quality::Weak && abs_int(sa - sb) < p.dispute_closeness {
        MergedMemberV {
            source: Source::Both,
            status: BeliefState::Disputed,
            stability: Stability::Provisional,
            explanation: "Fresh admissible evidence remains materially unresolved after the allowed dominance checks."@,
            rule_summary: seq!["Same-epoch high-trust conflict survives as residue."@],
            residue: unresolved_note(
                subject,
                "Island A says "@ + state_name(a.status) + ". Island B says "@ + state_name(b.status)
                    + ". Both paths remain fresh enough that deterministic reunion refuses to counterfeit certainty."@,
            ),
            ..base
        }
    } else if r.epoch > q.epoch && sr >= sq - p.restrictive_fresh_slack {
        MergedMemberV {
            source: r_source,
            status: r.status,
            stability: Stability::Stable,
            epoch: r.epoch,
            trust_weight: r.trust_weight,
            explanation: "Newer restrictive evidence dominates the older permissive path."@,
            rule_summary: seq!["Fresh restrictive evidence dominated older permissive evidence."@],
            residue: unresolved_note(
                subject,
                q_island
                    + " still carried a coherent permissive path. The race remains visible even though the newer restrictive path wins."@,
            ),
            ..base
        }
    } else if sr >= sq + p.restrictive_dominance {
        MergedMemberV {
            source: r_source,
            status: r.status,
            stability: Stability::Provisional,
            epoch: r.epoch,
            trust_weight: r.trust_weight,
            explanation: "Restrictive evidence dominates on trust and admissibility, but the opposing path remains visible."@,
            rule_summary: seq!["Trust and scope authority favored the restrictive path."@],
            residue: unresolved_note(
                subject,
                "The merge chooses the restrictive path, but it keeps the opposing history as residue rather than pretending the split never happened."@,
            ),
            ..base
        }
    } else {
        MergedMemberV {
            source: Source::Both,
            status: BeliefState::Disputed,
            stability: Stability::Provisional,
            explanation: "Restriction versus acceptance remained too close to resolve honestly."@,
            rule_summary: seq!["Conflict survived the deterministic reunion pass."@],
            residue: unresolved_note(
                subject,
                "Restriction and acceptance remained materially close for "@ + subject.label@
                    + ". The conflict stays visible."@,
            ),
            ..base
        }
    }
}

/// Both sides lean permissive.
pub open spec fn permissive_member(p: MergePolicy, subject: Subject, a: MemberEntry, b: MemberEntry) -> MergedMemberV {
    let base = base_member(subject, Some(a), Some(b));
    let (chosen, other, source) = if spec_choose_a(p, a, b) {
        (a, b, Source::IslandA)
    } else {
        (b, a, Source::IslandB)
    };
    if chosen.status == BeliefState::Provisional && other.status == BeliefState::Accepted {
        MergedMemberV {
            source,
            status: chosen.status,
            stability: Stability::Provisional,
            epoch: max_u64(a.epoch, b.epoch),
            trust_weight: chosen.trust_weight,
            explanation: "Fresher admissible evidence downgrades the older acceptance path."@,
            rule_summary: seq!["Freshness dominated older permissive acceptance."@],
            residue: unresolved_note(
                subject,
                state_name(other.status)
                    + " on the older path remains visible as residue, because recontact did not restore innocence."@,
            ),
            ..base
        }
    } else {
        let stability = if chosen.status == BeliefState::Accepted && spec_entry_score(p, Some(chosen))
            >= spec_entry_score(p, Some(other)) + p.accept_converge_margin {
            Stability::Stable
        } else {
            Stability::Provisional
        };
        MergedMemberV {
            source,
            status: chosen.status,
            stability,
            epoch: max_u64(a.epoch, b.epoch),
            trust_weight: chosen.trust_weight,
            explanation: "Both islands lean permissive, and the stronger path closes the gap."@,
            rule_summary: seq!["Permissive paths converged under freshness and trust weighting."@],
            residue: if stability == Stability::Provisional {
                unresolved_note(
                    subject,
                    "The two islands leaned the same direction, but one path remained weaker enough that the merged result stays provisional."@,
                )
            } else {
                None
            },
            ..base
        }
    }
}

/// Mixed shapes not caught by any earlier rule.
pub open spec fn fallback_member(p: MergePolicy, subject: Subject, a: MemberEntry, b: MemberEntry) -> MergedMemberV {
    let base = base_member(subject, Some(a), Some(b));
    let a_wins = spec_entry_score(p, Some(a)) >= spec_entry_score(p, Some(b));
    MergedMemberV {
        source: if a_wins {
            Source::IslandA
        } else {
            Source::IslandB
        },
        status: if a_wins {
            a.status
        } else {
            b.status
        },
        stability: Stability::Provisional,
        epoch: max_u64(a.epoch, b.epoch),
        trust_weight: max_i64(a.trust_weight, b.trust_weight),
        explanation: "The reunion retained the stronger path, but not without visible caution."@,
        rule_summary: seq!["Fallback deterministic comparison retained the stronger admissible path."@],
        residue: unresolved_note(
            subject,
            "This subject still carried enough disagreement to keep a visible scar in the merged view."@,
        ),
        ..base
    }
}

/// The oracle's per-subject merge.
pub open spec fn spec_merge_subject(p: MergePolicy, subject: Subject, a: Option<MemberEntry>, b: Option<MemberEntry>) -> MergedMemberV {
    let has_a = spec_meaningful(a);
    let has_b = spec_meaningful(b);
    if !has_a && !has_b {
        MergedMemberV {
            rule_summary: seq!["No admissible input survived for this subject."@],
            ..base_member(subject, a, b)
        }
    } else if has_a != has_b {
        one_sided_member(p, subject, a, b)
    } else {
        let x = a.unwrap();
        let y = b.unwrap();
        if x.status == y.status {
            agreeing_member(p, subject, x, y)
        } else if launder_applies(p, x, y) {
            laundered_member(subject, x, y)
        } else if spec_restrictive(x) || spec_restrictive(y) {
            restrictive_member(p, subject, x, y)
        } else if spec_permissive(x) && spec_permissive(y) {
            permissive_member(p, subject, x, y)
        } else {
            fallback_member(p, subject, x, y)
        }
    }
}


fn text2(a: &str, b: &str) -> (r: String)
    ensures
        r@ == a@ + b@,
{
    let mut r = string_of(a);
    r.append(b);
    r
}

fn text3(a: &str, b: &str, c: &str) -> (r: String)
    ensures
        r@ == a@ + b@ + c@,
{
    let mut r = string_of(a);
    r.append(b);
    r.append(c);
    r
}

fn one_rule(s: &str) -> (r: Vec<String>)
    ensures
        strings_view(r@) == seq![s@],
{
    let mut r: Vec<String> = Vec::new();
    r.push(string_of(s));
    assert(strings_view(r@) =~= seq![s@]);
    r
}

fn two_rules(s1: &str, s2: String) -> (r: Vec<String>)
    ensures
        strings_view(r@) == seq![s1@, s2@],
{
    let mut r: Vec<String> = Vec::new();
    r.push(string_of(s1));
    r.push(s2);
    assert(strings_view(r@) =~= seq![s1@, s2@]);
    r
}

fn note(subject: &Subject, detail: String) -> (r: Option<OracleResidue>)
    ensures
        residue_view(r) == unresolved_note(*subject, detail@),
{
    Some(OracleResidue { subject_label: subject.label.clone(), detail, handled_by_override: false })
}

fn base(subject: &Subject, a: Option<&MemberEntry>, b: Option<&MemberEntry>) -> (r: MergedMember)
    ensures
        r@ == base_member(*subject, option_entry(a), option_entry(b)),
{
    let ea: u64 = match a {
        Some(e) => e.epoch,
        None => 0,
    };
    let eb: u64 = match b {
        Some(e) => e.epoch,
        None => 0,
    };
    let wa: i64 = match a {
        Some(e) => e.trust_weight,
        None => 0,
    };
    let wb: i64 = match b {
        Some(e) => e.trust_weight,
        None => 0,
    };
    let r = MergedMember {
        subject_id: subject.id.clone(),
        subject_label: subject.label.clone(),
        source: Source::Neither,
        status: BeliefState::Unknown,
        stability: Stability::Stable,
        epoch: if ea >= eb {
            ea
        } else {
            eb
        },
        trust_weight: if wa >= wb {
            wa
        } else {
            wb
        },
        explanation: string_of("No admissible view survived the reunion."),
        rule_summary: Vec::new(),
        residue: None,
    };
    assert(strings_view(r.rule_summary@) =~= Seq::<Seq<char>>::empty());
    r
}

fn one_sided(policy: &MergePolicy, subject: &Subject, a: Option<&MemberEntry>, b: Option<&MemberEntry>) -> (r: MergedMember)
    requires
        merge_policy_bounded(*policy),
        weight_in_range(option_entry(a)),
        weight_in_range(option_entry(b)),
        spec_meaningful(option_entry(a)) != spec_meaningful(option_entry(b)),
    ensures
        r@ == one_sided_member(*policy, *subject, option_entry(a), option_entry(b)),
{
    let mut r = base(subject, a, b);
    let has_a = is_meaningful(a);
    let (e, source, island) = if has_a {
        (a.unwrap(), Source::IslandA, "Island A")
    } else {
        (b.unwrap(), Source::IslandB, "Island B")
    };
    r.source = source;
    r.status = e.status;
    r.stability = if entry_score(policy, Some(e)) >= policy.one_sided_stable && e.status
        != BeliefState::Provisional {
        Stability::Stable
    } else {
        Stability::Provisional
    };
    r.epoch = e.epoch;
    r.trust_weight = e.trust_weight;
    r.explanation = text3("Only ", island, " carried an admissible path into reunion.");
    r.rule_summary = one_rule("Single-sided admissible state carried forward.");
    if r.stability == Stability::Provisional {
        r.residue = note(
            subject,
            string_of(
                "Only one island had enough evidence to speak. Reunion preserves that asymmetry instead of pretending shared certainty.",
            ),
        );
    }
    r
}

fn agreeing(policy: &MergePolicy, subject: &Subject, a: &MemberEntry, b: &MemberEntry) -> (r: MergedMember)
    requires
        merge_policy_bounded(*policy),
        weight_in_range(Some(*a)),
        weight_in_range(Some(*b)),
    ensures
        r@ == agreeing_member(*policy, *subject, *a, *b),
{
    let mut r = base(subject, Some(a), Some(b));
    r.source = Source::Both;
    r.status = a.status;
    r.stability = if a.status == BeliefState::Provisional {
        Stability::Provisional
    } else {
        Stability::Stable
    };
    r.epoch = if a.epoch >= b.epoch {
        a.epoch
    } else {
        b.epoch
    };
    r.trust_weight = if a.trust_weight >= b.trust_weight {
        a.trust_weight
    } else {
        b.trust_weight
    };
    r.explanation = text3("Both islands converge on ", a.status.as_str(), ".");
    let stronger = if entry_score(policy, Some(a)) >= entry_score(policy, Some(b)) {
        string_of("Island A supplied the stronger retained detail.")
    } else {
        string_of("Island B supplied the stronger retained detail.")
    };
    r.rule_summary = two_rules("Matching local outcomes converge cleanly.", stronger);
    r
}

fn laundered(subject: &Subject, a: &MemberEntry, b: &MemberEntry) -> (r: MergedMember)
    ensures
        r@ == laundered_member(*subject, *a, *b),
{
    let mut r = base(subject, Some(a), Some(b));
    let (laundered, laundered_island, other, other_source, other_island) = if a.witness_summary.diversity
        == Diversity::Laundered {
        (a, "Island A", b, Source::IslandB, "Island B")
    } else {
        (b, "Island B", a, Source::IslandA, "Island A")
    };
    r.source = other_source;
    r.status = if other.status == BeliefState::Accepted {
        BeliefState::Provisional
    } else {
        other.status
    };
    r.stability = Stability::Provisional;
    r.epoch = if other.epoch >= laundered.epoch {
        other.epoch
    } else {
        laundered.epoch
    };
    r.trust_weight = other.trust_weight;
    r.explanation = string_of("Low-quality reinforcing witnesses were discounted during reunion.");
    r.rule_summary = two_rules(
        "Trust and corroboration quality dominated raw witness count.",
        text2(other_island, " preserved the more admissible path."),
    );
    r.residue = note(
        subject,
        text2(
            laundered_island,
            " accumulated a louder but lower-quality witness cluster. The merge retains that laundering attempt as visible residue.",
        ),
    );
    r
}

fn launders(policy: &MergePolicy, a: &MemberEntry, b: &MemberEntry) -> (r: bool)
    requires
        merge_policy_bounded(*policy),
        weight_in_range(Some(*a)),
        weight_in_range(Some(*b)),
    ensures
        r == launder_applies(*policy, *a, *b),
{
    let la = a.witness_summary.diversity == Diversity::Laundered;
    let lb = b.witness_summary.diversity == Diversity::Laundered;
    if !la && !lb {
        return false;
    }
    let (laundered, other) = if la {
        (a, b)
    } else {
        (b, a)
    };
    entry_score(policy, Some(other)) >= entry_score(policy, Some(laundered)) - policy.laundering_tolerance
}

fn restrictive(policy: &MergePolicy, subject: &Subject, a: &MemberEntry, b: &MemberEntry) -> (r: MergedMember)
    requires
        merge_policy_bounded(*policy),
        weight_in_range(Some(*a)),
        weight_in_range(Some(*b)),
    ensures
        r@ == restrictive_member(*policy, *subject, *a, *b),
{
    let mut r = base(subject, Some(a), Some(b));
    let score_a = entry_score(policy, Some(a));
    let score_b = entry_score(policy, Some(b));
    let (rs, q, r_source, q_island) = if is_restrictive(a) {
        (a, b, Source::IslandA, "Island B")
    } else {
        (b, a, Source::IslandB, "Island A")
    };
    let score_r = entry_score(policy, Some(rs));
    let score_q = entry_score(policy, Some(q));
    let diff = score_a - score_b;
    let distance = if diff < 0 {
        -diff
    } else {
        diff
    };
    if rs.epoch == q.epoch && rs.witness_summary.quality != Quality::Weak && q.witness_summary.quality
        != Quality::Weak && distance < policy.dispute_closeness {
        r.source = Source::Both;
        r.status = BeliefState::Disputed;
        r.stability = Stability::Provisional;
        r.explanation = string_of(
            "Fresh admissible evidence remains materially unresolved after the allowed dominance checks.",
        );
        r.rule_summary = one_rule("Same-epoch high-trust conflict survives as residue.");
        let mut detail = text3("Island A says ", a.status.as_str(), ". Island B says ");
        detail.append(b.status.as_str());
        detail.append(
            ". Both paths remain fresh enough that deterministic reunion refuses to counterfeit certainty.",
        );
        r.residue = note(subject, detail);
        return r;
    }
    if rs.epoch > q.epoch && score_r >= score_q - policy.restrictive_fresh_slack {
        r.source = r_source;
        r.status = rs.status;
        r.stability = Stability::Stable;
        r.epoch = rs.epoch;
        r.trust_weight = rs.trust_weight;
        r.explanation = string_of("Newer restrictive evidence dominates the older permissive path.");
        r.rule_summary = one_rule("Fresh restrictive evidence dominated older permissive evidence.");
        r.residue = note(
            subject,
            text2(
                q_island,
                " still carried a coherent permissive path. The race remains visible even though the newer restrictive path wins.",
            ),
        );
        return r;
    }
    if score_r >= score_q + policy.restrictive_dominance {
        r.source = r_source;
        r.status = rs.status;
        r.stability = Stability::Provisional;
        r.epoch = rs.epoch;
        r.trust_weight = rs.trust_weight;
        r.explanation = string_of(
            "Restrictive evidence dominates on trust and admissibility, but the opposing path remains visible.",
        );
        r.rule_summary = one_rule("Trust and scope authority favored the restrictive path.");
        r.residue = note(
            subject,
            string_of(
                "The merge chooses the restrictive path, but it keeps the opposing history as residue rather than pretending the split never happened.",
            ),
        );
        return r;
    }
    r.source = Source::Both;
    r.status = BeliefState::Disputed;
    r.stability = Stability::Provisional;
    r.explanation = string_of("Restriction versus acceptance remained too close to resolve honestly.");
    r.rule_summary = one_rule("Conflict survived the deterministic reunion pass.");
    r.residue = note(
        subject,
        text3(
            "Restriction and acceptance remained materially close for ",
            subject.label.as_str(),
            ". The conflict stays visible.",
        ),
    );
    r
}

fn permissive(policy: &MergePolicy, subject: &Subject, a: &MemberEntry, b: &MemberEntry) -> (r: MergedMember)
    requires
        merge_policy_bounded(*policy),
        weight_in_range(Some(*a)),
        weight_in_range(Some(*b)),
    ensures
        r@ == permissive_member(*policy, *subject, *a, *b),
{
    let mut r = base(subject, Some(a), Some(b));
    let (chosen, other, source) = if choose_a(policy, a, b) {
        (a, b, Source::IslandA)
    } else {
        (b, a, Source::IslandB)
    };
    r.source = source;
    r.status = chosen.status;
    r.epoch = if a.epoch >= b.epoch {
        a.epoch
    } else {
        b.epoch
    };
    r.trust_weight = chosen.trust_weight;
    if chosen.status == BeliefState::Provisional && other.status == BeliefState::Accepted {
        r.stability = Stability::Provisional;
        r.explanation = string_of("Fresher admissible evidence downgrades the older acceptance path.");
        r.rule_summary = one_rule("Freshness dominated older permissive acceptance.");
        r.residue = note(
            subject,
            text2(
                other.status.as_str(),
                " on the older path remains visible as residue, because recontact did not restore innocence.",
            ),
        );
        return r;
    }
    r.stability = if chosen.status == BeliefState::Accepted && entry_score(policy, Some(chosen))
        >= entry_score(policy, Some(other)) + policy.accept_converge_margin {
        Stability::Stable
    } else {
        Stability::Provisional
    };
    r.explanation = string_of("Both islands lean permissive, and the stronger path closes the gap.");
    r.rule_summary = one_rule("Permissive paths converged under freshness and trust weighting.");
    if r.stability == Stability::Provisional {
        r.residue = note(
            subject,
            string_of(
                "The two islands leaned the same direction, but one path remained weaker enough that the merged result stays provisional.",
            ),
        );
    }
    r
}

fn fallback(policy: &MergePolicy, subject: &Subject, a: &MemberEntry, b: &MemberEntry) -> (r: MergedMember)
    requires
        merge_policy_bounded(*policy),
        weight_in_range(Some(*a)),
        weight_in_range(Some(*b)),
    ensures
        r@ == fallback_member(*policy, *subject, *a, *b),
{
    let mut r = base(subject, Some(a), Some(b));
    let a_wins = entry_score(policy, Some(a)) >= entry_score(policy, Some(b));
    r.source = if a_wins {
        Source::IslandA
    } else {
        Source::IslandB
    };
    r.status = if a_wins {
        a.status
    } else {
        b.status
    };
    r.stability = Stability::Provisional;
    r.epoch = if a.epoch >= b.epoch {
        a.epoch
    } else {
        b.epoch
    };
    r.trust_weight = if a.trust_weight >= b.trust_weight {
        a.trust_weight
    } else {
        b.trust_weight
    };
    r.explanation = string_of("The reunion retained the stronger path, but not without visible caution.");
    r.rule_summary = one_rule("Fallback deterministic comparison retained the stronger admissible path.");
    r.residue = note(
        subject,
        string_of(
            "This subject still carried enough disagreement to keep a visible scar in the merged view.",
        ),
    );
    r
}

/// Merge one subject across the two islands.
pub fn merge_subject(
    policy: &MergePolicy,
    subject: &Subject,
    entry_a: Option<&MemberEntry>,
    entry_b: Option<&MemberEntry>,
) -> (r: MergedMember)
    requires
        merge_policy_bounded(*policy),
        weight_in_range(option_entry(entry_a)),
        weight_in_range(option_entry(entry_b)),
    ensures
        r@ == spec_merge_subject(*policy, *subject, option_entry(entry_a), option_entry(entry_b)),
{
    let has_a = is_meaningful(entry_a);
    let has_b = is_meaningful(entry_b);
    if !has_a && !has_b {
        let mut r = base(subject, entry_a, entry_b);
        r.rule_summary = one_rule("No admissible input survived for this subject.");
        return r;
    }
    if has_a != has_b {
        return one_sided(policy, subject, entry_a, entry_b);
    }
    let a = entry_a.unwrap();
    let b = entry_b.unwrap();
    if a.status == b.status {
        agreeing(policy, subject, a, b)
    } else if launders(policy, a, b) {
        laundered(subject, a, b)
    } else if is_restrictive(a) || is_restrictive(b) {
        restrictive(policy, subject, a, b)
    } else if is_permissive(a) && is_permissive(b) {
        permissive(policy, subject, a, b)
    } else {
        fallback(policy, subject, a, b)
    }
}


#[derive(Debug, Clone, Copy, PartialEq, Eq, Structural)]
pub enum OverallOutcome {
    Stable,
    Provisional,
    StableWithOverride,
    ProvisionalWithOverride,
}

#[derive(Debug, Clone, PartialEq, Eq)]
pub struct MergeDigest {
    pub overall_outcome: OverallOutcome,
    pub compared_subjects: usize,
    pub inputs: Vec<String>,
    pub rules_fired: Vec<String>,
    pub unresolved: Vec<OracleResidue>,
    pub applied_override: Option<OperatorOverride>,
}

#[derive(Debug, Clone, PartialEq, Eq)]
pub struct DeterministicMerge {
    pub members: Vec<MergedMember>,
    pub residues: Vec<OracleResidue>,
    pub digest: MergeDigest,
}

pub open spec fn members_view(v: Seq<MergedMember>) -> Seq<MergedMemberV> {
    v.map_values(|m: MergedMember| m@)
}

pub open spec fn residues_view(v: Seq<OracleResidue>) -> Seq<OracleResidueV> {
    v.map_values(|r: OracleResidue| r@)
}

/// Every member entry of an island carries a trust weight in range.
pub open spec fn island_in_range(v: IslandViewV) -> bool {
    forall|i: int| 0 <= i < v.members.len() ==> weight_in_range(Some(#[trigger] v.members[i].1))
}

pub open spec fn entry_for(v: IslandViewV, id: Seq<char>) -> Option<MemberEntry> {
    map_get::<SubjectId, MemberEntry>(v.members, id)
}

/// The members before any override: one oracle merge per subject, in
/// subject order.
pub open spec fn merged_members(p: MergePolicy, subjects: Seq<Subject>, a: IslandViewV, b: IslandViewV) -> Seq<MergedMemberV> {
    subjects.map_values(|s: Subject| spec_merge_subject(p, s, entry_for(a, s.id@), entry_for(b, s.id@)))
}

pub open spec fn override_detail() -> Seq<char> {
    " OperatorOverride forced a visible intervention instead of silent collapse."@
}

/// A member after a visible operator override: the forced state, the
/// operator's reason, and its residue marked handled (never erased).
pub open spec fn overridden(m: MergedMemberV, op: OperatorOverride) -> MergedMemberV {
    MergedMemberV {
        status: op.status,
        source: Source::Override,
        stability: Stability::StableWithOverride,
        explanation: op.reason@,
        rule_summary: m.rule_summary.push("OperatorOverride applied visibly."@),
        residue: match m.residue {
            Some(r) => Some(
                OracleResidueV { handled_by_override: true, detail: r.detail + override_detail(), ..r },
            ),
            None => Some(
                OracleResidueV {
                    subject_label: m.subject_label,
                    detail: "OperatorOverride forced a visible intervention."@,
                    handled_by_override: true,
                },
            ),
        },
        ..m
    }
}

/// A visible override marks the scar handled and never erases it: the
/// overridden member always carries residue, marked handled, and any
/// residue it already carried keeps its detail, extended by the override
/// note.
pub proof fn lemma_override_never_erases(m: MergedMemberV, op: OperatorOverride)
    ensures
        overridden(m, op).residue matches Some(r) && r.handled_by_override,
        m.residue matches Some(r0) ==> overridden(m, op).residue == Some(
            OracleResidueV { handled_by_override: true, detail: r0.detail + override_detail(), ..r0 },
        ),
        overridden(m, op).status == op.status,
        overridden(m, op).rule_summary.drop_last() == m.rule_summary,
{
    assert(m.rule_summary.push("OperatorOverride applied visibly."@).drop_last() =~= m.rule_summary);
}

/// The first member with the given subject id, if any.
pub open spec fn first_with_id(ms: Seq<MergedMemberV>, id: Seq<char>) -> Option<int>
    decreases ms.len(),
{
    if ms.len() == 0 {
        None
    } else if ms[0].subject_id == id {
        Some(0)
    } else {
        match first_with_id(ms.drop_first(), id) {
            Some(i) => Some(i + 1),
            None => None,
        }
    }
}

pub open spec fn override_first(ms: Seq<MergedMemberV>, op: OperatorOverride) -> Seq<MergedMemberV> {
    match first_with_id(ms, op.subject_id@) {
        Some(i) => ms.update(i, overridden(ms[i], op)),
        None => ms,
    }
}

pub open spec fn override_applies(s: Scenario, apply_override: bool) -> bool {
    apply_override && s.allow_operator_override && s.operator_override is Some
}

/// The merged members of two island states, after the override if it
/// applies.
pub open spec fn final_members_of(p: MergePolicy, s: Scenario, a: IslandViewV, b: IslandViewV, apply_override: bool) -> Seq<MergedMemberV> {
    let ms = merged_members(p, s.subjects@, a, b);
    if override_applies(s, apply_override) {
        override_first(ms, s.operator_override.unwrap())
    } else {
        ms
    }
}

pub open spec fn final_members(p: MergePolicy, s: Scenario, c: CurrentState, apply_override: bool) -> Seq<MergedMemberV> {
    final_members_of(p, s, c.island_a@, c.island_b@, apply_override)
}

/// The residues the members carry, in member order.
pub open spec fn residues_of(ms: Seq<MergedMemberV>) -> Seq<OracleResidueV>
    decreases ms.len(),
{
    if ms.len() == 0 {
        Seq::empty()
    } else {
        residues_of(ms.drop_last()) + match ms.last().residue {
            Some(r) => seq![r],
            None => Seq::empty(),
        }
    }
}

/// The residues no override has taken responsibility for.
pub open spec fn unhandled_of(rs: Seq<OracleResidueV>) -> Seq<OracleResidueV>
    decreases rs.len(),
{
    if rs.len() == 0 {
        Seq::empty()
    } else {
        unhandled_of(rs.drop_last()) + if rs.last().handled_by_override {
            Seq::empty()
        } else {
            seq![rs.last()]
        }
    }
}

/// Append the rules not yet present, in order.
pub open spec fn add_distinct(acc: Seq<Seq<char>>, rules: Seq<Seq<char>>) -> Seq<Seq<char>>
    decreases rules.len(),
{
    if rules.len() == 0 {
        acc
    } else {
        let prev = add_distinct(acc, rules.drop_last());
        if prev.contains(rules.last()) {
            prev
        } else {
            prev.push(rules.last())
        }
    }
}

/// Distinct rules in first-appearance order over all members.
pub open spec fn rules_fired_of(ms: Seq<MergedMemberV>) -> Seq<Seq<char>>
    decreases ms.len(),
{
    if ms.len() == 0 {
        Seq::empty()
    } else {
        add_distinct(rules_fired_of(ms.drop_last()), ms.last().rule_summary)
    }
}

pub open spec fn any_provisional(ms: Seq<MergedMemberV>) -> bool {
    exists|i: int|
        0 <= i < ms.len() && (#[trigger] ms[i].stability == Stability::Provisional || ms[i].status
            == BeliefState::Disputed)
}

pub open spec fn spec_overall(apply_override: bool, unresolved_empty: bool, provisional: bool) -> OverallOutcome {
    if apply_override {
        if unresolved_empty {
            OverallOutcome::StableWithOverride
        } else {
            OverallOutcome::ProvisionalWithOverride
        }
    } else if unresolved_empty && !provisional {
        OverallOutcome::Stable
    } else {
        OverallOutcome::Provisional
    }
}

pub open spec fn digest_inputs(c: CurrentState) -> Seq<Seq<char>> {
    seq![
        "Island A epoch "@ + decimal(c.island_a.local_epoch as nat),
        "Island B epoch "@ + decimal(c.island_b.local_epoch as nat),
        decimal(c.steps_replayed as nat) + " divergence event(s) replayed"@,
    ]
}

fn lookup<'a>(island: &'a IslandView, id: &String) -> (r: Option<&'a MemberEntry>)
    ensures
        option_entry(r) == entry_for(island@, id@),
{
    let key = SubjectId::new(id.as_str());
    match island.members.get(&key) {
        Some(e) => Some(e),
        None => None,
    }
}

proof fn lemma_entry_in_range(v: IslandViewV, id: Seq<char>)
    requires
        island_in_range(v),
    ensures
        weight_in_range(entry_for(v, id)),
{
    let keys = crate::collections::keys_of(v.members);
    crate::collections::lemma_lower_bound_props::<SubjectId>(keys, id);
    let p = crate::collections::lower_bound::<SubjectId>(keys, id);
    if p < v.members.len() {
        assert(weight_in_range(Some(v.members[p].1)));
    }
}

fn contains_text(v: &Vec<String>, s: &String) -> (r: bool)
    ensures
        r == strings_view(v@).contains(s@),
{
    let ghost sv = strings_view(v@);
    let mut i: usize = 0;
    while i < v.len()
        invariant
            i <= v@.len(),
            sv == strings_view(v@),
            forall|j: int| 0 <= j < i ==> sv[j] != s@,
        decreases v@.len() - i,
    {
        if v[i] == *s {
            assert(sv[i as int] == s@);
            return true;
        }
        i = i + 1;
    }
    false
}

fn apply_override_to(members: &mut Vec<MergedMember>, op: &OperatorOverride)
    ensures
        members_view(final(members)@) == override_first(members_view(old(members)@), *op),
{
    let ghost mv = members_view(members@);
    let mut i: usize = 0;
    while i < members.len()
        invariant
            i <= members@.len(),
            mv == members_view(members@),
            members@ == old(members)@,
            forall|j: int| 0 <= j < i ==> #[trigger] mv[j].subject_id != op.subject_id@,
        decreases members@.len() - i,
    {
        if members[i].subject_id == op.subject_id {
            proof {
                lemma_first_with_id_at(mv, op.subject_id@, i as int);
            }
            let mut target = members[i].duplicate();
            let ghost tv = mv[i as int];
            assert(target@ == tv);
            target.status = op.status;
            target.source = Source::Override;
            target.stability = Stability::StableWithOverride;
            target.explanation = op.reason.clone();
            let ghost rules0 = target.rule_summary@;
            target.rule_summary.push(string_of("OperatorOverride applied visibly."));
            assert(strings_view(target.rule_summary@) =~= strings_view(rules0).push("OperatorOverride applied visibly."@));
            let residue = match &target.residue {
                Some(r) => {
                    let mut detail = r.detail.clone();
                    detail.append(" OperatorOverride forced a visible intervention instead of silent collapse.");
                    OracleResidue { subject_label: r.subject_label.clone(), detail, handled_by_override: true }
                },
                None => OracleResidue {
                    subject_label: target.subject_label.clone(),
                    detail: string_of("OperatorOverride forced a visible intervention."),
                    handled_by_override: true,
                },
            };
            target.residue = Some(residue);
            assert(target@ == overridden(tv, *op));
            members.set(i, target);
            assert(members_view(members@) =~= mv.update(i as int, overridden(tv, *op)));
            return;
        }
        i = i + 1;
    }
    proof {
        lemma_first_with_id_none(mv, op.subject_id@);
    }
}

pub(crate) proof fn lemma_first_with_id_at(ms: Seq<MergedMemberV>, id: Seq<char>, i: int)
    requires
        0 <= i < ms.len(),
        ms[i].subject_id == id,
        forall|j: int| 0 <= j < i ==> #[trigger] ms[j].subject_id != id,
    ensures
        first_with_id(ms, id) == Some(i),
    decreases i,
{
    if i > 0 {
        let t = ms.drop_first();
        assert forall|j: int| 0 <= j < i - 1 implies #[trigger] t[j].subject_id != id by {
            assert(t[j] == ms[j + 1]);
        }
        lemma_first_with_id_at(t, id, i - 1);
    }
}

pub(crate) proof fn lemma_first_with_id_none(ms: Seq<MergedMemberV>, id: Seq<char>)
    requires
        forall|j: int| 0 <= j < ms.len() ==> #[trigger] ms[j].subject_id != id,
    ensures
        first_with_id(ms, id) is None,
    decreases ms.len(),
{
    if ms.len() > 0 {
        let t = ms.drop_first();
        assert forall|j: int| 0 <= j < t.len() implies #[trigger] t[j].subject_id != id by {
            assert(t[j] == ms[j + 1]);
        }
        lemma_first_with_id_none(t, id);
    }
}


fn merge_all(policy: &MergePolicy, subjects: &Vec<Subject>, current: &CurrentState) -> (r: Vec<MergedMember>)
    requires
        merge_policy_bounded(*policy),
        island_in_range(current.island_a@),
        island_in_range(current.island_b@),
    ensures
        members_view(r@) == merged_members(*policy, subjects@, current.island_a@, current.island_b@),
{
    let mut members: Vec<MergedMember> = Vec::new();
    let mut i: usize = 0;
    while i < subjects.len()
        invariant
            i <= subjects@.len(),
            merge_policy_bounded(*policy),
            island_in_range(current.island_a@),
            island_in_range(current.island_b@),
            members_view(members@) == merged_members(
                *policy,
                subjects@.subrange(0, i as int),
                current.island_a@,
                current.island_b@,
            ),
        decreases subjects@.len() - i,
    {
        let s = &subjects[i];
        let ea = lookup(&current.island_a, &s.id);
        let eb = lookup(&current.island_b, &s.id);
        proof {
            lemma_entry_in_range(current.island_a@, s.id@);
            lemma_entry_in_range(current.island_b@, s.id@);
        }
        let ghost before = members@;
        members.push(merge_subject(policy, s, ea, eb));
        proof {
            assert(members_view(members@) =~= members_view(before).push(members@[i as int]@));
            assert(subjects@.subrange(0, i + 1) =~= subjects@.subrange(0, i as int).push(*s));
            assert(merged_members(*policy, subjects@.subrange(0, i + 1), current.island_a@, current.island_b@)
                =~= merged_members(*policy, subjects@.subrange(0, i as int), current.island_a@, current.island_b@).push(
                spec_merge_subject(*policy, *s, entry_for(current.island_a@, s.id@), entry_for(current.island_b@, s.id@)),
            ));
        }
        i = i + 1;
    }
    assert(subjects@.subrange(0, i as int) =~= subjects@);
    members
}

fn collect_residues(members: &Vec<MergedMember>) -> (r: Vec<OracleResidue>)
    ensures
        residues_view(r@) == residues_of(members_view(members@)),
{
    let ghost mv = members_view(members@);
    let mut out: Vec<OracleResidue> = Vec::new();
    let mut i: usize = 0;
    while i < members.len()
        invariant
            i <= members@.len(),
            mv == members_view(members@),
            residues_view(out@) == residues_of(mv.subrange(0, i as int)),
        decreases members@.len() - i,
    {
        let ghost before = out@;
        proof {
            let next = mv.subrange(0, i + 1);
            assert(next.drop_last() =~= mv.subrange(0, i as int));
            assert(next.last() == members@[i as int]@);
        }
        match &members[i].residue {
            Some(res) => {
                out.push(res.duplicate());
                assert(residues_view(out@) =~= residues_view(before).push(res@));
            },
            None => {},
        }
        i = i + 1;
    }
    assert(mv.subrange(0, i as int) =~= mv);
    out
}

fn collect_unhandled(residues: &Vec<OracleResidue>) -> (r: Vec<OracleResidue>)
    ensures
        residues_view(r@) == unhandled_of(residues_view(residues@)),
{
    let ghost rv = residues_view(residues@);
    let mut out: Vec<OracleResidue> = Vec::new();
    let mut i: usize = 0;
    while i < residues.len()
        invariant
            i <= residues@.len(),
            rv == residues_view(residues@),
            residues_view(out@) == unhandled_of(rv.subrange(0, i as int)),
        decreases residues@.len() - i,
    {
        let ghost before = out@;
        proof {
            let next = rv.subrange(0, i + 1);
            assert(next.drop_last() =~= rv.subrange(0, i as int));
            assert(next.last() == residues@[i as int]@);
        }
        if !residues[i].handled_by_override {
            out.push(residues[i].duplicate());
            assert(residues_view(out@) =~= residues_view(before).push(residues@[i as int]@));
        }
        i = i + 1;
    }
    assert(rv.subrange(0, i as int) =~= rv);
    out
}

fn collect_rules(members: &Vec<MergedMember>) -> (r: Vec<String>)
    ensures
        strings_view(r@) == rules_fired_of(members_view(members@)),
{
    let ghost mv = members_view(members@);
    let mut rules: Vec<String> = Vec::new();
    let mut i: usize = 0;
    while i < members.len()
        invariant
            i <= members@.len(),
            mv == members_view(members@),
            strings_view(rules@) == rules_fired_of(mv.subrange(0, i as int)),
        decreases members@.len() - i,
    {
        let summary = &members[i].rule_summary;
        let ghost acc = strings_view(rules@);
        let ghost sv = strings_view(summary@);
        proof {
            assert(sv == mv[i as int].rule_summary);
        }
        let mut j: usize = 0;
        while j < summary.len()
            invariant
                j <= summary@.len(),
                sv == strings_view(summary@),
                strings_view(rules@) == add_distinct(acc, sv.subrange(0, j as int)),
            decreases summary@.len() - j,
        {
            let ghost before = rules@;
            proof {
                let next = sv.subrange(0, j + 1);
                assert(next.drop_last() =~= sv.subrange(0, j as int));
                assert(next.last() == summary@[j as int]@);
            }
            if !contains_text(&rules, &summary[j]) {
                rules.push(summary[j].clone());
                assert(strings_view(rules@) =~= strings_view(before).push(summary@[j as int]@));
            }
            j = j + 1;
        }
        proof {
            assert(sv.subrange(0, j as int) =~= sv);
            let next = mv.subrange(0, i + 1);
            assert(next.drop_last() =~= mv.subrange(0, i as int));
        }
        i = i + 1;
    }
    assert(mv.subrange(0, i as int) =~= mv);
    rules
}

fn has_provisional(members: &Vec<MergedMember>) -> (r: bool)
    ensures
        r == any_provisional(members_view(members@)),
{
    let ghost mv = members_view(members@);
    let mut i: usize = 0;
    while i < members.len()
        invariant
            i <= members@.len(),
            mv == members_view(members@),
            forall|j: int|
                0 <= j < i ==> !(#[trigger] mv[j].stability == Stability::Provisional || mv[j].status
                    == BeliefState::Disputed),
        decreases members@.len() - i,
    {
        if members[i].stability == Stability::Provisional || members[i].status == BeliefState::Disputed {
            assert(mv[i as int].stability == Stability::Provisional || mv[i as int].status == BeliefState::Disputed);
            return true;
        }
        i = i + 1;
    }
    false
}

fn digest_input_lines(current: &CurrentState) -> (r: Vec<String>)
    ensures
        strings_view(r@) == digest_inputs(*current),
{
    let mut a = string_of("Island A epoch ");
    push_decimal(&mut a, current.island_a.local_epoch);
    let mut b = string_of("Island B epoch ");
    push_decimal(&mut b, current.island_b.local_epoch);
    let mut c = String::new();
    push_decimal(&mut c, current.steps_replayed as u64);
    c.append(" divergence event(s) replayed");
    let mut r: Vec<String> = Vec::new();
    r.push(a);
    r.push(b);
    r.push(c);
    assert(strings_view(r@) =~= digest_inputs(*current));
    r
}

/// Whole-view deterministic reunion, with optional operator override.
pub fn run_deterministic_merge(
    policy: &MergePolicy,
    scenario: &Scenario,
    current: &CurrentState,
    apply_override: bool,
) -> (r: DeterministicMerge)
    requires
        merge_policy_bounded(*policy),
        island_in_range(current.island_a@),
        island_in_range(current.island_b@),
    ensures
        members_view(r.members@) == final_members(*policy, *scenario, *current, apply_override),
        residues_view(r.residues@) == residues_of(members_view(r.members@)),
        residues_view(r.digest.unresolved@) == unhandled_of(residues_view(r.residues@)),
        strings_view(r.digest.rules_fired@) == rules_fired_of(members_view(r.members@)),
        r.digest.overall_outcome == spec_overall(
            apply_override,
            r.digest.unresolved@.len() == 0,
            any_provisional(members_view(r.members@)),
        ),
        r.digest.compared_subjects == scenario.subjects@.len(),
        strings_view(r.digest.inputs@) == digest_inputs(*current),
        r.digest.applied_override == if apply_override {
            scenario.operator_override
        } else {
            None
        },
{
    let mut members = merge_all(policy, &scenario.subjects, current);
    if apply_override && scenario.allow_operator_override {
        match &scenario.operator_override {
            Some(op) => apply_override_to(&mut members, op),
            None => {},
        }
    }
    let residues = collect_residues(&members);
    let unresolved = collect_unhandled(&residues);
    let rules_fired = collect_rules(&members);
    let provisional = has_provisional(&members);
    let overall_outcome = if apply_override {
        if unresolved.len() == 0 {
            OverallOutcome::StableWithOverride
        } else {
            OverallOutcome::ProvisionalWithOverride
        }
    } else if unresolved.len() == 0 && !provisional {
        OverallOutcome::Stable
    } else {
        OverallOutcome::Provisional
    };
    let applied_override = if apply_override {
        match &scenario.operator_override {
            Some(o) => Some(o.duplicate()),
            None => None,
        }
    } else {
        None
    };
    let digest = MergeDigest {
        overall_outcome,
        compared_subjects: scenario.subjects.len(),
        inputs: digest_input_lines(current),
        rules_fired,
        unresolved,
        applied_override,
    };
    DeterministicMerge { members, residues, digest }
}


#[derive(Debug, Clone, PartialEq, Eq)]
pub struct NaiveMember {
    pub subject_label: String,
    pub status: BeliefState,
    pub source: String,
    pub note: String,
}

pub struct NaiveMemberV {
    pub subject_label: Seq<char>,
    pub status: BeliefState,
    pub source: Seq<char>,
    pub note: Seq<char>,
}

impl View for NaiveMember {
    type V = NaiveMemberV;

    open spec fn view(&self) -> NaiveMemberV {
        NaiveMemberV {
            subject_label: self.subject_label@,
            status: self.status,
            source: self.source@,
            note: self.note@,
        }
    }
}

#[derive(Debug, Clone, PartialEq, Eq)]
pub struct NaiveDiff {
    pub subject_label: String,
    pub naive_status: BeliefState,
    pub deterministic_status: BeliefState,
    pub note: String,
}

pub struct NaiveDiffV {
    pub subject_label: Seq<char>,
    pub naive_status: BeliefState,
    pub deterministic_status: BeliefState,
    pub note: Seq<char>,
}

impl View for NaiveDiff {
    type V = NaiveDiffV;

    open spec fn view(&self) -> NaiveDiffV {
        NaiveDiffV {
            subject_label: self.subject_label@,
            naive_status: self.naive_status,
            deterministic_status: self.deterministic_status,
            note: self.note@,
        }
    }
}

#[derive(Debug, Clone, PartialEq, Eq)]
pub struct NaiveComparison {
    pub naive: Vec<NaiveMember>,
    pub diffs: Vec<NaiveDiff>,
}

pub open spec fn naive_view(v: Seq<NaiveMember>) -> Seq<NaiveMemberV> {
    v.map_values(|m: NaiveMember| m@)
}

pub open spec fn diffs_view(v: Seq<NaiveDiff>) -> Seq<NaiveDiffV> {
    v.map_values(|d: NaiveDiff| d@)
}

/// The naive reunion's status ranking.
pub open spec fn status_rank(s: BeliefState) -> int {
    match s {
        BeliefState::Accepted => 5,
        BeliefState::Provisional => 4,
        BeliefState::Quarantined => 3,
        BeliefState::Removed => 2,
        BeliefState::Disputed => 1,
        _ => 0,
    }
}

fn status_order(status: BeliefState) -> (r: i64)
    ensures
        r == status_rank(status),
{
    match status {
        BeliefState::Accepted => 5,
        BeliefState::Provisional => 4,
        BeliefState::Quarantined => 3,
        BeliefState::Removed => 2,
        BeliefState::Disputed => 1,
        _ => 0,
    }
}

/// Island B's entry is strictly later-or-louder than Island A's:
/// (epoch, witness count, status rank, trust weight), lexicographically.
pub open spec fn outranks(a: MemberEntry, b: MemberEntry) -> bool {
    if b.epoch != a.epoch {
        b.epoch > a.epoch
    } else if b.witness_summary.count != a.witness_summary.count {
        b.witness_summary.count > a.witness_summary.count
    } else if status_rank(b.status) != status_rank(a.status) {
        status_rank(b.status) > status_rank(a.status)
    } else {
        b.trust_weight > a.trust_weight
    }
}

/// "Latest or loudest wins" for one subject; a tie keeps Island A.
pub open spec fn naive_member(subject: Subject, a: Option<MemberEntry>, b: Option<MemberEntry>) -> NaiveMemberV {
    let ha = spec_meaningful(a);
    let hb = spec_meaningful(b);
    if !ha && !hb {
        NaiveMemberV {
            subject_label: subject.label@,
            status: BeliefState::Unknown,
            source: "none"@,
            note: "No admissible input."@,
        }
    } else {
        let (source, chosen) = if ha && hb {
            if outranks(a.unwrap(), b.unwrap()) {
                ("Island B"@, b.unwrap())
            } else {
                ("Island A"@, a.unwrap())
            }
        } else if ha {
            ("Island A"@, a.unwrap())
        } else {
            ("Island B"@, b.unwrap())
        };
        NaiveMemberV {
            subject_label: subject.label@,
            status: chosen.status,
            source,
            note: "Latest or loudest path wins. Residue is discarded."@,
        }
    }
}

pub open spec fn naive_members(subjects: Seq<Subject>, a: IslandViewV, b: IslandViewV) -> Seq<NaiveMemberV> {
    subjects.map_values(|s: Subject| naive_member(s, entry_for(a, s.id@), entry_for(b, s.id@)))
}

fn b_outranks(a: &MemberEntry, b: &MemberEntry) -> (r: bool)
    ensures
        r == outranks(*a, *b),
{
    if b.epoch != a.epoch {
        b.epoch > a.epoch
    } else if b.witness_summary.count != a.witness_summary.count {
        b.witness_summary.count > a.witness_summary.count
    } else if status_order(b.status) != status_order(a.status) {
        status_order(b.status) > status_order(a.status)
    } else {
        b.trust_weight > a.trust_weight
    }
}

fn naive_one(subject: &Subject, a: Option<&MemberEntry>, b: Option<&MemberEntry>) -> (r: NaiveMember)
    ensures
        r@ == naive_member(*subject, option_entry(a), option_entry(b)),
{
    let ha = is_meaningful(a);
    let hb = is_meaningful(b);
    if !ha && !hb {
        return NaiveMember {
            subject_label: subject.label.clone(),
            status: BeliefState::Unknown,
            source: string_of("none"),
            note: string_of("No admissible input."),
        };
    }
    let (source, chosen) = if ha && hb {
        if b_outranks(a.unwrap(), b.unwrap()) {
            ("Island B", b.unwrap())
        } else {
            ("Island A", a.unwrap())
        }
    } else if ha {
        ("Island A", a.unwrap())
    } else {
        ("Island B", b.unwrap())
    };
    NaiveMember {
        subject_label: subject.label.clone(),
        status: chosen.status,
        source: string_of(source),
        note: string_of("Latest or loudest path wins. Residue is discarded."),
    }
}

/// "Latest or loudest wins": the strawman reunion the deterministic merge
/// is compared against.
pub fn run_naive_reunion(scenario: &Scenario, current: &CurrentState) -> (r: Vec<NaiveMember>)
    ensures
        naive_view(r@) == naive_members(scenario.subjects@, current.island_a@, current.island_b@),
{
    let subjects = &scenario.subjects;
    let mut out: Vec<NaiveMember> = Vec::new();
    let mut i: usize = 0;
    while i < subjects.len()
        invariant
            i <= subjects@.len(),
            subjects == &scenario.subjects,
            naive_view(out@) == naive_members(
                subjects@.subrange(0, i as int),
                current.island_a@,
                current.island_b@,
            ),
        decreases subjects@.len() - i,
    {
        let s = &subjects[i];
        let ea = lookup(&current.island_a, &s.id);
        let eb = lookup(&current.island_b, &s.id);
        let ghost before = out@;
        out.push(naive_one(s, ea, eb));
        proof {
            assert(naive_view(out@) =~= naive_view(before).push(out@[i as int]@));
            assert(subjects@.subrange(0, i + 1) =~= subjects@.subrange(0, i as int).push(*s));
            assert(naive_members(subjects@.subrange(0, i + 1), current.island_a@, current.island_b@)
                =~= naive_members(subjects@.subrange(0, i as int), current.island_a@, current.island_b@).push(
                naive_member(*s, entry_for(current.island_a@, s.id@), entry_for(current.island_b@, s.id@)),
            ));
        }
        i = i + 1;
    }
    assert(subjects@.subrange(0, i as int) =~= subjects@);
    out
}

/// The first naive member with the given label, if any.
pub open spec fn first_with_label(ns: Seq<NaiveMemberV>, label: Seq<char>) -> Option<int>
    decreases ns.len(),
{
    if ns.len() == 0 {
        None
    } else if ns[0].subject_label == label {
        Some(0)
    } else {
        match first_with_label(ns.drop_first(), label) {
            Some(i) => Some(i + 1),
            None => None,
        }
    }
}

/// Where the naive reunion and the deterministic merge part ways for one
/// subject: a different state, or residue the naive reunion would erase.
pub open spec fn naive_diff(subject: Subject, det: Seq<MergedMemberV>, naive: Seq<NaiveMemberV>) -> Seq<NaiveDiffV> {
    match (first_with_id(det, subject.id@), first_with_label(naive, subject.label@)) {
        (Some(i), Some(j)) => {
            let d = det[i];
            let n = naive[j];
            let hides = d.residue matches Some(r) && !r.handled_by_override;
            if n.status != d.status || hides {
                seq![
                    NaiveDiffV {
                        subject_label: subject.label@,
                        naive_status: n.status,
                        deterministic_status: d.status,
                        note: if hides {
                            "Naive reunion would erase visible residue."@
                        } else {
                            "Naive reunion would choose "@ + state_name(n.status) + " from "@ + n.source
                                + "."@
                        },
                    },
                ]
            } else {
                Seq::empty()
            }
        },
        _ => Seq::empty(),
    }
}

pub open spec fn naive_diffs(subjects: Seq<Subject>, det: Seq<MergedMemberV>, naive: Seq<NaiveMemberV>) -> Seq<NaiveDiffV>
    decreases subjects.len(),
{
    if subjects.len() == 0 {
        Seq::empty()
    } else {
        naive_diffs(subjects.drop_last(), det, naive) + naive_diff(subjects.last(), det, naive)
    }
}

pub(crate) fn find_member(members: &Vec<MergedMember>, id: &String) -> (r: Option<usize>)
    ensures
        r matches Some(i) ==> i < members@.len() && first_with_id(members_view(members@), id@) == Some(
            i as int,
        ),
        r is None ==> first_with_id(members_view(members@), id@) is None,
{
    let ghost mv = members_view(members@);
    let mut i: usize = 0;
    while i < members.len()
        invariant
            i <= members@.len(),
            mv == members_view(members@),
            forall|j: int| 0 <= j < i ==> #[trigger] mv[j].subject_id != id@,
        decreases members@.len() - i,
    {
        if members[i].subject_id == *id {
            proof {
                lemma_first_with_id_at(mv, id@, i as int);
            }
            return Some(i);
        }
        i = i + 1;
    }
    proof {
        lemma_first_with_id_none(mv, id@);
    }
    None
}

proof fn lemma_first_with_label_at(ns: Seq<NaiveMemberV>, label: Seq<char>, i: int)
    requires
        0 <= i < ns.len(),
        ns[i].subject_label == label,
        forall|j: int| 0 <= j < i ==> #[trigger] ns[j].subject_label != label,
    ensures
        first_with_label(ns, label) == Some(i),
    decreases i,
{
    if i > 0 {
        let t = ns.drop_first();
        assert forall|j: int| 0 <= j < i - 1 implies #[trigger] t[j].subject_label != label by {
            assert(t[j] == ns[j + 1]);
        }
        lemma_first_with_label_at(t, label, i - 1);
    }
}

proof fn lemma_first_with_label_none(ns: Seq<NaiveMemberV>, label: Seq<char>)
    requires
        forall|j: int| 0 <= j < ns.len() ==> #[trigger] ns[j].subject_label != label,
    ensures
        first_with_label(ns, label) is None,
    decreases ns.len(),
{
    if ns.len() > 0 {
        let t = ns.drop_first();
        assert forall|j: int| 0 <= j < t.len() implies #[trigger] t[j].subject_label != label by {
            assert(t[j] == ns[j + 1]);
        }
        lemma_first_with_label_none(t, label);
    }
}

fn find_naive(naive: &Vec<NaiveMember>, label: &String) -> (r: Option<usize>)
    ensures
        r matches Some(i) ==> i < naive@.len() && first_with_label(naive_view(naive@), label@) == Some(
            i as int,
        ),
        r is None ==> first_with_label(naive_view(naive@), label@) is None,
{
    let ghost nv = naive_view(naive@);
    let mut i: usize = 0;
    while i < naive.len()
        invariant
            i <= naive@.len(),
            nv == naive_view(naive@),
            forall|j: int| 0 <= j < i ==> #[trigger] nv[j].subject_label != label@,
        decreases naive@.len() - i,
    {
        if naive[i].subject_label == *label {
            proof {
                lemma_first_with_label_at(nv, label@, i as int);
            }
            return Some(i);
        }
        i = i + 1;
    }
    proof {
        lemma_first_with_label_none(nv, label@);
    }
    None
}

fn diff_one(subject: &Subject, members: &Vec<MergedMember>, naive: &Vec<NaiveMember>) -> (r: Option<NaiveDiff>)
    ensures
        match r {
            Some(d) => naive_diff(*subject, members_view(members@), naive_view(naive@)) == seq![d@],
            None => naive_diff(*subject, members_view(members@), naive_view(naive@)) == Seq::<NaiveDiffV>::empty(),
        },
{
    let i = match find_member(members, &subject.id) {
        Some(i) => i,
        None => return None,
    };
    let j = match find_naive(naive, &subject.label) {
        Some(j) => j,
        None => return None,
    };
    let det = &members[i];
    let nai = &naive[j];
    assert(members_view(members@)[i as int] == det@);
    assert(naive_view(naive@)[j as int] == nai@);
    let hides = match &det.residue {
        Some(r) => !r.handled_by_override,
        None => false,
    };
    if nai.status != det.status || hides {
        let note = if hides {
            string_of("Naive reunion would erase visible residue.")
        } else {
            let mut n = text3("Naive reunion would choose ", nai.status.as_str(), " from ");
            n.append(nai.source.as_str());
            n.append(".");
            n
        };
        let d = NaiveDiff {
            subject_label: subject.label.clone(),
            naive_status: nai.status,
            deterministic_status: det.status,
            note,
        };
        assert(naive_diff(*subject, members_view(members@), naive_view(naive@)) =~= seq![d@]);
        Some(d)
    } else {
        None
    }
}

pub fn build_naive_comparison(
    scenario: &Scenario,
    current: &CurrentState,
    deterministic: &DeterministicMerge,
) -> (r: NaiveComparison)
    ensures
        naive_view(r.naive@) == naive_members(scenario.subjects@, current.island_a@, current.island_b@),
        diffs_view(r.diffs@) == naive_diffs(
            scenario.subjects@,
            members_view(deterministic.members@),
            naive_view(r.naive@),
        ),
{
    let naive = run_naive_reunion(scenario, current);
    let subjects = &scenario.subjects;
    let ghost mv = members_view(deterministic.members@);
    let ghost nv = naive_view(naive@);
    let mut diffs: Vec<NaiveDiff> = Vec::new();
    let mut i: usize = 0;
    while i < subjects.len()
        invariant
            i <= subjects@.len(),
            subjects == &scenario.subjects,
            mv == members_view(deterministic.members@),
            nv == naive_view(naive@),
            diffs_view(diffs@) == naive_diffs(subjects@.subrange(0, i as int), mv, nv),
        decreases subjects@.len() - i,
    {
        let ghost before = diffs@;
        proof {
            let next = subjects@.subrange(0, i + 1);
            assert(next.drop_last() =~= subjects@.subrange(0, i as int));
            assert(next.last() == subjects@[i as int]);
        }
        match diff_one(&subjects[i], &deterministic.members, &naive) {
            Some(d) => {
                diffs.push(d);
                assert(diffs_view(diffs@) =~= diffs_view(before) + naive_diff(subjects@[i as int], mv, nv));
            },
            None => {
                assert(diffs_view(diffs@) =~= diffs_view(before) + naive_diff(subjects@[i as int], mv, nv));
            },
        }
        i = i + 1;
    }
    assert(subjects@.subrange(0, i as int) =~= subjects@);
    NaiveComparison { naive, diffs }
}

/// The states in the alphabetical order of their names.
pub open spec fn states_by_name() -> Seq<BeliefState> {
    seq![
        BeliefState::Accepted,
        BeliefState::Disputed,
        BeliefState::Introduced,
        BeliefState::Provisional,
        BeliefState::Quarantined,
        BeliefState::Removed,
        BeliefState::Suspected,
        BeliefState::Unknown,
        BeliefState::Witnessed,
    ]
}

/// How many members hold `s`.
pub open spec fn status_count(members: Seq<(Seq<char>, MemberEntry)>, s: BeliefState) -> nat
    decreases members.len(),
{
    if members.len() == 0 {
        0
    } else {
        status_count(members.drop_last(), s) + if members.last().1.status == s {
            1nat
        } else {
            0nat
        }
    }
}

/// (state name, count) for every state some member holds, by name.
pub open spec fn digest_rows(states: Seq<BeliefState>, members: Seq<(Seq<char>, MemberEntry)>) -> Seq<(Seq<char>, nat)>
    decreases states.len(),
{
    if states.len() == 0 {
        Seq::empty()
    } else {
        let s = states.last();
        let n = status_count(members, s);
        digest_rows(states.drop_last(), members) + if n > 0 {
            seq![(state_name(s), n)]
        } else {
            Seq::empty()
        }
    }
}

fn count_status(island: &IslandView, s: BeliefState) -> (r: usize)
    ensures
        r == status_count(island@.members, s),
{
    let ghost m = island.members@;
    let mut n: usize = 0;
    let mut i: usize = 0;
    while i < island.members.len()
        invariant
            i <= m.len(),
            m == island.members@,
            n == status_count(m.subrange(0, i as int), s),
            n <= i,
        decreases m.len() - i,
    {
        proof {
            let next = m.subrange(0, i + 1);
            assert(next.drop_last() =~= m.subrange(0, i as int));
        }
        if island.members.value_at(i).status == s {
            n = n + 1;
        }
        i = i + 1;
    }
    assert(m.subrange(0, i as int) =~= m);
    n
}

pub open spec fn rows_view(v: Seq<(String, usize)>) -> Seq<(Seq<char>, nat)> {
    v.map_values(|e: (String, usize)| (e.0@, e.1 as nat))
}

/// Per-island status counts, by state name.
pub fn compute_island_digest(island: &IslandView) -> (r: Vec<(String, usize)>)
    ensures
        rows_view(r@) == digest_rows(states_by_name(), island@.members),
{
    let order: [BeliefState; 9] = [
        BeliefState::Accepted,
        BeliefState::Disputed,
        BeliefState::Introduced,
        BeliefState::Provisional,
        BeliefState::Quarantined,
        BeliefState::Removed,
        BeliefState::Suspected,
        BeliefState::Unknown,
        BeliefState::Witnessed,
    ];
    assert(order@ =~= states_by_name());
    let mut rows: Vec<(String, usize)> = Vec::new();
    let mut k: usize = 0;
    while k < 9
        invariant
            k <= 9,
            order@ == states_by_name(),
            rows_view(rows@) == digest_rows(order@.subrange(0, k as int), island@.members),
        decreases 9 - k,
    {
        let s = order[k];
        proof {
            let next = order@.subrange(0, k + 1);
            assert(next.drop_last() =~= order@.subrange(0, k as int));
            assert(next.last() == s);
        }
        let n = count_status(island, s);
        let ghost before = rows@;
        if n > 0 {
            rows.push((string_of(s.as_str()), n));
            assert(rows_view(rows@) =~= rows_view(before).push((state_name(s), n as nat)));
        }
        k = k + 1;
    }
    assert(order@.subrange(0, 9) =~= order@);
    rows
}

} // verus!
