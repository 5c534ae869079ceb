//! The reunion engine: gate, classify, compare, preserve.
//!
//! Every cross-class comparison consumes the count-free dominance score
//! (trust, corroboration quality and diversity, scope authority); the
//! capped witness-count informer only enters choices between sides of the
//! same semantic class. `merge_decision` states the whole calculus over
//! plain values, and `lemma_count_never_decides_across_classes` proves
//! that no witness count can change a cross-class outcome.

use crate::belief::state::BeliefState;
use crate::encode::{framed_str, le_u64, write_byte, write_bytes, write_str, write_u64};
use crate::epoch::{Epoch, Round};
use crate::evidence::{Diversity, Quality};
use crate::hash::{blake3_digest, blake3_hash};
use crate::id::{OverrideId, SubjectId};
use crate::merge::{
    Admissibility, BeliefFragment, DecidedBy, InadmissibleReason, MergeResolution,
    MergeResolutionV, MergeSource, MergeTrace, MergeTraceV, RuleId, SubjectMergeOutcome,
    SubjectMergeOutcomeV, copy_residue, decided_by_name, residue_views,
};
use crate::policy::{
    MergePolicy, WEIGHT_LIMIT, merge_policy_bounded, spec_authority_score, spec_diversity_score,
    spec_informer_score, spec_quality_score,
};
use crate::residue::{
    BeliefKey, ConflictTension, ConflictTensionV, Residue, ResidueV, TensionSide, TensionSideV,
    residue_id_bytes,
};
use crate::belief::cell::{apply_step, BeliefCellV, Transition, TransitionError, TransitionV};
use crate::belief::state::{state_name, BeliefEvent, BeliefEventV};
use crate::belief::view::{ensure_cell, MembershipView, MembershipViewV};
use crate::collections::map_insert;
use crate::policy::PolicyBundle;
use crate::residue::{ledger_insert, ResidueLedgerV};
use crate::id::ResidueId;
use crate::collections::{SortedMap, map_get};
use crate::merge::{
    MergeStability, OverallOutcome, ReunionDigest, spec_project, spec_residue, spec_stability,
};
use crate::operator::{OperatorOverride, OperatorOverrideV, override_id};
use crate::scope::ScopeId;
use crate::text::string_of;
use vstd::utf8::encode_utf8;
use crate::trust::TrustGrade;
use crate::util::NonEmpty;
use vstd::prelude::*;
use vstd::string::StringExecFns;

verus! {

// ---------------------------------------------------------------------------
// Scores
// ---------------------------------------------------------------------------

pub open spec fn spec_admissibility(f: Option<BeliefFragment>) -> Admissibility {
    match f {
        None => Admissibility::Inadmissible(InadmissibleReason::NoBelief),
        Some(f) => if f.state == BeliefState::Unknown {
            Admissibility::Inadmissible(InadmissibleReason::NoBelief)
        } else if f.trust.value() == 0 {
            Admissibility::Inadmissible(InadmissibleReason::NoTrust)
        } else {
            Admissibility::Admissible
        },
    }
}

pub open spec fn admitted(f: Option<BeliefFragment>) -> bool {
    spec_admissibility(f) == Admissibility::Admissible
}

pub open spec fn is_restrictive(s: BeliefState) -> bool {
    s == BeliefState::Removed || s == BeliefState::Quarantined
}

pub open spec fn is_permissive(s: BeliefState) -> bool {
    s == BeliefState::Accepted || s == BeliefState::Provisional
}

/// The count-free "may dominate" score: trust, corroboration quality and
/// diversity, scope authority. No witness count, no rank, no arrival order.
pub open spec fn spec_dominance(p: MergePolicy, f: BeliefFragment) -> int {
    f.trust.value() as int + spec_quality_score(p, f.witness.quality) as int
        + spec_diversity_score(p, f.witness.diversity) as int + spec_authority_score(
        p,
        f.authority,
    ) as int
}

/// The capped witness-count informer.
pub open spec fn spec_informer(p: MergePolicy, f: BeliefFragment) -> int {
    spec_informer_score(p, f.witness.count)
}

/// Within-class strength: dominance plus the capped informer.
pub open spec fn spec_within(p: MergePolicy, f: BeliefFragment) -> int {
    spec_dominance(p, f) + spec_informer(p, f)
}

pub open spec fn abs_int(x: int) -> int {
    if x < 0 {
        -x
    } else {
        x
    }
}

pub open spec fn corroboration_delta(p: MergePolicy, w: BeliefFragment, l: BeliefFragment) -> int {
    (spec_quality_score(p, w.witness.quality) + spec_diversity_score(p, w.witness.diversity)) - (
    spec_quality_score(p, l.witness.quality) + spec_diversity_score(p, l.witness.diversity))
}

pub open spec fn authority_delta(p: MergePolicy, w: BeliefFragment, l: BeliefFragment) -> int {
    spec_authority_score(p, w.authority) - spec_authority_score(p, l.authority)
}

pub open spec fn trust_delta(w: BeliefFragment, l: BeliefFragment) -> int {
    w.trust.value() - l.trust.value()
}

/// Attribute a within-class choice to the tier that actually decided it.
pub open spec fn spec_attribute(p: MergePolicy, w: BeliefFragment, l: BeliefFragment) -> DecidedBy {
    let d_trust = trust_delta(w, l);
    let d_corr = corroboration_delta(p, w, l);
    let d_auth = authority_delta(p, w, l);
    let d_dominance = d_trust + d_corr + d_auth;
    let d_informer = spec_informer(p, w) - spec_informer(p, l);
    if d_dominance == 0 && d_informer == 0 {
        DecidedBy::InputOrder
    } else if abs_int(d_dominance) >= abs_int(d_informer) {
        if abs_int(d_corr) > abs_int(d_trust) + abs_int(d_auth) {
            DecidedBy::Corroboration
        } else {
            DecidedBy::TrustAndAuthority
        }
    } else {
        DecidedBy::Informer
    }
}

/// Attribution restricted to dominance components, for cross-class
/// decisions, where the informer must not even appear in the explanation.
pub open spec fn spec_attribute_dominance(p: MergePolicy, w: BeliefFragment, l: BeliefFragment) -> DecidedBy {
    if abs_int(corroboration_delta(p, w, l)) > abs_int(trust_delta(w, l)) + abs_int(
        authority_delta(p, w, l),
    ) {
        DecidedBy::Corroboration
    } else {
        DecidedBy::TrustAndAuthority
    }
}

/// How conservative a state is: the fallback's content-based tie-break.
pub open spec fn conservatism(s: BeliefState) -> int {
    match s {
        BeliefState::Removed => 8,
        BeliefState::Quarantined => 7,
        BeliefState::Disputed => 6,
        BeliefState::Suspected => 5,
        BeliefState::Introduced => 4,
        BeliefState::Witnessed => 3,
        BeliefState::Provisional => 2,
        BeliefState::Accepted => 1,
        BeliefState::Unknown => 0,
    }
}

fn admissibility(fragment: Option<BeliefFragment>) -> (r: Admissibility)
    ensures
        r == spec_admissibility(fragment),
{
    match fragment {
        None => Admissibility::Inadmissible(InadmissibleReason::NoBelief),
        Some(f) => if f.state == BeliefState::Unknown {
            Admissibility::Inadmissible(InadmissibleReason::NoBelief)
        } else if f.trust.get() == 0 {
            Admissibility::Inadmissible(InadmissibleReason::NoTrust)
        } else {
            Admissibility::Admissible
        },
    }
}

fn restrictive(s: BeliefState) -> (r: bool)
    ensures
        r == is_restrictive(s),
{
    match s {
        BeliefState::Removed | BeliefState::Quarantined => true,
        _ => false,
    }
}

fn permissive(s: BeliefState) -> (r: bool)
    ensures
        r == is_permissive(s),
{
    match s {
        BeliefState::Accepted | BeliefState::Provisional => true,
        _ => false,
    }
}

fn dominance_score(policy: &MergePolicy, f: &BeliefFragment) -> (r: i64)
    requires
        merge_policy_bounded(*policy),
    ensures
        r == spec_dominance(*policy, *f),
        -3 * WEIGHT_LIMIT <= r <= 3 * WEIGHT_LIMIT + 100,
        f.trust.value() <= 100,
{
    let t = f.trust.get();
    (t as i64) + policy.quality_score(f.witness.quality) + policy.diversity_score(
        f.witness.diversity,
    ) + policy.authority_score(f.authority)
}

fn informer_score(policy: &MergePolicy, f: &BeliefFragment) -> (r: i64)
    requires
        merge_policy_bounded(*policy),
    ensures
        r == spec_informer(*policy, *f),
        -WEIGHT_LIMIT <= r <= WEIGHT_LIMIT,
{
    policy.informer_score(f.witness.count)
}

fn within_class_score(policy: &MergePolicy, f: &BeliefFragment) -> (r: i64)
    requires
        merge_policy_bounded(*policy),
    ensures
        r == spec_within(*policy, *f),
        -4 * WEIGHT_LIMIT <= r <= 4 * WEIGHT_LIMIT + 100,
{
    dominance_score(policy, f) + informer_score(policy, f)
}

fn abs_i64(x: i64) -> (r: i64)
    requires
        -8 * WEIGHT_LIMIT <= x <= 8 * WEIGHT_LIMIT,
    ensures
        r == abs_int(x as int),
{
    if x < 0 {
        -x
    } else {
        x
    }
}

fn trust_gap(winner: &BeliefFragment, loser: &BeliefFragment) -> (r: i64)
    ensures
        r == trust_delta(*winner, *loser),
        -100 <= r <= 100,
{
    (winner.trust.get() as i64) - (loser.trust.get() as i64)
}

fn corroboration_gap(policy: &MergePolicy, winner: &BeliefFragment, loser: &BeliefFragment) -> (r: i64)
    requires
        merge_policy_bounded(*policy),
    ensures
        r == corroboration_delta(*policy, *winner, *loser),
        -4 * WEIGHT_LIMIT <= r <= 4 * WEIGHT_LIMIT,
{
    let w = policy.quality_score(winner.witness.quality) + policy.diversity_score(
        winner.witness.diversity,
    );
    let l = policy.quality_score(loser.witness.quality) + policy.diversity_score(
        loser.witness.diversity,
    );
    w - l
}

fn authority_gap(policy: &MergePolicy, winner: &BeliefFragment, loser: &BeliefFragment) -> (r: i64)
    requires
        merge_policy_bounded(*policy),
    ensures
        r == authority_delta(*policy, *winner, *loser),
        -2 * WEIGHT_LIMIT <= r <= 2 * WEIGHT_LIMIT,
{
    policy.authority_score(winner.authority) - policy.authority_score(loser.authority)
}

fn attribute(policy: &MergePolicy, winner: &BeliefFragment, loser: &BeliefFragment) -> (r: DecidedBy)
    requires
        merge_policy_bounded(*policy),
    ensures
        r == spec_attribute(*policy, *winner, *loser),
{
    let d_trust = trust_gap(winner, loser);
    let d_corr = corroboration_gap(policy, winner, loser);
    let d_auth = authority_gap(policy, winner, loser);
    let d_dominance = d_trust + d_corr + d_auth;
    let d_informer = informer_score(policy, winner) - informer_score(policy, loser);
    if d_dominance == 0 && d_informer == 0 {
        DecidedBy::InputOrder
    } else if abs_i64(d_dominance) >= abs_i64(d_informer) {
        if abs_i64(d_corr) > abs_i64(d_trust) + abs_i64(d_auth) {
            DecidedBy::Corroboration
        } else {
            DecidedBy::TrustAndAuthority
        }
    } else {
        DecidedBy::Informer
    }
}

fn attribute_dominance(policy: &MergePolicy, winner: &BeliefFragment, loser: &BeliefFragment) -> (r: DecidedBy)
    requires
        merge_policy_bounded(*policy),
    ensures
        r == spec_attribute_dominance(*policy, *winner, *loser),
{
    let d_trust = trust_gap(winner, loser);
    let d_corr = corroboration_gap(policy, winner, loser);
    let d_auth = authority_gap(policy, winner, loser);
    if abs_i64(d_corr) > abs_i64(d_trust) + abs_i64(d_auth) {
        DecidedBy::Corroboration
    } else {
        DecidedBy::TrustAndAuthority
    }
}

// ---------------------------------------------------------------------------
// The decision calculus
// ---------------------------------------------------------------------------

/// Which kind of resolution a decision produces.
#[derive(Debug, Clone, Copy, PartialEq, Eq, Structural)]
pub enum ResolutionKind {
    Converged,
    Provisional,
    Disagreement,
}

/// The explanation a residue entry carries.
#[derive(Debug, Clone, Copy, PartialEq, Eq, Structural)]
pub enum ScarNote {
    OneSided,
    SharedDispute,
    LaunderingVisible,
    FreshDispute,
    RestrictiveRace,
    RestrictiveDominates,
    TooClose,
    OlderAcceptance,
    WeakPath,
    VisibleScar,
}

pub open spec fn scar_text(n: ScarNote) -> Seq<char> {
    match n {
        ScarNote::OneSided => "Only one side had enough evidence to speak; reunion preserves the asymmetry."@,
        ScarNote::SharedDispute => "Both sides carried the same unresolved dispute into reunion."@,
        ScarNote::LaunderingVisible => "A louder but lower-quality witness cluster was discounted; the laundering attempt stays visible."@,
        ScarNote::FreshDispute => "Fresh admissible evidence remains materially unresolved; certainty is not counterfeited."@,
        ScarNote::RestrictiveRace => "The newer restrictive path wins, but the race stays visible."@,
        ScarNote::RestrictiveDominates => "The restrictive path dominates on trust and authority; the opposing history stays visible."@,
        ScarNote::TooClose => "Restriction versus acceptance remained too close to resolve honestly."@,
        ScarNote::OlderAcceptance => "The older acceptance stays visible: recontact did not restore innocence."@,
        ScarNote::WeakPath => "Both sides leaned the same direction, but one path stayed weak enough to keep the result provisional."@,
        ScarNote::VisibleScar => "Enough disagreement survived to keep a visible scar in the merged view."@,
    }
}

impl ScarNote {
    pub fn text(self) -> (r: &'static str)
        ensures
            r@ == scar_text(self),
    {
        match self {
            ScarNote::OneSided => "Only one side had enough evidence to speak; reunion preserves the asymmetry.",
            ScarNote::SharedDispute => "Both sides carried the same unresolved dispute into reunion.",
            ScarNote::LaunderingVisible => "A louder but lower-quality witness cluster was discounted; the laundering attempt stays visible.",
            ScarNote::FreshDispute => "Fresh admissible evidence remains materially unresolved; certainty is not counterfeited.",
            ScarNote::RestrictiveRace => "The newer restrictive path wins, but the race stays visible.",
            ScarNote::RestrictiveDominates => "The restrictive path dominates on trust and authority; the opposing history stays visible.",
            ScarNote::TooClose => "Restriction versus acceptance remained too close to resolve honestly.",
            ScarNote::OlderAcceptance => "The older acceptance stays visible: recontact did not restore innocence.",
            ScarNote::WeakPath => "Both sides leaned the same direction, but one path stayed weak enough to keep the result provisional.",
            ScarNote::VisibleScar => "Enough disagreement survived to keep a visible scar in the merged view.",
        }
    }
}

/// The positions a residue entry records: one side alone, or both.
#[derive(Debug, Clone, Copy)]
pub enum ScarSides {
    One(MergeSource, BeliefFragment),
    Both(BeliefFragment, BeliefFragment),
}

/// A residue entry a decision leaves behind.
#[derive(Debug, Clone, Copy)]
pub struct Scar {
    pub note: ScarNote,
    pub sides: ScarSides,
}

/// The note of a clean convergence: which side supplied the stronger
/// retained detail, and which tier made it the stronger one.
#[derive(Debug, Clone, Copy)]
pub struct CleanNote {
    pub stronger: MergeSource,
    pub detail_by: DecidedBy,
}

/// Everything the calculus decides for one subject, as plain values.
#[derive(Debug, Clone, Copy)]
pub struct SubjectDecision {
    pub rule: RuleId,
    /// What the trace names as deciding.
    pub traced_by: DecidedBy,
    pub kind: ResolutionKind,
    /// The converged state (`Disputed` for a disagreement).
    pub state: BeliefState,
    /// What the resolution names as deciding.
    pub decided_by: DecidedBy,
    pub scar: Option<Scar>,
    pub note: Option<CleanNote>,
    pub source: MergeSource,
    pub epoch: Epoch,
    pub trust: u8,
}

pub open spec fn max_u64(a: u64, b: u64) -> u64 {
    if a >= b {
        a
    } else {
        b
    }
}

pub open spec fn clamp_grade(g: u8) -> u8 {
    if g <= 100 {
        g
    } else {
        100
    }
}

pub open spec fn both_scar(note: ScarNote, a: BeliefFragment, b: BeliefFragment) -> Option<Scar> {
    Some(Scar { note, sides: ScarSides::Both(a, b) })
}

/// A decision over both admissible sides, with the pair's base epoch and
/// trust (the later epoch, the higher grade).
pub open spec fn pair_decision(
    rule: RuleId,
    traced_by: DecidedBy,
    kind: ResolutionKind,
    state: BeliefState,
    decided_by: DecidedBy,
    scar: Option<Scar>,
    source: MergeSource,
    a: BeliefFragment,
    b: BeliefFragment,
) -> SubjectDecision {
    SubjectDecision {
        rule,
        traced_by,
        kind,
        state,
        decided_by,
        scar,
        note: None,
        source,
        epoch: Epoch(max_u64(a.epoch.0, b.epoch.0)),
        trust: clamp_grade(if a.trust.value() >= b.trust.value() {
            a.trust.value()
        } else {
            b.trust.value()
        }),
    }
}

/// Restrictive versus non-restrictive: dominance scores only.
pub open spec fn restrictive_decision(p: MergePolicy, a: BeliefFragment, b: BeliefFragment) -> SubjectDecision {
    let (r, pm, rsrc) = if is_restrictive(a.state) {
        (a, b, MergeSource::SideA)
    } else {
        (b, a, MergeSource::SideB)
    };
    let dom_r = spec_dominance(p, r);
    let dom_p = spec_dominance(p, pm);
    if r.epoch == pm.epoch && r.witness.quality != Quality::Weak && pm.witness.quality
        != Quality::Weak && abs_int(dom_r - dom_p) < p.dispute_closeness {
        pair_decision(
            RuleId::SameEpochDispute,
            DecidedBy::Unresolved,
            ResolutionKind::Disagreement,
            BeliefState::Disputed,
            DecidedBy::Unresolved,
            both_scar(ScarNote::FreshDispute, a, b),
            MergeSource::Both,
            a,
            b,
        )
    } else if r.epoch.0 > pm.epoch.0 && dom_r >= dom_p - p.restrictive_fresh_slack {
        SubjectDecision {
            epoch: r.epoch,
            trust: r.trust.value(),
            ..pair_decision(
                RuleId::FreshRestrictiveDominates,
                DecidedBy::Freshness,
                ResolutionKind::Converged,
                r.state,
                DecidedBy::Freshness,
                both_scar(ScarNote::RestrictiveRace, a, b),
                rsrc,
                a,
                b,
            )
        }
    } else if dom_r >= dom_p + p.restrictive_dominance {
        SubjectDecision {
            epoch: r.epoch,
            trust: r.trust.value(),
            ..pair_decision(
                RuleId::RestrictiveDominance,
                DecidedBy::TrustAndAuthority,
                ResolutionKind::Provisional,
                r.state,
                DecidedBy::TrustAndAuthority,
                both_scar(ScarNote::RestrictiveDominates, a, b),
                rsrc,
                a,
                b,
            )
        }
    } else {
        pair_decision(
            RuleId::ConflictSurvived,
            DecidedBy::Unresolved,
            ResolutionKind::Disagreement,
            BeliefState::Disputed,
            DecidedBy::Unresolved,
            both_scar(ScarNote::TooClose, a, b),
            MergeSource::Both,
            a,
            b,
        )
    }
}

/// The choice between two permissive sides: (chosen, other, source, why).
pub open spec fn permissive_choice(p: MergePolicy, a: BeliefFragment, b: BeliefFragment) -> (BeliefFragment, BeliefFragment, MergeSource, DecidedBy) {
    let score_a = spec_within(p, a);
    let score_b = spec_within(p, b);
    if a.epoch.0 > b.epoch.0 && score_a >= score_b - p.permissive_epoch_slack {
        (a, b, MergeSource::SideA, DecidedBy::Freshness)
    } else if b.epoch.0 > a.epoch.0 && score_b >= score_a - p.permissive_epoch_slack {
        (b, a, MergeSource::SideB, DecidedBy::Freshness)
    } else if score_a > score_b + p.permissive_margin {
        (a, b, MergeSource::SideA, spec_attribute(p, a, b))
    } else if score_b > score_a + p.permissive_margin {
        (b, a, MergeSource::SideB, spec_attribute(p, b, a))
    } else if a.state == BeliefState::Accepted && b.state != BeliefState::Accepted {
        (a, b, MergeSource::SideA, DecidedBy::StatusPreference)
    } else if b.state == BeliefState::Accepted && a.state != BeliefState::Accepted {
        (b, a, MergeSource::SideB, DecidedBy::StatusPreference)
    } else if score_a >= score_b {
        (a, b, MergeSource::SideA, DecidedBy::InputOrder)
    } else {
        (b, a, MergeSource::SideB, DecidedBy::InputOrder)
    }
}

/// Both permissive: a within-class choice, where the informer and epoch
/// slack legitimately participate.
pub open spec fn permissive_decision(p: MergePolicy, a: BeliefFragment, b: BeliefFragment) -> SubjectDecision {
    let (chosen, other, source, decided_by) = permissive_choice(p, a, b);
    if chosen.state == BeliefState::Provisional && other.state == BeliefState::Accepted {
        SubjectDecision {
            trust: chosen.trust.value(),
            ..pair_decision(
                RuleId::FreshnessDowngrade,
                DecidedBy::Freshness,
                ResolutionKind::Provisional,
                BeliefState::Provisional,
                DecidedBy::Freshness,
                both_scar(ScarNote::OlderAcceptance, a, b),
                source,
                a,
                b,
            )
        }
    } else if chosen.state == BeliefState::Accepted && spec_within(p, chosen) >= spec_within(
        p,
        other,
    ) + p.accept_converge_margin {
        SubjectDecision {
            trust: chosen.trust.value(),
            ..pair_decision(
                RuleId::PermissiveConverged,
                decided_by,
                ResolutionKind::Converged,
                chosen.state,
                decided_by,
                None,
                source,
                a,
                b,
            )
        }
    } else {
        SubjectDecision {
            trust: chosen.trust.value(),
            ..pair_decision(
                RuleId::PermissiveConverged,
                decided_by,
                ResolutionKind::Provisional,
                chosen.state,
                decided_by,
                both_scar(ScarNote::WeakPath, a, b),
                source,
                a,
                b,
            )
        }
    }
}

/// Mixed shapes: a cross-class comparison on dominance scores only; an
/// exact tie goes to the more conservative state, so the projection does
/// not depend on which side is which.
pub open spec fn fallback_decision(p: MergePolicy, a: BeliefFragment, b: BeliefFragment) -> SubjectDecision {
    let score_a = spec_dominance(p, a);
    let score_b = spec_dominance(p, b);
    let (winner, source, decided_by) = if score_a != score_b {
        if score_a > score_b {
            (a, MergeSource::SideA, spec_attribute_dominance(p, a, b))
        } else {
            (b, MergeSource::SideB, spec_attribute_dominance(p, b, a))
        }
    } else if conservatism(a.state) >= conservatism(b.state) {
        (a, MergeSource::SideA, DecidedBy::StatusPreference)
    } else {
        (b, MergeSource::SideB, DecidedBy::StatusPreference)
    };
    pair_decision(
        RuleId::Fallback,
        decided_by,
        ResolutionKind::Provisional,
        winner.state,
        decided_by,
        both_scar(ScarNote::VisibleScar, a, b),
        source,
        a,
        b,
    )
}

/// Whether the laundering discount applies: a side's diversity is
/// laundered and the other side's dominance is within tolerance of it.
pub open spec fn laundering_discount_applies(p: MergePolicy, a: BeliefFragment, b: BeliefFragment) -> bool {
    let la = a.witness.diversity == Diversity::Laundered;
    let lb = b.witness.diversity == Diversity::Laundered;
    let (laundered, other) = if la {
        (a, b)
    } else {
        (b, a)
    };
    (la || lb) && spec_dominance(p, other) >= spec_dominance(p, laundered) - p.laundering_tolerance
}

/// Two admissible sides of different states.
pub open spec fn conflict_decision(p: MergePolicy, a: BeliefFragment, b: BeliefFragment) -> SubjectDecision {
    if laundering_discount_applies(p, a, b) {
        let (other, other_source) = if a.witness.diversity == Diversity::Laundered {
            (b, MergeSource::SideB)
        } else {
            (a, MergeSource::SideA)
        };
        SubjectDecision {
            trust: other.trust.value(),
            ..pair_decision(
                RuleId::LaunderingDiscount,
                DecidedBy::Corroboration,
                ResolutionKind::Provisional,
                if other.state == BeliefState::Accepted {
                    BeliefState::Provisional
                } else {
                    other.state
                },
                DecidedBy::Corroboration,
                both_scar(ScarNote::LaunderingVisible, a, b),
                other_source,
                a,
                b,
            )
        }
    } else if is_restrictive(a.state) || is_restrictive(b.state) {
        restrictive_decision(p, a, b)
    } else if is_permissive(a.state) && is_permissive(b.state) {
        permissive_decision(p, a, b)
    } else {
        fallback_decision(p, a, b)
    }
}

/// Two admissible sides agreeing on the state.
pub open spec fn agreement_decision(p: MergePolicy, a: BeliefFragment, b: BeliefFragment) -> SubjectDecision {
    let stronger = if spec_within(p, a) >= spec_within(p, b) {
        MergeSource::SideA
    } else {
        MergeSource::SideB
    };
    let base = if a.state == BeliefState::Disputed {
        pair_decision(
            RuleId::CleanConvergence,
            DecidedBy::StateAgreement,
            ResolutionKind::Provisional,
            a.state,
            DecidedBy::StateAgreement,
            both_scar(ScarNote::SharedDispute, a, b),
            MergeSource::Both,
            a,
            b,
        )
    } else {
        pair_decision(
            RuleId::CleanConvergence,
            DecidedBy::StateAgreement,
            if a.state == BeliefState::Provisional {
                ResolutionKind::Provisional
            } else {
                ResolutionKind::Converged
            },
            a.state,
            DecidedBy::StateAgreement,
            None,
            MergeSource::Both,
            a,
            b,
        )
    };
    SubjectDecision {
        note: Some(CleanNote { stronger, detail_by: spec_attribute(p, a, b) }),
        ..base
    }
}

/// The whole calculus for one subject.
pub open spec fn merge_decision(p: MergePolicy, a: Option<BeliefFragment>, b: Option<BeliefFragment>) -> SubjectDecision {
    let has_a = admitted(a);
    let has_b = admitted(b);
    if !has_a && !has_b {
        SubjectDecision {
            rule: RuleId::NoAdmissibleInput,
            traced_by: DecidedBy::AdmissibilityGate,
            kind: ResolutionKind::Converged,
            state: BeliefState::Unknown,
            decided_by: DecidedBy::AdmissibilityGate,
            scar: None,
            note: None,
            source: MergeSource::Neither,
            epoch: Epoch(
                max_u64(
                    match a {
                        Some(f) => f.epoch.0,
                        None => 0,
                    },
                    match b {
                        Some(f) => f.epoch.0,
                        None => 0,
                    },
                ),
            ),
            trust: clamp_grade(
                if match a {
                    Some(f) => f.trust.value(),
                    None => 0,
                } >= match b {
                    Some(f) => f.trust.value(),
                    None => 0,
                } {
                    match a {
                        Some(f) => f.trust.value(),
                        None => 0,
                    }
                } else {
                    match b {
                        Some(f) => f.trust.value(),
                        None => 0,
                    }
                },
            ),
        }
    } else if has_a != has_b {
        let (entry, source) = if has_a {
            (a.unwrap(), MergeSource::SideA)
        } else {
            (b.unwrap(), MergeSource::SideB)
        };
        let strong = spec_within(p, entry) >= p.one_sided_stable && entry.state
            != BeliefState::Provisional && entry.state != BeliefState::Disputed;
        SubjectDecision {
            rule: RuleId::SingleSided,
            traced_by: DecidedBy::AdmissibilityGate,
            kind: if strong {
                ResolutionKind::Converged
            } else {
                ResolutionKind::Provisional
            },
            state: entry.state,
            decided_by: DecidedBy::AdmissibilityGate,
            scar: if strong {
                None
            } else {
                Some(Scar { note: ScarNote::OneSided, sides: ScarSides::One(source, entry) })
            },
            note: None,
            source,
            epoch: entry.epoch,
            trust: entry.trust.value(),
        }
    } else if a.unwrap().state == b.unwrap().state {
        agreement_decision(p, a.unwrap(), b.unwrap())
    } else {
        conflict_decision(p, a.unwrap(), b.unwrap())
    }
}

fn pair(
    rule: RuleId,
    traced_by: DecidedBy,
    kind: ResolutionKind,
    state: BeliefState,
    decided_by: DecidedBy,
    scar: Option<Scar>,
    source: MergeSource,
    a: &BeliefFragment,
    b: &BeliefFragment,
) -> (d: SubjectDecision)
    ensures
        d == pair_decision(rule, traced_by, kind, state, decided_by, scar, source, *a, *b),
        d.trust <= 100,
{
    let ta = a.trust.get();
    let tb = b.trust.get();
    SubjectDecision {
        rule,
        traced_by,
        kind,
        state,
        decided_by,
        scar,
        note: None,
        source,
        epoch: a.epoch.later(b.epoch),
        trust: if ta >= tb {
            ta
        } else {
            tb
        },
    }
}

fn scar_of(note: ScarNote, a: &BeliefFragment, b: &BeliefFragment) -> (r: Option<Scar>)
    ensures
        r == both_scar(note, *a, *b),
{
    Some(Scar { note, sides: ScarSides::Both(*a, *b) })
}

fn decide_restrictive(policy: &MergePolicy, a: &BeliefFragment, b: &BeliefFragment) -> (d: SubjectDecision)
    requires
        merge_policy_bounded(*policy),
    ensures
        d == restrictive_decision(*policy, *a, *b),
        d.trust <= 100,
{
    let (r, pm, rsrc) = if restrictive(a.state) {
        (a, b, MergeSource::SideA)
    } else {
        (b, a, MergeSource::SideB)
    };
    let dom_r = dominance_score(policy, r);
    let dom_p = dominance_score(policy, pm);
    if r.epoch.0 == pm.epoch.0 && r.witness.quality != Quality::Weak && pm.witness.quality
        != Quality::Weak && abs_i64(dom_r - dom_p) < policy.dispute_closeness {
        pair(
            RuleId::SameEpochDispute,
            DecidedBy::Unresolved,
            ResolutionKind::Disagreement,
            BeliefState::Disputed,
            DecidedBy::Unresolved,
            scar_of(ScarNote::FreshDispute, a, b),
            MergeSource::Both,
            a,
            b,
        )
    } else if r.epoch.0 > pm.epoch.0 && dom_r >= dom_p - policy.restrictive_fresh_slack {
        let base = pair(
            RuleId::FreshRestrictiveDominates,
            DecidedBy::Freshness,
            ResolutionKind::Converged,
            r.state,
            DecidedBy::Freshness,
            scar_of(ScarNote::RestrictiveRace, a, b),
            rsrc,
            a,
            b,
        );
        SubjectDecision { epoch: r.epoch, trust: r.trust.get(), ..base }
    } else if dom_r >= dom_p + policy.restrictive_dominance {
        let base = pair(
            RuleId::RestrictiveDominance,
            DecidedBy::TrustAndAuthority,
            ResolutionKind::Provisional,
            r.state,
            DecidedBy::TrustAndAuthority,
            scar_of(ScarNote::RestrictiveDominates, a, b),
            rsrc,
            a,
            b,
        );
        SubjectDecision { epoch: r.epoch, trust: r.trust.get(), ..base }
    } else {
        pair(
            RuleId::ConflictSurvived,
            DecidedBy::Unresolved,
            ResolutionKind::Disagreement,
            BeliefState::Disputed,
            DecidedBy::Unresolved,
            scar_of(ScarNote::TooClose, a, b),
            MergeSource::Both,
            a,
            b,
        )
    }
}

fn choose_permissive(policy: &MergePolicy, a: &BeliefFragment, b: &BeliefFragment) -> (r: (BeliefFragment, BeliefFragment, MergeSource, DecidedBy))
    requires
        merge_policy_bounded(*policy),
    ensures
        r == permissive_choice(*policy, *a, *b),
{
    let score_a = within_class_score(policy, a);
    let score_b = within_class_score(policy, b);
    if a.epoch.0 > b.epoch.0 && score_a >= score_b - policy.permissive_epoch_slack {
        (*a, *b, MergeSource::SideA, DecidedBy::Freshness)
    } else if b.epoch.0 > a.epoch.0 && score_b >= score_a - policy.permissive_epoch_slack {
        (*b, *a, MergeSource::SideB, DecidedBy::Freshness)
    } else if score_a > score_b + policy.permissive_margin {
        (*a, *b, MergeSource::SideA, attribute(policy, a, b))
    } else if score_b > score_a + policy.permissive_margin {
        (*b, *a, MergeSource::SideB, attribute(policy, b, a))
    } else if a.state == BeliefState::Accepted && b.state != BeliefState::Accepted {
        (*a, *b, MergeSource::SideA, DecidedBy::StatusPreference)
    } else if b.state == BeliefState::Accepted && a.state != BeliefState::Accepted {
        (*b, *a, MergeSource::SideB, DecidedBy::StatusPreference)
    } else if score_a >= score_b {
        (*a, *b, MergeSource::SideA, DecidedBy::InputOrder)
    } else {
        (*b, *a, MergeSource::SideB, DecidedBy::InputOrder)
    }
}

fn decide_permissive(policy: &MergePolicy, a: &BeliefFragment, b: &BeliefFragment) -> (d: SubjectDecision)
    requires
        merge_policy_bounded(*policy),
    ensures
        d == permissive_decision(*policy, *a, *b),
        d.trust <= 100,
{
    let (chosen, other, source, decided_by) = choose_permissive(policy, a, b);
    if chosen.state == BeliefState::Provisional && other.state == BeliefState::Accepted {
        let base = pair(
            RuleId::FreshnessDowngrade,
            DecidedBy::Freshness,
            ResolutionKind::Provisional,
            BeliefState::Provisional,
            DecidedBy::Freshness,
            scar_of(ScarNote::OlderAcceptance, a, b),
            source,
            a,
            b,
        );
        SubjectDecision { trust: chosen.trust.get(), ..base }
    } else if chosen.state == BeliefState::Accepted && within_class_score(policy, &chosen)
        >= within_class_score(policy, &other) + policy.accept_converge_margin {
        let base = pair(
            RuleId::PermissiveConverged,
            decided_by,
            ResolutionKind::Converged,
            chosen.state,
            decided_by,
            None,
            source,
            a,
            b,
        );
        SubjectDecision { trust: chosen.trust.get(), ..base }
    } else {
        let base = pair(
            RuleId::PermissiveConverged,
            decided_by,
            ResolutionKind::Provisional,
            chosen.state,
            decided_by,
            scar_of(ScarNote::WeakPath, a, b),
            source,
            a,
            b,
        );
        SubjectDecision { trust: chosen.trust.get(), ..base }
    }
}

fn conservatism_rank(s: BeliefState) -> (r: u8)
    ensures
        r as int == conservatism(s),
{
    match s {
        BeliefState::Removed => 8,
        BeliefState::Quarantined => 7,
        BeliefState::Disputed => 6,
        BeliefState::Suspected => 5,
        BeliefState::Introduced => 4,
        BeliefState::Witnessed => 3,
        BeliefState::Provisional => 2,
        BeliefState::Accepted => 1,
        BeliefState::Unknown => 0,
    }
}

fn decide_fallback(policy: &MergePolicy, a: &BeliefFragment, b: &BeliefFragment) -> (d: SubjectDecision)
    requires
        merge_policy_bounded(*policy),
    ensures
        d == fallback_decision(*policy, *a, *b),
        d.trust <= 100,
{
    let score_a = dominance_score(policy, a);
    let score_b = dominance_score(policy, b);
    let (winner, source, decided_by) = if score_a != score_b {
        if score_a > score_b {
            (a, MergeSource::SideA, attribute_dominance(policy, a, b))
        } else {
            (b, MergeSource::SideB, attribute_dominance(policy, b, a))
        }
    } else if conservatism_rank(a.state) >= conservatism_rank(b.state) {
        (a, MergeSource::SideA, DecidedBy::StatusPreference)
    } else {
        (b, MergeSource::SideB, DecidedBy::StatusPreference)
    };
    pair(
        RuleId::Fallback,
        decided_by,
        ResolutionKind::Provisional,
        winner.state,
        decided_by,
        scar_of(ScarNote::VisibleScar, a, b),
        source,
        a,
        b,
    )
}

fn decide_conflict(policy: &MergePolicy, a: &BeliefFragment, b: &BeliefFragment) -> (d: SubjectDecision)
    requires
        merge_policy_bounded(*policy),
    ensures
        d == conflict_decision(*policy, *a, *b),
        d.trust <= 100,
{
    let laundering_a = a.witness.diversity == Diversity::Laundered;
    let laundering_b = b.witness.diversity == Diversity::Laundered;
    if laundering_a || laundering_b {
        let (laundered, other, other_source) = if laundering_a {
            (a, b, MergeSource::SideB)
        } else {
            (b, a, MergeSource::SideA)
        };
        if dominance_score(policy, other) >= dominance_score(policy, laundered)
            - policy.laundering_tolerance {
            let state = if other.state == BeliefState::Accepted {
                BeliefState::Provisional
            } else {
                other.state
            };
            let base = pair(
                RuleId::LaunderingDiscount,
                DecidedBy::Corroboration,
                ResolutionKind::Provisional,
                state,
                DecidedBy::Corroboration,
                scar_of(ScarNote::LaunderingVisible, a, b),
                other_source,
                a,
                b,
            );
            return SubjectDecision { trust: other.trust.get(), ..base };
        }
    }
    if restrictive(a.state) || restrictive(b.state) {
        decide_restrictive(policy, a, b)
    } else if permissive(a.state) && permissive(b.state) {
        decide_permissive(policy, a, b)
    } else {
        decide_fallback(policy, a, b)
    }
}

fn decide_agreement(policy: &MergePolicy, a: &BeliefFragment, b: &BeliefFragment) -> (d: SubjectDecision)
    requires
        merge_policy_bounded(*policy),
    ensures
        d == agreement_decision(*policy, *a, *b),
        d.trust <= 100,
{
    let stronger = if within_class_score(policy, a) >= within_class_score(policy, b) {
        MergeSource::SideA
    } else {
        MergeSource::SideB
    };
    let base = if a.state == BeliefState::Disputed {
        pair(
            RuleId::CleanConvergence,
            DecidedBy::StateAgreement,
            ResolutionKind::Provisional,
            a.state,
            DecidedBy::StateAgreement,
            scar_of(ScarNote::SharedDispute, a, b),
            MergeSource::Both,
            a,
            b,
        )
    } else {
        pair(
            RuleId::CleanConvergence,
            DecidedBy::StateAgreement,
            if a.state == BeliefState::Provisional {
                ResolutionKind::Provisional
            } else {
                ResolutionKind::Converged
            },
            a.state,
            DecidedBy::StateAgreement,
            None,
            MergeSource::Both,
            a,
            b,
        )
    };
    SubjectDecision {
        note: Some(CleanNote { stronger, detail_by: attribute(policy, a, b) }),
        ..base
    }
}

fn trust_or_zero(f: Option<BeliefFragment>) -> (r: u8)
    ensures
        r == match f {
            Some(f) => f.trust.value(),
            None => 0,
        },
        r <= 100,
{
    match f {
        Some(f) => f.trust.get(),
        None => 0,
    }
}

fn epoch_or_zero(f: Option<BeliefFragment>) -> (r: u64)
    ensures
        r == match f {
            Some(f) => f.epoch.0,
            None => 0,
        },
{
    match f {
        Some(f) => f.epoch.0,
        None => 0,
    }
}

/// Run the calculus for one subject.
fn decide(policy: &MergePolicy, a: Option<BeliefFragment>, b: Option<BeliefFragment>) -> (d: SubjectDecision)
    requires
        merge_policy_bounded(*policy),
    ensures
        d == merge_decision(*policy, a, b),
        d.trust <= 100,
{
    let has_a = admissibility(a) == Admissibility::Admissible;
    let has_b = admissibility(b) == Admissibility::Admissible;
    if !has_a && !has_b {
        let ea = epoch_or_zero(a);
        let eb = epoch_or_zero(b);
        let ta = trust_or_zero(a);
        let tb = trust_or_zero(b);
        return SubjectDecision {
            rule: RuleId::NoAdmissibleInput,
            traced_by: DecidedBy::AdmissibilityGate,
            kind: ResolutionKind::Converged,
            state: BeliefState::Unknown,
            decided_by: DecidedBy::AdmissibilityGate,
            scar: None,
            note: None,
            source: MergeSource::Neither,
            epoch: Epoch(
                if ea >= eb {
                    ea
                } else {
                    eb
                },
            ),
            trust: if ta >= tb {
                ta
            } else {
                tb
            },
        };
    }
    if has_a != has_b {
        let (entry, source) = if has_a {
            (a.unwrap(), MergeSource::SideA)
        } else {
            (b.unwrap(), MergeSource::SideB)
        };
        let strong = within_class_score(policy, &entry) >= policy.one_sided_stable && entry.state
            != BeliefState::Provisional && entry.state != BeliefState::Disputed;
        return SubjectDecision {
            rule: RuleId::SingleSided,
            traced_by: DecidedBy::AdmissibilityGate,
            kind: if strong {
                ResolutionKind::Converged
            } else {
                ResolutionKind::Provisional
            },
            state: entry.state,
            decided_by: DecidedBy::AdmissibilityGate,
            scar: if strong {
                None
            } else {
                Some(Scar { note: ScarNote::OneSided, sides: ScarSides::One(source, entry) })
            },
            note: None,
            source,
            epoch: entry.epoch,
            trust: entry.trust.get(),
        };
    }
    let fa = a.unwrap();
    let fb = b.unwrap();
    if fa.state == fb.state {
        decide_agreement(policy, &fa, &fb)
    } else {
        decide_conflict(policy, &fa, &fb)
    }
}

// ---------------------------------------------------------------------------
// Laws of the calculus
// ---------------------------------------------------------------------------

/// The label a side carries in residue and notes.
pub open spec fn side_label(s: MergeSource) -> Seq<char> {
    match s {
        MergeSource::SideA => "side_a"@,
        MergeSource::SideB => "side_b"@,
        MergeSource::Both => "both"@,
        MergeSource::Override => "override"@,
        MergeSource::Neither => "none"@,
    }
}

pub open spec fn tension_side(source: MergeSource, f: BeliefFragment) -> TensionSideV {
    TensionSideV { source: side_label(source), state: f.state, epoch: f.epoch }
}

pub open spec fn scar_sides(s: ScarSides) -> Seq<TensionSideV> {
    match s {
        ScarSides::One(source, f) => seq![tension_side(source, f)],
        ScarSides::Both(a, b) => seq![
            tension_side(MergeSource::SideA, a),
            tension_side(MergeSource::SideB, b),
        ],
    }
}

/// The tension a scar records: the sides' positions and the explanation.
pub open spec fn scar_tension(s: Scar) -> ConflictTensionV {
    ConflictTensionV { sides: scar_sides(s.sides), detail: scar_text(s.note) }
}

pub open spec fn scar_tension_of(s: Option<Scar>) -> Option<ConflictTensionV> {
    match s {
        Some(x) => Some(scar_tension(x)),
        None => None,
    }
}

/// The same fragment, up to its raw witness count.
pub open spec fn same_but_count(a: BeliefFragment, b: BeliefFragment) -> bool {
    &&& a.state == b.state
    &&& a.epoch == b.epoch
    &&& a.trust == b.trust
    &&& a.authority == b.authority
    &&& a.witness.quality == b.witness.quality
    &&& a.witness.diversity == b.witness.diversity
}

/// Two states in different semantic classes: not equal, and not both
/// permissive.
pub open spec fn cross_class(a: BeliefState, b: BeliefState) -> bool {
    a != b && !(is_permissive(a) && is_permissive(b))
}

/// Raw witness count may inform but never dominate: between two admissible
/// sides of different semantic classes, changing either side's witness
/// count changes nothing the merge decides (rule, resolution, state, what
/// decided it, the chosen source, epoch, trust, and the residue left).
pub proof fn lemma_count_never_decides_across_classes(
    p: MergePolicy,
    a: BeliefFragment,
    b: BeliefFragment,
    a2: BeliefFragment,
    b2: BeliefFragment,
)
    requires
        admitted(Some(a)),
        admitted(Some(b)),
        cross_class(a.state, b.state),
        same_but_count(a, a2),
        same_but_count(b, b2),
    ensures
        ({
            let d1 = merge_decision(p, Some(a), Some(b));
            let d2 = merge_decision(p, Some(a2), Some(b2));
            &&& d1.rule == d2.rule
            &&& d1.traced_by == d2.traced_by
            &&& d1.kind == d2.kind
            &&& d1.state == d2.state
            &&& d1.decided_by == d2.decided_by
            &&& d1.source == d2.source
            &&& d1.epoch == d2.epoch
            &&& d1.trust == d2.trust
            &&& scar_tension_of(d1.scar) == scar_tension_of(d2.scar)
        }),
{
    assert(tension_side(MergeSource::SideA, a) == tension_side(MergeSource::SideA, a2));
    assert(tension_side(MergeSource::SideB, b) == tension_side(MergeSource::SideB, b2));
}

/// Raw witness count never decides a cross-class projection, whatever the
/// fragments: admissible or not, changing either side's witness count
/// leaves the projected state, the rule and the chosen source unchanged.
pub proof fn lemma_count_never_decides_projection(
    p: MergePolicy,
    a: BeliefFragment,
    b: BeliefFragment,
    a2: BeliefFragment,
    b2: BeliefFragment,
)
    requires
        cross_class(a.state, b.state),
        same_but_count(a, a2),
        same_but_count(b, b2),
    ensures
        merge_decision(p, Some(a), Some(b)).state == merge_decision(p, Some(a2), Some(b2)).state,
        merge_decision(p, Some(a), Some(b)).rule == merge_decision(p, Some(a2), Some(b2)).rule,
        merge_decision(p, Some(a), Some(b)).source == merge_decision(p, Some(a2), Some(b2)).source,
{
    assert(admitted(Some(a)) == admitted(Some(a2)));
    assert(admitted(Some(b)) == admitted(Some(b2)));
    if admitted(Some(a)) && admitted(Some(b)) {
        lemma_count_never_decides_across_classes(p, a, b, a2, b2);
    }
}

/// Unresolved material conflict survives as residue: every decision
/// between two admissible sides of different semantic classes leaves a
/// residue entry recording both positions.
pub proof fn lemma_cross_class_conflict_leaves_residue(p: MergePolicy, a: BeliefFragment, b: BeliefFragment)
    requires
        admitted(Some(a)),
        admitted(Some(b)),
        cross_class(a.state, b.state),
    ensures
        ({
            let d = merge_decision(p, Some(a), Some(b));
            &&& d.scar is Some
            &&& d.scar.unwrap().sides == ScarSides::Both(a, b)
        }),
{
}

/// A disagreement always carries its residue; so does any merge that is
/// neither stable nor a plain agreement on a provisional state.
pub proof fn lemma_disagreement_has_residue(p: MergePolicy, a: Option<BeliefFragment>, b: Option<BeliefFragment>)
    ensures
        merge_decision(p, a, b).kind == ResolutionKind::Disagreement ==> merge_decision(
            p,
            a,
            b,
        ).scar is Some,
        merge_decision(p, a, b).kind == ResolutionKind::Disagreement ==> merge_decision(
            p,
            a,
            b,
        ).state == BeliefState::Disputed,
{
}

/// One side alone cannot upgrade tentativeness, and a dispute is never
/// stable: a provisional or disputed state carried by a single admissible
/// side is never reported as a stable convergence, and it leaves residue.
pub proof fn lemma_single_side_never_stabilizes_tentative(
    p: MergePolicy,
    a: Option<BeliefFragment>,
    b: Option<BeliefFragment>,
)
    requires
        admitted(a) != admitted(b),
        ({
            let entry = if admitted(a) {
                a.unwrap()
            } else {
                b.unwrap()
            };
            entry.state == BeliefState::Provisional || entry.state == BeliefState::Disputed
        }),
    ensures
        merge_decision(p, a, b).kind == ResolutionKind::Provisional,
        merge_decision(p, a, b).scar is Some,
{
}

/// Two sides agreeing that a subject is disputed agree on the existence of
/// a conflict, not its resolution: the result stays provisional and the
/// dispute stays visible as residue.
pub proof fn lemma_shared_dispute_stays_visible(p: MergePolicy, a: BeliefFragment, b: BeliefFragment)
    requires
        admitted(Some(a)),
        admitted(Some(b)),
        a.state == BeliefState::Disputed,
        b.state == BeliefState::Disputed,
    ensures
        merge_decision(p, Some(a), Some(b)).kind == ResolutionKind::Provisional,
        merge_decision(p, Some(a), Some(b)).state == BeliefState::Disputed,
        merge_decision(p, Some(a), Some(b)).scar is Some,
{
}

/// The fallback's tie-break is by content, not input order: for mixed
/// shapes that no earlier rule claims, the projected state does not depend
/// on which side is called A.
pub proof fn lemma_fallback_is_side_symmetric(p: MergePolicy, a: BeliefFragment, b: BeliefFragment)
    requires
        admitted(Some(a)),
        admitted(Some(b)),
        a.state != b.state,
        a.witness.diversity != Diversity::Laundered,
        b.witness.diversity != Diversity::Laundered,
        !is_restrictive(a.state),
        !is_restrictive(b.state),
        !(is_permissive(a.state) && is_permissive(b.state)),
    ensures
        merge_decision(p, Some(a), Some(b)).rule == RuleId::Fallback,
        merge_decision(p, Some(a), Some(b)).state == merge_decision(p, Some(b), Some(a)).state,
{
}

/// The projected state of a merge does not depend on which side is called
/// A, except where both sides are laundered or both are restrictive and
/// differ (there the policy breaks the tie by position), under a policy
/// whose permissive margin is not negative.
pub proof fn lemma_projection_is_side_symmetric(p: MergePolicy, a: BeliefFragment, b: BeliefFragment)
    requires
        p.permissive_margin >= 0,
        !(a.witness.diversity == Diversity::Laundered && b.witness.diversity == Diversity::Laundered),
        !(is_restrictive(a.state) && is_restrictive(b.state) && a.state != b.state),
    ensures
        merge_decision(p, Some(a), Some(b)).state == merge_decision(p, Some(b), Some(a)).state,
{
    if admitted(Some(a)) && admitted(Some(b)) && a.state != b.state {
        if laundering_discount_applies(p, a, b) {
            assert(laundering_discount_applies(p, b, a));
        } else if is_restrictive(a.state) || is_restrictive(b.state) {
            assert(restrictive_decision(p, a, b).state == restrictive_decision(p, b, a).state);
        } else if is_permissive(a.state) && is_permissive(b.state) {
            assert(permissive_choice(p, a, b).0.state == permissive_choice(p, b, a).0.state);
            assert(permissive_choice(p, a, b).1.state == permissive_choice(p, b, a).1.state);
            assert(permissive_decision(p, a, b).state == permissive_decision(p, b, a).state);
        } else {
            assert(!laundering_discount_applies(p, b, a));
            assert(fallback_decision(p, a, b).state == fallback_decision(p, b, a).state);
        }
    }
}

/// The fallback keeps the stronger admissible path: when two admissible
/// fragments of mixed shapes (neither laundered, neither restrictive, not
/// both permissive) disagree, the fragment whose dominance score (trust plus
/// quality, diversity and authority scores) is strictly higher supplies the
/// projected state and the source, provisionally and with a visible scar.
pub proof fn lemma_fallback_keeps_the_stronger_path(p: MergePolicy, a: BeliefFragment, b: BeliefFragment)
    requires
        admitted(Some(a)),
        admitted(Some(b)),
        a.state != b.state,
        a.witness.diversity != Diversity::Laundered,
        b.witness.diversity != Diversity::Laundered,
        !is_restrictive(a.state),
        !is_restrictive(b.state),
        !(is_permissive(a.state) && is_permissive(b.state)),
        a.trust.value() + spec_quality_score(p, a.witness.quality) + spec_diversity_score(p, a.witness.diversity)
            + spec_authority_score(p, a.authority) != b.trust.value() + spec_quality_score(p, b.witness.quality)
            + spec_diversity_score(p, b.witness.diversity) + spec_authority_score(p, b.authority),
    ensures
        ({
            let d = merge_decision(p, Some(a), Some(b));
            let a_stronger = a.trust.value() + spec_quality_score(p, a.witness.quality) + spec_diversity_score(
                p,
                a.witness.diversity,
            ) + spec_authority_score(p, a.authority) > b.trust.value() + spec_quality_score(p, b.witness.quality)
                + spec_diversity_score(p, b.witness.diversity) + spec_authority_score(p, b.authority);
            &&& d.rule == RuleId::Fallback
            &&& d.kind == ResolutionKind::Provisional
            &&& d.scar is Some
            &&& d.state == if a_stronger { a.state } else { b.state }
            &&& d.source == if a_stronger { MergeSource::SideA } else { MergeSource::SideB }
        }),
{
}

/// The same law read off a subject's merge outcome: the projected state and
/// the source of any outcome realizing such a merge are the stronger
/// fragment's.
pub proof fn lemma_fallback_outcome_follows_dominance(
    o: SubjectMergeOutcomeV,
    p: MergePolicy,
    ctx: ReunionContextV,
    subject: Seq<char>,
    a: BeliefFragment,
    b: BeliefFragment,
)
    requires
        outcome_realizes(o, p, ctx, subject, Some(a), Some(b)),
        admitted(Some(a)),
        admitted(Some(b)),
        a.state != b.state,
        a.witness.diversity != Diversity::Laundered,
        b.witness.diversity != Diversity::Laundered,
        !is_restrictive(a.state),
        !is_restrictive(b.state),
        !(is_permissive(a.state) && is_permissive(b.state)),
        spec_dominance(p, a) != spec_dominance(p, b),
    ensures
        o.resolution is ProvisionalConverged,
        spec_project(o.resolution) == if spec_dominance(p, a) > spec_dominance(p, b) { a.state } else { b.state },
        o.source == if spec_dominance(p, a) > spec_dominance(p, b) {
            MergeSource::SideA
        } else {
            MergeSource::SideB
        },
        spec_residue(o.resolution).len() == 1,
{
    lemma_fallback_keeps_the_stronger_path(p, a, b);
}

// ---------------------------------------------------------------------------
// One subject's outcome
// ---------------------------------------------------------------------------

/// Where and when a reunion happens.
#[derive(Debug, Clone, PartialEq, Eq)]
pub struct ReunionContext {
    pub scope: ScopeId,
    pub epoch: Epoch,
    pub round: Round,
}

pub struct ReunionContextV {
    pub scope: Seq<char>,
    pub epoch: Epoch,
    pub round: Round,
}

impl View for ReunionContext {
    type V = ReunionContextV;

    open spec fn view(&self) -> ReunionContextV {
        ReunionContextV { scope: self.scope@, epoch: self.epoch, round: self.round }
    }
}

impl ReunionContext {
    pub fn duplicate(&self) -> (r: Self)
        ensures
            r@ == self@,
    {
        ReunionContext { scope: self.scope.duplicate(), epoch: self.epoch, round: self.round }
    }
}

/// A residue entry freshly minted for `key` and `tension` at `born`: its id
/// is the BLAKE3 digest of exactly those, and no override has handled it.
pub open spec fn fresh_residue(r: ResidueV, key: (Seq<char>, Seq<char>), tension: ConflictTensionV, born: (Epoch, Round)) -> bool {
    &&& r.key == key
    &&& r.tension == tension
    &&& r.born == born
    &&& r.handled_by is None
    &&& r.id.spec_bytes() == blake3_digest(residue_id_bytes(key, tension, born))
}

/// The residue a decision's scar turns into: none, or exactly one entry.
pub open spec fn scar_residue(rs: Seq<ResidueV>, scar: Option<Scar>, key: (Seq<char>, Seq<char>), born: (Epoch, Round)) -> bool {
    match scar {
        None => rs.len() == 0,
        Some(s) => rs.len() == 1 && fresh_residue(rs[0], key, scar_tension(s), born),
    }
}

/// A resolution carrying out a decision.
pub open spec fn resolution_realizes(res: MergeResolutionV, d: SubjectDecision, key: (Seq<char>, Seq<char>), born: (Epoch, Round)) -> bool {
    match d.kind {
        ResolutionKind::Converged => res matches MergeResolutionV::Converged {
            state,
            decided_by,
            residue,
        } && state == d.state && decided_by == d.decided_by && scar_residue(residue, d.scar, key, born),
        ResolutionKind::Provisional => res matches MergeResolutionV::ProvisionalConverged {
            state,
            decided_by,
            residue,
        } && state == d.state && decided_by == d.decided_by && scar_residue(residue, d.scar, key, born),
        ResolutionKind::Disagreement => res matches MergeResolutionV::ScopedDisagreement {
            residue,
        } && scar_residue(residue, d.scar, key, born),
    }
}

/// The sides refused admission, with reasons.
pub open spec fn gate_drops(a: Option<BeliefFragment>, b: Option<BeliefFragment>) -> Seq<(MergeSource, InadmissibleReason)> {
    let da = match spec_admissibility(a) {
        Admissibility::Inadmissible(r) => seq![(MergeSource::SideA, r)],
        Admissibility::Admissible => Seq::empty(),
    };
    let db = match spec_admissibility(b) {
        Admissibility::Inadmissible(r) => seq![(MergeSource::SideB, r)],
        Admissibility::Admissible => Seq::empty(),
    };
    da + db
}

pub open spec fn clean_note_text(n: CleanNote) -> Seq<char> {
    side_label(n.stronger) + " supplied the stronger retained detail (within-class, decided by "@
        + decided_by_name(n.detail_by) + ")"@
}

pub open spec fn dominance_of(p: MergePolicy, f: Option<BeliefFragment>) -> Option<i64> {
    if admitted(f) {
        Some(spec_dominance(p, f.unwrap()) as i64)
    } else {
        None
    }
}

pub open spec fn informer_of(p: MergePolicy, f: Option<BeliefFragment>) -> Option<i64> {
    if admitted(f) {
        Some(spec_informer(p, f.unwrap()) as i64)
    } else {
        None
    }
}

/// The trace a decision is explained by.
pub open spec fn expected_trace(p: MergePolicy, a: Option<BeliefFragment>, b: Option<BeliefFragment>, d: SubjectDecision) -> MergeTraceV {
    MergeTraceV {
        rule: d.rule,
        decided_by: d.traced_by,
        gate_drops: gate_drops(a, b),
        dominance: seq![dominance_of(p, a), dominance_of(p, b)],
        informer: seq![informer_of(p, a), informer_of(p, b)],
        notes: match d.note {
            Some(n) => seq![clean_note_text(n)],
            None => Seq::empty(),
        },
    }
}

/// An outcome carrying out the calculus for `subject` on sides `a`, `b`.
pub open spec fn outcome_realizes(
    o: SubjectMergeOutcomeV,
    p: MergePolicy,
    ctx: ReunionContextV,
    subject: Seq<char>,
    a: Option<BeliefFragment>,
    b: Option<BeliefFragment>,
) -> bool {
    let d = merge_decision(p, a, b);
    &&& o.subject == subject
    &&& resolution_realizes(o.resolution, d, (ctx.scope, subject), (ctx.epoch, ctx.round))
    &&& o.trace == expected_trace(p, a, b, d)
    &&& o.source == d.source
    &&& o.epoch == d.epoch
    &&& o.trust == d.trust
}

fn side_label_str(s: MergeSource) -> (r: &'static str)
    ensures
        r@ == side_label(s),
{
    match s {
        MergeSource::SideA => "side_a",
        MergeSource::SideB => "side_b",
        MergeSource::Both => "both",
        MergeSource::Override => "override",
        MergeSource::Neither => "none",
    }
}

fn position(source: MergeSource, f: &BeliefFragment) -> (r: TensionSide)
    ensures
        r@ == tension_side(source, *f),
{
    TensionSide { source: string_of(side_label_str(source)), state: f.state, epoch: f.epoch }
}

/// Mint the residue entry a scar describes.
fn scar_entry(ctx: &ReunionContext, subject: &SubjectId, scar: Scar) -> (r: Residue)
    ensures
        fresh_residue(r@, (ctx.scope@, subject@), scar_tension(scar), (ctx.epoch, ctx.round)),
{
    let mut sides: Vec<TensionSide> = Vec::new();
    match scar.sides {
        ScarSides::One(source, f) => {
            sides.push(position(source, &f));
        },
        ScarSides::Both(a, b) => {
            sides.push(position(MergeSource::SideA, &a));
            sides.push(position(MergeSource::SideB, &b));
        },
    }
    let tension = ConflictTension { sides, detail: string_of(scar.note.text()) };
    assert(tension@.sides =~= scar_sides(scar.sides));
    let key = BeliefKey { scope: ctx.scope.duplicate(), subject: subject.duplicate() };
    Residue::new(key, tension, (ctx.epoch, ctx.round))
}

fn scar_entries(ctx: &ReunionContext, subject: &SubjectId, scar: Option<Scar>) -> (r: Vec<Residue>)
    ensures
        scar_residue(residue_views(r@), scar, (ctx.scope@, subject@), (ctx.epoch, ctx.round)),
{
    let mut out: Vec<Residue> = Vec::new();
    match scar {
        Some(s) => {
            out.push(scar_entry(ctx, subject, s));
        },
        None => {},
    }
    out
}

fn clean_note(n: CleanNote) -> (r: String)
    ensures
        r@ == clean_note_text(n),
{
    let mut out = string_of(side_label_str(n.stronger));
    out.append(" supplied the stronger retained detail (within-class, decided by ");
    out.append(n.detail_by.name());
    out.append(")");
    out
}

fn score_pair(policy: &MergePolicy, a: Option<BeliefFragment>, b: Option<BeliefFragment>, informer: bool) -> (r: [Option<i64>; 2])
    requires
        merge_policy_bounded(*policy),
    ensures
        informer ==> r@ == seq![informer_of(*policy, a), informer_of(*policy, b)],
        !informer ==> r@ == seq![dominance_of(*policy, a), dominance_of(*policy, b)],
{
    let sa = if admissibility(a) == Admissibility::Admissible {
        let f = a.unwrap();
        Some(
            if informer {
                informer_score(policy, &f)
            } else {
                dominance_score(policy, &f)
            },
        )
    } else {
        None
    };
    let sb = if admissibility(b) == Admissibility::Admissible {
        let f = b.unwrap();
        Some(
            if informer {
                informer_score(policy, &f)
            } else {
                dominance_score(policy, &f)
            },
        )
    } else {
        None
    };
    let r = [sa, sb];
    assert(r@ =~= seq![sa, sb]);
    r
}

/// Merge one subject: run the calculus, mint its residue, explain it.
fn merge_subject(
    policy: &MergePolicy,
    ctx: &ReunionContext,
    subject: &SubjectId,
    a: Option<BeliefFragment>,
    b: Option<BeliefFragment>,
) -> (r: SubjectMergeOutcome)
    requires
        merge_policy_bounded(*policy),
    ensures
        outcome_realizes(r@, *policy, ctx@, subject@, a, b),
{
    let d = decide(policy, a, b);
    proof {
        lemma_disagreement_has_residue(*policy, a, b);
    }
    let mut drops: Vec<(MergeSource, InadmissibleReason)> = Vec::new();
    if let Admissibility::Inadmissible(reason) = admissibility(a) {
        drops.push((MergeSource::SideA, reason));
    }
    if let Admissibility::Inadmissible(reason) = admissibility(b) {
        drops.push((MergeSource::SideB, reason));
    }
    assert(drops@ =~= gate_drops(a, b));
    let mut notes: Vec<String> = Vec::new();
    if let Some(n) = d.note {
        notes.push(clean_note(n));
    }
    let trace = MergeTrace {
        rule: d.rule,
        decided_by: d.traced_by,
        gate_drops: drops,
        dominance: score_pair(policy, a, b, false),
        informer: score_pair(policy, a, b, true),
        notes,
    };
    assert(trace@.notes =~= expected_trace(*policy, a, b, d).notes);
    let resolution = match d.kind {
        ResolutionKind::Converged => MergeResolution::Converged {
            state: d.state,
            decided_by: d.decided_by,
            residue: scar_entries(ctx, subject, d.scar),
        },
        ResolutionKind::Provisional => MergeResolution::ProvisionalConverged {
            state: d.state,
            decided_by: d.decided_by,
            residue: scar_entries(ctx, subject, d.scar),
        },
        ResolutionKind::Disagreement => {
            let scar = d.scar.unwrap();
            let entry = scar_entry(ctx, subject, scar);
            let residue = NonEmpty::new(entry);
            assert(residue@.len() == 1);
            MergeResolution::ScopedDisagreement { residue }
        },
    };
    SubjectMergeOutcome {
        subject: subject.duplicate(),
        resolution,
        trace,
        source: d.source,
        epoch: d.epoch,
        trust: TrustGrade::new(d.trust),
    }
}

// ---------------------------------------------------------------------------
// The whole reunion
// ---------------------------------------------------------------------------

/// One party to a reunion.
#[derive(Debug, Clone, PartialEq, Eq)]
pub struct MergeSide {
    pub label: String,
    pub epoch: Epoch,
    pub fragments: SortedMap<SubjectId, BeliefFragment>,
}

pub struct MergeSideV {
    pub label: Seq<char>,
    pub epoch: Epoch,
    pub fragments: Seq<(Seq<char>, BeliefFragment)>,
}

impl View for MergeSide {
    type V = MergeSideV;

    open spec fn view(&self) -> MergeSideV {
        MergeSideV { label: self.label@, epoch: self.epoch, fragments: self.fragments@ }
    }
}

impl MergeSide {
    pub fn duplicate(&self) -> (r: Self)
        ensures
            r@ == self@,
    {
        MergeSide {
            label: self.label.clone(),
            epoch: self.epoch,
            fragments: self.fragments.duplicate(),
        }
    }
}

/// A side's fragment for a subject, if it has one.
pub open spec fn fragment_of(side: MergeSideV, subject: Seq<char>) -> Option<BeliefFragment> {
    map_get::<SubjectId, BeliefFragment>(side.fragments, subject)
}

pub open spec fn quality_byte(q: Quality) -> u8 {
    match q {
        Quality::Weak => 0,
        Quality::Mixed => 1,
        Quality::Strong => 2,
    }
}

pub open spec fn diversity_byte(d: Diversity) -> u8 {
    match d {
        Diversity::Laundered => 0,
        Diversity::SingleScope => 1,
        Diversity::Mixed => 2,
        Diversity::CrossScope => 3,
    }
}

/// A fragment's canonical bytes in the merge input digest.
pub open spec fn fragment_bytes(f: BeliefFragment) -> Seq<u8> {
    framed_str(state_name(f.state)) + le_u64(f.epoch.0) + seq![
        f.trust.value(),
        quality_byte(f.witness.quality),
        diversity_byte(f.witness.diversity),
    ] + le_u64(f.witness.count as u64)
}

/// A side's fragments over the subject list: each subject, then its
/// fragment's bytes or the absence marker 0xff.
pub open spec fn side_subject_bytes(side: MergeSideV, subjects: Seq<Seq<char>>) -> Seq<u8>
    decreases subjects.len(),
{
    if subjects.len() == 0 {
        Seq::empty()
    } else {
        side_subject_bytes(side, subjects.drop_last()) + framed_str(subjects.last()) + match fragment_of(
            side,
            subjects.last(),
        ) {
            Some(f) => fragment_bytes(f),
            None => seq![0xffu8],
        }
    }
}

pub open spec fn side_bytes(side: MergeSideV, subjects: Seq<Seq<char>>) -> Seq<u8> {
    framed_str(side.label) + le_u64(side.epoch.0) + side_subject_bytes(side, subjects)
}

/// Everything the merge read, as bytes.
pub open spec fn merge_input_bytes(ctx: ReunionContextV, subjects: Seq<Seq<char>>, a: MergeSideV, b: MergeSideV) -> Seq<u8> {
    framed_str(ctx.scope) + le_u64(ctx.epoch.0) + le_u64(ctx.round.0) + side_bytes(a, subjects)
        + side_bytes(b, subjects)
}

/// The digest of a reunion's inputs.
pub open spec fn merge_input_digest(ctx: ReunionContextV, subjects: Seq<Seq<char>>, a: MergeSideV, b: MergeSideV) -> Seq<u8> {
    blake3_digest(encode_utf8("resonant/merge-input/v1"@) + merge_input_bytes(ctx, subjects, a, b))
}

pub open spec fn subject_views(subjects: Seq<SubjectId>) -> Seq<Seq<char>> {
    subjects.map_values(|s: SubjectId| s@)
}

/// The first position of `s` in `subjects`.
pub open spec fn first_position(subjects: Seq<Seq<char>>, s: Seq<char>) -> Option<int>
    decreases subjects.len(),
{
    if subjects.len() == 0 {
        None
    } else {
        match first_position(subjects.drop_last(), s) {
            Some(i) => Some(i),
            None => if subjects.last() == s {
                Some(subjects.len() - 1)
            } else {
                None
            },
        }
    }
}

pub open spec fn intervention_tension() -> ConflictTensionV {
    ConflictTensionV {
        sides: Seq::empty(),
        detail: "OperatorOverride forced a visible intervention."@,
    }
}

/// The outcome of an override on a subject whose organic decision is `d`:
/// the organic residue (or a fresh intervention scar when there was none)
/// is kept and marked handled by the override; the trace names the
/// override and records its reason.
pub open spec fn overridden_realizes(
    n: SubjectMergeOutcomeV,
    p: MergePolicy,
    ctx: ReunionContextV,
    subject: Seq<char>,
    a: Option<BeliefFragment>,
    b: Option<BeliefFragment>,
    op: OperatorOverrideV,
) -> bool {
    let d = merge_decision(p, a, b);
    let t = expected_trace(p, a, b, d);
    &&& n.subject == subject
    &&& n.source == MergeSource::Override
    &&& n.epoch == d.epoch
    &&& n.trust == d.trust
    &&& n.trace == MergeTraceV {
        rule: RuleId::OverrideApplied,
        decided_by: DecidedBy::Override,
        notes: t.notes.push("operator reason: "@ + op.reason),
        ..t
    }
    &&& n.resolution matches MergeResolutionV::Overridden { override_id: by, forced, residue }
    &&& by.spec_bytes() == override_id(op)
    &&& forced == op.forced
    &&& residue.len() == 1
    &&& residue[0].handled_by == Some(by)
    &&& fresh_residue(
        ResidueV { handled_by: None, ..residue[0] },
        (ctx.scope, subject),
        match d.scar {
            Some(s) => scar_tension(s),
            None => intervention_tension(),
        },
        (ctx.epoch, ctx.round),
    )
}

/// Outcome `j` of a reunion: the organic merge of subject `j`, or the
/// override's outcome at the first position of the overridden subject.
pub open spec fn reunion_outcome_at(
    o: SubjectMergeOutcomeV,
    j: int,
    p: MergePolicy,
    ctx: ReunionContextV,
    subjects: Seq<Seq<char>>,
    a: MergeSideV,
    b: MergeSideV,
    op: Option<OperatorOverrideV>,
) -> bool {
    let s = subjects[j];
    let fa = fragment_of(a, s);
    let fb = fragment_of(b, s);
    match op {
        Some(op) => if first_position(subjects, op.subject) == Some(j) {
            overridden_realizes(o, p, ctx, s, fa, fb, op)
        } else {
            outcome_realizes(o, p, ctx, s, fa, fb)
        },
        None => outcome_realizes(o, p, ctx, s, fa, fb),
    }
}

/// Each rule once, in order of first firing.
pub open spec fn distinct_rules(rules: Seq<RuleId>) -> Seq<RuleId>
    decreases rules.len(),
{
    if rules.len() == 0 {
        Seq::empty()
    } else {
        let prefix = distinct_rules(rules.drop_last());
        if prefix.contains(rules.last()) {
            prefix
        } else {
            prefix.push(rules.last())
        }
    }
}

pub open spec fn rules_of(outs: Seq<SubjectMergeOutcomeV>) -> Seq<RuleId> {
    outs.map_values(|o: SubjectMergeOutcomeV| o.trace.rule)
}

/// How many entries of `rs` are (`handled`) or are not (`!handled`) marked
/// handled by an override.
pub open spec fn count_by_handling(rs: Seq<ResidueV>, handled: bool) -> nat
    decreases rs.len(),
{
    if rs.len() == 0 {
        0
    } else {
        count_by_handling(rs.drop_last(), handled) + if (rs.last().handled_by is Some) == handled {
            1nat
        } else {
            0nat
        }
    }
}

/// Residue across all outcomes, counted by handling.
pub open spec fn outcome_residue_count(outs: Seq<SubjectMergeOutcomeV>, handled: bool) -> nat
    decreases outs.len(),
{
    if outs.len() == 0 {
        0
    } else {
        outcome_residue_count(outs.drop_last(), handled) + count_by_handling(
            spec_residue(outs.last().resolution),
            handled,
        )
    }
}

pub open spec fn any_provisional(outs: Seq<SubjectMergeOutcomeV>) -> bool {
    exists|j: int|
        0 <= j < outs.len() && (spec_stability(#[trigger] outs[j].resolution)
            == MergeStability::Provisional || spec_project(outs[j].resolution)
            == BeliefState::Disputed)
}

pub open spec fn overall_of(outs: Seq<SubjectMergeOutcomeV>, overridden: bool) -> OverallOutcome {
    let unresolved = outcome_residue_count(outs, false);
    if overridden {
        if unresolved == 0 {
            OverallOutcome::StableWithOverride
        } else {
            OverallOutcome::ProvisionalWithOverride
        }
    } else if unresolved == 0 && !any_provisional(outs) {
        OverallOutcome::Stable
    } else {
        OverallOutcome::Provisional
    }
}

pub struct ReunionDigestV {
    pub overall: OverallOutcome,
    pub compared_subjects: usize,
    pub rules_fired: Seq<RuleId>,
    pub unresolved_residue: usize,
    pub handled_residue: usize,
}

impl View for ReunionDigest {
    type V = ReunionDigestV;

    open spec fn view(&self) -> ReunionDigestV {
        ReunionDigestV {
            overall: self.overall,
            compared_subjects: self.compared_subjects,
            rules_fired: self.rules_fired@,
            unresolved_residue: self.unresolved_residue,
            handled_residue: self.handled_residue,
        }
    }
}

/// The digest a reunion's outcomes summarize to.
pub open spec fn digest_of(outs: Seq<SubjectMergeOutcomeV>, overridden: bool) -> ReunionDigestV {
    ReunionDigestV {
        overall: overall_of(outs, overridden),
        compared_subjects: outs.len() as usize,
        rules_fired: distinct_rules(rules_of(outs)),
        unresolved_residue: outcome_residue_count(outs, false) as usize,
        handled_residue: outcome_residue_count(outs, true) as usize,
    }
}

/// The whole-view reunion result. The only consumption path is
/// `apply_to`, which routes projections through the state machine and
/// residue into the ledger.
#[derive(Debug)]
pub struct ReunionOutcome {
    pub context: ReunionContext,
    pub input_digest: [u8; 32],
    pub outcomes: Vec<SubjectMergeOutcome>,
    pub digest: ReunionDigest,
}

pub struct ReunionOutcomeV {
    pub context: ReunionContextV,
    pub input_digest: Seq<u8>,
    pub outcomes: Seq<SubjectMergeOutcomeV>,
    pub digest: ReunionDigestV,
}

impl View for ReunionOutcome {
    type V = ReunionOutcomeV;

    open spec fn view(&self) -> ReunionOutcomeV {
        ReunionOutcomeV {
            context: self.context@,
            input_digest: self.input_digest@,
            outcomes: self.outcomes@.map_values(|o: SubjectMergeOutcome| o@),
            digest: self.digest@,
        }
    }
}

fn quality_to_byte(q: Quality) -> (r: u8)
    ensures
        r == quality_byte(q),
{
    match q {
        Quality::Weak => 0,
        Quality::Mixed => 1,
        Quality::Strong => 2,
    }
}

fn diversity_to_byte(d: Diversity) -> (r: u8)
    ensures
        r == diversity_byte(d),
{
    match d {
        Diversity::Laundered => 0,
        Diversity::SingleScope => 1,
        Diversity::Mixed => 2,
        Diversity::CrossScope => 3,
    }
}

fn write_fragment(out: &mut Vec<u8>, f: &BeliefFragment)
    ensures
        final(out)@ == old(out)@ + fragment_bytes(*f),
{
    write_str(out, f.state.as_str());
    write_u64(out, f.epoch.0);
    write_byte(out, f.trust.get());
    write_byte(out, quality_to_byte(f.witness.quality));
    write_byte(out, diversity_to_byte(f.witness.diversity));
    write_u64(out, f.witness.count as u64);
    assert(final(out)@ =~= old(out)@ + fragment_bytes(*f));
}

fn write_side(out: &mut Vec<u8>, side: &MergeSide, subjects: &[SubjectId])
    ensures
        final(out)@ == old(out)@ + side_bytes(side@, subject_views(subjects@)),
{
    let ghost sv = subject_views(subjects@);
    write_str(out, side.label.as_str());
    write_u64(out, side.epoch.0);
    let ghost start = out@;
    let mut i: usize = 0;
    while i < subjects.len()
        invariant
            i <= subjects@.len(),
            sv == subject_views(subjects@),
            out@ == start + side_subject_bytes(side@, sv.subrange(0, i as int)),
        decreases subjects@.len() - i,
    {
        let subject = &subjects[i];
        write_str(out, subject.as_str());
        match side.fragments.get(subject) {
            Some(f) => write_fragment(out, f),
            None => write_byte(out, 0xff),
        }
        proof {
            let next = sv.subrange(0, i + 1);
            assert(next.drop_last() =~= sv.subrange(0, i as int));
            assert(next.last() == subject@);
        }
        i = i + 1;
        assert(out@ =~= start + side_subject_bytes(side@, sv.subrange(0, i as int)));
    }
    assert(sv.subrange(0, i as int) =~= sv);
    assert(final(out)@ =~= old(out)@ + side_bytes(side@, sv));
}

fn input_digest(ctx: &ReunionContext, subjects: &[SubjectId], a: &MergeSide, b: &MergeSide) -> (r: [u8; 32])
    ensures
        r@ == merge_input_digest(ctx@, subject_views(subjects@), a@, b@),
{
    let mut bytes: Vec<u8> = Vec::new();
    write_bytes(&mut bytes, "resonant/merge-input/v1".as_bytes());
    write_str(&mut bytes, ctx.scope.as_str());
    write_u64(&mut bytes, ctx.epoch.0);
    write_u64(&mut bytes, ctx.round.0);
    write_side(&mut bytes, a, subjects);
    write_side(&mut bytes, b, subjects);
    assert(bytes@ =~= encode_utf8("resonant/merge-input/v1"@) + merge_input_bytes(
        ctx@,
        subject_views(subjects@),
        a@,
        b@,
    ));
    blake3_hash(bytes.as_slice())
}

pub open spec fn mark_handled_by(rs: Seq<ResidueV>, by: OverrideId) -> Seq<ResidueV> {
    rs.map_values(|r: ResidueV| ResidueV { handled_by: Some(by), ..r })
}

fn mark_all(rs: Vec<Residue>, by: OverrideId) -> (r: Vec<Residue>)
    ensures
        residue_views(r@) == mark_handled_by(residue_views(rs@), by),
{
    let mut out: Vec<Residue> = Vec::new();
    let mut i: usize = 0;
    while i < rs.len()
        invariant
            i <= rs@.len(),
            out@.len() == i,
            forall|j: int|
                0 <= j < i ==> (#[trigger] out@[j])@ == (ResidueV { handled_by: Some(by), ..rs@[j]@ }),
        decreases rs@.len() - i,
    {
        let mut x = rs[i].duplicate();
        x.mark_handled(by);
        out.push(x);
        i = i + 1;
    }
    assert(residue_views(out@) =~= mark_handled_by(residue_views(rs@), by));
    out
}

/// The residue an organic resolution carries, copied out.
fn residue_of(res: &MergeResolution) -> (r: Vec<Residue>)
    ensures
        residue_views(r@) == spec_residue(res@),
{
    match res {
        MergeResolution::Converged { residue, .. } => copy_residue(residue),
        MergeResolution::ProvisionalConverged { residue, .. } => copy_residue(residue),
        MergeResolution::Overridden { residue, .. } => copy_residue(residue),
        MergeResolution::ScopedDisagreement { residue } => {
            let mut out: Vec<Residue> = Vec::new();
            let n = residue.last_index();
            let mut i: usize = 0;
            loop
                invariant_except_break
                    i <= n,
                    out@.len() == i,
                invariant
                    n + 1 == residue@.len(),
                    forall|j: int| 0 <= j < out@.len() ==> (#[trigger] out@[j])@ == residue@[j],
                ensures
                    out@.len() == n + 1,
                decreases n - i,
            {
                out.push(residue.at(i).duplicate());
                if i == n {
                    break;
                }
                i = i + 1;
            }
            assert(residue_views(out@) =~= spec_residue(res@));
            out
        },
    }
}

/// Replace an organic outcome by the override's: the organic residue (or
/// a fresh intervention scar) stays, marked handled by the override.
fn apply_override(
    ctx: &ReunionContext,
    prior: &SubjectMergeOutcome,
    op: &OperatorOverride,
    Ghost(p): Ghost<MergePolicy>,
    Ghost(a): Ghost<Option<BeliefFragment>>,
    Ghost(b): Ghost<Option<BeliefFragment>>,
) -> (r: SubjectMergeOutcome)
    requires
        outcome_realizes(prior@, p, ctx@, prior@.subject, a, b),
    ensures
        overridden_realizes(r@, p, ctx@, prior@.subject, a, b, op@),
{
    let override_id = op.id();
    let mut residue = residue_of(&prior.resolution);
    if residue.len() == 0 {
        let tension = ConflictTension {
            sides: Vec::new(),
            detail: string_of("OperatorOverride forced a visible intervention."),
        };
        assert(tension@.sides =~= Seq::<TensionSideV>::empty());
        let key = BeliefKey { scope: ctx.scope.duplicate(), subject: prior.subject.duplicate() };
        residue.push(Residue::new(key, tension, (ctx.epoch, ctx.round)));
    }
    let residue = mark_all(residue, override_id);
    let mut trace = prior.trace.duplicate();
    trace.rule = RuleId::OverrideApplied;
    trace.decided_by = DecidedBy::Override;
    let mut reason = string_of("operator reason: ");
    reason.append(op.reason.as_str());
    trace.notes.push(reason);
    assert(trace@.notes =~= prior@.trace.notes.push("operator reason: "@ + op@.reason));
    let r = SubjectMergeOutcome {
        subject: prior.subject.duplicate(),
        resolution: MergeResolution::Overridden { override_id, forced: op.forced, residue },
        trace,
        source: MergeSource::Override,
        epoch: prior.epoch,
        trust: prior.trust,
    };
    r
}

proof fn lemma_first_position_is(s: Seq<Seq<char>>, x: Seq<char>, j: int)
    requires
        0 <= j < s.len(),
        s[j] == x,
        forall|k: int| 0 <= k < j ==> s[k] != x,
    ensures
        first_position(s, x) == Some(j),
    decreases s.len(),
{
    if j < s.len() - 1 {
        lemma_first_position_is(s.drop_last(), x, j);
    } else {
        lemma_first_position_none(s.drop_last(), x);
    }
}

proof fn lemma_first_position_none(s: Seq<Seq<char>>, x: Seq<char>)
    requires
        forall|k: int| 0 <= k < s.len() ==> s[k] != x,
    ensures
        first_position(s, x) is None,
    decreases s.len(),
{
    if s.len() > 0 {
        lemma_first_position_none(s.drop_last(), x);
    }
}

proof fn lemma_count_by_handling_bound(rs: Seq<ResidueV>, handled: bool)
    ensures
        count_by_handling(rs, handled) <= rs.len(),
    decreases rs.len(),
{
    if rs.len() > 0 {
        lemma_count_by_handling_bound(rs.drop_last(), handled);
    }
}

fn contains_rule(rules: &Vec<RuleId>, rule: RuleId) -> (b: bool)
    ensures
        b == rules@.contains(rule),
{
    let mut i: usize = 0;
    while i < rules.len()
        invariant
            i <= rules@.len(),
            forall|j: int| 0 <= j < i ==> rules@[j] != rule,
        decreases rules@.len() - i,
    {
        if rules[i] == rule {
            assert(rules@[i as int] == rule);
            return true;
        }
        i = i + 1;
    }
    false
}

fn count_handling(rs: &Vec<&Residue>, handled: bool) -> (n: usize)
    ensures
        n == count_by_handling(rs@.map_values(|x: &Residue| x@), handled),
{
    let ghost views = rs@.map_values(|x: &Residue| x@);
    let mut n: usize = 0;
    let mut i: usize = 0;
    while i < rs.len()
        invariant
            i <= rs@.len(),
            views == rs@.map_values(|x: &Residue| x@),
            n == count_by_handling(views.subrange(0, i as int), handled),
            n <= i,
        decreases rs@.len() - i,
    {
        proof {
            let next = views.subrange(0, i + 1);
            assert(next.drop_last() =~= views.subrange(0, i as int));
            assert(next.last() == rs@[i as int]@);
        }
        if rs[i].handled_by().is_some() == handled {
            n = n + 1;
        }
        i = i + 1;
    }
    assert(views.subrange(0, i as int) =~= views);
    n
}

pub open spec fn outcome_views(outs: Seq<SubjectMergeOutcome>) -> Seq<SubjectMergeOutcomeV> {
    outs.map_values(|o: SubjectMergeOutcome| o@)
}

/// Summarize outcomes into the reunion digest.
fn summarize(outcomes: &Vec<SubjectMergeOutcome>, overridden: bool) -> (r: ReunionDigest)
    requires
        forall|j: int|
            0 <= j < outcomes@.len() ==> spec_residue((#[trigger] outcomes@[j])@.resolution).len()
                <= 1,
    ensures
        r@ == digest_of(outcome_views(outcomes@), overridden),
{
    let ghost outs = outcome_views(outcomes@);
    let mut rules: Vec<RuleId> = Vec::new();
    let mut unresolved: usize = 0;
    let mut handled: usize = 0;
    let mut provisional = false;
    let mut i: usize = 0;
    while i < outcomes.len()
        invariant
            i <= outcomes@.len(),
            outs == outcome_views(outcomes@),
            forall|j: int|
                0 <= j < outcomes@.len() ==> spec_residue((#[trigger] outcomes@[j])@.resolution).len()
                    <= 1,
            rules@ == distinct_rules(rules_of(outs.subrange(0, i as int))),
            unresolved == outcome_residue_count(outs.subrange(0, i as int), false),
            handled == outcome_residue_count(outs.subrange(0, i as int), true),
            unresolved <= i,
            handled <= i,
            provisional == any_provisional(outs.subrange(0, i as int)),
        decreases outcomes@.len() - i,
    {
        let o = &outcomes[i];
        let ghost prefix = outs.subrange(0, i as int);
        let ghost next = outs.subrange(0, i + 1);
        proof {
            assert(next.drop_last() =~= prefix);
            assert(next.last() == o@);
            assert(rules_of(next).drop_last() =~= rules_of(prefix));
            assert(rules_of(next).last() == o.trace.rule);
        }
        if !contains_rule(&rules, o.trace.rule) {
            rules.push(o.trace.rule);
        }
        let rs = o.resolution.residue();
        proof {
            lemma_count_by_handling_bound(spec_residue(o@.resolution), false);
            lemma_count_by_handling_bound(spec_residue(o@.resolution), true);
        }
        unresolved = unresolved + count_handling(&rs, false);
        handled = handled + count_handling(&rs, true);
        let flagged = o.resolution.stability() == MergeStability::Provisional
            || o.resolution.project() == BeliefState::Disputed;
        proof {
            if flagged {
                assert(next[i as int] == o@);
            }
            if any_provisional(prefix) {
                let w = choose|j: int|
                    0 <= j < prefix.len() && (spec_stability(#[trigger] prefix[j].resolution)
                        == MergeStability::Provisional || spec_project(prefix[j].resolution)
                        == BeliefState::Disputed);
                assert(next[w] == prefix[w]);
            }
            if any_provisional(next) {
                let w = choose|j: int|
                    0 <= j < next.len() && (spec_stability(#[trigger] next[j].resolution)
                        == MergeStability::Provisional || spec_project(next[j].resolution)
                        == BeliefState::Disputed);
                if w < i {
                    assert(prefix[w] == next[w]);
                }
            }
        }
        provisional = provisional || flagged;
        i = i + 1;
    }
    assert(outs.subrange(0, i as int) =~= outs);
    let overall = if overridden {
        if unresolved == 0 {
            OverallOutcome::StableWithOverride
        } else {
            OverallOutcome::ProvisionalWithOverride
        }
    } else if unresolved == 0 && !provisional {
        OverallOutcome::Stable
    } else {
        OverallOutcome::Provisional
    };
    ReunionDigest {
        overall,
        compared_subjects: outcomes.len(),
        rules_fired: rules,
        unresolved_residue: unresolved,
        handled_residue: handled,
    }
}

pub open spec fn override_view(op: Option<&OperatorOverride>) -> Option<OperatorOverrideV> {
    match op {
        Some(o) => Some(o@),
        None => None,
    }
}

fn fragment_copy(side: &MergeSide, subject: &SubjectId) -> (r: Option<BeliefFragment>)
    ensures
        r == fragment_of(side@, subject@),
{
    match side.fragments.get(subject) {
        Some(f) => Some(*f),
        None => None,
    }
}

/// Deterministic reunion of two sides over an explicit subject list.
pub fn deterministic_reunion(
    policy: &MergePolicy,
    ctx: &ReunionContext,
    subjects: &[SubjectId],
    side_a: &MergeSide,
    side_b: &MergeSide,
    operator_override: Option<&OperatorOverride>,
) -> (r: ReunionOutcome)
    requires
        merge_policy_bounded(*policy),
    ensures
        r@.context == ctx@,
        r@.input_digest == merge_input_digest(ctx@, subject_views(subjects@), side_a@, side_b@),
        r@.outcomes.len() == subjects@.len(),
        forall|j: int|
            0 <= j < subjects@.len() ==> reunion_outcome_at(
                #[trigger] r@.outcomes[j],
                j,
                *policy,
                ctx@,
                subject_views(subjects@),
                side_a@,
                side_b@,
                override_view(operator_override),
            ),
        r@.digest == digest_of(r@.outcomes, operator_override is Some),
        r@ == reunion_result(
            *policy,
            ctx@,
            subject_views(subjects@),
            side_a@,
            side_b@,
            override_view(operator_override),
        ),
{
    let ghost sv = subject_views(subjects@);
    let digest_input = input_digest(ctx, subjects, side_a, side_b);
    let mut outcomes: Vec<SubjectMergeOutcome> = Vec::new();
    let mut i: usize = 0;
    while i < subjects.len()
        invariant
            i <= subjects@.len(),
            sv == subject_views(subjects@),
            merge_policy_bounded(*policy),
            outcomes@.len() == i,
            forall|j: int|
                0 <= j < i ==> outcome_realizes(
                    (#[trigger] outcomes@[j])@,
                    *policy,
                    ctx@,
                    sv[j],
                    fragment_of(side_a@, sv[j]),
                    fragment_of(side_b@, sv[j]),
                ),
        decreases subjects@.len() - i,
    {
        let subject = &subjects[i];
        let fa = fragment_copy(side_a, subject);
        let fb = fragment_copy(side_b, subject);
        outcomes.push(merge_subject(policy, ctx, subject, fa, fb));
        i = i + 1;
    }
    if let Some(op) = operator_override {
        let mut k: usize = 0;
        let mut found: Option<usize> = None;
        while k < outcomes.len()
            invariant_except_break
                found is None,
            invariant
                k <= outcomes@.len(),
                outcomes@.len() == sv.len(),
                forall|j: int| 0 <= j < outcomes@.len() ==> (#[trigger] outcomes@[j])@.subject == sv[j],
                forall|j: int| 0 <= j < k ==> sv[j] != op@.subject,
            ensures
                match found {
                    Some(j) => first_position(sv, op@.subject) == Some(j as int) && j
                        < outcomes@.len(),
                    None => forall|j: int| 0 <= j < sv.len() ==> sv[j] != op@.subject,
                },
            decreases outcomes@.len() - k,
        {
            if outcomes[k].subject.same(&op.subject) {
                proof {
                    lemma_first_position_is(sv, op@.subject, k as int);
                }
                found = Some(k);
                break;
            }
            k = k + 1;
        }
        proof {
            if found is None {
                lemma_first_position_none(sv, op@.subject);
            }
        }
        if let Some(j) = found {
            let replaced = apply_override(
                ctx,
                &outcomes[j],
                op,
                Ghost(*policy),
                Ghost(fragment_of(side_a@, sv[j as int])),
                Ghost(fragment_of(side_b@, sv[j as int])),
            );
            outcomes[j] = replaced;
        }
    }
    proof {
        assert forall|j: int| 0 <= j < outcomes@.len() implies spec_residue(
            (#[trigger] outcomes@[j])@.resolution,
        ).len() <= 1 by {
            let s = sv[j];
            let d = merge_decision(*policy, fragment_of(side_a@, s), fragment_of(side_b@, s));
            assert(reunion_outcome_at(
                outcomes@[j]@,
                j,
                *policy,
                ctx@,
                sv,
                side_a@,
                side_b@,
                override_view(operator_override),
            ));
        }
    }
    let digest = summarize(&outcomes, operator_override.is_some());
    let r = ReunionOutcome {
        context: ctx.duplicate(),
        input_digest: digest_input,
        outcomes,
        digest,
    };
    proof {
        let opv = override_view(operator_override);
        assert(reunion_realizes(r@, *policy, ctx@, sv, side_a@, side_b@, opv));
        let chosen = reunion_result(*policy, ctx@, sv, side_a@, side_b@, opv);
        lemma_reunion_unique(r@, chosen, *policy, ctx@, sv, side_a@, side_b@, opv);
    }
    r
}

/// A reunion outcome carrying out the calculus for every subject.
pub open spec fn reunion_realizes(
    r: ReunionOutcomeV,
    p: MergePolicy,
    ctx: ReunionContextV,
    subjects: Seq<Seq<char>>,
    a: MergeSideV,
    b: MergeSideV,
    op: Option<OperatorOverrideV>,
) -> bool {
    &&& r.context == ctx
    &&& r.input_digest == merge_input_digest(ctx, subjects, a, b)
    &&& r.outcomes.len() == subjects.len()
    &&& forall|j: int|
        0 <= j < subjects.len() ==> reunion_outcome_at(
            #[trigger] r.outcomes[j],
            j,
            p,
            ctx,
            subjects,
            a,
            b,
            op,
        )
    &&& r.digest == digest_of(r.outcomes, op is Some)
}

/// The reunion of two sides: the one outcome that carries out the
/// calculus (residue ids are digests of their content, so it is unique).
pub open spec fn reunion_result(
    p: MergePolicy,
    ctx: ReunionContextV,
    subjects: Seq<Seq<char>>,
    a: MergeSideV,
    b: MergeSideV,
    op: Option<OperatorOverrideV>,
) -> ReunionOutcomeV {
    choose|r: ReunionOutcomeV| reunion_realizes(r, p, ctx, subjects, a, b, op)
}

proof fn lemma_fresh_residue_unique(r1: ResidueV, r2: ResidueV, key: (Seq<char>, Seq<char>), tension: ConflictTensionV, born: (Epoch, Round))
    requires
        fresh_residue(r1, key, tension, born),
        fresh_residue(r2, key, tension, born),
    ensures
        r1 == r2,
{
    r1.id.lemma_with_bytes();
    r2.id.lemma_with_bytes();
}

proof fn lemma_scar_residue_unique(rs1: Seq<ResidueV>, rs2: Seq<ResidueV>, scar: Option<Scar>, key: (Seq<char>, Seq<char>), born: (Epoch, Round))
    requires
        scar_residue(rs1, scar, key, born),
        scar_residue(rs2, scar, key, born),
    ensures
        rs1 == rs2,
{
    if let Some(sc) = scar {
        lemma_fresh_residue_unique(rs1[0], rs2[0], key, scar_tension(sc), born);
    }
    assert(rs1 =~= rs2);
}

proof fn lemma_outcome_unique(
    o1: SubjectMergeOutcomeV,
    o2: SubjectMergeOutcomeV,
    p: MergePolicy,
    ctx: ReunionContextV,
    subject: Seq<char>,
    a: Option<BeliefFragment>,
    b: Option<BeliefFragment>,
)
    requires
        outcome_realizes(o1, p, ctx, subject, a, b),
        outcome_realizes(o2, p, ctx, subject, a, b),
    ensures
        o1 == o2,
{
    let d = merge_decision(p, a, b);
    let key = (ctx.scope, subject);
    let born = (ctx.epoch, ctx.round);
    lemma_scar_residue_unique(spec_residue(o1.resolution), spec_residue(o2.resolution), d.scar, key, born);
}

proof fn lemma_overridden_unique(
    o1: SubjectMergeOutcomeV,
    o2: SubjectMergeOutcomeV,
    p: MergePolicy,
    ctx: ReunionContextV,
    subject: Seq<char>,
    a: Option<BeliefFragment>,
    b: Option<BeliefFragment>,
    op: OperatorOverrideV,
)
    requires
        overridden_realizes(o1, p, ctx, subject, a, b, op),
        overridden_realizes(o2, p, ctx, subject, a, b, op),
    ensures
        o1 == o2,
{
    let d = merge_decision(p, a, b);
    let rs1 = spec_residue(o1.resolution);
    let rs2 = spec_residue(o2.resolution);
    let (by1, by2) = match (o1.resolution, o2.resolution) {
        (
            MergeResolutionV::Overridden { override_id: x, .. },
            MergeResolutionV::Overridden { override_id: y, .. },
        ) => (x, y),
        _ => (arbitrary(), arbitrary()),
    };
    by1.lemma_with_bytes();
    by2.lemma_with_bytes();
    let tension = match d.scar {
        Some(s) => scar_tension(s),
        None => intervention_tension(),
    };
    lemma_fresh_residue_unique(
        ResidueV { handled_by: None, ..rs1[0] },
        ResidueV { handled_by: None, ..rs2[0] },
        (ctx.scope, subject),
        tension,
        (ctx.epoch, ctx.round),
    );
    assert(rs1[0] == rs2[0]);
    assert(rs1 =~= rs2);
}

/// The reunion outcome is unique: two outcomes that both carry out the
/// calculus on the same inputs are equal.
pub proof fn lemma_reunion_unique(
    r1: ReunionOutcomeV,
    r2: ReunionOutcomeV,
    p: MergePolicy,
    ctx: ReunionContextV,
    subjects: Seq<Seq<char>>,
    a: MergeSideV,
    b: MergeSideV,
    op: Option<OperatorOverrideV>,
)
    requires
        reunion_realizes(r1, p, ctx, subjects, a, b, op),
        reunion_realizes(r2, p, ctx, subjects, a, b, op),
    ensures
        r1 == r2,
{
    assert forall|j: int| 0 <= j < subjects.len() implies r1.outcomes[j] == r2.outcomes[j] by {
        assert(reunion_outcome_at(r1.outcomes[j], j, p, ctx, subjects, a, b, op));
        assert(reunion_outcome_at(r2.outcomes[j], j, p, ctx, subjects, a, b, op));
        let s = subjects[j];
        let fa = fragment_of(a, s);
        let fb = fragment_of(b, s);
        match op {
            Some(o) => if first_position(subjects, o.subject) == Some(j) {
                lemma_overridden_unique(r1.outcomes[j], r2.outcomes[j], p, ctx, s, fa, fb, o);
            } else {
                lemma_outcome_unique(r1.outcomes[j], r2.outcomes[j], p, ctx, s, fa, fb);
            },
            None => {
                lemma_outcome_unique(r1.outcomes[j], r2.outcomes[j], p, ctx, s, fa, fb);
            },
        }
    }
    assert(r1.outcomes =~= r2.outcomes);
}

/// An override touches only its own subject: against the same reunion
/// without it, every other subject's outcome is unchanged, the inputs'
/// digest is the same, and the overall outcome says an override was used.
pub proof fn lemma_override_is_local(
    with_op: ReunionOutcomeV,
    without: ReunionOutcomeV,
    p: MergePolicy,
    ctx: ReunionContextV,
    subjects: Seq<Seq<char>>,
    a: MergeSideV,
    b: MergeSideV,
    op: OperatorOverrideV,
)
    requires
        reunion_realizes(with_op, p, ctx, subjects, a, b, Some(op)),
        reunion_realizes(without, p, ctx, subjects, a, b, None),
    ensures
        with_op.input_digest == without.input_digest,
        forall|j: int|
            0 <= j < subjects.len() && first_position(subjects, op.subject) != Some(j)
                ==> #[trigger] with_op.outcomes[j] == without.outcomes[j],
        with_op.digest.overall is StableWithOverride || with_op.digest.overall is ProvisionalWithOverride,
{
    assert forall|j: int|
        0 <= j < subjects.len() && first_position(subjects, op.subject) != Some(j)
            implies #[trigger] with_op.outcomes[j] == without.outcomes[j] by {
        assert(reunion_outcome_at(with_op.outcomes[j], j, p, ctx, subjects, a, b, Some(op)));
        assert(reunion_outcome_at(without.outcomes[j], j, p, ctx, subjects, a, b, None));
        let s = subjects[j];
        lemma_outcome_unique(with_op.outcomes[j], without.outcomes[j], p, ctx, s, fragment_of(a, s), fragment_of(b, s));
    }
}

/// Every residue count an engine-made reunion reports fits its subjects:
/// each subject's outcome carries at most one residue entry.
pub proof fn lemma_reunion_residue_bounded(
    r: ReunionOutcomeV,
    p: MergePolicy,
    ctx: ReunionContextV,
    subjects: Seq<Seq<char>>,
    a: MergeSideV,
    b: MergeSideV,
    op: Option<OperatorOverrideV>,
)
    requires
        reunion_realizes(r, p, ctx, subjects, a, b, op),
    ensures
        total_residue(r.outcomes) <= r.outcomes.len(),
{
    assert forall|j: int| 0 <= j < r.outcomes.len() implies spec_residue(
        (#[trigger] r.outcomes[j]).resolution,
    ).len() <= 1 by {
        assert(reunion_outcome_at(r.outcomes[j], j, p, ctx, subjects, a, b, op));
    }
    lemma_total_residue_at_most_len(r.outcomes);
}

proof fn lemma_total_residue_at_most_len(outs: Seq<SubjectMergeOutcomeV>)
    requires
        forall|j: int| 0 <= j < outs.len() ==> spec_residue((#[trigger] outs[j]).resolution).len() <= 1,
    ensures
        total_residue(outs) <= outs.len(),
    decreases outs.len(),
{
    if outs.len() > 0 {
        let d = outs.drop_last();
        assert forall|j: int| 0 <= j < d.len() implies spec_residue((#[trigger] d[j]).resolution).len() <= 1 by {
            assert(d[j] == outs[j]);
        }
        lemma_total_residue_at_most_len(d);
        assert(spec_residue(outs[outs.len() - 1].resolution).len() <= 1);
    }
}

// ---------------------------------------------------------------------------
// Applying a reunion to a view
// ---------------------------------------------------------------------------

impl ReunionOutcome {
    pub fn duplicate(&self) -> (r: Self)
        ensures
            r@ == self@,
    {
        let mut outcomes: Vec<SubjectMergeOutcome> = Vec::new();
        let mut i: usize = 0;
        while i < self.outcomes.len()
            invariant
                i <= self.outcomes@.len(),
                outcomes@.len() == i,
                forall|j: int| 0 <= j < i ==> (#[trigger] outcomes@[j])@ == self.outcomes@[j]@,
            decreases self.outcomes@.len() - i,
        {
            outcomes.push(self.outcomes[i].duplicate());
            i = i + 1;
        }
        let r = ReunionOutcome {
            context: self.context.duplicate(),
            input_digest: self.input_digest,
            outcomes,
            digest: ReunionDigest {
                overall: self.digest.overall,
                compared_subjects: self.digest.compared_subjects,
                rules_fired: copy_rules(&self.digest.rules_fired),
                unresolved_residue: self.digest.unresolved_residue,
                handled_residue: self.digest.handled_residue,
            },
        };
        assert(r@.outcomes =~= self@.outcomes);
        r
    }
}

impl Clone for ReunionOutcome {
    fn clone(&self) -> (r: Self)
        ensures
            r@ == self@,
    {
        self.duplicate()
    }
}

fn copy_rules(rules: &Vec<RuleId>) -> (r: Vec<RuleId>)
    ensures
        r@ == rules@,
{
    let mut out: Vec<RuleId> = Vec::new();
    let mut i: usize = 0;
    while i < rules.len()
        invariant
            i <= rules@.len(),
            out@ == rules@.subrange(0, i as int),
        decreases rules@.len() - i,
    {
        out.push(rules[i]);
        i = i + 1;
        assert(out@ =~= rules@.subrange(0, i as int));
    }
    assert(out@ =~= rules@);
    out
}

/// Result of applying a reunion to a view.
#[derive(Debug)]
pub struct AppliedMerge {
    pub transitions: Vec<Transition>,
    pub confirmations: usize,
    pub residue_inserted: usize,
    pub residue_superseded: usize,
    /// Each inserted residue that replaced a live entry of its tension
    /// class, with the id of the entry it replaced.
    pub replaced: Vec<(Residue, ResidueId)>,
}

pub struct AppliedMergeV {
    pub transitions: Seq<TransitionV>,
    pub confirmations: nat,
    pub residue_inserted: nat,
    pub residue_superseded: nat,
    pub replaced: Seq<(ResidueV, ResidueId)>,
}

/// The views of a list of replacements.
pub open spec fn replacement_views(rs: Seq<(Residue, ResidueId)>) -> Seq<(ResidueV, ResidueId)> {
    rs.map_values(|e: (Residue, ResidueId)| (e.0@, e.1))
}

impl View for AppliedMerge {
    type V = AppliedMergeV;

    open spec fn view(&self) -> AppliedMergeV {
        AppliedMergeV {
            transitions: self.transitions@.map_values(|t: Transition| t@),
            confirmations: self.confirmations as nat,
            residue_inserted: self.residue_inserted as nat,
            residue_superseded: self.residue_superseded as nat,
            replaced: replacement_views(self.replaced@),
        }
    }
}

/// The event an outcome projects onto its subject's cell.
pub open spec fn outcome_event(o: SubjectMergeOutcomeV, input_digest: Seq<u8>) -> BeliefEventV {
    match o.resolution {
        MergeResolutionV::Overridden { override_id, forced, .. } => BeliefEventV::OverrideApplied {
            override_id,
            to: forced,
        },
        _ => BeliefEventV::MergeProjected { input_digest, to: spec_project(o.resolution) },
    }
}

/// One outcome's projection onto the view: the subject's cell is created if
/// absent; an unknown projection onto an unknown cell is a confirmation;
/// everything else goes through `apply_step`, the state machine.
pub open spec fn project_step(v: MembershipViewV, o: SubjectMergeOutcomeV, input_digest: Seq<u8>, at: (Epoch, Round), policy: PolicyBundle) -> (MembershipViewV, Result<Option<TransitionV>, TransitionError>) {
    let beliefs = ensure_cell(v.beliefs, o.subject, at);
    let cell = map_get::<SubjectId, BeliefCellV>(beliefs, o.subject).unwrap();
    let (after, r) = if spec_project(o.resolution) == BeliefState::Unknown && cell.state
        == BeliefState::Unknown {
        (cell, Ok(None))
    } else {
        apply_step(cell, outcome_event(o, input_digest), at, policy)
    };
    (
        MembershipViewV { beliefs: map_insert::<SubjectId, BeliefCellV>(beliefs, o.subject, after), ..v },
        r,
    )
}

/// Insert residue entries in order; also how many inserts superseded a
/// live entry of the same tension class.
pub open spec fn insert_residues(entries: Seq<(ResidueId, ResidueV)>, rs: Seq<ResidueV>) -> (Seq<(ResidueId, ResidueV)>, nat)
    decreases rs.len(),
{
    if rs.len() == 0 {
        (entries, 0)
    } else {
        let (e1, n1) = insert_residues(entries, rs.drop_last());
        let (e2, old) = ledger_insert(e1, rs.last());
        (e2, n1 + if old is Some {
            1nat
        } else {
            0nat
        })
    }
}

pub open spec fn no_changes() -> AppliedMergeV {
    AppliedMergeV {
        transitions: Seq::empty(),
        confirmations: 0,
        residue_inserted: 0,
        residue_superseded: 0,
        replaced: Seq::empty(),
    }
}

/// The inserts among `rs` that replaced a live entry, each with the id it
/// replaced, when `rs` is inserted in order into `entries`.
pub open spec fn residue_replacements(entries: Seq<(ResidueId, ResidueV)>, rs: Seq<ResidueV>) -> Seq<(ResidueV, ResidueId)>
    decreases rs.len(),
{
    if rs.len() == 0 {
        Seq::empty()
    } else {
        let (e1, _) = insert_residues(entries, rs.drop_last());
        residue_replacements(entries, rs.drop_last()) + match ledger_insert(e1, rs.last()).1 {
            Some(old) => seq![(rs.last(), old)],
            None => Seq::empty(),
        }
    }
}

/// Applying one more outcome after `acc`: project it, then insert its
/// residue.
pub open spec fn apply_next(
    v: MembershipViewV,
    acc: AppliedMergeV,
    o: SubjectMergeOutcomeV,
    input_digest: Seq<u8>,
    at: (Epoch, Round),
    policy: PolicyBundle,
) -> (MembershipViewV, Result<AppliedMergeV, TransitionError>) {
    let (v1, step) = project_step(v, o, input_digest, at, policy);
    match step {
        Err(e) => (v1, Err(e)),
        Ok(t) => {
            let rs = spec_residue(o.resolution);
            let (entries, superseded) = insert_residues(v1.residue.entries, rs);
            (
                MembershipViewV { residue: ResidueLedgerV { entries, ..v1.residue }, ..v1 },
                Ok(
                    AppliedMergeV {
                        transitions: match t {
                            Some(tt) => acc.transitions.push(tt),
                            None => acc.transitions,
                        },
                        confirmations: acc.confirmations + if t is None {
                            1nat
                        } else {
                            0nat
                        },
                        residue_inserted: acc.residue_inserted + rs.len(),
                        residue_superseded: acc.residue_superseded + superseded,
                        replaced: acc.replaced + residue_replacements(v1.residue.entries, rs),
                    },
                ),
            )
        },
    }
}

/// Applying the first `n` outcomes, in order, stopping at the first
/// refused projection.
pub open spec fn apply_prefix(
    v0: MembershipViewV,
    outs: Seq<SubjectMergeOutcomeV>,
    n: nat,
    input_digest: Seq<u8>,
    at: (Epoch, Round),
    policy: PolicyBundle,
) -> (MembershipViewV, Result<AppliedMergeV, TransitionError>)
    decreases n,
{
    if n == 0 {
        (v0, Ok(no_changes()))
    } else {
        let (v, r) = apply_prefix(v0, outs, (n - 1) as nat, input_digest, at, policy);
        match r {
            Err(e) => (v, Err(e)),
            Ok(acc) => apply_next(v, acc, outs[n - 1], input_digest, at, policy),
        }
    }
}

proof fn lemma_apply_error_sticks(
    v0: MembershipViewV,
    outs: Seq<SubjectMergeOutcomeV>,
    k: nat,
    n: nat,
    input_digest: Seq<u8>,
    at: (Epoch, Round),
    policy: PolicyBundle,
)
    requires
        k <= n,
        apply_prefix(v0, outs, k, input_digest, at, policy).1 is Err,
    ensures
        apply_prefix(v0, outs, n, input_digest, at, policy) == apply_prefix(
            v0,
            outs,
            k,
            input_digest,
            at,
            policy,
        ),
    decreases n,
{
    if n > k {
        lemma_apply_error_sticks(v0, outs, k, (n - 1) as nat, input_digest, at, policy);
    }
}

/// All residue the outcomes carry.
pub open spec fn total_residue(outs: Seq<SubjectMergeOutcomeV>) -> nat
    decreases outs.len(),
{
    if outs.len() == 0 {
        0
    } else {
        total_residue(outs.drop_last()) + spec_residue(outs.last().resolution).len()
    }
}

proof fn lemma_insert_residues_bound(entries: Seq<(ResidueId, ResidueV)>, rs: Seq<ResidueV>)
    ensures
        insert_residues(entries, rs).1 <= rs.len(),
    decreases rs.len(),
{
    if rs.len() > 0 {
        lemma_insert_residues_bound(entries, rs.drop_last());
    }
}

proof fn lemma_total_residue_prefix(outs: Seq<SubjectMergeOutcomeV>, i: int)
    requires
        0 <= i < outs.len(),
    ensures
        total_residue(outs.subrange(0, i + 1)) == total_residue(outs.subrange(0, i))
            + spec_residue(outs[i].resolution).len(),
        total_residue(outs.subrange(0, i)) <= total_residue(outs),
{
    assert(outs.subrange(0, i + 1).drop_last() =~= outs.subrange(0, i));
    lemma_total_residue_mono(outs, i + 1);
}

proof fn lemma_total_residue_mono(outs: Seq<SubjectMergeOutcomeV>, i: int)
    requires
        0 <= i <= outs.len(),
    ensures
        total_residue(outs.subrange(0, i)) <= total_residue(outs),
    decreases outs.len() - i,
{
    if i < outs.len() {
        lemma_total_residue_mono(outs, i + 1);
        assert(outs.subrange(0, i + 1).drop_last() =~= outs.subrange(0, i));
    } else {
        assert(outs.subrange(0, i) =~= outs);
    }
}

/// Insert copies of the given residue into the view's ledger.
fn insert_all_residue(view: &mut MembershipView, rs: &Vec<&Residue>, replaced: &mut Vec<(Residue, ResidueId)>) -> (superseded: usize)
    ensures
        replacement_views(final(replaced)@) == replacement_views(old(replaced)@) + residue_replacements(
            old(view)@.residue.entries,
            rs@.map_values(|x: &Residue| x@),
        ),
        ({
            let (entries, n) = insert_residues(
                old(view)@.residue.entries,
                rs@.map_values(|x: &Residue| x@),
            );
            &&& final(view)@ == (MembershipViewV {
                residue: ResidueLedgerV { entries, ..old(view)@.residue },
                ..old(view)@
            })
            &&& superseded == n
        }),
        old(view).wf() ==> final(view).wf(),
{
    let ghost views = rs@.map_values(|x: &Residue| x@);
    let ghost start = view@;
    let mut superseded: usize = 0;
    let mut i: usize = 0;
    while i < rs.len()
        invariant
            i <= rs@.len(),
            views == rs@.map_values(|x: &Residue| x@),
            ({
                let (entries, n) = insert_residues(start.residue.entries, views.subrange(0, i as int));
                &&& view@ == (MembershipViewV {
                    residue: ResidueLedgerV { entries, ..start.residue },
                    ..start
                })
                &&& superseded == n
            }),
            superseded <= i,
            replacement_views(replaced@) == replacement_views(old(replaced)@) + residue_replacements(
                start.residue.entries,
                views.subrange(0, i as int),
            ),
            start.beliefs == view@.beliefs,
            old(view).wf() ==> view.wf(),
            start == old(view)@,
        decreases rs@.len() - i,
    {
        proof {
            let next = views.subrange(0, i + 1);
            assert(next.drop_last() =~= views.subrange(0, i as int));
            assert(next.last() == rs@[i as int]@);
            lemma_insert_residues_bound(start.residue.entries, views.subrange(0, i as int));
        }
        let entry = rs[i].duplicate();
        let ghost before = replaced@;
        match view.residue_mut().insert(entry) {
            Some(old_id) => {
                superseded = superseded + 1;
                replaced.push((rs[i].duplicate(), old_id));
                proof {
                    assert(replacement_views(replaced@) =~= replacement_views(before).push((rs@[i as int]@, old_id)));
                }
            },
            None => {},
        }
        proof {
            let next = views.subrange(0, i + 1);
            assert(residue_replacements(start.residue.entries, next) == residue_replacements(
                start.residue.entries,
                views.subrange(0, i as int),
            ) + match ledger_insert(insert_residues(start.residue.entries, views.subrange(0, i as int)).0, views[i as int]).1 {
                Some(o) => seq![(views[i as int], o)],
                None => Seq::empty(),
            });
        }
        i = i + 1;
    }
    assert(views.subrange(0, i as int) =~= views);
    superseded
}

/// Project one outcome onto the view through the state machine.
fn project_outcome(
    view: &mut MembershipView,
    o: &SubjectMergeOutcome,
    input_digest: [u8; 32],
    at: (Epoch, Round),
    policy: &PolicyBundle,
) -> (r: Result<Option<Transition>, TransitionError>)
    ensures
        ({
            let (v, step) = project_step(old(view)@, o@, input_digest@, at, *policy);
            &&& final(view)@ == v
            &&& match (r, step) {
                (Ok(Some(t)), Ok(Some(tv))) => t@ == tv,
                (Ok(None), Ok(None)) => true,
                (Err(e), Err(ev)) => e == ev,
                _ => false,
            }
        }),
        old(view).wf() ==> final(view).wf(),
{
    let projected = o.resolution.project();
    let event = match &o.resolution {
        MergeResolution::Overridden { override_id, forced, .. } => BeliefEvent::OverrideApplied {
            override_id: *override_id,
            to: *forced,
        },
        _ => BeliefEvent::MergeProjected { input_digest, to: projected },
    };
    assert(event@ == outcome_event(o@, input_digest@));
    let ghost beliefs = ensure_cell(view@.beliefs, o@.subject, at);
    let ghost was_wf = view.wf();
    let cell = view.cell_mut(o.subject.duplicate(), at);
    proof {
        crate::collections::lemma_map_insert_index::<SubjectId, BeliefCellV>(
            beliefs,
            o@.subject,
            (*cell)@,
        );
    }
    let r = if projected == BeliefState::Unknown && cell.state() == BeliefState::Unknown {
        Ok(None)
    } else {
        cell.apply(event, at, policy)
    };
    proof {
        if was_wf {
            crate::collections::lemma_map_insert_sorted::<SubjectId, BeliefCellV>(
                beliefs,
                o@.subject,
                final(cell)@,
            );
        }
    }
    r
}

/// Apply one outcome: project it, then insert its residue.
fn apply_one(
    view: &mut MembershipView,
    applied: &mut AppliedMerge,
    o: &SubjectMergeOutcome,
    input_digest: [u8; 32],
    at: (Epoch, Round),
    policy: &PolicyBundle,
) -> (r: Result<(), TransitionError>)
    requires
        old(applied).confirmations < usize::MAX,
        old(applied).residue_inserted + spec_residue(o@.resolution).len() <= usize::MAX,
        old(applied).residue_superseded <= old(applied).residue_inserted,
    ensures
        ({
            let (v, res) = apply_next(old(view)@, old(applied)@, o@, input_digest@, at, *policy);
            match res {
                Ok(acc) => r is Ok && final(view)@ == v && final(applied)@ == acc
                    && final(applied).residue_superseded <= final(applied).residue_inserted,
                Err(e) => r == Err::<(), TransitionError>(e) && final(view)@ == v,
            }
        }),
        old(view).wf() ==> final(view).wf(),
{
    let ghost acc = applied@;
    let ghost before = view@;
    match project_outcome(view, o, input_digest, at, policy) {
        Err(e) => {
            return Err(e);
        },
        Ok(Some(t)) => {
            applied.transitions.push(t);
        },
        Ok(None) => {
            applied.confirmations = applied.confirmations + 1;
        },
    }
    let rs = o.resolution.residue();
    proof {
        lemma_insert_residues_bound(view@.residue.entries, rs@.map_values(|x: &Residue| x@));
    }
    let superseded = insert_all_residue(view, &rs, &mut applied.replaced);
    applied.residue_inserted = applied.residue_inserted + rs.len();
    applied.residue_superseded = applied.residue_superseded + superseded;
    proof {
        assert(applied@.transitions =~= match project_step(before, o@, input_digest@, at, *policy).1 {
            Ok(Some(tt)) => acc.transitions.push(tt),
            _ => acc.transitions,
        });
    }
    Ok(())
}

impl ReunionOutcome {
    /// The only consumption path: every projection goes through
    /// `BeliefCell::apply` (the merge cannot bypass the state machine) and
    /// every residue lands in the view's ledger (the merge cannot drop
    /// disagreement). The view's epoch advances to `at` on success.
    pub fn apply_to(self, view: &mut MembershipView, policy: &PolicyBundle, at: (Epoch, Round)) -> (r: Result<AppliedMerge, TransitionError>)
        requires
            total_residue(self@.outcomes) <= usize::MAX,
        ensures
            ({
                let (v, res) = apply_prefix(
                    old(view)@,
                    self@.outcomes,
                    self@.outcomes.len(),
                    self@.input_digest,
                    at,
                    *policy,
                );
                match res {
                    Ok(acc) => r matches Ok(am) && am@ == acc && final(view)@ == (MembershipViewV {
                        epoch: if at.0.0 > v.epoch.0 {
                            at.0
                        } else {
                            v.epoch
                        },
                        ..v
                    }),
                    Err(e) => r == Err::<AppliedMerge, TransitionError>(e) && final(view)@ == v,
                }
            }),
            old(view).wf() ==> final(view).wf(),
    {
        let ghost outs = self@.outcomes;
        let ghost v0 = view@;
        let mut applied = AppliedMerge {
            transitions: Vec::new(),
            confirmations: 0,
            residue_inserted: 0,
            residue_superseded: 0,
            replaced: Vec::new(),
        };
        proof {
            assert(applied@.transitions =~= Seq::<TransitionV>::empty());
            assert(applied@.replaced =~= Seq::<(ResidueV, ResidueId)>::empty());
        }
        let input_digest = self.input_digest;
        let mut i: usize = 0;
        while i < self.outcomes.len()
            invariant
                i <= self.outcomes@.len(),
                outs == self@.outcomes,
                input_digest@ == self@.input_digest,
                total_residue(outs) <= usize::MAX,
                v0 == old(view)@,
                apply_prefix(v0, outs, i as nat, input_digest@, at, *policy) == (
                    view@,
                    Ok::<AppliedMergeV, TransitionError>(applied@),
                ),
                applied.confirmations <= i,
                applied.residue_inserted == total_residue(outs.subrange(0, i as int)),
                applied.residue_superseded <= applied.residue_inserted,
                old(view).wf() ==> view.wf(),
            decreases self.outcomes@.len() - i,
        {
            proof {
                lemma_total_residue_prefix(outs, i as int);
                lemma_total_residue_mono(outs, i + 1);
                assert(outs[i as int] == self.outcomes@[i as int]@);
            }
            let step = apply_one(view, &mut applied, &self.outcomes[i], input_digest, at, policy);
            if let Err(e) = step {
                proof {
                    lemma_apply_error_sticks(
                        v0,
                        outs,
                        (i + 1) as nat,
                        outs.len(),
                        input_digest@,
                        at,
                        *policy,
                    );
                }
                return Err(e);
            }
            i = i + 1;
        }
        view.advance_epoch(at.0);
        Ok(applied)
    }
}

/// Merging cannot bypass the state machine or drop disagreement: when a
/// reunion applies, every outcome was either a transition or a
/// confirmation, and every residue entry the outcomes carried was inserted
/// into the ledger.
pub proof fn lemma_apply_accounts_for_everything(
    v0: MembershipViewV,
    outs: Seq<SubjectMergeOutcomeV>,
    n: nat,
    input_digest: Seq<u8>,
    at: (Epoch, Round),
    policy: PolicyBundle,
)
    requires
        n <= outs.len(),
        apply_prefix(v0, outs, n, input_digest, at, policy).1 is Ok,
    ensures
        ({
            let acc = apply_prefix(v0, outs, n, input_digest, at, policy).1->Ok_0;
            &&& acc.transitions.len() + acc.confirmations == n
            &&& acc.residue_inserted == total_residue(outs.subrange(0, n as int))
            &&& acc.residue_superseded <= acc.residue_inserted
        }),
    decreases n,
{
    if n > 0 {
        lemma_apply_accounts_for_everything(v0, outs, (n - 1) as nat, input_digest, at, policy);
        let (v, r) = apply_prefix(v0, outs, (n - 1) as nat, input_digest, at, policy);
        let o = outs[n - 1];
        let (v1, step) = project_step(v, o, input_digest, at, policy);
        lemma_insert_residues_bound(v1.residue.entries, spec_residue(o.resolution));
        lemma_total_residue_prefix(outs, n - 1);
    } else {
        assert(outs.subrange(0, 0) =~= Seq::<SubjectMergeOutcomeV>::empty());
    }
}

} // verus!
