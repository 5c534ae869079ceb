//! Deterministic reunion: the merge precedence contract.
//!
//! Admissibility, scope authority, freshness, trust weight and
//! corroboration quality/diversity may dominate a merge; the raw witness
//! count may inform a choice between peers of one semantic class but never
//! decides between classes; input order only breaks full ties; unresolved
//! material conflict survives as residue. `ScopedDisagreement` carries a
//! `NonEmpty<Residue>`, so unresolved conflict without residue cannot be
//! represented, and the engine's contracts state which rule fired for
//! every pair of inputs.

pub mod engine;

use crate::belief::state::BeliefState;
use crate::epoch::Epoch;
use crate::evidence::WitnessSummary;
use crate::id::{OverrideId, SubjectId};
use crate::residue::{Residue, ResidueV};
use crate::scope::ScopeAuthority;
use crate::trust::TrustGrade;
use crate::util::NonEmpty;
use vstd::prelude::*;

verus! {

/// One side's belief about one subject, as brought into reunion.
#[derive(Debug, Clone, Copy, PartialEq, Eq, Structural)]
pub struct BeliefFragment {
    pub state: BeliefState,
    pub epoch: Epoch,
    pub trust: TrustGrade,
    pub authority: ScopeAuthority,
    pub witness: WitnessSummary,
}

impl View for BeliefFragment {
    type V = BeliefFragment;

    open spec fn view(&self) -> BeliefFragment {
        *self
    }
}

/// Admission: inadmissible fragments never reach a comparator.
#[derive(Debug, Clone, Copy, PartialEq, Eq, Structural)]
pub enum Admissibility {
    Admissible,
    Inadmissible(InadmissibleReason),
}

#[derive(Debug, Clone, Copy, PartialEq, Eq, Structural)]
pub enum InadmissibleReason {
    /// No belief was ever formed.
    NoBelief,
    /// Zero effective trust: the fragment has no standing to speak.
    NoTrust,
}

/// Which side of a two-party reunion, or both, or an override.
#[derive(Debug, Clone, Copy, PartialEq, Eq, Structural)]
pub enum MergeSource {
    Neither,
    SideA,
    SideB,
    Both,
    Override,
}

/// Stability of a merged belief. Independent of residue: a merge can be
/// stable and still carry a visible scar (the epoch-race case).
#[derive(Debug, Clone, Copy, PartialEq, Eq, Structural)]
pub enum MergeStability {
    Stable,
    Provisional,
    StableWithOverride,
}

/// What actually decided a merge: the one-word answer to "what dominated
/// and what did not".
#[derive(Debug, Clone, Copy, PartialEq, Eq, Structural)]
pub enum DecidedBy {
    /// The admissibility gate left zero or one sides standing.
    AdmissibilityGate,
    /// Both sides asserted the same state.
    StateAgreement,
    /// Corroboration quality/diversity dominated.
    Corroboration,
    /// Epoch freshness dominated.
    Freshness,
    /// Trust weight and scope authority dominated.
    TrustAndAuthority,
    /// The chosen side's status was preferred between compatible peers.
    StatusPreference,
    /// The capped witness-count informer decided a within-class choice.
    Informer,
    /// Deterministic input order broke a full tie.
    InputOrder,
    /// Nothing was allowed to dominate: the conflict is preserved.
    Unresolved,
    Override,
}

/// The variant name of a `DecidedBy`, as merge notes print it.
pub open spec fn decided_by_name(d: DecidedBy) -> Seq<char> {
    match d {
        DecidedBy::AdmissibilityGate => "AdmissibilityGate"@,
        DecidedBy::StateAgreement => "StateAgreement"@,
        DecidedBy::Corroboration => "Corroboration"@,
        DecidedBy::Freshness => "Freshness"@,
        DecidedBy::TrustAndAuthority => "TrustAndAuthority"@,
        DecidedBy::StatusPreference => "StatusPreference"@,
        DecidedBy::Informer => "Informer"@,
        DecidedBy::InputOrder => "InputOrder"@,
        DecidedBy::Unresolved => "Unresolved"@,
        DecidedBy::Override => "Override"@,
    }
}

impl DecidedBy {
    pub fn name(self) -> (r: &'static str)
        ensures
            r@ == decided_by_name(self),
    {
        match self {
            DecidedBy::AdmissibilityGate => "AdmissibilityGate",
            DecidedBy::StateAgreement => "StateAgreement",
            DecidedBy::Corroboration => "Corroboration",
            DecidedBy::Freshness => "Freshness",
            DecidedBy::TrustAndAuthority => "TrustAndAuthority",
            DecidedBy::StatusPreference => "StatusPreference",
            DecidedBy::Informer => "Informer",
            DecidedBy::InputOrder => "InputOrder",
            DecidedBy::Unresolved => "Unresolved",
            DecidedBy::Override => "Override",
        }
    }
}

/// Which rule of the pinned calculus fired.
#[derive(Debug, Clone, Copy, PartialEq, Eq, Structural)]
pub enum RuleId {
    NoAdmissibleInput,
    SingleSided,
    CleanConvergence,
    LaunderingDiscount,
    SameEpochDispute,
    FreshRestrictiveDominates,
    RestrictiveDominance,
    ConflictSurvived,
    FreshnessDowngrade,
    PermissiveConverged,
    Fallback,
    OverrideApplied,
}

pub open spec fn rule_text(r: RuleId) -> Seq<char> {
    match r {
        RuleId::NoAdmissibleInput => "No admissible input survived for this subject."@,
        RuleId::SingleSided => "Single-sided admissible state carried forward."@,
        RuleId::CleanConvergence => "Matching local outcomes converge cleanly."@,
        RuleId::LaunderingDiscount => "Trust and corroboration quality dominated raw witness count."@,
        RuleId::SameEpochDispute => "Same-epoch high-trust conflict survives as residue."@,
        RuleId::FreshRestrictiveDominates => "Fresh restrictive evidence dominated older permissive evidence."@,
        RuleId::RestrictiveDominance => "Trust and scope authority favored the restrictive path."@,
        RuleId::ConflictSurvived => "Conflict survived the deterministic reunion pass."@,
        RuleId::FreshnessDowngrade => "Freshness dominated older permissive acceptance."@,
        RuleId::PermissiveConverged => "Permissive paths converged under freshness and trust weighting."@,
        RuleId::Fallback => "Fallback deterministic comparison retained the stronger admissible path."@,
        RuleId::OverrideApplied => "OperatorOverride applied visibly."@,
    }
}

impl RuleId {
    pub fn describe(self) -> (r: &'static str)
        ensures
            r@ == rule_text(self),
    {
        match self {
            RuleId::NoAdmissibleInput => "No admissible input survived for this subject.",
            RuleId::SingleSided => "Single-sided admissible state carried forward.",
            RuleId::CleanConvergence => "Matching local outcomes converge cleanly.",
            RuleId::LaunderingDiscount => "Trust and corroboration quality dominated raw witness count.",
            RuleId::SameEpochDispute => "Same-epoch high-trust conflict survives as residue.",
            RuleId::FreshRestrictiveDominates => "Fresh restrictive evidence dominated older permissive evidence.",
            RuleId::RestrictiveDominance => "Trust and scope authority favored the restrictive path.",
            RuleId::ConflictSurvived => "Conflict survived the deterministic reunion pass.",
            RuleId::FreshnessDowngrade => "Freshness dominated older permissive acceptance.",
            RuleId::PermissiveConverged => "Permissive paths converged under freshness and trust weighting.",
            RuleId::Fallback => "Fallback deterministic comparison retained the stronger admissible path.",
            RuleId::OverrideApplied => "OperatorOverride applied visibly.",
        }
    }
}

/// The typed outcome classes. They project onto the canonical nine states
/// (`project`): a projection, not a second lifecycle.
#[derive(Debug)]
pub enum MergeResolution {
    /// Stable convergence. May still carry residue (a visible race scar).
    Converged { state: BeliefState, decided_by: DecidedBy, residue: Vec<Residue> },
    /// Usable but tentative convergence.
    ProvisionalConverged { state: BeliefState, decided_by: DecidedBy, residue: Vec<Residue> },
    /// Material conflict that nothing was allowed to dominate. Residue is
    /// mandatory by type: `NonEmpty` has no empty constructor.
    ScopedDisagreement { residue: NonEmpty<Residue> },
    /// A visible operator intervention.
    Overridden { override_id: OverrideId, forced: BeliefState, residue: Vec<Residue> },
}

pub enum MergeResolutionV {
    Converged { state: BeliefState, decided_by: DecidedBy, residue: Seq<ResidueV> },
    ProvisionalConverged { state: BeliefState, decided_by: DecidedBy, residue: Seq<ResidueV> },
    ScopedDisagreement { residue: Seq<ResidueV> },
    Overridden { override_id: OverrideId, forced: BeliefState, residue: Seq<ResidueV> },
}

pub open spec fn residue_views(v: Seq<Residue>) -> Seq<ResidueV> {
    v.map_values(|r: Residue| r@)
}

impl View for MergeResolution {
    type V = MergeResolutionV;

    open spec fn view(&self) -> MergeResolutionV {
        match self {
            MergeResolution::Converged { state, decided_by, residue } => MergeResolutionV::Converged {
                state: *state,
                decided_by: *decided_by,
                residue: residue_views(residue@),
            },
            MergeResolution::ProvisionalConverged {
                state,
                decided_by,
                residue,
            } => MergeResolutionV::ProvisionalConverged {
                state: *state,
                decided_by: *decided_by,
                residue: residue_views(residue@),
            },
            MergeResolution::ScopedDisagreement { residue } => MergeResolutionV::ScopedDisagreement {
                residue: residue@,
            },
            MergeResolution::Overridden { override_id, forced, residue } => MergeResolutionV::Overridden {
                override_id: *override_id,
                forced: *forced,
                residue: residue_views(residue@),
            },
        }
    }
}

/// Total projection onto the canonical states.
pub open spec fn spec_project(r: MergeResolutionV) -> BeliefState {
    match r {
        MergeResolutionV::Converged { state, .. } => state,
        MergeResolutionV::ProvisionalConverged { state, .. } => state,
        MergeResolutionV::ScopedDisagreement { .. } => BeliefState::Disputed,
        MergeResolutionV::Overridden { forced, .. } => forced,
    }
}

pub open spec fn spec_decided_by(r: MergeResolutionV) -> DecidedBy {
    match r {
        MergeResolutionV::Converged { decided_by, .. } => decided_by,
        MergeResolutionV::ProvisionalConverged { decided_by, .. } => decided_by,
        MergeResolutionV::ScopedDisagreement { .. } => DecidedBy::Unresolved,
        MergeResolutionV::Overridden { .. } => DecidedBy::Override,
    }
}

pub open spec fn spec_stability(r: MergeResolutionV) -> MergeStability {
    match r {
        MergeResolutionV::Converged { .. } => MergeStability::Stable,
        MergeResolutionV::ProvisionalConverged { .. } => MergeStability::Provisional,
        MergeResolutionV::ScopedDisagreement { .. } => MergeStability::Provisional,
        MergeResolutionV::Overridden { .. } => MergeStability::StableWithOverride,
    }
}

/// The residue a resolution carries, in order.
pub open spec fn spec_residue(r: MergeResolutionV) -> Seq<ResidueV> {
    match r {
        MergeResolutionV::Converged { residue, .. } => residue,
        MergeResolutionV::ProvisionalConverged { residue, .. } => residue,
        MergeResolutionV::ScopedDisagreement { residue } => residue,
        MergeResolutionV::Overridden { residue, .. } => residue,
    }
}

/// Copies of a vector of residue.
pub fn copy_residue(v: &Vec<Residue>) -> (r: Vec<Residue>)
    ensures
        residue_views(r@) == residue_views(v@),
{
    let mut out: Vec<Residue> = Vec::new();
    let mut i: usize = 0;
    while i < v.len()
        invariant
            i <= v@.len(),
            out@.len() == i,
            forall|j: int| 0 <= j < i ==> (#[trigger] out@[j])@ == v@[j]@,
        decreases v@.len() - i,
    {
        out.push(v[i].duplicate());
        i = i + 1;
    }
    assert(residue_views(out@) =~= residue_views(v@));
    out
}

impl MergeResolution {
    pub fn project(&self) -> (r: BeliefState)
        ensures
            r == spec_project(self@),
    {
        match self {
            MergeResolution::Converged { state, .. } => *state,
            MergeResolution::ProvisionalConverged { state, .. } => *state,
            MergeResolution::ScopedDisagreement { .. } => BeliefState::Disputed,
            MergeResolution::Overridden { forced, .. } => *forced,
        }
    }

    pub fn decided_by(&self) -> (r: DecidedBy)
        ensures
            r == spec_decided_by(self@),
    {
        match self {
            MergeResolution::Converged { decided_by, .. } => *decided_by,
            MergeResolution::ProvisionalConverged { decided_by, .. } => *decided_by,
            MergeResolution::ScopedDisagreement { .. } => DecidedBy::Unresolved,
            MergeResolution::Overridden { .. } => DecidedBy::Override,
        }
    }

    pub fn stability(&self) -> (r: MergeStability)
        ensures
            r == spec_stability(self@),
    {
        match self {
            MergeResolution::Converged { .. } => MergeStability::Stable,
            MergeResolution::ProvisionalConverged { .. } => MergeStability::Provisional,
            MergeResolution::ScopedDisagreement { .. } => MergeStability::Provisional,
            MergeResolution::Overridden { .. } => MergeStability::StableWithOverride,
        }
    }

    /// The residue carried by this resolution, in order.
    pub fn residue(&self) -> (r: Vec<&Residue>)
        ensures
            r@.map_values(|x: &Residue| x@) == spec_residue(self@),
    {
        let mut out: Vec<&Residue> = Vec::new();
        match self {
            MergeResolution::ScopedDisagreement { residue } => {
                let n = residue.last_index();
                let mut i: usize = 0;
                loop
                    invariant_except_break
                        i <= n,
                        out@.len() == i,
                    invariant
                        n + 1 == residue@.len(),
                        forall|j: int| 0 <= j < out@.len() ==> (#[trigger] out@[j])@ == residue@[j],
                    ensures
                        out@.len() == n + 1,
                    decreases n - i,
                {
                    out.push(residue.at(i));
                    if i == n {
                        break;
                    }
                    i = i + 1;
                }
                assert(out@.map_values(|x: &Residue| x@) =~= spec_residue(self@));
            },
            MergeResolution::Converged { residue, .. }
            | MergeResolution::ProvisionalConverged { residue, .. }
            | MergeResolution::Overridden { residue, .. } => {
                let mut i: usize = 0;
                while i < residue.len()
                    invariant
                        i <= residue@.len(),
                        out@.len() == i,
                        forall|j: int| 0 <= j < i ==> (#[trigger] out@[j])@ == residue@[j]@,
                    decreases residue@.len() - i,
                {
                    out.push(&residue[i]);
                    i = i + 1;
                }
                assert(out@.map_values(|x: &Residue| x@) =~= spec_residue(self@));
            },
        }
        out
    }

    /// An independent copy.
    pub fn duplicate(&self) -> (r: Self)
        ensures
            r@ == self@,
    {
        match self {
            MergeResolution::Converged { state, decided_by, residue } => MergeResolution::Converged {
                state: *state,
                decided_by: *decided_by,
                residue: copy_residue(residue),
            },
            MergeResolution::ProvisionalConverged {
                state,
                decided_by,
                residue,
            } => MergeResolution::ProvisionalConverged {
                state: *state,
                decided_by: *decided_by,
                residue: copy_residue(residue),
            },
            MergeResolution::ScopedDisagreement { residue } => {
                let mut copy = NonEmpty::new(residue.first().duplicate());
                let n = residue.last_index();
                let mut i: usize = 0;
                while i < n
                    invariant
                        n + 1 == residue@.len(),
                        i <= n,
                        copy@ == residue@.subrange(0, i + 1),
                    decreases n - i,
                {
                    i = i + 1;
                    copy.push(residue.at(i).duplicate());
                    assert(copy@ =~= residue@.subrange(0, i + 1));
                }
                assert(copy@ =~= residue@);
                MergeResolution::ScopedDisagreement { residue: copy }
            },
            MergeResolution::Overridden { override_id, forced, residue } => MergeResolution::Overridden {
                override_id: *override_id,
                forced: *forced,
                residue: copy_residue(residue),
            },
        }
    }
}

impl Clone for MergeResolution {
    fn clone(&self) -> (r: Self)
        ensures
            r@ == self@,
    {
        self.duplicate()
    }
}

/// Per-subject merge trace: the merge explaining itself.
#[derive(Debug)]
pub struct MergeTrace {
    pub rule: RuleId,
    pub decided_by: DecidedBy,
    /// Sides refused admission, with reasons.
    pub gate_drops: Vec<(MergeSource, InadmissibleReason)>,
    /// Count-free dominance scores per side (None if not admitted).
    pub dominance: [Option<i64>; 2],
    /// Capped informer scores per side.
    pub informer: [Option<i64>; 2],
    pub notes: Vec<String>,
}

pub struct MergeTraceV {
    pub rule: RuleId,
    pub decided_by: DecidedBy,
    pub gate_drops: Seq<(MergeSource, InadmissibleReason)>,
    pub dominance: Seq<Option<i64>>,
    pub informer: Seq<Option<i64>>,
    pub notes: Seq<Seq<char>>,
}

impl View for MergeTrace {
    type V = MergeTraceV;

    open spec fn view(&self) -> MergeTraceV {
        MergeTraceV {
            rule: self.rule,
            decided_by: self.decided_by,
            gate_drops: self.gate_drops@,
            dominance: self.dominance@,
            informer: self.informer@,
            notes: self.notes@.map_values(|s: String| s@),
        }
    }
}

impl MergeTrace {
    pub fn duplicate(&self) -> (r: Self)
        ensures
            r@ == self@,
    {
        let mut notes: Vec<String> = Vec::new();
        let mut i: usize = 0;
        while i < self.notes.len()
            invariant
                i <= self.notes@.len(),
                notes@.len() == i,
                forall|j: int| 0 <= j < i ==> (#[trigger] notes@[j])@ == self.notes@[j]@,
            decreases self.notes@.len() - i,
        {
            notes.push(self.notes[i].clone());
            i = i + 1;
        }
        let mut drops: Vec<(MergeSource, InadmissibleReason)> = Vec::new();
        let mut k: usize = 0;
        while k < self.gate_drops.len()
            invariant
                k <= self.gate_drops@.len(),
                drops@ == self.gate_drops@.subrange(0, k as int),
            decreases self.gate_drops@.len() - k,
        {
            let (s, why) = self.gate_drops[k];
            drops.push((s, why));
            k = k + 1;
            assert(drops@ =~= self.gate_drops@.subrange(0, k as int));
        }
        let r = MergeTrace {
            rule: self.rule,
            decided_by: self.decided_by,
            gate_drops: drops,
            dominance: self.dominance,
            informer: self.informer,
            notes,
        };
        assert(r@.notes =~= self@.notes);
        assert(r@.gate_drops =~= self@.gate_drops);
        r
    }
}

impl Clone for MergeTrace {
    fn clone(&self) -> (r: Self)
        ensures
            r@ == self@,
    {
        self.duplicate()
    }
}

/// One subject's reunion result.
#[derive(Debug)]
pub struct SubjectMergeOutcome {
    pub subject: SubjectId,
    pub resolution: MergeResolution,
    pub trace: MergeTrace,
    pub source: MergeSource,
    pub epoch: Epoch,
    pub trust: TrustGrade,
}

pub struct SubjectMergeOutcomeV {
    pub subject: Seq<char>,
    pub resolution: MergeResolutionV,
    pub trace: MergeTraceV,
    pub source: MergeSource,
    pub epoch: Epoch,
    pub trust: u8,
}

impl View for SubjectMergeOutcome {
    type V = SubjectMergeOutcomeV;

    open spec fn view(&self) -> SubjectMergeOutcomeV {
        SubjectMergeOutcomeV {
            subject: self.subject@,
            resolution: self.resolution@,
            trace: self.trace@,
            source: self.source,
            epoch: self.epoch,
            trust: self.trust.value(),
        }
    }
}

impl SubjectMergeOutcome {
    pub fn duplicate(&self) -> (r: Self)
        ensures
            r@ == self@,
    {
        SubjectMergeOutcome {
            subject: self.subject.duplicate(),
            resolution: self.resolution.duplicate(),
            trace: self.trace.duplicate(),
            source: self.source,
            epoch: self.epoch,
            trust: self.trust,
        }
    }
}

impl Clone for SubjectMergeOutcome {
    fn clone(&self) -> (r: Self)
        ensures
            r@ == self@,
    {
        self.duplicate()
    }
}

/// Overall reunion outcome classes.
#[derive(Debug, Clone, Copy, PartialEq, Eq, Structural)]
pub enum OverallOutcome {
    Stable,
    Provisional,
    StableWithOverride,
    ProvisionalWithOverride,
}

/// The reunion digest: outcome, inputs, rules fired, unresolved residue.
#[derive(Debug, Clone, PartialEq, Eq)]
pub struct ReunionDigest {
    pub overall: OverallOutcome,
    pub compared_subjects: usize,
    pub rules_fired: Vec<RuleId>,
    pub unresolved_residue: usize,
    pub handled_residue: usize,
}

} // verus!
