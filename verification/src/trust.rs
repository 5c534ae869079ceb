//! Trust weight, confidence, and the trust-root standing machine.
//!
//! `TrustGrade` is an ordinal 0..=100 with named bands, and `Confidence`
//! is a separate enum with no arithmetic bridge: the two share no numeric
//! domain. Trust-root standing is a typed state machine per (root, scope);
//! earned standing must pass through probation carrying the witness
//! history that justified it.

use crate::id::{OverrideId, TrustRootId, WitnessRecordId};
use crate::scope::ScopeId;
use crate::util::NonEmpty;
use vstd::prelude::*;
use vstd::string::StringExecFns;

verus! {

/// Ordinal, bucketed trust weight in 0..=100.
#[derive(Debug, Clone, Copy, PartialEq, Eq, Structural, PartialOrd, Ord, Hash)]
pub struct TrustGrade(u8);

impl TrustGrade {
    #[verifier::type_invariant]
    spec fn bounded(self) -> bool {
        self.0 <= 100
    }

    /// The grade's value.
    pub closed spec fn value(self) -> u8 {
        self.0
    }

    /// Grades above 100 are clamped to 100.
    pub fn new(grade: u8) -> (r: TrustGrade)
        ensures
            r.value() == if grade <= 100 { grade } else { 100 },
            r == grade_of(r.value()),
    {
        proof {
            let v: u8 = if grade <= 100 { grade } else { 100 };
            lemma_grade_of(TrustGrade(v));
        }
        if grade <= 100 {
            TrustGrade(grade)
        } else {
            TrustGrade(100)
        }
    }

    pub fn get(self) -> (r: u8)
        ensures
            r == self.value(),
            r <= 100,
    {
        proof {
            use_type_invariant(self);
        }
        self.0
    }

    pub fn band(self) -> (r: TrustBand)
        ensures
            r == spec_band(self.value()),
    {
        if self.0 <= 19 {
            TrustBand::Floor
        } else if self.0 <= 49 {
            TrustBand::Weak
        } else if self.0 <= 69 {
            TrustBand::Ordinary
        } else if self.0 <= 89 {
            TrustBand::Strong
        } else {
            TrustBand::Foundational
        }
    }
}

/// The grade whose value is `v`.
pub open spec fn grade_of(v: u8) -> TrustGrade {
    choose|g: TrustGrade| g.value() == v
}

/// A grade is determined by its value; every value up to 100 is a grade.
pub proof fn lemma_grade_of(g: TrustGrade)
    ensures
        grade_of(g.value()) == g,
{
    let h = grade_of(g.value());
    assert(h.value() == g.value());
}

pub proof fn lemma_grade_value(v: u8)
    requires
        v <= 100,
    ensures
        grade_of(v).value() == v,
{
    let g = TrustGrade(v);
    assert(g.value() == v);
}

pub open spec fn spec_band(g: u8) -> TrustBand {
    if g <= 19 {
        TrustBand::Floor
    } else if g <= 49 {
        TrustBand::Weak
    } else if g <= 69 {
        TrustBand::Ordinary
    } else if g <= 89 {
        TrustBand::Strong
    } else {
        TrustBand::Foundational
    }
}

#[derive(Debug, Clone, Copy, PartialEq, Eq, Structural, PartialOrd, Ord)]
pub enum TrustBand {
    Floor,
    Weak,
    Ordinary,
    Strong,
    Foundational,
}

/// Composite belief strength. Never arithmetic on `TrustGrade`.
#[derive(Debug, Clone, Copy, PartialEq, Eq, Structural, PartialOrd, Ord)]
pub enum Confidence {
    Collapsed,
    Low,
    Bounded,
    Strong,
}

/// Where a trust root's standing comes from. The basis is permanently
/// attached: earned standing stays distinguishable from installed standing.
#[derive(Debug, Clone, PartialEq, Eq)]
pub enum RootBasis {
    OperatorPolicy { operator_note: String },
    IdentityLineage { lineage: String },
    /// Standing earned from converged witness history. Must enter through
    /// probation, and carries the history that justified it.
    EarnedHistory { justification: NonEmpty<WitnessRecordId> },
}

pub enum RootBasisV {
    OperatorPolicy(Seq<char>),
    IdentityLineage(Seq<char>),
    EarnedHistory(Seq<WitnessRecordId>),
}

impl View for RootBasis {
    type V = RootBasisV;

    open spec fn view(&self) -> RootBasisV {
        match self {
            RootBasis::OperatorPolicy { operator_note } => RootBasisV::OperatorPolicy(
                operator_note@,
            ),
            RootBasis::IdentityLineage { lineage } => RootBasisV::IdentityLineage(lineage@),
            RootBasis::EarnedHistory { justification } => RootBasisV::EarnedHistory(
                justification@,
            ),
        }
    }
}

pub open spec fn basis_kind_name(b: RootBasisV) -> Seq<char> {
    match b {
        RootBasisV::OperatorPolicy(_) => "operator-policy"@,
        RootBasisV::IdentityLineage(_) => "identity-lineage"@,
        RootBasisV::EarnedHistory(_) => "earned-history"@,
    }
}

impl RootBasis {
    pub fn kind(&self) -> (r: &'static str)
        ensures
            r@ == basis_kind_name(self@),
    {
        match self {
            RootBasis::OperatorPolicy { .. } => "operator-policy",
            RootBasis::IdentityLineage { .. } => "identity-lineage",
            RootBasis::EarnedHistory { .. } => "earned-history",
        }
    }

    pub fn duplicate(&self) -> (r: Self)
        ensures
            r@ == self@,
    {
        match self {
            RootBasis::OperatorPolicy { operator_note } => RootBasis::OperatorPolicy {
                operator_note: operator_note.clone(),
            },
            RootBasis::IdentityLineage { lineage } => RootBasis::IdentityLineage {
                lineage: lineage.clone(),
            },
            RootBasis::EarnedHistory { justification } => RootBasis::EarnedHistory {
                justification: justification.duplicate(),
            },
        }
    }
}

/// Trust-root standing states, per (root, scope).
#[derive(Debug, Clone, Copy, PartialEq, Eq, Structural, PartialOrd, Ord)]
pub enum RootState {
    Proposed,
    Probation,
    Active,
    Narrowed,
    Suspended,
    Revoked,
}

/// What backs a revocation: attributable witness records or a visible
/// operator override, never anonymous.
#[derive(Debug, Clone, PartialEq, Eq)]
pub enum RevocationSupport {
    Witnessed(NonEmpty<WitnessRecordId>),
    Override(OverrideId),
}

/// Events that move trust-root standing.
#[derive(Debug, Clone, PartialEq, Eq)]
pub enum RootEvent {
    /// Proposed -> Active (installed bases) or Proposed -> Probation
    /// (earned basis: no shortcut to Active).
    Admitted,
    /// Probation -> Active, carrying the fresh corroboration that ended
    /// probation.
    ProbationPassed { corroboration: NonEmpty<WitnessRecordId> },
    /// Active -> Narrowed: standing reduced to a smaller scope.
    Narrowed { to_scope: ScopeId },
    /// Narrowed -> Active within the narrowed scope.
    Reaffirmed,
    /// Active | Narrowed | Probation -> Suspended.
    Suspended { reason: String },
    /// Suspended -> Active.
    Reinstated { review_note: String },
    /// Any live state -> Revoked. Terminal.
    Revoked { support: RevocationSupport },
}

pub enum RevocationSupportV {
    Witnessed(Seq<WitnessRecordId>),
    Override(OverrideId),
}

impl View for RevocationSupport {
    type V = RevocationSupportV;

    open spec fn view(&self) -> RevocationSupportV {
        match self {
            RevocationSupport::Witnessed(r) => RevocationSupportV::Witnessed(r@),
            RevocationSupport::Override(id) => RevocationSupportV::Override(*id),
        }
    }
}

pub enum RootEventV {
    Admitted,
    ProbationPassed { corroboration: Seq<WitnessRecordId> },
    Narrowed { to_scope: Seq<char> },
    Reaffirmed,
    Suspended { reason: Seq<char> },
    Reinstated { review_note: Seq<char> },
    Revoked { support: RevocationSupportV },
}

impl View for RootEvent {
    type V = RootEventV;

    open spec fn view(&self) -> RootEventV {
        match self {
            RootEvent::Admitted => RootEventV::Admitted,
            RootEvent::ProbationPassed { corroboration } => RootEventV::ProbationPassed {
                corroboration: corroboration@,
            },
            RootEvent::Narrowed { to_scope } => RootEventV::Narrowed { to_scope: to_scope@ },
            RootEvent::Reaffirmed => RootEventV::Reaffirmed,
            RootEvent::Suspended { reason } => RootEventV::Suspended { reason: reason@ },
            RootEvent::Reinstated { review_note } => RootEventV::Reinstated {
                review_note: review_note@,
            },
            RootEvent::Revoked { support } => RootEventV::Revoked { support: support@ },
        }
    }
}

impl RootEvent {
    pub fn duplicate(&self) -> (r: Self)
        ensures
            r@ == self@,
            root_event_kind(r) == root_event_kind(*self),
    {
        match self {
            RootEvent::Admitted => RootEvent::Admitted,
            RootEvent::ProbationPassed { corroboration } => RootEvent::ProbationPassed {
                corroboration: corroboration.duplicate(),
            },
            RootEvent::Narrowed { to_scope } => RootEvent::Narrowed { to_scope: to_scope.duplicate() },
            RootEvent::Reaffirmed => RootEvent::Reaffirmed,
            RootEvent::Suspended { reason } => RootEvent::Suspended { reason: reason.clone() },
            RootEvent::Reinstated { review_note } => RootEvent::Reinstated {
                review_note: review_note.clone(),
            },
            RootEvent::Revoked { support } => RootEvent::Revoked {
                support: match support {
                    RevocationSupport::Witnessed(r) => RevocationSupport::Witnessed(r.duplicate()),
                    RevocationSupport::Override(id) => RevocationSupport::Override(*id),
                },
            },
        }
    }
}

/// The discriminant of a root event's view.
pub open spec fn root_event_kind_of(e: RootEventV) -> RootEventKind {
    match e {
        RootEventV::Admitted => RootEventKind::Admitted,
        RootEventV::ProbationPassed { .. } => RootEventKind::ProbationPassed,
        RootEventV::Narrowed { .. } => RootEventKind::Narrowed,
        RootEventV::Reaffirmed => RootEventKind::Reaffirmed,
        RootEventV::Suspended { .. } => RootEventKind::Suspended,
        RootEventV::Reinstated { .. } => RootEventKind::Reinstated,
        RootEventV::Revoked { .. } => RootEventKind::Revoked,
    }
}

/// The discriminant of a `RootEvent`.
#[derive(Debug, Clone, Copy, PartialEq, Eq, Structural)]
pub enum RootEventKind {
    Admitted,
    ProbationPassed,
    Narrowed,
    Reaffirmed,
    Suspended,
    Reinstated,
    Revoked,
}

pub open spec fn root_event_kind(e: RootEvent) -> RootEventKind {
    match e {
        RootEvent::Admitted => RootEventKind::Admitted,
        RootEvent::ProbationPassed { .. } => RootEventKind::ProbationPassed,
        RootEvent::Narrowed { .. } => RootEventKind::Narrowed,
        RootEvent::Reaffirmed => RootEventKind::Reaffirmed,
        RootEvent::Suspended { .. } => RootEventKind::Suspended,
        RootEvent::Reinstated { .. } => RootEventKind::Reinstated,
        RootEvent::Revoked { .. } => RootEventKind::Revoked,
    }
}

pub open spec fn root_event_name(k: RootEventKind) -> Seq<char> {
    match k {
        RootEventKind::Admitted => "Admitted"@,
        RootEventKind::ProbationPassed => "ProbationPassed"@,
        RootEventKind::Narrowed => "Narrowed"@,
        RootEventKind::Reaffirmed => "Reaffirmed"@,
        RootEventKind::Suspended => "Suspended"@,
        RootEventKind::Reinstated => "Reinstated"@,
        RootEventKind::Revoked => "Revoked"@,
    }
}

impl RootEvent {
    pub fn kind(&self) -> (k: RootEventKind)
        ensures
            k == root_event_kind(*self),
    {
        match self {
            RootEvent::Admitted => RootEventKind::Admitted,
            RootEvent::ProbationPassed { .. } => RootEventKind::ProbationPassed,
            RootEvent::Narrowed { .. } => RootEventKind::Narrowed,
            RootEvent::Reaffirmed => RootEventKind::Reaffirmed,
            RootEvent::Suspended { .. } => RootEventKind::Suspended,
            RootEvent::Reinstated { .. } => RootEventKind::Reinstated,
            RootEvent::Revoked { .. } => RootEventKind::Revoked,
        }
    }
}

fn root_event_kind_name(k: RootEventKind) -> (r: &'static str)
    ensures
        r@ == root_event_name(k),
{
    match k {
        RootEventKind::Admitted => "Admitted",
        RootEventKind::ProbationPassed => "ProbationPassed",
        RootEventKind::Narrowed => "Narrowed",
        RootEventKind::Reaffirmed => "Reaffirmed",
        RootEventKind::Suspended => "Suspended",
        RootEventKind::Reinstated => "Reinstated",
        RootEventKind::Revoked => "Revoked",
    }
}

/// A refused standing move: which root, where, from which state, on which event.
#[derive(Debug, PartialEq, Eq)]
pub struct InvalidRootMove {
    pub root: TrustRootId,
    pub scope: ScopeId,
    pub from: RootState,
    pub event: String,
}

/// The standing machine: where `event` takes a root in state `from`
/// (with an earned basis or not), or `None` when the move is refused.
pub open spec fn root_step(from: RootState, earned: bool, event: RootEventKind) -> Option<RootState> {
    match (from, event) {
        (RootState::Proposed, RootEventKind::Admitted) => if earned {
            Some(RootState::Probation)
        } else {
            Some(RootState::Active)
        },
        (RootState::Probation, RootEventKind::ProbationPassed) => Some(RootState::Active),
        (RootState::Active, RootEventKind::Narrowed) => Some(RootState::Narrowed),
        (RootState::Narrowed, RootEventKind::Reaffirmed) => Some(RootState::Active),
        (RootState::Active, RootEventKind::Suspended) => Some(RootState::Suspended),
        (RootState::Narrowed, RootEventKind::Suspended) => Some(RootState::Suspended),
        (RootState::Probation, RootEventKind::Suspended) => Some(RootState::Suspended),
        (RootState::Suspended, RootEventKind::Reinstated) => Some(RootState::Active),
        (RootState::Revoked, RootEventKind::Revoked) => None,
        (_, RootEventKind::Revoked) => Some(RootState::Revoked),
        _ => None,
    }
}

pub open spec fn basis_is_earned(b: RootBasisV) -> bool {
    b is EarnedHistory
}

/// The standing of one trust root in one scope.
#[derive(Debug, Clone, PartialEq, Eq)]
pub struct TrustRootStanding {
    root: TrustRootId,
    scope: ScopeId,
    basis: RootBasis,
    state: RootState,
    grade: TrustGrade,
    history: Vec<(RootState, RootState)>,
}

pub struct TrustRootStandingV {
    pub root: Seq<char>,
    pub scope: Seq<char>,
    pub basis: RootBasisV,
    pub state: RootState,
    pub grade: TrustGrade,
    pub history: Seq<(RootState, RootState)>,
}

impl View for TrustRootStanding {
    type V = TrustRootStandingV;

    closed spec fn view(&self) -> TrustRootStandingV {
        TrustRootStandingV {
            root: self.root@,
            scope: self.scope@,
            basis: self.basis@,
            state: self.state,
            grade: self.grade,
            history: self.history@,
        }
    }
}

/// Effective trust contributed to merges: zero unless standing is live,
/// half during probation.
pub open spec fn spec_effective_grade(state: RootState, grade: u8) -> u8 {
    match state {
        RootState::Active | RootState::Narrowed => grade,
        RootState::Probation => (grade / 2) as u8,
        _ => 0,
    }
}

impl TrustRootStanding {
    /// A new root always starts `Proposed`, whatever its basis.
    pub fn propose(root: TrustRootId, scope: ScopeId, basis: RootBasis, grade: TrustGrade) -> (r: Self)
        ensures
            r@.root == root@,
            r@.scope == scope@,
            r@.basis == basis@,
            r@.state == RootState::Proposed,
            r@.grade == grade,
            r@.history == Seq::<(RootState, RootState)>::empty(),
    {
        TrustRootStanding {
            root,
            scope,
            basis,
            state: RootState::Proposed,
            grade,
            history: Vec::new(),
        }
    }

    pub fn state(&self) -> (r: RootState)
        ensures
            r == self@.state,
    {
        self.state
    }

    pub fn basis(&self) -> (r: &RootBasis)
        ensures
            r@ == self@.basis,
    {
        &self.basis
    }

    pub fn grade(&self) -> (r: TrustGrade)
        ensures
            r == self@.grade,
    {
        self.grade
    }

    pub fn root(&self) -> (r: &TrustRootId)
        ensures
            r@ == self@.root,
    {
        &self.root
    }

    pub fn scope(&self) -> (r: &ScopeId)
        ensures
            r@ == self@.scope,
    {
        &self.scope
    }

    /// The recorded (from, to) standing moves, oldest first.
    pub fn history(&self) -> (r: &Vec<(RootState, RootState)>)
        ensures
            r@ == self@.history,
    {
        &self.history
    }

    /// Effective trust contributed to merges: zero unless standing is live.
    pub fn effective_grade(&self) -> (r: TrustGrade)
        ensures
            r.value() == spec_effective_grade(self@.state, self@.grade.value()),
    {
        match self.state {
            RootState::Active | RootState::Narrowed => self.grade,
            RootState::Probation => TrustGrade::new(self.grade.get() / 2),
            _ => TrustGrade::new(0),
        }
    }

    /// Apply a standing event. Returns (from, to) on success; a refused
    /// move leaves the standing untouched.
    pub fn apply(&mut self, event: &RootEvent) -> (r: Result<(RootState, RootState), InvalidRootMove>)
        ensures
            match root_step(
                old(self)@.state,
                basis_is_earned(old(self)@.basis),
                root_event_kind(*event),
            ) {
                Some(to) => {
                    &&& r == Ok::<(RootState, RootState), InvalidRootMove>((old(self)@.state, to))
                    &&& final(self)@.state == to
                    &&& final(self)@.history == old(self)@.history.push((old(self)@.state, to))
                    &&& final(self)@.root == old(self)@.root
                    &&& final(self)@.scope == old(self)@.scope
                    &&& final(self)@.basis == old(self)@.basis
                    &&& final(self)@.grade == old(self)@.grade
                },
                None => {
                    &&& r matches Err(e)
                    &&& e.root@ == old(self)@.root
                    &&& e.scope@ == old(self)@.scope
                    &&& e.from == old(self)@.state
                    &&& e.event@ == root_event_name(root_event_kind(*event))
                    &&& final(self)@ == old(self)@
                },
            },
    {
        let from = self.state;
        let earned = match self.basis {
            RootBasis::EarnedHistory { .. } => true,
            _ => false,
        };
        let kind = event.kind();
        let to = match (from, kind) {
            (RootState::Proposed, RootEventKind::Admitted) => if earned {
                Some(RootState::Probation)
            } else {
                Some(RootState::Active)
            },
            (RootState::Probation, RootEventKind::ProbationPassed) => Some(RootState::Active),
            (RootState::Active, RootEventKind::Narrowed) => Some(RootState::Narrowed),
            (RootState::Narrowed, RootEventKind::Reaffirmed) => Some(RootState::Active),
            (RootState::Active, RootEventKind::Suspended) => Some(RootState::Suspended),
            (RootState::Narrowed, RootEventKind::Suspended) => Some(RootState::Suspended),
            (RootState::Probation, RootEventKind::Suspended) => Some(RootState::Suspended),
            (RootState::Suspended, RootEventKind::Reinstated) => Some(RootState::Active),
            (RootState::Revoked, RootEventKind::Revoked) => None,
            (_, RootEventKind::Revoked) => Some(RootState::Revoked),
            _ => None,
        };
        match to {
            Some(to) => {
                self.state = to;
                self.history.push((from, to));
                Ok((from, to))
            },
            None => Err(
                InvalidRootMove {
                    root: self.root.duplicate(),
                    scope: self.scope.duplicate(),
                    from,
                    event: String::from_str(root_event_kind_name(kind)),
                },
            ),
        }
    }
}

/// Revoked standing is terminal: no event moves it again.
pub proof fn lemma_revoked_is_terminal(earned: bool, event: RootEventKind)
    ensures
        root_step(RootState::Revoked, earned, event).is_none(),
{
}

/// Earned standing has no shortcut past probation: admitting an earned
/// root never makes it active directly.
pub proof fn lemma_earned_enters_probation(from: RootState)
    ensures
        root_step(from, true, RootEventKind::Admitted) matches Some(to) ==> to == RootState::Probation,
{
}

/// Suspension is reversible: whatever its basis, a suspended root that is
/// reinstated is active again at its full grade, and reinstatement or
/// revocation are the only ways out of suspension.
pub proof fn lemma_reinstatement_restores_standing(earned: bool, grade: u8)
    ensures
        root_step(RootState::Suspended, earned, RootEventKind::Reinstated) == Some(RootState::Active),
        spec_effective_grade(RootState::Suspended, grade) == 0,
        spec_effective_grade(RootState::Active, grade) == grade,
        forall|e: RootEventKind|
            #[trigger] root_step(RootState::Suspended, earned, e) matches Some(to) ==> (to == RootState::Active
                && e == RootEventKind::Reinstated) || (to == RootState::Revoked && e == RootEventKind::Revoked),
{
}

/// A suspension and a reinstatement undo each other: an active or narrowed
/// root that is suspended and then reinstated ends active, whatever its
/// basis.
pub proof fn lemma_suspend_then_reinstate(from: RootState, earned: bool)
    requires
        from == RootState::Active || from == RootState::Narrowed || from == RootState::Probation,
    ensures
        root_step(from, earned, RootEventKind::Suspended) == Some(RootState::Suspended),
        root_step(RootState::Suspended, earned, RootEventKind::Reinstated) == Some(RootState::Active),
{
}

/// The standing lifecycle: admission puts an earned root on probation and
/// any other root straight into service; passing probation, and
/// reaffirming a narrowed root, make it active; an active root can be
/// narrowed; any root not yet revoked can be revoked. The effective grade
/// is the full grade in service (active or narrowed), half of it on
/// probation, and nothing otherwise.
pub proof fn lemma_standing_lifecycle(earned: bool, grade: u8)
    ensures
        root_step(RootState::Proposed, true, RootEventKind::Admitted) == Some(RootState::Probation),
        root_step(RootState::Proposed, false, RootEventKind::Admitted) == Some(RootState::Active),
        root_step(RootState::Probation, earned, RootEventKind::ProbationPassed) == Some(RootState::Active),
        root_step(RootState::Active, earned, RootEventKind::Narrowed) == Some(RootState::Narrowed),
        root_step(RootState::Narrowed, earned, RootEventKind::Reaffirmed) == Some(RootState::Active),
        forall|s: RootState|
            s != RootState::Revoked ==> #[trigger] root_step(s, earned, RootEventKind::Revoked) == Some(
                RootState::Revoked,
            ),
        spec_effective_grade(RootState::Active, grade) == grade,
        spec_effective_grade(RootState::Narrowed, grade) == grade,
        spec_effective_grade(RootState::Probation, grade) == grade / 2,
        spec_effective_grade(RootState::Proposed, grade) == 0,
        spec_effective_grade(RootState::Revoked, grade) == 0,
{
}

} // verus!
