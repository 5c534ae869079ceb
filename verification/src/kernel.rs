//! The sans-IO driver: inputs in, effects and transcript out.
//!
//! The kernel owns scoped views, trust-root standings, and the round
//! counter. It performs no IO of any kind: every stimulus arrives as an
//! `Input` value, every consequence leaves as an `Effect` value, and every
//! decision, refusals included, is sealed into the caller's
//! `TranscriptSink`. `kernel_step` states `handle` as a function of
//! (state, input), so a recorded input sequence replays to the identical
//! transcript chain (`verify_replay`): the transcript is a proof object
//! rather than a narrative.

use crate::belief::cell::{apply_step, error_text, BeliefCellV};
use crate::belief::state::{
    event_kind, BeliefEvent, BeliefEventV, EventKind, QuarantineReason, RemovalBasis};
use crate::belief::view::{ensure_cell, MembershipView, MembershipViewV};
use crate::collections::{map_get, map_index, map_insert, SortedMap};
use crate::digest::{compare, repair_digest_of, spec_compare, DigestVerdict, DigestVerdictV, RepairDigest, RepairDigestV};
use crate::epoch::{Epoch, Round};
use crate::evidence::{claim_id, witness_record_id, Claim, ClaimV, WitnessRecord, WitnessRecordV};
use crate::id::{PeerId, ResidueId, SubjectId, TrustRootId, WitnessRecordId};
use crate::merge::engine::{
    apply_prefix, deterministic_reunion, override_view, reunion_realizes, reunion_result, subject_views, MergeSide, MergeSideV,
    ReunionContext, ReunionContextV};
use crate::merge::{spec_project, spec_residue, MergeResolution, MergeResolutionV, SubjectMergeOutcomeV};
use crate::operator::{spec_override_id, OperatorOverride, OperatorOverrideV};
use crate::policy::{merge_policy_bounded, PolicyBundle};
use crate::rank::{
    exclusion_views, peer_views, permutation_rank, rank_selection, ExclusionReason,
    ExclusionReasonV, RankDomain, RankSeed, RankSeedV, RankedSelection, RankedSelectionV};
use crate::residue::{count_marked, handled_if_subject, Residue, ResidueLedgerV, ResidueV};
use crate::scope::ScopeId;
use crate::transcript::{seal_chain, SealedEvent, SealedEventV, Transcript, TranscriptEvent, TranscriptEventV, TranscriptSink};
use crate::trust::{
    basis_is_earned, basis_kind_name, root_event_kind, root_event_kind_of, root_step, Confidence,
    RootBasis, RootBasisV, RootEvent, RootEventV, RootState, TrustGrade, TrustRootStanding,
    TrustRootStandingV};
use crate::util::NonEmpty;
use vstd::prelude::*;

verus! {

/// Everything that can happen to the kernel, as data.
#[derive(Debug, PartialEq, Eq)]
pub enum Input {
    /// A claim admitted into its scope.
    Introduce(Claim),
    /// A witness record arrived for a subject in a scope.
    WitnessRecordReceived(WitnessRecord),
    /// The policy layer judged scoped corroboration strong enough to
    /// strengthen belief one step.
    CorroborationAssessed {
        scope: ScopeId,
        subject: SubjectId,
        records: NonEmpty<WitnessRecordId>,
        confidence: Confidence,
    },
    /// The policy layer decided a subject is no longer a member here.
    RemovalAssessed { scope: ScopeId, subject: SubjectId, basis: RemovalBasis },
    /// The policy layer decided to suspend a subject pending repair.
    QuarantineAssessed { scope: ScopeId, subject: SubjectId, reason: QuarantineReason },
    /// The policy layer decided a quarantine can end; release requires
    /// fresh corroboration by construction.
    QuarantineReleaseAssessed {
        scope: ScopeId,
        subject: SubjectId,
        fresh: NonEmpty<WitnessRecordId>,
    },
    /// A visible operator override applied directly to a scoped belief
    /// (outside a reunion). It forces the state and takes responsibility
    /// for the subject's live residue, marking it handled, never erasing it.
    Override(OperatorOverride),
    /// An accountable selection.
    RequestWitnessSelection {
        domain: RankDomain,
        scope: ScopeId,
        subject: Option<SubjectId>,
        pool: Vec<PeerId>,
        excluded: Vec<(PeerId, ExclusionReason)>,
        take: usize,
    },
    /// Reconcile two sides into this scope's view, optionally under a
    /// visible operator override. The rendezvous round is part of the
    /// agreed reunion input, not local state, so every participant mints
    /// identical residue ids.
    ReunionRequested {
        scope: ScopeId,
        round: Round,
        subjects: Vec<SubjectId>,
        side_a: MergeSide,
        side_b: MergeSide,
        operator_override: Option<OperatorOverride>,
    },
    /// A repair digest arrived from a peer view of the same scope.
    DigestReceived(RepairDigest),
    /// Trust-root lifecycle.
    TrustRootProposed { root: TrustRootId, scope: ScopeId, basis: RootBasis, grade: TrustGrade },
    TrustRootEvent { root: TrustRootId, scope: ScopeId, event: RootEvent },
    EpochAdvanced { scope: ScopeId, epoch: Epoch },
    /// Advance the kernel round (hysteresis clock).
    Tick,
}

pub enum InputV {
    Introduce(ClaimV),
    WitnessRecordReceived(WitnessRecordV),
    CorroborationAssessed {
        scope: Seq<char>,
        subject: Seq<char>,
        records: Seq<WitnessRecordId>,
        confidence: Confidence,
    },
    RemovalAssessed { scope: Seq<char>, subject: Seq<char>, basis: RemovalBasis },
    QuarantineAssessed { scope: Seq<char>, subject: Seq<char>, reason: QuarantineReason },
    QuarantineReleaseAssessed { scope: Seq<char>, subject: Seq<char>, fresh: Seq<WitnessRecordId> },
    Override(OperatorOverrideV),
    RequestWitnessSelection {
        domain: RankDomain,
        scope: Seq<char>,
        subject: Option<Seq<char>>,
        pool: Seq<Seq<char>>,
        excluded: Seq<(Seq<char>, ExclusionReasonV)>,
        take: usize,
    },
    ReunionRequested {
        scope: Seq<char>,
        round: Round,
        subjects: Seq<Seq<char>>,
        side_a: MergeSideV,
        side_b: MergeSideV,
        operator_override: Option<OperatorOverrideV>,
    },
    DigestReceived(RepairDigestV),
    TrustRootProposed { root: Seq<char>, scope: Seq<char>, basis: RootBasisV, grade: TrustGrade },
    TrustRootEvent { root: Seq<char>, scope: Seq<char>, event: RootEventV },
    EpochAdvanced { scope: Seq<char>, epoch: Epoch },
    Tick,
}

impl View for Input {
    type V = InputV;

    open spec fn view(&self) -> InputV {
        match self {
            Input::Introduce(c) => InputV::Introduce(c@),
            Input::WitnessRecordReceived(r) => InputV::WitnessRecordReceived(r@),
            Input::CorroborationAssessed {
                scope,
                subject,
                records,
                confidence,
            } => InputV::CorroborationAssessed {
                scope: scope@,
                subject: subject@,
                records: records@,
                confidence: *confidence,
            },
            Input::RemovalAssessed { scope, subject, basis } => InputV::RemovalAssessed {
                scope: scope@,
                subject: subject@,
                basis: *basis,
            },
            Input::QuarantineAssessed { scope, subject, reason } => InputV::QuarantineAssessed {
                scope: scope@,
                subject: subject@,
                reason: *reason,
            },
            Input::QuarantineReleaseAssessed {
                scope,
                subject,
                fresh,
            } => InputV::QuarantineReleaseAssessed {
                scope: scope@,
                subject: subject@,
                fresh: fresh@,
            },
            Input::Override(op) => InputV::Override(op@),
            Input::RequestWitnessSelection {
                domain,
                scope,
                subject,
                pool,
                excluded,
                take,
            } => InputV::RequestWitnessSelection {
                domain: *domain,
                scope: scope@,
                subject: match subject {
                    Some(s) => Some(s@),
                    None => None,
                },
                pool: peer_views(pool@),
                excluded: exclusion_views(excluded@),
                take: *take,
            },
            Input::ReunionRequested {
                scope,
                round,
                subjects,
                side_a,
                side_b,
                operator_override,
            } => InputV::ReunionRequested {
                scope: scope@,
                round: *round,
                subjects: subject_views(subjects@),
                side_a: side_a@,
                side_b: side_b@,
                operator_override: match operator_override {
                    Some(o) => Some(o@),
                    None => None,
                },
            },
            Input::DigestReceived(d) => InputV::DigestReceived(d@),
            Input::TrustRootProposed { root, scope, basis, grade } => InputV::TrustRootProposed {
                root: root@,
                scope: scope@,
                basis: basis@,
                grade: *grade,
            },
            Input::TrustRootEvent { root, scope, event } => InputV::TrustRootEvent {
                root: root@,
                scope: scope@,
                event: event@,
            },
            Input::EpochAdvanced { scope, epoch } => InputV::EpochAdvanced {
                scope: scope@,
                epoch: *epoch,
            },
            Input::Tick => InputV::Tick,
        }
    }
}

/// Everything the kernel wants done, as data. The driver does the IO.
#[derive(Debug, PartialEq, Eq)]
pub enum Effect {
    WitnessSetSelected(RankedSelection),
    ShareDigest(RepairDigest),
    FetchDetail { scope: ScopeId, subjects: Vec<SubjectId> },
    HoldForRepair { scope: ScopeId, reason: String },
}

pub enum EffectV {
    WitnessSetSelected(RankedSelectionV),
    ShareDigest(RepairDigestV),
    FetchDetail { scope: Seq<char>, subjects: Seq<Seq<char>> },
    HoldForRepair { scope: Seq<char>, reason: Seq<char> },
}

impl View for Effect {
    type V = EffectV;

    open spec fn view(&self) -> EffectV {
        match self {
            Effect::WitnessSetSelected(s) => EffectV::WitnessSetSelected(s@),
            Effect::ShareDigest(d) => EffectV::ShareDigest(d@),
            Effect::FetchDetail { scope, subjects } => EffectV::FetchDetail {
                scope: scope@,
                subjects: subject_views(subjects@),
            },
            Effect::HoldForRepair { scope, reason } => EffectV::HoldForRepair {
                scope: scope@,
                reason: reason@,
            },
        }
    }
}

pub open spec fn effect_views(v: Seq<Effect>) -> Seq<EffectV> {
    v.map_values(|e: Effect| e@)
}

/// The kernel state: scoped views, trust standings, the round counter.
#[derive(Debug, Clone)]
pub struct Kernel {
    policy: PolicyBundle,
    views: SortedMap<ScopeId, MembershipView>,
    trust_roots: SortedMap<TrustRootId, SortedMap<ScopeId, TrustRootStanding>>,
    round: Round,
}

pub struct KernelV {
    pub policy: PolicyBundle,
    pub views: Seq<(Seq<char>, MembershipViewV)>,
    pub trust_roots: Seq<(Seq<char>, Seq<(Seq<char>, TrustRootStandingV)>)>,
    pub round: Round,
}

impl Kernel {
    /// The kernel's state as plain values. (`view` is the per-scope view
    /// accessor, so the model has its own name.)
    pub closed spec fn model(&self) -> KernelV {
        KernelV {
            policy: self.policy,
            views: self.views@,
            trust_roots: self.trust_roots@,
            round: self.round,
        }
    }
}

/// A kernel that has seen nothing.
pub open spec fn fresh_kernel(policy: PolicyBundle) -> KernelV {
    KernelV { policy, views: Seq::empty(), trust_roots: Seq::empty(), round: Round(0) }
}

/// A scope's view before anything happened in it.
pub open spec fn fresh_view(scope: Seq<char>) -> MembershipViewV {
    MembershipViewV {
        scope,
        epoch: Epoch(0),
        beliefs: Seq::empty(),
        residue: ResidueLedgerV { entries: Seq::empty(), resolved: Seq::empty() },
    }
}

/// The views after making sure `scope` has one.
pub open spec fn ensure_view(views: Seq<(Seq<char>, MembershipViewV)>, scope: Seq<char>) -> Seq<(Seq<char>, MembershipViewV)> {
    if map_index::<ScopeId, MembershipViewV>(views, scope) is Some {
        views
    } else {
        map_insert::<ScopeId, MembershipViewV>(views, scope, fresh_view(scope))
    }
}

/// The view of `scope`, created fresh if absent.
pub open spec fn view_at(k: KernelV, scope: Seq<char>) -> MembershipViewV {
    map_get::<ScopeId, MembershipViewV>(ensure_view(k.views, scope), scope).unwrap()
}

/// The kernel with `scope`'s view replaced by `v`.
pub open spec fn with_view(k: KernelV, scope: Seq<char>, v: MembershipViewV) -> KernelV {
    KernelV {
        views: map_insert::<ScopeId, MembershipViewV>(ensure_view(k.views, scope), scope, v),
        ..k
    }
}

/// A belief event applied to a subject's cell through the state machine,
/// with the transition or the refusal transcripted.
pub open spec fn belief_step(k: KernelV, scope: Seq<char>, subject: Seq<char>, event: BeliefEventV) -> (KernelV, Seq<TranscriptEventV>) {
    let v = view_at(k, scope);
    let at = (v.epoch, k.round);
    let beliefs = ensure_cell(v.beliefs, subject, at);
    let cell = map_get::<SubjectId, BeliefCellV>(beliefs, subject).unwrap();
    let (after, r) = apply_step(cell, event, at, k.policy);
    let kind = event_kind(event);
    (
        with_view(
            k,
            scope,
            MembershipViewV { beliefs: map_insert::<SubjectId, BeliefCellV>(beliefs, subject, after), ..v },
        ),
        match r {
            Ok(Some(t)) => seq![
                TranscriptEventV::TransitionApplied {
                    scope,
                    subject,
                    from: t.from,
                    to: t.to,
                    event: kind,
                    at,
                },
            ],
            Ok(None) => Seq::empty(),
            Err(e) => seq![
                TranscriptEventV::TransitionRefused { scope, subject, event: kind, reason: error_text(e) },
            ],
        },
    )
}

/// What a sink keeps after recording `events`.
pub open spec fn logged<S: TranscriptSink>(before: Seq<TranscriptEventV>, events: Seq<TranscriptEventV>) -> Seq<TranscriptEventV> {
    if S::retains() {
        before + events
    } else {
        before
    }
}

impl Kernel {
    pub fn new(policy: PolicyBundle) -> (r: Self)
        ensures
            r.model() == fresh_kernel(policy),
    {
        Kernel {
            policy,
            views: SortedMap::new(),
            trust_roots: SortedMap::new(),
            round: Round(0),
        }
    }

    pub fn view(&self, scope: &ScopeId) -> (r: Option<&MembershipView>)
        ensures
            match map_get::<ScopeId, MembershipViewV>(self.model().views, scope@) {
                Some(v) => r is Some && r.unwrap()@ == v,
                None => r is None,
            },
    {
        self.views.get(scope)
    }

    pub fn round(&self) -> (r: Round)
        ensures
            r == self.model().round,
    {
        self.round
    }

    pub fn trust_root(&self, root: &TrustRootId, scope: &ScopeId) -> (r: Option<&TrustRootStanding>)
        ensures
            match map_get::<TrustRootId, Seq<(Seq<char>, TrustRootStandingV)>>(self.model().trust_roots, root@) {
                Some(inner) => match map_get::<ScopeId, TrustRootStandingV>(inner, scope@) {
                    Some(st) => r is Some && r.unwrap()@ == st,
                    None => r is None,
                },
                None => r is None,
            },
    {
        match self.trust_roots.get(root) {
            Some(inner) => inner.get(scope),
            None => None,
        }
    }

    pub fn policy(&self) -> (r: &PolicyBundle)
        ensures
            *r == self.model().policy,
    {
        &self.policy
    }

    /// The view of `scope`, created fresh if absent.
    fn view_mut(&mut self, scope: &ScopeId) -> (r: &mut MembershipView)
        ensures
            (*r)@ == view_at(old(self).model(), scope@),
            final(self).model() == with_view(old(self).model(), scope@, final(r)@),
    {
        let ghost before = self.views@;
        let idx = match self.views.index_of(scope) {
            Some(i) => i,
            None => {
                let fresh = MembershipView::new(scope.duplicate(), Epoch(0));
                proof {
                    assert(fresh@.residue.resolved =~= Seq::empty());
                    assert(fresh@ == fresh_view(scope@));
                }
                self.views.insert(scope.duplicate(), fresh);
                proof {
                    crate::collections::lemma_map_insert_index::<ScopeId, MembershipViewV>(
                        before,
                        scope@,
                        fresh_view(scope@),
                    );
                }
                match self.views.index_of(scope) {
                    Some(i) => i,
                    None => {
                        proof {
                            assert(false);
                        }
                        0
                    },
                }
            },
        };
        let ghost s = self.views@;
        proof {
            crate::collections::lemma_map_update_is_insert::<ScopeId, MembershipViewV>(s, idx as int);
        }
        self.views.value_at_mut(idx)
    }

    /// Apply a belief event to a cell, transcripting the transition or the
    /// refusal. Invalid protocol inputs are absorbed visibly, never
    /// silently and never as a panic.
    fn apply_belief<S: TranscriptSink>(
        &mut self,
        scope: &ScopeId,
        subject: &SubjectId,
        event: BeliefEvent,
        sink: &mut S,
    )
        ensures
            ({
                let (k, evs) = belief_step(old(self).model(), scope@, subject@, event@);
                &&& final(self).model() == k
                &&& final(sink).kept() == logged::<S>(old(sink).kept(), evs)
            }),
            old(sink).sink_wf() ==> final(sink).sink_wf(),
    {
        let round = self.round;
        let policy = self.policy;
        let kind = event.kind();
        let ghost k0 = self.model();
        let view = self.view_mut(scope);
        let at = (view.epoch(), round);
        let ghost v = (*view)@;
        let ghost beliefs = ensure_cell(v.beliefs, subject@, at);
        let cell = view.cell_mut(subject.duplicate(), at);
        proof {
            crate::collections::lemma_map_insert_index::<SubjectId, BeliefCellV>(beliefs, subject@, (*cell)@);
        }
        let result = cell.apply(event, at, &policy);
        match result {
            Ok(Some(transition)) => {
                sink.record(
                    TranscriptEvent::TransitionApplied {
                        scope: scope.duplicate(),
                        subject: subject.duplicate(),
                        from: transition.from,
                        to: transition.to,
                        event: kind,
                        at,
                    },
                );
            },
            Ok(None) => {},
            Err(error) => {
                sink.record(
                    TranscriptEvent::TransitionRefused {
                        scope: scope.duplicate(),
                        subject: subject.duplicate(),
                        event: kind,
                        reason: error.describe(),
                    },
                );
            },
        }
        proof {
            let (k, evs) = belief_step(k0, scope@, subject@, event@);
            if evs.len() == 1 {
                assert(logged::<S>(old(sink).kept(), evs) =~= if S::retains() {
                    old(sink).kept().push(evs[0])
                } else {
                    old(sink).kept()
                });
            } else {
                assert(logged::<S>(old(sink).kept(), evs) =~= old(sink).kept());
            }
        }
    }
}

// ---------------------------------------------------------------------------
// The step function
// ---------------------------------------------------------------------------

pub open spec fn advanced(v: MembershipViewV, epoch: Epoch) -> MembershipViewV {
    MembershipViewV { epoch: if epoch.0 > v.epoch.0 { epoch } else { v.epoch }, ..v }
}

/// A belief event from the policy layer: no effects.
pub open spec fn assess_step(k: KernelV, scope: Seq<char>, subject: Seq<char>, event: BeliefEventV) -> (KernelV, Seq<EffectV>, Seq<TranscriptEventV>) {
    let (k1, evs) = belief_step(k, scope, subject, event);
    (k1, Seq::empty(), evs)
}

pub open spec fn introduce_step(k: KernelV, c: ClaimV) -> (KernelV, Seq<EffectV>, Seq<TranscriptEventV>) {
    let id = claim_id(c);
    let (k1, evs) = belief_step(
        k,
        c.scope,
        c.subject,
        BeliefEventV::Introduced { claim: id, provenance: c.provenance },
    );
    (
        k1,
        Seq::empty(),
        seq![TranscriptEventV::ClaimAdmitted { scope: c.scope, subject: c.subject, claim: id }] + evs,
    )
}

pub open spec fn witness_step(k: KernelV, r: WitnessRecordV) -> (KernelV, Seq<EffectV>, Seq<TranscriptEventV>) {
    let id = witness_record_id(r);
    let (k1, evs) = belief_step(
        k,
        r.scope,
        r.subject,
        BeliefEventV::WitnessRecorded { record: id, stance: r.stance },
    );
    (
        k1,
        Seq::empty(),
        seq![
            TranscriptEventV::WitnessRecorded {
                scope: r.scope,
                subject: r.subject,
                record: id,
                stance: r.stance,
            },
        ] + evs,
    )
}

/// The first view (in scope order) holding a belief about `subject`.
pub open spec fn first_scope_holding(views: Seq<(Seq<char>, MembershipViewV)>, subject: Seq<char>) -> Option<int>
    decreases views.len(),
{
    if views.len() == 0 {
        None
    } else {
        match first_scope_holding(views.drop_last(), subject) {
            Some(i) => Some(i),
            None => if map_get::<SubjectId, BeliefCellV>(views.last().1.beliefs, subject) is Some {
                Some(views.len() - 1)
            } else {
                None
            },
        }
    }
}

/// Residue entries for `subject`, each noted as preserved under override.
pub open spec fn preserved_events(entries: Seq<(ResidueId, ResidueV)>, scope: Seq<char>, subject: Seq<char>) -> Seq<TranscriptEventV>
    decreases entries.len(),
{
    if entries.len() == 0 {
        Seq::empty()
    } else {
        preserved_events(entries.drop_last(), scope, subject) + if entries.last().1.key.1
            == subject {
            seq![
                TranscriptEventV::ResiduePreserved {
                    scope,
                    subject,
                    residue: entries.last().1.id,
                    superseded: None,
                    handled_by_override: true,
                },
            ]
        } else {
            Seq::empty()
        }
    }
}

/// A direct override: routed into the first view holding the subject; the
/// state is forced through the state machine and the subject's live
/// residue is marked handled (never erased).
pub open spec fn override_step(k: KernelV, op: OperatorOverrideV) -> (KernelV, Seq<EffectV>, Seq<TranscriptEventV>) {
    match first_scope_holding(k.views, op.subject) {
        None => (
            k,
            Seq::empty(),
            seq![
                TranscriptEventV::OverrideRefused {
                    subject: op.subject,
                    override_id: spec_override_id(op),
                    forced: op.forced,
                },
            ],
        ),
        Some(j) => {
            let scope = k.views[j].0;
            let id = spec_override_id(op);
            let (k1, evs) = belief_step(
                k,
                scope,
                op.subject,
                BeliefEventV::OverrideApplied { override_id: id, to: op.forced },
            );
            let v = view_at(k1, scope);
            let entries = v.residue.entries;
            let marked = count_marked(entries, op.subject);
            let entries2 = entries.map_values(
                |e: (ResidueId, ResidueV)| handled_if_subject(e, op.subject, id),
            );
            let v2 = MembershipViewV {
                residue: ResidueLedgerV { entries: entries2, ..v.residue },
                ..v
            };
            (
                with_view(k1, scope, v2),
                seq![EffectV::ShareDigest(repair_digest_of(v2))],
                seq![
                    TranscriptEventV::OverrideApplied {
                        scope,
                        subject: op.subject,
                        override_id: id,
                        forced: op.forced,
                    },
                ] + evs + if marked > 0 {
                    preserved_events(entries2, scope, op.subject)
                } else {
                    Seq::empty()
                },
            )
        },
    }
}

pub open spec fn selection_step(
    k: KernelV,
    domain: RankDomain,
    scope: Seq<char>,
    subject: Option<Seq<char>>,
    pool: Seq<Seq<char>>,
    excluded: Seq<(Seq<char>, ExclusionReasonV)>,
    take: usize,
) -> (KernelV, Seq<EffectV>, Seq<TranscriptEventV>) {
    let v = view_at(k, scope);
    let seed = RankSeedV { domain, scope, subject, epoch: v.epoch, round: k.round };
    let sel = rank_selection(seed, pool, excluded, take as nat);
    (
        with_view(k, scope, v),
        seq![EffectV::WitnessSetSelected(sel)],
        seq![TranscriptEventV::RankComputed { selection: sel }],
    )
}

pub open spec fn residue_events(rs: Seq<ResidueV>, scope: Seq<char>, subject: Seq<char>) -> Seq<TranscriptEventV>
    decreases rs.len(),
{
    if rs.len() == 0 {
        Seq::empty()
    } else {
        residue_events(rs.drop_last(), scope, subject) + seq![
            TranscriptEventV::ResiduePreserved {
                scope,
                subject,
                residue: rs.last().id,
                superseded: None,
                handled_by_override: rs.last().handled_by is Some,
            },
        ]
    }
}

/// Each residue that replaced a live entry of its tension class, noted
/// with the id it replaced: a visible replacement, never a silent one.
pub open spec fn replaced_events(rs: Seq<(ResidueV, ResidueId)>, scope: Seq<char>) -> Seq<TranscriptEventV>
    decreases rs.len(),
{
    if rs.len() == 0 {
        Seq::empty()
    } else {
        replaced_events(rs.drop_last(), scope) + seq![
            TranscriptEventV::ResiduePreserved {
                scope,
                subject: rs.last().0.key.1,
                residue: rs.last().0.id,
                superseded: Some(rs.last().1),
                handled_by_override: rs.last().0.handled_by is Some,
            },
        ]
    }
}

/// What one subject's merge outcome puts in the transcript.
pub open spec fn outcome_events(o: SubjectMergeOutcomeV, scope: Seq<char>) -> Seq<TranscriptEventV> {
    seq![
        TranscriptEventV::MergeEvaluated {
            scope,
            subject: o.subject,
            rule: o.trace.rule,
            decided_by: o.trace.decided_by,
            projected: spec_project(o.resolution),
        },
    ] + match o.resolution {
        MergeResolutionV::Overridden { override_id, forced, .. } => seq![
            TranscriptEventV::OverrideApplied { scope, subject: o.subject, override_id, forced },
        ],
        _ => Seq::empty(),
    } + residue_events(spec_residue(o.resolution), scope, o.subject)
}

pub open spec fn merge_events(outs: Seq<SubjectMergeOutcomeV>, scope: Seq<char>) -> Seq<TranscriptEventV>
    decreases outs.len(),
{
    if outs.len() == 0 {
        Seq::empty()
    } else {
        merge_events(outs.drop_last(), scope) + outcome_events(outs.last(), scope)
    }
}

pub open spec fn max_epoch(a: Epoch, b: Epoch) -> Epoch {
    if a.0 >= b.0 {
        a
    } else {
        b
    }
}

/// A reunion: merged over the later of the view's and the sides' epochs,
/// transcripted subject by subject, then applied to the view through the
/// state machine.
/// The reunion a reunion request runs on kernel `k` carries out the merge
/// calculus (trivially true of every other input).
pub open spec fn reunion_made(k: KernelV, input: InputV) -> bool {
    match input {
        InputV::ReunionRequested { scope, round, subjects, side_a, side_b, operator_override } => {
            let v0 = view_at(k, scope);
            let epoch = max_epoch(max_epoch(v0.epoch, side_a.epoch), side_b.epoch);
            let ctx = ReunionContextV { scope, epoch, round };
            reunion_realizes(
                reunion_result(k.policy.merge, ctx, subjects, side_a, side_b, operator_override),
                k.policy.merge,
                ctx,
                subjects,
                side_a,
                side_b,
                operator_override,
            )
        },
        _ => true,
    }
}

pub open spec fn reunion_step(
    k: KernelV,
    scope: Seq<char>,
    round: Round,
    subjects: Seq<Seq<char>>,
    a: MergeSideV,
    b: MergeSideV,
    op: Option<OperatorOverrideV>,
) -> (KernelV, Seq<EffectV>, Seq<TranscriptEventV>) {
    let v0 = view_at(k, scope);
    let epoch = max_epoch(max_epoch(v0.epoch, a.epoch), b.epoch);
    let ctx = ReunionContextV { scope, epoch, round };
    let o = reunion_result(k.policy.merge, ctx, subjects, a, b, op);
    let evs = merge_events(o.outcomes, scope) + seq![
        TranscriptEventV::ReunionCompleted {
            scope,
            input_digest: o.input_digest,
            overall: o.digest.overall,
            unresolved_residue: o.digest.unresolved_residue,
        },
    ];
    let (v1, res) = apply_prefix(v0, o.outcomes, o.outcomes.len(), o.input_digest, (epoch, round), k.policy);
    match res {
        Ok(acc) => (
            with_view(k, scope, advanced(v1, epoch)),
            seq![EffectV::ShareDigest(repair_digest_of(advanced(v1, epoch)))],
            evs + replaced_events(acc.replaced, scope),
        ),
        Err(e) => (
            with_view(k, scope, v1),
            Seq::empty(),
            evs + seq![
                TranscriptEventV::TransitionRefused {
                    scope,
                    subject: "<reunion>"@,
                    event: EventKind::MergeProjected,
                    reason: error_text(e),
                },
            ],
        ),
    }
}

pub open spec fn digest_step(k: KernelV, remote: RepairDigestV) -> (KernelV, Seq<EffectV>, Seq<TranscriptEventV>) {
    let v = view_at(k, remote.scope);
    (
        with_view(k, remote.scope, v),
        match spec_compare(repair_digest_of(v), remote) {
            DigestVerdictV::NoAction => Seq::empty(),
            DigestVerdictV::FetchDetail(subjects) => seq![
                EffectV::FetchDetail { scope: remote.scope, subjects },
            ],
            DigestVerdictV::HoldForRepair(reason) => seq![
                EffectV::HoldForRepair { scope: remote.scope, reason },
            ],
        },
        seq![
            TranscriptEventV::DigestCompared {
                scope: remote.scope,
                remote: remote.content_hash,
                verdict: verdict_name(spec_compare(repair_digest_of(v), remote)),
            },
        ],
    )
}

/// The name the transcript gives a digest verdict.
pub open spec fn verdict_name(v: DigestVerdictV) -> Seq<char> {
    match v {
        DigestVerdictV::NoAction => "no-action"@,
        DigestVerdictV::FetchDetail(_) => "fetch-detail"@,
        DigestVerdictV::HoldForRepair(_) => "hold-for-repair"@,
    }
}

pub open spec fn roots_of(tr: Seq<(Seq<char>, Seq<(Seq<char>, TrustRootStandingV)>)>, root: Seq<char>) -> Seq<(Seq<char>, TrustRootStandingV)> {
    match map_get::<TrustRootId, Seq<(Seq<char>, TrustRootStandingV)>>(tr, root) {
        Some(m) => m,
        None => Seq::empty(),
    }
}

pub open spec fn propose_step(k: KernelV, root: Seq<char>, scope: Seq<char>, basis: RootBasisV, grade: TrustGrade) -> (KernelV, Seq<EffectV>, Seq<TranscriptEventV>) {
    let standing = TrustRootStandingV {
        root,
        scope,
        basis,
        state: RootState::Proposed,
        grade,
        history: Seq::empty(),
    };
    (
        KernelV {
            trust_roots: map_insert::<TrustRootId, Seq<(Seq<char>, TrustRootStandingV)>>(
                k.trust_roots,
                root,
                map_insert::<ScopeId, TrustRootStandingV>(roots_of(k.trust_roots, root), scope, standing),
            ),
            ..k
        },
        Seq::empty(),
        seq![TranscriptEventV::TrustRootProposed { scope, root, basis: basis_kind_name(basis), grade }],
    )
}

pub open spec fn root_event_step(k: KernelV, root: Seq<char>, scope: Seq<char>, event: RootEventV) -> (KernelV, Seq<EffectV>, Seq<TranscriptEventV>) {
    match map_get::<TrustRootId, Seq<(Seq<char>, TrustRootStandingV)>>(k.trust_roots, root) {
        Some(inner) => match map_get::<ScopeId, TrustRootStandingV>(inner, scope) {
            Some(st) => match root_step(st.state, basis_is_earned(st.basis), root_event_kind_of(event)) {
                Some(to) => (
                    KernelV {
                        trust_roots: map_insert::<TrustRootId, Seq<(Seq<char>, TrustRootStandingV)>>(
                            k.trust_roots,
                            root,
                            map_insert::<ScopeId, TrustRootStandingV>(
                                inner,
                                scope,
                                TrustRootStandingV {
                                    state: to,
                                    history: st.history.push((st.state, to)),
                                    ..st
                                },
                            ),
                        ),
                        ..k
                    },
                    Seq::empty(),
                    seq![
                        TranscriptEventV::TrustRootChanged {
                            scope,
                            root,
                            from: st.state,
                            to,
                            basis: basis_kind_name(st.basis),
                        },
                    ],
                ),
                None => (
                    k,
                    Seq::empty(),
                    seq![
                        TranscriptEventV::TrustRootRefused {
                            scope,
                            root,
                            event: root_event_kind_of(event),
                            standing: Some(st.state),
                        },
                    ],
                ),
            },
            None => (
                k,
                Seq::empty(),
                seq![
                    TranscriptEventV::TrustRootRefused { scope, root, event: root_event_kind_of(event), standing: None },
                ],
            ),
        },
        None => (
            k,
            Seq::empty(),
            seq![
                TranscriptEventV::TrustRootRefused { scope, root, event: root_event_kind_of(event), standing: None },
            ],
        ),
    }
}

/// What `handle` does: the next state, the effects, and the transcript
/// events, as a function of the state and the input.
#[verifier::opaque]
pub open spec fn kernel_step(k: KernelV, input: InputV) -> (KernelV, Seq<EffectV>, Seq<TranscriptEventV>) {
    match input {
        InputV::Introduce(c) => introduce_step(k, c),
        InputV::WitnessRecordReceived(r) => witness_step(k, r),
        InputV::CorroborationAssessed { scope, subject, records, confidence } => assess_step(
            k,
            scope,
            subject,
            BeliefEventV::CorroborationReached { records, confidence },
        ),
        InputV::RemovalAssessed { scope, subject, basis } => assess_step(
            k,
            scope,
            subject,
            BeliefEventV::RemovalDecided { basis },
        ),
        InputV::QuarantineAssessed { scope, subject, reason } => assess_step(
            k,
            scope,
            subject,
            BeliefEventV::QuarantineImposed { reason },
        ),
        InputV::QuarantineReleaseAssessed { scope, subject, fresh } => assess_step(
            k,
            scope,
            subject,
            BeliefEventV::QuarantineReleased { fresh },
        ),
        InputV::Override(op) => override_step(k, op),
        InputV::RequestWitnessSelection { domain, scope, subject, pool, excluded, take } =>
            selection_step(k, domain, scope, subject, pool, excluded, take),
        InputV::ReunionRequested { scope, round, subjects, side_a, side_b, operator_override } =>
            reunion_step(k, scope, round, subjects, side_a, side_b, operator_override),
        InputV::DigestReceived(remote) => digest_step(k, remote),
        InputV::TrustRootProposed { root, scope, basis, grade } => propose_step(
            k,
            root,
            scope,
            basis,
            grade,
        ),
        InputV::TrustRootEvent { root, scope, event } => root_event_step(k, root, scope, event),
        InputV::EpochAdvanced { scope, epoch } => {
            let v = view_at(k, scope);
            (
                with_view(k, scope, advanced(v, epoch)),
                Seq::empty(),
                seq![TranscriptEventV::EpochAdvanced { scope, epoch }],
            )
        },
        InputV::Tick => (
            KernelV { round: Round((k.round.0 + 1) as u64), ..k },
            Seq::empty(),
            seq![TranscriptEventV::TickAdvanced { round: Round((k.round.0 + 1) as u64) }],
        ),
    }
}

/// The kernel's policy never changes, and only a tick moves its round:
/// by exactly one.
pub proof fn lemma_step_frame(k: KernelV, input: InputV)
    ensures
        kernel_step(k, input).0.policy == k.policy,
        input is Tick ==> kernel_step(k, input).0.round.0 == k.round.0 + 1 || k.round.0 == u64::MAX,
        !(input is Tick) ==> kernel_step(k, input).0.round == k.round,
{
    reveal(kernel_step);
}

/// When `handle` can take an input: the round counter does not overflow,
/// and a reunion runs under a policy whose tables keep its arithmetic in
/// range.
pub open spec fn can_handle(k: KernelV, input: InputV) -> bool {
    &&& input is Tick ==> k.round.0 < u64::MAX
    &&& input is ReunionRequested ==> merge_policy_bounded(k.policy.merge)
}

// ---------------------------------------------------------------------------
// Handling inputs
// ---------------------------------------------------------------------------

proof fn lemma_logged_concat<S: TranscriptSink>(b: Seq<TranscriptEventV>, x: Seq<TranscriptEventV>, y: Seq<TranscriptEventV>)
    ensures
        logged::<S>(logged::<S>(b, x), y) == logged::<S>(b, x + y),
        logged::<S>(b, Seq::empty()) == b,
{
    assert(b + x + y =~= b + (x + y));
    assert(b + Seq::<TranscriptEventV>::empty() =~= b);
}

proof fn lemma_with_view(k: KernelV, scope: Seq<char>, v0: MembershipViewV, v: MembershipViewV)
    ensures
        view_at(with_view(k, scope, v0), scope) == v0,
        with_view(with_view(k, scope, v0), scope, v) == with_view(k, scope, v),
        ensure_view(with_view(k, scope, v0).views, scope) == with_view(k, scope, v0).views,
{
    let e = ensure_view(k.views, scope);
    crate::collections::lemma_map_insert_twice::<ScopeId, MembershipViewV>(e, scope, v0, v);
    crate::collections::lemma_map_insert_index::<ScopeId, MembershipViewV>(e, scope, v0);
}

/// Record one event, extending what the sink has kept by it.
fn emit<S: TranscriptSink>(
    sink: &mut S,
    event: TranscriptEvent,
    Ghost(base): Ghost<Seq<TranscriptEventV>>,
    Ghost(evs): Ghost<Seq<TranscriptEventV>>,
)
    requires
        old(sink).kept() == logged::<S>(base, evs),
    ensures
        final(sink).kept() == logged::<S>(base, evs.push(event@)),
        old(sink).sink_wf() ==> final(sink).sink_wf(),
{
    let ghost e = event@;
    sink.record(event);
    proof {
        assert(base + evs.push(e) =~= (base + evs).push(e));
    }
}

/// Record that a root move was refused.
fn emit_refusal<S: TranscriptSink>(
    sink: &mut S,
    scope: &ScopeId,
    root: &TrustRootId,
    event: &RootEvent,
    standing: Option<RootState>,
    Ghost(base): Ghost<Seq<TranscriptEventV>>,
)
    requires
        old(sink).kept() == logged::<S>(base, Seq::empty()),
    ensures
        final(sink).kept() == logged::<S>(
            base,
            seq![
                TranscriptEventV::TrustRootRefused {
                    scope: scope@,
                    root: root@,
                    event: root_event_kind(*event),
                    standing,
                },
            ],
        ),
        old(sink).sink_wf() ==> final(sink).sink_wf(),
{
    let note = TranscriptEvent::TrustRootRefused {
        scope: scope.duplicate(),
        root: root.duplicate(),
        event: event.kind(),
        standing,
    };
    let ghost nv = note@;
    emit(sink, note, Ghost(base), Ghost(Seq::empty()));
    proof {
        assert(Seq::<TranscriptEventV>::empty().push(nv) =~= seq![nv]);
    }
}

/// Record each residue replacement a reunion made.
fn emit_replacements<S: TranscriptSink>(
    sink: &mut S,
    scope: &ScopeId,
    replaced: &Vec<(Residue, ResidueId)>,
    Ghost(base): Ghost<Seq<TranscriptEventV>>,
    Ghost(evs): Ghost<Seq<TranscriptEventV>>,
)
    requires
        old(sink).kept() == logged::<S>(base, evs),
    ensures
        final(sink).kept() == logged::<S>(
            base,
            evs + replaced_events(crate::merge::engine::replacement_views(replaced@), scope@),
        ),
        old(sink).sink_wf() ==> final(sink).sink_wf(),
{
    let ghost rv = crate::merge::engine::replacement_views(replaced@);
    let mut i: usize = 0;
    proof {
        assert(rv.subrange(0, 0) =~= Seq::<(ResidueV, ResidueId)>::empty());
        assert(evs + replaced_events(rv.subrange(0, 0), scope@) =~= evs);
    }
    while i < replaced.len()
        invariant
            i <= replaced@.len(),
            rv == crate::merge::engine::replacement_views(replaced@),
            sink.kept() == logged::<S>(base, evs + replaced_events(rv.subrange(0, i as int), scope@)),
            old(sink).sink_wf() ==> sink.sink_wf(),
        decreases replaced@.len() - i,
    {
        let r = &replaced[i].0;
        let note = TranscriptEvent::ResiduePreserved {
            scope: scope.duplicate(),
            subject: r.key().subject.duplicate(),
            residue: r.id(),
            superseded: Some(replaced[i].1),
            handled_by_override: r.handled_by().is_some(),
        };
        let ghost nv = note@;
        let ghost so_far = evs + replaced_events(rv.subrange(0, i as int), scope@);
        emit(sink, note, Ghost(base), Ghost(so_far));
        proof {
            let next = rv.subrange(0, i + 1);
            assert(next.drop_last() =~= rv.subrange(0, i as int));
            assert(next.last() == rv[i as int]);
            assert(so_far.push(nv) =~= evs + replaced_events(next, scope@));
        }
        i = i + 1;
    }
    assert(rv.subrange(0, i as int) =~= rv);
}

fn one_effect(e: Effect) -> (r: Vec<Effect>)
    ensures
        effect_views(r@) == seq![e@],
{
    let mut v: Vec<Effect> = Vec::new();
    v.push(e);
    assert(effect_views(v@) =~= seq![e@]);
    v
}

fn no_effects() -> (r: Vec<Effect>)
    ensures
        effect_views(r@) == Seq::<EffectV>::empty(),
{
    let v: Vec<Effect> = Vec::new();
    assert(effect_views(v@) =~= Seq::<EffectV>::empty());
    v
}

impl Kernel {
    fn handle_introduce<S: TranscriptSink>(&mut self, claim: Claim, sink: &mut S) -> (r: Vec<Effect>)
        ensures
            ({
                let (k, effects, evs) = introduce_step(old(self).model(), claim@);
                &&& final(self).model() == k
                &&& effect_views(r@) == effects
                &&& final(sink).kept() == logged::<S>(old(sink).kept(), evs)
            }),
            old(sink).sink_wf() ==> final(sink).sink_wf(),
    {
        let ghost base = sink.kept();
        let scope = claim.scope.duplicate();
        let subject = claim.subject.duplicate();
        let claim_id = claim.id();
        let first = TranscriptEvent::ClaimAdmitted {
            scope: scope.duplicate(),
            subject: subject.duplicate(),
            claim: claim_id,
        };
        let ghost fv = first@;
        proof {
            lemma_logged_concat::<S>(base, Seq::empty(), Seq::empty());
        }
        emit(sink, first, Ghost(base), Ghost(Seq::empty()));
        self.apply_belief(
            &scope,
            &subject,
            BeliefEvent::Introduced { claim: claim_id, provenance: claim.provenance },
            sink,
        );
        proof {
            let (k, evs) = belief_step(old(self).model(), claim@.scope, claim@.subject, BeliefEventV::Introduced { claim: claim_id, provenance: claim@.provenance });
            assert(Seq::<TranscriptEventV>::empty().push(fv) =~= seq![fv]);
            lemma_logged_concat::<S>(base, seq![fv], evs);
        }
        no_effects()
    }

    fn handle_witness<S: TranscriptSink>(&mut self, record: WitnessRecord, sink: &mut S) -> (r: Vec<Effect>)
        ensures
            ({
                let (k, effects, evs) = witness_step(old(self).model(), record@);
                &&& final(self).model() == k
                &&& effect_views(r@) == effects
                &&& final(sink).kept() == logged::<S>(old(sink).kept(), evs)
            }),
            old(sink).sink_wf() ==> final(sink).sink_wf(),
    {
        let ghost base = sink.kept();
        let record_id = record.id();
        let first = TranscriptEvent::WitnessRecorded {
            scope: record.scope.duplicate(),
            subject: record.subject.duplicate(),
            record: record_id,
            stance: record.stance,
        };
        let ghost fv = first@;
        proof {
            lemma_logged_concat::<S>(base, Seq::empty(), Seq::empty());
        }
        emit(sink, first, Ghost(base), Ghost(Seq::empty()));
        self.apply_belief(
            &record.scope,
            &record.subject,
            BeliefEvent::WitnessRecorded { record: record_id, stance: record.stance },
            sink,
        );
        proof {
            let (k, evs) = belief_step(old(self).model(), record@.scope, record@.subject, BeliefEventV::WitnessRecorded { record: record_id, stance: record@.stance });
            assert(Seq::<TranscriptEventV>::empty().push(fv) =~= seq![fv]);
            lemma_logged_concat::<S>(base, seq![fv], evs);
        }
        no_effects()
    }

    fn handle_assessment<S: TranscriptSink>(&mut self, scope: &ScopeId, subject: &SubjectId, event: BeliefEvent, sink: &mut S) -> (r: Vec<Effect>)
        ensures
            ({
                let (k, effects, evs) = assess_step(old(self).model(), scope@, subject@, event@);
                &&& final(self).model() == k
                &&& effect_views(r@) == effects
                &&& final(sink).kept() == logged::<S>(old(sink).kept(), evs)
            }),
            old(sink).sink_wf() ==> final(sink).sink_wf(),
    {
        self.apply_belief(scope, subject, event, sink);
        no_effects()
    }

    fn handle_override<S: TranscriptSink>(&mut self, op: OperatorOverride, sink: &mut S) -> (r: Vec<Effect>)
        ensures
            ({
                let (k, effects, evs) = override_step(old(self).model(), op@);
                &&& final(self).model() == k
                &&& effect_views(r@) == effects
                &&& final(sink).kept() == logged::<S>(old(sink).kept(), evs)
            }),
            old(sink).sink_wf() ==> final(sink).sink_wf(),
    {
        let ghost k0 = self.model();
        let ghost base = sink.kept();
        let override_id = op.id();
        let mut j: usize = 0;
        let mut found: Option<usize> = None;
        while j < self.views.len()
            invariant_except_break
                found is None,
            invariant
                j <= k0.views.len(),
                self.model() == k0,
                first_scope_holding(k0.views.subrange(0, j as int), op@.subject) is None,
            ensures
                match found {
                    Some(i) => first_scope_holding(k0.views, op@.subject) == Some(i as int) && i
                        < k0.views.len(),
                    None => j == k0.views.len() && first_scope_holding(
                        k0.views.subrange(0, j as int),
                        op@.subject,
                    ) is None,
                },
            decreases k0.views.len() - j,
        {
            let holds = self.views.value_at(j).belief(&op.subject).is_some();
            proof {
                let next = k0.views.subrange(0, j + 1);
                assert(next.drop_last() =~= k0.views.subrange(0, j as int));
                assert(next.last() == k0.views[j as int]);
                lemma_first_scope_prefix(k0.views, op@.subject, j as int);
            }
            if holds {
                found = Some(j);
                break;
            }
            j = j + 1;
        }
        proof {
            if found is None {
                assert(k0.views.subrange(0, j as int) =~= k0.views);
            }
        }
        let i = match found {
            Some(i) => i,
            None => {
                proof {
                    lemma_logged_concat::<S>(base, Seq::empty(), Seq::empty());
                }
                let note = TranscriptEvent::OverrideRefused {
                    subject: op.subject.duplicate(),
                    override_id,
                    forced: op.forced,
                };
                let ghost nv = note@;
                emit(sink, note, Ghost(base), Ghost(Seq::empty()));
                proof {
                    assert(Seq::<TranscriptEventV>::empty().push(nv) =~= seq![nv]);
                }
                return no_effects();
            },
        };
        let scope = self.views.key_at(i).duplicate();
        let first = TranscriptEvent::OverrideApplied {
            scope: scope.duplicate(),
            subject: op.subject.duplicate(),
            override_id,
            forced: op.forced,
        };
        let ghost fv = first@;
        proof {
            lemma_logged_concat::<S>(base, Seq::empty(), Seq::empty());
        }
        emit(sink, first, Ghost(base), Ghost(Seq::empty()));
        self.apply_belief(
            &scope,
            &op.subject,
            BeliefEvent::OverrideApplied { override_id, to: op.forced },
            sink,
        );
        let ghost (kb, evs1) = belief_step(
            k0,
            scope@,
            op@.subject,
            BeliefEventV::OverrideApplied { override_id, to: op@.forced },
        );
        proof {
            assert(Seq::<TranscriptEventV>::empty().push(fv) =~= seq![fv]);
            lemma_logged_concat::<S>(base, seq![fv], evs1);
        }
        let ghost pre = seq![fv] + evs1;
        let view = self.view_mut(&scope);
        let marked = view.residue_mut().mark_all_handled(&op.subject, override_id);
        let residues = view.residue().iter();
        let ghost entries2 = view@.residue.entries;
        proof {
            assert(residues@.map_values(|x: Residue| x@).len() == entries2.map_values(
                |e: (ResidueId, ResidueV)| e.1,
            ).len());
        }
        if marked > 0 {
            let mut q: usize = 0;
            while q < residues.len()
                invariant
                    q <= residues@.len(),
                    residues@.len() == entries2.len(),
                    residues@.map_values(|x: Residue| x@) == entries2.map_values(
                        |e: (ResidueId, ResidueV)| e.1,
                    ),
                    sink.kept() == logged::<S>(
                        base,
                        pre + preserved_events(entries2.subrange(0, q as int), scope@, op@.subject),
                    ),
                    old(sink).sink_wf() ==> sink.sink_wf(),
                decreases residues@.len() - q,
            {
                let residue = &residues[q];
                proof {
                    let next = entries2.subrange(0, q + 1);
                    assert(next.drop_last() =~= entries2.subrange(0, q as int));
                    assert(next.last() == entries2[q as int]);
                    assert(residues@.map_values(|x: Residue| x@)[q as int] == residue@);
                }
                if residue.key().subject.same(&op.subject) {
                    let note = TranscriptEvent::ResiduePreserved {
                        scope: scope.duplicate(),
                        subject: op.subject.duplicate(),
                        residue: residue.id(),
                        superseded: None,
                        handled_by_override: true,
                    };
                    let ghost so_far = pre + preserved_events(entries2.subrange(0, q as int), scope@, op@.subject);
                    let ghost nv = note@;
                    emit(sink, note, Ghost(base), Ghost(so_far));
                    proof {
                        assert(so_far.push(nv) =~= pre + preserved_events(entries2.subrange(0, q + 1), scope@, op@.subject));
                    }
                } else {
                    proof {
                        assert(pre + preserved_events(entries2.subrange(0, q as int), scope@, op@.subject)
                            =~= pre + preserved_events(entries2.subrange(0, q + 1), scope@, op@.subject));
                    }
                }
                q = q + 1;
            }
            proof {
                assert(residues@.map_values(|x: Residue| x@).len() == entries2.len());
                assert(entries2.subrange(0, q as int) =~= entries2);
            }
        } else {
            proof {
                assert(pre + Seq::<TranscriptEventV>::empty() =~= pre);
            }
        }
        let digest = RepairDigest::of(view);
        proof {
            lemma_with_view(kb, scope@, view_at(kb, scope@), view@);
        }
        one_effect(Effect::ShareDigest(digest))
    }
}

impl Kernel {
    fn handle_selection<S: TranscriptSink>(
        &mut self,
        domain: RankDomain,
        scope: ScopeId,
        subject: Option<SubjectId>,
        pool: Vec<PeerId>,
        excluded: Vec<(PeerId, ExclusionReason)>,
        take: usize,
        sink: &mut S,
    ) -> (r: Vec<Effect>)
        ensures
            ({
                let (k, effects, evs) = selection_step(
                    old(self).model(),
                    domain,
                    scope@,
                    match subject {
                        Some(s) => Some(s@),
                        None => None,
                    },
                    peer_views(pool@),
                    exclusion_views(excluded@),
                    take,
                );
                &&& final(self).model() == k
                &&& effect_views(r@) == effects
                &&& final(sink).kept() == logged::<S>(old(sink).kept(), evs)
            }),
            old(sink).sink_wf() ==> final(sink).sink_wf(),
    {
        let ghost base = sink.kept();
        let epoch = self.view_mut(&scope).epoch();
        let seed = RankSeed { domain, scope, subject, epoch, round: self.round };
        let selection = permutation_rank(seed, pool, excluded, take);
        proof {
            lemma_logged_concat::<S>(base, Seq::empty(), Seq::empty());
        }
        let note = TranscriptEvent::RankComputed { selection: selection.duplicate() };
        let ghost nv = note@;
        emit(sink, note, Ghost(base), Ghost(Seq::empty()));
        proof {
            assert(Seq::<TranscriptEventV>::empty().push(nv) =~= seq![nv]);
        }
        one_effect(Effect::WitnessSetSelected(selection))
    }

    fn handle_digest<S: TranscriptSink>(&mut self, remote: RepairDigest, sink: &mut S) -> (r: Vec<Effect>)
        ensures
            ({
                let (k, effects, evs) = digest_step(old(self).model(), remote@);
                &&& final(self).model() == k
                &&& effect_views(r@) == effects
                &&& final(sink).kept() == logged::<S>(old(sink).kept(), evs)
            }),
            old(sink).sink_wf() ==> final(sink).sink_wf(),
    {
        proof {
            lemma_logged_concat::<S>(sink.kept(), Seq::empty(), Seq::empty());
        }
        let ghost base = sink.kept();
        let scope = remote.scope.duplicate();
        let view = self.view_mut(&scope);
        let local = RepairDigest::of(view);
        let verdict = compare(&local, &remote);
        let name = match &verdict {
            DigestVerdict::NoAction => crate::text::string_of("no-action"),
            DigestVerdict::FetchDetail(_) => crate::text::string_of("fetch-detail"),
            DigestVerdict::HoldForRepair(_) => crate::text::string_of("hold-for-repair"),
        };
        let note = TranscriptEvent::DigestCompared { scope: scope.duplicate(), remote: remote.content_hash, verdict: name };
        let ghost nv = note@;
        emit(sink, note, Ghost(base), Ghost(Seq::empty()));
        proof {
            assert(Seq::<TranscriptEventV>::empty().push(nv) =~= seq![nv]);
        }
        match verdict {
            DigestVerdict::NoAction => no_effects(),
            DigestVerdict::FetchDetail(subjects) => one_effect(Effect::FetchDetail { scope, subjects }),
            DigestVerdict::HoldForRepair(reason) => one_effect(Effect::HoldForRepair { scope, reason }),
        }
    }

    fn handle_propose<S: TranscriptSink>(&mut self, root: TrustRootId, scope: ScopeId, basis: RootBasis, grade: TrustGrade, sink: &mut S) -> (r: Vec<Effect>)
        ensures
            ({
                let (k, effects, evs) = propose_step(old(self).model(), root@, scope@, basis@, grade);
                &&& final(self).model() == k
                &&& effect_views(r@) == effects
                &&& final(sink).kept() == logged::<S>(old(sink).kept(), evs)
            }),
            old(sink).sink_wf() ==> final(sink).sink_wf(),
    {
        let ghost base = sink.kept();
        proof {
            lemma_logged_concat::<S>(base, Seq::empty(), Seq::empty());
        }
        let note = TranscriptEvent::TrustRootProposed {
            scope: scope.duplicate(),
            root: root.duplicate(),
            basis: crate::text::string_of(basis.kind()),
            grade,
        };
        let ghost nv = note@;
        emit(sink, note, Ghost(base), Ghost(Seq::empty()));
        proof {
            assert(Seq::<TranscriptEventV>::empty().push(nv) =~= seq![nv]);
        }
        let ghost tr = self.trust_roots@;
        let standing = TrustRootStanding::propose(root.duplicate(), scope.duplicate(), basis, grade);
        match self.trust_roots.index_of(&root) {
            Some(i) => {
                proof {
                    crate::collections::lemma_map_update_is_insert::<TrustRootId, Seq<(Seq<char>, TrustRootStandingV)>>(tr, i as int);
                }
                let inner = self.trust_roots.value_at_mut(i);
                inner.insert(scope, standing);
            },
            None => {
                let mut inner: SortedMap<ScopeId, TrustRootStanding> = SortedMap::new();
                inner.insert(scope, standing);
                self.trust_roots.insert(root, inner);
            },
        }
        no_effects()
    }

    fn handle_root_event<S: TranscriptSink>(&mut self, root: TrustRootId, scope: ScopeId, event: RootEvent, sink: &mut S) -> (r: Vec<Effect>)
        ensures
            ({
                let (k, effects, evs) = root_event_step(old(self).model(), root@, scope@, event@);
                &&& final(self).model() == k
                &&& effect_views(r@) == effects
                &&& final(sink).kept() == logged::<S>(old(sink).kept(), evs)
            }),
            old(sink).sink_wf() ==> final(sink).sink_wf(),
    {
        let ghost base = sink.kept();
        let ghost tr = self.trust_roots@;
        proof {
            lemma_logged_concat::<S>(base, Seq::empty(), Seq::empty());
            assert(root_event_kind(event) == root_event_kind_of(event@));
        }
        match self.trust_roots.index_of(&root) {
            None => emit_refusal(sink, &scope, &root, &event, None, Ghost(base)),
            Some(i) => {
                proof {
                    crate::collections::lemma_map_update_is_insert::<TrustRootId, Seq<(Seq<char>, TrustRootStandingV)>>(tr, i as int);
                }
                let inner = self.trust_roots.value_at_mut(i);
                let ghost im = (*inner)@;
                match inner.index_of(&scope) {
                    None => {
                        proof {
                            assert(tr.update(i as int, (tr[i as int].0, im)) =~= tr);
                        }
                        emit_refusal(sink, &scope, &root, &event, None, Ghost(base));
                    },
                    Some(j) => {
                        proof {
                            crate::collections::lemma_map_update_is_insert::<ScopeId, TrustRootStandingV>(im, j as int);
                        }
                        let standing = inner.value_at_mut(j);
                        let basis = crate::text::string_of(standing.basis().kind());
                        let ghost st = (*standing)@;
                        let from_state = standing.state();
                        match standing.apply(&event) {
                            Ok((from, to)) => {
                                let note = TranscriptEvent::TrustRootChanged {
                                    scope: scope.duplicate(),
                                    root: root.duplicate(),
                                    from,
                                    to,
                                    basis,
                                };
                                let ghost nv = note@;
                                emit(sink, note, Ghost(base), Ghost(Seq::empty()));
                                proof {
                                    assert(Seq::<TranscriptEventV>::empty().push(nv) =~= seq![nv]);
                                }
                            },
                            Err(_) => {
                                proof {
                                    assert(im.update(j as int, (im[j as int].0, st)) =~= im);
                                    assert(tr.update(i as int, (tr[i as int].0, im)) =~= tr);
                                }
                                emit_refusal(sink, &scope, &root, &event, Some(from_state), Ghost(base));
                            },
                        }
                    },
                }
            },
        }
        no_effects()
    }

    fn handle_epoch<S: TranscriptSink>(&mut self, scope: ScopeId, epoch: Epoch, sink: &mut S) -> (r: Vec<Effect>)
        ensures
            ({
                let (k, effects, evs) = (
                    with_view(old(self).model(), scope@, advanced(view_at(old(self).model(), scope@), epoch)),
                    Seq::<EffectV>::empty(),
                    seq![TranscriptEventV::EpochAdvanced { scope: scope@, epoch }],
                );
                &&& final(self).model() == k
                &&& effect_views(r@) == effects
                &&& final(sink).kept() == logged::<S>(old(sink).kept(), evs)
            }),
            old(sink).sink_wf() ==> final(sink).sink_wf(),
    {
        let ghost base = sink.kept();
        self.view_mut(&scope).advance_epoch(epoch);
        proof {
            lemma_logged_concat::<S>(base, Seq::empty(), Seq::empty());
        }
        let note = TranscriptEvent::EpochAdvanced { scope, epoch };
        let ghost nv = note@;
        emit(sink, note, Ghost(base), Ghost(Seq::empty()));
        proof {
            assert(Seq::<TranscriptEventV>::empty().push(nv) =~= seq![nv]);
        }
        no_effects()
    }

    fn handle_tick<S: TranscriptSink>(&mut self, sink: &mut S) -> (r: Vec<Effect>)
        requires
            old(self).model().round.0 < u64::MAX,
        ensures
            ({
                let k0 = old(self).model();
                let (k, effects, evs) = (
                    KernelV { round: Round((k0.round.0 + 1) as u64), ..k0 },
                    Seq::<EffectV>::empty(),
                    seq![TranscriptEventV::TickAdvanced { round: Round((k0.round.0 + 1) as u64) }],
                );
                &&& final(self).model() == k
                &&& effect_views(r@) == effects
                &&& final(sink).kept() == logged::<S>(old(sink).kept(), evs)
            }),
            old(sink).sink_wf() ==> final(sink).sink_wf(),
    {
        let ghost base = sink.kept();
        self.round = self.round.next();
        proof {
            lemma_logged_concat::<S>(base, Seq::empty(), Seq::empty());
        }
        let note = TranscriptEvent::TickAdvanced { round: self.round };
        let ghost nv = note@;
        emit(sink, note, Ghost(base), Ghost(Seq::empty()));
        proof {
            assert(Seq::<TranscriptEventV>::empty().push(nv) =~= seq![nv]);
        }
        no_effects()
    }
}

/// Transcript one subject's merge outcome.
fn emit_outcome<S: TranscriptSink>(
    sink: &mut S,
    scope: &ScopeId,
    o: &crate::merge::SubjectMergeOutcome,
    Ghost(base): Ghost<Seq<TranscriptEventV>>,
    Ghost(evs): Ghost<Seq<TranscriptEventV>>,
)
    requires
        old(sink).kept() == logged::<S>(base, evs),
    ensures
        final(sink).kept() == logged::<S>(base, evs + outcome_events(o@, scope@)),
        old(sink).sink_wf() ==> final(sink).sink_wf(),
{
    let evaluated = TranscriptEvent::MergeEvaluated {
        scope: scope.duplicate(),
        subject: o.subject.duplicate(),
        rule: o.trace.rule,
        decided_by: o.trace.decided_by,
        projected: o.resolution.project(),
    };
    let ghost ev0 = evaluated@;
    emit(sink, evaluated, Ghost(base), Ghost(evs));
    let ghost after_eval = evs.push(ev0);
    let ghost mid: Seq<TranscriptEventV> = match o@.resolution {
        MergeResolutionV::Overridden { override_id, forced, .. } => seq![
            TranscriptEventV::OverrideApplied { scope: scope@, subject: o@.subject, override_id, forced },
        ],
        _ => Seq::empty(),
    };
    match &o.resolution {
        MergeResolution::Overridden { override_id, forced, .. } => {
            let note = TranscriptEvent::OverrideApplied {
                scope: scope.duplicate(),
                subject: o.subject.duplicate(),
                override_id: *override_id,
                forced: *forced,
            };
            emit(sink, note, Ghost(base), Ghost(after_eval));
            proof {
                assert(after_eval.push(mid[0]) =~= after_eval + mid);
            }
        },
        _ => {
            proof {
                assert(after_eval + mid =~= after_eval);
            }
        },
    }
    let rs = o.resolution.residue();
    let ghost rv = rs@.map_values(|x: &Residue| x@);
    let mut q: usize = 0;
    while q < rs.len()
        invariant
            q <= rs@.len(),
            rv == rs@.map_values(|x: &Residue| x@),
            rv == spec_residue(o@.resolution),
            sink.kept() == logged::<S>(
                base,
                after_eval + mid + residue_events(rv.subrange(0, q as int), scope@, o@.subject),
            ),
            old(sink).sink_wf() ==> sink.sink_wf(),
        decreases rs@.len() - q,
    {
        let r = rs[q];
        let note = TranscriptEvent::ResiduePreserved {
            scope: scope.duplicate(),
            subject: o.subject.duplicate(),
            residue: r.id(),
            superseded: None,
            handled_by_override: r.handled_by().is_some(),
        };
        let ghost nv = note@;
        let ghost so_far = after_eval + mid + residue_events(rv.subrange(0, q as int), scope@, o@.subject);
        emit(sink, note, Ghost(base), Ghost(so_far));
        proof {
            let next = rv.subrange(0, q + 1);
            assert(next.drop_last() =~= rv.subrange(0, q as int));
            assert(next.last() == rv[q as int]);
            assert(rv[q as int] == r@);
            assert(so_far.push(nv) =~= after_eval + mid + residue_events(next, scope@, o@.subject));
        }
        q = q + 1;
    }
    proof {
        assert(rv.subrange(0, q as int) =~= rv);
        assert(after_eval + mid + residue_events(rv, scope@, o@.subject) =~= evs + outcome_events(o@, scope@));
    }
}

impl Kernel {
    #[verifier::spinoff_prover]
    #[verifier::rlimit(40)]
    fn handle_reunion<S: TranscriptSink>(
        &mut self,
        scope: ScopeId,
        round: Round,
        subjects: Vec<SubjectId>,
        side_a: MergeSide,
        side_b: MergeSide,
        operator_override: Option<OperatorOverride>,
        sink: &mut S,
    ) -> (r: Vec<Effect>)
        requires
            merge_policy_bounded(old(self).model().policy.merge),
        ensures
            ({
                let (k, effects, evs) = reunion_step(
                    old(self).model(),
                    scope@,
                    round,
                    subject_views(subjects@),
                    side_a@,
                    side_b@,
                    match operator_override {
                        Some(o) => Some(o@),
                        None => None,
                    },
                );
                &&& final(self).model() == k
                &&& effect_views(r@) == effects
                &&& final(sink).kept() == logged::<S>(old(sink).kept(), evs)
            }),
            old(sink).sink_wf() ==> final(sink).sink_wf(),
            reunion_made(
                old(self).model(),
                InputV::ReunionRequested {
                    scope: scope@,
                    round,
                    subjects: subject_views(subjects@),
                    side_a: side_a@,
                    side_b: side_b@,
                    operator_override: match operator_override {
                        Some(o) => Some(o@),
                        None => None,
                    },
                },
            ),
    {
        let ghost k0 = self.model();
        let ghost base = sink.kept();
        let view_epoch = self.view_mut(&scope).epoch();
        let ghost v0 = view_at(k0, scope@);
        let first = if view_epoch.0 >= side_a.epoch.0 {
            view_epoch
        } else {
            side_a.epoch
        };
        let epoch = if first.0 >= side_b.epoch.0 {
            first
        } else {
            side_b.epoch
        };
        let ctx = ReunionContext { scope: scope.duplicate(), epoch, round };
        let op_ref = operator_override.as_ref();
        let outcome = deterministic_reunion(
            &self.policy.merge,
            &ctx,
            subjects.as_slice(),
            &side_a,
            &side_b,
            op_ref,
        );
        let ghost ov = outcome@;
        let ghost opv: Option<OperatorOverrideV> = match operator_override {
            Some(o) => Some(o@),
            None => None,
        };
        proof {
            assert(override_view(op_ref) == opv);
            assert(ov == reunion_result(k0.policy.merge, ctx@, subject_views(subjects@), side_a@, side_b@, opv));
            lemma_logged_concat::<S>(base, Seq::empty(), Seq::empty());
        }
        let mut i: usize = 0;
        while i < outcome.outcomes.len()
            invariant
                i <= ov.outcomes.len(),
                ov == outcome@,
                sink.kept() == logged::<S>(base, merge_events(ov.outcomes.subrange(0, i as int), scope@)),
                old(sink).sink_wf() ==> sink.sink_wf(),
            decreases ov.outcomes.len() - i,
        {
            let ghost so_far = merge_events(ov.outcomes.subrange(0, i as int), scope@);
            emit_outcome(sink, &scope, &outcome.outcomes[i], Ghost(base), Ghost(so_far));
            proof {
                let next = ov.outcomes.subrange(0, i + 1);
                assert(next.drop_last() =~= ov.outcomes.subrange(0, i as int));
                assert(next.last() == outcome.outcomes@[i as int]@);
            }
            i = i + 1;
        }
        proof {
            assert(ov.outcomes.subrange(0, i as int) =~= ov.outcomes);
        }
        let completed = TranscriptEvent::ReunionCompleted {
            scope: scope.duplicate(),
            input_digest: outcome.input_digest,
            overall: outcome.digest.overall,
            unresolved_residue: outcome.digest.unresolved_residue,
        };
        let ghost cv = completed@;
        emit(sink, completed, Ghost(base), Ghost(merge_events(ov.outcomes, scope@)));
        let ghost evs = merge_events(ov.outcomes, scope@).push(cv);
        proof {
            assert(evs =~= merge_events(ov.outcomes, scope@) + seq![cv]);
            crate::merge::engine::lemma_reunion_residue_bounded(
                ov,
                k0.policy.merge,
                ctx@,
                subject_views(subjects@),
                side_a@,
                side_b@,
                opv,
            );
            assert(ov.outcomes.len() == outcome.outcomes@.len());
        }
        let policy = self.policy;
        let ghost k1 = self.model();
        let view = self.view_mut(&scope);
        proof {
            lemma_with_view(k0, scope@, v0, v0);
        }
        match outcome.apply_to(view, &policy, (epoch, round)) {
            Ok(applied) => {
                let digest = RepairDigest::of(view);
                proof {
                    lemma_with_view(k0, scope@, v0, view@);
                }
                emit_replacements(sink, &scope, &applied.replaced, Ghost(base), Ghost(evs));
                one_effect(Effect::ShareDigest(digest))
            },
            Err(error) => {
                proof {
                    lemma_with_view(k0, scope@, v0, view@);
                }
                let note = TranscriptEvent::TransitionRefused {
                    scope: scope.duplicate(),
                    subject: SubjectId::new("<reunion>"),
                    event: EventKind::MergeProjected,
                    reason: error.describe(),
                };
                let ghost nv = note@;
                emit(sink, note, Ghost(base), Ghost(evs));
                proof {
                    assert(evs.push(nv) =~= evs + seq![nv]);
                }
                no_effects()
            },
        }
    }

    /// Handle one input. Deterministic and total: the same state and the
    /// same input always yield the same effects and the same transcript
    /// events (`kernel_step`).
    #[verifier::spinoff_prover]
    #[verifier::rlimit(80)]
    pub fn handle<S: TranscriptSink>(&mut self, input: Input, sink: &mut S) -> (r: Vec<Effect>)
        requires
            can_handle(old(self).model(), input@),
        ensures
            ({
                let (k, effects, evs) = kernel_step(old(self).model(), input@);
                &&& final(self).model() == k
                &&& effect_views(r@) == effects
                &&& final(sink).kept() == logged::<S>(old(sink).kept(), evs)
            }),
            old(sink).sink_wf() ==> final(sink).sink_wf(),
            reunion_made(old(self).model(), input@),
    {
        proof {
            reveal(kernel_step);
        }
        match input {
            Input::Introduce(claim) => self.handle_introduce(claim, sink),
            Input::WitnessRecordReceived(record) => self.handle_witness(record, sink),
            Input::CorroborationAssessed { scope, subject, records, confidence } => self.handle_assessment(
                &scope,
                &subject,
                BeliefEvent::CorroborationReached { records, confidence },
                sink,
            ),
            Input::RemovalAssessed { scope, subject, basis } => self.handle_assessment(
                &scope,
                &subject,
                BeliefEvent::RemovalDecided { basis },
                sink,
            ),
            Input::QuarantineAssessed { scope, subject, reason } => self.handle_assessment(
                &scope,
                &subject,
                BeliefEvent::QuarantineImposed { reason },
                sink,
            ),
            Input::QuarantineReleaseAssessed { scope, subject, fresh } => self.handle_assessment(
                &scope,
                &subject,
                BeliefEvent::QuarantineReleased { fresh },
                sink,
            ),
            Input::Override(op) => self.handle_override(op, sink),
            Input::RequestWitnessSelection { domain, scope, subject, pool, excluded, take } =>
                self.handle_selection(domain, scope, subject, pool, excluded, take, sink),
            Input::ReunionRequested {
                scope,
                round,
                subjects,
                side_a,
                side_b,
                operator_override,
            } => self.handle_reunion(scope, round, subjects, side_a, side_b, operator_override, sink),
            Input::DigestReceived(remote) => self.handle_digest(remote, sink),
            Input::TrustRootProposed { root, scope, basis, grade } => self.handle_propose(root, scope, basis, grade, sink),
            Input::TrustRootEvent { root, scope, event } => self.handle_root_event(root, scope, event, sink),
            Input::EpochAdvanced { scope, epoch } => self.handle_epoch(scope, epoch, sink),
            Input::Tick => self.handle_tick(sink),
        }
    }
}

proof fn lemma_first_scope_prefix(views: Seq<(Seq<char>, MembershipViewV)>, subject: Seq<char>, j: int)
    requires
        0 <= j < views.len(),
        first_scope_holding(views.subrange(0, j), subject) is None,
    ensures
        map_get::<SubjectId, BeliefCellV>(views[j].1.beliefs, subject) is Some ==> first_scope_holding(views, subject) == Some(j),
        map_get::<SubjectId, BeliefCellV>(views[j].1.beliefs, subject) is None ==> first_scope_holding(views.subrange(0, j + 1), subject) is None,
    decreases views.len(),
{
    let next = views.subrange(0, j + 1);
    assert(next.drop_last() =~= views.subrange(0, j));
    assert(next.last() == views[j]);
    if map_get::<SubjectId, BeliefCellV>(views[j].1.beliefs, subject) is Some {
        assert(first_scope_holding(next, subject) == Some(j));
        lemma_first_scope_extend(views, subject, j + 1);
    }
}

proof fn lemma_first_scope_extend(views: Seq<(Seq<char>, MembershipViewV)>, subject: Seq<char>, n: int)
    requires
        0 <= n <= views.len(),
        first_scope_holding(views.subrange(0, n), subject) is Some,
    ensures
        first_scope_holding(views, subject) == first_scope_holding(views.subrange(0, n), subject),
    decreases views.len() - n,
{
    if n < views.len() {
        let next = views.subrange(0, n + 1);
        assert(next.drop_last() =~= views.subrange(0, n));
        lemma_first_scope_extend(views, subject, n + 1);
    } else {
        assert(views.subrange(0, n) =~= views);
    }
}

// ---------------------------------------------------------------------------
// Replay
// ---------------------------------------------------------------------------

impl Input {
    pub fn duplicate(&self) -> (r: Self)
        ensures
            r@ == self@,
    {
        match self {
            Input::Introduce(c) => Input::Introduce(c.duplicate()),
            Input::WitnessRecordReceived(r) => Input::WitnessRecordReceived(r.duplicate()),
            Input::CorroborationAssessed { scope, subject, records, confidence } => Input::CorroborationAssessed {
                scope: scope.duplicate(),
                subject: subject.duplicate(),
                records: records.duplicate(),
                confidence: *confidence,
            },
            Input::RemovalAssessed { scope, subject, basis } => Input::RemovalAssessed {
                scope: scope.duplicate(),
                subject: subject.duplicate(),
                basis: *basis,
            },
            Input::QuarantineAssessed { scope, subject, reason } => Input::QuarantineAssessed {
                scope: scope.duplicate(),
                subject: subject.duplicate(),
                reason: *reason,
            },
            Input::QuarantineReleaseAssessed { scope, subject, fresh } => Input::QuarantineReleaseAssessed {
                scope: scope.duplicate(),
                subject: subject.duplicate(),
                fresh: fresh.duplicate(),
            },
            Input::Override(op) => Input::Override(op.duplicate()),
            Input::RequestWitnessSelection { domain, scope, subject, pool, excluded, take } => {
                let mut p: Vec<PeerId> = Vec::new();
                let mut i: usize = 0;
                while i < pool.len()
                    invariant
                        i <= pool@.len(),
                        p@.len() == i,
                        forall|j: int| 0 <= j < i ==> (#[trigger] p@[j])@ == pool@[j]@,
                    decreases pool@.len() - i,
                {
                    p.push(pool[i].duplicate());
                    i = i + 1;
                }
                let mut x: Vec<(PeerId, ExclusionReason)> = Vec::new();
                let mut k: usize = 0;
                while k < excluded.len()
                    invariant
                        k <= excluded@.len(),
                        x@.len() == k,
                        forall|j: int|
                            0 <= j < k ==> (#[trigger] x@[j]).0@ == excluded@[j].0@ && x@[j].1@
                                == excluded@[j].1@,
                    decreases excluded@.len() - k,
                {
                    x.push((excluded[k].0.duplicate(), excluded[k].1.duplicate()));
                    k = k + 1;
                }
                assert(peer_views(p@) =~= peer_views(pool@));
                assert(exclusion_views(x@) =~= exclusion_views(excluded@));
                Input::RequestWitnessSelection {
                    domain: *domain,
                    scope: scope.duplicate(),
                    subject: match subject {
                        Some(s) => Some(s.duplicate()),
                        None => None,
                    },
                    pool: p,
                    excluded: x,
                    take: *take,
                }
            },
            Input::ReunionRequested { scope, round, subjects, side_a, side_b, operator_override } => {
                let mut v: Vec<SubjectId> = Vec::new();
                let mut i: usize = 0;
                while i < subjects.len()
                    invariant
                        i <= subjects@.len(),
                        v@.len() == i,
                        forall|j: int| 0 <= j < i ==> (#[trigger] v@[j])@ == subjects@[j]@,
                    decreases subjects@.len() - i,
                {
                    v.push(subjects[i].duplicate());
                    i = i + 1;
                }
                assert(subject_views(v@) =~= subject_views(subjects@));
                Input::ReunionRequested {
                    scope: scope.duplicate(),
                    round: *round,
                    subjects: v,
                    side_a: side_a.duplicate(),
                    side_b: side_b.duplicate(),
                    operator_override: match operator_override {
                        Some(o) => Some(o.duplicate()),
                        None => None,
                    },
                }
            },
            Input::DigestReceived(d) => Input::DigestReceived(d.duplicate()),
            Input::TrustRootProposed { root, scope, basis, grade } => Input::TrustRootProposed {
                root: root.duplicate(),
                scope: scope.duplicate(),
                basis: basis.duplicate(),
                grade: *grade,
            },
            Input::TrustRootEvent { root, scope, event } => Input::TrustRootEvent {
                root: root.duplicate(),
                scope: scope.duplicate(),
                event: event.duplicate(),
            },
            Input::EpochAdvanced { scope, epoch } => Input::EpochAdvanced {
                scope: scope.duplicate(),
                epoch: *epoch,
            },
            Input::Tick => Input::Tick,
        }
    }
}

impl Clone for Input {
    fn clone(&self) -> (r: Self)
        ensures
            r@ == self@,
    {
        self.duplicate()
    }
}

pub open spec fn input_views(inputs: Seq<Input>) -> Seq<InputV> {
    inputs.map_values(|i: Input| i@)
}

/// Running inputs in order: the final state and every transcript event.
pub open spec fn run_inputs(k: KernelV, inputs: Seq<InputV>) -> (KernelV, Seq<TranscriptEventV>)
    decreases inputs.len(),
{
    if inputs.len() == 0 {
        (k, Seq::empty())
    } else {
        let (k1, e1) = run_inputs(k, inputs.drop_last());
        let (k2, _, e2) = kernel_step(k1, inputs.last());
        (k2, e1 + e2)
    }
}

/// A step keeps the policy and advances the round by at most one.
proof fn lemma_step_keeps_policy(k: KernelV, input: InputV)
    ensures
        kernel_step(k, input).0.policy == k.policy,
        kernel_step(k, input).0.round.0 <= k.round.0 + 1,
{
    reveal(kernel_step);
}

proof fn lemma_run_keeps_policy(k: KernelV, inputs: Seq<InputV>)
    ensures
        run_inputs(k, inputs).0.policy == k.policy,
        run_inputs(k, inputs).0.round.0 <= k.round.0 + inputs.len(),
    decreases inputs.len(),
{
    if inputs.len() > 0 {
        lemma_run_keeps_policy(k, inputs.drop_last());
        lemma_step_keeps_policy(run_inputs(k, inputs.drop_last()).0, inputs.last());
    }
}

/// Where a replay diverged from the recorded transcript.
#[derive(Debug, Clone, Copy, PartialEq, Eq, Structural)]
pub enum ReplayDivergence {
    Length { expected: usize, got: usize },
    Event { seq: u64 },
}

pub open spec fn divergence_text(d: ReplayDivergence) -> Seq<char> {
    match d {
        ReplayDivergence::Length { expected, got } => "replay produced "@ + crate::text::decimal(
            got as nat,
        ) + " events, transcript has "@ + crate::text::decimal(expected as nat),
        ReplayDivergence::Event { seq } => "first divergence at transcript seq "@
            + crate::text::decimal(seq as nat),
    }
}

impl ReplayDivergence {
    /// The human-readable divergence message.
    pub fn describe(&self) -> (r: String)
        ensures
            r@ == divergence_text(*self),
    {
        match self {
            ReplayDivergence::Length { expected, got } => {
                let mut out = crate::text::string_of("replay produced ");
                crate::text::push_decimal(&mut out, *got as u64);
                vstd::string::StringExecFns::append(&mut out, " events, transcript has ");
                crate::text::push_decimal(&mut out, *expected as u64);
                out
            },
            ReplayDivergence::Event { seq } => {
                let mut out = crate::text::string_of("first divergence at transcript seq ");
                crate::text::push_decimal(&mut out, *seq);
                out
            },
        }
    }
}

/// The first position where two chains' digests differ.
pub open spec fn first_digest_difference(fresh: Seq<SealedEventV>, recorded: Seq<SealedEventV>, i: nat) -> Option<int>
    decreases fresh.len() - i,
{
    if i >= fresh.len() || i >= recorded.len() {
        None
    } else if fresh[i as int].digest != recorded[i as int].digest {
        Some(i as int)
    } else {
        first_digest_difference(fresh, recorded, i + 1)
    }
}

/// What replaying `inputs` from a fresh kernel answers about `recorded`.
pub open spec fn spec_verify_replay(policy: PolicyBundle, inputs: Seq<InputV>, recorded: Seq<SealedEventV>) -> Result<(), ReplayDivergence> {
    let fresh = seal_chain(run_inputs(fresh_kernel(policy), inputs).1);
    if fresh.len() != recorded.len() {
        Err(ReplayDivergence::Length { expected: recorded.len() as usize, got: fresh.len() as usize })
    } else {
        match first_digest_difference(fresh, recorded, 0) {
            Some(i) => Err(ReplayDivergence::Event { seq: recorded[i].seq }),
            None => Ok(()),
        }
    }
}

/// The transcript a fresh kernel records for `inputs`.
fn replay_transcript(policy: PolicyBundle, inputs: &[Input]) -> (t: Transcript)
    requires
        merge_policy_bounded(policy.merge),
        inputs@.len() < u64::MAX,
    ensures
        t@ == seal_chain(run_inputs(fresh_kernel(policy), input_views(inputs@)).1),
{
    let ghost iv = input_views(inputs@);
    let mut kernel = Kernel::new(policy);
    let mut fresh = Transcript::new();
    proof {
        assert(crate::transcript::chain_events(fresh@) =~= Seq::<TranscriptEventV>::empty());
    }
    let mut i: usize = 0;
    while i < inputs.len()
        invariant
            i <= inputs@.len(),
            iv == input_views(inputs@),
            inputs@.len() < u64::MAX,
            merge_policy_bounded(policy.merge),
            kernel.model() == run_inputs(fresh_kernel(policy), iv.subrange(0, i as int)).0,
            crate::transcript::chain_events(fresh@) == run_inputs(
                fresh_kernel(policy),
                iv.subrange(0, i as int),
            ).1,
            crate::transcript::chain_valid(fresh@),
        decreases inputs@.len() - i,
    {
        let input = inputs[i].duplicate();
        proof {
            let prefix = iv.subrange(0, i as int);
            lemma_run_keeps_policy(fresh_kernel(policy), prefix);
            let next = iv.subrange(0, i + 1);
            assert(next.drop_last() =~= prefix);
            assert(next.last() == input@);
        }
        let _effects = kernel.handle(input, &mut fresh);
        i = i + 1;
    }
    proof {
        assert(iv.subrange(0, i as int) =~= iv);
        crate::transcript::lemma_valid_chain_is_sealed(fresh@);
    }
    fresh
}

/// Re-run a recorded input sequence on a fresh kernel and require the
/// transcript chain to match digest for digest. Because the kernel is
/// deterministic, a verified transcript is the decision history, not a
/// story about it.
pub fn verify_replay(policy: PolicyBundle, inputs: &[Input], recorded: &Transcript) -> (r: Result<(), ReplayDivergence>)
    requires
        merge_policy_bounded(policy.merge),
        inputs@.len() < u64::MAX,
    ensures
        r == spec_verify_replay(policy, input_views(inputs@), recorded@),
{
    let fresh = replay_transcript(policy, inputs);
    if fresh.len() != recorded.len() {
        return Err(ReplayDivergence::Length { expected: recorded.len(), got: fresh.len() });
    }
    let a = fresh.events();
    let b = recorded.events();
    proof {
        assert(a@.map_values(|e: SealedEvent| e@) == fresh@);
        assert(b@.map_values(|e: SealedEvent| e@) == recorded@);
        assert(a@.len() == fresh@.len());
        assert(b@.len() == recorded@.len());
    }
    first_event_divergence(a, b)
}

/// The first sealed event whose digest differs, as a divergence.
fn first_event_divergence(a: &[SealedEvent], b: &[SealedEvent]) -> (r: Result<(), ReplayDivergence>)
    requires
        a@.len() == b@.len(),
    ensures
        ({
            let fv = a@.map_values(|e: SealedEvent| e@);
            let rv = b@.map_values(|e: SealedEvent| e@);
            match first_digest_difference(fv, rv, 0) {
                Some(i) => r == Err::<(), ReplayDivergence>(ReplayDivergence::Event { seq: rv[i].seq }),
                None => r == Ok::<(), ReplayDivergence>(()),
            }
        }),
{
    let ghost fv = a@.map_values(|e: SealedEvent| e@);
    let ghost rv = b@.map_values(|e: SealedEvent| e@);
    let mut k: usize = 0;
    while k < a.len()
        invariant
            k <= a@.len(),
            a@.len() == b@.len(),
            fv == a@.map_values(|e: SealedEvent| e@),
            rv == b@.map_values(|e: SealedEvent| e@),
            first_digest_difference(fv, rv, 0) == first_digest_difference(fv, rv, k as nat),
        decreases a@.len() - k,
    {
        assert(fv[k as int] == a@[k as int]@);
        assert(rv[k as int] == b@[k as int]@);
        if !crate::order::bytes_equal(a[k].digest.as_slice(), b[k].digest.as_slice()) {
            return Err(ReplayDivergence::Event { seq: b[k].seq });
        }
        k = k + 1;
    }
    Ok(())
}

/// A reunion's replacements are transcripted, in order: the entry at
/// position `j` notes the new residue and the id it superseded.
pub proof fn lemma_replacements_are_transcripted(rs: Seq<(ResidueV, ResidueId)>, scope: Seq<char>, j: int)
    requires
        0 <= j < rs.len(),
    ensures
        replaced_events(rs, scope).len() == rs.len(),
        replaced_events(rs, scope)[j] == (TranscriptEventV::ResiduePreserved {
            scope,
            subject: rs[j].0.key.1,
            residue: rs[j].0.id,
            superseded: Some(rs[j].1),
            handled_by_override: rs[j].0.handled_by is Some,
        }),
    decreases rs.len(),
{
    lemma_replaced_events_len(rs, scope);
    if j < rs.len() - 1 {
        lemma_replacements_are_transcripted(rs.drop_last(), scope, j);
    }
}

proof fn lemma_replaced_events_len(rs: Seq<(ResidueV, ResidueId)>, scope: Seq<char>)
    ensures
        replaced_events(rs, scope).len() == rs.len(),
    decreases rs.len(),
{
    if rs.len() > 0 {
        lemma_replaced_events_len(rs.drop_last(), scope);
    }
}

/// Trust-root proposals, root moves (refused ones too) and digest
/// comparisons are decisions, and each seals exactly one transcript event
/// describing it.
pub proof fn lemma_root_and_digest_decisions_are_sealed(k: KernelV, input: InputV)
    requires
        input is TrustRootProposed || input is TrustRootEvent || input is DigestReceived,
    ensures
        kernel_step(k, input).2.len() == 1,
        input is TrustRootProposed ==> kernel_step(k, input).2[0] is TrustRootProposed,
        input is TrustRootEvent ==> (kernel_step(k, input).2[0] is TrustRootChanged
            || kernel_step(k, input).2[0] is TrustRootRefused),
        input is DigestReceived ==> kernel_step(k, input).2[0] is DigestCompared,
{
    reveal(kernel_step);
    match input {
        InputV::TrustRootProposed { root, scope, basis, grade } => {
            assert(kernel_step(k, input) == propose_step(k, root, scope, basis, grade));
        },
        InputV::TrustRootEvent { root, scope, event } => {
            assert(kernel_step(k, input) == root_event_step(k, root, scope, event));
        },
        InputV::DigestReceived(remote) => {
            assert(kernel_step(k, input) == digest_step(k, remote));
        },
        _ => {},
    }
}

/// Every operator override is sealed in the transcript, applied or not: its
/// first event names the override and the state it forces. An override
/// for a subject no view holds is refused visibly and changes nothing.
pub proof fn lemma_every_override_is_sealed(k: KernelV, op: OperatorOverrideV)
    ensures
        kernel_step(k, InputV::Override(op)).2.len() >= 1,
        first_scope_holding(k.views, op.subject) is None ==> {
            &&& kernel_step(k, InputV::Override(op)).0 == k
            &&& kernel_step(k, InputV::Override(op)).1.len() == 0
            &&& kernel_step(k, InputV::Override(op)).2 == seq![
                TranscriptEventV::OverrideRefused {
                    subject: op.subject,
                    override_id: spec_override_id(op),
                    forced: op.forced,
                },
            ]
        },
        first_scope_holding(k.views, op.subject) is Some ==> kernel_step(k, InputV::Override(op)).2[0]
            == (TranscriptEventV::OverrideApplied {
            scope: k.views[first_scope_holding(k.views, op.subject)->0].0,
            subject: op.subject,
            override_id: spec_override_id(op),
            forced: op.forced,
        }),
{
    reveal(kernel_step);
    assert(kernel_step(k, InputV::Override(op)) == override_step(k, op));
}

/// A transcript recorded by running inputs on a fresh kernel replays: the
/// same inputs reproduce the same chain, digest for digest.
pub proof fn lemma_recorded_run_replays(policy: PolicyBundle, inputs: Seq<InputV>)
    ensures
        spec_verify_replay(policy, inputs, seal_chain(run_inputs(fresh_kernel(policy), inputs).1))
            == Ok::<(), ReplayDivergence>(()),
{
    let chain = seal_chain(run_inputs(fresh_kernel(policy), inputs).1);
    lemma_no_digest_difference(chain, 0);
}

proof fn lemma_no_digest_difference(chain: Seq<SealedEventV>, i: nat)
    ensures
        first_digest_difference(chain, chain, i) is None,
    decreases chain.len() - i,
{
    if i < chain.len() {
        lemma_no_digest_difference(chain, i + 1);
    }
}

} // verus!
