//! One cell of scoped belief: state + evidence + hysteresis + history.

use crate::belief::state::{
    event_kind, spec_transition, state_name, transition, BeliefEvent, BeliefEventV, BeliefState,
    EventKind, InvalidTransition,
};
use crate::collections::{set_insert, SortedSet};
use crate::epoch::{Epoch, Round};
use crate::evidence::Stance;
use crate::id::WitnessRecordId;
use crate::policy::PolicyBundle;
use crate::text::{decimal, push_decimal};
use crate::trust::Confidence;
use crate::util::NonEmpty;
use vstd::prelude::*;
use vstd::string::StringExecFns;

verus! {

/// A recorded state change: the from/to pair plus the evidence-carrying
/// event that caused it and when it happened.
#[derive(Debug)]
pub struct Transition {
    pub from: BeliefState,
    pub to: BeliefState,
    pub event: BeliefEvent,
    pub at: (Epoch, Round),
}

pub struct TransitionV {
    pub from: BeliefState,
    pub to: BeliefState,
    pub event: BeliefEventV,
    pub at: (Epoch, Round),
}

impl View for Transition {
    type V = TransitionV;

    open spec fn view(&self) -> TransitionV {
        TransitionV { from: self.from, to: self.to, event: self.event@, at: self.at }
    }
}

impl Clone for Transition {
    fn clone(&self) -> (r: Self)
        ensures
            r@ == self@,
    {
        self.duplicate()
    }
}

impl Transition {
    pub fn duplicate(&self) -> (r: Self)
        ensures
            r@ == self@,
    {
        Transition { from: self.from, to: self.to, event: self.event.duplicate(), at: self.at }
    }
}

/// Why an event was not applied.
#[derive(Debug, Clone, Copy, PartialEq, Eq, Structural)]
pub enum TransitionError {
    Invalid(InvalidTransition),
    /// Strengthening refused because the state is too young.
    HysteresisHold { state: BeliefState, held_rounds: u64, required_rounds: u64 },
    EpochNotNewer { current: Epoch, offered: Epoch },
}

pub open spec fn event_kind_name(k: EventKind) -> Seq<char> {
    match k {
        EventKind::Introduced => "Introduced"@,
        EventKind::WitnessRecorded => "WitnessRecorded"@,
        EventKind::CorroborationReached => "CorroborationReached"@,
        EventKind::ConfidenceNarrowed => "ConfidenceNarrowed"@,
        EventKind::SuspicionRaised => "SuspicionRaised"@,
        EventKind::ConflictDetected => "ConflictDetected"@,
        EventKind::Revoked => "Revoked"@,
        EventKind::QuarantineImposed => "QuarantineImposed"@,
        EventKind::QuarantineReleased => "QuarantineReleased"@,
        EventKind::RemovalDecided => "RemovalDecided"@,
        EventKind::Reintroduced => "Reintroduced"@,
        EventKind::EpochReset => "EpochReset"@,
        EventKind::MergeProjected => "MergeProjected"@,
        EventKind::OverrideApplied => "OverrideApplied"@,
    }
}

impl EventKind {
    pub fn name(self) -> (r: &'static str)
        ensures
            r@ == event_kind_name(self),
    {
        match self {
            EventKind::Introduced => "Introduced",
            EventKind::WitnessRecorded => "WitnessRecorded",
            EventKind::CorroborationReached => "CorroborationReached",
            EventKind::ConfidenceNarrowed => "ConfidenceNarrowed",
            EventKind::SuspicionRaised => "SuspicionRaised",
            EventKind::ConflictDetected => "ConflictDetected",
            EventKind::Revoked => "Revoked",
            EventKind::QuarantineImposed => "QuarantineImposed",
            EventKind::QuarantineReleased => "QuarantineReleased",
            EventKind::RemovalDecided => "RemovalDecided",
            EventKind::Reintroduced => "Reintroduced",
            EventKind::EpochReset => "EpochReset",
            EventKind::MergeProjected => "MergeProjected",
            EventKind::OverrideApplied => "OverrideApplied",
        }
    }
}

/// The human-readable refusal reason recorded in transcripts.
pub open spec fn error_text(e: TransitionError) -> Seq<char> {
    match e {
        TransitionError::Invalid(inv) => "invalid transition: "@ + state_name(inv.from)
            + " does not accept "@ + event_kind_name(inv.event),
        TransitionError::HysteresisHold { state, held_rounds, required_rounds } => "hysteresis hold in "@
            + state_name(state) + ": held "@ + decimal(held_rounds as nat) + " of "@ + decimal(
            required_rounds as nat,
        ) + " rounds"@,
        TransitionError::EpochNotNewer { current, offered } =>
            "epoch reset requires a strictly newer epoch: current e"@ + decimal(current.0 as nat)
            + ", offered e"@ + decimal(offered.0 as nat),
    }
}

impl TransitionError {
    pub fn describe(&self) -> (r: String)
        ensures
            r@ == error_text(*self),
    {
        let mut out = String::new();
        match self {
            TransitionError::Invalid(inv) => {
                out.append("invalid transition: ");
                out.append(inv.from.as_str());
                out.append(" does not accept ");
                out.append(inv.event.name());
            },
            TransitionError::HysteresisHold { state, held_rounds, required_rounds } => {
                out.append("hysteresis hold in ");
                out.append(state.as_str());
                out.append(": held ");
                push_decimal(&mut out, *held_rounds);
                out.append(" of ");
                push_decimal(&mut out, *required_rounds);
                out.append(" rounds");
            },
            TransitionError::EpochNotNewer { current, offered } => {
                out.append("epoch reset requires a strictly newer epoch: current e");
                push_decimal(&mut out, current.0);
                out.append(", offered e");
                push_decimal(&mut out, offered.0);
            },
        }
        assert(out@ =~= error_text(*self));
        out
    }
}

/// Scoped belief about one subject. The only mutator is `apply`, which
/// runs the canonical transition table plus the hysteresis gate.
#[derive(Debug, Clone)]
pub struct BeliefCell {
    state: BeliefState,
    since_round: Round,
    epoch: Epoch,
    confidence: Confidence,
    supporting: SortedSet<WitnessRecordId>,
    opposing: SortedSet<WitnessRecordId>,
    history: Vec<Transition>,
}

pub struct BeliefCellV {
    pub state: BeliefState,
    pub since_round: Round,
    pub epoch: Epoch,
    pub confidence: Confidence,
    pub supporting: Seq<WitnessRecordId>,
    pub opposing: Seq<WitnessRecordId>,
    pub history: Seq<TransitionV>,
}

impl View for BeliefCell {
    type V = BeliefCellV;

    closed spec fn view(&self) -> BeliefCellV {
        BeliefCellV {
            state: self.state,
            since_round: self.since_round,
            epoch: self.epoch,
            confidence: self.confidence,
            supporting: self.supporting@,
            opposing: self.opposing@,
            history: self.history@.map_values(|t: Transition| t@),
        }
    }
}

/// A fresh cell: unknown, collapsed confidence, no evidence, no history.
pub open spec fn fresh_cell(at: (Epoch, Round)) -> BeliefCellV {
    BeliefCellV {
        state: BeliefState::Unknown,
        since_round: at.1,
        epoch: at.0,
        confidence: Confidence::Collapsed,
        supporting: Seq::empty(),
        opposing: Seq::empty(),
        history: Seq::empty(),
    }
}

/// Insert every record id, in order, into a sorted id set.
pub open spec fn insert_all(s: Seq<WitnessRecordId>, records: Seq<WitnessRecordId>) -> Seq<WitnessRecordId>
    decreases records.len(),
{
    if records.len() == 0 {
        s
    } else {
        set_insert::<WitnessRecordId>(insert_all(s, records.drop_last()), records.last())
    }
}

/// A witness record absorbed as evidence: corroboration supports, every
/// other stance opposes.
pub open spec fn absorb(c: BeliefCellV, record: WitnessRecordId, stance: Stance) -> BeliefCellV {
    if stance == Stance::Corroborate {
        BeliefCellV { supporting: set_insert::<WitnessRecordId>(c.supporting, record), ..c }
    } else {
        BeliefCellV { opposing: set_insert::<WitnessRecordId>(c.opposing, record), ..c }
    }
}

/// Evidence an applied event carries into the record sets.
pub open spec fn absorb_event(c: BeliefCellV, e: BeliefEventV) -> BeliefCellV {
    match e {
        BeliefEventV::WitnessRecorded { record, stance } => absorb(c, record, stance),
        BeliefEventV::CorroborationReached { records, .. } => BeliefCellV {
            supporting: insert_all(c.supporting, records),
            ..c
        },
        BeliefEventV::QuarantineReleased { fresh } => BeliefCellV {
            supporting: insert_all(c.supporting, fresh),
            ..c
        },
        BeliefEventV::ConflictDetected { opposing } => BeliefCellV {
            opposing: insert_all(c.opposing, opposing),
            ..c
        },
        _ => c,
    }
}

/// Confidence after an applied event.
pub open spec fn next_confidence(current: Confidence, e: BeliefEventV) -> Confidence {
    match e {
        BeliefEventV::CorroborationReached { confidence, .. } => confidence,
        BeliefEventV::ConfidenceNarrowed { .. } => Confidence::Bounded,
        BeliefEventV::SuspicionRaised { .. } => Confidence::Low,
        BeliefEventV::ConflictDetected { .. } => Confidence::Collapsed,
        BeliefEventV::Revoked(_) => Confidence::Collapsed,
        BeliefEventV::QuarantineImposed { .. } => Confidence::Collapsed,
        BeliefEventV::QuarantineReleased { .. } => Confidence::Low,
        _ => current,
    }
}

/// Rounds a strengthening event must wait, if it is one: strengthening is
/// slow, weakening is immediate.
pub open spec fn required_hold(e: BeliefEventV, policy: PolicyBundle) -> Option<u64> {
    match event_kind(e) {
        EventKind::CorroborationReached => Some(policy.strengthen_hysteresis_rounds),
        EventKind::QuarantineReleased => Some(policy.quarantine_release_rounds),
        _ => None,
    }
}

pub open spec fn held_rounds(c: BeliefCellV, at: (Epoch, Round)) -> u64 {
    if at.1.0 >= c.since_round.0 {
        (at.1.0 - c.since_round.0) as u64
    } else {
        0
    }
}

/// The cell after an accepted transition to `to`.
pub open spec fn transitioned(c: BeliefCellV, e: BeliefEventV, to: BeliefState, at: (Epoch, Round)) -> BeliefCellV {
    let absorbed = absorb_event(c, e);
    let later = if at.0.0 >= c.epoch.0 { at.0 } else { c.epoch };
    let base = BeliefCellV {
        state: to,
        since_round: at.1,
        epoch: later,
        confidence: next_confidence(c.confidence, e),
        history: c.history.push(TransitionV { from: c.state, to, event: e, at }),
        ..absorbed
    };
    match e {
        BeliefEventV::EpochReset { new_epoch } => BeliefCellV {
            epoch: new_epoch,
            supporting: Seq::empty(),
            opposing: Seq::empty(),
            ..base
        },
        _ => base,
    }
}

/// What `apply` does: the next cell and the outcome. `Ok(Some(_))` is a
/// state change, `Ok(None)` means the evidence was absorbed without a
/// transition (or a merge/override confirmed the current state).
pub open spec fn apply_step(c: BeliefCellV, e: BeliefEventV, at: (Epoch, Round), policy: PolicyBundle) -> (BeliefCellV, Result<Option<TransitionV>, TransitionError>) {
    match e {
        BeliefEventV::WitnessRecorded { record, stance } if c.state != BeliefState::Introduced => {
            if c.state == BeliefState::Unknown || c.state == BeliefState::Removed {
                (
                    c,
                    Err(
                        TransitionError::Invalid(
                            InvalidTransition { from: c.state, event: EventKind::WitnessRecorded },
                        ),
                    ),
                )
            } else {
                (absorb(c, record, stance), Ok(None))
            }
        },
        BeliefEventV::MergeProjected { to, .. } if to == c.state => (c, Ok(None)),
        BeliefEventV::OverrideApplied { to, .. } if to == c.state => (c, Ok(None)),
        BeliefEventV::EpochReset { new_epoch } if new_epoch.0 <= c.epoch.0 => (
            c,
            Err(TransitionError::EpochNotNewer { current: c.epoch, offered: new_epoch }),
        ),
        _ => match spec_transition(c.state, e) {
            Err(inv) => (c, Err(TransitionError::Invalid(inv))),
            Ok(to) => match required_hold(e, policy) {
                Some(req) if held_rounds(c, at) < req => (
                    c,
                    Err(
                        TransitionError::HysteresisHold {
                            state: c.state,
                            held_rounds: held_rounds(c, at),
                            required_rounds: req,
                        },
                    ),
                ),
                _ => (
                    transitioned(c, e, to, at),
                    Ok(Some(TransitionV { from: c.state, to, event: e, at })),
                ),
            },
        },
    }
}

impl BeliefCell {
    pub fn new(at: (Epoch, Round)) -> (r: Self)
        ensures
            r@ == fresh_cell(at),
    {
        let r = BeliefCell {
            state: BeliefState::Unknown,
            since_round: at.1,
            epoch: at.0,
            confidence: Confidence::Collapsed,
            supporting: SortedSet::new(),
            opposing: SortedSet::new(),
            history: Vec::new(),
        };
        assert(r@.history =~= Seq::<TransitionV>::empty());
        r
    }

    pub fn state(&self) -> (r: BeliefState)
        ensures
            r == self@.state,
    {
        self.state
    }

    pub fn epoch(&self) -> (r: Epoch)
        ensures
            r == self@.epoch,
    {
        self.epoch
    }

    pub fn confidence(&self) -> (r: Confidence)
        ensures
            r == self@.confidence,
    {
        self.confidence
    }

    pub fn since_round(&self) -> (r: Round)
        ensures
            r == self@.since_round,
    {
        self.since_round
    }

    pub fn history(&self) -> (r: &Vec<Transition>)
        ensures
            r@.map_values(|t: Transition| t@) == self@.history,
    {
        &self.history
    }

    pub fn supporting(&self) -> (r: &SortedSet<WitnessRecordId>)
        ensures
            r@ == self@.supporting,
    {
        &self.supporting
    }

    pub fn opposing(&self) -> (r: &SortedSet<WitnessRecordId>)
        ensures
            r@ == self@.opposing,
    {
        &self.opposing
    }

    fn absorb_record(&mut self, record: WitnessRecordId, stance: Stance)
        ensures
            final(self)@ == absorb(old(self)@, record, stance),
    {
        match stance {
            Stance::Corroborate => {
                self.supporting.insert(record);
            },
            _ => {
                self.opposing.insert(record);
            },
        }
    }

    fn absorb_all(set: &mut SortedSet<WitnessRecordId>, records: &NonEmpty<WitnessRecordId>)
        ensures
            final(set)@ == insert_all(old(set)@, records@),
    {
        let ghost start = set@;
        let last = records.last_index();
        let mut i: usize = 0;
        loop
            invariant_except_break
                set@ == insert_all(start, records@.subrange(0, i as int)),
            invariant
                last + 1 == records@.len(),
                i <= last,
            ensures
                set@ == insert_all(start, records@),
            decreases last - i,
        {
            set.insert(*records.at(i));
            proof {
                let next = records@.subrange(0, i + 1);
                assert(next.drop_last() =~= records@.subrange(0, i as int));
                assert(next.last() == records@[i as int]);
                assert(set@ == insert_all(start, next));
                if i == last {
                    assert(next =~= records@);
                }
            }
            if i == last {
                break;
            }
            i = i + 1;
        }
    }

    /// Apply an event: the canonical table, the hysteresis gate, evidence
    /// absorption, and the history record, exactly as `apply_step` states.
    pub fn apply(&mut self, event: BeliefEvent, at: (Epoch, Round), policy: &PolicyBundle) -> (r: Result<Option<Transition>, TransitionError>)
        ensures
            final(self)@ == apply_step(old(self)@, event@, at, *policy).0,
            match (r, apply_step(old(self)@, event@, at, *policy).1) {
                (Ok(Some(t)), Ok(Some(tv))) => t@ == tv,
                (Ok(None), Ok(None)) => true,
                (Err(e), Err(ev)) => e == ev,
                _ => false,
            },
    {
        let ghost c = self@;
        let ghost ev = event@;
        // Evidence absorption without transition.
        match &event {
            BeliefEvent::WitnessRecorded { record, stance } => {
                if self.state != BeliefState::Introduced {
                    if self.state == BeliefState::Unknown || self.state == BeliefState::Removed {
                        return Err(
                            TransitionError::Invalid(
                                InvalidTransition {
                                    from: self.state,
                                    event: EventKind::WitnessRecorded,
                                },
                            ),
                        );
                    }
                    self.absorb_record(*record, *stance);
                    return Ok(None);
                }
            },
            BeliefEvent::MergeProjected { to, .. } => {
                if *to == self.state {
                    return Ok(None);
                }
            },
            BeliefEvent::OverrideApplied { to, .. } => {
                if *to == self.state {
                    return Ok(None);
                }
            },
            BeliefEvent::EpochReset { new_epoch } => {
                if new_epoch.0 <= self.epoch.0 {
                    return Err(
                        TransitionError::EpochNotNewer { current: self.epoch, offered: *new_epoch },
                    );
                }
            },
            _ => {},
        }
        let to = match transition(self.state, &event) {
            Ok(to) => to,
            Err(inv) => {
                return Err(TransitionError::Invalid(inv));
            },
        };

        // Hysteresis: strengthening is slow, weakening is immediate.
        let required = match event.kind() {
            EventKind::CorroborationReached => Some(policy.strengthen_hysteresis_rounds),
            EventKind::QuarantineReleased => Some(policy.quarantine_release_rounds),
            _ => None,
        };
        if let Some(required_rounds) = required {
            let held = if at.1.0 >= self.since_round.0 {
                at.1.0 - self.since_round.0
            } else {
                0
            };
            if held < required_rounds {
                return Err(
                    TransitionError::HysteresisHold {
                        state: self.state,
                        held_rounds: held,
                        required_rounds,
                    },
                );
            }
        }

        // Absorb the event's evidence into the record sets.
        match &event {
            BeliefEvent::WitnessRecorded { record, stance } => self.absorb_record(*record, *stance),
            BeliefEvent::CorroborationReached { records, .. } => {
                Self::absorb_all(&mut self.supporting, records);
            },
            BeliefEvent::QuarantineReleased { fresh } => {
                Self::absorb_all(&mut self.supporting, fresh);
            },
            BeliefEvent::ConflictDetected { opposing } => {
                Self::absorb_all(&mut self.opposing, opposing);
            },
            _ => {},
        }

        self.confidence = match &event {
            BeliefEvent::CorroborationReached { confidence, .. } => *confidence,
            BeliefEvent::ConfidenceNarrowed { .. } => Confidence::Bounded,
            BeliefEvent::SuspicionRaised { .. } => Confidence::Low,
            BeliefEvent::ConflictDetected { .. } => Confidence::Collapsed,
            BeliefEvent::Revoked(_) => Confidence::Collapsed,
            BeliefEvent::QuarantineImposed { .. } => Confidence::Collapsed,
            BeliefEvent::QuarantineReleased { .. } => Confidence::Low,
            _ => self.confidence,
        };

        let from = self.state;
        self.state = to;
        self.since_round = at.1;
        if at.0.0 >= self.epoch.0 {
            self.epoch = at.0;
        }
        if let BeliefEvent::EpochReset { new_epoch } = &event {
            self.epoch = *new_epoch;
            self.supporting.clear();
            self.opposing.clear();
        }
        let recorded = Transition { from, to, event, at };
        let ghost hist = self.history@;
        self.history.push(recorded.duplicate());
        assert(self.history@.map_values(|t: Transition| t@) =~= hist.map_values(
            |t: Transition| t@,
        ).push(recorded@));
        assert(self@ =~= apply_step(c, ev, at, *policy).0);
        Ok(Some(recorded))
    }
}

/// Releasing a quarantine and strengthening by corroboration are slow: an
/// event of either kind that the transition table admits is refused with a
/// hysteresis hold, and the cell is left untouched, while the cell has held
/// its state for fewer rounds than the policy's quarantine-release hold
/// (for a release) or strengthening hold (for corroboration); once it has
/// held that long, the move is made.
pub proof fn lemma_strengthening_waits_for_its_hold(
    c: BeliefCellV,
    e: BeliefEventV,
    at: (Epoch, Round),
    policy: PolicyBundle,
)
    requires
        e is QuarantineReleased || e is CorroborationReached,
        spec_transition(c.state, e) is Ok,
    ensures
        ({
            let required = if e is QuarantineReleased {
                policy.quarantine_release_rounds
            } else {
                policy.strengthen_hysteresis_rounds
            };
            let held: int = if at.1.0 >= c.since_round.0 { at.1.0 - c.since_round.0 } else { 0 };
            &&& held < required ==> apply_step(c, e, at, policy) == (
                c,
                Err::<Option<TransitionV>, TransitionError>(
                    TransitionError::HysteresisHold {
                        state: c.state,
                        held_rounds: held as u64,
                        required_rounds: required,
                    },
                ),
            )
            &&& held >= required ==> {
                &&& apply_step(c, e, at, policy).1 == Ok::<Option<TransitionV>, TransitionError>(
                    Some(TransitionV { from: c.state, to: spec_transition(c.state, e)->Ok_0, event: e, at }),
                )
                &&& apply_step(c, e, at, policy).0.state == spec_transition(c.state, e)->Ok_0
            }
        }),
{
}

/// A quarantine is released to provisional standing only after the
/// policy's release hold: released any earlier, the cell stays quarantined
/// and the refusal names the rounds held and the rounds required.
pub proof fn lemma_quarantine_release_is_held(
    c: BeliefCellV,
    fresh: Seq<WitnessRecordId>,
    at: (Epoch, Round),
    policy: PolicyBundle,
)
    requires
        c.state == BeliefState::Quarantined,
    ensures
        ({
            let e = BeliefEventV::QuarantineReleased { fresh };
            let held: int = if at.1.0 >= c.since_round.0 { at.1.0 - c.since_round.0 } else { 0 };
            &&& held < policy.quarantine_release_rounds ==> {
                &&& apply_step(c, e, at, policy).0 == c
                &&& apply_step(c, e, at, policy).1 == Err::<Option<TransitionV>, TransitionError>(
                    TransitionError::HysteresisHold {
                        state: BeliefState::Quarantined,
                        held_rounds: held as u64,
                        required_rounds: policy.quarantine_release_rounds,
                    },
                )
            }
            &&& held >= policy.quarantine_release_rounds ==> apply_step(c, e, at, policy).0.state
                == BeliefState::Provisional
        }),
{
    let e = BeliefEventV::QuarantineReleased { fresh };
    lemma_strengthening_waits_for_its_hold(c, e, at, policy);
}

/// Weakening is immediate: suspicion, conflict, quarantine, removal and a
/// narrowing of confidence are applied as soon as the transition table
/// admits them, however briefly the cell has held its state.
pub proof fn lemma_weakening_is_immediate(
    c: BeliefCellV,
    e: BeliefEventV,
    at: (Epoch, Round),
    policy: PolicyBundle,
)
    requires
        e is SuspicionRaised || e is ConflictDetected || e is QuarantineImposed || e is RemovalDecided
            || e is ConfidenceNarrowed,
        spec_transition(c.state, e) is Ok,
    ensures
        apply_step(c, e, at, policy).1 == Ok::<Option<TransitionV>, TransitionError>(
            Some(TransitionV { from: c.state, to: spec_transition(c.state, e)->Ok_0, event: e, at }),
        ),
        apply_step(c, e, at, policy).0.state == spec_transition(c.state, e)->Ok_0,
{
}

} // verus!
