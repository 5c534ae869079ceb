//! Partition Theater: an in-process, deterministic multi-actor harness.
//!
//! Every actor is a full participant (its own `Kernel`, `Transcript`, and
//! `EvidenceBook`) and stories are scripts of protocol beats: joins,
//! witnessing, moderation, partitions, heals, overrides, expectations.
//! There is no networking and no clock; "broadcast" is a routing table
//! that honors the current partition, which makes every story replayable
//! and assertable.

use crate::belief::state::{BeliefState, QuarantineReason, RemovalBasis};
use crate::collections::SortedSet;
use crate::belief::cell::BeliefCellV;
use crate::belief::view::{MembershipView, MembershipViewV};
use crate::collections::map_get;
use crate::digest::{repair_digest_of, RepairDigest};
use crate::merge::engine::MergeSideV;
use crate::order::lex_order;
use crate::rank::hex_of;
use vstd::utf8::encode_utf8;
use crate::epoch::{Epoch, Round};
use crate::evidence::{
    mode_byte, AssertedState, Claim, ClaimV, Observation, ObservationMode, Provenance, Stance, WitnessRecord, WitnessRecordV,
};
use crate::encode::{domain_digest, framed_str, le_u64};
use crate::id::ObservationId;
use crate::operator::OperatorOverrideV;
use crate::trust::grade_of;
use crate::id::{OperatorId, PeerId, SubjectId, WitnessId, WitnessRecordId};
use crate::kernel::{kernel_step, Input, InputV, Kernel, KernelV};
use crate::lab::sim::{sim_policy, step};
use crate::operator::OperatorOverride;
use crate::policy::PolicyBundle;
use crate::scope::{ScopeAuthority, ScopeId};
use crate::text::{decimal, join_with, push_decimal, string_of, strings_view};
use crate::transcript::{chain_events, Transcript, TranscriptEventV};
use crate::trust::{Confidence, TrustGrade};
use crate::util::NonEmpty;
use crate::net::command::opt_view;
use crate::net::duties::confidence_for;
use crate::belief::state::state_name;
use crate::residue::count_unhandled;
use crate::witnessing::{
    spec_ready, claim_recorded, fragment_entry, max_round, ready_to_advance, rendezvous_jitter, rendezvous_round, witness_recorded, EvidenceBook, EvidenceBookV,
};
use vstd::prelude::*;
use vstd::string::StringExecFns;

verus! {

/// One story beat.
pub enum Step {
    /// `who` claims presence in the room, vouched by `vouched_by`.
    Join { who: String, vouched_by: String },
    /// `by` witnesses `subject` with the given observation mode.
    Witness { by: String, subject: String, mode: ObservationMode },
    /// Moderation: suspend or remove, decided by `by`'s side of the room.
    Mute { by: String, subject: String },
    Ban { by: String, subject: String },
    /// Split the room into two groups (actors not listed stay in group A).
    Partition { group_b: Vec<String> },
    /// Reconnect and run deterministic reunion on every actor.
    Heal,
    /// A visible operator override, broadcast to everyone reachable.
    Override { by: String, subject: String, to: BeliefState },
    /// Advance every actor's round clock (lets hysteresis pass).
    Ticks(u64),
    /// Assert `subject`'s state: on one actor, or on all reachable ones.
    Expect { on: Option<String>, subject: String, state: BeliefState },
    /// Assert residue counts across all actors' ledgers.
    ExpectResidue { min_unhandled: usize, min_handled: usize },
    /// Assert every actor's view digest is content-identical.
    ExpectConverged,
}

/// A story beat as plain values.
pub enum StepV {
    Join { who: Seq<char>, vouched_by: Seq<char> },
    Witness { by: Seq<char>, subject: Seq<char>, mode: ObservationMode },
    Mute { by: Seq<char>, subject: Seq<char> },
    Ban { by: Seq<char>, subject: Seq<char> },
    Partition { group_b: Seq<Seq<char>> },
    Heal,
    Override { by: Seq<char>, subject: Seq<char>, to: BeliefState },
    Ticks(u64),
    Expect { on: Option<Seq<char>>, subject: Seq<char>, state: BeliefState },
    ExpectResidue { min_unhandled: usize, min_handled: usize },
    ExpectConverged,
}

impl View for Step {
    type V = StepV;

    open spec fn view(&self) -> StepV {
        match self {
            Step::Join { who, vouched_by } => StepV::Join { who: who@, vouched_by: vouched_by@ },
            Step::Witness { by, subject, mode } => StepV::Witness { by: by@, subject: subject@, mode: *mode },
            Step::Mute { by, subject } => StepV::Mute { by: by@, subject: subject@ },
            Step::Ban { by, subject } => StepV::Ban { by: by@, subject: subject@ },
            Step::Partition { group_b } => StepV::Partition { group_b: strings_view(group_b@) },
            Step::Heal => StepV::Heal,
            Step::Override { by, subject, to } => StepV::Override { by: by@, subject: subject@, to: *to },
            Step::Ticks(n) => StepV::Ticks(*n),
            Step::Expect { on, subject, state } => StepV::Expect {
                on: opt_view(*on),
                subject: subject@,
                state: *state,
            },
            Step::ExpectResidue { min_unhandled, min_handled } => StepV::ExpectResidue {
                min_unhandled: *min_unhandled,
                min_handled: *min_handled,
            },
            Step::ExpectConverged => StepV::ExpectConverged,
        }
    }
}

/// The views of a list of story beats.
pub open spec fn step_views(steps: Seq<Step>) -> Seq<StepV> {
    steps.map_values(|x: Step| x@)
}

pub struct Story {
    pub name: String,
    pub blurb: String,
    /// (actor name, trust grade its witness records carry)
    pub actors: Vec<(String, u8)>,
    pub creator: String,
    pub steps: Vec<Step>,
}

/// A story as plain values.
#[verifier::ext_equal]
pub struct StoryV {
    pub name: Seq<char>,
    pub blurb: Seq<char>,
    pub actors: Seq<(Seq<char>, u8)>,
    pub creator: Seq<char>,
    pub steps: Seq<StepV>,
}

impl View for Story {
    type V = StoryV;

    open spec fn view(&self) -> StoryV {
        StoryV {
            name: self.name@,
            blurb: self.blurb@,
            actors: cast_view(self.actors@),
            creator: self.creator@,
            steps: step_views(self.steps@),
        }
    }
}

/// The cast as plain values: each actor's name and trust grade.
pub open spec fn cast_view(actors: Seq<(String, u8)>) -> Seq<(Seq<char>, u8)> {
    actors.map_values(|e: (String, u8)| (e.0@, e.1))
}

struct Actor {
    name: String,
    kernel: Kernel,
    transcript: Transcript,
    evidence: EvidenceBook,
    trust: TrustGrade,
    group: u8,
}

pub struct StoryReport {
    pub name: String,
    pub lines: Vec<String>,
    pub failures: Vec<String>,
}

impl StoryReport {
    pub fn passed(&self) -> (r: bool)
        ensures
            r == (self.failures@.len() == 0),
    {
        self.failures.len() == 0
    }
}

fn scope() -> (r: ScopeId)
    ensures
        r@ == "room:theater"@,
{
    ScopeId::new("room:theater")
}

/// The rounds a story's steps tick, in total.
pub open spec fn story_ticks(steps: Seq<Step>) -> nat
    decreases steps.len(),
{
    if steps.len() == 0 {
        0
    } else {
        story_ticks(steps.drop_last()) + match steps.last() {
            Step::Ticks(n) => n as nat,
            _ => 0nat,
        }
    }
}

/// An actor's kernel runs the default policy and has seen exactly
/// `ticks` ticks.
spec fn actor_ready(a: Actor, ticks: u64) -> bool {
    sim_policy(a.kernel.model()) && a.kernel.model().round.0 == ticks
}

/// Actor `i` is the first named `name`.
spec fn is_first_named(actors: Seq<Actor>, name: Seq<char>, i: int) -> bool {
    &&& 0 <= i < actors.len()
    &&& actors[i].name@ == name
    &&& forall|j: int| 0 <= j < i ==> (#[trigger] actors[j]).name@ != name
}

/// Actor `i` is the first in `group`.
spec fn is_first_in_group(actors: Seq<Actor>, group: u8, i: int) -> bool {
    &&& 0 <= i < actors.len()
    &&& actors[i].group == group
    &&& forall|j: int| 0 <= j < i ==> (#[trigger] actors[j]).group != group
}

/// What an actor holds that inputs change: its kernel's state, its
/// evidence book, and the events its transcript has sealed.
spec fn actor_model(a: Actor) -> (KernelV, EvidenceBookV, Seq<TranscriptEventV>) {
    (a.kernel.model(), a.evidence@, chain_events(a.transcript@))
}

/// The evidence book after an input: claims and witness records are
/// recorded, every other input leaves the book alone.
pub open spec fn book_after(b: EvidenceBookV, input: InputV) -> EvidenceBookV {
    match input {
        InputV::Introduce(c) => claim_recorded(b, c),
        InputV::WitnessRecordReceived(r) => witness_recorded(b, r),
        _ => b,
    }
}

/// An actor's holdings after one input.
pub open spec fn model_after(
    m: (KernelV, EvidenceBookV, Seq<TranscriptEventV>),
    input: InputV,
) -> (KernelV, EvidenceBookV, Seq<TranscriptEventV>) {
    let (k, _, evs) = kernel_step(m.0, input);
    (k, book_after(m.1, input), m.2 + evs)
}

/// An actor's holdings after inputs, in order.
pub open spec fn model_after_all(
    m: (KernelV, EvidenceBookV, Seq<TranscriptEventV>),
    inputs: Seq<InputV>,
) -> (KernelV, EvidenceBookV, Seq<TranscriptEventV>)
    decreases inputs.len(),
{
    if inputs.len() == 0 {
        m
    } else {
        model_after(model_after_all(m, inputs.drop_last()), inputs.last())
    }
}

/// `b` is actor `a` after the inputs: same name, trust and group.
spec fn moved(a: Actor, b: Actor, inputs: Seq<InputV>) -> bool {
    &&& b.name == a.name
    &&& b.trust == a.trust
    &&& b.group == a.group
    &&& actor_model(b) == model_after_all(actor_model(a), inputs)
}

/// The group of the first actor named `origin` (group 0 when none is).
spec fn group_of_origin(actors: Seq<Actor>, origin: Seq<char>) -> u8 {
    if exists|i: int| is_first_named(actors, origin, i) {
        actors[choose|i: int| is_first_named(actors, origin, i)].group
    } else {
        0
    }
}

/// Whether actor `j` hears what `origin` says: everyone does unless the
/// room is partitioned, then only `origin`'s group.
spec fn hears(t: Theater, origin: Seq<char>, j: int) -> bool {
    !t.partitioned || t.actors@[j].group == group_of_origin(t.actors@, origin)
}

proof fn lemma_first_named_unique(actors: Seq<Actor>, name: Seq<char>, i: int, k: int)
    requires
        is_first_named(actors, name, i),
        is_first_named(actors, name, k),
    ensures
        i == k,
{
    if i < k {
        assert(actors[i].name@ != name);
    } else if k < i {
        assert(actors[k].name@ != name);
    }
}

/// An actor's view of the theater's room, if it holds one.
spec fn room_view(a: Actor) -> Option<MembershipViewV> {
    map_get::<ScopeId, MembershipViewV>(a.kernel.model().views, "room:theater"@)
}

/// The reunion side an actor offers from view `v`: labelled with its name,
/// each belief a fragment under global authority.
spec fn actor_side(a: Actor, v: MembershipViewV) -> MergeSideV {
    MergeSideV {
        label: a.name@,
        epoch: v.epoch,
        fragments: v.beliefs.map_values(
            |e: (Seq<char>, BeliefCellV)| fragment_entry(a.evidence@, v.scope, ScopeAuthority::Global, e),
        ),
    }
}

/// The corroboration assessments an actor's settling feeds from view `v`
/// for the subjects ready to advance (a subject with no usable record is
/// skipped).
pub open spec fn settle_inputs_of(v: MembershipViewV, ready: Seq<(Seq<char>, Seq<WitnessRecordId>)>) -> Seq<InputV>
    decreases ready.len(),
{
    if ready.len() == 0 {
        Seq::empty()
    } else {
        let before = settle_inputs_of(v, ready.drop_last());
        let e = ready.last();
        if e.1.len() == 0 {
            before
        } else {
            before.push(
                InputV::CorroborationAssessed {
                    scope: "room:theater"@,
                    subject: e.0,
                    records: e.1,
                    confidence: confidence_for(v, e.0),
                },
            )
        }
    }
}

/// What settling feeds an actor.
spec fn settle_inputs(a: Actor) -> Seq<InputV> {
    match room_view(a) {
        Some(v) => settle_inputs_of(v, spec_ready(a.evidence@, v.scope, v.beliefs)),
        None => Seq::empty(),
    }
}

/// What an actor believes of a subject in the room, if anything.
spec fn believed(a: Actor, subject: Seq<char>) -> Option<BeliefState> {
    match room_view(a) {
        Some(v) => match map_get::<SubjectId, BeliefCellV>(v.beliefs, subject) {
            Some(c) => Some(c.state),
            None => None,
        },
        None => None,
    }
}

/// The failure an expectation records for an actor that believes
/// otherwise.
spec fn miss_text(a: Actor, subject: Seq<char>, state: BeliefState) -> Seq<char> {
    a.name@ + " believes "@ + subject + " is "@ + (match believed(a, subject) {
        Some(g) => "Some("@ + state_debug_text(g) + ")"@,
        None => "None"@,
    }) + ", expected "@ + state_name(state)
}

/// The failures of an expectation, actor by actor: every checked actor
/// (the named one, or all) that does not believe `state`.
spec fn expect_misses(actors: Seq<Actor>, on: Option<Seq<char>>, subject: Seq<char>, state: BeliefState) -> Seq<Seq<char>>
    decreases actors.len(),
{
    if actors.len() == 0 {
        Seq::empty()
    } else {
        let a = actors.last();
        let checked = match on {
            Some(n) => n == a.name@,
            None => true,
        };
        expect_misses(actors.drop_last(), on, subject, state) + if checked && believed(a, subject) != Some(state) {
            seq![miss_text(a, subject, state)]
        } else {
            Seq::empty()
        }
    }
}

/// The line an expectation narrates.
pub open spec fn expect_note(on: Option<Seq<char>>, subject: Seq<char>, state: BeliefState) -> Seq<char> {
    "\u{2713} "@ + (match on {
        Some(n) => n,
        None => "all reachable actors"@,
    }) + " believe "@ + subject + " is "@ + state_name(state)
}

/// An actor's unhandled and handled residue in the room, if it has a view.
spec fn residue_counts(a: Actor) -> Option<(nat, nat)> {
    match room_view(a) {
        Some(v) => {
            let u = count_unhandled(v.residue.entries);
            let t = v.residue.entries.len();
            Some((u, if t >= u { (t - u) as nat } else { 0nat }))
        },
        None => None,
    }
}

spec fn residue_short(a: Actor, counts: (nat, nat), min_unhandled: nat, min_handled: nat) -> bool {
    counts.0 < min_unhandled || counts.1 < min_handled
}

spec fn residue_fail_text(a: Actor, counts: (nat, nat), min_unhandled: nat, min_handled: nat) -> Seq<char> {
    a.name@ + ": residue unhandled="@ + decimal(counts.0) + " handled="@ + decimal(counts.1) + ", expected >= "@
        + decimal(min_unhandled) + "/"@ + decimal(min_handled)
}

spec fn residue_ok_text(a: Actor, counts: (nat, nat)) -> Seq<char> {
    a.name@ + ": "@ + decimal(counts.0) + " unhandled / "@ + decimal(counts.1) + " handled"@
}

/// Per actor with a view: the residue shortfalls, and the counts that
/// met the bar.
spec fn residue_report(actors: Seq<Actor>, min_unhandled: nat, min_handled: nat) -> (Seq<Seq<char>>, Seq<Seq<char>>)
    decreases actors.len(),
{
    if actors.len() == 0 {
        (Seq::empty(), Seq::empty())
    } else {
        let (fails, oks) = residue_report(actors.drop_last(), min_unhandled, min_handled);
        let a = actors.last();
        match residue_counts(a) {
            Some(c) => if residue_short(a, c, min_unhandled, min_handled) {
                (fails.push(residue_fail_text(a, c, min_unhandled, min_handled)), oks)
            } else {
                (fails, oks.push(residue_ok_text(a, c)))
            },
            None => (fails, oks),
        }
    }
}

/// Each actor's name and room digest hash (none without a view).
spec fn converge_entries(actors: Seq<Actor>) -> Seq<(Seq<char>, Option<Seq<u8>>)> {
    actors.map_values(|a: Actor| (a.name@, match room_view(a) {
        Some(v) => Some(repair_digest_of(v).content_hash),
        None => None,
    }))
}

/// Every actor holds a view, all with the first one's hash.
spec fn all_converged(es: Seq<(Seq<char>, Option<Seq<u8>>)>) -> bool {
    &&& es.len() > 0
    &&& es[0].1 is Some
    &&& forall|k: int| 0 <= k < es.len() ==> (#[trigger] es[k]).1 == es[0].1
}

/// What settling feeds an actor holding `m`.
spec fn settle_model(m: (KernelV, EvidenceBookV, Seq<TranscriptEventV>)) -> Seq<InputV> {
    match map_get::<ScopeId, MembershipViewV>(m.0.views, "room:theater"@) {
        Some(v) => settle_inputs_of(v, spec_ready(m.1, v.scope, v.beliefs)),
        None => Seq::empty(),
    }
}

/// An actor's holdings once settled.
spec fn settled(m: (KernelV, EvidenceBookV, Seq<TranscriptEventV>)) -> (KernelV, EvidenceBookV, Seq<TranscriptEventV>) {
    model_after_all(m, settle_model(m))
}

/// The id of an observation by `by` of `subject`.
pub open spec fn observation_id_of(by: Seq<char>, subject: Seq<char>, mode: ObservationMode, epoch: Epoch) -> ObservationId {
    ObservationId::with_bytes(
        domain_digest(
            "resonant/observation/v1"@,
            framed_str(by) + framed_str(subject) + seq![mode_byte(mode)] + le_u64(epoch.0),
        ),
    )
}

/// The trust a witness's records carry: its cast grade, or 30 for a
/// stranger.
spec fn witness_trust(actors: Seq<Actor>, by: Seq<char>) -> TrustGrade {
    if exists|i: int| is_first_named(actors, by, i) {
        actors[choose|i: int| is_first_named(actors, by, i)].trust
    } else {
        grade_of(30)
    }
}

/// Whether a step acts by sending one input around the room.
pub open spec fn is_broadcast(step: Step) -> bool {
    step is Join || step is Witness || step is Mute || step is Ban || step is Override
}

/// Who a broadcast step comes from.
pub open spec fn step_origin(step: Step) -> Seq<char> {
    match step {
        Step::Join { who, .. } => who@,
        Step::Witness { by, .. } => by@,
        Step::Mute { by, .. } => by@,
        Step::Ban { by, .. } => by@,
        Step::Override { by, .. } => by@,
        _ => Seq::empty(),
    }
}

/// The input a broadcast step sends.
spec fn step_input(t: Theater, step: Step) -> InputV {
    match step {
        Step::Join { who, vouched_by } => InputV::Introduce(
            ClaimV {
                subject: who@,
                asserted: AssertedState::Present,
                scope: "room:theater"@,
                provenance: vouched_by@,
                epoch: t.epoch,
                evidence: Seq::empty(),
            },
        ),
        Step::Witness { by, subject, mode } => InputV::WitnessRecordReceived(
            WitnessRecordV {
                witness: by@,
                subject: subject@,
                about: None,
                stance: Stance::Corroborate,
                observation: observation_id_of(by@, subject@, mode, t.epoch),
                mode,
                scope: "room:theater"@,
                epoch: t.epoch,
                trust_context: witness_trust(t.actors@, by@),
            },
        ),
        Step::Mute { subject, .. } => InputV::QuarantineAssessed {
            scope: "room:theater"@,
            subject: subject@,
            reason: QuarantineReason::ConflictPressure,
        },
        Step::Ban { subject, .. } => InputV::RemovalAssessed {
            scope: "room:theater"@,
            subject: subject@,
            basis: RemovalBasis::PolicyViolation,
        },
        Step::Override { by, subject, to } => InputV::Override(
            OperatorOverrideV {
                operator: by@,
                subject: subject@,
                forced: to,
                reason: "operator "@ + by@ + " takes visible responsibility"@,
                epoch: t.epoch,
            },
        ),
        _ => InputV::Tick,
    }
}

/// `n` ticks.
pub open spec fn tick_inputs(n: nat) -> Seq<InputV> {
    Seq::new(n, |i: int| InputV::Tick)
}

/// The inputs actor `j` receives from an acting step (before settling).
spec fn delivery(t: Theater, step: Step, j: int) -> Seq<InputV> {
    if is_broadcast(step) {
        if hears(t, step_origin(step), j) {
            seq![step_input(t, step)]
        } else {
            Seq::empty()
        }
    } else {
        match step {
            Step::Ticks(n) => tick_inputs(n as nat),
            Step::Heal => match heal_sides(t.actors@) {
                Some((sa, ha, sb, hb)) => seq![heal_input(t.actors@, sa, ha, sb, hb)],
                None => Seq::empty(),
            },
            _ => Seq::empty(),
        }
    }
}

/// Whether a name is listed.
pub open spec fn listed(names: Seq<Seq<char>>, name: Seq<char>) -> bool {
    exists|k: int| 0 <= k < names.len() && names[k] == name
}

/// Actor `j`'s group after an acting step.
spec fn new_group(t: Theater, step: Step, j: int) -> u8 {
    match step {
        Step::Partition { group_b } => if listed(strings_view(group_b@), t.actors@[j].name@) {
            1
        } else {
            0
        },
        Step::Heal => if heal_sides(t.actors@) is Some {
            0
        } else {
            t.actors@[j].group
        },
        _ => t.actors@[j].group,
    }
}

/// Whether the room is partitioned after an acting step.
spec fn new_partitioned(t: Theater, step: Step) -> bool {
    match step {
        Step::Partition { .. } => true,
        Step::Heal => false,
        _ => t.partitioned,
    }
}

/// `actors` is what an acting step leaves of `t`'s actors, before settling.
spec fn stepped(t: Theater, step: Step, actors: Seq<Actor>) -> bool {
    &&& actors.len() == t.actors@.len()
    &&& forall|j: int|
        0 <= j < t.actors@.len() ==> {
            let a = #[trigger] t.actors@[j];
            let b = actors[j];
            &&& b.name == a.name
            &&& b.trust == a.trust
            &&& b.group == new_group(t, step, j)
            &&& actor_model(b) == model_after_all(actor_model(a), delivery(t, step, j))
        }
}

/// A broadcast step leaves the actors it reached moved by its input and
/// the others as they were.
proof fn lemma_broadcast_stepped(t0: Theater, tn: Theater, step: Step, after: Seq<Actor>, input: InputV)
    requires
        is_broadcast(step),
        tn.actors@ == t0.actors@,
        tn.partitioned == t0.partitioned,
        input == step_input(t0, step),
        after.len() == t0.actors@.len(),
        forall|j: int|
            0 <= j < t0.actors@.len() ==> if hears(tn, step_origin(step), j) {
                moved(tn.actors@[j], #[trigger] after[j], seq![input])
            } else {
                after[j] == tn.actors@[j]
            },
    ensures
        stepped(t0, step, after),
{
    assert forall|j: int| 0 <= j < t0.actors@.len() implies {
        let a = #[trigger] t0.actors@[j];
        let b = after[j];
        &&& b.name == a.name
        &&& b.trust == a.trust
        &&& b.group == new_group(t0, step, j)
        &&& actor_model(b) == model_after_all(actor_model(a), delivery(t0, step, j))
    } by {
        let a = t0.actors@[j];
        assert(after[j] == after[j]);
        if hears(tn, step_origin(step), j) {
            assert(hears(t0, step_origin(step), j));
            lemma_after_one(actor_model(a), input);
        } else {
            assert(!hears(t0, step_origin(step), j));
            assert(model_after_all(actor_model(a), Seq::<InputV>::empty()) == actor_model(a));
        }
    }
}


proof fn lemma_settle_inputs_model(a: Actor)
    ensures
        settle_inputs(a) == settle_model(actor_model(a)),
{
}

proof fn lemma_after_all_concat(
    m: (KernelV, EvidenceBookV, Seq<TranscriptEventV>),
    s1: Seq<InputV>,
    s2: Seq<InputV>,
)
    ensures
        model_after_all(m, s1 + s2) == model_after_all(model_after_all(m, s1), s2),
    decreases s2.len(),
{
    if s2.len() == 0 {
        assert(s1 + s2 =~= s1);
    } else {
        lemma_after_all_concat(m, s1, s2.drop_last());
        assert((s1 + s2).drop_last() =~= s1 + s2.drop_last());
        assert((s1 + s2).last() == s2.last());
    }
}

proof fn lemma_after_one(m: (KernelV, EvidenceBookV, Seq<TranscriptEventV>), x: InputV)
    ensures
        model_after_all(m, seq![x]) == model_after(m, x),
{
    assert(seq![x].drop_last() =~= Seq::<InputV>::empty());
    assert(model_after_all(m, Seq::<InputV>::empty()) == m);
    assert(seq![x].last() == x);
}


/// The policy every actor's kernel runs.
spec fn theater_bundle() -> PolicyBundle {
    PolicyBundle {
        strengthen_hysteresis_rounds: 2,
        quarantine_release_rounds: 2,
        stale_after_epochs: 2,
        merge: crate::policy::lab_compat_policy(),
    }
}

/// A fresh evidence book that trusts the room's creator.
spec fn creator_book(creator: Seq<char>) -> EvidenceBookV {
    let b = EvidenceBookV { records: Seq::empty(), lineage: Seq::empty(), trust_roots: Seq::empty() };
    EvidenceBookV {
        trust_roots: crate::collections::map_insert::<ScopeId, Seq<Seq<char>>>(
            b.trust_roots,
            "room:theater"@,
            crate::collections::set_insert::<WitnessId>(crate::witnessing::roots_at(b, "room:theater"@), creator),
        ),
        ..b
    }
}

/// What a newly cast actor holds.
spec fn start_model(creator: Seq<char>) -> (KernelV, EvidenceBookV, Seq<TranscriptEventV>) {
    (crate::kernel::fresh_kernel(theater_bundle()), creator_book(creator), Seq::empty())
}

/// `actors` is the cast placed by name, one actor after another.
spec fn cast_placed(cast: Seq<(Seq<char>, u8)>, creator: Seq<char>, actors: Seq<Actor>) -> bool
    decreases cast.len(),
{
    if cast.len() == 0 {
        actors.len() == 0
    } else {
        exists|prev: Seq<Actor>, a: Actor|
            #[trigger] placed(prev, a, actors) && cast_placed(cast.drop_last(), creator, prev) && a.name@
                == cast.last().0 && a.trust == grade_of(
                if cast.last().1 <= 100 {
                    cast.last().1
                } else {
                    100
                },
            ) && a.group == 0 && actor_model(a) == start_model(creator)
    }
}

/// `t` is the room a story opens in: its cast placed, every actor at
/// epoch 1, the room whole.
pub closed spec fn story_start(story: Story, t: Theater) -> bool {
    &&& !t.partitioned
    &&& t.epoch == Epoch(1)
    &&& exists|pre: Seq<Actor>|
        #[trigger] cast_placed(cast_view(story.actors@), story.creator@, pre) && pre.len() == t.actors@.len()
            && forall|j: int|
            0 <= j < pre.len() ==> moved(
                pre[j],
                #[trigger] t.actors@[j],
                seq![InputV::EpochAdvanced { scope: "room:theater"@, epoch: Epoch(1) }],
            )
}

/// `u` is what a step leaves of room `t`.
pub closed spec fn step_relation(t: Theater, step: Step, u: Theater) -> bool {
    &&& u.epoch == t.epoch
    &&& u.actors@.len() == t.actors@.len()
    &&& if is_check(step) {
        &&& u.partitioned == t.partitioned
        &&& forall|j: int|
            0 <= j < t.actors@.len() ==> moved(t.actors@[j], #[trigger] u.actors@[j], settle_inputs(t.actors@[j]))
    } else {
        &&& u.partitioned == new_partitioned(t, step)
        &&& forall|j: int|
            0 <= j < t.actors@.len() ==> {
                let a = #[trigger] t.actors@[j];
                let b = u.actors@[j];
                &&& b.name == a.name
                &&& b.trust == a.trust
                &&& b.group == new_group(t, step, j)
                &&& actor_model(b) == settled(model_after_all(actor_model(a), delivery(t, step, j)))
            }
    }
}

/// The failures a story's checks record, each judged on the room as the
/// steps before it left it.
pub closed spec fn story_failures(states: Seq<Theater>, steps: Seq<Step>) -> Seq<Seq<char>>
    decreases steps.len(),
{
    if steps.len() == 0 {
        Seq::empty()
    } else {
        story_failures(states, steps.drop_last()) + check_report(states[steps.len() - 1].actors@, steps.last()).0
    }
}

proof fn lemma_story_failures_agree(s1: Seq<Theater>, s2: Seq<Theater>, steps: Seq<Step>)
    requires
        steps.len() <= s1.len(),
        steps.len() <= s2.len(),
        forall|i: int| 0 <= i < steps.len() ==> s1[i] == s2[i],
    ensures
        story_failures(s1, steps) == story_failures(s2, steps),
    decreases steps.len(),
{
    if steps.len() > 0 {
        lemma_story_failures_agree(s1, s2, steps.drop_last());
        assert(s1[steps.len() - 1] == s2[steps.len() - 1]);
    }
}


/// Whether a step checks the room rather than acting on it.
pub open spec fn is_check(step: Step) -> bool {
    step is Expect || step is ExpectResidue || step is ExpectConverged
}

/// What a check step adds to the report, judged on the actors as they
/// stand: the failures, then the lines.
spec fn check_report(actors: Seq<Actor>, step: Step) -> (Seq<Seq<char>>, Seq<Seq<char>>) {
    match step {
        Step::Expect { on, subject, state } => (
            expect_misses(actors, opt_view(on), subject@, state),
            seq![expect_note(opt_view(on), subject@, state)],
        ),
        Step::ExpectResidue { min_unhandled, min_handled } => {
            let (fails, oks) = residue_report(actors, min_unhandled as nat, min_handled as nat);
            (fails, if oks.len() > 0 {
                seq!["\u{2713} residue visible ("@ + oks[0] + ")"@]
            } else {
                Seq::empty()
            })
        },
        Step::ExpectConverged => {
            let es = converge_entries(actors);
            if all_converged(es) {
                (
                    Seq::empty(),
                    seq![
                        "\u{2713} all "@ + decimal(es.len()) + " actors converged (digest "@ + hex_of(
                            es[0].1.unwrap().subrange(0, 6),
                        ) + ")"@,
                    ],
                )
            } else {
                (seq!["views diverged: "@ + hashes_text(es)], Seq::empty())
            }
        },
        _ => (Seq::empty(), Seq::empty()),
    }
}


pub struct Theater {
    actors: Vec<Actor>,
    partitioned: bool,
    epoch: Epoch,
    ticks: u64,
    report: StoryReport,
}

impl Theater {
    /// Every actor is ready at the theater's tick count.
    spec fn wf(&self) -> bool {
        forall|i: int| 0 <= i < self.actors@.len() ==> actor_ready(#[trigger] self.actors@[i], self.ticks)
    }

    fn narrate(&mut self, line: String)
        ensures
            final(self).report.lines@ == old(self).report.lines@.push(line),
            final(self).report.failures@ == old(self).report.failures@,
            final(self).report.name == old(self).report.name,
            final(self).actors@ == old(self).actors@,
            final(self).ticks == old(self).ticks,
            final(self).partitioned == old(self).partitioned,
            final(self).epoch == old(self).epoch,
    {
        self.report.lines.push(line);
    }

    fn fail(&mut self, line: String)
        ensures
            final(self).report.failures@ == old(self).report.failures@.push(line),
            final(self).report.lines@ == old(self).report.lines@,
            final(self).report.name == old(self).report.name,
            final(self).actors@ == old(self).actors@,
            final(self).ticks == old(self).ticks,
            final(self).partitioned == old(self).partitioned,
            final(self).epoch == old(self).epoch,
    {
        self.report.failures.push(line);
    }

    /// The index of the actor named `name`, if any.
    fn find(&self, name: &str) -> (r: Option<usize>)
        ensures
            r matches Some(i) ==> i < self.actors@.len(),
            match r {
                Some(i) => is_first_named(self.actors@, name@, i as int),
                None => forall|j: int| 0 <= j < self.actors@.len() ==> (#[trigger] self.actors@[j]).name@ != name@,
            },
    {
        let mut i: usize = 0;
        while i < self.actors.len()
            invariant
                i <= self.actors@.len(),
                forall|j: int| 0 <= j < i ==> (#[trigger] self.actors@[j]).name@ != name@,
            decreases self.actors@.len() - i,
        {
            if same_text(self.actors[i].name.as_str(), name) {
                return Some(i);
            }
            i = i + 1;
        }
        None
    }
}

fn same_text(a: &str, b: &str) -> (r: bool)
    ensures
        r == (a@ == b@),
{
    string_of(a) == string_of(b)
}

/// Hand a non-tick input to one actor, feeding its evidence book first.
fn deliver(actor: &mut Actor, input: Input, Ghost(ticks): Ghost<u64>)
    requires
        actor_ready(*old(actor), ticks),
        !(input@ is Tick),
    ensures
        actor_ready(*final(actor), ticks),
        moved(*old(actor), *final(actor), seq![input@]),
{
    let ghost m0 = actor_model(*actor);
    let ghost iv = input@;
    proof {
        assert(seq![iv].drop_last() =~= Seq::<InputV>::empty());
        assert(model_after_all(m0, Seq::<InputV>::empty()) == m0);
    }
    match &input {
        Input::Introduce(claim) => actor.evidence.record_claim(claim),
        Input::WitnessRecordReceived(record) => actor.evidence.record_witness(record.duplicate()),
        _ => {},
    }
    assert(actor.evidence@ == book_after(m0.1, iv));
    step(&mut actor.kernel, input, &mut actor.transcript);
    assert(actor_model(*actor) == model_after(m0, iv));
}



/// The assessments settling feeds for a view, given the actor's evidence.
fn settle_inputs_for(book: &EvidenceBook, view: &MembershipView) -> (r: Vec<Input>)
    ensures
        r@.map_values(|i: Input| i@) == settle_inputs_of(view@, spec_ready(book@, view@.scope, view@.beliefs)),
        forall|j: int| 0 <= j < r@.len() ==> (#[trigger] r@[j])@ is CorroborationAssessed,
{
    let ready = ready_to_advance(book, view);
    let ghost all = ready@.map_values(|e: (SubjectId, Vec<WitnessRecordId>)| (e.0@, e.1@));
    let mut out: Vec<Input> = Vec::new();
    let mut k: usize = 0;
    let n = ready.len();
    while k < n
        invariant
            n == all.len(),
            ready@.len() == n,
            k <= n,
            all == ready@.map_values(|e: (SubjectId, Vec<WitnessRecordId>)| (e.0@, e.1@)),
            out@.map_values(|i: Input| i@) == settle_inputs_of(view@, all.subrange(0, k as int)),
            forall|j: int| 0 <= j < out@.len() ==> (#[trigger] out@[j])@ is CorroborationAssessed,
        decreases n - k,
    {
        assert(all.subrange(0, k + 1).drop_last() =~= all.subrange(0, k as int));
        assert(all.subrange(0, k + 1).last() == all[k as int]);
        let subject = ready[k].0.duplicate();
        let records = copy_ids(&ready[k].1);
        let ghost before = out@.map_values(|i: Input| i@);
        match NonEmpty::from_vec(records) {
            None => {},
            Some(records) => {
                assert(records@ =~= all[k as int].1);
                let confidence = match view.belief(&subject) {
                    Some(cell) => if cell.state() == BeliefState::Provisional {
                        Confidence::Strong
                    } else {
                        Confidence::Bounded
                    },
                    None => Confidence::Bounded,
                };
                let input = Input::CorroborationAssessed { scope: scope(), subject, records, confidence };
                out.push(input);
                assert(out@.map_values(|i: Input| i@) =~= before.push(input@));
            },
        }
        k = k + 1;
    }
    assert(all.subrange(0, n as int) =~= all);
    out
}

/// `new` extends `old`: every earlier entry stays where it was.
spec fn keeps(old: Seq<String>, new: Seq<String>) -> bool {
    old.len() <= new.len() && forall|j: int| 0 <= j < old.len() ==> new[j] == old[j]
}

impl Theater {
    /// Deliver an input to every actor reachable from `origin` (same group
    /// while partitioned; everyone otherwise), including the origin.
    fn broadcast(&mut self, origin: &str, input: &Input)
        requires
            old(self).wf(),
            !(input@ is Tick),
        ensures
            final(self).wf(),
            final(self).ticks == old(self).ticks,
            final(self).report.name == old(self).report.name,
            final(self).report.lines@ == old(self).report.lines@,
            final(self).report.failures@ == old(self).report.failures@,
            final(self).actors@.len() == old(self).actors@.len(),
            final(self).partitioned == old(self).partitioned,
            final(self).epoch == old(self).epoch,
            forall|j: int| 0 <= j < old(self).actors@.len() ==> if hears(*old(self), origin@, j) {
                moved(old(self).actors@[j], #[trigger] final(self).actors@[j], seq![input@])
            } else {
                final(self).actors@[j] == old(self).actors@[j]
            },
    {
        let origin_group: u8 = match self.find(origin) {
            Some(i) => {
                proof {
                    let c = choose|k: int| is_first_named(self.actors@, origin@, k);
                    lemma_first_named_unique(self.actors@, origin@, i as int, c);
                }
                self.actors[i].group
            },
            None => 0,
        };
        assert(origin_group == group_of_origin(self.actors@, origin@));
        let partitioned = self.partitioned;
        let n = self.actors.len();
        let mut i: usize = 0;
        while i < n
            invariant
                i <= n,
                n == self.actors@.len(),
                self.wf(),
                !(input@ is Tick),
                self.ticks == old(self).ticks,
                self.report.name == old(self).report.name,
                self.report.lines@ == old(self).report.lines@,
                self.report.failures@ == old(self).report.failures@,
                self.partitioned == partitioned,
                partitioned == old(self).partitioned,
                self.epoch == old(self).epoch,
                origin_group == group_of_origin(old(self).actors@, origin@),
                forall|j: int| 0 <= j < i ==> if hears(*old(self), origin@, j) {
                    moved(old(self).actors@[j], #[trigger] self.actors@[j], seq![input@])
                } else {
                    self.actors@[j] == old(self).actors@[j]
                },
                forall|j: int| i <= j < n ==> #[trigger] self.actors@[j] == old(self).actors@[j],
            decreases n - i,
        {
            assert(self.actors@[i as int] == old(self).actors@[i as int]);
            if !partitioned || self.actors[i].group == origin_group {
                let ghost before = self.actors@;
                let mut actor = self.actors.remove(i);
                assert(actor == before[i as int]);
                assert(actor_ready(actor, self.ticks));
                deliver(&mut actor, input.duplicate(), Ghost(self.ticks));
                self.actors.insert(i, actor);
                assert forall|j: int| 0 <= j < self.actors@.len() implies actor_ready(#[trigger] self.actors@[j], self.ticks) by {
                    if j != i {
                        assert(self.actors@[j] == before[j]);
                    }
                }
                assert forall|j: int| 0 <= j < self.actors@.len() && j != i implies #[trigger] self.actors@[j] == before[j] by {}
            }
            i = i + 1;
        }
    }

    /// The standing policy beat every actor runs after each step:
    /// strengthen belief where the derived summary clears the advancement bar.
    fn settle(&mut self)
        requires
            old(self).wf(),
        ensures
            final(self).wf(),
            final(self).ticks == old(self).ticks,
            final(self).report.name == old(self).report.name,
            final(self).report.lines@ == old(self).report.lines@,
            final(self).report.failures@ == old(self).report.failures@,
            final(self).actors@.len() == old(self).actors@.len(),
            final(self).partitioned == old(self).partitioned,
            final(self).epoch == old(self).epoch,
            forall|j: int| 0 <= j < old(self).actors@.len() ==> moved(
                old(self).actors@[j],
                #[trigger] final(self).actors@[j],
                settle_inputs(old(self).actors@[j]),
            ),
    {
        let room = scope();
        let n = self.actors.len();
        let mut i: usize = 0;
        while i < n
            invariant
                i <= n,
                n == self.actors@.len(),
                room@ == "room:theater"@,
                self.wf(),
                self.ticks == old(self).ticks,
                self.report.name == old(self).report.name,
                self.report.lines@ == old(self).report.lines@,
                self.report.failures@ == old(self).report.failures@,
                self.partitioned == old(self).partitioned,
                self.epoch == old(self).epoch,
                forall|j: int| 0 <= j < i ==> moved(
                    old(self).actors@[j],
                    #[trigger] self.actors@[j],
                    settle_inputs(old(self).actors@[j]),
                ),
                forall|j: int| i <= j < n ==> #[trigger] self.actors@[j] == old(self).actors@[j],
            decreases n - i,
        {
            let ghost before = self.actors@;
            let mut actor = self.actors.remove(i);
            assert(actor == before[i as int]);
            assert(actor == old(self).actors@[i as int]);
            let ghost a0 = actor;
            let inputs: Vec<Input> = match actor.kernel.view(&room) {
                Some(view) => settle_inputs_for(&actor.evidence, view),
                None => Vec::new(),
            };
            let ghost want = inputs@.map_values(|x: Input| x@);
            assert(want =~= settle_inputs(a0));
            let mut k: usize = 0;
            while k < inputs.len()
                invariant
                    k <= inputs@.len(),
                    want == inputs@.map_values(|x: Input| x@),
                    forall|j: int| 0 <= j < inputs@.len() ==> (#[trigger] inputs@[j])@ is CorroborationAssessed,
                    actor_ready(actor, self.ticks),
                    moved(a0, actor, want.subrange(0, k as int)),
                decreases inputs@.len() - k,
            {
                let ghost mid = actor;
                let input = inputs[k].duplicate();
                assert((inputs@[k as int])@ is CorroborationAssessed);
                deliver(&mut actor, input, Ghost(self.ticks));
                proof {
                    let next = want.subrange(0, k + 1);
                    assert(next.drop_last() =~= want.subrange(0, k as int));
                    assert(next.last() == want[k as int]);
                    assert(seq![want[k as int]].drop_last() =~= Seq::<InputV>::empty());
                    assert(model_after_all(actor_model(mid), Seq::<InputV>::empty()) == actor_model(mid));
                }
                k = k + 1;
            }
            assert(want.subrange(0, k as int) =~= want);
            self.actors.insert(i, actor);
            assert forall|j: int| 0 <= j < self.actors@.len() implies actor_ready(#[trigger] self.actors@[j], self.ticks) by {
                if j != i {
                    assert(self.actors@[j] == before[j]);
                }
            }
            assert forall|j: int| 0 <= j < self.actors@.len() && j != i implies #[trigger] self.actors@[j] == before[j] by {}
            i = i + 1;
        }
    }

    /// Advance every actor's round clock once.
    fn tick_all(&mut self)
        requires
            old(self).wf(),
            old(self).ticks < u64::MAX,
        ensures
            final(self).wf(),
            final(self).ticks == old(self).ticks + 1,
            final(self).report.name == old(self).report.name,
            final(self).report.lines@ == old(self).report.lines@,
            final(self).report.failures@ == old(self).report.failures@,
            final(self).actors@.len() == old(self).actors@.len(),
            final(self).partitioned == old(self).partitioned,
            final(self).epoch == old(self).epoch,
            forall|j: int|
                0 <= j < old(self).actors@.len() ==> moved(
                    old(self).actors@[j],
                    #[trigger] final(self).actors@[j],
                    seq![InputV::Tick],
                ),
    {
        let ghost olds = self.actors@;
        let n = self.actors.len();
        let t = self.ticks;
        let mut i: usize = 0;
        while i < n
            invariant
                i <= n,
                n == self.actors@.len(),
                t == old(self).ticks,
                t < u64::MAX,
                self.ticks == t,
                forall|j: int| 0 <= j < i ==> actor_ready(#[trigger] self.actors@[j], (t + 1) as u64),
                forall|j: int| i <= j < n ==> actor_ready(#[trigger] self.actors@[j], t),
                self.report.name == old(self).report.name,
                self.report.lines@ == old(self).report.lines@,
                self.report.failures@ == old(self).report.failures@,
                self.partitioned == old(self).partitioned,
                self.epoch == old(self).epoch,
                olds == old(self).actors@,
                forall|j: int| i <= j < n ==> #[trigger] self.actors@[j] == olds[j],
                forall|j: int| 0 <= j < i ==> moved(olds[j], #[trigger] self.actors@[j], seq![InputV::Tick]),
            decreases n - i,
        {
            let ghost before = self.actors@;
            let mut actor = self.actors.remove(i);
            assert(actor == before[i as int]);
            assert(actor_ready(actor, t));
            let ghost a0 = actor;
            step(&mut actor.kernel, Input::Tick, &mut actor.transcript);
            proof {
                lemma_after_one(actor_model(a0), InputV::Tick);
                assert(actor_model(actor) == model_after(actor_model(a0), InputV::Tick));
            }
            self.actors.insert(i, actor);
            assert forall|j: int| 0 <= j < i + 1 implies actor_ready(#[trigger] self.actors@[j], (t + 1) as u64) by {
                if j != i {
                    assert(self.actors@[j] == before[j]);
                }
            }
            assert forall|j: int| i + 1 <= j < n implies actor_ready(#[trigger] self.actors@[j], t) by {
                assert(self.actors@[j] == before[j]);
            }
            assert forall|j: int| i + 1 <= j < n implies #[trigger] self.actors@[j] == olds[j] by {
                assert(self.actors@[j] == before[j]);
            }
            assert forall|j: int| 0 <= j < i + 1 implies moved(olds[j], #[trigger] self.actors@[j], seq![InputV::Tick]) by {
                if j != i {
                    assert(self.actors@[j] == before[j]);
                }
            }
            i = i + 1;
        }
        self.ticks = t + 1;
    }
}

fn copy_ids(v: &Vec<crate::id::WitnessRecordId>) -> (r: Vec<crate::id::WitnessRecordId>)
    ensures
        r@ == v@,
{
    let mut out: Vec<crate::id::WitnessRecordId> = Vec::new();
    let mut i: usize = 0;
    while i < v.len()
        invariant
            i <= v@.len(),
            out@ == v@.subrange(0, i as int),
        decreases v@.len() - i,
    {
        out.push(v[i]);
        i = i + 1;
        assert(out@ =~= v@.subrange(0, i as int));
    }
    assert(v@.subrange(0, i as int) =~= v@);
    out
}


fn mode_name(m: ObservationMode) -> (r: &'static str) {
    match m {
        ObservationMode::DirectContact => "DirectContact",
        ObservationMode::Timeout => "Timeout",
        ObservationMode::ChallengeResponse => "ChallengeResponse",
        ObservationMode::TopologyEvidence => "TopologyEvidence",
        ObservationMode::AdminInspection => "AdminInspection",
    }
}

/// A state's variant name, as its derived `Debug` writes it.
pub open spec fn state_debug_text(s: BeliefState) -> Seq<char> {
    match s {
        BeliefState::Unknown => "Unknown"@,
        BeliefState::Introduced => "Introduced"@,
        BeliefState::Witnessed => "Witnessed"@,
        BeliefState::Provisional => "Provisional"@,
        BeliefState::Accepted => "Accepted"@,
        BeliefState::Suspected => "Suspected"@,
        BeliefState::Disputed => "Disputed"@,
        BeliefState::Quarantined => "Quarantined"@,
        BeliefState::Removed => "Removed"@,
    }
}

fn state_debug(s: BeliefState) -> (r: &'static str)
    ensures
        r@ == state_debug_text(s),
{
    match s {
        BeliefState::Unknown => "Unknown",
        BeliefState::Introduced => "Introduced",
        BeliefState::Witnessed => "Witnessed",
        BeliefState::Provisional => "Provisional",
        BeliefState::Accepted => "Accepted",
        BeliefState::Suspected => "Suspected",
        BeliefState::Disputed => "Disputed",
        BeliefState::Quarantined => "Quarantined",
        BeliefState::Removed => "Removed",
    }
}

/// The parts, one after another.
pub open spec fn concat_parts(parts: Seq<&str>) -> Seq<char>
    decreases parts.len(),
{
    if parts.len() == 0 {
        Seq::empty()
    } else {
        concat_parts(parts.drop_last()) + parts.last()@
    }
}

fn text(parts: &[&str]) -> (r: String)
    ensures
        r@ == concat_parts(parts@),
{
    let mut out = String::new();
    let mut i: usize = 0;
    while i < parts.len()
        invariant
            i <= parts@.len(),
            out@ == concat_parts(parts@.subrange(0, i as int)),
        decreases parts@.len() - i,
    {
        out.append(parts[i]);
        let ghost next = parts@.subrange(0, i + 1);
        assert(next.drop_last() =~= parts@.subrange(0, i as int));
        i = i + 1;
    }
    assert(parts@.subrange(0, i as int) =~= parts@);
    out
}

pub open spec fn byte_texts(h: Seq<u8>) -> Seq<Seq<char>> {
    h.map_values(|b: u8| decimal(b as nat))
}

/// One `("name", Some([b0, b1, ...]))` or `("name", None)` entry.
pub open spec fn hash_entry_text(e: (Seq<char>, Option<Seq<u8>>)) -> Seq<char> {
    "(\""@ + e.0 + "\", "@ + (match e.1 {
        Some(h) => "Some(["@ + join_with(byte_texts(h), ", "@) + "])"@,
        None => "None"@,
    }) + ")"@
}

pub open spec fn hash_entry_texts(hs: Seq<(Seq<char>, Option<Seq<u8>>)>) -> Seq<Seq<char>> {
    hs.map_values(|e: (Seq<char>, Option<Seq<u8>>)| hash_entry_text(e))
}

/// `[("name", Some([b0, b1, ...])), ("name", None)]`, as the digests'
/// debug listing.
pub open spec fn hashes_text(hs: Seq<(Seq<char>, Option<Seq<u8>>)>) -> Seq<char> {
    "["@ + join_with(hash_entry_texts(hs), ", "@) + "]"@
}

pub open spec fn hash_entry_view(e: (String, Option<[u8; 32]>)) -> (Seq<char>, Option<Seq<u8>>) {
    (e.0@, match e.1 {
        Some(h) => Some(h@),
        None => None,
    })
}

pub open spec fn hash_entries_view(hs: Seq<(String, Option<[u8; 32]>)>) -> Seq<(Seq<char>, Option<Seq<u8>>)> {
    hs.map_values(|e: (String, Option<[u8; 32]>)| hash_entry_view(e))
}

fn hashes_listing(hashes: &Vec<(String, Option<[u8; 32]>)>) -> (r: String)
    ensures
        r@ == hashes_text(hash_entries_view(hashes@)),
{
    let ghost hv = hash_entries_view(hashes@);
    let mut out = string_of("[");
    let mut i: usize = 0;
    while i < hashes.len()
        invariant
            i <= hv.len(),
            hv == hash_entries_view(hashes@),
            hv.len() == hashes@.len(),
            out@ == "["@ + join_with(hash_entry_texts(hv.subrange(0, i as int)), ", "@),
        decreases hv.len() - i,
    {
        let ghost prefix = out@;
        let ghost next = hash_entry_texts(hv.subrange(0, i + 1));
        assert(next.drop_last() =~= hash_entry_texts(hv.subrange(0, i as int)));
        assert(next.last() == hash_entry_text(hv[i as int]));
        if i > 0 {
            out.append(", ");
        }
        let ghost base = out@;
        out.append("(\"");
        out.append(hashes[i].0.as_str());
        out.append("\", ");
        let ghost head = out@;
        match &hashes[i].1 {
            Some(h) => {
                out.append("Some([");
                let ghost open = out@;
                let mut k: usize = 0;
                while k < 32
                    invariant
                        h@.len() == 32,
                        k <= 32,
                        out@ == open + join_with(byte_texts(h@.subrange(0, k as int)), ", "@),
                    decreases 32 - k,
                {
                    let ghost bn = byte_texts(h@.subrange(0, k + 1));
                    assert(bn.drop_last() =~= byte_texts(h@.subrange(0, k as int)));
                    if k > 0 {
                        out.append(", ");
                    }
                    push_decimal(&mut out, h[k] as u64);
                    k = k + 1;
                    assert(out@ =~= open + join_with(bn, ", "@));
                }
                assert(h@.subrange(0, 32) =~= h@);
                out.append("]))");
                proof {
                    reveal_strlit("]))");
                    reveal_strlit("])");
                    reveal_strlit(")");
                }
                assert(out@ =~= head + ("Some(["@ + join_with(byte_texts(h@), ", "@) + "])"@) + ")"@);
            },
            None => {
                out.append("None)");
                proof {
                    reveal_strlit("None)");
                    reveal_strlit("None");
                    reveal_strlit(")");
                }
                assert(out@ =~= head + "None"@ + ")"@);
            },
        }
        assert(out@ =~= base + hash_entry_text(hv[i as int]));
        i = i + 1;
        assert(out@ =~= "["@ + join_with(next, ", "@));
    }
    assert(hv.subrange(0, i as int) =~= hv);
    out.append("]");
    out
}

impl Theater {
    fn run_step(&mut self, step: &Step)
        requires
            old(self).wf(),
            old(self).ticks + story_ticks(seq![*step]) <= u64::MAX - 32,
        ensures
            final(self).wf(),
            final(self).ticks == old(self).ticks + story_ticks(seq![*step]),
            final(self).report.name == old(self).report.name,
            keeps(old(self).report.lines@, final(self).report.lines@),
            final(self).actors@.len() == old(self).actors@.len(),
            !is_check(*step) ==> final(self).report.failures@ == old(self).report.failures@,
            !is_check(*step) ==> {
                &&& final(self).partitioned == new_partitioned(*old(self), *step)
                &&& final(self).epoch == old(self).epoch
                &&& forall|j: int|
                    0 <= j < old(self).actors@.len() ==> {
                        let a = #[trigger] old(self).actors@[j];
                        let b = final(self).actors@[j];
                        &&& b.name == a.name
                        &&& b.trust == a.trust
                        &&& b.group == new_group(*old(self), *step, j)
                        &&& actor_model(b) == settled(model_after_all(actor_model(a), delivery(*old(self), *step, j)))
                    }
            },
            is_check(*step) ==> {
                let (fails, lines) = check_report(old(self).actors@, *step);
                &&& strings_view(final(self).report.failures@) == strings_view(old(self).report.failures@) + fails
                &&& strings_view(final(self).report.lines@) == strings_view(old(self).report.lines@) + lines
                &&& final(self).partitioned == old(self).partitioned
                &&& final(self).epoch == old(self).epoch
                &&& forall|j: int|
                    0 <= j < old(self).actors@.len() ==> moved(
                        old(self).actors@[j],
                        #[trigger] final(self).actors@[j],
                        settle_inputs(old(self).actors@[j]),
                    )
            },
    {
        proof {
            let one = seq![*step];
            assert(one.drop_last() =~= Seq::<Step>::empty());
            assert(one.last() == *step);
            assert(story_ticks(Seq::<Step>::empty()) == 0);
        }
        let ghost lines0 = self.report.lines@;
        let ghost t0 = *old(self);
        let ghost t0_step = *step;
        match step {
            Step::Join { who, vouched_by } => {
                self.narrate(text(&["\u{2022} ", who.as_str(), " joins, vouched by ", vouched_by.as_str()]));
                let claim = Claim {
                    subject: SubjectId::new(who.as_str()),
                    asserted: AssertedState::Present,
                    scope: scope(),
                    provenance: Provenance { introducer: PeerId::new(vouched_by.as_str()) },
                    epoch: self.epoch,
                    evidence: Vec::new(),
                };
                let input = Input::Introduce(claim);
                assert(input@ == step_input(t0, *step));
                let ghost tn = *self;
                self.broadcast(who.as_str(), &input);
                proof {
                    lemma_broadcast_stepped(t0, tn, *step, self.actors@, input@);
                }
            },
            Step::Witness { by, subject, mode } => {
                self.narrate(text(&["\u{2022} ", by.as_str(), " witnesses ", subject.as_str(), " (", mode_name(*mode), ")"]));
                let trust = match self.find(by.as_str()) {
                    Some(i) => {
                        proof {
                            let c = choose|k: int| is_first_named(self.actors@, by@, k);
                            lemma_first_named_unique(self.actors@, by@, i as int, c);
                        }
                        self.actors[i].trust
                    },
                    None => TrustGrade::new(30),
                };
                assert(trust == witness_trust(t0.actors@, by@));
                let observation = Observation {
                    observer: WitnessId::new(by.as_str()),
                    subject: SubjectId::new(subject.as_str()),
                    mode: *mode,
                    epoch: self.epoch,
                };
                let oid = observation.id();
                proof {
                    oid.lemma_with_bytes();
                    assert(crate::evidence::observation_bytes(observation) == framed_str(by@) + framed_str(subject@)
                        + seq![mode_byte(*mode)] + le_u64(t0.epoch.0));
                    assert(oid == observation_id_of(by@, subject@, *mode, t0.epoch));
                }
                let record = WitnessRecord {
                    witness: WitnessId::new(by.as_str()),
                    subject: SubjectId::new(subject.as_str()),
                    about: None,
                    stance: Stance::Corroborate,
                    observation: oid,
                    mode: *mode,
                    scope: scope(),
                    epoch: self.epoch,
                    trust_context: trust,
                };
                let input = Input::WitnessRecordReceived(record);
                assert(input@ == step_input(t0, *step));
                let ghost tn = *self;
                self.broadcast(by.as_str(), &input);
                proof {
                    lemma_broadcast_stepped(t0, tn, *step, self.actors@, input@);
                }
            },
            Step::Mute { by, subject } => {
                self.narrate(text(&["\u{2022} ", by.as_str(), "'s side mutes ", subject.as_str()]));
                let input = Input::QuarantineAssessed {
                    scope: scope(),
                    subject: SubjectId::new(subject.as_str()),
                    reason: QuarantineReason::ConflictPressure,
                };
                assert(input@ == step_input(t0, *step));
                let ghost tn = *self;
                self.broadcast(by.as_str(), &input);
                proof {
                    lemma_broadcast_stepped(t0, tn, *step, self.actors@, input@);
                }
            },
            Step::Ban { by, subject } => {
                self.narrate(text(&["\u{2022} ", by.as_str(), "'s side bans ", subject.as_str()]));
                let input = Input::RemovalAssessed {
                    scope: scope(),
                    subject: SubjectId::new(subject.as_str()),
                    basis: RemovalBasis::PolicyViolation,
                };
                assert(input@ == step_input(t0, *step));
                let ghost tn = *self;
                self.broadcast(by.as_str(), &input);
                proof {
                    lemma_broadcast_stepped(t0, tn, *step, self.actors@, input@);
                }
            },
            Step::Partition { group_b } => {
                let mut line = string_of("\u{2014} partition: {");
                let mut k: usize = 0;
                while k < group_b.len()
                    decreases group_b@.len() - k,
                {
                    if k > 0 {
                        line.append(", ");
                    }
                    line.append(group_b[k].as_str());
                    k = k + 1;
                }
                line.append("} split off \u{2014}");
                self.narrate(line);
                self.partition_room(group_b);
            },
            Step::Heal => {
                self.heal();
                proof {
                    assert forall|j: int| 0 <= j < t0.actors@.len() implies {
                        let a = #[trigger] t0.actors@[j];
                        let b = self.actors@[j];
                        &&& b.name == a.name
                        &&& b.trust == a.trust
                        &&& b.group == new_group(t0, *step, j)
                        &&& actor_model(b) == model_after_all(actor_model(a), delivery(t0, *step, j))
                    } by {
                        let a = t0.actors@[j];
                        match heal_sides(t0.actors@) {
                            Some((sa, ha, sb, hb)) => {
                                assert(regrouped(a, self.actors@[j], heal_input(t0.actors@, sa, ha, sb, hb)));
                                lemma_after_one(actor_model(a), heal_input(t0.actors@, sa, ha, sb, hb));
                            },
                            None => {
                                assert(model_after_all(actor_model(a), Seq::<InputV>::empty()) == actor_model(a));
                            },
                        }
                    }
                }
            },
            Step::Override { by, subject, to } => {
                self.narrate(text(&["\u{2022} operator ", by.as_str(), " overrides ", subject.as_str(), " -> ", to.as_str()]));
                let mut reason = string_of("operator ");
                reason.append(by.as_str());
                reason.append(" takes visible responsibility");
                let op = OperatorOverride {
                    operator: OperatorId::new(by.as_str()),
                    subject: SubjectId::new(subject.as_str()),
                    forced: *to,
                    reason,
                    epoch: self.epoch,
                };
                let input = Input::Override(op);
                assert(input@ == step_input(t0, *step));
                let ghost tn = *self;
                self.broadcast(by.as_str(), &input);
                proof {
                    lemma_broadcast_stepped(t0, tn, *step, self.actors@, input@);
                }
            },
            Step::Ticks(n) => {
                self.run_ticks(*n);
            },
            Step::Expect { on, subject, state } => {
                self.expect(on, subject, *state);
            },
            Step::ExpectResidue { min_unhandled, min_handled } => {
                self.expect_residue(*min_unhandled, *min_handled);
            },
            Step::ExpectConverged => {
                self.expect_converged();
            },
        }
        proof {
            if !is_check(*step) && !(*step is Partition) {
                assert(stepped(t0, *step, self.actors@));
            }
            if *step is Partition {
                assert forall|j: int| 0 <= j < t0.actors@.len() implies model_after_all(
                    actor_model(#[trigger] t0.actors@[j]),
                    delivery(t0, *step, j),
                ) == actor_model(t0.actors@[j]) by {
                    assert(delivery(t0, *step, j) =~= Seq::<InputV>::empty());
                }
                assert(stepped(t0, *step, self.actors@));
            }
        }
        let ghost mid = self.actors@;
        self.settle();
        proof {
            if !is_check(*step) {
                assert forall|j: int| 0 <= j < t0.actors@.len() implies {
                    let a = #[trigger] t0.actors@[j];
                    let b = self.actors@[j];
                    &&& b.name == a.name
                    &&& b.trust == a.trust
                    &&& b.group == new_group(t0, *step, j)
                    &&& actor_model(b) == settled(model_after_all(actor_model(a), delivery(t0, *step, j)))
                } by {
                    assert(moved(mid[j], self.actors@[j], settle_inputs(mid[j])));
                    lemma_settle_inputs_model(mid[j]);
                }
            }
        }
    }

    fn expect(&mut self, on: &Option<String>, subject: &String, state: BeliefState)
        requires
            old(self).wf(),
        ensures
            final(self).wf(),
            final(self).ticks == old(self).ticks,
            final(self).report.name == old(self).report.name,
            keeps(old(self).report.lines@, final(self).report.lines@),
            final(self).actors@.len() == old(self).actors@.len(),
            final(self).actors@ == old(self).actors@,
            final(self).partitioned == old(self).partitioned,
            final(self).epoch == old(self).epoch,
            strings_view(final(self).report.failures@) == strings_view(old(self).report.failures@) + expect_misses(
                old(self).actors@,
                opt_view(*on),
                subject@,
                state,
            ),
            strings_view(final(self).report.lines@) == strings_view(old(self).report.lines@).push(
                expect_note(opt_view(*on), subject@, state),
            ),
    {
        let subject_id = SubjectId::new(subject.as_str());
        let room = scope();
        let ghost f0 = strings_view(self.report.failures@);
        let mut i: usize = 0;
        while i < self.actors.len()
            invariant
                i <= self.actors@.len(),
                room@ == "room:theater"@,
                subject_id@ == subject@,
                self.wf(),
                self.ticks == old(self).ticks,
                self.report.name == old(self).report.name,
                self.report.lines@ == old(self).report.lines@,
                self.actors@ == old(self).actors@,
                self.partitioned == old(self).partitioned,
                self.epoch == old(self).epoch,
                f0 == strings_view(old(self).report.failures@),
                strings_view(self.report.failures@) == f0 + expect_misses(
                    self.actors@.subrange(0, i as int),
                    opt_view(*on),
                    subject@,
                    state,
                ),
            decreases self.actors@.len() - i,
        {
            let ghost a = self.actors@[i as int];
            let ghost pre = self.actors@.subrange(0, i as int);
            assert(self.actors@.subrange(0, i + 1).drop_last() =~= pre);
            assert(self.actors@.subrange(0, i + 1).last() == a);
            let checked = match on {
                Some(name) => same_text(name.as_str(), self.actors[i].name.as_str()),
                None => true,
            };
            let got: Option<BeliefState> = match self.actors[i].kernel.view(&room) {
                Some(view) => match view.belief(&subject_id) {
                    Some(cell) => Some(cell.state()),
                    None => None,
                },
                None => None,
            };
            assert(got == believed(a, subject@));
            let matches = match got {
                Some(g) => g == state,
                None => false,
            };
            if checked && !matches {
                let mut line = string_of(self.actors[i].name.as_str());
                line.append(" believes ");
                line.append(subject.as_str());
                line.append(" is ");
                match got {
                    Some(g) => {
                        line.append("Some(");
                        line.append(state_debug(g));
                        line.append(")");
                    },
                    None => line.append("None"),
                }
                line.append(", expected ");
                line.append(state.as_str());
                assert(line@ =~= miss_text(a, subject@, state));
                let ghost fb = strings_view(self.report.failures@);
                self.fail(line);
                assert(strings_view(self.report.failures@) =~= fb.push(miss_text(a, subject@, state)));
            }
            i = i + 1;
            assert(strings_view(self.report.failures@) =~= f0 + expect_misses(
                self.actors@.subrange(0, i as int),
                opt_view(*on),
                subject@,
                state,
            ));
        }
        assert(self.actors@.subrange(0, i as int) =~= self.actors@);
        let mut note = string_of("\u{2713} ");
        match on {
            Some(name) => note.append(name.as_str()),
            None => note.append("all reachable actors"),
        }
        note.append(" believe ");
        note.append(subject.as_str());
        note.append(" is ");
        note.append(state.as_str());
        assert(note@ =~= expect_note(opt_view(*on), subject@, state));
        let ghost lb = strings_view(self.report.lines@);
        self.narrate(note);
        assert(strings_view(self.report.lines@) =~= lb.push(expect_note(opt_view(*on), subject@, state)));
    }

    fn expect_residue(&mut self, min_unhandled: usize, min_handled: usize)
        requires
            old(self).wf(),
        ensures
            final(self).wf(),
            final(self).ticks == old(self).ticks,
            final(self).report.name == old(self).report.name,
            keeps(old(self).report.lines@, final(self).report.lines@),
            final(self).actors@.len() == old(self).actors@.len(),
            final(self).actors@ == old(self).actors@,
            final(self).partitioned == old(self).partitioned,
            final(self).epoch == old(self).epoch,
            ({
                let (fails, oks) = residue_report(old(self).actors@, min_unhandled as nat, min_handled as nat);
                &&& strings_view(final(self).report.failures@) == strings_view(old(self).report.failures@) + fails
                &&& strings_view(final(self).report.lines@) == strings_view(old(self).report.lines@) + if oks.len()
                    > 0 {
                    seq!["\u{2713} residue visible ("@ + oks[0] + ")"@]
                } else {
                    Seq::empty()
                }
            }),
    {
        let room = scope();
        let mut oks: Vec<String> = Vec::new();
        let mut fails: Vec<String> = Vec::new();
        let mut i: usize = 0;
        while i < self.actors.len()
            invariant
                i <= self.actors@.len(),
                room@ == "room:theater"@,
                ({
                    let (f, o) = residue_report(self.actors@.subrange(0, i as int), min_unhandled as nat, min_handled as nat);
                    strings_view(fails@) == f && strings_view(oks@) == o
                }),
            decreases self.actors@.len() - i,
        {
            let ghost a = self.actors@[i as int];
            assert(self.actors@.subrange(0, i + 1).drop_last() =~= self.actors@.subrange(0, i as int));
            assert(self.actors@.subrange(0, i + 1).last() == a);
            let ghost fb = strings_view(fails@);
            let ghost ob = strings_view(oks@);
            match self.actors[i].kernel.view(&room) {
                Some(view) => {
                    let unhandled = view.residue().unhandled();
                    let total = view.residue().len();
                    let handled = if total >= unhandled {
                        total - unhandled
                    } else {
                        0
                    };
                    let ghost c = (unhandled as nat, handled as nat);
                    assert(residue_counts(a) == Some(c));
                    if unhandled < min_unhandled || handled < min_handled {
                        let mut line = string_of(self.actors[i].name.as_str());
                        line.append(": residue unhandled=");
                        push_decimal(&mut line, unhandled as u64);
                        line.append(" handled=");
                        push_decimal(&mut line, handled as u64);
                        line.append(", expected >= ");
                        push_decimal(&mut line, min_unhandled as u64);
                        line.append("/");
                        push_decimal(&mut line, min_handled as u64);
                        assert(line@ =~= residue_fail_text(a, c, min_unhandled as nat, min_handled as nat));
                        fails.push(line);
                        assert(strings_view(fails@) =~= fb.push(residue_fail_text(a, c, min_unhandled as nat, min_handled as nat)));
                    } else {
                        let mut line = string_of(self.actors[i].name.as_str());
                        line.append(": ");
                        push_decimal(&mut line, unhandled as u64);
                        line.append(" unhandled / ");
                        push_decimal(&mut line, handled as u64);
                        line.append(" handled");
                        assert(line@ =~= residue_ok_text(a, c));
                        oks.push(line);
                        assert(strings_view(oks@) =~= ob.push(residue_ok_text(a, c)));
                    }
                },
                None => {},
            }
            i = i + 1;
        }
        assert(self.actors@.subrange(0, i as int) =~= self.actors@);
        let ghost fv = strings_view(fails@);
        let ghost f0 = strings_view(self.report.failures@);
        let mut k: usize = 0;
        while k < fails.len()
            invariant
                k <= fails@.len(),
                fv == strings_view(fails@),
                self.wf(),
                self.ticks == old(self).ticks,
                self.report.name == old(self).report.name,
                self.report.lines@ == old(self).report.lines@,
                self.actors@ == old(self).actors@,
                self.partitioned == old(self).partitioned,
                self.epoch == old(self).epoch,
                strings_view(self.report.failures@) == f0 + fv.subrange(0, k as int),
            decreases fails@.len() - k,
        {
            let ghost fb = strings_view(self.report.failures@);
            let line = fails[k].clone();
            self.fail(line);
            assert(strings_view(self.report.failures@) =~= fb.push(fv[k as int]));
            k = k + 1;
            assert(f0 + fv.subrange(0, k as int) =~= fb.push(fv[k - 1]));
        }
        assert(fv.subrange(0, k as int) =~= fv);
        let ghost lb = strings_view(self.report.lines@);
        if oks.len() > 0 {
            let mut line = string_of("\u{2713} residue visible (");
            line.append(oks[0].as_str());
            line.append(")");
            self.narrate(line);
            assert(strings_view(self.report.lines@) =~= lb + seq![line@]);
        } else {
            assert(lb =~= lb + Seq::<Seq<char>>::empty());
        }
    }

    fn expect_converged(&mut self)
        requires
            old(self).wf(),
        ensures
            final(self).wf(),
            final(self).ticks == old(self).ticks,
            final(self).report.name == old(self).report.name,
            keeps(old(self).report.lines@, final(self).report.lines@),
            final(self).actors@.len() == old(self).actors@.len(),
            final(self).actors@ == old(self).actors@,
            final(self).partitioned == old(self).partitioned,
            final(self).epoch == old(self).epoch,
            ({
                let es = converge_entries(old(self).actors@);
                if all_converged(es) {
                    &&& strings_view(final(self).report.lines@) == strings_view(old(self).report.lines@).push(
                        "\u{2713} all "@ + decimal(es.len()) + " actors converged (digest "@ + hex_of(
                            es[0].1.unwrap().subrange(0, 6),
                        ) + ")"@,
                    )
                    &&& final(self).report.failures@ == old(self).report.failures@
                } else {
                    &&& strings_view(final(self).report.failures@) == strings_view(old(self).report.failures@).push(
                        "views diverged: "@ + hashes_text(es),
                    )
                    &&& final(self).report.lines@ == old(self).report.lines@
                }
            }),
    {
        let room = scope();
        let ghost es = converge_entries(self.actors@);
        let mut hashes: Vec<(String, Option<[u8; 32]>)> = Vec::new();
        let mut i: usize = 0;
        while i < self.actors.len()
            invariant
                i <= self.actors@.len(),
                room@ == "room:theater"@,
                es == converge_entries(self.actors@),
                hashes@.len() == i,
                hash_entries_view(hashes@) == es.subrange(0, i as int),
            decreases self.actors@.len() - i,
        {
            let h = match self.actors[i].kernel.view(&room) {
                Some(view) => Some(RepairDigest::of(view).content_hash),
                None => None,
            };
            let ghost hb = hash_entries_view(hashes@);
            hashes.push((self.actors[i].name.clone(), h));
            assert(hash_entries_view(hashes@) =~= hb.push(es[i as int]));
            i = i + 1;
            assert(es.subrange(0, i as int) =~= hb.push(es[i - 1]));
        }
        assert(es.subrange(0, i as int) =~= es);
        let ghost hv = hash_entries_view(hashes@);
        let first: Option<[u8; 32]> = if hashes.len() > 0 {
            hashes[0].1
        } else {
            None
        };
        let ghost fv: Option<Seq<u8>> = match first {
            Some(x) => Some(x@),
            None => None,
        };
        assert(hashes@.len() > 0 ==> fv == hv[0].1);
        let mut all_same = true;
        let mut k: usize = 0;
        while k < hashes.len()
            invariant
                k <= hashes@.len(),
                hv == hash_entries_view(hashes@),
                hv.len() == hashes@.len(),
                fv == (match first {
                    Some(x) => Some(x@),
                    None => None,
                }),
                all_same <==> forall|j: int| 0 <= j < k ==> (#[trigger] hv[j]).1 == fv,
            decreases hashes@.len() - k,
        {
            let same = match (&hashes[k].1, &first) {
                (Some(x), Some(y)) => crate::order::bytes_equal(x.as_slice(), y.as_slice()),
                (None, None) => true,
                _ => false,
            };
            assert(same == (hv[k as int].1 == fv));
            if !same {
                all_same = false;
            }
            k = k + 1;
        }
        match first {
            Some(h) if all_same => {
                assert(all_converged(es));
                let mut line = string_of("\u{2713} all ");
                push_decimal(&mut line, hashes.len() as u64);
                line.append(" actors converged (digest ");
                let hex = crate::net::present::hex_prefix(&h, 6);
                line.append(hex.as_str());
                line.append(")");
                let ghost lb = strings_view(self.report.lines@);
                self.narrate(line);
                assert(strings_view(self.report.lines@) =~= lb.push(line@));
            },
            _ => {
                assert(!all_converged(es)) by {
                    if all_converged(es) {
                        assert(hv[0].1 == fv);
                        assert(forall|j: int| 0 <= j < hv.len() ==> (#[trigger] hv[j]).1 == fv);
                    }
                }
                let mut line = string_of("views diverged: ");
                line.append(hashes_listing(&hashes).as_str());
                let ghost fb = strings_view(self.report.failures@);
                self.fail(line);
                assert(strings_view(self.report.failures@) =~= fb.push(line@));
            },
        }
    }
}

fn contains_name(names: &Vec<String>, name: &str) -> (r: bool)
    ensures
        r == exists|k: int| 0 <= k < names@.len() && (#[trigger] names@[k])@ == name@,
{
    let mut k: usize = 0;
    while k < names.len()
        invariant
            k <= names@.len(),
            forall|j: int| 0 <= j < k ==> (#[trigger] names@[j])@ != name@,
        decreases names@.len() - k,
    {
        if same_text(names[k].as_str(), name) {
            return true;
        }
        k = k + 1;
    }
    false
}


proof fn lemma_max_round_bounded(rounds: Seq<u64>, m: u64)
    requires
        forall|j: int| 0 <= j < rounds.len() ==> rounds[j] <= m,
    ensures
        max_round(rounds) <= m,
    decreases rounds.len(),
{
    if rounds.len() > 0 {
        lemma_max_round_bounded(rounds.drop_last(), m);
    }
}

/// The keys of `entries`, added in order to the sorted set `s`.
spec fn keys_added(
    s: Seq<Seq<char>>,
    entries: Seq<(Seq<char>, crate::merge::BeliefFragment)>,
) -> Seq<Seq<char>>
    decreases entries.len(),
{
    if entries.len() == 0 {
        s
    } else {
        crate::collections::set_insert::<SubjectId>(keys_added(s, entries.drop_last()), entries.last().0)
    }
}

/// The subjects a reunion of two sides covers: those of either side, in
/// key order, each once.
spec fn reunion_subjects(a: MergeSideV, b: MergeSideV) -> Seq<Seq<char>> {
    keys_added(keys_added(Seq::empty(), a.fragments), b.fragments)
}

/// Every actor's current round.
spec fn rounds_of(actors: Seq<Actor>) -> Seq<u64> {
    actors.map_values(|a: Actor| a.kernel.model().round.0)
}

/// The two reunion sides a heal offers, with their digest hashes: one
/// from the first actor of each group, the side with the lower hash
/// first. None when a group is empty or its first actor holds no room.
#[verifier::opaque]
spec fn heal_sides(actors: Seq<Actor>) -> Option<(MergeSideV, Seq<u8>, MergeSideV, Seq<u8>)> {
    if (exists|i: int| is_first_in_group(actors, 0, i)) && (exists|i: int| is_first_in_group(actors, 1, i)) {
        let x = actors[choose|i: int| is_first_in_group(actors, 0, i)];
        let y = actors[choose|i: int| is_first_in_group(actors, 1, i)];
        match (room_view(x), room_view(y)) {
            (Some(vx), Some(vy)) => {
                let hx = repair_digest_of(vx).content_hash;
                let hy = repair_digest_of(vy).content_hash;
                if lex_order(hx, hy) <= 0 {
                    Some((actor_side(x, vx), hx, actor_side(y, vy), hy))
                } else {
                    Some((actor_side(y, vy), hy, actor_side(x, vx), hx))
                }
            },
            _ => None,
        }
    } else {
        None
    }
}

/// The rendezvous round of a heal between sides hashed `ha` and `hb`.
spec fn heal_round(actors: Seq<Actor>, ha: Seq<u8>, hb: Seq<u8>) -> int {
    max_round(rounds_of(actors)) + 16 + rendezvous_jitter(ha, hb)
}

/// The reunion every actor runs when the room heals.
spec fn heal_input(actors: Seq<Actor>, sa: MergeSideV, ha: Seq<u8>, sb: MergeSideV, hb: Seq<u8>) -> InputV {
    InputV::ReunionRequested {
        scope: "room:theater"@,
        round: Round(heal_round(actors, ha, hb) as u64),
        subjects: reunion_subjects(sa, sb),
        side_a: sa,
        side_b: sb,
        operator_override: None,
    }
}

/// The narration of a reunion.
spec fn reunion_line(round: int, sa: MergeSideV, sb: MergeSideV) -> Seq<char> {
    "\u{2022} deterministic reunion at r"@ + decimal(round as nat) + " between "@ + sa.label + " and "@ + sb.label
}


/// The subjects of a reunion between two sides, as the input lists them.
fn reunion_subject_list(
    side_a: &crate::merge::engine::MergeSide,
    side_b: &crate::merge::engine::MergeSide,
) -> (r: Vec<SubjectId>)
    ensures
        crate::merge::engine::subject_views(r@) == reunion_subjects(side_a@, side_b@),
{
    let mut keys: SortedSet<SubjectId> = SortedSet::new();
    let mut k: usize = 0;
    while k < side_a.fragments.len()
        invariant
            k <= side_a@.fragments.len(),
            keys@ == keys_added(Seq::empty(), side_a@.fragments.subrange(0, k as int)),
        decreases side_a.fragments@.len() - k,
    {
        keys.insert(side_a.fragments.key_at(k).duplicate());
        k = k + 1;
        assert(side_a@.fragments.subrange(0, k as int).drop_last() =~= side_a@.fragments.subrange(0, k - 1));
    }
    assert(side_a@.fragments.subrange(0, k as int) =~= side_a@.fragments);
    let ghost ka = keys@;
    let mut k: usize = 0;
    while k < side_b.fragments.len()
        invariant
            k <= side_b@.fragments.len(),
            keys@ == keys_added(ka, side_b@.fragments.subrange(0, k as int)),
        decreases side_b.fragments@.len() - k,
    {
        keys.insert(side_b.fragments.key_at(k).duplicate());
        k = k + 1;
        assert(side_b@.fragments.subrange(0, k as int).drop_last() =~= side_b@.fragments.subrange(0, k - 1));
    }
    assert(side_b@.fragments.subrange(0, k as int) =~= side_b@.fragments);
    assert(keys@ == reunion_subjects(side_a@, side_b@));
    let mut subjects: Vec<SubjectId> = Vec::new();
    let mut k: usize = 0;
    while k < keys.len()
        invariant
            k <= keys@.len(),
            crate::merge::engine::subject_views(subjects@) == keys@.subrange(0, k as int),
        decreases keys@.len() - k,
    {
        let ghost before = subjects@;
        let s = keys.at(k).duplicate();
        subjects.push(s);
        assert(subjects@ == before.push(s));
        assert(s@ == keys@[k as int]);
        k = k + 1;
        assert(subjects@.len() == before.len() + 1);
        assert(crate::merge::engine::subject_views(before).len() == before.len());
        assert(before.len() == k - 1);
        assert(crate::merge::engine::subject_views(subjects@).len() == k);
        assert(crate::merge::engine::subject_views(subjects@)[k - 1] == subjects@[k - 1]@);
        assert(crate::merge::engine::subject_views(subjects@)[k - 1] == s@);
        assert forall|j: int| 0 <= j < k implies #[trigger] crate::merge::engine::subject_views(subjects@)[j] == keys@[j] by {
            if j < k - 1 {
                assert(crate::merge::engine::subject_views(before)[j] == keys@.subrange(0, k - 1)[j]);
            }
        }
        assert(crate::merge::engine::subject_views(subjects@) =~= keys@.subrange(0, k as int));
    }
    assert(keys@.subrange(0, k as int) =~= keys@);
    subjects
}

impl Theater {
    /// Every actor's current round.
    fn rounds(&self) -> (r: Vec<u64>)
        requires
            self.wf(),
        ensures
            r@ == rounds_of(self.actors@),
            forall|j: int| 0 <= j < r@.len() ==> r@[j] <= self.ticks,
    {
        let mut rounds: Vec<u64> = Vec::new();
        let mut i: usize = 0;
        while i < self.actors.len()
            invariant
                i <= self.actors@.len(),
                self.wf(),
                rounds@ == rounds_of(self.actors@).subrange(0, i as int),
                forall|j: int| 0 <= j < i ==> rounds@[j] <= self.ticks,
            decreases self.actors@.len() - i,
        {
            assert(actor_ready(self.actors@[i as int], self.ticks));
            rounds.push(self.actors[i].kernel.round().get());
            i = i + 1;
            assert(rounds@ =~= rounds_of(self.actors@).subrange(0, i as int));
        }
        assert(rounds@ =~= rounds_of(self.actors@));
        rounds
    }

    /// Regroup every actor into one room and hand each the reunion input.
    fn reunite(&mut self, input: &Input)
        requires
            old(self).wf(),
            input@ is ReunionRequested,
        ensures
            final(self).wf(),
            final(self).ticks == old(self).ticks,
            final(self).report == old(self).report,
            final(self).partitioned == old(self).partitioned,
            final(self).epoch == old(self).epoch,
            final(self).actors@.len() == old(self).actors@.len(),
            forall|j: int|
                0 <= j < old(self).actors@.len() ==> regrouped(
                    #[trigger] old(self).actors@[j],
                    final(self).actors@[j],
                    input@,
                ),
    {
        let ghost olds = self.actors@;
        let ghost iv = input@;
        let n = self.actors.len();
        let mut i: usize = 0;
        while i < n
            invariant
                i <= n,
                n == self.actors@.len(),
                n == olds.len(),
                self.wf(),
                input@ == iv,
                iv is ReunionRequested,
                self.ticks == old(self).ticks,
                self.report == old(self).report,
                self.partitioned == old(self).partitioned,
                self.epoch == old(self).epoch,
                forall|j: int| i <= j < n ==> #[trigger] self.actors@[j] == olds[j],
                forall|j: int|
                    0 <= j < i ==> regrouped(#[trigger] olds[j], self.actors@[j], iv),
            decreases n - i,
        {
            let ghost before = self.actors@;
            let mut actor = self.actors.remove(i);
            assert(actor == before[i as int]);
            actor.group = 0;
            let ghost a0 = actor;
            deliver(&mut actor, input.duplicate(), Ghost(self.ticks));
            proof {
                assert(seq![iv].drop_last() =~= Seq::<InputV>::empty());
                assert(model_after_all(actor_model(a0), Seq::<InputV>::empty()) == actor_model(a0));
                assert(seq![iv].last() == iv);
                assert(model_after_all(actor_model(a0), seq![iv]) == model_after(actor_model(a0), iv));
            }
            self.actors.insert(i, actor);
            assert forall|j: int| 0 <= j < self.actors@.len() implies actor_ready(#[trigger] self.actors@[j], self.ticks) by {
                if j != i {
                    assert(self.actors@[j] == before[j]);
                }
            }
            assert forall|j: int| i + 1 <= j < n implies #[trigger] self.actors@[j] == olds[j] by {
                assert(self.actors@[j] == before[j]);
            }
            assert forall|j: int| 0 <= j < i implies #[trigger] self.actors@[j] == before[j] by {}
            i = i + 1;
        }
    }
}


/// The sides a heal offers, read off the first actors of both groups.
proof fn lemma_heal_sides(actors: Seq<Actor>, ia: int, ib: int)
    requires
        is_first_in_group(actors, 0, ia),
        is_first_in_group(actors, 1, ib),
    ensures
        heal_sides(actors) == match (room_view(actors[ia]), room_view(actors[ib])) {
            (Some(vx), Some(vy)) => {
                let hx = repair_digest_of(vx).content_hash;
                let hy = repair_digest_of(vy).content_hash;
                if lex_order(hx, hy) <= 0 {
                    Some((actor_side(actors[ia], vx), hx, actor_side(actors[ib], vy), hy))
                } else {
                    Some((actor_side(actors[ib], vy), hy, actor_side(actors[ia], vx), hx))
                }
            },
            _ => None,
        },
{
    reveal(heal_sides);
    let ca = choose|i: int| is_first_in_group(actors, 0, i);
    let cb = choose|i: int| is_first_in_group(actors, 1, i);
    lemma_first_in_group_unique(actors, 0, ia, ca);
    lemma_first_in_group_unique(actors, 1, ib, cb);
}

/// A heal offers no sides when a group is empty.
proof fn lemma_heal_sides_empty_group(actors: Seq<Actor>, group: u8)
    requires
        group == 0 || group == 1,
        forall|j: int| 0 <= j < actors.len() ==> (#[trigger] actors[j]).group != group,
    ensures
        heal_sides(actors) is None,
{
    reveal(heal_sides);
    if exists|i: int| is_first_in_group(actors, group, i) {
        let i = choose|i: int| is_first_in_group(actors, group, i);
        assert(actors[i].group != group);
    }
}


/// `b` is actor `a` moved into the one healed group and then fed `input`.
spec fn regrouped(a: Actor, b: Actor, input: InputV) -> bool {
    &&& b.name == a.name
    &&& b.trust == a.trust
    &&& b.group == 0
    &&& actor_model(b) == model_after(actor_model(a), input)
}

proof fn lemma_first_in_group_unique(actors: Seq<Actor>, group: u8, i: int, k: int)
    requires
        is_first_in_group(actors, group, i),
        is_first_in_group(actors, group, k),
    ensures
        i == k,
{
    if i < k {
        assert(actors[i].group != group);
    } else if k < i {
        assert(actors[k].group != group);
    }
}

impl Theater {
    /// The first actor (in name order) in `group`.
    fn first_in_group(&self, group: u8) -> (r: Option<usize>)
        ensures
            r matches Some(i) ==> i < self.actors@.len(),
            match r {
                Some(i) => is_first_in_group(self.actors@, group, i as int),
                None => forall|j: int| 0 <= j < self.actors@.len() ==> (#[trigger] self.actors@[j]).group != group,
            },
    {
        let mut i: usize = 0;
        while i < self.actors.len()
            invariant
                i <= self.actors@.len(),
                forall|j: int| 0 <= j < i ==> (#[trigger] self.actors@[j]).group != group,
            decreases self.actors@.len() - i,
        {
            if self.actors[i].group == group {
                return Some(i);
            }
            i = i + 1;
        }
        None
    }

    /// Actor `i`'s reunion side, with its view's digest hash.
    fn side_of(&self, i: usize) -> (r: Option<(crate::merge::engine::MergeSide, [u8; 32])>)
        requires
            i < self.actors@.len(),
        ensures
            match room_view(self.actors@[i as int]) {
                Some(v) => r matches Some(p) && p.0@ == actor_side(self.actors@[i as int], v) && p.1@
                    == repair_digest_of(v).content_hash,
                None => r is None,
            },
    {
        let room = scope();
        let actor = &self.actors[i];
        match actor.kernel.view(&room) {
            Some(view) => {
                let side = actor.evidence.merge_side(actor.name.as_str(), view, ScopeAuthority::Global);
                let hash = RepairDigest::of(view).content_hash;
                Some((side, hash))
            },
            None => None,
        }
    }

    /// Reconnect and run the same deterministic reunion on every actor:
    /// sides come from one representative view per group, oriented by
    /// digest hash, at a rendezvous round derived from both digests.
    #[verifier::spinoff_prover]
    fn heal(&mut self)
        requires
            old(self).wf(),
            old(self).ticks <= u64::MAX - 32,
        ensures
            final(self).wf(),
            final(self).ticks == old(self).ticks,
            final(self).report.name == old(self).report.name,
            keeps(old(self).report.lines@, final(self).report.lines@),
            final(self).actors@.len() == old(self).actors@.len(),
            !final(self).partitioned,
            final(self).epoch == old(self).epoch,
            final(self).report.failures@ == old(self).report.failures@,
            match heal_sides(old(self).actors@) {
                None => {
                    &&& final(self).actors@ == old(self).actors@
                    &&& strings_view(final(self).report.lines@) == strings_view(old(self).report.lines@).push(
                        "\u{2014} heal: islands reconnect \u{2014}"@,
                    )
                },
                Some((sa, ha, sb, hb)) => {
                    &&& strings_view(final(self).report.lines@) == strings_view(old(self).report.lines@).push(
                        "\u{2014} heal: islands reconnect \u{2014}"@,
                    ).push(reunion_line(heal_round(old(self).actors@, ha, hb), sa, sb))
                    &&& forall|j: int|
                        0 <= j < old(self).actors@.len() ==> regrouped(
                            #[trigger] old(self).actors@[j],
                            final(self).actors@[j],
                            heal_input(old(self).actors@, sa, ha, sb, hb),
                        )
                },
            },
    {
        let ghost olds = self.actors@;
        let ghost lines0 = strings_view(self.report.lines@);
        self.narrate(string_of("\u{2014} heal: islands reconnect \u{2014}"));
        self.partitioned = false;
        let ghost lines1 = strings_view(self.report.lines@);
        assert(lines1 =~= lines0.push("\u{2014} heal: islands reconnect \u{2014}"@));
        let (ia, ib) = match (self.first_in_group(0), self.first_in_group(1)) {
            (Some(x), Some(y)) => (x, y),
            // Never partitioned into two groups: nothing to reunite.
            (None, _) => {
                proof {
                    lemma_heal_sides_empty_group(olds, 0);
                }
                return;
            },
            (_, None) => {
                proof {
                    lemma_heal_sides_empty_group(olds, 1);
                }
                return;
            },
        };
        proof {
            lemma_heal_sides(olds, ia as int, ib as int);
        }
        let (side_x, hash_x) = match self.side_of(ia) {
            Some(p) => p,
            None => return,
        };
        let (side_y, hash_y) = match self.side_of(ib) {
            Some(p) => p,
            None => return,
        };
        // Orientation by digest hash: lower hash is side A, so every
        // participant computes the identical reunion input.
        let x_first = crate::order::compare_bytes(hash_x.as_slice(), hash_y.as_slice()) <= 0;
        let (side_a, hash_a, side_b, hash_b) = if x_first {
            (side_x, hash_x, side_y, hash_y)
        } else {
            (side_y, hash_y, side_x, hash_x)
        };
        assert(heal_sides(olds) == Some((side_a@, hash_a@, side_b@, hash_b@)));
        let rounds = self.rounds();
        proof {
            lemma_max_round_bounded(rounds@, self.ticks);
        }
        let round = rendezvous_round(rounds.as_slice(), &hash_a, &hash_b);
        assert(round.0 == heal_round(olds, hash_a@, hash_b@));
        let subjects = reunion_subject_list(&side_a, &side_b);
        let mut line = string_of("\u{2022} deterministic reunion at r");
        push_decimal(&mut line, round.get());
        line.append(" between ");
        line.append(side_a.label.as_str());
        line.append(" and ");
        line.append(side_b.label.as_str());
        assert(line@ == reunion_line(heal_round(olds, hash_a@, hash_b@), side_a@, side_b@));
        self.narrate(line);
        assert(strings_view(self.report.lines@) =~= lines1.push(line@));
        let input = Input::ReunionRequested {
            scope: scope(),
            round,
            subjects,
            side_a,
            side_b,
            operator_override: None,
        };
        let ghost iv = input@;
        assert(iv == heal_input(olds, side_a@, hash_a@, side_b@, hash_b@));
        let ghost lines2 = strings_view(self.report.lines@);
        self.reunite(&input);
        assert(strings_view(self.report.lines@) == lines2);
        assert(lines2 == lines0.push("\u{2014} heal: islands reconnect \u{2014}"@).push(
            reunion_line(heal_round(olds, hash_a@, hash_b@), side_a@, side_b@),
        ));
    }
}


impl Theater {
    /// Split the room: actors listed in `group_b` go to group 1, the rest
    /// to group 0.
    fn partition_room(&mut self, group_b: &Vec<String>)
        requires
            old(self).wf(),
        ensures
            final(self).wf(),
            final(self).ticks == old(self).ticks,
            final(self).report == old(self).report,
            final(self).partitioned,
            final(self).epoch == old(self).epoch,
            final(self).actors@.len() == old(self).actors@.len(),
            forall|j: int|
                0 <= j < old(self).actors@.len() ==> {
                    let a = #[trigger] old(self).actors@[j];
                    let b = final(self).actors@[j];
                    &&& b.name == a.name
                    &&& b.trust == a.trust
                    &&& b.group == (if listed(strings_view(group_b@), a.name@) {
                        1u8
                    } else {
                        0u8
                    })
                    &&& actor_model(b) == actor_model(a)
                },
    {
        let ghost olds = self.actors@;
        self.partitioned = true;
        let n = self.actors.len();
        let mut i: usize = 0;
        while i < n
            invariant
                i <= n,
                n == self.actors@.len(),
                n == olds.len(),
                self.wf(),
                self.ticks == old(self).ticks,
                self.report == old(self).report,
                self.partitioned,
                self.epoch == old(self).epoch,
                olds == old(self).actors@,
                forall|j: int| i <= j < n ==> #[trigger] self.actors@[j] == olds[j],
                forall|j: int|
                    0 <= j < i ==> {
                        let a = #[trigger] olds[j];
                        let b = self.actors@[j];
                        &&& b.name == a.name
                        &&& b.trust == a.trust
                        &&& b.group == (if listed(strings_view(group_b@), a.name@) {
                            1u8
                        } else {
                            0u8
                        })
                        &&& actor_model(b) == actor_model(a)
                    },
            decreases n - i,
        {
            let ghost before = self.actors@;
            let mut actor = self.actors.remove(i);
            assert(actor == before[i as int]);
            let inb = contains_name(group_b, actor.name.as_str());
            proof {
                if inb {
                    let k = choose|k: int| 0 <= k < group_b@.len() && (#[trigger] group_b@[k])@ == actor.name@;
                    assert(strings_view(group_b@)[k] == group_b@[k]@);
                }
                if listed(strings_view(group_b@), actor.name@) {
                    let k = choose|k: int| 0 <= k < strings_view(group_b@).len() && strings_view(group_b@)[k] == actor.name@;
                    assert(group_b@[k]@ == strings_view(group_b@)[k]);
                }
            }
            actor.group = if inb {
                1
            } else {
                0
            };
            self.actors.insert(i, actor);
            assert forall|j: int| 0 <= j < self.actors@.len() implies actor_ready(#[trigger] self.actors@[j], self.ticks) by {
                if j != i {
                    assert(self.actors@[j] == before[j]);
                }
            }
            assert forall|j: int| i + 1 <= j < n implies #[trigger] self.actors@[j] == olds[j] by {
                assert(self.actors@[j] == before[j]);
            }
            assert forall|j: int| 0 <= j < i + 1 implies {
                let a = #[trigger] olds[j];
                let b = self.actors@[j];
                &&& b.name == a.name
                &&& b.trust == a.trust
                &&& b.group == (if listed(strings_view(group_b@), a.name@) {
                    1u8
                } else {
                    0u8
                })
                &&& actor_model(b) == actor_model(a)
            } by {
                if j != i {
                    assert(self.actors@[j] == before[j]);
                }
            }
            i = i + 1;
        }
    }

    /// Advance every actor's round clock `n` times.
    fn run_ticks(&mut self, n: u64)
        requires
            old(self).wf(),
            old(self).ticks + n <= u64::MAX - 32,
        ensures
            final(self).wf(),
            final(self).ticks == old(self).ticks + n,
            final(self).report.name == old(self).report.name,
            final(self).report.lines@ == old(self).report.lines@,
            final(self).report.failures@ == old(self).report.failures@,
            final(self).partitioned == old(self).partitioned,
            final(self).epoch == old(self).epoch,
            final(self).actors@.len() == old(self).actors@.len(),
            forall|j: int|
                0 <= j < old(self).actors@.len() ==> {
                    let a = #[trigger] old(self).actors@[j];
                    let b = final(self).actors@[j];
                    &&& b.name == a.name
                    &&& b.trust == a.trust
                    &&& b.group == a.group
                    &&& actor_model(b) == model_after_all(actor_model(a), tick_inputs(n as nat))
                },
    {
        let ghost olds = self.actors@;
        let mut t: u64 = 0;
        let start = self.ticks;
        proof {
            assert(tick_inputs(0) =~= Seq::<InputV>::empty());
        }
        while t < n
            invariant
                t <= n,
                start + n <= u64::MAX - 32,
                self.ticks == start + t,
                start == old(self).ticks,
                self.wf(),
                self.report.name == old(self).report.name,
                self.report.lines@ == old(self).report.lines@,
                self.report.failures@ == old(self).report.failures@,
                self.actors@.len() == olds.len(),
                self.partitioned == old(self).partitioned,
                self.epoch == old(self).epoch,
                olds == old(self).actors@,
                forall|j: int|
                    0 <= j < olds.len() ==> {
                        let a = #[trigger] olds[j];
                        let b = self.actors@[j];
                        &&& b.name == a.name
                        &&& b.trust == a.trust
                        &&& b.group == a.group
                        &&& actor_model(b) == model_after_all(actor_model(a), tick_inputs(t as nat))
                    },
            decreases n - t,
        {
            let ghost before = self.actors@;
            self.tick_all();
            proof {
                assert(tick_inputs((t + 1) as nat) =~= tick_inputs(t as nat) + seq![InputV::Tick]);
                assert forall|j: int| 0 <= j < olds.len() implies {
                    let a = #[trigger] olds[j];
                    let b = self.actors@[j];
                    &&& b.name == a.name
                    &&& b.trust == a.trust
                    &&& b.group == a.group
                    &&& actor_model(b) == model_after_all(actor_model(a), tick_inputs((t + 1) as nat))
                } by {
                    let a = olds[j];
                    assert(moved(before[j], self.actors@[j], seq![InputV::Tick]));
                    lemma_after_all_concat(actor_model(a), tick_inputs(t as nat), seq![InputV::Tick]);
                }
            }
            t = t + 1;
        }
    }
}

proof fn lemma_story_ticks_prefix(s: Seq<Step>, i: int)
    requires
        0 <= i <= s.len(),
    ensures
        story_ticks(s.subrange(0, i)) <= story_ticks(s),
    decreases s.len() - i,
{
    if i == s.len() {
        assert(s.subrange(0, i) =~= s);
    } else {
        lemma_story_ticks_prefix(s, i + 1);
        let next = s.subrange(0, i + 1);
        assert(next.drop_last() =~= s.subrange(0, i));
    }
}

proof fn lemma_story_ticks_step(s: Seq<Step>, i: int)
    requires
        0 <= i < s.len(),
    ensures
        story_ticks(s.subrange(0, i + 1)) == story_ticks(s.subrange(0, i)) + story_ticks(seq![s[i]]),
{
    let next = s.subrange(0, i + 1);
    assert(next.drop_last() =~= s.subrange(0, i));
    assert(next.last() == s[i]);
    let one = seq![s[i]];
    assert(one.drop_last() =~= Seq::<Step>::empty());
    assert(one.last() == s[i]);
    assert(story_ticks(Seq::<Step>::empty()) == 0);
}

/// `p` is where `name` goes in actors kept in name-byte order: after
/// every actor whose name sorts before it, at the first that does not.
spec fn insert_point(actors: Seq<Actor>, name: Seq<char>, p: int) -> bool {
    &&& 0 <= p <= actors.len()
    &&& forall|j: int| 0 <= j < p ==> lex_order(encode_utf8((#[trigger] actors[j]).name@), encode_utf8(name)) < 0
    &&& p < actors.len() ==> lex_order(encode_utf8(actors[p].name@), encode_utf8(name)) >= 0
}

/// `after` is `before` with `actor` placed by name: it replaces an actor
/// of the same name at its insertion point, or is inserted there.
spec fn placed(before: Seq<Actor>, actor: Actor, after: Seq<Actor>) -> bool {
    exists|p: int| #[trigger] insert_point(before, actor.name@, p) && if p < before.len() && before[p].name@ == actor.name@ {
        after == before.update(p, actor)
    } else {
        after == before.insert(p, actor)
    }
}

/// Insert an actor keeping the list in name order; a later actor with the
/// same name replaces the earlier one.
fn place_actor(actors: &mut Vec<Actor>, actor: Actor, Ghost(ticks): Ghost<u64>)
    requires
        forall|j: int| 0 <= j < old(actors)@.len() ==> actor_ready(#[trigger] old(actors)@[j], ticks),
        actor_ready(actor, ticks),
    ensures
        forall|j: int| 0 <= j < final(actors)@.len() ==> actor_ready(#[trigger] final(actors)@[j], ticks),
        placed(old(actors)@, actor, final(actors)@),
{
    let mut p: usize = 0;
    let mut placing = true;
    while placing && p < actors.len()
        invariant
            p <= actors@.len(),
            actors@ == old(actors)@,
            forall|j: int| 0 <= j < p ==> lex_order(encode_utf8((#[trigger] actors@[j]).name@), encode_utf8(actor.name@)) < 0,
            !placing ==> p < actors@.len() && lex_order(encode_utf8(actors@[p as int].name@), encode_utf8(actor.name@)) >= 0,
        decreases actors@.len() - p, if placing { 1int } else { 0int },
    {
        if crate::order::compare_bytes(actors[p].name.as_str().as_bytes(), actor.name.as_str().as_bytes()) >= 0 {
            placing = false;
        } else {
            p = p + 1;
        }
    }
    let ghost before = actors@;
    assert(insert_point(before, actor.name@, p as int));
    if p < actors.len() && same_text(actors[p].name.as_str(), actor.name.as_str()) {
        actors.remove(p);
        actors.insert(p, actor);
        assert(actors@ =~= before.update(p as int, actor));
    } else {
        actors.insert(p, actor);
    }
    assert forall|j: int| 0 <= j < actors@.len() implies actor_ready(#[trigger] actors@[j], ticks) by {
        if j < p {
            assert(actors@[j] == before[j]);
        } else if j > p {
            if actors@.len() == before.len() {
                assert(actors@[j] == before[j]);
            } else {
                assert(actors@[j] == before[j - 1]);
            }
        }
    }
}

impl Theater {
    fn new(story: &Story) -> (r: Self)
        ensures
            r.wf(),
            r.ticks == 0,
            r.report.name@ == story.name@,
            r.report.lines@.len() == 0,
            r.report.failures@.len() == 0,
            !r.partitioned,
            r.epoch == Epoch(1),
            cast_placed(cast_view(story.actors@), story.creator@, r.actors@),
    {
        let mut actors: Vec<Actor> = Vec::new();
        let mut i: usize = 0;
        let ghost cast = cast_view(story.actors@);
        proof {
            assert(cast.subrange(0, 0).len() == 0);
        }
        while i < story.actors.len()
            invariant
                i <= story.actors@.len(),
                cast == cast_view(story.actors@),
                forall|j: int| 0 <= j < actors@.len() ==> actor_ready(#[trigger] actors@[j], 0),
                cast_placed(cast.subrange(0, i as int), story.creator@, actors@),
            decreases story.actors@.len() - i,
        {
            let mut evidence = EvidenceBook::new();
            proof {
                assert(evidence@.records =~= Seq::empty());
                assert(evidence@.lineage =~= Seq::empty());
                assert(evidence@.trust_roots =~= Seq::empty());
                assert(evidence@ == EvidenceBookV { records: Seq::empty(), lineage: Seq::empty(), trust_roots: Seq::empty() });
            }
            evidence.mark_trust_root(&scope(), WitnessId::new(story.creator.as_str()));
            let actor = Actor {
                name: story.actors[i].0.clone(),
                kernel: Kernel::new(PolicyBundle::default()),
                transcript: Transcript::new(),
                evidence,
                trust: TrustGrade::new(story.actors[i].1),
                group: 0,
            };
            proof {
                assert(actor.evidence@ == creator_book(story.creator@));
                assert(actor.transcript@ =~= Seq::<crate::transcript::SealedEventV>::empty());
                assert(chain_events(actor.transcript@) =~= Seq::<TranscriptEventV>::empty());
                assert(actor_model(actor) == start_model(story.creator@));
            }
            let ghost before = actors@;
            place_actor(&mut actors, actor, Ghost(0));
            proof {
                let next = cast.subrange(0, i + 1);
                assert(next.drop_last() =~= cast.subrange(0, i as int));
                assert(next.last() == cast[i as int]);
                assert(placed(before, actor, actors@));
            }
            i = i + 1;
        }
        proof {
            assert(cast.subrange(0, i as int) =~= cast);
        }
        Theater {
            actors,
            partitioned: false,
            epoch: Epoch(1),
            ticks: 0,
            report: StoryReport { name: story.name.clone(), lines: Vec::new(), failures: Vec::new() },
        }
    }
}

/// Run a story to completion.
pub fn run_story(story: &Story) -> (r: StoryReport)
    requires
        story_ticks(story.steps@) <= u64::MAX - 32,
    ensures
        r.name@ == story.name@,
        r.lines@.len() >= 3,
        r.lines@[0]@ == "=== "@ + story.name@ + " ==="@,
        r.lines@[1]@ == story.blurb@,
        r.lines@.last()@ == "=== "@ + story.name@ + " "@ + (if r.failures@.len() == 0 {
            "PASSED"@
        } else {
            "FAILED"@
        }) + " ==="@,
        (forall|j: int| 0 <= j < story.steps@.len() ==> !is_check(#[trigger] story.steps@[j]))
            ==> r.failures@.len() == 0,
        exists|states: Seq<Theater>|
            {
                &&& states.len() == story.steps@.len() + 1
                &&& story_start(*story, states[0])
                &&& forall|i: int|
                    0 <= i < story.steps@.len() ==> step_relation(
                        #[trigger] states[i],
                        story.steps@[i],
                        states[i + 1],
                    )
                &&& strings_view(r.failures@) == story_failures(states, story.steps@)
            },
{
    let mut theater = Theater::new(story);
    let mut header = string_of("=== ");
    header.append(story.name.as_str());
    header.append(" ===");
    theater.narrate(header);
    theater.narrate(story.blurb.clone());
    let ghost head = theater.report.lines@;
    let ghost pre = theater.actors@;
    let n = theater.actors.len();
    let mut i: usize = 0;
    while i < n
        invariant
            i <= n,
            n == theater.actors@.len(),
            theater.wf(),
            theater.ticks == 0,
            theater.report.name@ == story.name@,
            theater.report.lines@ == head,
            theater.report.failures@.len() == 0,
            !theater.partitioned,
            theater.epoch == Epoch(1),
            pre.len() == n,
            cast_placed(cast_view(story.actors@), story.creator@, pre),
            forall|j: int| i <= j < n ==> #[trigger] theater.actors@[j] == pre[j],
            forall|j: int|
                0 <= j < i ==> moved(
                    pre[j],
                    #[trigger] theater.actors@[j],
                    seq![InputV::EpochAdvanced { scope: "room:theater"@, epoch: Epoch(1) }],
                ),
        decreases n - i,
    {
        let ghost before = theater.actors@;
        let mut actor = theater.actors.remove(i);
        assert(actor == before[i as int]);
        deliver(&mut actor, Input::EpochAdvanced { scope: scope(), epoch: Epoch(1) }, Ghost(0));
        theater.actors.insert(i, actor);
        assert forall|j: int| 0 <= j < theater.actors@.len() implies actor_ready(#[trigger] theater.actors@[j], theater.ticks) by {
            if j != i {
                assert(theater.actors@[j] == before[j]);
            }
        }
        assert forall|j: int| i + 1 <= j < n implies #[trigger] theater.actors@[j] == pre[j] by {
            assert(theater.actors@[j] == before[j]);
        }
        assert forall|j: int| 0 <= j < i + 1 implies moved(
            pre[j],
            #[trigger] theater.actors@[j],
            seq![InputV::EpochAdvanced { scope: "room:theater"@, epoch: Epoch(1) }],
        ) by {
            if j != i {
                assert(theater.actors@[j] == before[j]);
            }
        }
        i = i + 1;
    }
    let ghost start = theater;
    proof {
        assert(story_start(*story, start));
    }
    let ghost mut states: Seq<Theater> = seq![start];
    let steps = &story.steps;
    let mut k: usize = 0;
    while k < steps.len()
        invariant
            k <= steps@.len(),
            steps == &story.steps,
            story_ticks(steps@) <= u64::MAX - 32,
            theater.wf(),
            theater.ticks == story_ticks(steps@.subrange(0, k as int)),
            theater.report.name@ == story.name@,
            keeps(head, theater.report.lines@),
            (forall|j: int| 0 <= j < k ==> !is_check(#[trigger] steps@[j])) ==> theater.report.failures@.len()
                == 0,
            states.len() == k + 1,
            states[0] == start,
            story_start(*story, start),
            states[k as int] == theater,
            forall|j: int| 0 <= j < k ==> step_relation(#[trigger] states[j], steps@[j], states[j + 1]),
            strings_view(theater.report.failures@) == story_failures(states, steps@.subrange(0, k as int)),
        decreases steps@.len() - k,
    {
        proof {
            lemma_story_ticks_step(steps@, k as int);
            lemma_story_ticks_prefix(steps@, k + 1);
        }
        let ghost f0 = strings_view(theater.report.failures@);
        let ghost t_old = theater;
        theater.run_step(&steps[k]);
        proof {
            let step = steps@[k as int];
            let sub = steps@.subrange(0, k + 1);
            assert(sub.drop_last() =~= steps@.subrange(0, k as int));
            assert(sub.last() == step);
            let old_states = states;
            states = states.push(theater);
            assert(states[k as int] == t_old);
            assert(step_relation(t_old, step, theater));
            lemma_story_failures_agree(old_states, states, steps@.subrange(0, k as int));
            assert(story_failures(states, sub) == story_failures(states, steps@.subrange(0, k as int))
                + check_report(t_old.actors@, step).0);
            assert forall|j: int| 0 <= j < k + 1 implies step_relation(#[trigger] states[j], steps@[j], states[j + 1]) by {
                if j < k {
                    assert(states[j] == old_states[j]);
                    assert(states[j + 1] == old_states[j + 1]);
                }
            }
            if !is_check(step) {
                assert(check_report(t_old.actors@, step).0 =~= Seq::<Seq<char>>::empty());
                assert(strings_view(theater.report.failures@) == f0);
            }
        }
        k = k + 1;
    }
    proof {
        assert(steps@.subrange(0, k as int) =~= steps@);
    }
    let verdict = if theater.report.passed() {
        "PASSED"
    } else {
        "FAILED"
    };
    let mut footer = string_of("=== ");
    footer.append(story.name.as_str());
    footer.append(" ");
    footer.append(verdict);
    footer.append(" ===");
    theater.narrate(footer);
    theater.report
}


pub open spec fn step_ticks(s: Step) -> nat {
    match s {
        Step::Ticks(n) => n as nat,
        _ => 0,
    }
}

fn beat(steps: &mut Vec<Step>, s: Step)
    ensures
        step_views(final(steps)@) == step_views(old(steps)@).push(s@),
        final(steps)@.len() == old(steps)@.len() + 1,
        story_ticks(final(steps)@) == story_ticks(old(steps)@) + step_ticks(s),
{
    let ghost before = steps@;
    steps.push(s);
    proof {
        assert(steps@.drop_last() =~= before);
        assert(steps@.last() == s);
        assert(step_views(steps@) =~= step_views(before).push(s@));
    }
}

fn join(steps: &mut Vec<Step>, who: &str, vouched_by: &str)
    ensures
        step_views(final(steps)@) == step_views(old(steps)@).push(StepV::Join { who: who@, vouched_by: vouched_by@ }),
        final(steps)@.len() == old(steps)@.len() + 1,
        story_ticks(final(steps)@) == story_ticks(old(steps)@),
{
    beat(steps, Step::Join { who: string_of(who), vouched_by: string_of(vouched_by) });
}

fn witness(steps: &mut Vec<Step>, by: &str, subject: &str, mode: ObservationMode)
    ensures
        step_views(final(steps)@) == step_views(old(steps)@).push(StepV::Witness { by: by@, subject: subject@, mode }),
        final(steps)@.len() == old(steps)@.len() + 1,
        story_ticks(final(steps)@) == story_ticks(old(steps)@),
{
    beat(steps, Step::Witness { by: string_of(by), subject: string_of(subject), mode });
}

fn expect_all(steps: &mut Vec<Step>, subject: &str, state: BeliefState)
    ensures
        step_views(final(steps)@) == step_views(old(steps)@).push(StepV::Expect { on: None, subject: subject@, state }),
        final(steps)@.len() == old(steps)@.len() + 1,
        story_ticks(final(steps)@) == story_ticks(old(steps)@),
{
    beat(steps, Step::Expect { on: None, subject: string_of(subject), state });
}

fn expect_on(steps: &mut Vec<Step>, on: &str, subject: &str, state: BeliefState)
    ensures
        step_views(final(steps)@) == step_views(old(steps)@).push(StepV::Expect { on: Some(on@), subject: subject@, state }),
        final(steps)@.len() == old(steps)@.len() + 1,
        story_ticks(final(steps)@) == story_ticks(old(steps)@),
{
    beat(steps, Step::Expect { on: Some(string_of(on)), subject: string_of(subject), state });
}

fn cast(actors: &[(&str, u8)]) -> (r: Vec<(String, u8)>)
    ensures
        cast_view(r@) == actors@.map_values(|e: (&str, u8)| (e.0@, e.1)),
{
    let mut out: Vec<(String, u8)> = Vec::new();
    let mut i: usize = 0;
    while i < actors.len()
        invariant
            i <= actors@.len(),
            cast_view(out@) == actors@.subrange(0, i as int).map_values(|e: (&str, u8)| (e.0@, e.1)),
        decreases actors@.len() - i,
    {
        let ghost before = out@;
        out.push((string_of(actors[i].0), actors[i].1));
        proof {
            assert(cast_view(out@) =~= cast_view(before).push((actors@[i as int].0@, actors@[i as int].1)));
            assert(actors@.subrange(0, i + 1).map_values(|e: (&str, u8)| (e.0@, e.1)) =~= actors@.subrange(
                0,
                i as int,
            ).map_values(|e: (&str, u8)| (e.0@, e.1)).push((actors@[i as int].0@, actors@[i as int].1)));
        }
        i = i + 1;
    }
    assert(actors@.subrange(0, i as int) =~= actors@);
    out
}

/// The sockpuppet script: a puppet cluster vouched through mallory shouts
/// for eve with weak evidence, while bob is honestly corroborated.
pub open spec fn sockpuppet_table() -> Seq<StepV> {
    seq![
        StepV::Join { who: "bob"@, vouched_by: "alice"@ },
        StepV::Join { who: "carol"@, vouched_by: "alice"@ },
        StepV::Join { who: "mallory"@, vouched_by: "alice"@ },
        StepV::Join { who: "eve"@, vouched_by: "mallory"@ },
        StepV::Join { who: "p1"@, vouched_by: "mallory"@ },
        StepV::Join { who: "p2"@, vouched_by: "p1"@ },
        StepV::Join { who: "p3"@, vouched_by: "p1"@ },
        StepV::Join { who: "p4"@, vouched_by: "p2"@ },
        StepV::Witness { by: "alice"@, subject: "bob"@, mode: ObservationMode::DirectContact },
        StepV::Witness { by: "carol"@, subject: "bob"@, mode: ObservationMode::ChallengeResponse },
        StepV::Witness { by: "p1"@, subject: "eve"@, mode: ObservationMode::Timeout },
        StepV::Witness { by: "p2"@, subject: "eve"@, mode: ObservationMode::TopologyEvidence },
        StepV::Witness { by: "p3"@, subject: "eve"@, mode: ObservationMode::Timeout },
        StepV::Witness { by: "p4"@, subject: "eve"@, mode: ObservationMode::TopologyEvidence },
        StepV::Ticks(3),
        StepV::Expect { on: None, subject: "bob"@, state: BeliefState::Provisional },
        StepV::Ticks(3),
        StepV::Expect { on: None, subject: "bob"@, state: BeliefState::Accepted },
        StepV::Expect { on: None, subject: "eve"@, state: BeliefState::Witnessed },
    ]
}

/// The split-brain script: everyone joins and is honestly corroborated,
/// the room splits, one side bans dave, and the islands heal.
pub open spec fn split_brain_table() -> Seq<StepV> {
    seq![
        StepV::Join { who: "bob"@, vouched_by: "alice"@ },
        StepV::Join { who: "carol"@, vouched_by: "alice"@ },
        StepV::Join { who: "dave"@, vouched_by: "alice"@ },
        StepV::Witness { by: "alice"@, subject: "bob"@, mode: ObservationMode::DirectContact },
        StepV::Witness { by: "carol"@, subject: "bob"@, mode: ObservationMode::DirectContact },
        StepV::Witness { by: "alice"@, subject: "carol"@, mode: ObservationMode::DirectContact },
        StepV::Witness { by: "bob"@, subject: "carol"@, mode: ObservationMode::DirectContact },
        StepV::Witness { by: "bob"@, subject: "dave"@, mode: ObservationMode::DirectContact },
        StepV::Witness { by: "carol"@, subject: "dave"@, mode: ObservationMode::ChallengeResponse },
        StepV::Ticks(3),
        StepV::Ticks(3),
        StepV::Expect { on: None, subject: "dave"@, state: BeliefState::Accepted },
        StepV::Partition { group_b: seq!["carol"@, "dave"@] },
        StepV::Ban { by: "alice"@, subject: "dave"@ },
        StepV::Expect { on: Some("alice"@), subject: "dave"@, state: BeliefState::Removed },
        StepV::Expect { on: Some("carol"@), subject: "dave"@, state: BeliefState::Accepted },
        StepV::Heal,
        StepV::Expect { on: None, subject: "dave"@, state: BeliefState::Disputed },
        StepV::ExpectResidue { min_unhandled: 1, min_handled: 0 },
        StepV::ExpectConverged,
    ]
}

/// The split-brain script, then a visible override that quarantines dave.
pub open spec fn override_table() -> Seq<StepV> {
    split_brain_table() + seq![
        StepV::Override { by: "alice"@, subject: "dave"@, to: BeliefState::Quarantined },
        StepV::Expect { on: None, subject: "dave"@, state: BeliefState::Quarantined },
        StepV::ExpectResidue { min_unhandled: 0, min_handled: 1 },
        StepV::ExpectConverged,
    ]
}

/// The split-brain script: everyone joins and is honestly corroborated,
/// the room splits, one side bans dave, and the islands heal.
fn split_brain_steps() -> (r: Vec<Step>)
    ensures
        step_views(r@) == split_brain_table(),
        story_ticks(r@) == 6,
        r@.len() == 20,
{
    let mut s: Vec<Step> = Vec::new();
    proof {
        assert(step_views(s@) =~= Seq::<StepV>::empty());
    }
    join(&mut s, "bob", "alice");
    join(&mut s, "carol", "alice");
    join(&mut s, "dave", "alice");
    // Everyone gets honest, independent corroboration.
    witness(&mut s, "alice", "bob", ObservationMode::DirectContact);
    witness(&mut s, "carol", "bob", ObservationMode::DirectContact);
    witness(&mut s, "alice", "carol", ObservationMode::DirectContact);
    witness(&mut s, "bob", "carol", ObservationMode::DirectContact);
    witness(&mut s, "bob", "dave", ObservationMode::DirectContact);
    witness(&mut s, "carol", "dave", ObservationMode::ChallengeResponse);
    beat(&mut s, Step::Ticks(3));
    beat(&mut s, Step::Ticks(3));
    expect_all(&mut s, "dave", BeliefState::Accepted);
    // The split: alice+bob on one side, carol+dave on the other.
    let mut group_b: Vec<String> = Vec::new();
    group_b.push(string_of("carol"));
    group_b.push(string_of("dave"));
    assert(strings_view(group_b@) =~= seq!["carol"@, "dave"@]);
    beat(&mut s, Step::Partition { group_b });
    beat(&mut s, Step::Ban { by: string_of("alice"), subject: string_of("dave") });
    expect_on(&mut s, "alice", "dave", BeliefState::Removed);
    expect_on(&mut s, "carol", "dave", BeliefState::Accepted);
    beat(&mut s, Step::Heal);
    expect_all(&mut s, "dave", BeliefState::Disputed);
    beat(&mut s, Step::ExpectResidue { min_unhandled: 1, min_handled: 0 });
    beat(&mut s, Step::ExpectConverged);
    proof {
        assert(story_ticks(Seq::<Step>::empty()) == 0);
    }
    s
}

fn sockpuppet_steps() -> (r: Vec<Step>)
    ensures
        step_views(r@) == sockpuppet_table(),
        story_ticks(r@) == 6,
{
    let mut s: Vec<Step> = Vec::new();
    proof {
        assert(step_views(s@) =~= Seq::<StepV>::empty());
    }
    join(&mut s, "bob", "alice");
    join(&mut s, "carol", "alice");
    join(&mut s, "mallory", "alice");
    join(&mut s, "eve", "mallory");
    join(&mut s, "p1", "mallory");
    join(&mut s, "p2", "p1");
    join(&mut s, "p3", "p1");
    join(&mut s, "p4", "p2");
    // Honest corroboration for bob: two independent lineages, direct contact.
    witness(&mut s, "alice", "bob", ObservationMode::DirectContact);
    witness(&mut s, "carol", "bob", ObservationMode::ChallengeResponse);
    // The puppet cluster shouts for eve with weak evidence.
    witness(&mut s, "p1", "eve", ObservationMode::Timeout);
    witness(&mut s, "p2", "eve", ObservationMode::TopologyEvidence);
    witness(&mut s, "p3", "eve", ObservationMode::Timeout);
    witness(&mut s, "p4", "eve", ObservationMode::TopologyEvidence);
    beat(&mut s, Step::Ticks(3));
    expect_all(&mut s, "bob", BeliefState::Provisional);
    beat(&mut s, Step::Ticks(3));
    expect_all(&mut s, "bob", BeliefState::Accepted);
    // Four loud puppets bought nothing.
    expect_all(&mut s, "eve", BeliefState::Witnessed);
    proof {
        assert(story_ticks(Seq::<Step>::empty()) == 0);
    }
    s
}

fn override_steps() -> (r: Vec<Step>)
    ensures
        step_views(r@) == override_table(),
        story_ticks(r@) == 6,
{
    let mut s = split_brain_steps();
    beat(&mut s, Step::Override { by: string_of("alice"), subject: string_of("dave"), to: BeliefState::Quarantined });
    expect_all(&mut s, "dave", BeliefState::Quarantined);
    beat(&mut s, Step::ExpectResidue { min_unhandled: 0, min_handled: 1 });
    beat(&mut s, Step::ExpectConverged);
    s
}

/// The story corpus as plain values: names, blurbs, casts, creators and
/// scripts.
pub open spec fn story_table() -> Seq<StoryV> {
    seq![
        StoryV {
            name: "sockpuppet-vouch"@,
            blurb: "A loud clique of puppets vouched through one member cannot buy standing; two independently-vouched witnesses can."@,
            actors: seq![
                ("alice"@, 90u8),
                ("bob"@, 70u8),
                ("carol"@, 70u8),
                ("mallory"@, 60u8),
                ("eve"@, 40u8),
                ("p1"@, 30u8),
                ("p2"@, 30u8),
                ("p3"@, 30u8),
                ("p4"@, 30u8),
            ],
            creator: "alice"@,
            steps: sockpuppet_table(),
        },
        StoryV {
            name: "split-brain-ban"@,
            blurb: "During a partition one side bans dave while the other keeps him accepted. Reunion refuses to counterfeit certainty: dave is disputed, the conflict survives as residue, and every island converges on the same honest view."@,
            actors: seq![("alice"@, 90u8), ("bob"@, 75u8), ("carol"@, 75u8), ("dave"@, 70u8)],
            creator: "alice"@,
            steps: split_brain_table(),
        },
        StoryV {
            name: "admin-override"@,
            blurb: "Same split-brain ban, but the room creator resolves the dispute with a visible override: dave is quarantined, and the scar is marked handled \u{2014} never erased."@,
            actors: seq![("alice"@, 90u8), ("bob"@, 75u8), ("carol"@, 75u8), ("dave"@, 70u8)],
            creator: "alice"@,
            steps: override_table(),
        },
    ]
}

/// The story corpus.
pub fn stories() -> (r: Vec<Story>)
    ensures
        r@.map_values(|x: Story| x@) == story_table(),
        r@.len() == 3,
        r@[0].name@ == "sockpuppet-vouch"@,
        r@[1].name@ == "split-brain-ban"@,
        r@[2].name@ == "admin-override"@,
        forall|i: int| 0 <= i < 3 ==> story_ticks(#[trigger] r@[i].steps@) == 6,
{
    let mut out: Vec<Story> = Vec::new();
    let story0 = Story {
        name: string_of("sockpuppet-vouch"),
        blurb: string_of(
            "A loud clique of puppets vouched through one member cannot buy standing; two independently-vouched witnesses can.",
        ),
        actors: cast(
            &[
                ("alice", 90),
                ("bob", 70),
                ("carol", 70),
                ("mallory", 60),
                ("eve", 40),
                ("p1", 30),
                ("p2", 30),
                ("p3", 30),
                ("p4", 30),
            ],
        ),
        creator: string_of("alice"),
        steps: sockpuppet_steps(),
    };
    assert(story0@ =~= story_table()[0]);
    out.push(story0);

    let story1 = Story {
        name: string_of("split-brain-ban"),
        blurb: string_of(
            "During a partition one side bans dave while the other keeps him accepted. Reunion refuses to counterfeit certainty: dave is disputed, the conflict survives as residue, and every island converges on the same honest view.",
        ),
        actors: cast(&[("alice", 90), ("bob", 75), ("carol", 75), ("dave", 70)]),
        creator: string_of("alice"),
        steps: split_brain_steps(),
    };
    assert(story1@ =~= story_table()[1]);
    out.push(story1);

    let story2 = Story {
        name: string_of("admin-override"),
        blurb: string_of(
            "Same split-brain ban, but the room creator resolves the dispute with a visible override: dave is quarantined, and the scar is marked handled \u{2014} never erased.",
        ),
        actors: cast(&[("alice", 90), ("bob", 75), ("carol", 75), ("dave", 70)]),
        creator: string_of("alice"),
        steps: override_steps(),
    };
    assert(story2@ =~= story_table()[2]);
    out.push(story2);

    assert(out@.map_values(|x: Story| x@) =~= story_table());
    out
}

} // verus!
