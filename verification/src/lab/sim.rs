//! Seeded, fully deterministic randomness for the partition/heal
//! simulation: every choice derives from one root `u64` through
//! domain-separated SplitMix64, so a run is a pure function of its
//! configuration.

use crate::belief::state::{state_name, BeliefState, RemovalBasis};
use crate::digest::RepairDigest;
use crate::epoch::{Epoch, Round};
use crate::evidence::{
    AssertedState, Claim, ClaimV, Diversity, Observation, ObservationMode, Provenance, Quality, Stance, WitnessRecord,
    WitnessRecordV, WitnessSummary};
use crate::id::{OperatorId, PeerId, SubjectId, WitnessId, WitnessRecordId};
use crate::belief::cell::BeliefCellV;
use crate::belief::view::MembershipViewV;
use crate::collections::{map_get, map_insert};
use crate::digest::{repair_digest_of, RepairDigestV};
use crate::kernel::{effect_views, kernel_step, lemma_step_frame, Effect, EffectV, Input, InputV, Kernel, KernelV};
use crate::rank::peer_views;
use crate::residue::{ResidueLedgerV, ResolvedResidueV};
use crate::transcript::{chain_events, SealedEvent, TranscriptEventV};
use crate::merge::engine::{subject_views, MergeSide, MergeSideV};
use crate::merge::{BeliefFragment, OverallOutcome};
use crate::operator::{OperatorOverride, OperatorOverrideV};
use crate::policy::{lab_compat_policy, PolicyBundle};
use crate::rank::RankDomain;
use crate::scope::{ScopeAuthority, ScopeId};
use crate::text::{decimal, push_decimal, string_of};
use crate::transcript::{DiscardSink, Transcript, TranscriptEvent};
use crate::trust::{grade_of, Confidence, TrustGrade};
use crate::util::NonEmpty;
use crate::collections::SortedMap;
use vstd::prelude::*;
use vstd::string::StringExecFns;
use vstd::utf8::encode_utf8;
use vstd::wrapping::u64_specs::{wrapping_add, wrapping_mul};

verus! {

pub const GOLDEN_GAMMA: u64 = 0x9e37_79b9_7f4a_7c15;

pub const MIX_A: u64 = 0xbf58_476d_1ce4_e5b9;

pub const MIX_B: u64 = 0x94d0_49bb_1331_11eb;

pub const FNV_OFFSET: u64 = 0xcbf2_9ce4_8422_2325;

pub const FNV_PRIME: u64 = 0x1000_0000_01b3;

/// SplitMix64's output function on an advanced state.
pub open spec fn mix64(z: u64) -> u64 {
    let z1 = wrapping_mul(z ^ (z >> 30u64), MIX_A);
    let z2 = wrapping_mul(z1 ^ (z1 >> 27u64), MIX_B);
    z2 ^ (z2 >> 31u64)
}

/// SplitMix64's state step.
pub open spec fn advance(s: u64) -> u64 {
    wrapping_add(s, GOLDEN_GAMMA)
}

/// SplitMix64: the only randomness source.
pub struct SplitMix64(u64);

impl SplitMix64 {
    pub closed spec fn state(&self) -> u64 {
        self.0
    }

    pub fn new(seed: u64) -> (r: Self)
        ensures
            r.state() == seed,
    {
        SplitMix64(seed)
    }

    pub fn next_u64(&mut self) -> (r: u64)
        ensures
            final(self).state() == advance(old(self).state()),
            r == mix64(final(self).state()),
    {
        self.0 = self.0.wrapping_add(GOLDEN_GAMMA);
        let mut z = self.0;
        z = (z ^ (z >> 30)).wrapping_mul(MIX_A);
        z = (z ^ (z >> 27)).wrapping_mul(MIX_B);
        z ^ (z >> 31)
    }

    /// A draw below `bound` (a bound of 0 is treated as 1).
    pub fn pick(&mut self, bound: u64) -> (r: u64)
        ensures
            final(self).state() == advance(old(self).state()),
            r == mix64(final(self).state()) % if bound == 0 { 1 } else { bound },
            r < if bound == 0 { 1 } else { bound },
    {
        let b = if bound == 0 {
            1
        } else {
            bound
        };
        self.next_u64() % b
    }
}

/// FNV-1a over the label's bytes and then the parts' words.
pub open spec fn fnv_bytes(acc: u64, bytes: Seq<u8>) -> u64
    decreases bytes.len(),
{
    if bytes.len() == 0 {
        acc
    } else {
        wrapping_mul(fnv_bytes(acc, bytes.drop_last()) ^ (bytes.last() as u64), FNV_PRIME)
    }
}

pub open spec fn fnv_words(acc: u64, words: Seq<u64>) -> u64
    decreases words.len(),
{
    if words.len() == 0 {
        acc
    } else {
        wrapping_mul(fnv_words(acc, words.drop_last()) ^ words.last(), FNV_PRIME)
    }
}

/// The domain-separated sub-seed of (root, label, parts).
pub open spec fn spec_derive_seed(root: u64, label: Seq<u8>, parts: Seq<u64>) -> u64 {
    mix64(advance(root ^ fnv_words(fnv_bytes(FNV_OFFSET, label), parts)))
}

/// Domain-separated sub-seed: any component of the simulation can be
/// re-derived in isolation from (root, label, parts).
pub fn derive_seed(root: u64, label: &str, parts: &[u64]) -> (r: u64)
    ensures
        r == spec_derive_seed(root, encode_utf8(label@), parts@),
{
    let bytes = label.as_bytes();
    let mut acc: u64 = FNV_OFFSET;
    let mut i: usize = 0;
    while i < bytes.len()
        invariant
            i <= bytes@.len(),
            acc == fnv_bytes(FNV_OFFSET, bytes@.subrange(0, i as int)),
        decreases bytes@.len() - i,
    {
        proof {
            let next = bytes@.subrange(0, i + 1);
            assert(next.drop_last() =~= bytes@.subrange(0, i as int));
        }
        acc = (acc ^ (bytes[i] as u64)).wrapping_mul(FNV_PRIME);
        i = i + 1;
    }
    assert(bytes@.subrange(0, i as int) =~= bytes@);
    let ghost label_acc = acc;
    let mut j: usize = 0;
    while j < parts.len()
        invariant
            j <= parts@.len(),
            acc == fnv_words(label_acc, parts@.subrange(0, j as int)),
        decreases parts@.len() - j,
    {
        proof {
            let next = parts@.subrange(0, j + 1);
            assert(next.drop_last() =~= parts@.subrange(0, j as int));
        }
        acc = (acc ^ parts[j]).wrapping_mul(FNV_PRIME);
        j = j + 1;
    }
    assert(parts@.subrange(0, j as int) =~= parts@);
    let mut rng = SplitMix64::new(root ^ acc);
    rng.next_u64()
}


/// One simulation's knobs.
#[derive(Debug, Clone, Copy, PartialEq, Eq, Structural)]
pub struct SimConfig {
    pub seed: u64,
    /// Peer pool size for witness selection.
    pub nodes: u32,
    /// Number of subjects introduced into the cluster.
    pub subjects: u32,
    /// Apply a visible operator override to the disputed subject at
    /// reunion time.
    pub operator_override: bool,
}

impl Default for SimConfig {
    fn default() -> (r: Self)
        ensures
            r == (SimConfig { seed: 42, nodes: 8, subjects: 4, operator_override: false }),
    {
        SimConfig { seed: 42, nodes: 8, subjects: 4, operator_override: false }
    }
}

/// What one simulation run produced.
pub struct SimReport {
    pub config: SimConfig,
    pub narrative: Vec<String>,
    /// The subject the islands disagreed about during the partition.
    pub victim: String,
    pub victim_state: BeliefState,
    pub unresolved_residue: usize,
    pub handled_residue: usize,
    pub overall: OverallOutcome,
    /// Do both islands hold identical views after applying the reunion?
    pub converged: bool,
    /// Transcript chain heads (hex), island A and B.
    pub transcript_heads: [String; 2],
    pub island_digests: [RepairDigest; 2],
}

/// `prefix` followed by `i` in at least two decimal digits.
pub open spec fn padded_name(prefix: Seq<char>, i: u32) -> Seq<char> {
    prefix + (if i < 10 {
        "0"@
    } else {
        Seq::empty()
    }) + decimal(i as nat)
}

fn padded(prefix: &str, i: u32) -> (r: String)
    ensures
        r@ == padded_name(prefix@, i),
{
    let mut out = string_of(prefix);
    if i < 10 {
        out.append("0");
    }
    push_decimal(&mut out, i as u64);
    out
}

/// The seeded trust grade of the subject whose name is `name`.
pub open spec fn seeded_grade(root: u64, name: Seq<char>) -> u64 {
    let bytes = encode_utf8(name);
    (70 + (spec_derive_seed(root, encode_utf8("trust"@), seq![bytes.len() as u32 as u64]) ^ (bytes[1] as u64))
        % 20) as u64
}

/// The index of the subject island B revokes.
pub open spec fn victim_index(root: u64, subjects: u32) -> int {
    ((spec_derive_seed(root, encode_utf8("victim"@), Seq::empty()) as usize) % (subjects as usize)) as int
}

fn scope() -> (r: ScopeId)
    ensures
        r@ == "cluster"@,
{
    ScopeId::new("cluster")
}

/// First eight bytes of a digest in lower-case hex.
pub(crate) fn hex8(bytes: &[u8; 32]) -> (r: String)
    ensures
        r@ == crate::rank::hex_of(bytes@.subrange(0, 8)),
{
    let mut out = String::new();
    let mut i: usize = 0;
    while i < 8
        invariant
            i <= 8,
            bytes@.len() == 32,
            out@ == crate::rank::hex_of(bytes@.subrange(0, i as int)),
        decreases 8 - i,
    {
        let b = bytes[i];
        crate::rank::push_hex_byte(&mut out, b);
        proof {
            let next = bytes@.subrange(0, i + 1);
            assert(next.drop_last() =~= bytes@.subrange(0, i as int));
            assert(next.last() == b);
        }
        i = i + 1;
        assert(out@ =~= crate::rank::hex_of(bytes@.subrange(0, i as int)));
    }
    out
}


/// The simulation's standing policy: the default bundle, whose merge
/// tables are bounded.
pub open spec fn sim_policy(k: crate::kernel::KernelV) -> bool {
    &&& k.policy.merge == lab_compat_policy()
    &&& k.policy.strengthen_hysteresis_rounds == 2
}

/// Hand one input to a kernel, keeping its transcript. Only a tick moves
/// the round, by one.
pub(crate) fn step(kernel: &mut Kernel, input: Input, log: &mut Transcript) -> (r: Vec<Effect>)
    requires
        sim_policy(old(kernel).model()),
        input@ is Tick ==> old(kernel).model().round.0 < u64::MAX,
    ensures
        final(kernel).model() == kernel_step(old(kernel).model(), input@).0,
        sim_policy(final(kernel).model()),
        final(kernel).model().round.0 == old(kernel).model().round.0 + if input@ is Tick {
            1int
        } else {
            0int
        },
        crate::kernel::effect_views(r@) == kernel_step(old(kernel).model(), input@).1,
        chain_events(final(log)@) == chain_events(old(log)@) + kernel_step(old(kernel).model(), input@).2,
        crate::kernel::reunion_made(old(kernel).model(), input@),
{
    proof {
        lemma_step_frame(old(kernel).model(), input@);
    }
    kernel.handle(input, log)
}

/// Hand one input to two kernels that hold the same state; both stay equal.
fn step_both(a: &mut Kernel, b: &mut Kernel, input: Input, log: &mut Transcript) -> (r: Vec<Effect>)
    requires
        old(a).model() == old(b).model(),
        sim_policy(old(a).model()),
        input@ is Tick ==> old(a).model().round.0 < u64::MAX,
    ensures
        final(a).model() == final(b).model(),
        final(a).model() == kernel_step(old(a).model(), input@).0,
        sim_policy(final(a).model()),
        final(a).model().round.0 == old(a).model().round.0 + if input@ is Tick {
            1int
        } else {
            0int
        },
        crate::kernel::effect_views(r@) == kernel_step(old(a).model(), input@).1,
{
    let copy = input.duplicate();
    let mut discard = DiscardSink;
    proof {
        lemma_step_frame(old(b).model(), copy@);
    }
    b.handle(copy, &mut discard);
    step(a, input, log)
}

/// `n` ticks on both lockstep kernels.
fn ticks_both(a: &mut Kernel, b: &mut Kernel, n: u64, log: &mut Transcript)
    requires
        old(a).model() == old(b).model(),
        sim_policy(old(a).model()),
        old(a).model().round.0 + n <= u64::MAX,
    ensures
        final(a).model() == final(b).model(),
        sim_policy(final(a).model()),
        final(a).model().round.0 == old(a).model().round.0 + n,
        final(a).model() == after_ticks(old(a).model(), n as nat),
{
    let ghost r0 = a.model().round.0;
    let ghost k0 = a.model();
    let mut t: u64 = 0;
    while t < n
        invariant
            t <= n,
            a.model() == b.model(),
            sim_policy(a.model()),
            r0 + n <= u64::MAX,
            a.model().round.0 == r0 + t,
            a.model() == after_ticks(k0, t as nat),
        decreases n - t,
    {
        step_both(a, b, Input::Tick, log);
        t = t + 1;
    }
}

/// The peers a witness-selection effect list carries (none if the kernel
/// answered with anything other than one selection).
pub open spec fn selection_of(effects: Seq<EffectV>) -> Seq<Seq<char>> {
    if effects.len() == 1 {
        match effects[0] {
            EffectV::WitnessSetSelected(sel) => sel.selected,
            _ => Seq::empty(),
        }
    } else {
        Seq::empty()
    }
}

fn selected_peers(effects: &Vec<Effect>) -> (r: Vec<PeerId>)
    ensures
        peer_views(r@) == selection_of(effect_views(effects@)),
{
    let mut out: Vec<PeerId> = Vec::new();
    if effects.len() == 1 {
        assert(effect_views(effects@)[0] == effects@[0]@);
        match &effects[0] {
            Effect::WitnessSetSelected(selection) => {
                let ghost want = selection@.selected;
                let mut i: usize = 0;
                while i < selection.selected.len()
                    invariant
                        i <= selection.selected@.len(),
                        want == peer_views(selection.selected@),
                        peer_views(out@) == want.subrange(0, i as int),
                    decreases selection.selected@.len() - i,
                {
                    let ghost before = peer_views(out@);
                    out.push(selection.selected[i].duplicate());
                    assert(peer_views(out@) =~= before.push(want[i as int]));
                    i = i + 1;
                    assert(want.subrange(0, i as int) =~= before.push(want[i - 1]));
                }
                assert(want.subrange(0, i as int) =~= want);
            },
            _ => {
                assert(peer_views(out@) =~= Seq::<Seq<char>>::empty());
            },
        }
    } else {
        assert(peer_views(out@) =~= Seq::<Seq<char>>::empty());
    }
    out
}

fn witness_record(peer: &PeerId, subject: &SubjectId, mode: ObservationMode, epoch: Epoch, trust: TrustGrade) -> (r: WitnessRecord)
    requires
        mode == ObservationMode::DirectContact,
        epoch == Epoch(1),
    ensures
        r@.subject == subject@,
        r@ == history_record(peer@, subject@, trust),
{
    let observation = Observation {
        observer: WitnessId::new(peer.as_str()),
        subject: subject.duplicate(),
        mode,
        epoch,
    };
    let oid = observation.id();
    proof {
        oid.lemma_with_bytes();
        assert(crate::evidence::observation_bytes(observation) == crate::encode::framed_str(peer@)
            + crate::encode::framed_str(subject@) + seq![crate::evidence::mode_byte(mode)] + crate::encode::le_u64(
            epoch.0,
        ));
    }
    WitnessRecord {
        witness: WitnessId::new(peer.as_str()),
        subject: subject.duplicate(),
        about: None,
        stance: Stance::Corroborate,
        observation: oid,
        mode,
        scope: scope(),
        epoch,
        trust_context: trust,
    }
}


/// Phase 1, shared history: every subject is introduced, witnessed by a
/// rank-selected witness set, and corroborated to accepted under
/// hysteresis. Both islands inherit this history, so the two kernels run
/// it in lockstep; the prehistory transcript records it once.
fn shared_history(subjects: &Vec<SubjectId>, pool: &Vec<PeerId>, trust: &Vec<TrustGrade>, prehistory: &mut Transcript) -> (r: (Kernel, Kernel, Vec<WitnessSummary>))
    requires
        subjects@.len() == trust@.len(),
        subjects@.len() <= u32::MAX,
    ensures
        r.0.model() == r.1.model(),
        sim_policy(r.0.model()),
        r.0.model().round.0 == 4 * subjects@.len(),
        r.2@.len() == subjects@.len(),
        r.0.model() == history(history_start(), subject_views(subjects@), peer_views(pool@), trust@),
        r.2@ == history_summaries(history_start(), subject_views(subjects@), peer_views(pool@), trust@),
{
    let policy = PolicyBundle::default();
    assert(policy == sim_bundle());
    let hysteresis = policy.strengthen_hysteresis_rounds;
    let mut a = Kernel::new(policy);
    let mut b = Kernel::new(policy);
    step_both(&mut a, &mut b, Input::EpochAdvanced { scope: scope(), epoch: Epoch(1) }, prehistory);
    let ghost sv = subject_views(subjects@);
    let ghost pv = peer_views(pool@);
    proof {
        assert(sv.subrange(0, 0) =~= Seq::<Seq<char>>::empty());
    }
    let mut summaries: Vec<WitnessSummary> = Vec::new();
    let mut i: usize = 0;
    while i < subjects.len()
        invariant
            i <= subjects@.len(),
            subjects@.len() == trust@.len(),
            subjects@.len() <= u32::MAX,
            hysteresis == 2,
            a.model() == b.model(),
            sim_policy(a.model()),
            a.model().round.0 == 4 * i,
            summaries@.len() == i,
            sv == subject_views(subjects@),
            pv == peer_views(pool@),
            a.model() == history(history_start(), sv.subrange(0, i as int), pv, trust@),
            summaries@ == history_summaries(history_start(), sv.subrange(0, i as int), pv, trust@),
        decreases subjects@.len() - i,
    {
        let ghost k_before = a.model();
        let subject = &subjects[i];
        let claim = Claim {
            subject: subject.duplicate(),
            asserted: AssertedState::Present,
            scope: scope(),
            provenance: Provenance { introducer: PeerId::new("gateway") },
            epoch: Epoch(1),
            evidence: Vec::new(),
        };
        assert(claim@.evidence =~= Seq::<crate::id::ObservationId>::empty());
        assert(claim@ == history_claim(sv[i as int]));
        step_both(&mut a, &mut b, Input::Introduce(claim), prehistory);
        let request = Input::RequestWitnessSelection {
            domain: RankDomain::WitnessSelection,
            scope: scope(),
            subject: Some(subject.duplicate()),
            pool: copy_peers(pool),
            excluded: Vec::new(),
            take: 3,
        };
        proof {
            assert(crate::rank::exclusion_views(Seq::<(PeerId, crate::rank::ExclusionReason)>::empty())
                =~= Seq::<(Seq<char>, crate::rank::ExclusionReasonV)>::empty());
            assert(request@ == selection_request(sv[i as int], pv));
        }
        let effects = step_both(&mut a, &mut b, request, prehistory);
        let selected = selected_peers(&effects);
        let ghost subj = sv[i as int];
        let ghost ti = trust@[i as int];
        let ghost sel = peer_views(selected@);
        let ghost k2 = a.model();
        proof {
            assert(subject@ == subj);
            assert(subject_selection(k_before, subj, pv) == (k2, sel));
            assert(sel.subrange(0, 0) =~= Seq::<Seq<char>>::empty());
        }
        let mut records: Vec<WitnessRecordId> = Vec::new();
        let mut j: usize = 0;
        while j < selected.len()
            invariant
                j <= selected@.len(),
                a.model() == b.model(),
                sim_policy(a.model()),
                a.model().round.0 == 4 * i,
                i < subjects@.len(),
                subjects@.len() == trust@.len(),
                sel == peer_views(selected@),
                subject@ == subj,
                ti == trust@[i as int],
                a.model() == after_records(k2, sel.subrange(0, j as int), subj, ti),
                records@ == record_ids(sel.subrange(0, j as int), subj, ti),
            decreases selected@.len() - j,
        {
            let record = witness_record(&selected[j], subject, ObservationMode::DirectContact, Epoch(1), trust[i]);
            let ghost before = records@;
            records.push(record.id());
            step_both(&mut a, &mut b, Input::WitnessRecordReceived(record), prehistory);
            proof {
                let next = sel.subrange(0, j + 1);
                assert(next.drop_last() =~= sel.subrange(0, j as int));
                assert(next.last() == sel[j as int]);
                assert(sel[j as int] == selected@[j as int]@);
                assert(records@ =~= record_ids(next, subj, ti));
            }
            j = j + 1;
        }
        proof {
            assert(sel.subrange(0, j as int) =~= sel);
        }
        let ghost ids = records@;
        let ghost k3 = a.model();
        summaries.push(WitnessSummary { count: records.len() as u32, quality: Quality::Strong, diversity: Diversity::CrossScope });
        // Strengthen: witnessed -> provisional -> accepted, waiting out
        // hysteresis between steps.
        ticks_both(&mut a, &mut b, hysteresis, prehistory);
        let ghost k4 = a.model();
        match NonEmpty::from_vec(copy_records(&records)) {
            Some(ne) => {
                assert(ne@ =~= ids);
                step_both(
                    &mut a,
                    &mut b,
                    Input::CorroborationAssessed { scope: scope(), subject: subject.duplicate(), records: ne, confidence: Confidence::Bounded },
                    prehistory,
                );
            },
            None => {},
        }
        assert(a.model() == after_assessment(k4, subj, ids, Confidence::Bounded));
        ticks_both(&mut a, &mut b, hysteresis, prehistory);
        let ghost k6 = a.model();
        match NonEmpty::from_vec(records) {
            Some(ne) => {
                assert(ne@ =~= ids);
                step_both(
                    &mut a,
                    &mut b,
                    Input::CorroborationAssessed { scope: scope(), subject: subject.duplicate(), records: ne, confidence: Confidence::Strong },
                    prehistory,
                );
            },
            None => {},
        }
        assert(a.model() == after_assessment(k6, subj, ids, Confidence::Strong));
        proof {
            let next = sv.subrange(0, i + 1);
            assert(next.drop_last() =~= sv.subrange(0, i as int));
            assert(next.last() == subj);
            assert(a.model() == subject_history(k_before, subj, pv, ti));
            assert(summaries@ =~= history_summaries(history_start(), sv.subrange(0, i as int), pv, trust@).push(
                WitnessSummary {
                    count: sel.len() as u32,
                    quality: Quality::Strong,
                    diversity: Diversity::CrossScope,
                },
            ));
        }
        i = i + 1;
    }
    proof {
        assert(sv.subrange(0, i as int) =~= sv);
    }
    (a, b, summaries)
}

fn copy_peers(v: &Vec<PeerId>) -> (r: Vec<PeerId>)
    ensures
        r@.map_values(|p: PeerId| p@) == v@.map_values(|p: PeerId| p@),
{
    let mut out: Vec<PeerId> = Vec::new();
    let mut i: usize = 0;
    while i < v.len()
        invariant
            i <= v@.len(),
            out@.map_values(|p: PeerId| p@) == v@.subrange(0, i as int).map_values(|p: PeerId| p@),
        decreases v@.len() - i,
    {
        let ghost before = out@;
        out.push(v[i].duplicate());
        proof {
            assert(out@.map_values(|p: PeerId| p@) =~= before.map_values(|p: PeerId| p@).push(v@[i as int]@));
            assert(v@.subrange(0, i + 1).map_values(|p: PeerId| p@) =~= v@.subrange(0, i as int).map_values(|p: PeerId| p@).push(v@[i as int]@));
        }
        i = i + 1;
    }
    assert(v@.subrange(0, i as int) =~= v@);
    out
}

fn copy_records(v: &Vec<WitnessRecordId>) -> (r: Vec<WitnessRecordId>)
    ensures
        r@ == v@,
{
    let mut out: Vec<WitnessRecordId> = Vec::new();
    let mut i: usize = 0;
    while i < v.len()
        invariant
            i <= v@.len(),
            out@ == v@.subrange(0, i as int),
        decreases v@.len() - i,
    {
        out.push(v[i]);
        i = i + 1;
        assert(out@ =~= v@.subrange(0, i as int));
    }
    assert(v@.subrange(0, i as int) =~= v@);
    out
}


/// Read one island as a reunion side: every subject's current state at
/// epoch 2, with the trust and witness summaries of the shared history.
fn side(label: &str, island: &Kernel, subjects: &Vec<SubjectId>, trust: &Vec<TrustGrade>, summaries: &Vec<WitnessSummary>) -> (r: MergeSide)
    requires
        subjects@.len() == trust@.len(),
        subjects@.len() == summaries@.len(),
    ensures
        r@ == side_view(label@, island.model(), subject_views(subjects@), trust@, summaries@),
{
    let mut fragments: SortedMap<SubjectId, BeliefFragment> = SortedMap::new();
    let room = scope();
    let mut i: usize = 0;
    let ghost sv = subject_views(subjects@);
    proof {
        assert(sv.subrange(0, 0) =~= Seq::<Seq<char>>::empty());
    }
    while i < subjects.len()
        invariant
            i <= subjects@.len(),
            subjects@.len() == trust@.len(),
            subjects@.len() == summaries@.len(),
            sv == subject_views(subjects@),
            room@ == "cluster"@,
            fragments@ == side_fragments(island.model(), sv.subrange(0, i as int), trust@, summaries@),
        decreases subjects@.len() - i,
    {
        let state = state_of(island, &room, &subjects[i]);
        let fragment = BeliefFragment {
            state,
            epoch: Epoch(2),
            trust: trust[i],
            authority: ScopeAuthority::Global,
            witness: summaries[i],
        };
        fragments.insert(subjects[i].duplicate(), fragment);
        proof {
            let next = sv.subrange(0, i + 1);
            assert(next.drop_last() =~= sv.subrange(0, i as int));
            assert(next[i as int] == subjects@[i as int]@);
        }
        i = i + 1;
    }
    proof {
        assert(sv.subrange(0, i as int) =~= sv);
    }
    MergeSide { label: string_of(label), epoch: Epoch(2), fragments }
}

/// The policy both islands run.
pub open spec fn sim_bundle() -> PolicyBundle {
    PolicyBundle {
        strengthen_hysteresis_rounds: 2,
        quarantine_release_rounds: 2,
        stale_after_epochs: 2,
        merge: lab_compat_policy(),
    }
}

/// The trust grade seeded for a subject whose name has the bytes `bytes`.
pub open spec fn grade_from_bytes(root: u64, bytes: Seq<u8>) -> TrustGrade {
    let salt: u64 = if bytes.len() > 1 {
        bytes[1] as u64
    } else {
        0
    };
    let seed = spec_derive_seed(root, encode_utf8("trust"@), seq![(bytes.len() as u32) as u64]);
    grade_of((70 + (seed ^ salt) % 20) as u8)
}

/// Subject `j`'s trust grade, derived from the seed.
pub open spec fn sim_trust(root: u64, j: int) -> TrustGrade {
    grade_from_bytes(root, encode_utf8(padded_name("s"@, j as u32)))
}

/// Every subject's trust grade.
#[verifier::opaque]
pub open spec fn sim_trusts(root: u64, n: u32) -> Seq<TrustGrade> {
    Seq::new(n as nat, |j: int| sim_trust(root, j))
}

/// The witness pool's names.
pub open spec fn sim_pool(n: u32) -> Seq<Seq<char>> {
    Seq::new(n as nat, |j: int| padded_name("n"@, j as u32))
}

/// The claim that introduces a subject.
pub open spec fn history_claim(subject: Seq<char>) -> ClaimV {
    ClaimV {
        subject,
        asserted: AssertedState::Present,
        scope: "cluster"@,
        provenance: "gateway"@,
        epoch: Epoch(1),
        evidence: Seq::empty(),
    }
}

/// The witness-set request for a subject.
pub open spec fn selection_request(subject: Seq<char>, pool: Seq<Seq<char>>) -> InputV {
    InputV::RequestWitnessSelection {
        domain: RankDomain::WitnessSelection,
        scope: "cluster"@,
        subject: Some(subject),
        pool,
        excluded: Seq::empty(),
        take: 3,
    }
}

/// The record a selected witness files for a subject.
pub open spec fn history_record(peer: Seq<char>, subject: Seq<char>, trust: TrustGrade) -> WitnessRecordV {
    WitnessRecordV {
        witness: peer,
        subject,
        about: None,
        stance: Stance::Corroborate,
        observation: crate::lab::theater::observation_id_of(peer, subject, ObservationMode::DirectContact, Epoch(1)),
        mode: ObservationMode::DirectContact,
        scope: "cluster"@,
        epoch: Epoch(1),
        trust_context: trust,
    }
}

/// A kernel after the selected witnesses' records.
pub open spec fn after_records(k: KernelV, peers: Seq<Seq<char>>, subject: Seq<char>, trust: TrustGrade) -> KernelV
    decreases peers.len(),
{
    if peers.len() == 0 {
        k
    } else {
        kernel_step(
            after_records(k, peers.drop_last(), subject, trust),
            InputV::WitnessRecordReceived(history_record(peers.last(), subject, trust)),
        ).0
    }
}

/// The ids of those records.
pub open spec fn record_ids(peers: Seq<Seq<char>>, subject: Seq<char>, trust: TrustGrade) -> Seq<WitnessRecordId> {
    peers.map_values(|p: Seq<char>| crate::evidence::witness_record_id(history_record(p, subject, trust)))
}

/// A kernel after `n` ticks.
pub open spec fn after_ticks(k: KernelV, n: nat) -> KernelV
    decreases n,
{
    if n == 0 {
        k
    } else {
        kernel_step(after_ticks(k, (n - 1) as nat), InputV::Tick).0
    }
}

/// A kernel after assessing corroboration (when there are records).
pub open spec fn after_assessment(k: KernelV, subject: Seq<char>, ids: Seq<WitnessRecordId>, c: Confidence) -> KernelV {
    if ids.len() > 0 {
        kernel_step(k, InputV::CorroborationAssessed { scope: "cluster"@, subject, records: ids, confidence: c }).0
    } else {
        k
    }
}

/// A subject's introduction and witness selection: the kernel after, and
/// the selected witnesses.
pub open spec fn subject_selection(k: KernelV, subject: Seq<char>, pool: Seq<Seq<char>>) -> (KernelV, Seq<Seq<char>>) {
    let k1 = kernel_step(k, InputV::Introduce(history_claim(subject))).0;
    let st = kernel_step(k1, selection_request(subject, pool));
    (st.0, selection_of(st.1))
}

/// One subject's shared history: introduced, witnessed by its selected
/// set, and corroborated twice under hysteresis.
pub open spec fn subject_history(k: KernelV, subject: Seq<char>, pool: Seq<Seq<char>>, trust: TrustGrade) -> KernelV {
    let (k2, sel) = subject_selection(k, subject, pool);
    let ids = record_ids(sel, subject, trust);
    let k3 = after_records(k2, sel, subject, trust);
    after_assessment(
        after_ticks(after_assessment(after_ticks(k3, 2), subject, ids, Confidence::Bounded), 2),
        subject,
        ids,
        Confidence::Strong,
    )
}

/// The shared history of the first subjects.
pub open spec fn history(k: KernelV, subjects: Seq<Seq<char>>, pool: Seq<Seq<char>>, trusts: Seq<TrustGrade>) -> KernelV
    decreases subjects.len(),
{
    if subjects.len() == 0 {
        k
    } else {
        subject_history(
            history(k, subjects.drop_last(), pool, trusts),
            subjects.last(),
            pool,
            trusts[subjects.len() - 1],
        )
    }
}

/// The witness summaries the shared history leaves, one per subject.
pub open spec fn history_summaries(
    k: KernelV,
    subjects: Seq<Seq<char>>,
    pool: Seq<Seq<char>>,
    trusts: Seq<TrustGrade>,
) -> Seq<WitnessSummary>
    decreases subjects.len(),
{
    if subjects.len() == 0 {
        Seq::empty()
    } else {
        let before = history(k, subjects.drop_last(), pool, trusts);
        history_summaries(k, subjects.drop_last(), pool, trusts).push(
            WitnessSummary {
                count: subject_selection(before, subjects.last(), pool).1.len() as u32,
                quality: Quality::Strong,
                diversity: Diversity::CrossScope,
            },
        )
    }
}

/// Both islands' kernel once the shared history has run.
pub open spec fn history_start() -> KernelV {
    kernel_step(
        crate::kernel::fresh_kernel(sim_bundle()),
        InputV::EpochAdvanced { scope: "cluster"@, epoch: Epoch(1) },
    ).0
}

/// The record island B's watchdog files against the victim.
pub open spec fn opposing_record(victim: Seq<char>, trust: TrustGrade) -> WitnessRecordV {
    WitnessRecordV {
        witness: "n-watchdog"@,
        subject: victim,
        about: None,
        stance: Stance::SupportRevocation,
        observation: crate::lab::theater::observation_id_of("n-watchdog"@, victim, ObservationMode::Timeout, Epoch(2)),
        mode: ObservationMode::Timeout,
        scope: "cluster"@,
        epoch: Epoch(2),
        trust_context: trust,
    }
}

/// Island B during the partition: the watchdog's record, a tick, then the
/// removal of the victim.
pub open spec fn island_b_partition(k: KernelV, victim: Seq<char>, trust: TrustGrade) -> KernelV {
    let k1 = kernel_step(k, InputV::WitnessRecordReceived(opposing_record(victim, trust))).0;
    let k2 = kernel_step(k1, InputV::Tick).0;
    kernel_step(
        k2,
        InputV::RemovalAssessed { scope: "cluster"@, subject: victim, basis: RemovalBasis::PolicyViolation },
    ).0
}

/// The override a simulation asks for, if any.
pub open spec fn sim_override(config: SimConfig, victim: Seq<char>) -> Option<OperatorOverrideV> {
    if config.operator_override {
        Some(
            OperatorOverrideV {
                operator: "sim-operator"@,
                subject: victim,
                forced: BeliefState::Quarantined,
                reason: "same-epoch removal vs acceptance: quarantine is the least dishonest intervention"@,
                epoch: Epoch(2),
            },
        )
    } else {
        None
    }
}

/// The reunion both islands run, on sides read from both.
pub open spec fn sim_reunion(
    ka: KernelV,
    kb: KernelV,
    subjects: Seq<Seq<char>>,
    trust: Seq<TrustGrade>,
    summaries: Seq<WitnessSummary>,
    op: Option<OperatorOverrideV>,
) -> InputV {
    InputV::ReunionRequested {
        scope: "cluster"@,
        round: Round(1000),
        subjects,
        side_a: side_view("island-a"@, ka, subjects, trust, summaries),
        side_b: side_view("island-b"@, kb, subjects, trust, summaries),
        operator_override: op,
    }
}

/// Both islands' kernel once the shared history of a configuration has run.
#[verifier::opaque]
pub open spec fn sim_history(config: SimConfig) -> KernelV {
    history(
        history_start(),
        sim_subjects(config.subjects),
        sim_pool(config.nodes),
        sim_trusts(config.seed, config.subjects),
    )
}

/// The witness summaries the shared history of a configuration leaves.
#[verifier::opaque]
pub open spec fn sim_history_summaries(config: SimConfig) -> Seq<WitnessSummary> {
    history_summaries(
        history_start(),
        sim_subjects(config.subjects),
        sim_pool(config.nodes),
        sim_trusts(config.seed, config.subjects),
    )
}

/// The simulated subjects' names.
pub open spec fn sim_subjects(n: u32) -> Seq<Seq<char>> {
    Seq::new(n as nat, |j: int| padded_name("s"@, j as u32))
}

/// `da` and `db` are the islands' digests after a shared history ending in
/// kernel `kh` (one tick-counted history round per subject step, the
/// simulator's policy): both advance to epoch 2, island B then revokes the victim,
/// and both run the same reunion on sides read from both islands.
pub open spec fn islands_after(
    config: SimConfig,
    victim: Seq<char>,
    kh: KernelV,
    trust: Seq<TrustGrade>,
    summaries: Seq<WitnessSummary>,
    da: RepairDigestV,
    db: RepairDigestV,
) -> bool {
    let ka = kernel_step(kh, InputV::EpochAdvanced { scope: "cluster"@, epoch: Epoch(2) }).0;
    let kb = island_b_partition(ka, victim, trust[victim_index(config.seed, config.subjects)]);
    let reunion = sim_reunion(ka, kb, sim_subjects(config.subjects), trust, summaries, sim_override(config, victim));
    &&& sim_policy(kh)
    &&& kh.round.0 == 4 * config.subjects
    &&& trust.len() == config.subjects
    &&& summaries.len() == config.subjects
    &&& da == digest_in(kernel_step(ka, reunion).0, "cluster"@)
    &&& db == digest_in(kernel_step(kb, reunion).0, "cluster"@)
}

/// An island read as reunion fragments: each subject's state there at
/// epoch 2, with its trust and witness summary, inserted by subject.
pub open spec fn side_fragments(
    k: KernelV,
    subjects: Seq<Seq<char>>,
    trust: Seq<TrustGrade>,
    summaries: Seq<WitnessSummary>,
) -> Seq<(Seq<char>, BeliefFragment)>
    decreases subjects.len(),
{
    if subjects.len() == 0 {
        Seq::empty()
    } else {
        let n = subjects.len() - 1;
        map_insert::<SubjectId, BeliefFragment>(
            side_fragments(k, subjects.drop_last(), trust, summaries),
            subjects[n],
            BeliefFragment {
                state: state_in(k, "cluster"@, subjects[n]),
                epoch: Epoch(2),
                trust: trust[n],
                authority: ScopeAuthority::Global,
                witness: summaries[n],
            },
        )
    }
}

/// An island read as a reunion side.
pub open spec fn side_view(
    label: Seq<char>,
    k: KernelV,
    subjects: Seq<Seq<char>>,
    trust: Seq<TrustGrade>,
    summaries: Seq<WitnessSummary>,
) -> MergeSideV {
    MergeSideV { label, epoch: Epoch(2), fragments: side_fragments(k, subjects, trust, summaries) }
}

/// A subject's state in a kernel's scope (unknown where the kernel holds
/// no belief about it).
pub open spec fn state_in(k: KernelV, scope: Seq<char>, subject: Seq<char>) -> BeliefState {
    match map_get::<ScopeId, MembershipViewV>(k.views, scope) {
        Some(v) => match map_get::<SubjectId, BeliefCellV>(v.beliefs, subject) {
            Some(c) => c.state,
            None => BeliefState::Unknown,
        },
        None => BeliefState::Unknown,
    }
}

fn state_of(kernel: &Kernel, scope: &ScopeId, subject: &SubjectId) -> (r: BeliefState)
    ensures
        r == state_in(kernel.model(), scope@, subject@),
{
    match kernel.view(scope) {
        Some(view) => match view.belief(subject) {
            Some(cell) => cell.state(),
            None => BeliefState::Unknown,
        },
        None => BeliefState::Unknown,
    }
}

/// The state a digest reports for a subject (unknown where it lists none).
pub open spec fn digest_state(d: RepairDigestV, subject: Seq<char>) -> BeliefState {
    match map_get::<SubjectId, (BeliefState, Epoch)>(d.subject_summaries, subject) {
        Some(e) => e.0,
        None => BeliefState::Unknown,
    }
}

/// A kernel's digest of a scope reports each subject's state there.
pub proof fn lemma_digest_reports_state(k: KernelV, scope: Seq<char>, subject: Seq<char>)
    ensures
        digest_state(digest_in(k, scope), subject) == state_in(k, scope, subject),
{
    match map_get::<ScopeId, MembershipViewV>(k.views, scope) {
        Some(v) => {
            let sums = crate::digest::summaries_of(v.beliefs);
            assert(crate::collections::keys_of(sums) =~= crate::collections::keys_of(v.beliefs));
            assert(digest_in(k, scope).subject_summaries == sums);
            let p = crate::collections::lower_bound::<SubjectId>(crate::collections::keys_of(sums), subject);
            assert(p == crate::collections::lower_bound::<SubjectId>(crate::collections::keys_of(v.beliefs), subject));
            assert(sums.len() == v.beliefs.len());
            if 0 <= p < sums.len() {
                assert(sums[p] == (v.beliefs[p].0, (v.beliefs[p].1.state, v.beliefs[p].1.epoch)));
            }
            crate::collections::lemma_map_index_same_keys::<SubjectId, (BeliefState, Epoch), BeliefCellV>(
                sums,
                v.beliefs,
                subject,
            );
            crate::collections::lemma_lower_bound_props::<SubjectId>(crate::collections::keys_of(v.beliefs), subject);
            match crate::collections::map_index::<SubjectId, BeliefCellV>(v.beliefs, subject) {
                Some(i) => {
                    assert(0 <= i < v.beliefs.len());
                    assert(sums[i].1.0 == v.beliefs[i].1.state);
                },
                None => {},
            }
        },
        None => {
            let sums = crate::digest::summaries_of(empty_view(scope).beliefs);
            assert(crate::collections::keys_of(sums) =~= crate::collections::keys_of(
                Seq::<(Seq<char>, BeliefCellV)>::empty(),
            ));
        },
    }
}

/// A fresh view of a scope at epoch 0.
pub open spec fn empty_view(scope: Seq<char>) -> MembershipViewV {
    MembershipViewV {
        scope,
        epoch: Epoch(0),
        beliefs: Seq::empty(),
        residue: ResidueLedgerV { entries: Seq::empty(), resolved: Seq::empty() },
    }
}

/// A kernel's repair digest for a scope (of an empty view where the
/// kernel has none).
pub open spec fn digest_in(k: KernelV, scope: Seq<char>) -> RepairDigestV {
    match map_get::<ScopeId, MembershipViewV>(k.views, scope) {
        Some(v) => repair_digest_of(v),
        None => repair_digest_of(empty_view(scope)),
    }
}

fn digest_of(kernel: &Kernel, scope: &ScopeId) -> (r: RepairDigest)
    ensures
        r@ == digest_in(kernel.model(), scope@),
{
    match kernel.view(scope) {
        Some(view) => RepairDigest::of(view),
        None => {
            let empty = crate::belief::view::MembershipView::new(scope.duplicate(), Epoch(0));
            assert(empty@.residue.resolved =~= Seq::<ResolvedResidueV>::empty());
            assert(empty@ =~= empty_view(scope@));
            RepairDigest::of(&empty)
        },
    }
}

/// The overall outcome of the last completed reunion among `events`.
pub open spec fn last_reunion(events: Seq<TranscriptEventV>) -> Option<OverallOutcome>
    decreases events.len(),
{
    if events.len() == 0 {
        None
    } else {
        match events.last() {
            TranscriptEventV::ReunionCompleted { overall, .. } => Some(overall),
            _ => last_reunion(events.drop_last()),
        }
    }
}

/// Events after the last completed reunion that are not reunions
/// themselves leave the last reunion as it was.
proof fn lemma_last_reunion_skips(pre: Seq<TranscriptEventV>, tail: Seq<TranscriptEventV>)
    requires
        forall|j: int| 0 <= j < tail.len() ==> !(#[trigger] tail[j] is ReunionCompleted),
    ensures
        last_reunion(pre + tail) == last_reunion(pre),
    decreases tail.len(),
{
    if tail.len() == 0 {
        assert(pre + tail =~= pre);
    } else {
        let init = tail.drop_last();
        assert((pre + tail).drop_last() =~= pre + init);
        assert((pre + tail).last() == tail[tail.len() - 1]);
        lemma_last_reunion_skips(pre, init);
    }
}

proof fn lemma_replaced_events_are_residue(rs: Seq<(crate::residue::ResidueV, crate::id::ResidueId)>, scope: Seq<char>)
    ensures
        forall|j: int| 0 <= j < crate::kernel::replaced_events(rs, scope).len()
            ==> (#[trigger] crate::kernel::replaced_events(rs, scope)[j]) is ResiduePreserved,
    decreases rs.len(),
{
    if rs.len() > 0 {
        lemma_replaced_events_are_residue(rs.drop_last(), scope);
        let init = crate::kernel::replaced_events(rs.drop_last(), scope);
        assert forall|j: int| 0 <= j < crate::kernel::replaced_events(rs, scope).len()
            implies (#[trigger] crate::kernel::replaced_events(rs, scope)[j]) is ResiduePreserved by {
            if j < init.len() {
                assert(crate::kernel::replaced_events(rs, scope)[j] == init[j]);
            }
        }
    }
}

/// After a reunion request, the transcript's last completed reunion is
/// that reunion's: marked as overridden exactly when the request carried
/// an operator override.
#[verifier::spinoff_prover]
#[verifier::rlimit(60)]
proof fn lemma_reunion_outcome_in_transcript(k: KernelV, input: InputV, pre: Seq<TranscriptEventV>)
    requires
        input is ReunionRequested,
        crate::kernel::reunion_made(k, input),
    ensures
        last_reunion(pre + kernel_step(k, input).2) matches Some(o) && ((o is StableWithOverride
            || o is ProvisionalWithOverride) == (input->operator_override is Some)),
{
    reveal(kernel_step);
    match input {
        InputV::ReunionRequested { scope, round, subjects, side_a, side_b, operator_override } => {
            let v0 = crate::kernel::view_at(k, scope);
            let epoch = crate::kernel::max_epoch(crate::kernel::max_epoch(v0.epoch, side_a.epoch), side_b.epoch);
            let ctx = crate::merge::engine::ReunionContextV { scope, epoch, round };
            let o = crate::merge::engine::reunion_result(k.policy.merge, ctx, subjects, side_a, side_b, operator_override);
            let rc = TranscriptEventV::ReunionCompleted {
                scope,
                input_digest: o.input_digest,
                overall: o.digest.overall,
                unresolved_residue: o.digest.unresolved_residue,
            };
            let head = pre + crate::kernel::merge_events(o.outcomes, scope) + seq![rc];
            assert(head.last() == rc);
            assert(last_reunion(head) == Some(o.digest.overall));
            let evs = kernel_step(k, input).2;
            let (v1, res) = crate::merge::engine::apply_prefix(
                v0,
                o.outcomes,
                o.outcomes.len(),
                o.input_digest,
                (epoch, round),
                k.policy,
            );
            match res {
                Ok(acc) => {
                    let tail = crate::kernel::replaced_events(acc.replaced, scope);
                    lemma_replaced_events_are_residue(acc.replaced, scope);
                    assert(pre + evs =~= head + tail);
                    lemma_last_reunion_skips(head, tail);
                },
                Err(e) => {
                    let tail = seq![
                        TranscriptEventV::TransitionRefused {
                            scope,
                            subject: "<reunion>"@,
                            event: crate::belief::state::EventKind::MergeProjected,
                            reason: crate::belief::cell::error_text(e),
                        },
                    ];
                    assert(pre + evs =~= head + tail);
                    lemma_last_reunion_skips(head, tail);
                },
            }
        },
        _ => {},
    }
}

/// The overall outcome of the last completed reunion in a transcript.
fn last_reunion_outcome(log: &Transcript) -> (r: Option<OverallOutcome>)
    ensures
        r == last_reunion(chain_events(log@)),
{
    let events = log.events();
    let ghost evs = chain_events(log@);
    assert(evs.len() == events@.len());
    let mut i: usize = events.len();
    assert(evs.subrange(0, evs.len() as int) =~= evs);
    while i > 0
        invariant
            i <= events@.len(),
            evs == chain_events(log@),
            evs.len() == events@.len(),
            events@.map_values(|e: SealedEvent| e@) == log@,
            last_reunion(evs) == last_reunion(evs.subrange(0, i as int)),
        decreases i,
    {
        i = i - 1;
        let ghost pre = evs.subrange(0, i + 1);
        assert(pre.drop_last() =~= evs.subrange(0, i as int));
        assert(pre.last() == events@[i as int]@.event);
        match &events[i].event {
            TranscriptEvent::ReunionCompleted { overall, .. } => {
                return Some(*overall);
            },
            _ => {},
        }
    }
    assert(evs.subrange(0, 0) =~= Seq::<TranscriptEventV>::empty());
    None
}

fn head_hex(log: &Transcript) -> (r: String) {
    match log.head() {
        Some(h) => hex8(&h),
        None => String::new(),
    }
}

/// The grade seeded for a name follows from its salt byte and its seed.
proof fn lemma_grade_from_bytes(root: u64, b: Seq<u8>, seed: u64, salt: u64)
    requires
        salt == (if b.len() > 1 { b[1] as u64 } else { 0 }),
        seed == spec_derive_seed(root, encode_utf8("trust"@), seq![(b.len() as u32) as u64]),
    ensures
        grade_from_bytes(root, b) == grade_of((70 + (seed ^ salt) % 20) as u8),
{
}

/// Subject `k`'s trust grade, derived from the seed and its name's bytes.
#[verifier::spinoff_prover]
fn seeded_trust(root: u64, name: &String) -> (g: TrustGrade)
    ensures
        g == grade_from_bytes(root, encode_utf8(name@)),
{
    let bytes = name.as_str().as_bytes();
    let ghost b = bytes@;
    let salt: u64 = if bytes.len() > 1 {
        bytes[1] as u64
    } else {
        0
    };
    let word: u64 = (bytes.len() as u32) as u64;
    let parts: Vec<u64> = vec![word];
    let seed = derive_seed(root, "trust", parts.as_slice());
    assert(parts@ =~= seq![(b.len() as u32) as u64]);
    let grade: u64 = 70 + (seed ^ salt) % 20;
    let g = TrustGrade::new(grade as u8);
    proof {
        lemma_grade_from_bytes(root, b, seed, salt);
    }
    g
}

/// The simulated subjects, named `s00`, `s01`, ..., with their seeded
/// trust grades.
fn sim_roster(root: u64, count: u32) -> (r: (Vec<SubjectId>, Vec<TrustGrade>))
    ensures
        r.0@.len() == count,
        r.1@.len() == count,
        r.1@ == sim_trusts(root, count),
        forall|j: int| 0 <= j < count ==> #[trigger] r.0@[j]@ == padded_name("s"@, j as u32),
        subject_views(r.0@) == sim_subjects(count),
{
    let mut subjects: Vec<SubjectId> = Vec::new();
    let mut trust: Vec<TrustGrade> = Vec::new();
    let mut k: u32 = 0;
    while k < count
        invariant
            k <= count,
            subjects@.len() == k,
            trust@.len() == k,
            forall|j: int| 0 <= j < k ==> #[trigger] subjects@[j]@ == padded_name("s"@, j as u32),
            forall|j: int| 0 <= j < k ==> #[trigger] trust@[j] == sim_trust(root, j),
        decreases count - k,
    {
        let name = padded("s", k);
        trust.push(seeded_trust(root, &name));
        subjects.push(SubjectId::from_string(name));
        k = k + 1;
    }
    assert(subject_views(subjects@) =~= sim_subjects(count));
    assert(trust@ =~= sim_trusts(root, count)) by {
        reveal(sim_trusts);
    }
    (subjects, trust)
}

/// The witness pool, named `n00`, `n01`, ....
fn sim_peers(count: u32) -> (r: Vec<PeerId>)
    ensures
        peer_views(r@) == sim_pool(count),
{
    let mut pool: Vec<PeerId> = Vec::new();
    let mut n: u32 = 0;
    while n < count
        invariant
            n <= count,
            pool@.len() == n,
            forall|j: int| 0 <= j < n ==> #[trigger] pool@[j]@ == padded_name("n"@, j as u32),
        decreases count - n,
    {
        pool.push(PeerId::from_string(padded("n", n)));
        n = n + 1;
    }
    assert(peer_views(pool@) =~= sim_pool(count));
    pool
}

/// Run the simulation: a pure function of its configuration.
///
/// Phase 1 builds the shared history; phase 2 partitions the cluster and
/// island B revokes a seeded victim at the same epoch island A keeps it
/// accepted; phase 3 runs the deterministic reunion on both islands at an
/// agreed rendezvous round, so both mint identical residue identities.
#[verifier::spinoff_prover]
#[verifier::rlimit(100)]
pub fn run(config: &SimConfig) -> (r: SimReport)
    requires
        config.subjects >= 1,
        config.nodes >= 1,
    ensures
        r.config == *config,
        r.victim@ == padded_name("s"@, victim_index(config.seed, config.subjects) as u32),
        r.narrative@.len() == 3,
        r.narrative@[1]@ == "phase 2: partition; island B revokes "@ + r.victim@
            + " at epoch 2 while island A keeps it accepted"@,
        r.narrative@[2]@ == "phase 3: deterministic reunion -> "@ + r.victim@ + " is "@ + state_name(
            r.victim_state,
        ) + ", "@ + decimal(r.unresolved_residue as nat) + " unresolved residue, islands "@ + if r.converged {
            "converged"@
        } else {
            "DIVERGED"@
        },
        r.converged == (r.island_digests[0]@.content_hash == r.island_digests[1]@.content_hash),
        r.victim_state == digest_state(r.island_digests[0]@, r.victim@),
        r.unresolved_residue == r.island_digests[0]@.unhandled_residue,
        r.unresolved_residue + r.handled_residue == r.island_digests[0]@.residue_ids.len(),
        (r.overall is StableWithOverride || r.overall is ProvisionalWithOverride) == config.operator_override,
        islands_after(
            *config,
            r.victim@,
            sim_history(*config),
            sim_trusts(config.seed, config.subjects),
            sim_history_summaries(*config),
            r.island_digests[0]@,
            r.island_digests[1]@,
        ),
{
    let root = config.seed;
    let (subjects, trust) = sim_roster(root, config.subjects);
    let pool = sim_peers(config.nodes);

    let mut prehistory = Transcript::new();
    let (mut island_a, mut island_b, summaries) = shared_history(&subjects, &pool, &trust, &mut prehistory);
    let ghost kh = island_a.model();
    assert(kh == sim_history(*config) && summaries@ == sim_history_summaries(*config)) by {
        reveal(sim_history);
        reveal(sim_history_summaries);
    }
    let mut narrative: Vec<String> = Vec::new();
    let mut line = string_of("phase 1: ");
    push_decimal(&mut line, subjects.len() as u64);
    line.append(" subjects accepted in scope 'cluster' under ");
    push_decimal(&mut line, 2);
    line.append("-round hysteresis (");
    push_decimal(&mut line, prehistory.len() as u64);
    line.append(" transcript events)");
    narrative.push(line);

    // Phase 2: partition. Island B removes the victim at the same epoch
    // island A keeps it accepted: the canonical same-epoch conflict.
    let mut transcript_a = Transcript::new();
    let mut transcript_b = Transcript::new();
    let vi = (derive_seed(root, "victim", &[]) as usize) % subjects.len();
    let victim = subjects[vi].duplicate();
    step(&mut island_a, Input::EpochAdvanced { scope: scope(), epoch: Epoch(2) }, &mut transcript_a);
    step(&mut island_b, Input::EpochAdvanced { scope: scope(), epoch: Epoch(2) }, &mut transcript_b);
    let watchdog = Observation {
        observer: WitnessId::new("n-watchdog"),
        subject: victim.duplicate(),
        mode: ObservationMode::Timeout,
        epoch: Epoch(2),
    };
    let watch_id = watchdog.id();
    proof {
        watch_id.lemma_with_bytes();
        assert(crate::evidence::observation_bytes(watchdog) == crate::encode::framed_str("n-watchdog"@)
            + crate::encode::framed_str(victim@) + seq![crate::evidence::mode_byte(ObservationMode::Timeout)]
            + crate::encode::le_u64(Epoch(2).0));
        assert(watch_id == crate::lab::theater::observation_id_of(
            "n-watchdog"@,
            victim@,
            ObservationMode::Timeout,
            Epoch(2),
        ));
    }
    let ghost ka0 = island_a.model();
    let opposing = WitnessRecord {
        witness: WitnessId::new("n-watchdog"),
        subject: victim.duplicate(),
        about: None,
        stance: Stance::SupportRevocation,
        observation: watch_id,
        mode: ObservationMode::Timeout,
        scope: scope(),
        epoch: Epoch(2),
        trust_context: trust[vi],
    };
    assert(vi == victim_index(config.seed, config.subjects));
    assert(opposing@ == opposing_record(victim@, trust@[vi as int]));
    step(&mut island_b, Input::WitnessRecordReceived(opposing), &mut transcript_b);
    step(&mut island_b, Input::Tick, &mut transcript_b);
    step(
        &mut island_b,
        Input::RemovalAssessed { scope: scope(), subject: victim.duplicate(), basis: RemovalBasis::PolicyViolation },
        &mut transcript_b,
    );
    let mut line = string_of("phase 2: partition; island B revokes ");
    line.append(victim.as_str());
    line.append(" at epoch 2 while island A keeps it accepted");
    narrative.push(line);

    // Phase 3: reunion. Sides are read straight from the island views;
    // witness summaries ride along from the shared history.
    let side_a = side("island-a", &island_a, &subjects, &trust, &summaries);
    let side_b = side("island-b", &island_b, &subjects, &trust, &summaries);
    let operator_override = if config.operator_override {
        Some(OperatorOverride {
            operator: OperatorId::new("sim-operator"),
            subject: victim.duplicate(),
            forced: BeliefState::Quarantined,
            reason: string_of("same-epoch removal vs acceptance: quarantine is the least dishonest intervention"),
            epoch: Epoch(2),
        })
    } else {
        None
    };
    // The rendezvous round is agreed as part of the reunion, so both
    // islands mint identical residue ids and genuinely converge.
    let input_a = Input::ReunionRequested {
        scope: scope(),
        round: Round(1000),
        subjects: copy_subjects(&subjects),
        side_a: side_a.duplicate(),
        side_b: side_b.duplicate(),
        operator_override: match &operator_override {
            Some(o) => Some(o.duplicate()),
            None => None,
        },
    };
    let input_b = Input::ReunionRequested {
        scope: scope(),
        round: Round(1000),
        subjects: copy_subjects(&subjects),
        side_a,
        side_b,
        operator_override,
    };
    let ghost pre_a = chain_events(transcript_a@);
    let ghost ka = island_a.model();
    let ghost ia = input_a@;
    proof {
        assert(ka == ka0);
        assert(island_b.model() == island_b_partition(ka0, victim@, trust@[vi as int]));
        assert(ia == sim_reunion(
            ka0,
            island_b.model(),
            sim_subjects(config.subjects),
            trust@,
            summaries@,
            sim_override(*config, victim@),
        ));
        assert(input_b@ == ia);
    }
    step(&mut island_a, input_a, &mut transcript_a);
    proof {
        lemma_reunion_outcome_in_transcript(ka, ia, pre_a);
    }
    step(&mut island_b, input_b, &mut transcript_b);

    let room = scope();
    let digest_a = digest_of(&island_a, &room);
    let digest_b = digest_of(&island_b, &room);
    proof {
        assert(islands_after(*config, victim@, kh, trust@, summaries@, digest_a@, digest_b@));
        assert(islands_after(
            *config,
            victim@,
            sim_history(*config),
            sim_trusts(config.seed, config.subjects),
            sim_history_summaries(*config),
            digest_a@,
            digest_b@,
        ));
    }
    let converged = crate::order::bytes_equal(digest_a.content_hash.as_slice(), digest_b.content_hash.as_slice());
    let victim_state = state_of(&island_a, &room, &victim);
    proof {
        lemma_digest_reports_state(island_a.model(), room@, victim@);
    }
    let (unresolved_residue, handled_residue) = match island_a.view(&room) {
        Some(view) => {
            let unhandled = view.residue().unhandled();
            let total = view.residue().len();
            proof {
                crate::digest::lemma_count_unhandled_bound(view@.residue.entries);
            }
            (unhandled, if total >= unhandled { total - unhandled } else { 0 })
        },
        None => (0, 0),
    };
    let overall = match last_reunion_outcome(&transcript_a) {
        Some(o) => o,
        None => OverallOutcome::Provisional,
    };
    let mut line = string_of("phase 3: deterministic reunion -> ");
    line.append(victim.as_str());
    line.append(" is ");
    line.append(victim_state.as_str());
    line.append(", ");
    push_decimal(&mut line, unresolved_residue as u64);
    line.append(" unresolved residue, islands ");
    line.append(if converged { "converged" } else { "DIVERGED" });
    narrative.push(line);

    let head_a = head_hex(&transcript_a);
    let head_b = head_hex(&transcript_b);
    SimReport {
        config: *config,
        narrative,
        victim: victim.as_str().to_owned(),
        victim_state,
        unresolved_residue,
        handled_residue,
        overall,
        converged,
        transcript_heads: [head_a, head_b],
        island_digests: [digest_a, digest_b],
    }
}

fn copy_subjects(v: &Vec<SubjectId>) -> (r: Vec<SubjectId>)
    ensures
        r@.map_values(|p: SubjectId| p@) == v@.map_values(|p: SubjectId| p@),
{
    let mut out: Vec<SubjectId> = Vec::new();
    let mut i: usize = 0;
    while i < v.len()
        invariant
            i <= v@.len(),
            out@.map_values(|p: SubjectId| p@) == v@.subrange(0, i as int).map_values(|p: SubjectId| p@),
        decreases v@.len() - i,
    {
        let ghost before = out@;
        out.push(v[i].duplicate());
        proof {
            assert(out@.map_values(|p: SubjectId| p@) =~= before.map_values(|p: SubjectId| p@).push(v@[i as int]@));
            assert(v@.subrange(0, i + 1).map_values(|p: SubjectId| p@) =~= v@.subrange(0, i as int).map_values(|p: SubjectId| p@).push(v@[i as int]@));
        }
        i = i + 1;
    }
    assert(v@.subrange(0, i as int) =~= v@);
    out
}

} // verus!
