//! Evidence bookkeeping and witness-summary derivation.
//!
//! Quality and diversity are derived from the recorded evidence itself:
//!
//! - **count** is the number of distinct corroborating witnesses;
//! - **quality** comes from the observation modes behind the records:
//!   challenge-response, direct contact and admin inspection are strong
//!   evidence, timeouts and topology inference are weak. Mostly-strong
//!   modes with at least two witnesses grade `Strong`; mostly-weak modes
//!   grade `Weak`; anything else grades `Mixed`;
//! - **diversity** comes from the vouch lineage of the witnesses: every
//!   witness is traced to the root of its introduction chain, and the
//!   number of distinct roots is the number of independent corroboration
//!   paths. Three or more roots grade `CrossScope`, two `Mixed`, one
//!   `SingleScope`, and one root with a loud cluster (four or more
//!   witnesses) of non-strong quality grades `Laundered`.
//!
//! The book also builds `MergeSide`s from live views and offers the
//! standard advancement gate.

use crate::belief::cell::BeliefCellV;
use crate::belief::state::BeliefState;
use crate::belief::view::MembershipView;
use crate::collections::{map_get, map_index, map_insert, set_index, set_insert, SortedMap, SortedSet};
use crate::epoch::Round;
use crate::evidence::{
    witness_record_id, Claim, ClaimV, Diversity, ObservationMode, Quality, Stance, WitnessRecord,
    WitnessRecordV, WitnessSummary};
use crate::hash::{blake3_digest, blake3_hash};
use crate::id::{SubjectId, WitnessId, WitnessRecordId};
use crate::merge::engine::{MergeSide, MergeSideV};
use crate::merge::BeliefFragment;
use crate::scope::{ScopeAuthority, ScopeId};
use crate::trust::{grade_of, TrustGrade};
use vstd::bytes::spec_u64_from_le_bytes;
use vstd::prelude::*;
use vstd::utf8::encode_utf8;

verus! {

/// Full witness records plus vouch lineage, per scope: the node-local
/// memory the kernel's belief cells deliberately do not carry (cells keep
/// record ids; the book keeps the records).
#[derive(Debug, Clone, PartialEq, Eq)]
pub struct EvidenceBook {
    /// scope -> subject -> record id -> record.
    records: SortedMap<ScopeId, SortedMap<SubjectId, SortedMap<WitnessRecordId, WitnessRecord>>>,
    /// scope -> member -> who vouched them in. Fed from claim provenance.
    lineage: SortedMap<ScopeId, SortedMap<WitnessId, WitnessId>>,
    /// Trust roots per scope. Lineage climbing stops below a trust root:
    /// in a room every chain eventually reaches the creator, so the
    /// meaningful independence unit is the branch just under the root.
    trust_roots: SortedMap<ScopeId, SortedSet<WitnessId>>,
}

pub struct EvidenceBookV {
    pub records: Seq<(Seq<char>, Seq<(Seq<char>, Seq<(WitnessRecordId, WitnessRecordV)>)>)>,
    pub lineage: Seq<(Seq<char>, Seq<(Seq<char>, Seq<char>)>)>,
    pub trust_roots: Seq<(Seq<char>, Seq<Seq<char>>)>,
}

impl View for EvidenceBook {
    type V = EvidenceBookV;

    closed spec fn view(&self) -> EvidenceBookV {
        EvidenceBookV {
            records: self.records@,
            lineage: self.lineage@,
            trust_roots: self.trust_roots@,
        }
    }
}

pub open spec fn by_subject(b: EvidenceBookV, scope: Seq<char>) -> Seq<(Seq<char>, Seq<(WitnessRecordId, WitnessRecordV)>)> {
    match map_get::<ScopeId, Seq<(Seq<char>, Seq<(WitnessRecordId, WitnessRecordV)>)>>(b.records, scope) {
        Some(m) => m,
        None => Seq::empty(),
    }
}

/// The records kept for a (scope, subject), in id order.
pub open spec fn records_at(b: EvidenceBookV, scope: Seq<char>, subject: Seq<char>) -> Seq<(WitnessRecordId, WitnessRecordV)> {
    match map_get::<SubjectId, Seq<(WitnessRecordId, WitnessRecordV)>>(by_subject(b, scope), subject) {
        Some(m) => m,
        None => Seq::empty(),
    }
}

pub open spec fn lineage_of(b: EvidenceBookV, scope: Seq<char>) -> Seq<(Seq<char>, Seq<char>)> {
    match map_get::<ScopeId, Seq<(Seq<char>, Seq<char>)>>(b.lineage, scope) {
        Some(m) => m,
        None => Seq::empty(),
    }
}

pub open spec fn roots_at(b: EvidenceBookV, scope: Seq<char>) -> Seq<Seq<char>> {
    match map_get::<ScopeId, Seq<Seq<char>>>(b.trust_roots, scope) {
        Some(s) => s,
        None => Seq::empty(),
    }
}

pub open spec fn is_root(roots: Seq<Seq<char>>, w: Seq<char>) -> bool {
    set_index::<WitnessId>(roots, w) is Some
}

/// Climb the vouch chain from `current`, having passed through `seen`:
/// stop at a member with no voucher, below a trust root, or on a cycle.
pub open spec fn climb(lin: Seq<(Seq<char>, Seq<char>)>, roots: Seq<Seq<char>>, current: Seq<char>, seen: Seq<Seq<char>>) -> Seq<char>
    decreases lin.len() - seen.len(),
{
    match map_get::<WitnessId, Seq<char>>(lin, current) {
        Some(parent) => if is_root(roots, parent) || seen.contains(current) || seen.len() >= lin.len() {
            current
        } else {
            climb(lin, roots, parent, seen.push(current))
        },
        None => current,
    }
}

/// The independent lineage branch a witness belongs to.
pub open spec fn spec_lineage_root(b: EvidenceBookV, scope: Seq<char>, w: Seq<char>) -> Seq<char> {
    climb(lineage_of(b, scope), roots_at(b, scope), w, Seq::empty())
}

/// Corroborating records among `rs`, in order.
pub open spec fn corroborating_in(rs: Seq<(WitnessRecordId, WitnessRecordV)>) -> Seq<WitnessRecordV>
    decreases rs.len(),
{
    if rs.len() == 0 {
        Seq::empty()
    } else {
        corroborating_in(rs.drop_last()) + if rs.last().1.stance == Stance::Corroborate {
            seq![rs.last().1]
        } else {
            Seq::empty()
        }
    }
}

pub open spec fn spec_corroborating(b: EvidenceBookV, scope: Seq<char>, subject: Seq<char>) -> Seq<WitnessRecordV> {
    corroborating_in(records_at(b, scope, subject))
}

/// Distinct witnesses of `rs`, in first-appearance order.
pub open spec fn distinct_witnesses(rs: Seq<WitnessRecordV>) -> Seq<Seq<char>>
    decreases rs.len(),
{
    if rs.len() == 0 {
        Seq::empty()
    } else {
        let d = distinct_witnesses(rs.drop_last());
        if d.contains(rs.last().witness) {
            d
        } else {
            d.push(rs.last().witness)
        }
    }
}

/// Distinct lineage roots of the witnesses `ws`, in first-appearance order.
pub open spec fn distinct_roots(b: EvidenceBookV, scope: Seq<char>, ws: Seq<Seq<char>>) -> Seq<Seq<char>>
    decreases ws.len(),
{
    if ws.len() == 0 {
        Seq::empty()
    } else {
        let d = distinct_roots(b, scope, ws.drop_last());
        let r = spec_lineage_root(b, scope, ws.last());
        if d.contains(r) {
            d
        } else {
            d.push(r)
        }
    }
}

pub open spec fn is_strong_mode(m: ObservationMode) -> bool {
    m == ObservationMode::ChallengeResponse || m == ObservationMode::DirectContact || m
        == ObservationMode::AdminInspection
}

pub open spec fn strong_count(rs: Seq<WitnessRecordV>) -> nat
    decreases rs.len(),
{
    if rs.len() == 0 {
        0
    } else {
        strong_count(rs.drop_last()) + if is_strong_mode(rs.last().mode) {
            1nat
        } else {
            0nat
        }
    }
}

/// The corroboration shape derived from the recorded evidence.
pub open spec fn spec_summarize(b: EvidenceBookV, scope: Seq<char>, subject: Seq<char>) -> WitnessSummary {
    let rs = spec_corroborating(b, scope, subject);
    let ws = distinct_witnesses(rs);
    let roots = distinct_roots(b, scope, ws);
    let strong = strong_count(rs);
    let weak = rs.len() - strong;
    let count = ws.len() as u32;
    let quality = if count >= 2 && strong * 3 >= rs.len() * 2 {
        Quality::Strong
    } else if rs.len() == 0 || weak * 2 >= rs.len() {
        Quality::Weak
    } else {
        Quality::Mixed
    };
    let diversity = if roots.len() <= 1 {
        if count >= 4 && quality != Quality::Strong {
            Diversity::Laundered
        } else {
            Diversity::SingleScope
        }
    } else if roots.len() == 2 {
        Diversity::Mixed
    } else {
        Diversity::CrossScope
    };
    WitnessSummary { count, quality, diversity }
}

/// The strongest trust context among `rs`, or the floor of 10.
pub open spec fn max_trust(rs: Seq<WitnessRecordV>) -> TrustGrade
    decreases rs.len(),
{
    if rs.len() == 0 {
        grade_of(10)
    } else if rs.len() == 1 {
        rs[0].trust_context
    } else {
        let m = max_trust(rs.drop_last());
        if rs.last().trust_context.value() >= m.value() {
            rs.last().trust_context
        } else {
            m
        }
    }
}

pub open spec fn spec_standing_trust(b: EvidenceBookV, scope: Seq<char>, subject: Seq<char>) -> TrustGrade {
    max_trust(spec_corroborating(b, scope, subject))
}

/// The book after recording a claim's provenance: the introducer becomes
/// the subject's lineage parent, unless the subject vouches for itself or
/// already has one.
pub open spec fn claim_recorded(b: EvidenceBookV, c: ClaimV) -> EvidenceBookV {
    let lin = lineage_of(b, c.scope);
    if c.subject == c.provenance || map_index::<WitnessId, Seq<char>>(lin, c.subject) is Some {
        b
    } else {
        EvidenceBookV {
            lineage: map_insert::<ScopeId, Seq<(Seq<char>, Seq<char>)>>(
                b.lineage,
                c.scope,
                map_insert::<WitnessId, Seq<char>>(lin, c.subject, c.provenance),
            ),
            ..b
        }
    }
}

/// The book after recording a witness record under its scope, subject and
/// id.
pub open spec fn witness_recorded(b: EvidenceBookV, r: WitnessRecordV) -> EvidenceBookV {
    EvidenceBookV {
        records: map_insert::<ScopeId, Seq<(Seq<char>, Seq<(WitnessRecordId, WitnessRecordV)>)>>(
            b.records,
            r.scope,
            map_insert::<SubjectId, Seq<(WitnessRecordId, WitnessRecordV)>>(
                by_subject(b, r.scope),
                r.subject,
                map_insert::<WitnessRecordId, WitnessRecordV>(records_at(b, r.scope, r.subject), witness_record_id(r), r),
            ),
        ),
        ..b
    }
}

impl EvidenceBook {
    pub fn new() -> (r: Self)
        ensures
            r@.records.len() == 0,
            r@.lineage.len() == 0,
            r@.trust_roots.len() == 0,
    {
        EvidenceBook { records: SortedMap::new(), lineage: SortedMap::new(), trust_roots: SortedMap::new() }
    }

    /// Record a claim's provenance: the introducer becomes the subject's
    /// lineage parent (first introduction wins; re-vouching does not
    /// rewrite history).
    pub fn record_claim(&mut self, claim: &Claim)
        ensures
            final(self)@ == claim_recorded(old(self)@, claim@),
    {
        let member = WitnessId::new(claim.subject.as_str());
        let voucher = WitnessId::new(claim.provenance.introducer.as_str());
        if member.same(&voucher) {
            return;
        }
        let known = match self.lineage.get(&claim.scope) {
            Some(m) => m.contains_key(&member),
            None => false,
        };
        if known {
            return;
        }
        let ghost b = self@;
        let inner = self.lineage.entry_mut(claim.scope.duplicate(), SortedMap::new());
        inner.insert(member, voucher);
        proof {
            assert(Seq::<(Seq<char>, Seq<char>)>::empty() =~= lineage_of(b, claim@.scope) || map_get::<ScopeId, Seq<(Seq<char>, Seq<char>)>>(b.lineage, claim@.scope) is Some);
        }
    }

    pub fn record_witness(&mut self, record: WitnessRecord)
        ensures
            final(self)@ == witness_recorded(old(self)@, record@),
    {
        let id = record.id();
        let subjects = self.records.entry_mut(record.scope.duplicate(), SortedMap::new());
        let ids = subjects.entry_mut(record.subject.duplicate(), SortedMap::new());
        ids.insert(id, record);
    }

    /// Mark a witness as a trust root in a scope (e.g. the room creator).
    pub fn mark_trust_root(&mut self, scope: &ScopeId, witness: WitnessId)
        ensures
            final(self)@ == (EvidenceBookV {
                trust_roots: map_insert::<ScopeId, Seq<Seq<char>>>(
                    old(self)@.trust_roots,
                    scope@,
                    set_insert::<WitnessId>(roots_at(old(self)@, scope@), witness@),
                ),
                ..old(self)@
            }),
    {
        let roots = self.trust_roots.entry_mut(scope.duplicate(), SortedSet::new());
        roots.insert(witness);
    }

    fn is_trust_root(&self, scope: &ScopeId, witness: &WitnessId) -> (r: bool)
        ensures
            r == is_root(roots_at(self@, scope@), witness@),
    {
        match self.trust_roots.get(scope) {
            Some(roots) => roots.contains(witness),
            None => false,
        }
    }
}

pub open spec fn witness_views(v: Seq<WitnessId>) -> Seq<Seq<char>> {
    v.map_values(|x: WitnessId| x@)
}

proof fn lemma_seen_bound(lin: Seq<(Seq<char>, Seq<char>)>, seen: Seq<Seq<char>>)
    requires
        seen.no_duplicates(),
        forall|i: int| 0 <= i < seen.len() ==> map_get::<WitnessId, Seq<char>>(lin, #[trigger] seen[i]) is Some,
    ensures
        seen.len() <= lin.len(),
{
    broadcast use vstd::seq_lib::seq_to_set_is_finite;

    let keys = crate::collections::keys_of(lin);
    seen.unique_seq_to_set();
    keys.lemma_cardinality_of_set();
    assert forall|x: Seq<char>| seen.to_set().contains(x) implies keys.to_set().contains(x) by {
        let i = choose|i: int| 0 <= i < seen.len() && seen[i] == x;
        assert(map_get::<WitnessId, Seq<char>>(lin, seen[i]) is Some);
        crate::collections::lemma_lower_bound_props::<WitnessId>(keys, x);
        let j = crate::collections::lower_bound::<WitnessId>(keys, x);
        assert(0 <= j < lin.len() && lin[j].0 == x);
        assert(keys[j] == lin[j].0);
    }
    vstd::set_lib::lemma_len_subset(seen.to_set(), keys.to_set());
}

fn contains_witness(v: &Vec<WitnessId>, w: &WitnessId) -> (r: bool)
    ensures
        r == witness_views(v@).contains(w@),
{
    let ghost vv = witness_views(v@);
    let mut i: usize = 0;
    while i < v.len()
        invariant
            i <= v@.len(),
            vv == witness_views(v@),
            forall|j: int| 0 <= j < i ==> vv[j] != w@,
        decreases v@.len() - i,
    {
        if v[i].same(w) {
            assert(vv[i as int] == w@);
            return true;
        }
        i = i + 1;
    }
    false
}

fn strong_mode(m: ObservationMode) -> (r: bool)
    ensures
        r == is_strong_mode(m),
{
    match m {
        ObservationMode::ChallengeResponse | ObservationMode::DirectContact | ObservationMode::AdminInspection => true,
        _ => false,
    }
}

proof fn lemma_strong_count_bound(rs: Seq<WitnessRecordV>)
    ensures
        strong_count(rs) <= rs.len(),
    decreases rs.len(),
{
    if rs.len() > 0 {
        lemma_strong_count_bound(rs.drop_last());
    }
}

impl EvidenceBook {
    /// Follow the vouch chain upward (cycle-guarded), stopping at the last
    /// ancestor below a trust root: the independent lineage branch.
    pub fn lineage_root(&self, scope: &ScopeId, witness: &WitnessId) -> (r: WitnessId)
        ensures
            r@ == spec_lineage_root(self@, scope@, witness@),
    {
        let empty: SortedMap<WitnessId, WitnessId> = SortedMap::new();
        let lin = match self.lineage.get(scope) {
            Some(m) => m,
            None => &empty,
        };
        let ghost lv = lin@;
        let ghost roots = roots_at(self@, scope@);
        proof {
            assert(lv == lineage_of(self@, scope@));
        }
        let mut current = witness.duplicate();
        let mut seen: Vec<WitnessId> = Vec::new();
        assert(witness_views(seen@) =~= Seq::<Seq<char>>::empty());
        loop
            invariant
                lv == lin@,
                lv == lineage_of(self@, scope@),
                roots == roots_at(self@, scope@),
                climb(lv, roots, current@, witness_views(seen@)) == climb(
                    lv,
                    roots,
                    witness@,
                    Seq::empty(),
                ),
                witness_views(seen@).no_duplicates(),
                forall|i: int|
                    0 <= i < seen@.len() ==> map_get::<WitnessId, Seq<char>>(
                        lv,
                        #[trigger] witness_views(seen@)[i],
                    ) is Some,
                seen@.len() <= lv.len(),
            ensures
                current@ == climb(lv, roots, witness@, Seq::empty()),
            decreases lv.len() - seen@.len(),
        {
            let ghost sv = witness_views(seen@);
            let parent = match lin.get(&current) {
                None => {
                    break;
                },
                Some(p) => p,
            };
            if self.is_trust_root(scope, parent) || contains_witness(&seen, &current) {
                break;
            }
            proof {
                let next = sv.push(current@);
                assert forall|i: int, j: int| 0 <= i < j < next.len() implies next[i] != next[j] by {
                    if j == sv.len() {
                        assert(next[i] == sv[i]);
                    }
                }
                assert forall|i: int| 0 <= i < next.len() implies map_get::<WitnessId, Seq<char>>(
                    lv,
                    #[trigger] next[i],
                ) is Some by {
                    if i < sv.len() {
                        assert(next[i] == sv[i]);
                    }
                }
                lemma_seen_bound(lv, next);
                assert(climb(lv, roots, current@, sv) == climb(lv, roots, parent@, next));
            }
            let here = current.duplicate();
            seen.push(here);
            proof {
                assert(witness_views(seen@) =~= sv.push(current@));
            }
            current = parent.duplicate();
        }
        current
    }

    fn corroborating(&self, scope: &ScopeId, subject: &SubjectId) -> (r: Vec<&WitnessRecord>)
        ensures
            r@.map_values(|x: &WitnessRecord| x@) == spec_corroborating(self@, scope@, subject@),
    {
        let mut out: Vec<&WitnessRecord> = Vec::new();
        let subjects = match self.records.get(scope) {
            Some(m) => m,
            None => {
                assert(out@.map_values(|x: &WitnessRecord| x@) =~= Seq::<WitnessRecordV>::empty());
                return out;
            },
        };
        let records = match subjects.get(subject) {
            Some(m) => m,
            None => {
                assert(out@.map_values(|x: &WitnessRecord| x@) =~= Seq::<WitnessRecordV>::empty());
                return out;
            },
        };
        let ghost rv = records@;
        let mut i: usize = 0;
        while i < records.len()
            invariant
                i <= rv.len(),
                rv == records@,
                rv == records_at(self@, scope@, subject@),
                out@.map_values(|x: &WitnessRecord| x@) == corroborating_in(rv.subrange(0, i as int)),
            decreases rv.len() - i,
        {
            let record = records.value_at(i);
            proof {
                let next = rv.subrange(0, i + 1);
                assert(next.drop_last() =~= rv.subrange(0, i as int));
                assert(next.last() == rv[i as int]);
            }
            let ghost before = out@;
            if record.stance == Stance::Corroborate {
                out.push(record);
                assert(out@.map_values(|x: &WitnessRecord| x@) =~= before.map_values(|x: &WitnessRecord| x@).push(record@));
            }
            i = i + 1;
            assert(out@.map_values(|x: &WitnessRecord| x@) =~= corroborating_in(rv.subrange(0, i as int)));
        }
        assert(rv.subrange(0, i as int) =~= rv);
        out
    }

    /// Corroborating record ids, for evidence-carrying belief events.
    pub fn corroborating_ids(&self, scope: &ScopeId, subject: &SubjectId) -> (r: Vec<WitnessRecordId>)
        ensures
            r@ == spec_corroborating(self@, scope@, subject@).map_values(|x: WitnessRecordV| witness_record_id(x)),
    {
        let records = self.corroborating(scope, subject);
        let ghost rv = records@.map_values(|x: &WitnessRecord| x@);
        let mut out: Vec<WitnessRecordId> = Vec::new();
        let mut i: usize = 0;
        while i < records.len()
            invariant
                i <= records@.len(),
                rv == records@.map_values(|x: &WitnessRecord| x@),
                out@ == rv.subrange(0, i as int).map_values(|x: WitnessRecordV| witness_record_id(x)),
            decreases records@.len() - i,
        {
            out.push(records[i].id());
            proof {
                assert(rv[i as int] == records@[i as int]@);
            }
            i = i + 1;
            assert(out@ =~= rv.subrange(0, i as int).map_values(|x: WitnessRecordV| witness_record_id(x)));
        }
        assert(rv.subrange(0, i as int) =~= rv);
        out
    }

    /// Derive the corroboration shape from the recorded evidence.
    pub fn summarize(&self, scope: &ScopeId, subject: &SubjectId) -> (r: WitnessSummary)
        ensures
            r == spec_summarize(self@, scope@, subject@),
    {
        let records = self.corroborating(scope, subject);
        let ghost rv = records@.map_values(|x: &WitnessRecord| x@);
        let mut witnesses: Vec<WitnessId> = Vec::new();
        let mut roots: Vec<WitnessId> = Vec::new();
        let mut strong: usize = 0;
        let mut i: usize = 0;
        while i < records.len()
            invariant
                i <= records@.len(),
                rv == records@.map_values(|x: &WitnessRecord| x@),
                witness_views(witnesses@) == distinct_witnesses(rv.subrange(0, i as int)),
                witness_views(roots@) == distinct_roots(
                    self@,
                    scope@,
                    distinct_witnesses(rv.subrange(0, i as int)),
                ),
                strong == strong_count(rv.subrange(0, i as int)),
                strong <= i,
            decreases records@.len() - i,
        {
            let record = records[i];
            let ghost prev = rv.subrange(0, i as int);
            proof {
                let next = rv.subrange(0, i + 1);
                assert(next.drop_last() =~= prev);
                assert(next.last() == record@);
                assert(rv[i as int] == record@);
            }
            let ghost wv = witness_views(witnesses@);
            if !contains_witness(&witnesses, &record.witness) {
                witnesses.push(record.witness.duplicate());
                assert(witness_views(witnesses@) =~= wv.push(record@.witness));
                let root = self.lineage_root(scope, &record.witness);
                let ghost rtv = witness_views(roots@);
                proof {
                    let ws = wv.push(record@.witness);
                    assert(ws.drop_last() =~= wv);
                }
                if !contains_witness(&roots, &root) {
                    roots.push(root);
                    assert(witness_views(roots@) =~= rtv.push(spec_lineage_root(self@, scope@, record@.witness)));
                }
            }
            if strong_mode(record.mode) {
                strong = strong + 1;
            }
            i = i + 1;
        }
        proof {
            assert(rv.subrange(0, i as int) =~= rv);
            lemma_strong_count_bound(rv);
        }
        let n = records.len();
        let count = witnesses.len() as u32;
        let weak = n - strong;
        let quality = if count >= 2 && (strong as u128) * 3 >= (n as u128) * 2 {
            Quality::Strong
        } else if n == 0 || (weak as u128) * 2 >= (n as u128) {
            Quality::Weak
        } else {
            Quality::Mixed
        };
        let diversity = if roots.len() <= 1 {
            if count >= 4 && quality != Quality::Strong {
                Diversity::Laundered
            } else {
                Diversity::SingleScope
            }
        } else if roots.len() == 2 {
            Diversity::Mixed
        } else {
            Diversity::CrossScope
        };
        WitnessSummary { count, quality, diversity }
    }

    /// The trust a subject's standing carries into a merge: the strongest
    /// trust context among its corroborating records, with a floor of 10
    /// for subjects that have no corroboration yet.
    pub fn standing_trust(&self, scope: &ScopeId, subject: &SubjectId) -> (r: TrustGrade)
        ensures
            r == spec_standing_trust(self@, scope@, subject@),
    {
        let records = self.corroborating(scope, subject);
        let ghost rv = records@.map_values(|x: &WitnessRecord| x@);
        if records.len() == 0 {
            return TrustGrade::new(10);
        }
        let mut best = records[0].trust_context;
        proof {
            assert(rv[0] == records@[0]@);
            assert(rv.subrange(0, 1) =~= seq![rv[0]]);
        }
        let mut i: usize = 1;
        while i < records.len()
            invariant
                1 <= i <= records@.len(),
                rv == records@.map_values(|x: &WitnessRecord| x@),
                best == max_trust(rv.subrange(0, i as int)),
            decreases records@.len() - i,
        {
            let t = records[i].trust_context;
            proof {
                let next = rv.subrange(0, i + 1);
                assert(next.drop_last() =~= rv.subrange(0, i as int));
                assert(next.last() == records@[i as int]@);
            }
            if t.get() >= best.get() {
                best = t;
            }
            i = i + 1;
        }
        assert(rv.subrange(0, i as int) =~= rv);
        best
    }

    /// Build one party's reunion side from a live view plus this book's
    /// evidence.
    pub fn merge_side(&self, label: &str, view: &MembershipView, authority: ScopeAuthority) -> (r: MergeSide)
        ensures
            r@ == (MergeSideV {
                label: label@,
                epoch: view@.epoch,
                fragments: view@.beliefs.map_values(
                    |e: (Seq<char>, BeliefCellV)| fragment_entry(self@, view@.scope, authority, e),
                ),
            }),
    {
        let scope = view.scope();
        let cells = view.subjects();
        let ghost bv = cells@;
        let ghost f = |e: (Seq<char>, BeliefCellV)| fragment_entry(self@, view@.scope, authority, e);
        let ghost g = |e: (SubjectId, BeliefFragment)| (e.0@, e.1@);
        let mut entries: Vec<(SubjectId, BeliefFragment)> = Vec::new();
        let mut i: usize = 0;
        while i < cells.len()
            invariant
                i <= bv.len(),
                bv == cells@,
                bv == view@.beliefs,
                scope@ == view@.scope,
                g == (|e: (SubjectId, BeliefFragment)| (e.0@, e.1@)),
                f == (|e: (Seq<char>, BeliefCellV)| fragment_entry(self@, view@.scope, authority, e)),
                entries@.map_values(g) == bv.subrange(0, i as int).map_values(f),
            decreases bv.len() - i,
        {
            let subject = cells.key_at(i);
            let cell = cells.value_at(i);
            let fragment = BeliefFragment {
                state: cell.state(),
                epoch: cell.epoch(),
                trust: self.standing_trust(scope, subject),
                authority,
                witness: self.summarize(scope, subject),
            };
            let ghost before = entries@;
            let key = subject.duplicate();
            assert((key@, fragment@) == fragment_entry(self@, view@.scope, authority, bv[i as int]));
            entries.push((key, fragment));
            proof {
                assert(entries@ == before.push((key, fragment)));
                assert(entries@.map_values(g) =~= before.map_values(g).push(f(bv[i as int])));
                assert(bv.subrange(0, i + 1).map_values(f) =~= bv.subrange(0, i as int).map_values(f).push(f(bv[i as int])));
            }
            i = i + 1;
        }
        assert(bv.subrange(0, i as int) =~= bv);
        MergeSide {
            label: crate::text::string_of(label),
            epoch: view.epoch(),
            fragments: SortedMap::from_entries(entries),
        }
    }
}

/// One subject's fragment in a reunion side: the live cell's state and
/// epoch, with the trust and witness shape derived from the book.
pub open spec fn fragment_entry(b: EvidenceBookV, scope: Seq<char>, authority: ScopeAuthority, e: (Seq<char>, BeliefCellV)) -> (Seq<char>, BeliefFragment) {
    (
        e.0,
        BeliefFragment {
            state: e.1.state,
            epoch: e.1.epoch,
            trust: spec_standing_trust(b, scope, e.0),
            authority,
            witness: spec_summarize(b, scope, e.0),
        },
    )
}

/// The standard advancement gate: strengthen scoped belief only when the
/// derived summary clears both the quality bar and the laundering check.
pub open spec fn spec_clears_gate(s: WitnessSummary) -> bool {
    s.count >= 2 && s.quality != Quality::Weak && s.diversity != Diversity::Laundered
}

proof fn lemma_all_strong_count(rs: Seq<WitnessRecordV>)
    requires
        forall|i: int| 0 <= i < rs.len() ==> is_strong_mode(#[trigger] rs[i].mode),
    ensures
        strong_count(rs) == rs.len(),
    decreases rs.len(),
{
    if rs.len() > 0 {
        assert forall|i: int| 0 <= i < rs.drop_last().len() implies is_strong_mode(
            #[trigger] rs.drop_last()[i].mode,
        ) by {
            assert(rs.drop_last()[i] == rs[i]);
        }
        lemma_all_strong_count(rs.drop_last());
        assert(is_strong_mode(rs[rs.len() - 1].mode));
    }
}

/// Strong corroboration takes at least two distinct witnesses: one witness
/// never earns a strong grade, however many strong-mode records it files.
/// The count is the number of distinct corroborating witnesses, and one
/// witness whose records are all strong-mode (challenge-response, direct
/// contact or admin inspection) is graded mixed.
pub proof fn lemma_strong_needs_two_witnesses(b: EvidenceBookV, scope: Seq<char>, subject: Seq<char>)
    ensures
        ({
            let s = spec_summarize(b, scope, subject);
            s.quality == Quality::Strong ==> s.count >= 2
        }),
        spec_summarize(b, scope, subject).count == distinct_witnesses(spec_corroborating(b, scope, subject)).len() as u32,
        ({
            let rs = spec_corroborating(b, scope, subject);
            let s = spec_summarize(b, scope, subject);
            (s.count < 2 && rs.len() > 0 && forall|i: int| 0 <= i < rs.len() ==> is_strong_mode(#[trigger] rs[i].mode))
                ==> s.quality == Quality::Mixed
        }),
{
    let rs = spec_corroborating(b, scope, subject);
    if forall|i: int| 0 <= i < rs.len() ==> is_strong_mode(#[trigger] rs[i].mode) {
        lemma_all_strong_count(rs);
    }
}

/// Quality follows the observation modes: a strong grade needs at least
/// two thirds of the corroborating records to be strong-mode, a summary
/// with no corroborating record is weak with a count of zero, and one in
/// which at least half the records are weak-mode is never graded above
/// weak.
pub proof fn lemma_quality_follows_modes(b: EvidenceBookV, scope: Seq<char>, subject: Seq<char>)
    ensures
        ({
            let rs = spec_corroborating(b, scope, subject);
            let s = spec_summarize(b, scope, subject);
            &&& s.quality == Quality::Strong ==> strong_count(rs) * 3 >= rs.len() * 2
            &&& rs.len() == 0 ==> s.quality == Quality::Weak && s.count == 0
            &&& (rs.len() - strong_count(rs)) * 2 >= rs.len() && s.count < 2 ==> s.quality == Quality::Weak
        }),
{
    let rs = spec_corroborating(b, scope, subject);
    if rs.len() == 0 {
        assert(distinct_witnesses(rs).len() == 0);
    }
}

/// A laundered summary never clears the advancement bar, however loud
/// it is; neither does weak or single-witness corroboration.
pub proof fn lemma_laundering_never_advances(s: WitnessSummary)
    ensures
        s.diversity == Diversity::Laundered ==> !spec_clears_gate(s),
        s.quality == Quality::Weak ==> !spec_clears_gate(s),
        s.count < 2 ==> !spec_clears_gate(s),
{
}

/// Laundering is derived, not asserted: a summary whose corroborating
/// witnesses all trace to fewer than two lineage roots, with at least four
/// witnesses and no strong quality grade, is graded laundered.
pub proof fn lemma_laundering_is_derived(b: EvidenceBookV, scope: Seq<char>, subject: Seq<char>)
    ensures
        ({
            let rs = spec_corroborating(b, scope, subject);
            let ws = distinct_witnesses(rs);
            let s = spec_summarize(b, scope, subject);
            (distinct_roots(b, scope, ws).len() <= 1 && ws.len() as u32 >= 4 && s.quality != Quality::Strong)
                ==> s.diversity == Diversity::Laundered
        }),
        ({
            let rs = spec_corroborating(b, scope, subject);
            let ws = distinct_witnesses(rs);
            distinct_roots(b, scope, ws).len() >= 3 ==> spec_summarize(b, scope, subject).diversity
                == Diversity::CrossScope
        }),
{
}

pub fn clears_advancement_gate(summary: &WitnessSummary) -> (r: bool)
    ensures
        r == spec_clears_gate(*summary),
{
    summary.count >= 2 && summary.quality != Quality::Weak && summary.diversity != Diversity::Laundered
}

pub open spec fn advanceable_state(s: BeliefState) -> bool {
    s == BeliefState::Witnessed || s == BeliefState::Provisional || s == BeliefState::Suspected
}

/// Subjects of `beliefs` ready to strengthen one step, with their
/// corroborating record ids.
pub open spec fn spec_ready(b: EvidenceBookV, scope: Seq<char>, beliefs: Seq<(Seq<char>, BeliefCellV)>) -> Seq<(Seq<char>, Seq<WitnessRecordId>)>
    decreases beliefs.len(),
{
    if beliefs.len() == 0 {
        Seq::empty()
    } else {
        let e = beliefs.last();
        spec_ready(b, scope, beliefs.drop_last()) + if advanceable_state(e.1.state)
            && spec_clears_gate(spec_summarize(b, scope, e.0)) {
            seq![
                (
                    e.0,
                    spec_corroborating(b, scope, e.0).map_values(
                        |x: WitnessRecordV| witness_record_id(x),
                    ),
                ),
            ]
        } else {
            Seq::empty()
        }
    }
}

/// Subjects in a view that are ready to strengthen one step, given the
/// book's evidence, as (subject, corroborating ids) pairs.
pub fn ready_to_advance(book: &EvidenceBook, view: &MembershipView) -> (r: Vec<(SubjectId, Vec<WitnessRecordId>)>)
    ensures
        r@.map_values(|e: (SubjectId, Vec<WitnessRecordId>)| (e.0@, e.1@)) == spec_ready(
            book@,
            view@.scope,
            view@.beliefs,
        ),
{
    let scope = view.scope();
    let cells = view.subjects();
    let ghost bv = cells@;
    let mut out: Vec<(SubjectId, Vec<WitnessRecordId>)> = Vec::new();
    let mut i: usize = 0;
    while i < cells.len()
        invariant
            i <= bv.len(),
            bv == cells@,
            bv == view@.beliefs,
            scope@ == view@.scope,
            out@.map_values(|e: (SubjectId, Vec<WitnessRecordId>)| (e.0@, e.1@)) == spec_ready(
                book@,
                view@.scope,
                bv.subrange(0, i as int),
            ),
        decreases bv.len() - i,
    {
        let subject = cells.key_at(i);
        let state = cells.value_at(i).state();
        proof {
            let next = bv.subrange(0, i + 1);
            assert(next.drop_last() =~= bv.subrange(0, i as int));
            assert(next.last() == bv[i as int]);
        }
        let ghost before = out@;
        let eligible = state == BeliefState::Witnessed || state == BeliefState::Provisional || state
            == BeliefState::Suspected;
        if eligible && clears_advancement_gate(&book.summarize(scope, subject)) {
            let ids = book.corroborating_ids(scope, subject);
            out.push((subject.duplicate(), ids));
            proof {
                assert(out@.map_values(|e: (SubjectId, Vec<WitnessRecordId>)| (e.0@, e.1@)) =~= before.map_values(|e: (SubjectId, Vec<WitnessRecordId>)| (e.0@, e.1@)).push(
                    (bv[i as int].0, spec_corroborating(book@, view@.scope, bv[i as int].0).map_values(|x: WitnessRecordV| witness_record_id(x))),
                ));
            }
        }
        i = i + 1;
        assert(out@.map_values(|e: (SubjectId, Vec<WitnessRecordId>)| (e.0@, e.1@)) =~= spec_ready(book@, view@.scope, bv.subrange(0, i as int)));
    }
    assert(bv.subrange(0, i as int) =~= bv);
    out
}

/// The highest advertised round, or 0.
pub open spec fn max_round(rounds: Seq<u64>) -> u64
    decreases rounds.len(),
{
    if rounds.len() == 0 {
        0
    } else {
        let m = max_round(rounds.drop_last());
        if rounds.last() >= m {
            rounds.last()
        } else {
            m
        }
    }
}

/// The rendezvous jitter: the first eight bytes of the digest of the two
/// digest hashes (in byte order), little-endian, modulo 16.
pub open spec fn rendezvous_jitter(a: Seq<u8>, b: Seq<u8>) -> u64 {
    let (lo, hi) = if crate::order::lex_order(a, b) <= 0 {
        (a, b)
    } else {
        (b, a)
    };
    let digest = blake3_digest(encode_utf8("resonant/reunion-rendezvous/v1"@) + lo + hi);
    (spec_u64_from_le_bytes(digest.subrange(0, 8)) % 16) as u64
}

/// The jitter does not depend on which side is called A.
pub proof fn lemma_jitter_is_side_symmetric(a: Seq<u8>, b: Seq<u8>)
    ensures
        rendezvous_jitter(a, b) == rendezvous_jitter(b, a),
{
    crate::order::lemma_lex_order_antisym(a, b);
    crate::order::lemma_lex_order_range(a, b);
}

/// The largest round: at least every round, and one of them (0 for none).
pub proof fn lemma_max_round_is_max(rounds: Seq<u64>)
    ensures
        forall|j: int| 0 <= j < rounds.len() ==> rounds[j] <= max_round(rounds),
        rounds.len() > 0 ==> rounds.contains(max_round(rounds)),
        rounds.len() == 0 ==> max_round(rounds) == 0,
    decreases rounds.len(),
{
    if rounds.len() > 0 {
        let init = rounds.drop_last();
        lemma_max_round_is_max(init);
        assert forall|j: int| 0 <= j < rounds.len() implies rounds[j] <= max_round(rounds) by {
            if j < rounds.len() - 1 {
                assert(rounds[j] == init[j]);
            }
        }
        if rounds.last() >= max_round(init) {
            assert(rounds[rounds.len() - 1] == max_round(rounds));
        } else {
            let i = choose|i: int| 0 <= i < init.len() && init[i] == max_round(init);
            assert(rounds[i] == max_round(rounds));
        }
    }
}

/// The rendezvous round does not depend on the order in which the local
/// rounds are listed, nor on which side is called A.
pub proof fn lemma_rendezvous_is_order_free(r1: Seq<u64>, r2: Seq<u64>, a: Seq<u8>, b: Seq<u8>)
    requires
        r1.to_multiset() == r2.to_multiset(),
    ensures
        max_round(r1) + 16 + rendezvous_jitter(a, b) == max_round(r2) + 16 + rendezvous_jitter(b, a),
{
    lemma_jitter_is_side_symmetric(a, b);
    lemma_max_round_is_max(r1);
    lemma_max_round_is_max(r2);
    r1.to_multiset_ensures();
    r2.to_multiset_ensures();
    assert(r1.len() == r2.to_multiset().len());
    if r1.len() > 0 {
        let m1 = max_round(r1);
        let m2 = max_round(r2);
        assert(r1.to_multiset().count(m1) > 0);
        assert(r2.contains(m1));
        assert(r2.to_multiset().count(m2) > 0);
        assert(r1.contains(m2));
        let i = choose|i: int| 0 <= i < r2.len() && r2[i] == m1;
        let j = choose|j: int| 0 <= j < r1.len() && r1[j] == m2;
        assert(r2[i] <= m2);
        assert(r1[j] <= m1);
    }
}

/// A deterministic rendezvous round shared by all reunion participants:
/// strictly ahead of every advertised local round, and varied by the
/// content of the two sides so distinct concurrent reunions mint distinct
/// residue identities.
pub fn rendezvous_round(local_rounds: &[u64], digest_hash_a: &[u8; 32], digest_hash_b: &[u8; 32]) -> (r: Round)
    requires
        max_round(local_rounds@) <= u64::MAX - 31,
    ensures
        r.0 == max_round(local_rounds@) + 16 + rendezvous_jitter(digest_hash_a@, digest_hash_b@),
{
    let (lo, hi) = if crate::order::compare_bytes(digest_hash_a.as_slice(), digest_hash_b.as_slice()) <= 0 {
        (digest_hash_a, digest_hash_b)
    } else {
        (digest_hash_b, digest_hash_a)
    };
    let mut bytes: Vec<u8> = Vec::new();
    crate::encode::write_bytes(&mut bytes, "resonant/reunion-rendezvous/v1".as_bytes());
    crate::encode::write_bytes(&mut bytes, lo.as_slice());
    crate::encode::write_bytes(&mut bytes, hi.as_slice());
    let digest = blake3_hash(bytes.as_slice());
    let mut head: Vec<u8> = Vec::new();
    let mut k: usize = 0;
    while k < 8
        invariant
            k <= 8,
            digest@.len() == 32,
            head@ == digest@.subrange(0, k as int),
        decreases 8 - k,
    {
        head.push(digest[k]);
        k = k + 1;
        assert(head@ =~= digest@.subrange(0, k as int));
    }
    let jitter = vstd::bytes::u64_from_le_bytes(head.as_slice()) % 16;
    let mut max: u64 = 0;
    let mut i: usize = 0;
    while i < local_rounds.len()
        invariant
            i <= local_rounds@.len(),
            max == max_round(local_rounds@.subrange(0, i as int)),
        decreases local_rounds@.len() - i,
    {
        proof {
            let next = local_rounds@.subrange(0, i + 1);
            assert(next.drop_last() =~= local_rounds@.subrange(0, i as int));
        }
        if local_rounds[i] >= max {
            max = local_rounds[i];
        }
        i = i + 1;
    }
    assert(local_rounds@.subrange(0, i as int) =~= local_rounds@);
    proof {
        assert(bytes@ =~= encode_utf8("resonant/reunion-rendezvous/v1"@) + (if crate::order::lex_order(digest_hash_a@, digest_hash_b@) <= 0 {
            digest_hash_a@
        } else {
            digest_hash_b@
        }) + (if crate::order::lex_order(digest_hash_a@, digest_hash_b@) <= 0 {
            digest_hash_b@
        } else {
            digest_hash_a@
        }));
    }
    Round(max + 16 + jitter)
}

} // verus!
