//! Repair digests: honest summaries of scoped belief.
//!
//! A `RepairDigest` is constructible only from a live view
//! (`RepairDigest::of`). It preserves scope, epoch, per-state counts, a
//! content hash, the live residue ids (ids are never dropped) and
//! per-subject (state, epoch) summaries; it omits all evidence bodies. The
//! honesty flags are computed from the ledger, not asserted by the sender.
//! Comparing digests can trigger a detail fetch or a repair hold, never a
//! merge: the merge engine consumes only full fragments.

use crate::belief::cell::BeliefCellV;
use crate::belief::state::{state_at, state_name, BeliefState};
use crate::belief::view::{MembershipView, MembershipViewV};
use crate::collections::{map_get, map_index, SortedMap};
use crate::encode::{framed_str, le_u64, write_bytes, write_str, write_u64};
use crate::epoch::Epoch;
use crate::hash::{blake3_digest, blake3_hash};
use crate::id::{ResidueId, SubjectId};
use crate::residue::{count_unhandled, ResidueV};
use crate::scope::ScopeId;
use crate::text::string_of;
use vstd::prelude::*;
use vstd::string::StringExecFns;
use vstd::utf8::encode_utf8;

verus! {

/// How many cells hold `s`.
pub open spec fn count_state(beliefs: Seq<(Seq<char>, BeliefCellV)>, s: BeliefState) -> nat
    decreases beliefs.len(),
{
    if beliefs.len() == 0 {
        0
    } else {
        count_state(beliefs.drop_last(), s) + if beliefs.last().1.state == s {
            1nat
        } else {
            0nat
        }
    }
}

/// The nonzero state counts over the first `n` states, in lifecycle order.
pub open spec fn counts_upto(beliefs: Seq<(Seq<char>, BeliefCellV)>, n: nat) -> Seq<(BeliefState, usize)>
    decreases n,
{
    if n == 0 {
        Seq::empty()
    } else {
        let s = state_at(n - 1);
        counts_upto(beliefs, (n - 1) as nat) + if count_state(beliefs, s) > 0 {
            seq![(s, count_state(beliefs, s) as usize)]
        } else {
            Seq::empty()
        }
    }
}

/// Per-state counts of the states that occur, in lifecycle order.
pub open spec fn state_counts_of(beliefs: Seq<(Seq<char>, BeliefCellV)>) -> Seq<(BeliefState, usize)> {
    counts_upto(beliefs, 9)
}

/// Per-subject (state, epoch), in the view's order.
pub open spec fn summaries_of(beliefs: Seq<(Seq<char>, BeliefCellV)>) -> Seq<(Seq<char>, (BeliefState, Epoch))> {
    beliefs.map_values(|e: (Seq<char>, BeliefCellV)| (e.0, (e.1.state, e.1.epoch)))
}

pub open spec fn summary_bytes(summaries: Seq<(Seq<char>, (BeliefState, Epoch))>) -> Seq<u8>
    decreases summaries.len(),
{
    if summaries.len() == 0 {
        Seq::empty()
    } else {
        let e = summaries.last();
        summary_bytes(summaries.drop_last()) + framed_str(e.0) + framed_str(state_name(e.1.0))
            + le_u64(e.1.1.0)
    }
}

pub open spec fn id_bytes(ids: Seq<ResidueId>) -> Seq<u8>
    decreases ids.len(),
{
    if ids.len() == 0 {
        Seq::empty()
    } else {
        id_bytes(ids.drop_last()) + ids.last().spec_bytes()
    }
}

/// The digest's content hash.
pub open spec fn content_hash_of(scope: Seq<char>, epoch: Epoch, summaries: Seq<(Seq<char>, (BeliefState, Epoch))>, ids: Seq<ResidueId>) -> Seq<u8> {
    blake3_digest(
        encode_utf8("resonant/repair-digest/v1"@) + framed_str(scope) + le_u64(epoch.0)
            + summary_bytes(summaries) + id_bytes(ids),
    )
}

#[derive(Debug, Clone, PartialEq, Eq)]
pub struct RepairDigest {
    pub scope: ScopeId,
    pub epoch: Epoch,
    pub state_counts: SortedMap<BeliefState, usize>,
    /// Per-subject (state, epoch): summary, never evidence.
    pub subject_summaries: SortedMap<SubjectId, (BeliefState, Epoch)>,
    /// Live residue ids. A digest that misrepresented unresolved
    /// disagreement as settled would have to lie here, and the field is
    /// computed, not asserted.
    pub residue_ids: Vec<ResidueId>,
    pub unhandled_residue: usize,
    pub live_disputes: usize,
    pub content_hash: [u8; 32],
}

pub struct RepairDigestV {
    pub scope: Seq<char>,
    pub epoch: Epoch,
    pub state_counts: Seq<(BeliefState, usize)>,
    pub subject_summaries: Seq<(Seq<char>, (BeliefState, Epoch))>,
    pub residue_ids: Seq<ResidueId>,
    pub unhandled_residue: usize,
    pub live_disputes: usize,
    pub content_hash: Seq<u8>,
}

impl View for RepairDigest {
    type V = RepairDigestV;

    open spec fn view(&self) -> RepairDigestV {
        RepairDigestV {
            scope: self.scope@,
            epoch: self.epoch,
            state_counts: self.state_counts@,
            subject_summaries: self.subject_summaries@,
            residue_ids: self.residue_ids@,
            unhandled_residue: self.unhandled_residue,
            live_disputes: self.live_disputes,
            content_hash: self.content_hash@,
        }
    }
}

impl RepairDigest {
    pub fn duplicate(&self) -> (r: Self)
        ensures
            r@ == self@,
    {
        let mut ids: Vec<ResidueId> = Vec::new();
        let mut i: usize = 0;
        while i < self.residue_ids.len()
            invariant
                i <= self.residue_ids@.len(),
                ids@ == self.residue_ids@.subrange(0, i as int),
            decreases self.residue_ids@.len() - i,
        {
            ids.push(self.residue_ids[i]);
            i = i + 1;
            assert(ids@ =~= self.residue_ids@.subrange(0, i as int));
        }
        assert(ids@ =~= self.residue_ids@);
        RepairDigest {
            scope: self.scope.duplicate(),
            epoch: self.epoch,
            state_counts: self.state_counts.duplicate(),
            subject_summaries: self.subject_summaries.duplicate(),
            residue_ids: ids,
            unhandled_residue: self.unhandled_residue,
            live_disputes: self.live_disputes,
            content_hash: self.content_hash,
        }
    }
}

/// The digest of a view.
pub open spec fn repair_digest_of(v: MembershipViewV) -> RepairDigestV {
    let summaries = summaries_of(v.beliefs);
    let ids = v.residue.entries.map_values(|e: (ResidueId, ResidueV)| e.0);
    RepairDigestV {
        scope: v.scope,
        epoch: v.epoch,
        state_counts: state_counts_of(v.beliefs),
        subject_summaries: summaries,
        residue_ids: ids,
        unhandled_residue: count_unhandled(v.residue.entries) as usize,
        live_disputes: count_state(v.beliefs, BeliefState::Disputed) as usize,
        content_hash: content_hash_of(v.scope, v.epoch, summaries, ids),
    }
}

pub open spec fn spec_has_unresolved(d: RepairDigestV) -> bool {
    d.unhandled_residue > 0 || d.live_disputes > 0
}

proof fn lemma_count_state_bound(beliefs: Seq<(Seq<char>, BeliefCellV)>, s: BeliefState)
    ensures
        count_state(beliefs, s) <= beliefs.len(),
    decreases beliefs.len(),
{
    if beliefs.len() > 0 {
        lemma_count_state_bound(beliefs.drop_last(), s);
    }
}

pub proof fn lemma_count_unhandled_bound(entries: Seq<(ResidueId, ResidueV)>)
    ensures
        count_unhandled(entries) <= entries.len(),
    decreases entries.len(),
{
    if entries.len() > 0 {
        lemma_count_unhandled_bound(entries.drop_last());
    }
}

proof fn lemma_counts_upto_keys(beliefs: Seq<(Seq<char>, BeliefCellV)>, n: nat)
    requires
        n <= 9,
    ensures
        forall|j: int|
            0 <= j < counts_upto(beliefs, n).len() ==> crate::belief::state::state_index(
                #[trigger] counts_upto(beliefs, n)[j].0,
            ) < n,
    decreases n,
{
    if n > 0 {
        lemma_counts_upto_keys(beliefs, (n - 1) as nat);
        lemma_state_at_index(n - 1);
        let prev = counts_upto(beliefs, (n - 1) as nat);
        let all = counts_upto(beliefs, n);
        assert forall|j: int| 0 <= j < all.len() implies crate::belief::state::state_index(
            #[trigger] all[j].0,
        ) < n by {
            if j < prev.len() {
                assert(all[j] == prev[j]);
            } else {
                assert(all[j].0 == state_at(n - 1));
            }
        }
    }
}

proof fn lemma_state_at_index(i: int)
    requires
        0 <= i < 9,
    ensures
        crate::belief::state::state_index(state_at(i)) == i,
{
    if i == 0 {
    } else if i == 1 {
    } else if i == 2 {
    } else if i == 3 {
    } else if i == 4 {
    } else if i == 5 {
    } else if i == 6 {
    } else if i == 7 {
    } else {
    }
}

impl RepairDigest {
    /// The only constructor: honesty is computed from the view.
    pub fn of(view: &MembershipView) -> (r: Self)
        ensures
            r@ == repair_digest_of(view@),
    {
        let cells = view.subjects();
        let ghost beliefs = view@.beliefs;
        let mut counts: Vec<usize> = vec![0, 0, 0, 0, 0, 0, 0, 0, 0];
        let mut entries: Vec<(SubjectId, (BeliefState, Epoch))> = Vec::new();
        let mut i: usize = 0;
        while i < cells.len()
            invariant
                i <= beliefs.len(),
                beliefs == cells@,
                counts@.len() == 9,
                forall|k: int|
                    0 <= k < 9 ==> #[trigger] counts@[k] == count_state(
                        beliefs.subrange(0, i as int),
                        state_at(k),
                    ),
                forall|k: int| 0 <= k < 9 ==> #[trigger] counts@[k] <= i,
                entries@.map_values(|e: (SubjectId, (BeliefState, Epoch))| (e.0@, e.1@))
                    == summaries_of(beliefs.subrange(0, i as int)),
            decreases beliefs.len() - i,
        {
            let cell = cells.value_at(i);
            let state = cell.state();
            let k = state.index() as usize;
            proof {
                let next = beliefs.subrange(0, i + 1);
                assert(next.drop_last() =~= beliefs.subrange(0, i as int));
                assert(next.last() == beliefs[i as int]);
            }
            counts.set(k, counts[k] + 1);
            let subject = cells.key_at(i).duplicate();
            let epoch = cell.epoch();
            let ghost old_entries = entries@;
            entries.push((subject, (state, epoch)));
            proof {
                let f = |e: (SubjectId, (BeliefState, Epoch))| (e.0@, e.1@);
                assert(entries@ == old_entries.push((subject, (state, epoch))));
                assert(entries@.map_values(f) =~= old_entries.map_values(f).push(
                    (beliefs[i as int].0, (beliefs[i as int].1.state, beliefs[i as int].1.epoch)),
                ));
                assert(summaries_of(beliefs.subrange(0, i + 1)) =~= summaries_of(
                    beliefs.subrange(0, i as int),
                ).push(
                    (beliefs[i as int].0, (beliefs[i as int].1.state, beliefs[i as int].1.epoch)),
                ));
            }
            i = i + 1;
        }
        assert(beliefs.subrange(0, i as int) =~= beliefs);
        let mut state_counts: SortedMap<BeliefState, usize> = SortedMap::new();
        let mut n: u8 = 0;
        while n < 9
            invariant
                n <= 9,
                counts@.len() == 9,
                forall|k: int| 0 <= k < 9 ==> #[trigger] counts@[k] == count_state(beliefs, state_at(k)),
                state_counts@ == counts_upto(beliefs, n as nat),
            decreases 9 - n,
        {
            let s = BeliefState::at_index(n);
            if counts[n as usize] > 0 {
                let ghost before = state_counts@;
                proof {
                    lemma_counts_upto_keys(beliefs, n as nat);
                    assert forall|j: int| 0 <= j < before.len() implies crate::collections::key_lt::<
                        BeliefState,
                    >(#[trigger] crate::collections::keys_of(before)[j], s) by {
                        crate::order::lemma_lex_order_single(
                            crate::belief::state::state_index(before[j].0),
                            n,
                        );
                    }
                    crate::collections::lemma_lower_bound_is::<BeliefState>(
                        crate::collections::keys_of(before),
                        s,
                        before.len() as int,
                    );
                }
                state_counts.insert(s, counts[n as usize]);
                proof {
                    assert(state_counts@ =~= before.push((s, counts@[n as int])));
                }
            }
            n = n + 1;
        }
        let residue_ids = view.residue().ids();
        let unhandled_residue = view.residue().unhandled();
        let live_disputes = counts[6];
        let summaries = SortedMap::from_entries(entries);
        let mut bytes: Vec<u8> = Vec::new();
        write_bytes(&mut bytes, "resonant/repair-digest/v1".as_bytes());
        write_str(&mut bytes, view.scope().as_str());
        write_u64(&mut bytes, view.epoch().0);
        let ghost prefix = bytes@;
        let mut j: usize = 0;
        while j < summaries.len()
            invariant
                j <= summaries@.len(),
                bytes@ == prefix + summary_bytes(summaries@.subrange(0, j as int)),
            decreases summaries@.len() - j,
        {
            let subject = summaries.key_at(j);
            let (state, epoch) = *summaries.value_at(j);
            write_str(&mut bytes, subject.as_str());
            write_str(&mut bytes, state.as_str());
            write_u64(&mut bytes, epoch.0);
            proof {
                let next = summaries@.subrange(0, j + 1);
                assert(next.drop_last() =~= summaries@.subrange(0, j as int));
                assert(next.last() == summaries@[j as int]);
            }
            j = j + 1;
            assert(bytes@ =~= prefix + summary_bytes(summaries@.subrange(0, j as int)));
        }
        assert(summaries@.subrange(0, j as int) =~= summaries@);
        let ghost mid = bytes@;
        let mut q: usize = 0;
        while q < residue_ids.len()
            invariant
                q <= residue_ids@.len(),
                bytes@ == mid + id_bytes(residue_ids@.subrange(0, q as int)),
            decreases residue_ids@.len() - q,
        {
            write_bytes(&mut bytes, residue_ids[q].as_bytes().as_slice());
            proof {
                let next = residue_ids@.subrange(0, q + 1);
                assert(next.drop_last() =~= residue_ids@.subrange(0, q as int));
                assert(next.last() == residue_ids@[q as int]);
            }
            q = q + 1;
            assert(bytes@ =~= mid + id_bytes(residue_ids@.subrange(0, q as int)));
        }
        assert(residue_ids@.subrange(0, q as int) =~= residue_ids@);
        let content_hash = blake3_hash(bytes.as_slice());
        proof {
            assert(state_at(6) == BeliefState::Disputed);
            assert(bytes@ =~= encode_utf8("resonant/repair-digest/v1"@) + framed_str(view@.scope)
                + le_u64(view@.epoch.0) + summary_bytes(summaries@) + id_bytes(residue_ids@));
        }
        RepairDigest {
            scope: view.scope().duplicate(),
            epoch: view.epoch(),
            state_counts,
            subject_summaries: summaries,
            residue_ids,
            unhandled_residue,
            live_disputes,
            content_hash,
        }
    }

    pub fn has_unresolved_disagreement(&self) -> (r: bool)
        ensures
            r == spec_has_unresolved(self@),
    {
        self.unhandled_residue > 0 || self.live_disputes > 0
    }
}

/// What comparing digests licenses. Never a merge: `FetchDetail` asks for
/// full fragments, `HoldForRepair` suspends until reconciliation.
#[derive(Debug, Clone, PartialEq, Eq)]
pub enum DigestVerdict {
    NoAction,
    FetchDetail(Vec<SubjectId>),
    HoldForRepair(String),
}

pub enum DigestVerdictV {
    NoAction,
    FetchDetail(Seq<Seq<char>>),
    HoldForRepair(Seq<char>),
}

impl View for DigestVerdict {
    type V = DigestVerdictV;

    open spec fn view(&self) -> DigestVerdictV {
        match self {
            DigestVerdict::NoAction => DigestVerdictV::NoAction,
            DigestVerdict::FetchDetail(v) => DigestVerdictV::FetchDetail(
                v@.map_values(|s: SubjectId| s@),
            ),
            DigestVerdict::HoldForRepair(s) => DigestVerdictV::HoldForRepair(s@),
        }
    }
}

/// Local subjects whose summary the remote does not hold identically, in
/// local order.
pub open spec fn local_differing(local: Seq<(Seq<char>, (BeliefState, Epoch))>, remote: Seq<(Seq<char>, (BeliefState, Epoch))>) -> Seq<Seq<char>>
    decreases local.len(),
{
    if local.len() == 0 {
        Seq::empty()
    } else {
        let e = local.last();
        local_differing(local.drop_last(), remote) + if map_get::<SubjectId, (BeliefState, Epoch)>(
            remote,
            e.0,
        ) == Some(e.1) {
            Seq::empty()
        } else {
            seq![e.0]
        }
    }
}

/// Remote subjects the local digest does not summarize, in remote order.
pub open spec fn remote_only(remote: Seq<(Seq<char>, (BeliefState, Epoch))>, local: Seq<(Seq<char>, (BeliefState, Epoch))>) -> Seq<Seq<char>>
    decreases remote.len(),
{
    if remote.len() == 0 {
        Seq::empty()
    } else {
        let e = remote.last();
        remote_only(remote.drop_last(), local) + if map_index::<SubjectId, (BeliefState, Epoch)>(
            local,
            e.0,
        ) is Some {
            Seq::empty()
        } else {
            seq![e.0]
        }
    }
}

pub open spec fn scope_mismatch_text(local: Seq<char>, remote: Seq<char>) -> Seq<char> {
    "scope mismatch: "@ + local + " vs "@ + remote
        + " \u{2014} cross-scope digests do not reconcile by fetch"@
}

/// What comparing a local digest with a remote one licenses.
pub open spec fn spec_compare(local: RepairDigestV, remote: RepairDigestV) -> DigestVerdictV {
    if local.scope != remote.scope {
        DigestVerdictV::HoldForRepair(scope_mismatch_text(local.scope, remote.scope))
    } else if local.content_hash == remote.content_hash {
        DigestVerdictV::NoAction
    } else if spec_has_unresolved(remote) {
        DigestVerdictV::HoldForRepair(
            "remote view carries unresolved disagreement; hold for deterministic reunion"@,
        )
    } else {
        DigestVerdictV::FetchDetail(
            local_differing(local.subject_summaries, remote.subject_summaries) + remote_only(
                remote.subject_summaries,
                local.subject_summaries,
            ),
        )
    }
}

/// Compare a local digest with a remote one from the same scope.
pub fn compare(local: &RepairDigest, remote: &RepairDigest) -> (r: DigestVerdict)
    ensures
        r@ == spec_compare(local@, remote@),
{
    if !local.scope.same(&remote.scope) {
        let mut text = string_of("scope mismatch: ");
        text.append(local.scope.as_str());
        text.append(" vs ");
        text.append(remote.scope.as_str());
        text.append(" \u{2014} cross-scope digests do not reconcile by fetch");
        return DigestVerdict::HoldForRepair(text);
    }
    if crate::order::bytes_equal(local.content_hash.as_slice(), remote.content_hash.as_slice()) {
        return DigestVerdict::NoAction;
    }
    if remote.has_unresolved_disagreement() {
        return DigestVerdict::HoldForRepair(
            string_of("remote view carries unresolved disagreement; hold for deterministic reunion"),
        );
    }
    let ghost lv = local@.subject_summaries;
    let ghost rv = remote@.subject_summaries;
    let mut differing: Vec<SubjectId> = Vec::new();
    let mut i: usize = 0;
    while i < local.subject_summaries.len()
        invariant
            i <= lv.len(),
            lv == local.subject_summaries@,
            rv == remote.subject_summaries@,
            differing@.map_values(|s: SubjectId| s@) == local_differing(lv.subrange(0, i as int), rv),
        decreases lv.len() - i,
    {
        let subject = local.subject_summaries.key_at(i);
        let summary = *local.subject_summaries.value_at(i);
        let same = match remote.subject_summaries.get(subject) {
            Some(other) => other.0 == summary.0 && other.1.0 == summary.1.0,
            None => false,
        };
        proof {
            let next = lv.subrange(0, i + 1);
            assert(next.drop_last() =~= lv.subrange(0, i as int));
            assert(next.last() == lv[i as int]);
        }
        if !same {
            differing.push(subject.duplicate());
        }
        i = i + 1;
        assert(differing@.map_values(|s: SubjectId| s@) =~= local_differing(lv.subrange(0, i as int), rv));
    }
    assert(lv.subrange(0, i as int) =~= lv);
    let ghost firsts = differing@.map_values(|s: SubjectId| s@);
    let mut k: usize = 0;
    while k < remote.subject_summaries.len()
        invariant
            k <= rv.len(),
            lv == local.subject_summaries@,
            rv == remote.subject_summaries@,
            differing@.map_values(|s: SubjectId| s@) == firsts + remote_only(rv.subrange(0, k as int), lv),
        decreases rv.len() - k,
    {
        let subject = remote.subject_summaries.key_at(k);
        let known = local.subject_summaries.contains_key(subject);
        proof {
            let next = rv.subrange(0, k + 1);
            assert(next.drop_last() =~= rv.subrange(0, k as int));
            assert(next.last() == rv[k as int]);
        }
        let ghost before = differing@;
        if !known {
            differing.push(subject.duplicate());
            proof {
                assert(differing@.map_values(|s: SubjectId| s@) =~= before.map_values(
                    |s: SubjectId| s@,
                ).push(rv[k as int].0));
            }
        }
        k = k + 1;
        assert(differing@.map_values(|s: SubjectId| s@) =~= firsts + remote_only(rv.subrange(0, k as int), lv));
    }
    assert(rv.subrange(0, k as int) =~= rv);
    DigestVerdict::FetchDetail(differing)
}

/// Comparing a digest with itself licenses no action.
pub proof fn lemma_self_compare_is_quiet(d: RepairDigestV)
    ensures
        spec_compare(d, d) == DigestVerdictV::NoAction,
{
}

/// A view's unresolved disagreement cannot be summarized away: its digest
/// reports it exactly when a live residue entry is unhandled or a subject
/// is disputed.
pub proof fn lemma_digest_reports_disagreement(v: MembershipViewV)
    requires
        v.residue.entries.len() <= usize::MAX,
        v.beliefs.len() <= usize::MAX,
    ensures
        spec_has_unresolved(repair_digest_of(v)) <==> (count_unhandled(v.residue.entries) > 0
            || count_state(v.beliefs, BeliefState::Disputed) > 0),
{
    lemma_count_unhandled_bound(v.residue.entries);
    lemma_count_state_bound(v.beliefs, BeliefState::Disputed);
}

proof fn lemma_local_differing_lists(
    local: Seq<(Seq<char>, (BeliefState, Epoch))>,
    remote: Seq<(Seq<char>, (BeliefState, Epoch))>,
)
    ensures
        forall|i: int|
            0 <= i < local.len() && map_get::<SubjectId, (BeliefState, Epoch)>(remote, #[trigger] local[i].0)
                != Some(local[i].1) ==> local_differing(local, remote).contains(local[i].0),
        forall|x: Seq<char>|
            #[trigger] local_differing(local, remote).contains(x) ==> exists|i: int|
                0 <= i < local.len() && #[trigger] local[i].0 == x && map_get::<SubjectId, (BeliefState, Epoch)>(
                    remote,
                    x,
                ) != Some(local[i].1),
    decreases local.len(),
{
    if local.len() > 0 {
        let init = local.drop_last();
        lemma_local_differing_lists(init, remote);
        let e = local.last();
        let tail = if map_get::<SubjectId, (BeliefState, Epoch)>(remote, e.0) == Some(e.1) {
            Seq::<Seq<char>>::empty()
        } else {
            seq![e.0]
        };
        let all = local_differing(local, remote);
        assert(all == local_differing(init, remote) + tail);
        assert forall|i: int|
            0 <= i < local.len() && map_get::<SubjectId, (BeliefState, Epoch)>(remote, #[trigger] local[i].0)
                != Some(local[i].1) implies all.contains(local[i].0) by {
            if i < init.len() {
                assert(init[i] == local[i]);
                let k = choose|k: int| 0 <= k < local_differing(init, remote).len() && local_differing(init, remote)[k] == init[i].0;
                assert(all[k] == local[i].0);
            } else {
                assert(all[all.len() - 1] == local[i].0);
            }
        }
        assert forall|x: Seq<char>| #[trigger] all.contains(x) implies exists|i: int|
            0 <= i < local.len() && #[trigger] local[i].0 == x && map_get::<SubjectId, (BeliefState, Epoch)>(
                remote,
                x,
            ) != Some(local[i].1) by {
            let k = choose|k: int| 0 <= k < all.len() && all[k] == x;
            if k < local_differing(init, remote).len() {
                assert(local_differing(init, remote)[k] == x);
                assert(local_differing(init, remote).contains(x));
                let i = choose|i: int|
                    0 <= i < init.len() && #[trigger] init[i].0 == x && map_get::<SubjectId, (BeliefState, Epoch)>(
                        remote,
                        x,
                    ) != Some(init[i].1);
                assert(local[i] == init[i]);
            } else {
                assert(local[local.len() - 1].0 == x);
            }
        }
    }
}

/// When two digests of one scope differ and the remote holds no unresolved
/// disagreement, the verdict fetches detail, and the list names every local
/// subject whose remote summary (state and epoch) is missing or different:
/// a subject whose state agrees but whose epoch does not is fetched too.
/// Every subject it names from the local side is one whose summary differs.
pub proof fn lemma_fetch_names_every_differing_subject(local: RepairDigestV, remote: RepairDigestV)
    requires
        local.scope == remote.scope,
        local.content_hash != remote.content_hash,
        !spec_has_unresolved(remote),
    ensures
        spec_compare(local, remote) is FetchDetail,
        ({
            let ls = local.subject_summaries;
            let rs = remote.subject_summaries;
            let listed = spec_compare(local, remote)->FetchDetail_0;
            &&& forall|i: int|
                0 <= i < ls.len() && map_get::<SubjectId, (BeliefState, Epoch)>(rs, #[trigger] ls[i].0) != Some(
                    ls[i].1,
                ) ==> listed.contains(ls[i].0)
            &&& forall|i: int|
                0 <= i < ls.len() && map_get::<SubjectId, (BeliefState, Epoch)>(rs, #[trigger] ls[i].0) is Some
                    && map_get::<SubjectId, (BeliefState, Epoch)>(rs, ls[i].0).unwrap().0 == ls[i].1.0
                    && map_get::<SubjectId, (BeliefState, Epoch)>(rs, ls[i].0).unwrap().1 != ls[i].1.1
                    ==> listed.contains(ls[i].0)
        }),
{
    let ls = local.subject_summaries;
    let rs = remote.subject_summaries;
    lemma_local_differing_lists(ls, rs);
    let front = local_differing(ls, rs);
    let listed = front + remote_only(rs, ls);
    assert(spec_compare(local, remote) == DigestVerdictV::FetchDetail(listed));
    assert forall|i: int|
        0 <= i < ls.len() && map_get::<SubjectId, (BeliefState, Epoch)>(rs, #[trigger] ls[i].0) != Some(
            ls[i].1,
        ) implies listed.contains(ls[i].0) by {
        assert(front.contains(ls[i].0));
        let k = choose|k: int| 0 <= k < front.len() && front[k] == ls[i].0;
        assert(listed[k] == ls[i].0);
    }
    assert forall|i: int|
        0 <= i < ls.len() && map_get::<SubjectId, (BeliefState, Epoch)>(rs, #[trigger] ls[i].0) is Some
            && map_get::<SubjectId, (BeliefState, Epoch)>(rs, ls[i].0).unwrap().0 == ls[i].1.0
            && map_get::<SubjectId, (BeliefState, Epoch)>(rs, ls[i].0).unwrap().1 != ls[i].1.1 implies listed.contains(
        ls[i].0,
    ) by {
        assert(map_get::<SubjectId, (BeliefState, Epoch)>(rs, ls[i].0) != Some(ls[i].1));
        assert(front.contains(ls[i].0));
        let k = choose|k: int| 0 <= k < front.len() && front[k] == ls[i].0;
        assert(listed[k] == ls[i].0);
    }
}

proof fn lemma_remote_only_lists(
    remote: Seq<(Seq<char>, (BeliefState, Epoch))>,
    local: Seq<(Seq<char>, (BeliefState, Epoch))>,
)
    ensures
        forall|i: int|
            0 <= i < remote.len() && map_get::<SubjectId, (BeliefState, Epoch)>(local, #[trigger] remote[i].0)
                is None ==> remote_only(remote, local).contains(remote[i].0),
    decreases remote.len(),
{
    if remote.len() > 0 {
        let init = remote.drop_last();
        lemma_remote_only_lists(init, local);
        let all = remote_only(remote, local);
        let front = remote_only(init, local);
        assert forall|i: int|
            0 <= i < remote.len() && map_get::<SubjectId, (BeliefState, Epoch)>(local, #[trigger] remote[i].0)
                is None implies all.contains(remote[i].0) by {
            if i < init.len() {
                assert(init[i] == remote[i]);
                assert(front.contains(init[i].0));
                let k = choose|k: int| 0 <= k < front.len() && front[k] == init[i].0;
                assert(all[k] == remote[i].0);
            } else {
                assert(all[all.len() - 1] == remote[i].0);
            }
        }
    }
}

/// How two digests are reconciled: digests of different scopes are never
/// reconciled by fetching; equal digests of one scope ask for nothing; a
/// remote carrying unresolved disagreement is held for the deterministic
/// reunion; otherwise the fetch names every subject the remote summarizes
/// and the local digest does not.
pub proof fn lemma_compare_verdicts(local: RepairDigestV, remote: RepairDigestV)
    ensures
        local.scope != remote.scope ==> spec_compare(local, remote) is HoldForRepair,
        local.scope == remote.scope && local.content_hash == remote.content_hash ==> spec_compare(local, remote)
            == DigestVerdictV::NoAction,
        local.scope == remote.scope && local.content_hash != remote.content_hash && (remote.unhandled_residue > 0
            || remote.live_disputes > 0) ==> spec_compare(local, remote) is HoldForRepair,
        local.scope == remote.scope && local.content_hash != remote.content_hash && remote.unhandled_residue == 0
            && remote.live_disputes == 0 ==> {
            &&& spec_compare(local, remote) is FetchDetail
            &&& forall|i: int|
                0 <= i < remote.subject_summaries.len() && map_get::<SubjectId, (BeliefState, Epoch)>(
                    local.subject_summaries,
                    #[trigger] remote.subject_summaries[i].0,
                ) is None ==> spec_compare(local, remote)->FetchDetail_0.contains(remote.subject_summaries[i].0)
        },
{
    let ls = local.subject_summaries;
    let rs = remote.subject_summaries;
    if local.scope == remote.scope && local.content_hash != remote.content_hash && remote.unhandled_residue == 0
        && remote.live_disputes == 0 {
        lemma_remote_only_lists(rs, ls);
        let front = local_differing(ls, rs);
        let back = remote_only(rs, ls);
        let listed = front + back;
        assert(spec_compare(local, remote) == DigestVerdictV::FetchDetail(listed));
        assert forall|i: int|
            0 <= i < rs.len() && map_get::<SubjectId, (BeliefState, Epoch)>(ls, #[trigger] rs[i].0) is None
                implies listed.contains(rs[i].0) by {
            assert(back.contains(rs[i].0));
            let k = choose|k: int| 0 <= k < back.len() && back[k] == rs[i].0;
            assert(listed[front.len() + k] == rs[i].0);
        }
    }
}

} // verus!
