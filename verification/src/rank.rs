//! Permutation rank: seeded, reconstructable, accountable ordering.
//!
//! Candidates are ordered by `(keyed_hash(K, candidate), candidate)` where
//! `K` is the domain-separated digest of the seed. Any observer holding
//! the visible seed and pool reconstructs the exact order (`reconstruct`);
//! each candidate's position token depends on the seed and that candidate
//! alone, so adding or removing a candidate does not reshuffle the others;
//! the round is part of the seed, so selection pressure rotates; and the
//! candidate id is the final sort component, so the order is total.
//!
//! Rank orders and tie-breaks; it never resolves a material conflict. The
//! merge engine's cross-class comparator has no rank input.

use crate::encode::{domain_digest, framed_str, le_u64, write_byte, write_str, write_u64, digest_with_domain};
use crate::epoch::{Epoch, Round};
use crate::hash::{blake3_keyed_digest, blake3_keyed_hash};
use crate::id::{PeerId, SubjectId};
use crate::order::{bytes_equal, compare_bytes, lemma_lex_lt_trans, lemma_lex_order_antisym, lemma_lex_order_range, lex_lt, lex_order};
use crate::scope::ScopeId;
use crate::text::string_of;
use vstd::prelude::*;
use vstd::string::StringExecFns;
use vstd::multiset::Multiset;
use vstd::utf8::encode_utf8;

verus! {

/// What the selection is for. Domain separation prevents one context's
/// order from leaking authority into another.
#[derive(Debug, Clone, Copy, PartialEq, Eq, Structural)]
pub enum RankDomain {
    WitnessSelection,
    Dissemination,
    Rendezvous,
    Repair,
}

pub open spec fn domain_tag(d: RankDomain) -> Seq<char> {
    match d {
        RankDomain::WitnessSelection => "witness-selection"@,
        RankDomain::Dissemination => "dissemination"@,
        RankDomain::Rendezvous => "rendezvous"@,
        RankDomain::Repair => "repair"@,
    }
}

impl RankDomain {
    pub fn tag(self) -> (r: &'static str)
        ensures
            r@ == domain_tag(self),
    {
        match self {
            RankDomain::WitnessSelection => "witness-selection",
            RankDomain::Dissemination => "dissemination",
            RankDomain::Rendezvous => "rendezvous",
            RankDomain::Repair => "repair",
        }
    }
}

/// Everything that determines an ordering. All fields are protocol-visible
/// values, which is what makes the ordering reconstructable.
#[derive(Debug, PartialEq, Eq)]
pub struct RankSeed {
    pub domain: RankDomain,
    pub scope: ScopeId,
    pub subject: Option<SubjectId>,
    pub epoch: Epoch,
    pub round: Round,
}

pub struct RankSeedV {
    pub domain: RankDomain,
    pub scope: Seq<char>,
    pub subject: Option<Seq<char>>,
    pub epoch: Epoch,
    pub round: Round,
}

impl View for RankSeed {
    type V = RankSeedV;

    open spec fn view(&self) -> RankSeedV {
        RankSeedV {
            domain: self.domain,
            scope: self.scope@,
            subject: match &self.subject {
                Some(s) => Some(s@),
                None => None,
            },
            epoch: self.epoch,
            round: self.round,
        }
    }
}

/// The canonical bytes of a seed.
pub open spec fn seed_bytes(s: RankSeedV) -> Seq<u8> {
    framed_str(domain_tag(s.domain)) + framed_str(s.scope) + match s.subject {
        Some(x) => seq![1u8] + framed_str(x),
        None => seq![0u8],
    } + le_u64(s.epoch.0) + le_u64(s.round.0)
}

impl RankSeed {
    pub fn duplicate(&self) -> (r: Self)
        ensures
            r@ == self@,
    {
        RankSeed {
            domain: self.domain,
            scope: self.scope.duplicate(),
            subject: match &self.subject {
                Some(s) => Some(s.duplicate()),
                None => None,
            },
            epoch: self.epoch,
            round: self.round,
        }
    }

    pub fn canonical_bytes(&self) -> (r: Vec<u8>)
        ensures
            r@ == seed_bytes(self@),
    {
        let mut out: Vec<u8> = Vec::new();
        write_str(&mut out, self.domain.tag());
        write_str(&mut out, self.scope.as_str());
        match &self.subject {
            Some(subject) => {
                write_byte(&mut out, 1);
                write_str(&mut out, subject.as_str());
            },
            None => {
                write_byte(&mut out, 0);
            },
        }
        write_u64(&mut out, self.epoch.0);
        write_u64(&mut out, self.round.0);
        assert(out@ =~= seed_bytes(self@));
        out
    }
}

impl Clone for RankSeed {
    fn clone(&self) -> (r: Self)
        ensures
            r@ == self@,
    {
        self.duplicate()
    }
}

/// A candidate's position token under a seed.
#[derive(Debug, Clone, Copy, PartialEq, Eq, PartialOrd, Ord)]
pub struct RankToken(pub [u8; 32]);

/// The ranking key of a seed: its domain-separated digest.
pub open spec fn rank_key(seed: RankSeedV) -> Seq<u8> {
    domain_digest("resonant/rank/v1"@, seed_bytes(seed))
}

/// A candidate's token: the key-ed BLAKE3 digest of its canonical bytes
/// under the seed's ranking key. It depends on the seed and the candidate
/// alone.
pub open spec fn spec_rank_token(seed: RankSeedV, candidate: Seq<char>) -> Seq<u8> {
    blake3_keyed_digest(rank_key(seed), framed_str(candidate))
}

pub open spec fn hex_char(n: nat) -> char {
    if n == 0 {
        '0'
    } else if n == 1 {
        '1'
    } else if n == 2 {
        '2'
    } else if n == 3 {
        '3'
    } else if n == 4 {
        '4'
    } else if n == 5 {
        '5'
    } else if n == 6 {
        '6'
    } else if n == 7 {
        '7'
    } else if n == 8 {
        '8'
    } else if n == 9 {
        '9'
    } else if n == 10 {
        'a'
    } else if n == 11 {
        'b'
    } else if n == 12 {
        'c'
    } else if n == 13 {
        'd'
    } else if n == 14 {
        'e'
    } else {
        'f'
    }
}

/// Lower-case hex, two digits per byte.
pub open spec fn hex_of(bytes: Seq<u8>) -> Seq<char>
    decreases bytes.len(),
{
    if bytes.len() == 0 {
        Seq::empty()
    } else {
        hex_of(bytes.drop_last()) + seq![
            hex_char((bytes.last() / 16) as nat),
            hex_char((bytes.last() % 16) as nat),
        ]
    }
}

/// Append one byte as two lower-case hex digits.
pub fn push_hex_byte(out: &mut String, b: u8)
    ensures
        final(out)@ == old(out)@ + seq![hex_char((b / 16) as nat), hex_char((b % 16) as nat)],
{
    out.append(hex_digit(b / 16));
    out.append(hex_digit(b % 16));
    assert(final(out)@ =~= old(out)@ + seq![hex_char((b / 16) as nat), hex_char((b % 16) as nat)]);
}

fn hex_digit(n: u8) -> (r: &'static str)
    requires
        n < 16,
    ensures
        r@ == seq![hex_char(n as nat)],
{
    if n == 0 {
        proof { reveal_strlit("0"); }
        "0"
    } else if n == 1 {
        proof { reveal_strlit("1"); }
        "1"
    } else if n == 2 {
        proof { reveal_strlit("2"); }
        "2"
    } else if n == 3 {
        proof { reveal_strlit("3"); }
        "3"
    } else if n == 4 {
        proof { reveal_strlit("4"); }
        "4"
    } else if n == 5 {
        proof { reveal_strlit("5"); }
        "5"
    } else if n == 6 {
        proof { reveal_strlit("6"); }
        "6"
    } else if n == 7 {
        proof { reveal_strlit("7"); }
        "7"
    } else if n == 8 {
        proof { reveal_strlit("8"); }
        "8"
    } else if n == 9 {
        proof { reveal_strlit("9"); }
        "9"
    } else if n == 10 {
        proof { reveal_strlit("a"); }
        "a"
    } else if n == 11 {
        proof { reveal_strlit("b"); }
        "b"
    } else if n == 12 {
        proof { reveal_strlit("c"); }
        "c"
    } else if n == 13 {
        proof { reveal_strlit("d"); }
        "d"
    } else if n == 14 {
        proof { reveal_strlit("e"); }
        "e"
    } else {
        proof { reveal_strlit("f"); }
        "f"
    }
}

impl RankToken {
    /// The first six bytes in lower-case hex.
    pub fn short_hex(&self) -> (r: String)
        ensures
            r@ == hex_of(self.0@.subrange(0, 6)),
    {
        let mut out = String::new();
        let mut i: usize = 0;
        while i < 6
            invariant
                i <= 6,
                self.0@.len() == 32,
                out@ == hex_of(self.0@.subrange(0, i as int)),
            decreases 6 - i,
        {
            let b = self.0[i];
            out.append(hex_digit(b / 16));
            out.append(hex_digit(b % 16));
            proof {
                let next = self.0@.subrange(0, i + 1);
                assert(next.drop_last() =~= self.0@.subrange(0, i as int));
                assert(next.last() == b);
            }
            i = i + 1;
            assert(out@ =~= hex_of(self.0@.subrange(0, i as int)));
        }
        out
    }
}

/// The token of `candidate` under `seed`.
pub fn rank_token(seed: &RankSeed, candidate: &PeerId) -> (r: RankToken)
    ensures
        r.0@ == spec_rank_token(seed@, candidate@),
{
    let seed_bytes = seed.canonical_bytes();
    let key = digest_with_domain("resonant/rank/v1", seed_bytes.as_slice());
    let mut candidate_bytes: Vec<u8> = Vec::new();
    write_str(&mut candidate_bytes, candidate.as_str());
    assert(candidate_bytes@ =~= framed_str(candidate@));
    RankToken(blake3_keyed_hash(&key, candidate_bytes.as_slice()))
}

/// Why a pool member was not eligible. Exclusions travel with the
/// selection so candidate formation stays inspectable. Topology speaks only
/// here, as an eligibility annotation, never as meaning.
#[derive(Debug, PartialEq, Eq)]
pub enum ExclusionReason {
    TopologyPolicy(String),
    Quarantined,
    Removed,
    StaleEpoch,
    OperatorHold,
}

pub enum ExclusionReasonV {
    TopologyPolicy(Seq<char>),
    Quarantined,
    Removed,
    StaleEpoch,
    OperatorHold,
}

impl View for ExclusionReason {
    type V = ExclusionReasonV;

    open spec fn view(&self) -> ExclusionReasonV {
        match self {
            ExclusionReason::TopologyPolicy(s) => ExclusionReasonV::TopologyPolicy(s@),
            ExclusionReason::Quarantined => ExclusionReasonV::Quarantined,
            ExclusionReason::Removed => ExclusionReasonV::Removed,
            ExclusionReason::StaleEpoch => ExclusionReasonV::StaleEpoch,
            ExclusionReason::OperatorHold => ExclusionReasonV::OperatorHold,
        }
    }
}

impl ExclusionReason {
    pub fn duplicate(&self) -> (r: Self)
        ensures
            r@ == self@,
    {
        match self {
            ExclusionReason::TopologyPolicy(s) => ExclusionReason::TopologyPolicy(s.clone()),
            ExclusionReason::Quarantined => ExclusionReason::Quarantined,
            ExclusionReason::Removed => ExclusionReason::Removed,
            ExclusionReason::StaleEpoch => ExclusionReason::StaleEpoch,
            ExclusionReason::OperatorHold => ExclusionReason::OperatorHold,
        }
    }
}

impl Clone for ExclusionReason {
    fn clone(&self) -> (r: Self)
        ensures
            r@ == self@,
    {
        self.duplicate()
    }
}

// ---------------------------------------------------------------------------
// Ordering
// ---------------------------------------------------------------------------

/// A ranked entry as plain values: the candidate and its token bytes.
pub open spec fn entry_view(e: (PeerId, RankToken)) -> (Seq<char>, Seq<u8>) {
    (e.0@, e.1.0@)
}

pub open spec fn entry_views(v: Seq<(PeerId, RankToken)>) -> Seq<(Seq<char>, Seq<u8>)> {
    v.map_values(|e: (PeerId, RankToken)| entry_view(e))
}

/// The ranking order: by token bytes, then by candidate id bytes.
pub open spec fn rank_le(a: (Seq<char>, Seq<u8>), b: (Seq<char>, Seq<u8>)) -> bool {
    lex_lt(a.1, b.1) || (a.1 == b.1 && lex_order(encode_utf8(a.0), encode_utf8(b.0)) <= 0)
}

/// Insert `x` into a ranked sequence after every entry not above it.
pub open spec fn insert_ranked(s: Seq<(Seq<char>, Seq<u8>)>, x: (Seq<char>, Seq<u8>)) -> Seq<(Seq<char>, Seq<u8>)>
    decreases s.len(),
{
    if s.len() == 0 {
        seq![x]
    } else if rank_le(s.last(), x) {
        s.push(x)
    } else {
        insert_ranked(s.drop_last(), x).push(s.last())
    }
}

/// The entries in ranking order (a stable insertion sort).
pub open spec fn rank_sort(s: Seq<(Seq<char>, Seq<u8>)>) -> Seq<(Seq<char>, Seq<u8>)>
    decreases s.len(),
{
    if s.len() == 0 {
        Seq::empty()
    } else {
        insert_ranked(rank_sort(s.drop_last()), s.last())
    }
}

pub open spec fn rank_sorted(s: Seq<(Seq<char>, Seq<u8>)>) -> bool {
    forall|i: int, j: int| 0 <= i < j < s.len() ==> rank_le(#[trigger] s[i], #[trigger] s[j])
}

proof fn lemma_rank_le_total(a: (Seq<char>, Seq<u8>), b: (Seq<char>, Seq<u8>))
    ensures
        rank_le(a, b) || rank_le(b, a),
{
    lemma_lex_order_antisym(a.1, b.1);
    lemma_lex_order_range(a.1, b.1);
    lemma_lex_order_antisym(encode_utf8(a.0), encode_utf8(b.0));
}

proof fn lemma_rank_le_trans(a: (Seq<char>, Seq<u8>), b: (Seq<char>, Seq<u8>), c: (Seq<char>, Seq<u8>))
    requires
        rank_le(a, b),
        rank_le(b, c),
    ensures
        rank_le(a, c),
{
    let (ua, ub, uc) = (encode_utf8(a.0), encode_utf8(b.0), encode_utf8(c.0));
    if lex_lt(a.1, b.1) && lex_lt(b.1, c.1) {
        lemma_lex_lt_trans(a.1, b.1, c.1);
    } else if lex_lt(a.1, b.1) {
        assert(b.1 == c.1);
    } else if lex_lt(b.1, c.1) {
        assert(a.1 == b.1);
    } else {
        lemma_lex_order_antisym(ua, ub);
        lemma_lex_order_antisym(ub, uc);
        lemma_lex_order_antisym(ua, uc);
        lemma_lex_order_range(ua, ub);
        lemma_lex_order_range(ub, uc);
        if lex_order(ua, ub) < 0 && lex_order(ub, uc) < 0 {
            lemma_lex_lt_trans(ua, ub, uc);
        }
    }
}

proof fn lemma_insert_ranked_members(s: Seq<(Seq<char>, Seq<u8>)>, x: (Seq<char>, Seq<u8>))
    ensures
        insert_ranked(s, x).len() == s.len() + 1,
        forall|k: int|
            0 <= k < s.len() + 1 ==> #[trigger] insert_ranked(s, x)[k] == x || s.contains(
                insert_ranked(s, x)[k],
            ),
        insert_ranked(s, x).to_multiset() == s.to_multiset().insert(x),
    decreases s.len(),
{
    broadcast use vstd::seq_lib::group_to_multiset_ensures;

    if s.len() > 0 && !rank_le(s.last(), x) {
        let d = s.drop_last();
        lemma_insert_ranked_members(d, x);
        let r = insert_ranked(s, x);
        assert forall|k: int| 0 <= k < s.len() + 1 implies #[trigger] r[k] == x || s.contains(
            r[k],
        ) by {
            if k < s.len() {
                if r[k] != x {
                    let j = choose|j: int| 0 <= j < d.len() && d[j] == r[k];
                    assert(s[j] == r[k]);
                }
            } else {
                assert(s[s.len() - 1] == r[k]);
            }
        }
        assert(s =~= d.push(s.last()));
        assert(r.to_multiset() =~= s.to_multiset().insert(x));
    } else if s.len() > 0 {
        let r = insert_ranked(s, x);
        assert forall|k: int| 0 <= k < s.len() + 1 implies #[trigger] r[k] == x || s.contains(
            r[k],
        ) by {
            if k < s.len() {
                assert(s[k] == r[k]);
            }
        }
    } else {
        assert(seq![x] =~= Seq::<(Seq<char>, Seq<u8>)>::empty().push(x));
    }
}

proof fn lemma_insert_ranked_sorted(s: Seq<(Seq<char>, Seq<u8>)>, x: (Seq<char>, Seq<u8>))
    requires
        rank_sorted(s),
    ensures
        rank_sorted(insert_ranked(s, x)),
    decreases s.len(),
{
    lemma_insert_ranked_members(s, x);
    if s.len() > 0 {
        let r = insert_ranked(s, x);
        if rank_le(s.last(), x) {
            assert forall|i: int, j: int| 0 <= i < j < r.len() implies rank_le(
                #[trigger] r[i],
                #[trigger] r[j],
            ) by {
                if j == s.len() {
                    if i < s.len() - 1 {
                        lemma_rank_le_trans(s[i], s.last(), x);
                    }
                } else {
                    assert(r[i] == s[i] && r[j] == s[j]);
                }
            }
        } else {
            let d = s.drop_last();
            lemma_insert_ranked_sorted(d, x);
            lemma_insert_ranked_members(d, x);
            lemma_rank_le_total(s.last(), x);
            let m = insert_ranked(d, x);
            assert forall|i: int, j: int| 0 <= i < j < r.len() implies rank_le(
                #[trigger] r[i],
                #[trigger] r[j],
            ) by {
                if j == s.len() {
                    assert(r[i] == m[i]);
                    if m[i] != x {
                        let k = choose|k: int| 0 <= k < d.len() && d[k] == m[i];
                        assert(s[k] == d[k]);
                        assert(rank_le(s[k], s[s.len() - 1]));
                    }
                } else {
                    assert(r[i] == m[i] && r[j] == m[j]);
                }
            }
        }
    }
}

/// Ranking is a sort: the result is ordered by (token, candidate) and holds
/// exactly the entries it was given.
pub proof fn lemma_rank_sort_is_sorted_permutation(s: Seq<(Seq<char>, Seq<u8>)>)
    ensures
        rank_sorted(rank_sort(s)),
        rank_sort(s).to_multiset() == s.to_multiset(),
        rank_sort(s).len() == s.len(),
    decreases s.len(),
{
    broadcast use vstd::seq_lib::group_to_multiset_ensures;

    if s.len() > 0 {
        let d = s.drop_last();
        lemma_rank_sort_is_sorted_permutation(d);
        lemma_insert_ranked_sorted(rank_sort(d), s.last());
        lemma_insert_ranked_members(rank_sort(d), s.last());
        assert(s =~= d.push(s.last()));
    } else {
        assert(s.to_multiset() =~= Multiset::empty());
        assert(rank_sort(s).to_multiset() =~= Multiset::empty());
    }
}

proof fn lemma_insert_ranked_split(s: Seq<(Seq<char>, Seq<u8>)>, x: (Seq<char>, Seq<u8>), p: int)
    requires
        0 <= p <= s.len(),
        forall|j: int| p <= j < s.len() ==> !rank_le(#[trigger] s[j], x),
    ensures
        insert_ranked(s, x) == insert_ranked(s.subrange(0, p), x) + s.subrange(p, s.len() as int),
    decreases s.len() - p,
{
    if p < s.len() {
        let d = s.drop_last();
        assert forall|j: int| p <= j < d.len() implies !rank_le(#[trigger] d[j], x) by {
            assert(d[j] == s[j]);
        }
        lemma_insert_ranked_split(d, x, p);
        assert(d.subrange(0, p) =~= s.subrange(0, p));
        assert(s.subrange(p, s.len() as int) =~= d.subrange(p, d.len() as int).push(s.last()));
    } else {
        assert(s.subrange(0, p) =~= s);
    }
}

fn ranked_le(a: &(PeerId, RankToken), b: &(PeerId, RankToken)) -> (r: bool)
    ensures
        r == rank_le(entry_view(*a), entry_view(*b)),
{
    let c = compare_bytes(a.1.0.as_slice(), b.1.0.as_slice());
    proof {
        lemma_lex_order_antisym(a.1.0@, b.1.0@);
    }
    if c < 0 {
        true
    } else if c > 0 {
        false
    } else {
        compare_bytes(a.0.as_str().as_bytes(), b.0.as_str().as_bytes()) <= 0
    }
}

fn insert_in_rank(out: &mut Vec<(PeerId, RankToken)>, x: (PeerId, RankToken))
    ensures
        entry_views(final(out)@) == insert_ranked(entry_views(old(out)@), entry_view(x)),
{
    let ghost s = entry_views(out@);
    let mut p: usize = out.len();
    loop
        invariant
            p <= out@.len(),
            s == entry_views(out@),
            forall|j: int| p <= j < s.len() ==> !rank_le(#[trigger] s[j], entry_view(x)),
        ensures
            p <= out@.len(),
            s == entry_views(out@),
            forall|j: int| p <= j < s.len() ==> !rank_le(#[trigger] s[j], entry_view(x)),
            p == 0 || rank_le(s[p - 1], entry_view(x)),
        decreases p,
    {
        if p == 0 {
            break;
        }
        let le = ranked_le(&out[p - 1], &x);
        if le {
            break;
        }
        p = p - 1;
    }
    proof {
        lemma_insert_ranked_split(s, entry_view(x), p as int);
        let pre = s.subrange(0, p as int);
        if p > 0 {
            assert(pre.last() == s[p - 1]);
        } else {
            assert(pre =~= Seq::<(Seq<char>, Seq<u8>)>::empty());
        }
    }
    out.insert(p, x);
    assert(entry_views(out@) =~= insert_ranked(s, entry_view(x)));
}

// ---------------------------------------------------------------------------
// Selection
// ---------------------------------------------------------------------------

/// The accountable selection object: seed, pool, exclusions with reasons,
/// the full ranked order, and the taken slice.
#[derive(Debug, PartialEq, Eq)]
pub struct RankedSelection {
    pub seed: RankSeed,
    pub seed_digest: [u8; 32],
    pub pool: Vec<PeerId>,
    pub excluded: Vec<(PeerId, ExclusionReason)>,
    pub ranked: Vec<(PeerId, RankToken)>,
    pub selected: Vec<PeerId>,
}

pub struct RankedSelectionV {
    pub seed: RankSeedV,
    pub seed_digest: Seq<u8>,
    pub pool: Seq<Seq<char>>,
    pub excluded: Seq<(Seq<char>, ExclusionReasonV)>,
    pub ranked: Seq<(Seq<char>, Seq<u8>)>,
    pub selected: Seq<Seq<char>>,
}

pub open spec fn peer_views(v: Seq<PeerId>) -> Seq<Seq<char>> {
    v.map_values(|p: PeerId| p@)
}

pub open spec fn exclusion_views(v: Seq<(PeerId, ExclusionReason)>) -> Seq<(Seq<char>, ExclusionReasonV)> {
    v.map_values(|e: (PeerId, ExclusionReason)| (e.0@, e.1@))
}

impl View for RankedSelection {
    type V = RankedSelectionV;

    open spec fn view(&self) -> RankedSelectionV {
        RankedSelectionV {
            seed: self.seed@,
            seed_digest: self.seed_digest@,
            pool: peer_views(self.pool@),
            excluded: exclusion_views(self.excluded@),
            ranked: entry_views(self.ranked@),
            selected: peer_views(self.selected@),
        }
    }
}

fn copy_ranked(v: &Vec<(PeerId, RankToken)>) -> (r: Vec<(PeerId, RankToken)>)
    ensures
        entry_views(r@) == entry_views(v@),
{
    let mut out: Vec<(PeerId, RankToken)> = Vec::new();
    let mut i: usize = 0;
    while i < v.len()
        invariant
            i <= v@.len(),
            out@.len() == i,
            forall|j: int| 0 <= j < i ==> entry_view(#[trigger] out@[j]) == entry_view(v@[j]),
        decreases v@.len() - i,
    {
        out.push((v[i].0.duplicate(), v[i].1));
        i = i + 1;
    }
    assert(entry_views(out@) =~= entry_views(v@));
    out
}

impl RankedSelection {
    pub fn duplicate(&self) -> (r: Self)
        ensures
            r@ == self@,
    {
        RankedSelection {
            seed: self.seed.duplicate(),
            seed_digest: self.seed_digest,
            pool: copy_pool(&self.pool),
            excluded: copy_exclusions(&self.excluded),
            ranked: copy_ranked(&self.ranked),
            selected: copy_pool(&self.selected),
        }
    }
}

impl Clone for RankedSelection {
    fn clone(&self) -> (r: Self)
        ensures
            r@ == self@,
    {
        self.duplicate()
    }
}

pub open spec fn is_excluded(excluded: Seq<(Seq<char>, ExclusionReasonV)>, p: Seq<char>) -> bool {
    exists|j: int| 0 <= j < excluded.len() && (#[trigger] excluded[j]).0 == p
}

/// The pool members that no exclusion names, in pool order.
pub open spec fn eligible(pool: Seq<Seq<char>>, excluded: Seq<(Seq<char>, ExclusionReasonV)>) -> Seq<Seq<char>>
    decreases pool.len(),
{
    if pool.len() == 0 {
        Seq::empty()
    } else {
        eligible(pool.drop_last(), excluded) + if is_excluded(excluded, pool.last()) {
            Seq::empty()
        } else {
            seq![pool.last()]
        }
    }
}

pub open spec fn token_entries(seed: RankSeedV, peers: Seq<Seq<char>>) -> Seq<(Seq<char>, Seq<u8>)>
    decreases peers.len(),
{
    if peers.len() == 0 {
        Seq::empty()
    } else {
        token_entries(seed, peers.drop_last()).push((peers.last(), spec_rank_token(seed, peers.last())))
    }
}

/// The eligible pool in ranking order, each with its token.
pub open spec fn spec_ranked(seed: RankSeedV, pool: Seq<Seq<char>>, excluded: Seq<(Seq<char>, ExclusionReasonV)>) -> Seq<(Seq<char>, Seq<u8>)> {
    rank_sort(token_entries(seed, eligible(pool, excluded)))
}

/// The first `take` ranked candidates (all of them if fewer).
pub open spec fn spec_selected(ranked: Seq<(Seq<char>, Seq<u8>)>, take: nat) -> Seq<Seq<char>> {
    ranked.take(if take <= ranked.len() {
        take as int
    } else {
        ranked.len() as int
    }).map_values(|e: (Seq<char>, Seq<u8>)| e.0)
}

/// What `permutation_rank` produces.
pub open spec fn rank_selection(seed: RankSeedV, pool: Seq<Seq<char>>, excluded: Seq<(Seq<char>, ExclusionReasonV)>, take: nat) -> RankedSelectionV {
    let ranked = spec_ranked(seed, pool, excluded);
    RankedSelectionV {
        seed,
        seed_digest: domain_digest("resonant/rank-seed/v1"@, seed_bytes(seed)),
        pool,
        excluded,
        ranked,
        selected: spec_selected(ranked, take),
    }
}

fn excluded_contains(excluded: &Vec<(PeerId, ExclusionReason)>, peer: &PeerId) -> (r: bool)
    ensures
        r == is_excluded(exclusion_views(excluded@), peer@),
{
    let ghost ex = exclusion_views(excluded@);
    let mut j: usize = 0;
    while j < excluded.len()
        invariant
            j <= excluded@.len(),
            ex == exclusion_views(excluded@),
            forall|k: int| 0 <= k < j ==> (#[trigger] ex[k]).0 != peer@,
        decreases excluded@.len() - j,
    {
        if excluded[j].0.same(peer) {
            assert(ex[j as int].0 == peer@);
            return true;
        }
        j = j + 1;
    }
    false
}

/// Deterministically rank the eligible pool under `seed` and select the
/// first `take` peers.
pub fn permutation_rank(seed: RankSeed, pool: Vec<PeerId>, excluded: Vec<(PeerId, ExclusionReason)>, take: usize) -> (r: RankedSelection)
    ensures
        r@ == rank_selection(seed@, peer_views(pool@), exclusion_views(excluded@), take as nat),
{
    let ghost pv = peer_views(pool@);
    let ghost ex = exclusion_views(excluded@);
    let mut ranked: Vec<(PeerId, RankToken)> = Vec::new();
    let mut i: usize = 0;
    while i < pool.len()
        invariant
            i <= pool@.len(),
            pv == peer_views(pool@),
            ex == exclusion_views(excluded@),
            entry_views(ranked@) == rank_sort(token_entries(seed@, eligible(pv.subrange(0, i as int), ex))),
        decreases pool@.len() - i,
    {
        let peer = &pool[i];
        let skip = excluded_contains(&excluded, peer);
        proof {
            let next = pv.subrange(0, i + 1);
            assert(next.drop_last() =~= pv.subrange(0, i as int));
            assert(next.last() == peer@);
        }
        if !skip {
            let token = rank_token(&seed, peer);
            let ghost before = eligible(pv.subrange(0, i as int), ex);
            insert_in_rank(&mut ranked, (peer.duplicate(), token));
            proof {
                let after = eligible(pv.subrange(0, i + 1), ex);
                assert(after =~= before.push(peer@));
                assert(after.drop_last() =~= before);
                assert(token_entries(seed@, after).drop_last() =~= token_entries(seed@, before));
            }
        } else {
            proof {
                assert(eligible(pv.subrange(0, i + 1), ex) =~= eligible(pv.subrange(0, i as int), ex));
            }
        }
        i = i + 1;
    }
    assert(pv.subrange(0, i as int) =~= pv);
    let n = if take <= ranked.len() {
        take
    } else {
        ranked.len()
    };
    let mut selected: Vec<PeerId> = Vec::new();
    let mut k: usize = 0;
    while k < n
        invariant
            k <= n,
            n <= ranked@.len(),
            peer_views(selected@) == entry_views(ranked@).take(k as int).map_values(
                |e: (Seq<char>, Seq<u8>)| e.0,
            ),
        decreases n - k,
    {
        let peer = ranked[k].0.duplicate();
        proof {
            assert(entry_views(ranked@)[k as int] == entry_view(ranked@[k as int]));
        }
        selected.push(peer);
        proof {
            let ev = entry_views(ranked@);
            assert(ev.take(k + 1) =~= ev.take(k as int).push(ev[k as int]));
            assert(ev.take(k + 1).map_values(|e: (Seq<char>, Seq<u8>)| e.0) =~= ev.take(
                k as int,
            ).map_values(|e: (Seq<char>, Seq<u8>)| e.0).push(ev[k as int].0));
        }
        k = k + 1;
        assert(peer_views(selected@) =~= entry_views(ranked@).take(k as int).map_values(
            |e: (Seq<char>, Seq<u8>)| e.0,
        ));
    }
    let seed_bytes = seed.canonical_bytes();
    let seed_digest = digest_with_domain("resonant/rank-seed/v1", seed_bytes.as_slice());
    RankedSelection { seed, seed_digest, pool, excluded, ranked, selected }
}

/// Why a recorded selection does not reconstruct.
#[derive(Debug, Clone, Copy, PartialEq, Eq, Structural)]
pub enum RankDivergence {
    SeedDigest,
    Order { position: usize },
    Selection,
}

pub open spec fn divergence_text(d: RankDivergence) -> Seq<char> {
    match d {
        RankDivergence::SeedDigest => "seed digest does not match the recorded seed"@,
        RankDivergence::Order { position } =>
            "recomputed order differs from the recorded order at position "@ + crate::text::decimal(
            position as nat,
        ),
        RankDivergence::Selection => "recorded selection is not the head of the recomputed order"@,
    }
}

impl RankDivergence {
    /// The human-readable divergence message.
    pub fn describe(&self) -> (r: String)
        ensures
            r@ == divergence_text(*self),
    {
        match self {
            RankDivergence::SeedDigest => string_of("seed digest does not match the recorded seed"),
            RankDivergence::Order { position } => {
                let mut out = string_of(
                    "recomputed order differs from the recorded order at position ",
                );
                crate::text::push_decimal(&mut out, *position as u64);
                out
            },
            RankDivergence::Selection => string_of(
                "recorded selection is not the head of the recomputed order",
            ),
        }
    }
}

/// The first position where two ranked orders differ, over their common
/// length.
pub open spec fn first_difference(a: Seq<(Seq<char>, Seq<u8>)>, b: Seq<(Seq<char>, Seq<u8>)>) -> Option<int> {
    if exists|i: int| 0 <= i < a.len() && i < b.len() && a[i] != b[i] {
        Some(
            choose|i: int|
                0 <= i < a.len() && i < b.len() && a[i] != b[i] && forall|k: int|
                    0 <= k < i ==> a[k] == b[k],
        )
    } else {
        None
    }
}

/// What `reconstruct` answers for a recorded selection.
pub open spec fn spec_reconstruct(sel: RankedSelectionV) -> Result<(), RankDivergence> {
    let fresh = rank_selection(sel.seed, sel.pool, sel.excluded, sel.selected.len());
    if fresh.seed_digest != sel.seed_digest {
        Err(RankDivergence::SeedDigest)
    } else {
        match first_difference(sel.ranked, fresh.ranked) {
            Some(i) => Err(RankDivergence::Order { position: i as usize }),
            None => if sel.ranked.len() != fresh.ranked.len() {
                Err(
                    RankDivergence::Order {
                        position: if fresh.ranked.len() <= sel.ranked.len() {
                            fresh.ranked.len() as usize
                        } else {
                            sel.ranked.len() as usize
                        },
                    },
                )
            } else if sel.selected != fresh.selected {
                Err(RankDivergence::Selection)
            } else {
                Ok(())
            },
        }
    }
}

fn copy_pool(v: &Vec<PeerId>) -> (r: Vec<PeerId>)
    ensures
        peer_views(r@) == peer_views(v@),
{
    let mut out: Vec<PeerId> = Vec::new();
    let mut i: usize = 0;
    while i < v.len()
        invariant
            i <= v@.len(),
            out@.len() == i,
            forall|j: int| 0 <= j < i ==> (#[trigger] out@[j])@ == v@[j]@,
        decreases v@.len() - i,
    {
        out.push(v[i].duplicate());
        i = i + 1;
    }
    assert(peer_views(out@) =~= peer_views(v@));
    out
}

fn copy_exclusions(v: &Vec<(PeerId, ExclusionReason)>) -> (r: Vec<(PeerId, ExclusionReason)>)
    ensures
        exclusion_views(r@) == exclusion_views(v@),
{
    let mut out: Vec<(PeerId, ExclusionReason)> = Vec::new();
    let mut i: usize = 0;
    while i < v.len()
        invariant
            i <= v@.len(),
            out@.len() == i,
            forall|j: int|
                0 <= j < i ==> (#[trigger] out@[j]).0@ == v@[j].0@ && out@[j].1@ == v@[j].1@,
        decreases v@.len() - i,
    {
        out.push((v[i].0.duplicate(), v[i].1.duplicate()));
        i = i + 1;
    }
    assert(exclusion_views(out@) =~= exclusion_views(v@));
    out
}

fn same_entry(a: &(PeerId, RankToken), b: &(PeerId, RankToken)) -> (r: bool)
    ensures
        r == (entry_view(*a) == entry_view(*b)),
{
    a.0.same(&b.0) && bytes_equal(a.1.0.as_slice(), b.1.0.as_slice())
}

fn same_peers(a: &Vec<PeerId>, b: &Vec<PeerId>) -> (r: bool)
    ensures
        r == (peer_views(a@) == peer_views(b@)),
{
    if a.len() != b.len() {
        proof {
            assert(peer_views(a@).len() != peer_views(b@).len());
        }
        return false;
    }
    let mut i: usize = 0;
    while i < a.len()
        invariant
            i <= a@.len(),
            a@.len() == b@.len(),
            forall|j: int| 0 <= j < i ==> (#[trigger] a@[j])@ == b@[j]@,
        decreases a@.len() - i,
    {
        if !a[i].same(&b[i]) {
            proof {
                assert(peer_views(a@)[i as int] != peer_views(b@)[i as int]);
            }
            return false;
        }
        i = i + 1;
    }
    assert(peer_views(a@) =~= peer_views(b@));
    true
}

/// Independently recompute a recorded selection from its visible seed and
/// pool: the "any observer can reconstruct why" contract.
pub fn reconstruct(selection: &RankedSelection) -> (r: Result<(), RankDivergence>)
    ensures
        r == spec_reconstruct(selection@),
{
    let fresh = permutation_rank(
        selection.seed.duplicate(),
        copy_pool(&selection.pool),
        copy_exclusions(&selection.excluded),
        selection.selected.len(),
    );
    if !bytes_equal(fresh.seed_digest.as_slice(), selection.seed_digest.as_slice()) {
        return Err(RankDivergence::SeedDigest);
    }
    let ghost a = selection@.ranked;
    let ghost b = fresh@.ranked;
    let mut position: usize = 0;
    while position < selection.ranked.len() && position < fresh.ranked.len()
        invariant
            a == selection@.ranked,
            b == fresh@.ranked,
            fresh@ == rank_selection(
                selection@.seed,
                selection@.pool,
                selection@.excluded,
                selection@.selected.len(),
            ),
            fresh@.seed_digest == selection@.seed_digest,
            position <= a.len(),
            position <= b.len(),
            forall|k: int| 0 <= k < position ==> a[k] == b[k],
        decreases a.len() - position,
    {
        if !same_entry(&selection.ranked[position], &fresh.ranked[position]) {
            proof {
                assert(a[position as int] != b[position as int]);
                let p = position as int;
                assert(exists|i: int| 0 <= i < a.len() && i < b.len() && a[i] != b[i]);
                let c = choose|i: int|
                    0 <= i < a.len() && i < b.len() && a[i] != b[i] && forall|k: int|
                        0 <= k < i ==> a[k] == b[k];
                assert(0 <= p < a.len() && p < b.len() && a[p] != b[p] && forall|k: int|
                    0 <= k < p ==> a[k] == b[k]);
                if c < p {
                    assert(a[c] == b[c]);
                }
                if p < c {
                    assert(a[p] == b[p]);
                }
                assert(c == p);
                assert(first_difference(a, b) == Some(p));
            }
            return Err(RankDivergence::Order { position });
        }
        position = position + 1;
    }
    proof {
        assert(!exists|i: int| 0 <= i < a.len() && i < b.len() && a[i] != b[i]);
    }
    if selection.ranked.len() != fresh.ranked.len() {
        let at = if fresh.ranked.len() <= selection.ranked.len() {
            fresh.ranked.len()
        } else {
            selection.ranked.len()
        };
        return Err(RankDivergence::Order { position: at });
    }
    if !same_peers(&selection.selected, &fresh.selected) {
        return Err(RankDivergence::Selection);
    }
    Ok(())
}

// ---------------------------------------------------------------------------
// Laws of ranking
// ---------------------------------------------------------------------------

proof fn lemma_token_entries_at(seed: RankSeedV, peers: Seq<Seq<char>>)
    ensures
        token_entries(seed, peers).len() == peers.len(),
        forall|k: int|
            0 <= k < peers.len() ==> #[trigger] token_entries(seed, peers)[k] == (
                peers[k],
                spec_rank_token(seed, peers[k]),
            ),
    decreases peers.len(),
{
    if peers.len() > 0 {
        lemma_token_entries_at(seed, peers.drop_last());
    }
}

proof fn lemma_eligible_members(pool: Seq<Seq<char>>, excluded: Seq<(Seq<char>, ExclusionReasonV)>)
    ensures
        forall|k: int|
            0 <= k < eligible(pool, excluded).len() ==> pool.contains(
                #[trigger] eligible(pool, excluded)[k],
            ) && !is_excluded(excluded, eligible(pool, excluded)[k]),
    decreases pool.len(),
{
    if pool.len() > 0 {
        let d = pool.drop_last();
        lemma_eligible_members(d, excluded);
        let e = eligible(pool, excluded);
        assert forall|k: int| 0 <= k < e.len() implies pool.contains(#[trigger] e[k])
            && !is_excluded(excluded, e[k]) by {
            if k < eligible(d, excluded).len() {
                let j = choose|j: int| 0 <= j < d.len() && d[j] == e[k];
                assert(pool[j] == e[k]);
            } else {
                assert(pool[pool.len() - 1] == e[k]);
            }
        }
    }
}

proof fn lemma_insert_ranked_is_insertion(s: Seq<(Seq<char>, Seq<u8>)>, x: (Seq<char>, Seq<u8>))
    ensures
        exists|p: int| 0 <= p <= s.len() && insert_ranked(s, x) == s.insert(p, x),
    decreases s.len(),
{
    if s.len() == 0 {
        assert(insert_ranked(s, x) =~= s.insert(0, x));
    } else if rank_le(s.last(), x) {
        assert(insert_ranked(s, x) =~= s.insert(s.len() as int, x));
    } else {
        let d = s.drop_last();
        lemma_insert_ranked_is_insertion(d, x);
        let p = choose|p: int| 0 <= p <= d.len() && insert_ranked(d, x) == d.insert(p, x);
        assert(insert_ranked(s, x) =~= s.insert(p, x));
    }
}

/// Reconstruction succeeds exactly on the selections that permutation rank
/// produces: a record passes if and only if recomputing it from its own
/// seed, pool and exclusions, taking as many as it selected, gives it back.
pub proof fn lemma_reconstruct_iff(sel: RankedSelectionV)
    ensures
        (spec_reconstruct(sel) is Ok) == (sel == rank_selection(sel.seed, sel.pool, sel.excluded, sel.selected.len())),
{
    let fresh = rank_selection(sel.seed, sel.pool, sel.excluded, sel.selected.len());
    if sel == fresh {
        lemma_selection_reconstructs(sel.seed, sel.pool, sel.excluded, sel.selected.len());
    } else if spec_reconstruct(sel) is Ok {
        assert(first_difference(sel.ranked, fresh.ranked) is None);
        assert(sel.ranked.len() == fresh.ranked.len());
        assert forall|i: int| 0 <= i < sel.ranked.len() implies sel.ranked[i] == fresh.ranked[i] by {
            if sel.ranked[i] != fresh.ranked[i] {
                assert(0 <= i < sel.ranked.len() && i < fresh.ranked.len() && sel.ranked[i] != fresh.ranked[i]);
            }
        }
        assert(sel.ranked =~= fresh.ranked);
        assert(sel == fresh);
    }
}

/// Accountable determinism: a selection made by `permutation_rank`
/// always reconstructs from its own visible seed and pool.
pub proof fn lemma_selection_reconstructs(seed: RankSeedV, pool: Seq<Seq<char>>, excluded: Seq<(Seq<char>, ExclusionReasonV)>, take: nat)
    ensures
        spec_reconstruct(rank_selection(seed, pool, excluded, take)) == Ok::<(), RankDivergence>(()),
{
    let sel = rank_selection(seed, pool, excluded, take);
    let ranked = sel.ranked;
    let n = if take <= ranked.len() {
        take
    } else {
        ranked.len()
    };
    assert(sel.selected.len() == n);
    assert(spec_selected(ranked, n) =~= spec_selected(ranked, take));
    assert(!exists|i: int| 0 <= i < ranked.len() && i < ranked.len() && ranked[i] != ranked[i]);
}

/// Ranking is by each candidate's own token: the ranked order is sorted by
/// (token, candidate); it holds exactly the eligible pool members, each
/// with the token that the seed and that candidate alone determine.
pub proof fn lemma_ranked_order_is_by_own_token(seed: RankSeedV, pool: Seq<Seq<char>>, excluded: Seq<(Seq<char>, ExclusionReasonV)>)
    ensures
        rank_sorted(spec_ranked(seed, pool, excluded)),
        spec_ranked(seed, pool, excluded).to_multiset() == token_entries(
            seed,
            eligible(pool, excluded),
        ).to_multiset(),
        forall|i: int|
            0 <= i < spec_ranked(seed, pool, excluded).len() ==> {
                let e = #[trigger] spec_ranked(seed, pool, excluded)[i];
                &&& e.1 == spec_rank_token(seed, e.0)
                &&& pool.contains(e.0)
                &&& !is_excluded(excluded, e.0)
            },
{
    broadcast use vstd::seq_lib::group_to_multiset_ensures;

    let el = eligible(pool, excluded);
    let te = token_entries(seed, el);
    lemma_rank_sort_is_sorted_permutation(te);
    lemma_token_entries_at(seed, el);
    lemma_eligible_members(pool, excluded);
    let r = spec_ranked(seed, pool, excluded);
    assert forall|i: int| 0 <= i < r.len() implies {
        let e = #[trigger] r[i];
        &&& e.1 == spec_rank_token(seed, e.0)
        &&& pool.contains(e.0)
        &&& !is_excluded(excluded, e.0)
    } by {
        assert(r.contains(r[i]));
        assert(r.to_multiset().count(r[i]) > 0);
        assert(te.contains(r[i]));
        let k = choose|k: int| 0 <= k < te.len() && te[k] == r[i];
        assert(te[k] == (el[k], spec_rank_token(seed, el[k])));
    }
}

/// The candidates of a list of ranked entries, in order.
pub open spec fn entry_names(s: Seq<(Seq<char>, Seq<u8>)>) -> Seq<Seq<char>> {
    s.map_values(|e: (Seq<char>, Seq<u8>)| e.0)
}

proof fn lemma_insert_ranked_names(s: Seq<(Seq<char>, Seq<u8>)>, x: (Seq<char>, Seq<u8>))
    ensures
        entry_names(insert_ranked(s, x)).to_multiset() == entry_names(s).to_multiset().insert(x.0),
    decreases s.len(),
{
    broadcast use vstd::seq_lib::group_to_multiset_ensures;

    if s.len() == 0 {
        assert(entry_names(insert_ranked(s, x)) =~= Seq::<Seq<char>>::empty().push(x.0));
        assert(entry_names(s) =~= Seq::<Seq<char>>::empty());
    } else if rank_le(s.last(), x) {
        assert(entry_names(insert_ranked(s, x)) =~= entry_names(s).push(x.0));
    } else {
        let d = s.drop_last();
        lemma_insert_ranked_names(d, x);
        assert(entry_names(insert_ranked(s, x)) =~= entry_names(insert_ranked(d, x)).push(s.last().0));
        assert(entry_names(s) =~= entry_names(d).push(s.last().0));
        assert(entry_names(d).to_multiset().insert(x.0).insert(s.last().0) =~= entry_names(d).to_multiset().insert(
            s.last().0,
        ).insert(x.0));
    }
}

proof fn lemma_rank_sort_names(s: Seq<(Seq<char>, Seq<u8>)>)
    ensures
        entry_names(rank_sort(s)).to_multiset() == entry_names(s).to_multiset(),
    decreases s.len(),
{
    broadcast use vstd::seq_lib::group_to_multiset_ensures;

    if s.len() == 0 {
        assert(entry_names(rank_sort(s)) =~= Seq::<Seq<char>>::empty());
        assert(entry_names(s) =~= Seq::<Seq<char>>::empty());
    } else {
        let d = s.drop_last();
        lemma_rank_sort_names(d);
        lemma_insert_ranked_names(rank_sort(d), s.last());
        assert(entry_names(s) =~= entry_names(d).push(s.last().0));
    }
}

proof fn lemma_token_entry_names(seed: RankSeedV, peers: Seq<Seq<char>>)
    ensures
        entry_names(token_entries(seed, peers)) == peers,
    decreases peers.len(),
{
    if peers.len() > 0 {
        lemma_token_entry_names(seed, peers.drop_last());
        assert(entry_names(token_entries(seed, peers)) =~= entry_names(token_entries(seed, peers.drop_last())).push(
            peers.last(),
        ));
        assert(peers =~= peers.drop_last().push(peers.last()));
    }
}

proof fn lemma_nothing_excluded(pool: Seq<Seq<char>>)
    ensures
        eligible(pool, Seq::empty()) == pool,
    decreases pool.len(),
{
    if pool.len() > 0 {
        lemma_nothing_excluded(pool.drop_last());
        assert(!is_excluded(Seq::empty(), pool.last()));
        assert(pool =~= pool.drop_last() + seq![pool.last()]);
    }
}

/// With nothing excluded and the whole pool taken, the selection holds
/// exactly the pool, whatever the seed: so its set does not depend on the
/// round the seed was drawn for.
pub proof fn lemma_full_take_selects_pool(seed: RankSeedV, pool: Seq<Seq<char>>)
    ensures
        rank_selection(seed, pool, Seq::empty(), pool.len()).selected.to_multiset() == pool.to_multiset(),
{
    lemma_nothing_excluded(pool);
    let te = token_entries(seed, pool);
    lemma_token_entry_names(seed, pool);
    lemma_rank_sort_names(te);
    lemma_rank_sort_is_sorted_permutation(te);
    let ranked = rank_sort(te);
    assert(te.len() == pool.len());
    assert(ranked.take(ranked.len() as int) =~= ranked);
    assert(spec_selected(ranked, pool.len()) =~= entry_names(ranked));
}

/// Stability under pool change: adding an eligible candidate to the pool
/// keeps every other candidate's relative order; the new ranking is the
/// old one with the newcomer inserted.
pub proof fn lemma_new_candidate_does_not_reshuffle(
    seed: RankSeedV,
    pool: Seq<Seq<char>>,
    excluded: Seq<(Seq<char>, ExclusionReasonV)>,
    newcomer: Seq<char>,
)
    requires
        !is_excluded(excluded, newcomer),
    ensures
        exists|p: int|
            0 <= p <= spec_ranked(seed, pool, excluded).len() && spec_ranked(
                seed,
                pool.push(newcomer),
                excluded,
            ) == spec_ranked(seed, pool, excluded).insert(
                p,
                (newcomer, spec_rank_token(seed, newcomer)),
            ),
{
    let grown = pool.push(newcomer);
    assert(grown.drop_last() =~= pool);
    let el = eligible(pool, excluded);
    assert(eligible(grown, excluded) =~= el.push(newcomer));
    assert(eligible(grown, excluded).drop_last() =~= el);
    let te = token_entries(seed, eligible(grown, excluded));
    assert(te.drop_last() =~= token_entries(seed, el));
    let x = (newcomer, spec_rank_token(seed, newcomer));
    assert(te.last() == x);
    let old_rank = rank_sort(token_entries(seed, el));
    assert(spec_ranked(seed, grown, excluded) == insert_ranked(old_rank, x));
    lemma_insert_ranked_is_insertion(old_rank, x);
    let p = choose|p: int| 0 <= p <= old_rank.len() && insert_ranked(old_rank, x) == old_rank.insert(p, x);
    assert(spec_ranked(seed, pool, excluded) == old_rank);
    assert(0 <= p <= spec_ranked(seed, pool, excluded).len() && spec_ranked(seed, grown, excluded)
        == spec_ranked(seed, pool, excluded).insert(p, x));
}

} // verus!
