//! Reunion negotiation and the node's periodic duties, as decisions on
//! plain values: which side is side A, whether an acknowledged reunion's
//! coordinates are acceptable, which subjects a reunion covers, and what
//! a tick owes the network.

use crate::collections::{set_insert, SortedSet};
use crate::id::SubjectId;
use crate::digest::RepairDigest;
use crate::merge::engine::{MergeSide, MergeSideV};
use crate::net::gossip::{material_divergence, spec_material_divergence};
use crate::order::{lemma_lex_order_antisym, lex_order};
use crate::witnessing::{max_round, rendezvous_jitter, rendezvous_round};
use vstd::prelude::*;

verus! {

pub const PRESENCE_DEBOUNCE_ROUNDS: u64 = 5;

pub const CLAIM_REFRESH_ROUNDS: u64 = 15;

pub const DIGEST_SHARE_ROUNDS: u64 = 10;

/// Deterministic orientation: the side with the lower digest hash is side
/// A, so every participant computes the identical reunion input.
pub fn mine_is_side_a(my_hash: &[u8; 32], their_hash: &[u8; 32]) -> (r: bool)
    ensures
        r == (lex_order(my_hash@, their_hash@) <= 0),
{
    crate::order::compare_bytes(my_hash.as_slice(), their_hash.as_slice()) <= 0
}

/// Two nodes with different digests always disagree on which of them is
/// side A, so both build the same reunion input; with equal digests there
/// is nothing to reunite.
pub proof fn lemma_orientation_agrees(mine: Seq<u8>, theirs: Seq<u8>)
    requires
        mine != theirs,
    ensures
        (lex_order(mine, theirs) <= 0) != (lex_order(theirs, mine) <= 0),
{
    lemma_lex_order_antisym(mine, theirs);
}

/// The rendezvous round this node would derive for a digest pair.
pub open spec fn own_rendezvous(my_round: u64, lo: Seq<u8>, hi: Seq<u8>) -> int {
    my_round + 16 + rendezvous_jitter(lo, hi)
}

/// An acknowledged round is acceptable if it lies within 64 rounds of what
/// this node would derive itself (the peer may have advertised a higher
/// local round).
pub open spec fn spec_expected_round(my_round: u64, lo: Seq<u8>, hi: Seq<u8>, round: u64) -> bool {
    let floor = own_rendezvous(my_round, lo, hi);
    round >= (if floor >= 64 { floor - 64 } else { 0 }) && round <= floor + 64
}

pub fn expected_round(my_round: u64, lo: &[u8; 32], hi: &[u8; 32], round: u64) -> (r: bool)
    requires
        my_round <= u64::MAX - 95,
    ensures
        r == spec_expected_round(my_round, lo@, hi@, round),
{
    let rounds: [u64; 1] = [my_round];
    proof {
        reveal_with_fuel(max_round, 2);
        assert(rounds@.drop_last() =~= Seq::<u64>::empty());
        assert(max_round(rounds@) == my_round);
    }
    let floor = rendezvous_round(rounds.as_slice(), lo, hi).0;
    round >= floor.saturating_sub(64) && round <= floor + 64
}

/// Whether a peer's acknowledgment names this node's scope, this node's
/// digest and the requester's digest as the pair, and an acceptable
/// round: only then does this node apply the same reunion.
pub open spec fn spec_ack_agrees(
    same_scope: bool,
    my_digest: Option<Seq<u8>>,
    lo: Seq<u8>,
    hi: Seq<u8>,
    requester_digest: Seq<u8>,
    my_round: u64,
    round: u64,
) -> bool {
    same_scope && (my_digest matches Some(h) && (h == lo || h == hi)) && (requester_digest == lo
        || requester_digest == hi) && spec_expected_round(my_round, lo, hi, round)
}

pub fn ack_agrees(
    same_scope: bool,
    my_digest: Option<&[u8; 32]>,
    lo: &[u8; 32],
    hi: &[u8; 32],
    requester_digest: &[u8; 32],
    my_round: u64,
    round: u64,
) -> (r: bool)
    requires
        my_round <= u64::MAX - 95,
    ensures
        r == spec_ack_agrees(
            same_scope,
            match my_digest {
                Some(h) => Some(h@),
                None => None,
            },
            lo@,
            hi@,
            requester_digest@,
            my_round,
            round,
        ),
{
    if !same_scope {
        return false;
    }
    let mine = match my_digest {
        Some(h) => crate::order::bytes_equal(h.as_slice(), lo.as_slice()) || crate::order::bytes_equal(
            h.as_slice(),
            hi.as_slice(),
        ),
        None => false,
    };
    let theirs = crate::order::bytes_equal(requester_digest.as_slice(), lo.as_slice())
        || crate::order::bytes_equal(requester_digest.as_slice(), hi.as_slice());
    mine && theirs && expected_round(my_round, lo, hi, round)
}

/// Insert every key, in order, into a sorted set.
pub open spec fn insert_all(s: Seq<Seq<char>>, keys: Seq<Seq<char>>) -> Seq<Seq<char>>
    decreases keys.len(),
{
    if keys.len() == 0 {
        s
    } else {
        set_insert::<SubjectId>(insert_all(s, keys.drop_last()), keys.last())
    }
}

/// The subjects a reunion covers: the union of both sides' subjects, in
/// key order, each once.
pub open spec fn spec_reunion_subjects(a: Seq<(Seq<char>, crate::merge::BeliefFragment)>, b: Seq<(Seq<char>, crate::merge::BeliefFragment)>) -> Seq<Seq<char>> {
    insert_all(insert_all(Seq::empty(), crate::collections::keys_of(a)), crate::collections::keys_of(b))
}

fn insert_keys(set: &mut SortedSet<SubjectId>, side: &MergeSide)
    ensures
        final(set)@ == insert_all(old(set)@, crate::collections::keys_of(side@.fragments)),
{
    let ghost keys = crate::collections::keys_of(side@.fragments);
    let ghost s0 = set@;
    let mut k: usize = 0;
    while k < side.fragments.len()
        invariant
            k <= keys.len(),
            keys == crate::collections::keys_of(side@.fragments),
            set@ == insert_all(s0, keys.subrange(0, k as int)),
        decreases keys.len() - k,
    {
        let key = side.fragments.key_at(k).duplicate();
        proof {
            let next = keys.subrange(0, k + 1);
            assert(next.drop_last() =~= keys.subrange(0, k as int));
            assert(next.last() == key@);
        }
        set.insert(key);
        k = k + 1;
    }
    assert(keys.subrange(0, k as int) =~= keys);
}

pub fn reunion_subjects(side_a: &MergeSide, side_b: &MergeSide) -> (r: Vec<SubjectId>)
    ensures
        r@.map_values(|s: SubjectId| s@) == spec_reunion_subjects(side_a@.fragments, side_b@.fragments),
{
    let mut set: SortedSet<SubjectId> = SortedSet::new();
    insert_keys(&mut set, side_a);
    insert_keys(&mut set, side_b);
    let ghost sv = set@;
    let mut out: Vec<SubjectId> = Vec::new();
    let mut k: usize = 0;
    while k < set.len()
        invariant
            k <= sv.len(),
            sv == set@,
            out@.map_values(|s: SubjectId| s@) == sv.subrange(0, k as int),
        decreases sv.len() - k,
    {
        let ghost before = out@;
        out.push(set.at(k).duplicate());
        proof {
            assert(out@.map_values(|s: SubjectId| s@) =~= before.map_values(|s: SubjectId| s@).push(sv[k as int]));
        }
        k = k + 1;
        assert(out@.map_values(|s: SubjectId| s@) =~= sv.subrange(0, k as int));
    }
    assert(sv.subrange(0, k as int) =~= sv);
    out
}

/// What a tick owes the network at `round`.
#[derive(Debug, Clone, Copy, PartialEq, Eq, Structural)]
pub struct TickDuties {
    pub share_digest: bool,
    pub reshare_claims: bool,
    pub redial_pending: bool,
}

pub fn tick_duties(round: u64) -> (r: TickDuties)
    ensures
        r == (TickDuties {
            share_digest: round % DIGEST_SHARE_ROUNDS == 0,
            reshare_claims: round % CLAIM_REFRESH_ROUNDS == 0,
            redial_pending: round % 3 == 0,
        }),
{
    TickDuties {
        share_digest: round % DIGEST_SHARE_ROUNDS == 0,
        reshare_claims: round % CLAIM_REFRESH_ROUNDS == 0,
        redial_pending: round % 3 == 0,
    }
}

/// Debounced liveness witnessing: a successful ping is witnessed only once
/// per debounce window.
pub fn liveness_due(round: u64, last_observation_round: u64) -> (r: bool)
    ensures
        r == (if round >= last_observation_round {
            round - last_observation_round
        } else {
            0
        } >= PRESENCE_DEBOUNCE_ROUNDS),
{
    round.saturating_sub(last_observation_round) >= PRESENCE_DEBOUNCE_ROUNDS
}

/// What a node does with a peer's digest.
#[derive(Debug, Clone, Copy, PartialEq, Eq, Structural)]
pub enum DigestStep {
    /// Same content, no view yet, or this pair already reunited.
    Ignore,
    /// Record the digest; the divergence is not material, or a
    /// negotiation with this peer is already under way.
    Record,
    /// Record the digest and ask the peer for its full view.
    RecordAndFetch,
}

/// Reunion is a repair surface, not a ramp-up mechanism: a node fetches a
/// peer's full view only on material divergence, once per digest pair,
/// and one negotiation per peer at a time.
pub open spec fn spec_digest_step(
    local: Option<crate::digest::RepairDigestV>,
    remote: crate::digest::RepairDigestV,
    pair_done: bool,
    negotiating: bool,
) -> DigestStep {
    match local {
        None => DigestStep::Ignore,
        Some(l) => if l.content_hash == remote.content_hash || pair_done {
            DigestStep::Ignore
        } else if !spec_material_divergence(l, remote) || negotiating {
            DigestStep::Record
        } else {
            DigestStep::RecordAndFetch
        },
    }
}

pub fn digest_step(local: Option<&RepairDigest>, remote: &RepairDigest, pair_done: bool, negotiating: bool) -> (r: DigestStep)
    ensures
        r == spec_digest_step(
            match local {
                Some(d) => Some(d@),
                None => None,
            },
            remote@,
            pair_done,
            negotiating,
        ),
{
    match local {
        None => DigestStep::Ignore,
        Some(l) => {
            if crate::order::bytes_equal(l.content_hash.as_slice(), remote.content_hash.as_slice()) || pair_done {
                DigestStep::Ignore
            } else if !material_divergence(l, remote) || negotiating {
                DigestStep::Record
            } else {
                DigestStep::RecordAndFetch
            }
        },
    }
}

/// A reunion this node has proposed and awaits the peer's
/// acknowledgment of.
pub struct PendingReunion {
    pub round: u64,
    pub side_a: MergeSide,
    pub side_b: MergeSide,
    pub digest_lo: [u8; 32],
    pub digest_hi: [u8; 32],
}

pub open spec fn max_u64(a: u64, b: u64) -> u64 {
    if a >= b {
        a
    } else {
        b
    }
}

/// The reunion two nodes with different digests agree on: the side with
/// the lower digest hash is side A, and the rendezvous round lies past
/// both nodes' rounds.
pub open spec fn plan_matches(
    p: PendingReunion,
    mine: MergeSideV,
    my_hash: Seq<u8>,
    theirs: MergeSideV,
    their_hash: Seq<u8>,
    my_round: u64,
    their_round: u64,
) -> bool {
    &&& if lex_order(my_hash, their_hash) <= 0 {
        &&& p.side_a@ == mine
        &&& p.side_b@ == theirs
        &&& p.digest_lo@ == my_hash
        &&& p.digest_hi@ == their_hash
    } else {
        &&& p.side_a@ == theirs
        &&& p.side_b@ == mine
        &&& p.digest_lo@ == their_hash
        &&& p.digest_hi@ == my_hash
    }
    &&& p.round == max_u64(my_round, their_round) + 16 + rendezvous_jitter(my_hash, their_hash)
}

pub fn plan_reunion(
    mine: MergeSide,
    my_hash: &[u8; 32],
    theirs: MergeSide,
    their_hash: &[u8; 32],
    my_round: u64,
    their_round: u64,
) -> (r: Option<PendingReunion>)
    requires
        my_round <= u64::MAX - 31,
        their_round <= u64::MAX - 31,
    ensures
        my_hash@ == their_hash@ ==> r is None,
        my_hash@ != their_hash@ ==> (r matches Some(p) && plan_matches(
            p,
            mine@,
            my_hash@,
            theirs@,
            their_hash@,
            my_round,
            their_round,
        )),
{
    if crate::order::bytes_equal(my_hash.as_slice(), their_hash.as_slice()) {
        return None;
    }
    let rounds: [u64; 2] = [my_round, their_round];
    proof {
        reveal_with_fuel(max_round, 3);
        assert(rounds@.drop_last() =~= seq![my_round]);
        assert(seq![my_round].drop_last() =~= Seq::<u64>::empty());
        assert(max_round(rounds@) == max_u64(my_round, their_round));
    }
    let round = rendezvous_round(rounds.as_slice(), my_hash, their_hash).0;
    if mine_is_side_a(my_hash, their_hash) {
        Some(PendingReunion { round, side_a: mine, side_b: theirs, digest_lo: *my_hash, digest_hi: *their_hash })
    } else {
        Some(PendingReunion { round, side_a: theirs, side_b: mine, digest_lo: *their_hash, digest_hi: *my_hash })
    }
}

/// Both participants plan the identical reunion: the same sides in the
/// same roles, the same digest pair, and the same rendezvous round, so
/// their kernels mint the same residue.
pub proof fn lemma_both_sides_plan_alike(
    p: PendingReunion,
    q: PendingReunion,
    x: MergeSideV,
    x_hash: Seq<u8>,
    y: MergeSideV,
    y_hash: Seq<u8>,
    x_round: u64,
    y_round: u64,
)
    requires
        x_hash != y_hash,
        plan_matches(p, x, x_hash, y, y_hash, x_round, y_round),
        plan_matches(q, y, y_hash, x, x_hash, y_round, x_round),
    ensures
        p.side_a@ == q.side_a@,
        p.side_b@ == q.side_b@,
        p.digest_lo@ == q.digest_lo@,
        p.digest_hi@ == q.digest_hi@,
        p.round == q.round,
{
    lemma_lex_order_antisym(x_hash, y_hash);
    assert(rendezvous_jitter(x_hash, y_hash) == rendezvous_jitter(y_hash, x_hash));
}

} // verus!
