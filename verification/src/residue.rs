//! Residue: unresolved disagreement that must remain visible.
//!
//! `Residue` has no public constructor (only the merge engine creates it)
//! and `ResidueLedger` has no public remove. The only exits are `resolve`
//! (with evidence, into the resolved record) and superseding by a fresher
//! entry of the same tension class, a visible replacement.

use crate::belief::state::{state_name, BeliefState};
use crate::collections::{
    key_lt, keys_of, keys_sorted, lemma_lower_bound_props, lower_bound, map_get, map_insert, map_remove, SortedMap,
};
use crate::encode::{framed_str, le_u64, write_bytes, write_str, write_u64};
use crate::epoch::{Epoch, Round};
use crate::hash::{blake3_digest, blake3_hash};
use crate::id::{OverrideId, ResidueId, SubjectId, WitnessRecordId};
use crate::scope::ScopeId;
use crate::util::NonEmpty;
use vstd::prelude::*;
use vstd::utf8::encode_utf8;

verus! {

/// The key of scoped belief: different scopes may legitimately hold
/// different views of the same subject at the same time.
#[derive(Debug, Clone, PartialEq, Eq, PartialOrd, Ord, Hash)]
pub struct BeliefKey {
    pub scope: ScopeId,
    pub subject: SubjectId,
}

impl View for BeliefKey {
    type V = (Seq<char>, Seq<char>);

    open spec fn view(&self) -> (Seq<char>, Seq<char>) {
        (self.scope@, self.subject@)
    }
}

impl BeliefKey {
    pub fn duplicate(&self) -> (r: Self)
        ensures
            r@ == self@,
    {
        BeliefKey { scope: self.scope.duplicate(), subject: self.subject.duplicate() }
    }
}

/// One side of a preserved conflict.
#[derive(Debug, Clone, PartialEq, Eq, PartialOrd, Ord)]
pub struct TensionSide {
    /// Which view/island/source contributed this position.
    pub source: String,
    pub state: BeliefState,
    pub epoch: Epoch,
}

pub struct TensionSideV {
    pub source: Seq<char>,
    pub state: BeliefState,
    pub epoch: Epoch,
}

impl View for TensionSide {
    type V = TensionSideV;

    open spec fn view(&self) -> TensionSideV {
        TensionSideV { source: self.source@, state: self.state, epoch: self.epoch }
    }
}

/// The opposing positions that could not be honestly flattened.
#[derive(Debug, Clone, PartialEq, Eq, PartialOrd, Ord)]
pub struct ConflictTension {
    pub sides: Vec<TensionSide>,
    pub detail: String,
}

pub struct ConflictTensionV {
    pub sides: Seq<TensionSideV>,
    pub detail: Seq<char>,
}

impl View for ConflictTension {
    type V = ConflictTensionV;

    open spec fn view(&self) -> ConflictTensionV {
        ConflictTensionV {
            sides: self.sides@.map_values(|s: TensionSide| s@),
            detail: self.detail@,
        }
    }
}

/// The bytes that identify a tension's class: each side's source and state.
pub open spec fn sides_class_bytes(sides: Seq<TensionSideV>) -> Seq<u8>
    decreases sides.len(),
{
    if sides.len() == 0 {
        Seq::empty()
    } else {
        sides_class_bytes(sides.drop_last()) + framed_str(sides.last().source) + framed_str(
            state_name(sides.last().state),
        )
    }
}

impl ConflictTension {
    pub fn duplicate(&self) -> (r: Self)
        ensures
            r@ == self@,
    {
        let mut sides: Vec<TensionSide> = Vec::new();
        let mut i: usize = 0;
        while i < self.sides.len()
            invariant
                i <= self.sides@.len(),
                sides@.len() == i,
                forall|j: int| 0 <= j < i ==> (#[trigger] sides@[j])@ == self.sides@[j]@,
            decreases self.sides@.len() - i,
        {
            let s = &self.sides[i];
            sides.push(TensionSide { source: s.source.clone(), state: s.state, epoch: s.epoch });
            i = i + 1;
        }
        let r = ConflictTension { sides, detail: self.detail.clone() };
        assert(r@.sides =~= self@.sides);
        r
    }

    /// The dedup class for superseding: same key + same opposing state
    /// pair counts as the same tension.
    fn write_class(&self, out: &mut Vec<u8>)
        ensures
            final(out)@ == old(out)@ + sides_class_bytes(self@.sides),
    {
        let ghost start = out@;
        let mut i: usize = 0;
        while i < self.sides.len()
            invariant
                i <= self.sides@.len(),
                out@ == start + sides_class_bytes(self@.sides.subrange(0, i as int)),
            decreases self.sides@.len() - i,
        {
            write_str(out, self.sides[i].source.as_str());
            write_str(out, self.sides[i].state.as_str());
            proof {
                let next = self@.sides.subrange(0, i + 1);
                assert(next.drop_last() =~= self@.sides.subrange(0, i as int));
                assert(next.last() == self.sides@[i as int]@);
            }
            i = i + 1;
            assert(out@ =~= start + sides_class_bytes(self@.sides.subrange(0, i as int)));
        }
        assert(self@.sides.subrange(0, i as int) =~= self@.sides);
    }
}

/// What justifies closing a residue entry.
#[derive(Debug, Clone, PartialEq, Eq)]
pub enum ResolutionEvidence {
    /// Fresh corroboration settled the tension.
    Corroborated(NonEmpty<WitnessRecordId>),
    /// A visible operator override took responsibility for it.
    Override(OverrideId),
}

pub enum ResolutionEvidenceV {
    Corroborated(Seq<WitnessRecordId>),
    Override(OverrideId),
}

impl View for ResolutionEvidence {
    type V = ResolutionEvidenceV;

    open spec fn view(&self) -> ResolutionEvidenceV {
        match self {
            ResolutionEvidence::Corroborated(r) => ResolutionEvidenceV::Corroborated(r@),
            ResolutionEvidence::Override(id) => ResolutionEvidenceV::Override(*id),
        }
    }
}

/// A preserved piece of unresolved disagreement, privately constructed.
#[derive(Debug)]
pub struct Residue {
    id: ResidueId,
    key: BeliefKey,
    tension: ConflictTension,
    born: (Epoch, Round),
    /// Set when a visible override took responsibility. The residue stays
    /// in the ledger: an override marks a scar, it does not erase one.
    handled_by: Option<OverrideId>,
}

pub struct ResidueV {
    pub id: ResidueId,
    pub key: (Seq<char>, Seq<char>),
    pub tension: ConflictTensionV,
    pub born: (Epoch, Round),
    pub handled_by: Option<OverrideId>,
}

impl View for Residue {
    type V = ResidueV;

    closed spec fn view(&self) -> ResidueV {
        ResidueV {
            id: self.id,
            key: self.key@,
            tension: self.tension@,
            born: self.born,
            handled_by: self.handled_by,
        }
    }
}

impl Clone for Residue {
    fn clone(&self) -> (r: Self)
        ensures
            r@ == self@,
    {
        self.duplicate()
    }
}

/// The bytes a residue id is hashed from.
pub open spec fn residue_id_bytes(key: (Seq<char>, Seq<char>), tension: ConflictTensionV, born: (Epoch, Round)) -> Seq<u8> {
    encode_utf8("resonant/residue/v1"@) + framed_str(key.0) + framed_str(key.1) + sides_class_bytes(
        tension.sides,
    ) + framed_str(tension.detail) + le_u64(born.0.0) + le_u64(born.1.0)
}

/// A residue's tension class: its key plus the sides' sources and states.
pub open spec fn tension_class(r: ResidueV) -> Seq<u8> {
    framed_str(r.key.0) + framed_str(r.key.1) + sides_class_bytes(r.tension.sides)
}

impl Residue {
    /// Mint a residue: its id is the BLAKE3 digest of its key, tension,
    /// and birth coordinates. Starts unhandled.
    pub(crate) fn new(key: BeliefKey, tension: ConflictTension, born: (Epoch, Round)) -> (r: Self)
        ensures
            r@.key == key@,
            r@.tension == tension@,
            r@.born == born,
            r@.handled_by.is_none(),
            r@.id.spec_bytes() == blake3_digest(residue_id_bytes(key@, tension@, born)),
    {
        let mut bytes: Vec<u8> = Vec::new();
        write_bytes(&mut bytes, "resonant/residue/v1".as_bytes());
        write_str(&mut bytes, key.scope.as_str());
        write_str(&mut bytes, key.subject.as_str());
        tension.write_class(&mut bytes);
        write_str(&mut bytes, tension.detail.as_str());
        write_u64(&mut bytes, born.0.0);
        write_u64(&mut bytes, born.1.0);
        assert(bytes@ =~= residue_id_bytes(key@, tension@, born));
        let id = ResidueId::from_bytes(blake3_hash(bytes.as_slice()));
        Residue { id, key, tension, born, handled_by: None }
    }

    pub fn duplicate(&self) -> (r: Self)
        ensures
            r@ == self@,
    {
        Residue {
            id: self.id,
            key: self.key.duplicate(),
            tension: self.tension.duplicate(),
            born: self.born,
            handled_by: self.handled_by,
        }
    }

    pub fn id(&self) -> (r: ResidueId)
        ensures
            r == self@.id,
    {
        self.id
    }

    pub fn key(&self) -> (r: &BeliefKey)
        ensures
            r@ == self@.key,
    {
        &self.key
    }

    pub fn tension(&self) -> (r: &ConflictTension)
        ensures
            r@ == self@.tension,
    {
        &self.tension
    }

    pub fn born(&self) -> (r: (Epoch, Round))
        ensures
            r == self@.born,
    {
        self.born
    }

    pub fn handled_by(&self) -> (r: Option<OverrideId>)
        ensures
            r == self@.handled_by,
    {
        self.handled_by
    }

    pub(crate) fn mark_handled(&mut self, by: OverrideId)
        ensures
            final(self)@ == (ResidueV { handled_by: Some(by), ..old(self)@ }),
    {
        self.handled_by = Some(by);
    }

    fn write_tension_class(&self, out: &mut Vec<u8>)
        ensures
            final(out)@ == old(out)@ + tension_class(self@),
    {
        write_str(out, self.key.scope.as_str());
        write_str(out, self.key.subject.as_str());
        self.tension.write_class(out);
        assert(final(out)@ =~= old(out)@ + tension_class(self@));
    }

    fn tension_class_bytes(&self) -> (r: Vec<u8>)
        ensures
            r@ == tension_class(self@),
    {
        let mut out: Vec<u8> = Vec::new();
        self.write_tension_class(&mut out);
        assert(out@ =~= tension_class(self@));
        out
    }
}

/// A closed residue entry: the tension plus what closed it.
#[derive(Debug)]
pub struct ResolvedResidue {
    pub residue: Residue,
    pub evidence: ResolutionEvidence,
    pub at: (Epoch, Round),
}

pub struct ResolvedResidueV {
    pub residue: ResidueV,
    pub evidence: ResolutionEvidenceV,
    pub at: (Epoch, Round),
}

impl View for ResolvedResidue {
    type V = ResolvedResidueV;

    open spec fn view(&self) -> ResolvedResidueV {
        ResolvedResidueV { residue: self.residue@, evidence: self.evidence@, at: self.at }
    }
}

impl Clone for ResolvedResidue {
    fn clone(&self) -> (r: Self)
        ensures
            r@ == self@,
    {
        ResolvedResidue {
            residue: self.residue.duplicate(),
            evidence: match &self.evidence {
                ResolutionEvidence::Corroborated(records) => ResolutionEvidence::Corroborated(
                    records.duplicate(),
                ),
                ResolutionEvidence::Override(id) => ResolutionEvidence::Override(*id),
            },
            at: self.at,
        }
    }
}

#[derive(Debug, Clone, Copy, PartialEq, Eq)]
pub enum ResidueError {
    Unknown(ResidueId),
}

/// The ledger of live and resolved disagreement carried by every view.
#[derive(Debug, Clone)]
pub struct ResidueLedger {
    entries: SortedMap<ResidueId, Residue>,
    resolved: Vec<ResolvedResidue>,
}

pub struct ResidueLedgerV {
    pub entries: Seq<(ResidueId, ResidueV)>,
    pub resolved: Seq<ResolvedResidueV>,
}

impl View for ResidueLedger {
    type V = ResidueLedgerV;

    closed spec fn view(&self) -> ResidueLedgerV {
        ResidueLedgerV {
            entries: self.entries@,
            resolved: self.resolved@.map_values(|r: ResolvedResidue| r@),
        }
    }
}

/// First live entry of the given tension class, in ledger order.
pub open spec fn first_of_class(entries: Seq<(ResidueId, ResidueV)>, class: Seq<u8>) -> Option<int>
    decreases entries.len(),
{
    if entries.len() == 0 {
        None
    } else if tension_class(entries[0].1) == class {
        Some(0)
    } else {
        match first_of_class(entries.drop_first(), class) {
            Some(i) => Some(i + 1),
            None => None,
        }
    }
}

/// Insertion with superseding: a live entry of the same tension class is
/// replaced (visibly: its id is returned), then the new entry is stored.
pub open spec fn ledger_insert(entries: Seq<(ResidueId, ResidueV)>, r: ResidueV) -> (Seq<(ResidueId, ResidueV)>, Option<ResidueId>) {
    match first_of_class(entries, tension_class(r)) {
        Some(i) => (
            map_insert::<ResidueId, ResidueV>(
                map_remove::<ResidueId, ResidueV>(entries, entries[i].0),
                r.id,
                r,
            ),
            Some(entries[i].0),
        ),
        None => (map_insert::<ResidueId, ResidueV>(entries, r.id, r), None),
    }
}

pub open spec fn handled_if_subject(e: (ResidueId, ResidueV), subject: Seq<char>, by: OverrideId) -> (ResidueId, ResidueV) {
    if e.1.key.1 == subject && e.1.handled_by.is_none() {
        (e.0, ResidueV { handled_by: Some(by), ..e.1 })
    } else {
        e
    }
}

pub open spec fn count_marked(entries: Seq<(ResidueId, ResidueV)>, subject: Seq<char>) -> nat
    decreases entries.len(),
{
    if entries.len() == 0 {
        0
    } else {
        count_marked(entries.drop_last(), subject) + if entries.last().1.key.1 == subject
            && entries.last().1.handled_by.is_none() {
            1nat
        } else {
            0nat
        }
    }
}

pub open spec fn count_unhandled(entries: Seq<(ResidueId, ResidueV)>) -> nat
    decreases entries.len(),
{
    if entries.len() == 0 {
        0
    } else {
        count_unhandled(entries.drop_last()) + if entries.last().1.handled_by.is_none() {
            1nat
        } else {
            0nat
        }
    }
}

impl ResidueLedger {
    pub fn new() -> (r: Self)
        ensures
            r@.entries == Seq::<(ResidueId, ResidueV)>::empty(),
            r@.resolved == Seq::<ResolvedResidueV>::empty(),
    {
        let r = ResidueLedger { entries: SortedMap::new(), resolved: Vec::new() };
        assert(r@.resolved =~= Seq::<ResolvedResidueV>::empty());
        r
    }

    /// Insert new residue, superseding any live entry of the same tension
    /// class (visible replacement, not silent dedup). Returns the id of
    /// the superseded entry, if any.
    pub(crate) fn insert(&mut self, residue: Residue) -> (r: Option<ResidueId>)
        ensures
            (final(self)@.entries, r) == ledger_insert(old(self)@.entries, residue@),
            final(self)@.resolved == old(self)@.resolved,
    {
        let class = residue.tension_class_bytes();
        let ghost entries = self.entries@;
        let mut i: usize = 0;
        let mut found: Option<ResidueId> = None;
        while i < self.entries.len()
            invariant_except_break
                found.is_none(),
                forall|j: int| 0 <= j < i ==> tension_class(#[trigger] entries[j].1) != class@,
            invariant
                i <= entries.len(),
                self.entries@ == entries,
                class@ == tension_class(residue@),
            ensures
                found.is_none() ==> forall|j: int|
                    0 <= j < entries.len() ==> tension_class(#[trigger] entries[j].1) != class@,
                found matches Some(old_id) ==> first_of_class(entries, class@) matches Some(k)
                    && entries[k].0 == old_id,
            decreases entries.len() - i,
        {
            let existing = self.entries.value_at(i).tension_class_bytes();
            if crate::order::bytes_equal(existing.as_slice(), class.as_slice()) {
                found = Some(*self.entries.key_at(i));
                proof {
                    lemma_first_of_class_is(entries, class@, i as int);
                }
                break;
            }
            i = i + 1;
        }
        proof {
            if found.is_none() {
                lemma_first_of_class_none(entries, class@);
            }
        }
        if let Some(old_id) = found {
            let _ = self.entries.remove(&old_id);
        }
        let id = residue.id;
        self.entries.insert(id, residue);
        found
    }

    /// Mark every live residue for a subject as handled by a visible
    /// override. The entries stay in the ledger. Returns how many entries
    /// were marked.
    pub(crate) fn mark_all_handled(&mut self, subject: &SubjectId, by: OverrideId) -> (n: usize)
        ensures
            final(self)@.entries == old(self)@.entries.map_values(
                |e: (ResidueId, ResidueV)| handled_if_subject(e, subject@, by),
            ),
            final(self)@.resolved == old(self)@.resolved,
            n == count_marked(old(self)@.entries, subject@),
    {
        let ghost start = self.entries@;
        let mut marked: usize = 0;
        let mut i: usize = 0;
        while i < self.entries.len()
            invariant
                self.entries@.len() == start.len(),
                i <= start.len(),
                marked == count_marked(start.subrange(0, i as int), subject@),
                marked <= i,
                forall|j: int|
                    0 <= j < i ==> #[trigger] self.entries@[j] == handled_if_subject(
                        start[j],
                        subject@,
                        by,
                    ),
                forall|j: int| i <= j < start.len() ==> #[trigger] self.entries@[j] == start[j],
                self@.resolved == old(self)@.resolved,
            decreases start.len() - i,
        {
            let matches = self.entries.value_at(i).key.subject.same(subject);
            let unhandled = self.entries.value_at(i).handled_by.is_none();
            proof {
                let next = start.subrange(0, i + 1);
                assert(next.drop_last() =~= start.subrange(0, i as int));
            }
            if matches && unhandled {
                let mut r = self.entries.value_at(i).duplicate();
                r.mark_handled(by);
                self.entries.set_value_at(i, r);
                marked = marked + 1;
            }
            i = i + 1;
        }
        assert(start.subrange(0, i as int) =~= start);
        assert(self@.entries =~= start.map_values(
            |e: (ResidueId, ResidueV)| handled_if_subject(e, subject@, by),
        ));
        marked
    }

    /// Close a residue entry with evidence. The entry moves to the resolved
    /// record; its existence is never erased.
    pub fn resolve(&mut self, id: ResidueId, evidence: ResolutionEvidence, at: (Epoch, Round)) -> (r: Result<ResolvedResidue, ResidueError>)
        ensures
            match map_get::<ResidueId, ResidueV>(old(self)@.entries, id) {
                Some(res) => {
                    &&& r matches Ok(rec) && rec@ == (ResolvedResidueV {
                        residue: res,
                        evidence: evidence@,
                        at,
                    })
                    &&& final(self)@.entries == map_remove::<ResidueId, ResidueV>(
                        old(self)@.entries,
                        id,
                    )
                    &&& final(self)@.resolved == old(self)@.resolved.push(
                        ResolvedResidueV { residue: res, evidence: evidence@, at },
                    )
                },
                None => r == Err::<ResolvedResidue, ResidueError>(ResidueError::Unknown(id))
                    && final(self)@ == old(self)@,
            },
    {
        match self.entries.remove(&id) {
            Some(residue) => {
                let record = ResolvedResidue { residue, evidence, at };
                let ghost before = self.resolved@;
                self.resolved.push(record.clone());
                assert(self.resolved@.map_values(|r: ResolvedResidue| r@) =~= before.map_values(
                    |r: ResolvedResidue| r@,
                ).push(record@));
                Ok(record)
            },
            None => Err(ResidueError::Unknown(id)),
        }
    }

    /// The live entries, in id order.
    pub fn entries(&self) -> (r: &SortedMap<ResidueId, Residue>)
        ensures
            r@ == self@.entries,
    {
        &self.entries
    }

    /// Copies of the live entries, in id order.
    pub fn iter(&self) -> (r: Vec<Residue>)
        ensures
            r@.map_values(|x: Residue| x@) == self@.entries.map_values(
                |e: (ResidueId, ResidueV)| e.1,
            ),
    {
        let mut out: Vec<Residue> = Vec::new();
        let mut i: usize = 0;
        while i < self.entries.len()
            invariant
                i <= self@.entries.len(),
                out@.len() == i,
                forall|j: int| 0 <= j < i ==> (#[trigger] out@[j])@ == self@.entries[j].1,
            decreases self@.entries.len() - i,
        {
            out.push(self.entries.value_at(i).duplicate());
            i = i + 1;
        }
        assert(out@.map_values(|x: Residue| x@) =~= self@.entries.map_values(
            |e: (ResidueId, ResidueV)| e.1,
        ));
        out
    }

    /// Live residue ids, in order. Ids are never dropped.
    pub fn ids(&self) -> (r: Vec<ResidueId>)
        ensures
            r@ == self@.entries.map_values(|e: (ResidueId, ResidueV)| e.0),
    {
        let mut out: Vec<ResidueId> = Vec::new();
        let mut i: usize = 0;
        while i < self.entries.len()
            invariant
                i <= self@.entries.len(),
                out@ == self@.entries.subrange(0, i as int).map_values(
                    |e: (ResidueId, ResidueV)| e.0,
                ),
            decreases self@.entries.len() - i,
        {
            out.push(*self.entries.key_at(i));
            i = i + 1;
            assert(out@ =~= self@.entries.subrange(0, i as int).map_values(
                |e: (ResidueId, ResidueV)| e.0,
            ));
        }
        assert(self@.entries.subrange(0, i as int) =~= self@.entries);
        out
    }

    pub fn len(&self) -> (n: usize)
        ensures
            n == self@.entries.len(),
    {
        self.entries.len()
    }

    pub fn is_empty(&self) -> (b: bool)
        ensures
            b == (self@.entries.len() == 0),
    {
        self.entries.is_empty()
    }

    /// How many live entries no override has taken responsibility for.
    pub fn unhandled(&self) -> (n: usize)
        ensures
            n == count_unhandled(self@.entries),
    {
        let mut n: usize = 0;
        let mut i: usize = 0;
        while i < self.entries.len()
            invariant
                i <= self@.entries.len(),
                n == count_unhandled(self@.entries.subrange(0, i as int)),
                n <= i,
            decreases self@.entries.len() - i,
        {
            proof {
                let next = self@.entries.subrange(0, i + 1);
                assert(next.drop_last() =~= self@.entries.subrange(0, i as int));
            }
            if self.entries.value_at(i).handled_by.is_none() {
                n = n + 1;
            }
            i = i + 1;
        }
        assert(self@.entries.subrange(0, i as int) =~= self@.entries);
        n
    }

    pub fn resolved(&self) -> (r: &Vec<ResolvedResidue>)
        ensures
            r@.map_values(|x: ResolvedResidue| x@) == self@.resolved,
    {
        &self.resolved
    }
}

proof fn lemma_first_of_class_is(entries: Seq<(ResidueId, ResidueV)>, class: Seq<u8>, i: int)
    requires
        0 <= i < entries.len(),
        tension_class(entries[i].1) == class,
        forall|j: int| 0 <= j < i ==> tension_class(#[trigger] entries[j].1) != class,
    ensures
        first_of_class(entries, class) == Some(i),
    decreases i,
{
    if i > 0 {
        let t = entries.drop_first();
        assert forall|j: int| 0 <= j < i - 1 implies tension_class(#[trigger] t[j].1) != class by {
            assert(t[j] == entries[j + 1]);
        }
        lemma_first_of_class_is(t, class, i - 1);
    }
}

proof fn lemma_first_of_class_none(entries: Seq<(ResidueId, ResidueV)>, class: Seq<u8>)
    requires
        forall|j: int| 0 <= j < entries.len() ==> tension_class(#[trigger] entries[j].1) != class,
    ensures
        first_of_class(entries, class).is_none(),
    decreases entries.len(),
{
    if entries.len() > 0 {
        let t = entries.drop_first();
        assert forall|j: int| 0 <= j < t.len() implies tension_class(#[trigger] t[j].1) != class by {
            assert(t[j] == entries[j + 1]);
        }
        lemma_first_of_class_none(t, class);
    }
}

/// No two entries share a tension class.
pub open spec fn classes_distinct(entries: Seq<(ResidueId, ResidueV)>) -> bool {
    forall|i: int, j: int|
        0 <= i < j < entries.len() ==> tension_class(#[trigger] entries[i].1) != tension_class(
            #[trigger] entries[j].1,
        )
}

proof fn lemma_first_of_class_props(entries: Seq<(ResidueId, ResidueV)>, class: Seq<u8>)
    ensures
        match first_of_class(entries, class) {
            Some(i) => 0 <= i < entries.len() && tension_class(entries[i].1) == class,
            None => forall|j: int| 0 <= j < entries.len() ==> tension_class(#[trigger] entries[j].1) != class,
        },
    decreases entries.len(),
{
    if entries.len() > 0 && tension_class(entries[0].1) != class {
        let t = entries.drop_first();
        lemma_first_of_class_props(t, class);
        match first_of_class(t, class) {
            Some(i) => {
                assert(entries[i + 1] == t[i]);
            },
            None => {
                assert forall|j: int| 0 <= j < entries.len() implies tension_class(#[trigger] entries[j].1) != class by {
                    if j > 0 {
                        assert(entries[j] == t[j - 1]);
                    }
                }
            },
        }
    }
}

/// Inserting an entry whose class no entry has keeps the classes distinct.
proof fn lemma_insert_new_class(entries: Seq<(ResidueId, ResidueV)>, r: ResidueV)
    requires
        classes_distinct(entries),
        forall|j: int| 0 <= j < entries.len() ==> tension_class(#[trigger] entries[j].1) != tension_class(r),
    ensures
        classes_distinct(map_insert::<ResidueId, ResidueV>(entries, r.id, r)),
{
    let ks = keys_of(entries);
    let p = lower_bound::<ResidueId>(ks, r.id);
    lemma_lower_bound_props::<ResidueId>(ks, r.id);
    let out = map_insert::<ResidueId, ResidueV>(entries, r.id, r);
    if p < entries.len() && entries[p].0 == r.id {
        assert(out == entries.update(p, (r.id, r)));
        assert forall|i: int, j: int| 0 <= i < j < out.len() implies tension_class(#[trigger] out[i].1) != tension_class(
            #[trigger] out[j].1,
        ) by {
            if i != p && j != p {
                assert(out[i] == entries[i]);
                assert(out[j] == entries[j]);
            } else if i == p {
                assert(out[j] == entries[j]);
            } else {
                assert(out[i] == entries[i]);
            }
        }
    } else {
        assert(out == entries.insert(p, (r.id, r)));
        assert forall|i: int, j: int| 0 <= i < j < out.len() implies tension_class(#[trigger] out[i].1) != tension_class(
            #[trigger] out[j].1,
        ) by {
            let oi = if i < p { i } else { i - 1 };
            let oj = if j < p { j } else { j - 1 };
            if i == p {
                assert(out[j] == entries[oj]);
            } else if j == p {
                assert(out[i] == entries[oi]);
            } else {
                assert(out[i] == entries[oi]);
                assert(out[j] == entries[oj]);
                assert(oi < oj);
            }
        }
    }
}

/// Superseding keeps the ledger free of duplicates: in a ledger whose ids
/// are sorted and whose entries all differ in tension class, an insertion
/// leaves every tension class with at most one live entry.
pub proof fn lemma_insert_keeps_classes_distinct(entries: Seq<(ResidueId, ResidueV)>, r: ResidueV)
    requires
        keys_sorted::<ResidueId>(keys_of(entries)),
        classes_distinct(entries),
    ensures
        classes_distinct(ledger_insert(entries, r).0),
{
    let c = tension_class(r);
    lemma_first_of_class_props(entries, c);
    match first_of_class(entries, c) {
        Some(i) => {
            let key = entries[i].0;
            let ks = keys_of(entries);
            let q = lower_bound::<ResidueId>(ks, key);
            lemma_lower_bound_props::<ResidueId>(ks, key);
            assert(ks[i] == key);
            if q < i {
                assert(key_lt::<ResidueId>(ks[q], ks[i]));
            }
            if q > i {
                assert(key_lt::<ResidueId>(ks[i], key));
                crate::collections::lemma_key_trichotomy::<ResidueId>(key, key);
            }
            assert(q == i);
            let removed = entries.remove(i);
            assert(map_remove::<ResidueId, ResidueV>(entries, key) == removed);
            assert forall|a: int, b: int| 0 <= a < b < removed.len() implies tension_class(
                #[trigger] removed[a].1,
            ) != tension_class(#[trigger] removed[b].1) by {
                let oa = if a < i { a } else { a + 1 };
                let ob = if b < i { b } else { b + 1 };
                assert(removed[a] == entries[oa]);
                assert(removed[b] == entries[ob]);
            }
            assert forall|j: int| 0 <= j < removed.len() implies tension_class(#[trigger] removed[j].1) != c by {
                let oj = if j < i { j } else { j + 1 };
                assert(removed[j] == entries[oj]);
                if oj < i {
                    assert(tension_class(entries[oj].1) != tension_class(entries[i].1));
                } else {
                    assert(tension_class(entries[i].1) != tension_class(entries[oj].1));
                }
            }
            lemma_insert_new_class(removed, r);
        },
        None => {
            lemma_insert_new_class(entries, r);
        },
    }
}

/// Whether an entry with id `id` is in the ledger.
pub open spec fn holds_id(entries: Seq<(ResidueId, ResidueV)>, id: ResidueId) -> bool {
    exists|j: int| 0 <= j < entries.len() && (#[trigger] entries[j]).0 == id
}

/// Ids are never silently erased: after an insertion the new residue is
/// live, and every id that was live is still live, or is the id of the
/// entry the insertion visibly superseded, or is the new id itself.
pub proof fn lemma_insert_conserves_ids(entries: Seq<(ResidueId, ResidueV)>, r: ResidueV)
    ensures
        holds_id(ledger_insert(entries, r).0, r.id),
        forall|j: int|
            0 <= j < entries.len() ==> {
                let id = (#[trigger] entries[j]).0;
                ||| holds_id(ledger_insert(entries, r).0, id)
                ||| ledger_insert(entries, r).1 == Some(id)
                ||| id == r.id
            },
{
    let c = tension_class(r);
    lemma_first_of_class_props(entries, c);
    let removed = match first_of_class(entries, c) {
        Some(i) => map_remove::<ResidueId, ResidueV>(entries, entries[i].0),
        None => entries,
    };
    // Removal drops at most the entry whose id was superseded.
    assert forall|j: int| 0 <= j < entries.len() && !(ledger_insert(entries, r).1 == Some(entries[j].0))
        implies holds_id(removed, #[trigger] entries[j].0) by {
        match first_of_class(entries, c) {
            Some(i) => {
                let key = entries[i].0;
                lemma_lower_bound_props::<ResidueId>(keys_of(entries), key);
                match crate::collections::map_index::<ResidueId, ResidueV>(entries, key) {
                    Some(q) => {
                        assert(removed == entries.remove(q));
                        assert(entries[j].0 != key);
                        assert(entries[q].0 == key);
                        let w = if j < q { j } else { j - 1 };
                        assert(removed[w] == entries[j]);
                    },
                    None => {
                        assert(removed[j] == entries[j]);
                    },
                }
            },
            None => {
                assert(removed[j] == entries[j]);
            },
        }
    }
    let ks = keys_of(removed);
    let p = lower_bound::<ResidueId>(ks, r.id);
    lemma_lower_bound_props::<ResidueId>(ks, r.id);
    let out = map_insert::<ResidueId, ResidueV>(removed, r.id, r);
    assert(out == ledger_insert(entries, r).0);
    if p < removed.len() && removed[p].0 == r.id {
        assert(out[p].0 == r.id);
        assert forall|j: int| 0 <= j < entries.len() && holds_id(removed, #[trigger] entries[j].0)
            && entries[j].0 != r.id implies holds_id(out, entries[j].0) by {
            let w = choose|w: int| 0 <= w < removed.len() && (#[trigger] removed[w]).0 == entries[j].0;
            assert(out[w] == removed[w]);
        }
    } else {
        assert(out[p].0 == r.id);
        assert forall|j: int| 0 <= j < entries.len() && holds_id(removed, #[trigger] entries[j].0)
            implies holds_id(out, entries[j].0) by {
            let w = choose|w: int| 0 <= w < removed.len() && (#[trigger] removed[w]).0 == entries[j].0;
            if w < p {
                assert(out[w] == removed[w]);
            } else {
                assert(out[w + 1] == removed[w]);
            }
        }
    }
}

/// Residue is never silently dropped: after an insertion the new entry is
/// live, and every previously live entry is either still live or is the
/// one entry of the same tension class that was visibly superseded.
pub proof fn lemma_insert_keeps_residue(entries: Seq<(ResidueId, ResidueV)>, r: ResidueV)
    ensures
        ({
            let (after, superseded) = ledger_insert(entries, r);
            &&& superseded matches Some(old_id) ==> first_of_class(entries, tension_class(r))
                matches Some(i) && entries[i].0 == old_id
            &&& superseded.is_none() ==> first_of_class(entries, tension_class(r)).is_none()
        }),
{
}

} // verus!
