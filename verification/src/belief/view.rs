//! A scoped membership view: beliefs plus their residue, inseparably.

use crate::belief::cell::{fresh_cell, BeliefCell, BeliefCellV};
use crate::collections::{keys_of, keys_sorted, map_get, map_index, map_insert, SortedMap};
use crate::epoch::{Epoch, Round};
use crate::id::SubjectId;
use crate::residue::{ResidueLedger, ResidueLedgerV, ResidueV};
use crate::scope::ScopeId;
use vstd::prelude::*;

verus! {

/// One scope's current belief about its subjects. A view is always scoped,
/// never global, and it carries its `ResidueLedger` as a field: a view
/// without its disagreement cannot be constructed.
#[derive(Debug, Clone)]
pub struct MembershipView {
    scope: ScopeId,
    epoch: Epoch,
    beliefs: SortedMap<SubjectId, BeliefCell>,
    residue: ResidueLedger,
}

pub struct MembershipViewV {
    pub scope: Seq<char>,
    pub epoch: Epoch,
    pub beliefs: Seq<(Seq<char>, BeliefCellV)>,
    pub residue: ResidueLedgerV,
}

impl View for MembershipView {
    type V = MembershipViewV;

    closed spec fn view(&self) -> MembershipViewV {
        MembershipViewV {
            scope: self.scope@,
            epoch: self.epoch,
            beliefs: self.beliefs@,
            residue: self.residue@,
        }
    }
}

/// The beliefs after making sure `subject` has a cell (created fresh at `at`).
pub open spec fn ensure_cell(beliefs: Seq<(Seq<char>, BeliefCellV)>, subject: Seq<char>, at: (Epoch, Round)) -> Seq<(Seq<char>, BeliefCellV)> {
    if map_index::<SubjectId, BeliefCellV>(beliefs, subject).is_some() {
        beliefs
    } else {
        map_insert::<SubjectId, BeliefCellV>(beliefs, subject, fresh_cell(at))
    }
}

impl MembershipView {
    /// Subjects are kept strictly ordered by name.
    pub open spec fn wf(&self) -> bool {
        keys_sorted::<SubjectId>(keys_of(self@.beliefs))
    }

    pub fn new(scope: ScopeId, epoch: Epoch) -> (r: Self)
        ensures
            r@.scope == scope@,
            r@.epoch == epoch,
            r@.beliefs == Seq::<(Seq<char>, BeliefCellV)>::empty(),
            r@.residue.entries == Seq::<(crate::id::ResidueId, ResidueV)>::empty(),
            r@.residue.resolved.len() == 0,
            r.wf(),
    {
        MembershipView { scope, epoch, beliefs: SortedMap::new(), residue: ResidueLedger::new() }
    }

    pub fn scope(&self) -> (r: &ScopeId)
        ensures
            r@ == self@.scope,
    {
        &self.scope
    }

    pub fn epoch(&self) -> (r: Epoch)
        ensures
            r == self@.epoch,
    {
        self.epoch
    }

    /// Epochs only move forward.
    pub fn advance_epoch(&mut self, epoch: Epoch)
        ensures
            final(self)@ == (MembershipViewV {
                epoch: if epoch.0 > old(self)@.epoch.0 { epoch } else { old(self)@.epoch },
                ..old(self)@
            }),
            old(self).wf() ==> final(self).wf(),
    {
        if epoch.0 > self.epoch.0 {
            self.epoch = epoch;
        }
    }

    pub fn belief(&self, subject: &SubjectId) -> (r: Option<&BeliefCell>)
        ensures
            match map_get::<SubjectId, BeliefCellV>(self@.beliefs, subject@) {
                Some(c) => r.is_some() && r.unwrap()@ == c,
                None => r.is_none(),
            },
    {
        self.beliefs.get(subject)
    }

    /// Get or create the cell for a subject. The returned cell can only be
    /// mutated through `BeliefCell::apply`, so handing out `&mut` does not
    /// bypass the state machine.
    pub fn cell_mut(&mut self, subject: SubjectId, at: (Epoch, Round)) -> (r: &mut BeliefCell)
        ensures
            ({
                let s = ensure_cell(old(self)@.beliefs, subject@, at);
                &&& map_index::<SubjectId, BeliefCellV>(s, subject@) matches Some(i)
                &&& (*r)@ == s[i].1
                &&& final(self)@ == (MembershipViewV {
                    beliefs: map_insert::<SubjectId, BeliefCellV>(s, subject@, final(r)@),
                    ..old(self)@
                })
            }),
            old(self).wf() ==> keys_sorted::<SubjectId>(
                keys_of(ensure_cell(old(self)@.beliefs, subject@, at)),
            ),
    {
        let ghost before = self.beliefs@;
        let idx = match self.beliefs.index_of(&subject) {
            Some(i) => i,
            None => {
                let key = subject.duplicate();
                self.beliefs.insert(key, BeliefCell::new(at));
                let ghost s = self.beliefs@;
                proof {
                    crate::collections::lemma_map_insert_index::<SubjectId, BeliefCellV>(
                        before,
                        subject@,
                        fresh_cell(at),
                    );
                }
                match self.beliefs.index_of(&subject) {
                    Some(i) => i,
                    None => {
                        proof {
                            assert(false);
                        }
                        0
                    },
                }
            },
        };
        let ghost s = self.beliefs@;
        proof {
            crate::collections::lemma_map_update_is_insert::<SubjectId, BeliefCellV>(
                s,
                idx as int,
            );
        }
        self.beliefs.value_at_mut(idx)
    }

    /// All beliefs, ordered by subject.
    pub fn subjects(&self) -> (r: &SortedMap<SubjectId, BeliefCell>)
        ensures
            r@ == self@.beliefs,
    {
        &self.beliefs
    }

    pub fn len(&self) -> (n: usize)
        ensures
            n == self@.beliefs.len(),
    {
        self.beliefs.len()
    }

    pub fn is_empty(&self) -> (b: bool)
        ensures
            b == (self@.beliefs.len() == 0),
    {
        self.beliefs.is_empty()
    }

    pub fn residue(&self) -> (r: &ResidueLedger)
        ensures
            r@ == self@.residue,
    {
        &self.residue
    }

    pub(crate) fn residue_mut(&mut self) -> (r: &mut ResidueLedger)
        ensures
            (*r)@ == old(self)@.residue,
            final(self)@ == (MembershipViewV { residue: final(r)@, ..old(self)@ }),
    {
        &mut self.residue
    }
}

} // verus!
