//! The scenario corpus model.
//!
//! The six deterministic-reunion scenarios are the conformance corpus.
//! The model is deliberately closed: scopes are a closed enum and every
//! member entry carries its witness summary, so unknown scopes and
//! missing summaries are unrepresentable.

use crate::belief::state::BeliefState;
use crate::collections::SortedMap;
use crate::id::SubjectId;
use vstd::prelude::*;

pub use crate::evidence::WitnessSummary;

verus! {

/// The three scopes the corpus score table knows.
#[derive(Debug, Clone, Copy, PartialEq, Eq, Structural, PartialOrd, Ord)]
pub enum Scope {
    Global,
    RegionalA,
    RegionalB,
}

/// One island's belief about one subject.
#[derive(Debug, Clone, PartialEq, Eq)]
pub struct MemberEntry {
    pub status: BeliefState,
    pub epoch: u64,
    pub trust_weight: i64,
    pub scope: Scope,
    pub witness_summary: WitnessSummary,
    pub explanation: String,
}

impl View for MemberEntry {
    type V = MemberEntry;

    open spec fn view(&self) -> MemberEntry {
        *self
    }
}

impl MemberEntry {
    pub fn duplicate(&self) -> (r: Self)
        ensures
            r == *self,
    {
        MemberEntry {
            status: self.status,
            epoch: self.epoch,
            trust_weight: self.trust_weight,
            scope: self.scope,
            witness_summary: self.witness_summary,
            explanation: self.explanation.clone(),
        }
    }
}

/// Copy of a member table, entry for entry.
pub fn copy_members(m: &SortedMap<SubjectId, MemberEntry>) -> (r: SortedMap<SubjectId, MemberEntry>)
    ensures
        r@ == m@,
{
    let mut entries: Vec<(SubjectId, MemberEntry)> = Vec::new();
    let ghost g = |e: (SubjectId, MemberEntry)| (e.0@, e.1@);
    let mut i: usize = 0;
    while i < m.len()
        invariant
            i <= m@.len(),
            g == (|e: (SubjectId, MemberEntry)| (e.0@, e.1@)),
            entries@.map_values(g) == m@.subrange(0, i as int),
        decreases m@.len() - i,
    {
        let ghost before = entries@;
        let k = m.key_at(i).duplicate();
        let v = m.value_at(i).duplicate();
        entries.push((k, v));
        proof {
            assert(entries@.map_values(g) =~= before.map_values(g).push(m@[i as int]));
            assert(m@.subrange(0, i + 1) =~= m@.subrange(0, i as int).push(m@[i as int]));
        }
        i = i + 1;
    }
    assert(m@.subrange(0, i as int) =~= m@);
    SortedMap::from_entries(entries)
}

/// One island's view of the room.
#[derive(Debug, Clone, PartialEq, Eq)]
pub struct IslandView {
    pub label: String,
    pub scope: Scope,
    pub local_epoch: u64,
    pub members: SortedMap<SubjectId, MemberEntry>,
}

pub struct IslandViewV {
    pub label: Seq<char>,
    pub scope: Scope,
    pub local_epoch: u64,
    pub members: Seq<(Seq<char>, MemberEntry)>,
}

impl View for IslandView {
    type V = IslandViewV;

    open spec fn view(&self) -> IslandViewV {
        IslandViewV {
            label: self.label@,
            scope: self.scope,
            local_epoch: self.local_epoch,
            members: self.members@,
        }
    }
}

impl IslandView {
    pub fn duplicate(&self) -> (r: Self)
        ensures
            r@ == self@,
    {
        IslandView {
            label: self.label.clone(),
            scope: self.scope,
            local_epoch: self.local_epoch,
            members: copy_members(&self.members),
        }
    }
}

#[derive(Debug, Clone, PartialEq, Eq)]
pub struct InitialState {
    pub policy_name: String,
    pub policy_summary: String,
    pub island_a: IslandView,
    pub island_b: IslandView,
}

/// What one divergence event changes on one island: whole member entries
/// (never partial fields), optionally the local epoch, and a narration line.
#[derive(Debug, Clone, PartialEq, Eq)]
pub struct IslandPatch {
    pub local_epoch: Option<u64>,
    pub members: Option<SortedMap<SubjectId, MemberEntry>>,
    pub log: Option<String>,
}

#[derive(Debug, Clone, PartialEq, Eq)]
pub struct Patches {
    pub island_a: Option<IslandPatch>,
    pub island_b: Option<IslandPatch>,
}

/// One divergence event.
#[derive(Debug, Clone, PartialEq, Eq)]
pub struct Event {
    pub id: String,
    pub label: String,
    pub description: String,
    pub patches: Patches,
}

/// The override a scenario may apply at reunion.
#[derive(Debug, Clone, PartialEq, Eq)]
pub struct OperatorOverride {
    pub subject_id: String,
    pub status: BeliefState,
    pub reason: String,
}

impl OperatorOverride {
    pub fn duplicate(&self) -> (r: Self)
        ensures
            r == *self,
    {
        OperatorOverride {
            subject_id: self.subject_id.clone(),
            status: self.status,
            reason: self.reason.clone(),
        }
    }
}

#[derive(Debug, Clone, PartialEq, Eq)]
pub struct Subject {
    pub id: String,
    pub label: String,
    pub role: String,
    pub domain: String,
}

#[derive(Debug, Clone, PartialEq, Eq)]
pub struct Scenario {
    pub id: String,
    pub title: String,
    pub summary: String,
    pub difference_from_quorum_lab: String,
    pub notes: Vec<String>,
    pub allow_operator_override: bool,
    pub operator_override: Option<OperatorOverride>,
    pub expected_merge_tensions: Vec<String>,
    pub subjects: Vec<Subject>,
    pub initial: InitialState,
    pub events: Vec<Event>,
}

#[derive(Debug, Clone, PartialEq, Eq)]
pub struct IndexEntry {
    pub id: String,
    pub title: String,
    pub path: String,
}

#[derive(Debug, Clone, PartialEq, Eq)]
pub struct ScenarioIndex {
    pub lab: String,
    pub scenarios: Vec<IndexEntry>,
}

} // verus!
