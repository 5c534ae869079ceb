//! What the application skins read off a node: its profile, the standing
//! roster, and the live residue.

use crate::belief::cell::BeliefCellV;
use crate::belief::view::MembershipView;
use crate::evidence::WitnessSummary;
use crate::residue::{Residue, ResidueV};
use crate::id::ResidueId;
use crate::witnessing::{spec_summarize, EvidenceBook};
use crate::text::string_of;
use vstd::prelude::*;

verus! {

/// How an application skin uses the protocol.
pub struct AppProfile {
    pub kind: String,
    /// Chat: subjects must be addressable peer identities. Federation
    /// blocklists: subjects are arbitrary handles (the things being
    /// blocked), while the witnesses remain peers.
    pub subjects_are_peers: bool,
}

impl AppProfile {
    pub fn chat() -> (r: Self)
        ensures
            r.kind@ == "chat"@,
            r.subjects_are_peers,
    {
        AppProfile { kind: string_of("chat"), subjects_are_peers: true }
    }

    pub fn federation() -> (r: Self)
        ensures
            r.kind@ == "federation"@,
            !r.subjects_are_peers,
    {
        AppProfile { kind: string_of("federation"), subjects_are_peers: false }
    }
}

/// One row of the standing roster, for display layers.
pub struct RosterRow {
    pub subject: String,
    pub state: crate::belief::state::BeliefState,
    pub summary: WitnessSummary,
}

/// One live residue entry, for display layers.
pub struct ResidueRow {
    pub subject: String,
    pub handled_by_override: bool,
    pub detail: String,
}

pub open spec fn roster_row_of(book: crate::witnessing::EvidenceBookV, scope: Seq<char>, e: (Seq<char>, BeliefCellV)) -> (Seq<char>, crate::belief::state::BeliefState, WitnessSummary) {
    (e.0, e.1.state, spec_summarize(book, scope, e.0))
}

pub open spec fn roster_view(v: Seq<RosterRow>) -> Seq<(Seq<char>, crate::belief::state::BeliefState, WitnessSummary)> {
    v.map_values(|r: RosterRow| (r.subject@, r.state, r.summary))
}

/// The standing roster of a view: every subject in order, with its state
/// and the corroboration shape the evidence book derives for it.
pub fn roster(view: &MembershipView, evidence: &EvidenceBook) -> (r: Vec<RosterRow>)
    ensures
        roster_view(r@) == view@.beliefs.map_values(
            |e: (Seq<char>, BeliefCellV)| roster_row_of(evidence@, view@.scope, e),
        ),
{
    let scope = view.scope();
    let cells = view.subjects();
    let ghost bv = cells@;
    let ghost f = |e: (Seq<char>, BeliefCellV)| roster_row_of(evidence@, view@.scope, e);
    let mut out: Vec<RosterRow> = Vec::new();
    let mut i: usize = 0;
    while i < cells.len()
        invariant
            i <= bv.len(),
            bv == cells@,
            bv == view@.beliefs,
            scope@ == view@.scope,
            f == (|e: (Seq<char>, BeliefCellV)| roster_row_of(evidence@, view@.scope, e)),
            roster_view(out@) == bv.subrange(0, i as int).map_values(f),
        decreases bv.len() - i,
    {
        let subject = cells.key_at(i);
        let row = RosterRow {
            subject: subject.as_str().to_owned(),
            state: cells.value_at(i).state(),
            summary: evidence.summarize(scope, subject),
        };
        let ghost before = out@;
        out.push(row);
        proof {
            assert(roster_view(out@) =~= roster_view(before).push(f(bv[i as int])));
            assert(bv.subrange(0, i + 1).map_values(f) =~= bv.subrange(0, i as int).map_values(f).push(f(bv[i as int])));
        }
        i = i + 1;
    }
    assert(bv.subrange(0, i as int) =~= bv);
    out
}

pub open spec fn residue_row_of(e: (ResidueId, ResidueV)) -> (Seq<char>, bool, Seq<char>) {
    (e.1.key.1, e.1.handled_by is Some, e.1.tension.detail)
}

pub open spec fn residue_rows_view(v: Seq<ResidueRow>) -> Seq<(Seq<char>, bool, Seq<char>)> {
    v.map_values(|r: ResidueRow| (r.subject@, r.handled_by_override, r.detail@))
}

/// The live residue of a view, in id order: whose it is, whether an
/// override has taken responsibility for it, and what the tension was.
pub fn residues(view: &MembershipView) -> (r: Vec<ResidueRow>)
    ensures
        residue_rows_view(r@) == view@.residue.entries.map_values(|e: (ResidueId, ResidueV)| residue_row_of(e)),
{
    let entries = view.residue().entries();
    let ghost ev = entries@;
    let ghost f = |e: (ResidueId, ResidueV)| residue_row_of(e);
    let mut out: Vec<ResidueRow> = Vec::new();
    let mut i: usize = 0;
    while i < entries.len()
        invariant
            i <= ev.len(),
            ev == entries@,
            ev == view@.residue.entries,
            f == (|e: (ResidueId, ResidueV)| residue_row_of(e)),
            residue_rows_view(out@) == ev.subrange(0, i as int).map_values(f),
        decreases ev.len() - i,
    {
        let residue: &Residue = entries.value_at(i);
        let row = ResidueRow {
            subject: residue.key().subject.as_str().to_owned(),
            handled_by_override: residue.handled_by().is_some(),
            detail: residue.tension().detail.clone(),
        };
        let ghost before = out@;
        out.push(row);
        proof {
            assert(residue_rows_view(out@) =~= residue_rows_view(before).push(f(ev[i as int])));
            assert(ev.subrange(0, i + 1).map_values(f) =~= ev.subrange(0, i as int).map_values(f).push(f(ev[i as int])));
        }
        i = i + 1;
    }
    assert(ev.subrange(0, i as int) =~= ev);
    out
}

} // verus!
