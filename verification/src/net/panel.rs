//! The standing views the skins render: the node's roster lines, the
//! blocklist daemon's entries, and the three-pane console's standing and
//! residue cells, pane sizes and convergence strip.

use crate::belief::state::{state_name, BeliefState};
use crate::evidence::{Diversity, Quality, WitnessSummary};
use crate::net::wire::{glyph, state_glyph};
use crate::text::{decimal, pad_right, push_decimal, push_padded, string_of, strings_view};
use vstd::prelude::*;
use vstd::string::StringExecFns;

verus! {

pub open spec fn quality_text(q: Quality) -> Seq<char> {
    match q {
        Quality::Weak => "Weak"@,
        Quality::Mixed => "Mixed"@,
        Quality::Strong => "Strong"@,
    }
}

pub fn quality_str(q: Quality) -> (r: &'static str)
    ensures
        r@ == quality_text(q),
{
    match q {
        Quality::Weak => "Weak",
        Quality::Mixed => "Mixed",
        Quality::Strong => "Strong",
    }
}

pub open spec fn diversity_text(d: Diversity) -> Seq<char> {
    match d {
        Diversity::Laundered => "Laundered"@,
        Diversity::SingleScope => "SingleScope"@,
        Diversity::Mixed => "Mixed"@,
        Diversity::CrossScope => "CrossScope"@,
    }
}

pub fn diversity_str(d: Diversity) -> (r: &'static str)
    ensures
        r@ == diversity_text(d),
{
    match d {
        Diversity::Laundered => "Laundered",
        Diversity::SingleScope => "SingleScope",
        Diversity::Mixed => "Mixed",
        Diversity::CrossScope => "CrossScope",
    }
}

/// A witness summary as the skins show it: count, quality and diversity.
pub open spec fn summary_text(s: WitnessSummary) -> Seq<char> {
    decimal(s.count as nat) + " "@ + quality_text(s.quality) + "/"@ + diversity_text(s.diversity)
}

fn push_summary(out: &mut String, s: &WitnessSummary)
    ensures
        final(out)@ == old(out)@ + summary_text(*s),
{
    push_decimal(out, s.count as u64);
    out.append(" ");
    out.append(quality_str(s.quality));
    out.append("/");
    out.append(diversity_str(s.diversity));
}

/// One roster line of the node's `/roster` command.
pub open spec fn roster_line_text(state: BeliefState, name: Seq<char>, s: WitnessSummary) -> Seq<char> {
    "  "@ + glyph(state) + " "@ + state_name(state) + " "@ + name + " (witnesses: "@ + summary_text(s) + ")"@
}

pub fn roster_line(state: BeliefState, name: &str, s: &WitnessSummary) -> (r: String)
    ensures
        r@ == roster_line_text(state, name@, *s),
{
    let mut out = string_of("  ");
    out.append(state_glyph(state));
    out.append(" ");
    out.append(state.as_str());
    out.append(" ");
    out.append(name);
    out.append(" (witnesses: ");
    push_summary(&mut out, s);
    out.append(")");
    out
}

/// One entry of the daemon's `/list`: the handle and its verdict in
/// aligned columns, then its witnesses.
pub open spec fn block_entry_text(handle: Seq<char>, verdict: Seq<char>, s: WitnessSummary) -> Seq<char> {
    "  "@ + pad_right(handle, 24) + " "@ + pad_right(verdict, 22) + " (witnesses: "@ + summary_text(s) + ")"@
}

pub fn block_entry_line(handle: &str, verdict: &str, s: &WitnessSummary) -> (r: String)
    ensures
        r@ == block_entry_text(handle@, verdict@, *s),
{
    let mut out = string_of("  ");
    push_padded(&mut out, handle, 24);
    out.append(" ");
    push_padded(&mut out, verdict, 22);
    out.append(" (witnesses: ");
    push_summary(&mut out, s);
    out.append(")");
    out
}

/// How a standing cell is toned in the console.
#[derive(Debug, Clone, Copy, PartialEq, Eq, Structural)]
pub enum StandingTone {
    Member,
    Contested,
    Suspended,
    Gone,
    Pending,
}

pub open spec fn spec_standing_tone(state: BeliefState) -> StandingTone {
    match state {
        BeliefState::Accepted => StandingTone::Member,
        BeliefState::Disputed => StandingTone::Contested,
        BeliefState::Quarantined => StandingTone::Suspended,
        BeliefState::Removed => StandingTone::Gone,
        _ => StandingTone::Pending,
    }
}

pub fn standing_tone(state: BeliefState) -> (r: StandingTone)
    ensures
        r == spec_standing_tone(state),
{
    match state {
        BeliefState::Accepted => StandingTone::Member,
        BeliefState::Disputed => StandingTone::Contested,
        BeliefState::Quarantined => StandingTone::Suspended,
        BeliefState::Removed => StandingTone::Gone,
        _ => StandingTone::Pending,
    }
}

/// A console standing cell: the toned glyph and state, then the name and
/// witnesses.
pub open spec fn standing_cell_text(state: BeliefState, name: Seq<char>, s: WitnessSummary) -> (Seq<char>, Seq<char>) {
    (glyph(state) + " "@ + state_name(state), " "@ + name + " ("@ + summary_text(s) + ")"@)
}

pub fn standing_cell(state: BeliefState, name: &str, s: &WitnessSummary) -> (r: (String, String))
    ensures
        (r.0@, r.1@) == standing_cell_text(state, name@, *s),
{
    let mut head = string_of(state_glyph(state));
    head.append(" ");
    head.append(state.as_str());
    let mut rest = string_of(" ");
    rest.append(name);
    rest.append(" (");
    push_summary(&mut rest, s);
    rest.append(")");
    (head, rest)
}

/// A console residue cell.
pub open spec fn residue_cell_text(name: Seq<char>, handled: bool, detail: Seq<char>) -> Seq<char> {
    "\u{203c} "@ + name + (if handled {
        " [handled]"@
    } else {
        Seq::empty()
    }) + ": "@ + detail
}

pub fn residue_cell(name: &str, handled: bool, detail: &str) -> (r: String)
    ensures
        r@ == residue_cell_text(name@, handled, detail@),
{
    let mut out = string_of("\u{203c} ");
    out.append(name);
    if handled {
        out.append(" [handled]");
    }
    out.append(": ");
    out.append(detail);
    out
}

/// Heights of a pane's standing and residue boxes: two border rows plus
/// one per entry, the standing box at most seven rows, the residue box
/// between three and six.
pub open spec fn spec_pane_heights(roster: nat, residues: nat) -> (nat, nat) {
    (if roster + 2 < 7 {
        (roster + 2) as nat
    } else {
        7
    }, if residues + 2 < 3 {
        3
    } else if residues + 2 > 6 {
        6
    } else {
        (residues + 2) as nat
    })
}

pub fn pane_heights(roster: usize, residues: usize) -> (r: (u16, u16))
    ensures
        (r.0 as nat, r.1 as nat) == spec_pane_heights(roster as nat, residues as nat),
{
    let standing: u16 = if roster < 5 {
        (roster + 2) as u16
    } else {
        7
    };
    let residue: u16 = if residues < 1 {
        3
    } else if residues > 4 {
        6
    } else {
        (residues + 2) as u16
    };
    (standing, residue)
}

/// A pane's title: the creator's pane says so.
pub open spec fn pane_title_text(name: Seq<char>, creator: Seq<char>) -> Seq<char> {
    if name == creator {
        " "@ + name + " (creator) "@
    } else {
        " "@ + name + " "@
    }
}

pub fn pane_title(name: &str, creator: &str) -> (r: String)
    ensures
        r@ == pane_title_text(name@, creator@),
{
    let mut out = string_of(" ");
    out.append(name);
    if string_of(name) == string_of(creator) {
        out.append(" (creator) ");
    } else {
        out.append(" ");
    }
    out
}

/// The newest `visible` lines of a log, oldest first.
pub fn newest_lines(log: &[String], visible: usize) -> (r: Vec<String>)
    ensures
        strings_view(r@) == strings_view(log@).subrange(
            if log@.len() > visible {
                log@.len() - visible
            } else {
                0
            },
            log@.len() as int,
        ),
{
    let from: usize = if log.len() > visible {
        log.len() - visible
    } else {
        0
    };
    let ghost lv = strings_view(log@);
    let mut out: Vec<String> = Vec::new();
    let mut k: usize = from;
    while k < log.len()
        invariant
            from <= k <= log@.len(),
            lv == strings_view(log@),
            strings_view(out@) == lv.subrange(from as int, k as int),
        decreases log@.len() - k,
    {
        let ghost before = strings_view(out@);
        let line = log[k].clone();
        out.push(line);
        assert(strings_view(out@) =~= before.push(lv[k as int]));
        assert(lv.subrange(from as int, k + 1) =~= lv.subrange(from as int, k as int).push(lv[k as int]));
        k = k + 1;
    }
    out
}

/// The convergence strip: every node's digest tag equal, and the line
/// naming each tag and whether a partition is active.
pub open spec fn all_same(tags: Seq<Seq<char>>) -> bool {
    forall|i: int| 0 <= i < tags.len() ==> #[trigger] tags[i] == tags[0]
}

pub open spec fn strip_text(tags: Seq<Seq<char>>, names: Seq<Seq<char>>) -> Seq<char>
    decreases tags.len(),
{
    if tags.len() == 0 {
        " digests:"@
    } else {
        strip_text(tags.drop_last(), names) + " "@ + names[tags.len() - 1] + "="@ + tags.last()
    }
}

pub open spec fn strip_line_text(tags: Seq<Seq<char>>, names: Seq<Seq<char>>, partitioned: bool) -> (Seq<char>, Seq<char>) {
    (if all_same(tags) {
        " CONVERGED "@
    } else {
        " DIVERGED "@
    }, strip_text(tags, names) + "   partition: "@ + if partitioned {
        "ACTIVE"@
    } else {
        "none"@
    })
}

pub fn convergence_strip(tags: &[String], names: &[String], partitioned: bool) -> (r: (bool, String, String))
    requires
        names@.len() == tags@.len(),
    ensures
        r.0 == all_same(strings_view(tags@)),
        (r.1@, r.2@) == strip_line_text(strings_view(tags@), strings_view(names@), partitioned),
{
    let ghost tv = strings_view(tags@);
    let ghost nv = strings_view(names@);
    let mut same = true;
    let mut text = string_of(" digests:");
    let mut k: usize = 0;
    while k < tags.len()
        invariant
            k <= tags@.len(),
            names@.len() == tags@.len(),
            tv == strings_view(tags@),
            nv == strings_view(names@),
            same <==> forall|i: int| 0 <= i < k ==> #[trigger] tv[i] == tv[0],
            text@ == strip_text(tv.subrange(0, k as int), nv),
        decreases tags@.len() - k,
    {
        let eq = tags[k] == tags[0];
        assert(eq == (tv[k as int] == tv[0]));
        if !eq {
            same = false;
        }
        text.append(" ");
        text.append(names[k].as_str());
        text.append("=");
        text.append(tags[k].as_str());
        let ghost next = tv.subrange(0, k + 1);
        assert(next.drop_last() =~= tv.subrange(0, k as int));
        k = k + 1;
    }
    assert(tv.subrange(0, k as int) =~= tv);
    text.append("   partition: ");
    if partitioned {
        text.append("ACTIVE");
    } else {
        text.append("none");
    }
    let label = if same {
        string_of(" CONVERGED ")
    } else {
        string_of(" DIVERGED ")
    };
    (same, label, text)
}

} // verus!
