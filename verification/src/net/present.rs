//! The node's small decisions and the text it shows: the trust its own
//! witness records carry, operator overrides, how peers are named and
//! found by a typed suffix, status lines, and how a console log is toned
//! and kept.

use crate::belief::state::BeliefState;
use crate::collections::map_get;
use crate::digest::RepairDigest;
use crate::epoch::Epoch;
use crate::id::SubjectId;
use crate::belief::state::state_name;
use crate::net::command::opt_view;
use crate::net::wire::{glyph, state_glyph, Moderation};
use crate::rank::{hex_of, push_hex_byte};
use crate::text::{decimal, push_decimal, string_of, strings_view};
use crate::trust::{Confidence, TrustGrade};
use vstd::prelude::*;
use vstd::string::{StrSliceExecFns, StringExecFns};

verus! {

/// The grade this node's own witness records carry: the creator's is
/// fixed, everyone else's follows the standing they have earned.
pub open spec fn own_trust_value(is_creator: bool, standing: Option<BeliefState>) -> u8 {
    if is_creator {
        90
    } else {
        match standing {
            Some(BeliefState::Accepted) => 70,
            Some(BeliefState::Provisional) => 50,
            _ => 30,
        }
    }
}

pub fn own_trust(is_creator: bool, standing: Option<BeliefState>) -> (r: TrustGrade)
    ensures
        r.value() == own_trust_value(is_creator, standing),
{
    if is_creator {
        return TrustGrade::new(90);
    }
    match standing {
        Some(BeliefState::Accepted) => TrustGrade::new(70),
        Some(BeliefState::Provisional) => TrustGrade::new(50),
        _ => TrustGrade::new(30),
    }
}

/// The confidence a corroboration assessment claims: strong when it
/// would lift a provisional member, bounded otherwise.
pub fn advancement_confidence(standing: Option<BeliefState>) -> (r: Confidence)
    ensures
        r == (if standing == Some(BeliefState::Provisional) {
            Confidence::Strong
        } else {
            Confidence::Bounded
        }),
{
    match standing {
        Some(BeliefState::Provisional) => Confidence::Strong,
        _ => Confidence::Bounded,
    }
}

/// The state an override command names; quarantine when none is named.
pub open spec fn spec_override_state(word: Option<Seq<char>>) -> Result<BeliefState, Seq<char>> {
    match word {
        None => Ok(BeliefState::Quarantined),
        Some(w) => if w == "quarantined"@ {
            Ok(BeliefState::Quarantined)
        } else if w == "removed"@ {
            Ok(BeliefState::Removed)
        } else if w == "accepted"@ {
            Ok(BeliefState::Accepted)
        } else {
            Err("[?] cannot override to "@ + w)
        },
    }
}

pub fn override_state(word: Option<String>) -> (r: Result<BeliefState, String>)
    ensures
        match spec_override_state(opt_view(word)) {
            Ok(s) => r == Ok::<BeliefState, String>(s),
            Err(e) => r matches Err(m) && m@ == e,
        },
{
    match word {
        None => Ok(BeliefState::Quarantined),
        Some(w) => {
            if crate::net::command::is_word(&w, "quarantined") {
                Ok(BeliefState::Quarantined)
            } else if crate::net::command::is_word(&w, "removed") {
                Ok(BeliefState::Removed)
            } else if crate::net::command::is_word(&w, "accepted") {
                Ok(BeliefState::Accepted)
            } else {
                let mut e = string_of("[?] cannot override to ");
                e.append(w.as_str());
                Err(e)
            }
        },
    }
}

/// An override advances the subject's epoch past everything this node
/// knows of it, so a late copy still dominates stale conflict.
pub open spec fn spec_override_epoch(digest: Option<crate::digest::RepairDigestV>, subject: Seq<char>) -> int {
    match digest {
        Some(d) => match map_get::<SubjectId, (BeliefState, Epoch)>(d.subject_summaries, subject) {
            Some(summary) => summary.1.0 + 1,
            None => 2,
        },
        None => 2,
    }
}

pub fn override_epoch(digest: Option<&RepairDigest>, subject: &SubjectId) -> (r: Epoch)
    requires
        spec_override_epoch(
            match digest {
                Some(d) => Some(d@),
                None => None,
            },
            subject@,
        ) <= u64::MAX,
    ensures
        r.0 == spec_override_epoch(
            match digest {
                Some(d) => Some(d@),
                None => None,
            },
            subject@,
        ),
{
    let current: u64 = match digest {
        Some(d) => match d.subject_summaries.get(subject) {
            Some(summary) => summary.1.0,
            None => 1,
        },
        None => 1,
    };
    Epoch(current + 1)
}

/// An override's epoch lies past every epoch this node knows for the
/// subject, so a copy applied late still dominates stale conflict.
pub proof fn lemma_override_dominates(d: crate::digest::RepairDigestV, subject: Seq<char>)
    ensures
        match map_get::<SubjectId, (BeliefState, Epoch)>(d.subject_summaries, subject) {
            Some(summary) => spec_override_epoch(Some(d), subject) > summary.1.0,
            None => spec_override_epoch(Some(d), subject) > 1,
        },
        spec_override_epoch(None, subject) > 1,
{
}

/// A peer id shortened to its last six characters.
pub open spec fn short_name(peer: Seq<char>) -> Seq<char> {
    "\u{2026}"@ + peer.subrange(if peer.len() > 6 { peer.len() - 6 } else { 0 }, peer.len() as int)
}

pub fn short_display(peer: &str) -> (r: String)
    ensures
        r@ == short_name(peer@),
{
    let n = peer.unicode_len();
    let from: usize = if n > 6 {
        n - 6
    } else {
        0
    };
    let mut out = string_of("\u{2026}");
    out.append(peer.substring_char(from, n));
    out
}

/// How a peer is shown: by the nickname registered for it, else by its
/// shortened id.
pub fn display_name(nickname: Option<&String>, peer: &str) -> (r: String)
    ensures
        r@ == match nickname {
            Some(n) => n@,
            None => short_name(peer@),
        },
{
    match nickname {
        Some(n) => n.clone(),
        None => short_display(peer),
    }
}

pub open spec fn ends_with(s: Seq<char>, suffix: Seq<char>) -> bool {
    suffix.len() <= s.len() && s.subrange(s.len() - suffix.len(), s.len() as int) == suffix
}

pub open spec fn starts_with(s: Seq<char>, prefix: Seq<char>) -> bool {
    prefix.len() <= s.len() && s.subrange(0, prefix.len() as int) == prefix
}

pub fn str_ends_with(s: &str, suffix: &str) -> (r: bool)
    ensures
        r == ends_with(s@, suffix@),
{
    let n = s.unicode_len();
    let m = suffix.unicode_len();
    if m > n {
        return false;
    }
    let mut i: usize = 0;
    while i < m
        invariant
            n == s@.len(),
            m == suffix@.len(),
            m <= n,
            i <= m,
            forall|j: int| 0 <= j < i ==> s@[n - m + j] == suffix@[j],
        decreases m - i,
    {
        if s.get_char(n - m + i) != suffix.get_char(i) {
            assert(s@.subrange(n - m, n as int)[i as int] != suffix@[i as int]);
            return false;
        }
        i = i + 1;
    }
    assert(s@.subrange(n - m, n as int) =~= suffix@);
    true
}

pub fn str_starts_with(s: &str, prefix: &str) -> (r: bool)
    ensures
        r == starts_with(s@, prefix@),
{
    let n = s.unicode_len();
    let m = prefix.unicode_len();
    if m > n {
        return false;
    }
    let mut i: usize = 0;
    while i < m
        invariant
            n == s@.len(),
            m == prefix@.len(),
            m <= n,
            i <= m,
            forall|j: int| 0 <= j < i ==> s@[j] == prefix@[j],
        decreases m - i,
    {
        if s.get_char(i) != prefix.get_char(i) {
            assert(s@.subrange(0, m as int)[i as int] != prefix@[i as int]);
            return false;
        }
        i = i + 1;
    }
    assert(s@.subrange(0, m as int) =~= prefix@);
    true
}

/// Entry `i` is the one known id that ends with `needle`.
pub open spec fn unique_suffix(known: Seq<Seq<char>>, needle: Seq<char>, i: int) -> bool {
    &&& 0 <= i < known.len()
    &&& ends_with(known[i], needle)
    &&& forall|j: int| 0 <= j < known.len() && j != i ==> !ends_with(#[trigger] known[j], needle)
}

/// Find a peer by a typed suffix of its id: the index of the only known id
/// that ends with it, or none when no id or several do.
pub fn resolve_suffix(known: &[String], needle: &str) -> (r: Option<usize>)
    ensures
        match r {
            Some(i) => unique_suffix(strings_view(known@), needle@, i as int),
            None => forall|i: int| !#[trigger] unique_suffix(strings_view(known@), needle@, i),
        },
{
    let ghost kv = strings_view(known@);
    let mut found: Option<usize> = None;
    let mut k: usize = 0;
    while k < known.len()
        invariant
            k <= known@.len(),
            kv == strings_view(known@),
            match found {
                None => forall|j: int| 0 <= j < k ==> !ends_with(#[trigger] kv[j], needle@),
                Some(i) => i < k && ends_with(kv[i as int], needle@) && forall|j: int|
                    0 <= j < k && j != i ==> !ends_with(#[trigger] kv[j], needle@),
            },
        decreases known@.len() - k,
    {
        if str_ends_with(known[k].as_str(), needle) {
            assert(ends_with(kv[k as int], needle@));
            match found {
                Some(i) => {
                    assert(ends_with(kv[i as int], needle@));
                    assert forall|x: int| !#[trigger] unique_suffix(kv, needle@, x) by {
                        if 0 <= x < kv.len() && ends_with(kv[x], needle@) {
                            if x != i {
                                assert(ends_with(kv[i as int], needle@));
                            } else {
                                assert(ends_with(kv[k as int], needle@));
                            }
                        }
                    }
                    return None;
                },
                None => {
                    found = Some(k);
                },
            }
        } else {
            assert(!ends_with(kv[k as int], needle@));
        }
        k = k + 1;
    }
    match found {
        None => {
            assert forall|x: int| !#[trigger] unique_suffix(kv, needle@, x) by {
                if 0 <= x < kv.len() {
                    assert(!ends_with(kv[x], needle@));
                }
            }
        },
        Some(i) => {},
    }
    found
}

/// Lower-case hex of the first `n` bytes of a digest hash.
pub fn hex_prefix(hash: &[u8; 32], n: usize) -> (r: String)
    requires
        n <= 32,
    ensures
        r@ == hex_of(hash@.subrange(0, n as int)),
{
    let mut out = String::new();
    let mut k: usize = 0;
    while k < n
        invariant
            k <= n <= 32,
            hash@.len() == 32,
            out@ == hex_of(hash@.subrange(0, k as int)),
        decreases n - k,
    {
        push_hex_byte(&mut out, hash[k]);
        let ghost next = hash@.subrange(0, k + 1);
        assert(next.drop_last() =~= hash@.subrange(0, k as int));
        k = k + 1;
    }
    out
}

/// The three-byte digest tag a console shows beside a node, or dashes
/// while it has no view.
pub fn digest_short(digest: Option<&RepairDigest>) -> (r: String)
    ensures
        r@ == match digest {
            Some(d) => hex_of(d.content_hash@.subrange(0, 3)),
            None => "------"@,
        },
{
    match digest {
        Some(d) => hex_prefix(&d.content_hash, 3),
        None => string_of("------"),
    }
}

pub open spec fn status_text(round: u64, d: &RepairDigest) -> Seq<char> {
    "[status] round "@ + decimal(round as nat) + " | digest "@ + hex_of(d.content_hash@.subrange(0, 6))
        + " | residue: "@ + decimal(d.residue_ids@.len()) + " live ("@ + decimal(
        d.unhandled_residue as nat,
    ) + " unhandled) | disputes: "@ + decimal(d.live_disputes as nat)
}

/// The node's status line: its round, digest tag and residue counts.
pub fn status_line(round: u64, d: &RepairDigest) -> (r: String)
    ensures
        r@ == status_text(round, d),
{
    let mut out = string_of("[status] round ");
    push_decimal(&mut out, round);
    out.append(" | digest ");
    let hash = hex_prefix(&d.content_hash, 6);
    out.append(hash.as_str());
    out.append(" | residue: ");
    push_decimal(&mut out, d.residue_ids.len() as u64);
    out.append(" live (");
    push_decimal(&mut out, d.unhandled_residue as u64);
    out.append(" unhandled) | disputes: ");
    push_decimal(&mut out, d.live_disputes as u64);
    out
}

/// A residue entry as the node reports it.
pub open spec fn residue_text(who: Seq<char>, handled: bool, detail: Seq<char>) -> Seq<char> {
    "[residue] "@ + who + (if handled {
        " [handled by override]"@
    } else {
        Seq::empty()
    }) + ": "@ + detail
}

pub fn residue_line(who: &str, handled: bool, detail: &str) -> (r: String)
    ensures
        r@ == residue_text(who@, handled, detail@),
{
    let mut out = string_of("[residue] ");
    out.append(who);
    if handled {
        out.append(" [handled by override]");
    }
    out.append(": ");
    out.append(detail);
    out
}

pub open spec fn help_text() -> Seq<char> {
    "commands: /roster /status /vouch <peer> /mute <peer> /ban <peer> /override <peer> <state> /split <peer...> /heal /why <peer> /peers /quit"@
}

pub fn help_line() -> (r: String)
    ensures
        r@ == help_text(),
{
    string_of(
        "commands: /roster /status /vouch <peer> /mute <peer> /ban <peer> /override <peer> <state> /split <peer...> /heal /why <peer> /peers /quit",
    )
}

pub open spec fn unknown_command_text(name: Seq<char>) -> Seq<char> {
    "[?] unknown command "@ + name + " (try /help)"@
}

pub fn unknown_command_line(name: &str) -> (r: String)
    ensures
        r@ == unknown_command_text(name@),
{
    let mut out = string_of("[?] unknown command ");
    out.append(name);
    out.append(" (try /help)");
    out
}

/// How a console line is toned.
#[derive(Debug, Clone, Copy, PartialEq, Eq, Structural)]
pub enum LogTone {
    Beat,
    Reunion,
    Residue,
    Moderation,
    Quiet,
    Plain,
}

pub open spec fn spec_log_tone(line: Seq<char>) -> LogTone {
    if starts_with(line, "=="@) {
        LogTone::Beat
    } else if starts_with(line, "[reunion]"@) {
        LogTone::Reunion
    } else if starts_with(line, "[residue]"@) {
        LogTone::Residue
    } else if starts_with(line, "[mod]"@) {
        LogTone::Moderation
    } else if starts_with(line, "[net]"@) || starts_with(line, "~"@) {
        LogTone::Quiet
    } else {
        LogTone::Plain
    }
}

pub fn log_tone(line: &str) -> (r: LogTone)
    ensures
        r == spec_log_tone(line@),
{
    if str_starts_with(line, "==") {
        LogTone::Beat
    } else if str_starts_with(line, "[reunion]") {
        LogTone::Reunion
    } else if str_starts_with(line, "[residue]") {
        LogTone::Residue
    } else if str_starts_with(line, "[mod]") {
        LogTone::Moderation
    } else if str_starts_with(line, "[net]") || str_starts_with(line, "~") {
        LogTone::Quiet
    } else {
        LogTone::Plain
    }
}

/// Keep only the newest `keep` lines of a console log.
pub fn keep_tail(log: &mut Vec<String>, keep: usize)
    ensures
        final(log)@ == if old(log)@.len() > keep {
            old(log)@.subrange(old(log)@.len() - keep, old(log)@.len() as int)
        } else {
            old(log)@
        },
{
    if log.len() > keep {
        let cut = log.len() - keep;
        let tail = log.split_off(cut);
        *log = tail;
    }
}

/// A chat line as shown: the speaker's standing glyph (blank when the
/// speaker has none here), name and text. Muted or banned speakers are
/// shown as such, not hidden.
pub open spec fn chat_text(standing: Option<BeliefState>, who: Seq<char>, text: Seq<char>) -> Seq<char> {
    (match standing {
        Some(s) => glyph(s),
        None => " "@,
    }) + " "@ + who + ": "@ + text
}

pub fn chat_line(standing: Option<BeliefState>, who: &str, text: &str) -> (r: String)
    ensures
        r@ == chat_text(standing, who@, text@),
{
    let mut out = match standing {
        Some(s) => string_of(state_glyph(s)),
        None => string_of(" "),
    };
    out.append(" ");
    out.append(who);
    out.append(": ");
    out.append(text);
    out
}

/// The echo of this node's own chat line.
pub open spec fn own_chat_text(me: Seq<char>, line: Seq<char>) -> Seq<char> {
    "\u{25cf} "@ + me + ": "@ + line
}

pub fn own_chat_line(me: &str, line: &str) -> (r: String)
    ensures
        r@ == own_chat_text(me@, line@),
{
    let mut out = string_of("\u{25cf} ");
    out.append(me);
    out.append(": ");
    out.append(line);
    out
}

pub open spec fn moderation_text(action: Moderation, who: Seq<char>, reason: Seq<char>) -> Seq<char> {
    "[mod] "@ + who + (match action {
        Moderation::Mute => " muted: "@,
        Moderation::Ban => " banned: "@,
    }) + reason
}

pub fn moderation_line(action: Moderation, who: &str, reason: &str) -> (r: String)
    ensures
        r@ == moderation_text(action, who@, reason@),
{
    let mut out = string_of("[mod] ");
    out.append(who);
    match action {
        Moderation::Mute => out.append(" muted: "),
        Moderation::Ban => out.append(" banned: "),
    }
    out.append(reason);
    out
}

pub open spec fn refused_moderation_text(action: Moderation, who: Seq<char>) -> Seq<char> {
    "[mod] ignored "@ + (match action {
        Moderation::Mute => "Mute"@,
        Moderation::Ban => "Ban"@,
    }) + " from "@ + who + " (not standing to moderate)"@
}

pub fn refused_moderation_line(action: Moderation, who: &str) -> (r: String)
    ensures
        r@ == refused_moderation_text(action, who@),
{
    let mut out = string_of("[mod] ignored ");
    match action {
        Moderation::Mute => out.append("Mute"),
        Moderation::Ban => out.append("Ban"),
    }
    out.append(" from ");
    out.append(who);
    out.append(" (not standing to moderate)");
    out
}

pub open spec fn override_text(who: Seq<char>, forced: BeliefState, reason: Seq<char>) -> Seq<char> {
    "[mod] OPERATOR OVERRIDE: "@ + who + " -> "@ + state_name(forced) + " ("@ + reason + ")"@
}

pub fn override_line(who: &str, forced: BeliefState, reason: &str) -> (r: String)
    ensures
        r@ == override_text(who@, forced, reason@),
{
    let mut out = string_of("[mod] OPERATOR OVERRIDE: ");
    out.append(who);
    out.append(" -> ");
    out.append(forced.as_str());
    out.append(" (");
    out.append(reason);
    out.append(")");
    out
}

pub open spec fn reunion_text(round: u64, subjects: nat) -> Seq<char> {
    "[reunion] deterministic reunion at r"@ + decimal(round as nat) + " ("@ + decimal(subjects) + " subjects)"@
}

pub fn reunion_line(round: u64, subjects: usize) -> (r: String)
    ensures
        r@ == reunion_text(round, subjects as nat),
{
    let mut out = string_of("[reunion] deterministic reunion at r");
    push_decimal(&mut out, round);
    out.append(" (");
    push_decimal(&mut out, subjects as u64);
    out.append(" subjects)");
    out
}

/// A peer's presence row.
pub open spec fn peer_text(connected: bool, who: Seq<char>) -> Seq<char> {
    "  "@ + (if connected {
        "up  "@
    } else {
        "down"@
    }) + " "@ + who
}

pub fn peer_line(connected: bool, who: &str) -> (r: String)
    ensures
        r@ == peer_text(connected, who@),
{
    let mut out = string_of("  ");
    if connected {
        out.append("up  ");
    } else {
        out.append("down");
    }
    out.append(" ");
    out.append(who);
    out
}

pub open spec fn why_header_text(who: Seq<char>, events: nat) -> Seq<char> {
    "[why] transcript for "@ + who + " ("@ + decimal(events) + " events):"@
}

pub fn why_header(who: &str, events: usize) -> (r: String)
    ensures
        r@ == why_header_text(who@, events as nat),
{
    let mut out = string_of("[why] transcript for ");
    out.append(who);
    out.append(" (");
    push_decimal(&mut out, events as u64);
    out.append(" events):");
    out
}

pub open spec fn partition_text(who: Seq<char>) -> Seq<char> {
    "[net] partitioned away from "@ + who
}

pub fn partition_line(who: &str) -> (r: String)
    ensures
        r@ == partition_text(who@),
{
    let mut out = string_of("[net] partitioned away from ");
    out.append(who);
    out
}

pub open spec fn vouched_text(who: Seq<char>) -> Seq<char> {
    "[you] vouched for "@ + who
}

pub fn vouched_line(who: &str) -> (r: String)
    ensures
        r@ == vouched_text(who@),
{
    let mut out = string_of("[you] vouched for ");
    out.append(who);
    out
}

} // verus!
