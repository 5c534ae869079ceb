//! The operator's command line: trimming, splitting into words, and the
//! commands of the chat node and of the blocklist daemon.

use crate::belief::state::BeliefState;
use crate::evidence::{AssertedState, ObservationMode, Stance};
use crate::net::wire::Moderation;
use crate::text::{join_with, string_of};
use vstd::prelude::*;
use vstd::string::{StrSliceExecFns, StringExecFns};

verus! {

/// Unicode `White_Space`, the class that `str::trim` and
/// `str::split_whitespace` strip and split on.
pub open spec fn is_ws(c: char) -> bool {
    let n = c as u32;
    (0x9 <= n && n <= 0xd) || n == 0x20 || n == 0x85 || n == 0xa0 || n == 0x1680 || (0x2000 <= n
        && n <= 0x200a) || n == 0x2028 || n == 0x2029 || n == 0x202f || n == 0x205f || n == 0x3000
}

pub fn char_is_ws(c: char) -> (r: bool)
    ensures
        r == is_ws(c),
{
    let n = c as u32;
    (0x9 <= n && n <= 0xd) || n == 0x20 || n == 0x85 || n == 0xa0 || n == 0x1680 || (0x2000 <= n
        && n <= 0x200a) || n == 0x2028 || n == 0x2029 || n == 0x202f || n == 0x205f || n == 0x3000
}

pub open spec fn trim_start(s: Seq<char>) -> Seq<char>
    decreases s.len(),
{
    if s.len() > 0 && is_ws(s[0]) {
        trim_start(s.drop_first())
    } else {
        s
    }
}

pub open spec fn trim_end(s: Seq<char>) -> Seq<char>
    decreases s.len(),
{
    if s.len() > 0 && is_ws(s.last()) {
        trim_end(s.drop_last())
    } else {
        s
    }
}

/// Leading and trailing whitespace removed.
pub open spec fn trim(s: Seq<char>) -> Seq<char> {
    trim_end(trim_start(s))
}

/// The maximal runs of non-whitespace characters, in order.
pub open spec fn words(s: Seq<char>) -> Seq<Seq<char>>
    decreases s.len(),
{
    if s.len() == 0 {
        Seq::empty()
    } else {
        let w = words(s.drop_last());
        let c = s.last();
        if is_ws(c) {
            w
        } else if s.len() >= 2 && !is_ws(s[s.len() - 2]) {
            w.drop_last().push(w.last().push(c))
        } else {
            w.push(seq![c])
        }
    }
}

pub fn trim_str(s: &str) -> (r: &str)
    ensures
        r@ == trim(s@),
{
    let n = s.unicode_len();
    let mut i: usize = 0;
    assert(s@.subrange(0, n as int) =~= s@);
    while i < n && char_is_ws(s.get_char(i))
        invariant
            n == s@.len(),
            i <= n,
            trim_start(s@) == trim_start(s@.subrange(i as int, n as int)),
        decreases n - i,
    {
        assert(s@.subrange(i as int, n as int).drop_first() =~= s@.subrange(i + 1, n as int));
        i = i + 1;
    }
    assert(trim_start(s@) == s@.subrange(i as int, n as int));
    let mut j: usize = n;
    while j > i && char_is_ws(s.get_char(j - 1))
        invariant
            n == s@.len(),
            i <= j <= n,
            trim(s@) == trim_end(s@.subrange(i as int, j as int)),
        decreases j,
    {
        assert(s@.subrange(i as int, j as int).drop_last() =~= s@.subrange(i as int, j - 1));
        j = j - 1;
    }
    s.substring_char(i, j)
}

/// `words(s)` has a first word when `s` starts with a non-whitespace
/// character.
pub proof fn lemma_words_nonempty(s: Seq<char>)
    requires
        s.len() > 0,
        !is_ws(s[0]),
    ensures
        words(s).len() > 0,
    decreases s.len(),
{
    if s.len() > 1 {
        lemma_words_nonempty(s.drop_last());
    }
}

proof fn lemma_words_skip_leading_space(s: Seq<char>)
    requires
        s.len() > 0,
        is_ws(s[0]),
    ensures
        words(s) == words(s.drop_first()),
    decreases s.len(),
{
    if s.len() > 1 {
        assert(s.drop_last().drop_first() =~= s.drop_first().drop_last());
        lemma_words_skip_leading_space(s.drop_last());
        if s.len() > 2 {
            assert(s.drop_first()[s.len() - 3] == s[s.len() - 2]);
        }
        assert(s.drop_first().last() == s.last());
    } else {
        assert(s.drop_first() =~= Seq::<char>::empty());
        assert(s.drop_last() =~= Seq::<char>::empty());
    }
}

proof fn lemma_words_trim_start(s: Seq<char>)
    ensures
        words(trim_start(s)) == words(s),
    decreases s.len(),
{
    if s.len() > 0 && is_ws(s[0]) {
        lemma_words_skip_leading_space(s);
        lemma_words_trim_start(s.drop_first());
    }
}

proof fn lemma_words_trim_end(s: Seq<char>)
    ensures
        words(trim_end(s)) == words(s),
    decreases s.len(),
{
    if s.len() > 0 && is_ws(s.last()) {
        lemma_words_trim_end(s.drop_last());
    }
}

/// Trimming never changes the words of a line, so the daemon, which
/// splits the raw line, and the node, which trims it first, read the
/// same command word.
pub proof fn lemma_words_ignore_trim(s: Seq<char>)
    ensures
        words(trim(s)) == words(s),
{
    lemma_words_trim_end(trim_start(s));
    lemma_words_trim_start(s);
}

pub fn split_words(s: &str) -> (r: Vec<String>)
    ensures
        r@.map_values(|w: String| w@) == words(s@),
{
    let n = s.unicode_len();
    let mut out: Vec<String> = Vec::new();
    let mut start: usize = 0;
    let mut in_word = false;
    let mut k: usize = 0;
    while k < n
        invariant
            n == s@.len(),
            k <= n,
            in_word <==> (k > 0 && !is_ws(s@[k - 1])),
            in_word ==> start < k,
            words(s@.subrange(0, k as int)) == out@.map_values(|w: String| w@) + (if in_word {
                seq![s@.subrange(start as int, k as int)]
            } else {
                Seq::empty()
            }),
        decreases n - k,
    {
        let c = s.get_char(k);
        let ghost pre = s@.subrange(0, k as int);
        let ghost next = s@.subrange(0, k + 1);
        let ghost before = out@.map_values(|w: String| w@);
        assert(next.drop_last() =~= pre);
        assert(next.last() == c);
        if char_is_ws(c) {
            if in_word {
                out.push(s.substring_char(start, k).to_owned());
                assert(out@.map_values(|w: String| w@) =~= before.push(s@.subrange(start as int, k as int)));
            }
            in_word = false;
        } else if in_word {
            proof {
                assert(next[k - 1] == s@[k - 1]);
                assert(s@.subrange(start as int, k as int).push(c) =~= s@.subrange(start as int, k + 1));
            }
        } else {
            proof {
                assert(k >= 1 ==> next[k - 1] == s@[k - 1]);
                assert(seq![c] =~= s@.subrange(k as int, k + 1));
            }
            start = k;
            in_word = true;
        }
        k = k + 1;
        assert(words(s@.subrange(0, k as int)) =~= out@.map_values(|w: String| w@) + (if in_word {
            seq![s@.subrange(start as int, k as int)]
        } else {
            Seq::empty()
        }));
    }
    assert(s@.subrange(0, n as int) =~= s@);
    if in_word {
        let ghost before = out@.map_values(|w: String| w@);
        out.push(s.substring_char(start, n).to_owned());
        assert(out@.map_values(|w: String| w@) =~= before.push(s@.subrange(start as int, n as int)));
    } else {
        assert(out@.map_values(|w: String| w@) =~= out@.map_values(|w: String| w@) + Seq::empty());
    }
    out
}

/// Whether `s` spells the literal `lit`.
pub fn is_word(s: &String, lit: &str) -> (r: bool)
    ensures
        r == (s@ == lit@),
{
    *s == string_of(lit)
}

/// Strings joined by single spaces.
pub fn join_strings(ws: &[String]) -> (r: String)
    ensures
        r@ == join_with(ws@.map_values(|w: String| w@), " "@),
{
    let mut out = String::new();
    let mut k: usize = 0;
    while k < ws.len()
        invariant
            k <= ws@.len(),
            out@ == join_with(ws@.subrange(0, k as int).map_values(|w: String| w@), " "@),
        decreases ws@.len() - k,
    {
        let ghost pre = ws@.subrange(0, k as int).map_values(|w: String| w@);
        let ghost next = ws@.subrange(0, k + 1).map_values(|w: String| w@);
        assert(next.drop_last() =~= pre);
        if k > 0 {
            out.append(" ");
        }
        out.append(ws[k].as_str());
        k = k + 1;
        assert(out@ =~= join_with(next, " "@));
    }
    assert(ws@.subrange(0, k as int) =~= ws@);
    out
}

pub open spec fn first_word(ws: Seq<Seq<char>>) -> Option<Seq<char>> {
    if ws.len() > 0 {
        Some(ws[0])
    } else {
        None
    }
}

pub open spec fn default_reason(action: Moderation) -> Seq<char> {
    match action {
        Moderation::Mute => "Mute by moderator"@,
        Moderation::Ban => "Ban by moderator"@,
    }
}

/// The reason a moderation carries: the words after the target, or a
/// default naming the action.
pub open spec fn moderation_reason(args: Seq<Seq<char>>, action: Moderation) -> Seq<char> {
    let given = if args.len() >= 1 {
        join_with(args.drop_first(), " "@)
    } else {
        Seq::empty()
    };
    if given.len() == 0 {
        default_reason(action)
    } else {
        given
    }
}

/// A line typed at a chat node.
pub enum NodeCommand {
    Nothing,
    Chat(String),
    Roster,
    Status,
    Vouch(Option<String>),
    Moderate(Moderation, Option<String>, String),
    Override(Option<String>, Option<String>),
    Split(Vec<String>),
    Heal,
    Why(Option<String>),
    Peers,
    Help,
    Unknown(String),
}

pub enum NodeCommandV {
    Nothing,
    Chat(Seq<char>),
    Roster,
    Status,
    Vouch(Option<Seq<char>>),
    Moderate(Moderation, Option<Seq<char>>, Seq<char>),
    Override(Option<Seq<char>>, Option<Seq<char>>),
    Split(Seq<Seq<char>>),
    Heal,
    Why(Option<Seq<char>>),
    Peers,
    Help,
    Unknown(Seq<char>),
}

pub open spec fn opt_view(o: Option<String>) -> Option<Seq<char>> {
    match o {
        Some(s) => Some(s@),
        None => None,
    }
}

impl View for NodeCommand {
    type V = NodeCommandV;

    open spec fn view(&self) -> NodeCommandV {
        match self {
            NodeCommand::Nothing => NodeCommandV::Nothing,
            NodeCommand::Chat(t) => NodeCommandV::Chat(t@),
            NodeCommand::Roster => NodeCommandV::Roster,
            NodeCommand::Status => NodeCommandV::Status,
            NodeCommand::Vouch(p) => NodeCommandV::Vouch(opt_view(*p)),
            NodeCommand::Moderate(a, p, r) => NodeCommandV::Moderate(*a, opt_view(*p), r@),
            NodeCommand::Override(p, st) => NodeCommandV::Override(opt_view(*p), opt_view(*st)),
            NodeCommand::Split(ps) => NodeCommandV::Split(ps@.map_values(|w: String| w@)),
            NodeCommand::Heal => NodeCommandV::Heal,
            NodeCommand::Why(p) => NodeCommandV::Why(opt_view(*p)),
            NodeCommand::Peers => NodeCommandV::Peers,
            NodeCommand::Help => NodeCommandV::Help,
            NodeCommand::Unknown(n) => NodeCommandV::Unknown(n@),
        }
    }
}

/// What a typed line asks of the node: nothing for a blank line, chat
/// for a line without a leading slash, otherwise the command its first
/// word names, with the words after it as arguments.
pub open spec fn spec_parse_command(line: Seq<char>) -> NodeCommandV {
    let t = trim(line);
    if t.len() == 0 {
        NodeCommandV::Nothing
    } else if t[0] != '/' {
        NodeCommandV::Chat(t)
    } else {
        let w = words(t);
        let name = w[0];
        let args = w.drop_first();
        if name == "/roster"@ {
            NodeCommandV::Roster
        } else if name == "/status"@ {
            NodeCommandV::Status
        } else if name == "/vouch"@ {
            NodeCommandV::Vouch(first_word(args))
        } else if name == "/mute"@ {
            NodeCommandV::Moderate(
                Moderation::Mute,
                first_word(args),
                moderation_reason(args, Moderation::Mute),
            )
        } else if name == "/ban"@ {
            NodeCommandV::Moderate(
                Moderation::Ban,
                first_word(args),
                moderation_reason(args, Moderation::Ban),
            )
        } else if name == "/override"@ {
            NodeCommandV::Override(
                first_word(args),
                if args.len() > 1 {
                    Some(args[1])
                } else {
                    None
                },
            )
        } else if name == "/split"@ {
            NodeCommandV::Split(args)
        } else if name == "/heal"@ {
            NodeCommandV::Heal
        } else if name == "/why"@ {
            NodeCommandV::Why(first_word(args))
        } else if name == "/peers"@ {
            NodeCommandV::Peers
        } else if name == "/help"@ {
            NodeCommandV::Help
        } else {
            NodeCommandV::Unknown(name)
        }
    }
}

fn first_arg(args: &[String]) -> (r: Option<String>)
    ensures
        opt_view(r) == first_word(args@.map_values(|w: String| w@)),
{
    if args.len() > 0 {
        Some(args[0].clone())
    } else {
        None
    }
}

fn reason_of(args: &[String], action: Moderation) -> (r: String)
    ensures
        r@ == moderation_reason(args@.map_values(|w: String| w@), action),
{
    let ghost ws = args@.map_values(|w: String| w@);
    let given = if args.len() >= 1 {
        let rest = &args[1..args.len()];
        proof {
            assert(rest@.map_values(|w: String| w@) =~= ws.drop_first());
        }
        join_strings(rest)
    } else {
        String::new()
    };
    if given.unicode_len() == 0 {
        match action {
            Moderation::Mute => string_of("Mute by moderator"),
            Moderation::Ban => string_of("Ban by moderator"),
        }
    } else {
        given
    }
}

/// Parse a line typed at a chat node.
pub fn parse_command(line: &str) -> (r: NodeCommand)
    ensures
        r@ == spec_parse_command(line@),
{
    let t = trim_str(line);
    let n = t.unicode_len();
    if n == 0 {
        return NodeCommand::Nothing;
    }
    if t.get_char(0) != '/' {
        return NodeCommand::Chat(string_of(t));
    }
    let w = split_words(t);
    proof {
        lemma_words_nonempty(t@);
    }
    let ghost ws = w@.map_values(|x: String| x@);
    assert(w@.len() == ws.len());
    let name = &w[0];
    let args = &w.as_slice()[1..w.len()];
    assert(args@.map_values(|x: String| x@) =~= ws.drop_first());
    if is_word(name, "/roster") {
        NodeCommand::Roster
    } else if is_word(name, "/status") {
        NodeCommand::Status
    } else if is_word(name, "/vouch") {
        NodeCommand::Vouch(first_arg(args))
    } else if is_word(name, "/mute") {
        NodeCommand::Moderate(Moderation::Mute, first_arg(args), reason_of(args, Moderation::Mute))
    } else if is_word(name, "/ban") {
        NodeCommand::Moderate(Moderation::Ban, first_arg(args), reason_of(args, Moderation::Ban))
    } else if is_word(name, "/override") {
        let state = if args.len() > 1 {
            Some(args[1].clone())
        } else {
            None
        };
        NodeCommand::Override(first_arg(args), state)
    } else if is_word(name, "/split") {
        let mut ps: Vec<String> = Vec::new();
        let mut k: usize = 0;
        while k < args.len()
            invariant
                k <= args@.len(),
                ps@.map_values(|x: String| x@) == args@.subrange(0, k as int).map_values(|x: String| x@),
            decreases args@.len() - k,
        {
            let ghost before = ps@.map_values(|x: String| x@);
            let c = args[k].clone();
            ps.push(c);
            assert(ps@.map_values(|x: String| x@) =~= before.push(args@[k as int]@));
            k = k + 1;
            assert(ps@.map_values(|x: String| x@) =~= args@.subrange(0, k as int).map_values(|x: String| x@));
        }
        assert(args@.subrange(0, k as int) =~= args@);
        NodeCommand::Split(ps)
    } else if is_word(name, "/heal") {
        NodeCommand::Heal
    } else if is_word(name, "/why") {
        NodeCommand::Why(first_arg(args))
    } else if is_word(name, "/peers") {
        NodeCommand::Peers
    } else if is_word(name, "/help") {
        NodeCommand::Help
    } else {
        NodeCommand::Unknown(name.clone())
    }
}

/// A line typed at the blocklist daemon. Lines it does not claim go to
/// the chat node's own commands.
pub enum BlockCommand {
    Block(Option<String>),
    Confirm(Option<String>),
    Dispute(Option<String>),
    List,
    Why(Option<String>),
    Retire(Option<String>),
    Shared,
}

pub enum BlockCommandV {
    Block(Option<Seq<char>>),
    Confirm(Option<Seq<char>>),
    Dispute(Option<Seq<char>>),
    List,
    Why(Option<Seq<char>>),
    Retire(Option<Seq<char>>),
    Shared,
}

impl View for BlockCommand {
    type V = BlockCommandV;

    open spec fn view(&self) -> BlockCommandV {
        match self {
            BlockCommand::Block(h) => BlockCommandV::Block(opt_view(*h)),
            BlockCommand::Confirm(h) => BlockCommandV::Confirm(opt_view(*h)),
            BlockCommand::Dispute(h) => BlockCommandV::Dispute(opt_view(*h)),
            BlockCommand::List => BlockCommandV::List,
            BlockCommand::Why(h) => BlockCommandV::Why(opt_view(*h)),
            BlockCommand::Retire(h) => BlockCommandV::Retire(opt_view(*h)),
            BlockCommand::Shared => BlockCommandV::Shared,
        }
    }
}

/// The daemon's reading of a line: its first word names the command and
/// the word after it the handle.
pub open spec fn spec_parse_block_command(line: Seq<char>) -> BlockCommandV {
    let w = words(line);
    if w.len() == 0 {
        BlockCommandV::Shared
    } else {
        let name = w[0];
        let handle = first_word(w.drop_first());
        if name == "/block"@ {
            BlockCommandV::Block(handle)
        } else if name == "/confirm"@ {
            BlockCommandV::Confirm(handle)
        } else if name == "/dispute"@ {
            BlockCommandV::Dispute(handle)
        } else if name == "/list"@ {
            BlockCommandV::List
        } else if name == "/why"@ {
            BlockCommandV::Why(handle)
        } else if name == "/retire"@ {
            BlockCommandV::Retire(handle)
        } else {
            BlockCommandV::Shared
        }
    }
}

pub fn parse_block_command(line: &str) -> (r: BlockCommand)
    ensures
        r@ == spec_parse_block_command(line@),
{
    let w = split_words(line);
    let ghost ws = w@.map_values(|x: String| x@);
    assert(w@.len() == ws.len());
    if w.len() == 0 {
        return BlockCommand::Shared;
    }
    let name = &w[0];
    let args = &w.as_slice()[1..w.len()];
    assert(args@.map_values(|x: String| x@) =~= ws.drop_first());
    let handle = first_arg(args);
    if is_word(name, "/block") {
        BlockCommand::Block(handle)
    } else if is_word(name, "/confirm") {
        BlockCommand::Confirm(handle)
    } else if is_word(name, "/dispute") {
        BlockCommand::Dispute(handle)
    } else if is_word(name, "/list") {
        BlockCommand::List
    } else if is_word(name, "/why") {
        BlockCommand::Why(handle)
    } else if is_word(name, "/retire") {
        BlockCommand::Retire(handle)
    } else {
        BlockCommand::Shared
    }
}

/// How a block entry's standing reads in the daemon's list.
pub open spec fn verdict_text(state: BeliefState) -> Seq<char> {
    match state {
        BeliefState::Accepted => "BLOCKED"@,
        BeliefState::Provisional => "blocked (provisional)"@,
        BeliefState::Witnessed | BeliefState::Introduced => "proposed"@,
        BeliefState::Disputed => "DISPUTED"@,
        BeliefState::Quarantined => "suspended"@,
        BeliefState::Removed => "retired"@,
        _ => "unknown"@,
    }
}

pub fn block_verdict(state: BeliefState) -> (r: &'static str)
    ensures
        r@ == verdict_text(state),
{
    match state {
        BeliefState::Accepted => "BLOCKED",
        BeliefState::Provisional => "blocked (provisional)",
        BeliefState::Witnessed | BeliefState::Introduced => "proposed",
        BeliefState::Disputed => "DISPUTED",
        BeliefState::Quarantined => "suspended",
        BeliefState::Removed => "retired",
        _ => "unknown",
    }
}

/// What the daemon asks of its node for a command: the belief inputs it
/// proposes, in order. Listing, explaining and the shared commands only
/// read; a command without its handle asks nothing.
pub enum NodeAction {
    /// Introduce the subject with the asserted state.
    Introduce { subject: String, asserted: AssertedState },
    /// File this node's own witness record about the subject.
    Witness { subject: String, mode: ObservationMode, stance: Stance },
    /// Publish an operator override that forces the subject's state.
    PublishOverride { subject: String, forced: BeliefState, reason: String },
}

pub enum NodeActionV {
    Introduce { subject: Seq<char>, asserted: AssertedState },
    Witness { subject: Seq<char>, mode: ObservationMode, stance: Stance },
    PublishOverride { subject: Seq<char>, forced: BeliefState, reason: Seq<char> },
}

impl View for NodeAction {
    type V = NodeActionV;

    open spec fn view(&self) -> NodeActionV {
        match self {
            NodeAction::Introduce { subject, asserted } => NodeActionV::Introduce {
                subject: subject@,
                asserted: *asserted,
            },
            NodeAction::Witness { subject, mode, stance } => NodeActionV::Witness {
                subject: subject@,
                mode: *mode,
                stance: *stance,
            },
            NodeAction::PublishOverride { subject, forced, reason } => NodeActionV::PublishOverride {
                subject: subject@,
                forced: *forced,
                reason: reason@,
            },
        }
    }
}

/// The reason a retirement override carries.
pub open spec fn retire_reason() -> Seq<char> {
    "federation root retired the block entry"@
}

/// The daemon's actions for a command: `/block` proposes the handle as
/// compromised and counts the proposer's own inspection as the first
/// corroboration; `/confirm` corroborates by challenge-response; `/dispute`
/// disputes by inspection; `/retire` forces the entry to removed.
pub open spec fn spec_block_actions(cmd: BlockCommandV) -> Seq<NodeActionV> {
    match cmd {
        BlockCommandV::Block(Some(h)) => seq![
            NodeActionV::Introduce { subject: h, asserted: AssertedState::Compromised },
            NodeActionV::Witness { subject: h, mode: ObservationMode::AdminInspection, stance: Stance::Corroborate },
        ],
        BlockCommandV::Confirm(Some(h)) => seq![
            NodeActionV::Witness { subject: h, mode: ObservationMode::ChallengeResponse, stance: Stance::Corroborate },
        ],
        BlockCommandV::Dispute(Some(h)) => seq![
            NodeActionV::Witness { subject: h, mode: ObservationMode::AdminInspection, stance: Stance::Dispute },
        ],
        BlockCommandV::Retire(Some(h)) => seq![
            NodeActionV::PublishOverride { subject: h, forced: BeliefState::Removed, reason: retire_reason() },
        ],
        _ => Seq::empty(),
    }
}

/// The node actions a daemon command asks for, in order.
pub fn block_actions(cmd: &BlockCommand) -> (r: Vec<NodeAction>)
    ensures
        r@.map_values(|a: NodeAction| a@) == spec_block_actions(cmd@),
{
    let mut out: Vec<NodeAction> = Vec::new();
    match cmd {
        BlockCommand::Block(Some(h)) => {
            out.push(NodeAction::Introduce { subject: h.clone(), asserted: AssertedState::Compromised });
            out.push(NodeAction::Witness {
                subject: h.clone(),
                mode: ObservationMode::AdminInspection,
                stance: Stance::Corroborate,
            });
        },
        BlockCommand::Confirm(Some(h)) => {
            out.push(NodeAction::Witness {
                subject: h.clone(),
                mode: ObservationMode::ChallengeResponse,
                stance: Stance::Corroborate,
            });
        },
        BlockCommand::Dispute(Some(h)) => {
            out.push(NodeAction::Witness {
                subject: h.clone(),
                mode: ObservationMode::AdminInspection,
                stance: Stance::Dispute,
            });
        },
        BlockCommand::Retire(Some(h)) => {
            out.push(NodeAction::PublishOverride {
                subject: h.clone(),
                forced: BeliefState::Removed,
                reason: string_of("federation root retired the block entry"),
            });
        },
        _ => {},
    }
    proof {
        assert(out@.map_values(|a: NodeAction| a@) =~= spec_block_actions(cmd@));
    }
    out
}

} // verus!
