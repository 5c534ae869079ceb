//! The story desk of the three-pane console: which node the input line
//! speaks as, whether the demo partition is active, and what each story
//! key asks of the three nodes (alice the creator, bob, carol).

use crate::net::command::{trim, trim_str};
use crate::text::string_of;
use vstd::prelude::*;
use vstd::string::{StrSliceExecFns, StringExecFns};

verus! {

pub struct Desk {
    pub partitioned: bool,
    pub focus: usize,
    pub nodes: usize,
}

/// A key the desk reacts to.
pub enum DeskKey {
    Partition,
    Ban,
    Heal,
    Override,
    NextFocus,
    Submit(String),
}

pub enum DeskKeyV {
    Partition,
    Ban,
    Heal,
    Override,
    NextFocus,
    Submit(Seq<char>),
}

impl View for DeskKey {
    type V = DeskKeyV;

    open spec fn view(&self) -> DeskKeyV {
        match self {
            DeskKey::Partition => DeskKeyV::Partition,
            DeskKey::Ban => DeskKeyV::Ban,
            DeskKey::Heal => DeskKeyV::Heal,
            DeskKey::Override => DeskKeyV::Override,
            DeskKey::NextFocus => DeskKeyV::NextFocus,
            DeskKey::Submit(line) => DeskKeyV::Submit(line@),
        }
    }
}

/// What a key asks for: a story beat shown in every pane, and command
/// lines for given nodes, in order.
pub struct DeskAction {
    pub beat: Option<String>,
    pub commands: Vec<(usize, String)>,
}

pub struct DeskActionV {
    pub beat: Option<Seq<char>>,
    pub commands: Seq<(usize, Seq<char>)>,
}

impl View for DeskAction {
    type V = DeskActionV;

    open spec fn view(&self) -> DeskActionV {
        DeskActionV {
            beat: match self.beat {
                Some(b) => Some(b@),
                None => None,
            },
            commands: self.commands@.map_values(|c: (usize, String)| (c.0, c.1@)),
        }
    }
}

pub open spec fn beat_text(label: Seq<char>) -> Seq<char> {
    "== "@ + label + " =="@
}

pub open spec fn quiet() -> DeskActionV {
    DeskActionV { beat: None, commands: Seq::empty() }
}

/// The desk's next state and what it asks, for the three nodes' ids.
pub open spec fn spec_desk_step(
    partitioned: bool,
    focus: usize,
    nodes: usize,
    key: DeskKeyV,
    alice: Seq<char>,
    bob: Seq<char>,
    carol: Seq<char>,
) -> (bool, usize, DeskActionV) {
    match key {
        DeskKeyV::Partition => if partitioned {
            (partitioned, focus, quiet())
        } else {
            (true, focus, DeskActionV {
                beat: Some(beat_text("PARTITION: carol splits off"@)),
                commands: seq![
                    (0usize, "/split "@ + carol),
                    (1usize, "/split "@ + carol),
                    (2usize, "/split "@ + alice + " "@ + bob),
                ],
            })
        },
        DeskKeyV::Ban => (partitioned, focus, DeskActionV {
            beat: Some(beat_text("alice's island bans carol"@)),
            commands: seq![(0usize, "/ban "@ + carol + " posting spam during the split"@)],
        }),
        DeskKeyV::Heal => if !partitioned {
            (partitioned, focus, quiet())
        } else {
            (false, focus, DeskActionV {
                beat: Some(beat_text("HEAL: islands reconnect, deterministic reunion"@)),
                commands: seq![(0usize, "/heal"@), (1usize, "/heal"@), (2usize, "/heal"@)],
            })
        },
        DeskKeyV::Override => (partitioned, focus, DeskActionV {
            beat: Some(beat_text("creator override: carol -> quarantined"@)),
            commands: seq![(0usize, "/override "@ + carol + " quarantined"@)],
        }),
        DeskKeyV::NextFocus => (partitioned, ((focus + 1) % (nodes as int)) as usize, quiet()),
        DeskKeyV::Submit(line) => if trim(line).len() == 0 {
            (partitioned, focus, quiet())
        } else {
            (partitioned, focus, DeskActionV { beat: None, commands: seq![(focus, trim(line))] })
        },
    }
}

fn beat(label: &str) -> (r: Option<String>)
    ensures
        r matches Some(b) && b@ == beat_text(label@),
{
    let mut out = string_of("== ");
    out.append(label);
    out.append(" ==");
    Some(out)
}

fn command(to: usize, head: &str, middle: &str) -> (r: (usize, String))
    ensures
        r.0 == to,
        r.1@ == head@ + middle@,
{
    let mut out = string_of(head);
    out.append(middle);
    (to, out)
}

fn command_with(to: usize, head: &str, middle: &str, tail: &str) -> (r: (usize, String))
    ensures
        r.0 == to,
        r.1@ == head@ + middle@ + tail@,
{
    let mut out = string_of(head);
    out.append(middle);
    out.append(tail);
    (to, out)
}

impl Desk {
    /// React to one key.
    pub fn step(&mut self, key: DeskKey, alice: &str, bob: &str, carol: &str) -> (r: DeskAction)
        requires
            old(self).focus < old(self).nodes,
        ensures
            (final(self).partitioned, final(self).focus, r@) == spec_desk_step(
                old(self).partitioned,
                old(self).focus,
                old(self).nodes,
                key@,
                alice@,
                bob@,
                carol@,
            ),
            final(self).nodes == old(self).nodes,
            final(self).focus < final(self).nodes,
    {
        let quiet = DeskAction { beat: None, commands: Vec::new() };
        assert(quiet@.commands =~= Seq::<(usize, Seq<char>)>::empty());
        match key {
            DeskKey::Partition => {
                if self.partitioned {
                    return quiet;
                }
                self.partitioned = true;
                let mut commands: Vec<(usize, String)> = Vec::new();
                commands.push(command(0, "/split ", carol));
                commands.push(command(1, "/split ", carol));
                let mut both = string_of(alice);
                both.append(" ");
                both.append(bob);
                assert("/split "@ + both@ =~= "/split "@ + alice@ + " "@ + bob@);
                commands.push(command(2, "/split ", both.as_str()));
                let r = DeskAction { beat: beat("PARTITION: carol splits off"), commands };
                assert(r@.commands =~= seq![
                    (0usize, "/split "@ + carol@),
                    (1usize, "/split "@ + carol@),
                    (2usize, "/split "@ + alice@ + " "@ + bob@),
                ]);
                r
            },
            DeskKey::Ban => {
                let mut commands: Vec<(usize, String)> = Vec::new();
                commands.push(command_with(0, "/ban ", carol, " posting spam during the split"));
                let r = DeskAction { beat: beat("alice's island bans carol"), commands };
                assert(r@.commands =~= seq![(0usize, "/ban "@ + carol@ + " posting spam during the split"@)]);
                r
            },
            DeskKey::Heal => {
                if !self.partitioned {
                    return quiet;
                }
                self.partitioned = false;
                let mut commands: Vec<(usize, String)> = Vec::new();
                commands.push((0, string_of("/heal")));
                commands.push((1, string_of("/heal")));
                commands.push((2, string_of("/heal")));
                let r = DeskAction { beat: beat("HEAL: islands reconnect, deterministic reunion"), commands };
                assert(r@.commands =~= seq![(0usize, "/heal"@), (1usize, "/heal"@), (2usize, "/heal"@)]);
                r
            },
            DeskKey::Override => {
                let mut commands: Vec<(usize, String)> = Vec::new();
                commands.push(command_with(0, "/override ", carol, " quarantined"));
                let r = DeskAction { beat: beat("creator override: carol -> quarantined"), commands };
                assert(r@.commands =~= seq![(0usize, "/override "@ + carol@ + " quarantined"@)]);
                r
            },
            DeskKey::NextFocus => {
                self.focus = (self.focus + 1) % self.nodes;
                quiet
            },
            DeskKey::Submit(line) => {
                let t = trim_str(line.as_str());
                if t.unicode_len() == 0 {
                    return quiet;
                }
                let mut commands: Vec<(usize, String)> = Vec::new();
                commands.push((self.focus, string_of(t)));
                let r = DeskAction { beat: None, commands };
                assert(r@.commands =~= seq![(self.focus, trim(line@))]);
                r
            },
        }
    }
}

/// Healing undoes a partition: after a partition and a heal the desk is
/// whole again, and a second partition key while split, or a heal while
/// whole, asks nothing of the nodes.
pub proof fn lemma_heal_undoes_partition(
    focus: usize,
    nodes: usize,
    alice: Seq<char>,
    bob: Seq<char>,
    carol: Seq<char>,
)
    ensures
        ({
            let (p1, f1, _) = spec_desk_step(false, focus, nodes, DeskKeyV::Partition, alice, bob, carol);
            let (p2, f2, _) = spec_desk_step(p1, f1, nodes, DeskKeyV::Heal, alice, bob, carol);
            p1 && !p2 && f2 == focus
        }),
        spec_desk_step(true, focus, nodes, DeskKeyV::Partition, alice, bob, carol).2 == quiet(),
        spec_desk_step(false, focus, nodes, DeskKeyV::Heal, alice, bob, carol).2 == quiet(),
{
}

} // verus!
