//! Divergence replay: materialize the current island states.
//!
//! Patches replace whole member entries (never partial fields) and may
//! bump an island's local epoch; `log` strings are operator narration and
//! ride along for display.

use crate::collections::{map_insert, SortedMap};
use crate::id::SubjectId;
use crate::lab::scenario::{Event, IslandPatch, IslandView, IslandViewV, MemberEntry, Scenario};
use crate::policy::WEIGHT_LIMIT;
use crate::lab::oracle::{island_in_range, weight_in_range};
use vstd::prelude::*;

verus! {

#[derive(Debug, Clone, PartialEq, Eq)]
pub struct ReplayLog {
    pub island: String,
    pub event_label: String,
    pub detail: String,
}

pub struct ReplayLogV {
    pub island: Seq<char>,
    pub event_label: Seq<char>,
    pub detail: Seq<char>,
}

impl View for ReplayLog {
    type V = ReplayLogV;

    open spec fn view(&self) -> ReplayLogV {
        ReplayLogV { island: self.island@, event_label: self.event_label@, detail: self.detail@ }
    }
}

#[derive(Debug, Clone, PartialEq, Eq)]
pub struct CurrentState {
    pub island_a: IslandView,
    pub island_b: IslandView,
    pub logs: Vec<ReplayLog>,
    /// How many divergence events were replayed to produce this state.
    pub steps_replayed: usize,
}

/// Insert each patched entry, in the patch's order.
pub open spec fn insert_members(
    m: Seq<(Seq<char>, MemberEntry)>,
    entries: Seq<(Seq<char>, MemberEntry)>,
) -> Seq<(Seq<char>, MemberEntry)>
    decreases entries.len(),
{
    if entries.len() == 0 {
        m
    } else {
        map_insert::<SubjectId, MemberEntry>(
            insert_members(m, entries.drop_last()),
            entries.last().0,
            entries.last().1,
        )
    }
}

/// An island after one (optional) patch.
pub open spec fn patched(v: IslandViewV, p: Option<IslandPatch>) -> IslandViewV {
    match p {
        None => v,
        Some(p) => IslandViewV {
            local_epoch: match p.local_epoch {
                Some(e) => e,
                None => v.local_epoch,
            },
            members: match p.members {
                Some(m) => insert_members(v.members, m@),
                None => v.members,
            },
            ..v
        },
    }
}

/// The narration one (optional) patch contributes.
pub open spec fn patch_logs(island: Seq<char>, label: Seq<char>, p: Option<IslandPatch>) -> Seq<ReplayLogV> {
    match p {
        Some(p) => match p.log {
            Some(l) => seq![ReplayLogV { island, event_label: label, detail: l@ }],
            None => Seq::empty(),
        },
        None => Seq::empty(),
    }
}

/// Both islands and the narration after replaying `events` in order.
pub open spec fn replay(a: IslandViewV, b: IslandViewV, events: Seq<Event>) -> (IslandViewV, IslandViewV, Seq<ReplayLogV>)
    decreases events.len(),
{
    if events.len() == 0 {
        (a, b, Seq::empty())
    } else {
        let (pa, pb, logs) = replay(a, b, events.drop_last());
        let e = events.last();
        (
            patched(pa, e.patches.island_a),
            patched(pb, e.patches.island_b),
            logs + patch_logs("island_a"@, e.label@, e.patches.island_a) + patch_logs(
                "island_b"@,
                e.label@,
                e.patches.island_b,
            ),
        )
    }
}

fn apply_patch(island: &mut IslandView, patch: &Option<IslandPatch>)
    ensures
        final(island)@ == patched(old(island)@, *patch),
{
    match patch {
        None => {},
        Some(p) => {
            if let Some(epoch) = p.local_epoch {
                island.local_epoch = epoch;
            }
            if let Some(members) = &p.members {
                let ghost m0 = island.members@;
                let ghost l0 = island.label@;
                let ghost s0 = island.scope;
                let ghost e0 = island.local_epoch;
                let mut i: usize = 0;
                while i < members.len()
                    invariant
                        i <= members@.len(),
                        island.label@ == l0,
                        island.scope == s0,
                        island.local_epoch == e0,
                        island.members@ == insert_members(m0, members@.subrange(0, i as int)),
                    decreases members@.len() - i,
                {
                    let id = members.key_at(i).duplicate();
                    let entry = members.value_at(i).duplicate();
                    island.members.insert(id, entry);
                    proof {
                        let next = members@.subrange(0, i + 1);
                        assert(next.drop_last() =~= members@.subrange(0, i as int));
                    }
                    i = i + 1;
                }
                assert(members@.subrange(0, i as int) =~= members@);
            }
        },
    }
}

fn push_patch_log(logs: &mut Vec<ReplayLog>, island: &str, label: &String, patch: &Option<IslandPatch>)
    ensures
        final(logs)@.map_values(|l: ReplayLog| l@) == old(logs)@.map_values(|l: ReplayLog| l@) + patch_logs(
            island@,
            label@,
            *patch,
        ),
{
    let ghost before = logs@.map_values(|l: ReplayLog| l@);
    if let Some(p) = patch {
        if let Some(detail) = &p.log {
            logs.push(ReplayLog { island: crate::text::string_of(island), event_label: label.clone(), detail: detail.clone() });
            assert(logs@.map_values(|l: ReplayLog| l@) =~= before + patch_logs(island@, label@, *patch));
            return;
        }
    }
    assert(logs@.map_values(|l: ReplayLog| l@) =~= before + patch_logs(island@, label@, *patch));
}

/// The replayed prefix length: `steps` clamped to the event count.
pub open spec fn clamped_steps(s: Scenario, steps: usize) -> int {
    if steps <= s.events@.len() {
        steps as int
    } else {
        s.events@.len() as int
    }
}

/// Replay the first `steps` divergence events over the initial islands.
/// `steps` is clamped to the scenario's event count.
pub fn materialize(scenario: &Scenario, steps: usize) -> (r: CurrentState)
    ensures
        ({
            let n = clamped_steps(*scenario, steps);
            let (a, b, logs) = replay(
                scenario.initial.island_a@,
                scenario.initial.island_b@,
                scenario.events@.subrange(0, n),
            );
            &&& r.island_a@ == a
            &&& r.island_b@ == b
            &&& r.logs@.map_values(|l: ReplayLog| l@) == logs
            &&& r.steps_replayed == n
        }),
{
    let mut island_a = scenario.initial.island_a.duplicate();
    let mut island_b = scenario.initial.island_b.duplicate();
    let mut logs: Vec<ReplayLog> = Vec::new();
    let n = if steps <= scenario.events.len() {
        steps
    } else {
        scenario.events.len()
    };
    let ghost ia = scenario.initial.island_a@;
    let ghost ib = scenario.initial.island_b@;
    assert(logs@.map_values(|l: ReplayLog| l@) =~= Seq::<ReplayLogV>::empty());
    let mut i: usize = 0;
    while i < n
        invariant
            n <= scenario.events@.len(),
            i <= n,
            ia == scenario.initial.island_a@,
            ib == scenario.initial.island_b@,
            ({
                let (a, b, l) = replay(ia, ib, scenario.events@.subrange(0, i as int));
                &&& island_a@ == a
                &&& island_b@ == b
                &&& logs@.map_values(|x: ReplayLog| x@) == l
            }),
        decreases n - i,
    {
        let event = &scenario.events[i];
        proof {
            let next = scenario.events@.subrange(0, i + 1);
            assert(next.drop_last() =~= scenario.events@.subrange(0, i as int));
            assert(next.last() == *event);
        }
        apply_patch(&mut island_a, &event.patches.island_a);
        apply_patch(&mut island_b, &event.patches.island_b);
        push_patch_log(&mut logs, "island_a", &event.label, &event.patches.island_a);
        push_patch_log(&mut logs, "island_b", &event.label, &event.patches.island_b);
        i = i + 1;
    }
    CurrentState { island_a, island_b, logs, steps_replayed: n }
}


/// Every entry of a member table carries a trust weight in range.
pub open spec fn entries_in_range(m: Seq<(Seq<char>, MemberEntry)>) -> bool {
    forall|i: int| 0 <= i < m.len() ==> weight_in_range(Some(#[trigger] m[i].1))
}

pub open spec fn patch_in_range(p: Option<IslandPatch>) -> bool {
    p matches Some(x) ==> (x.members matches Some(m) ==> entries_in_range(m@))
}

/// The scenario's initial islands and every patch carry trust weights in
/// range, so every replayed state does too.
pub open spec fn scenario_in_range(s: Scenario) -> bool {
    &&& entries_in_range(s.initial.island_a@.members)
    &&& entries_in_range(s.initial.island_b@.members)
    &&& forall|i: int|
        0 <= i < s.events@.len() ==> patch_in_range(#[trigger] s.events@[i].patches.island_a) && patch_in_range(
            s.events@[i].patches.island_b,
        )
}

proof fn lemma_insert_members_in_range(m: Seq<(Seq<char>, MemberEntry)>, entries: Seq<(Seq<char>, MemberEntry)>)
    requires
        entries_in_range(m),
        entries_in_range(entries),
    ensures
        entries_in_range(insert_members(m, entries)),
    decreases entries.len(),
{
    if entries.len() > 0 {
        let rest = entries.drop_last();
        assert forall|i: int| 0 <= i < rest.len() implies weight_in_range(Some(#[trigger] rest[i].1)) by {
            assert(rest[i] == entries[i]);
        }
        lemma_insert_members_in_range(m, rest);
        let prev = insert_members(m, rest);
        let k = entries.last().0;
        let v = entries.last().1;
        assert(weight_in_range(Some(v)));
        let p = crate::collections::lower_bound::<SubjectId>(crate::collections::keys_of(prev), k);
        crate::collections::lemma_lower_bound_props::<SubjectId>(crate::collections::keys_of(prev), k);
        let next = map_insert::<SubjectId, MemberEntry>(prev, k, v);
        assert forall|i: int| 0 <= i < next.len() implies weight_in_range(Some(#[trigger] next[i].1)) by {
            if p < prev.len() && prev[p].0 == k {
                if i != p {
                    assert(next[i] == prev[i]);
                }
            } else {
                if i < p {
                    assert(next[i] == prev[i]);
                } else if i > p {
                    assert(next[i] == prev[i - 1]);
                }
            }
        }
    }
}

/// Replaying any prefix of an in-range scenario keeps both islands in range.
pub proof fn lemma_replay_in_range(s: Scenario, n: int)
    requires
        scenario_in_range(s),
        0 <= n <= s.events@.len(),
    ensures
        island_in_range(replay(s.initial.island_a@, s.initial.island_b@, s.events@.subrange(0, n)).0),
        island_in_range(replay(s.initial.island_a@, s.initial.island_b@, s.events@.subrange(0, n)).1),
    decreases n,
{
    let evs = s.events@.subrange(0, n);
    if n > 0 {
        lemma_replay_in_range(s, n - 1);
        assert(evs.drop_last() =~= s.events@.subrange(0, n - 1));
        let (a, b, _) = replay(s.initial.island_a@, s.initial.island_b@, s.events@.subrange(0, n - 1));
        let e = s.events@[n - 1];
        assert(evs.last() == e);
        assert(patch_in_range(e.patches.island_a) && patch_in_range(e.patches.island_b));
        match e.patches.island_a {
            Some(p) => match p.members {
                Some(m) => lemma_insert_members_in_range(a.members, m@),
                None => {},
            },
            None => {},
        }
        match e.patches.island_b {
            Some(p) => match p.members {
                Some(m) => lemma_insert_members_in_range(b.members, m@),
                None => {},
            },
            None => {},
        }
    } else {
        assert(evs =~= Seq::<Event>::empty());
    }
}

fn table_in_range(m: &SortedMap<SubjectId, MemberEntry>) -> (r: bool)
    ensures
        r == entries_in_range(m@),
{
    let mut i: usize = 0;
    while i < m.len()
        invariant
            i <= m@.len(),
            forall|j: int| 0 <= j < i ==> weight_in_range(Some(#[trigger] m@[j].1)),
        decreases m@.len() - i,
    {
        let w = m.value_at(i).trust_weight;
        if !(-WEIGHT_LIMIT <= w && w <= WEIGHT_LIMIT) {
            assert(!weight_in_range(Some(m@[i as int].1)));
            return false;
        }
        i = i + 1;
    }
    true
}

fn patch_ok(p: &Option<IslandPatch>) -> (r: bool)
    ensures
        r == patch_in_range(*p),
{
    match p {
        Some(x) => match &x.members {
            Some(m) => table_in_range(m),
            None => true,
        },
        None => true,
    }
}

/// Whether every trust weight in the scenario (initial islands and every
/// patch) lies within the range the merge arithmetic carries.
pub fn weights_in_range(s: &Scenario) -> (r: bool)
    ensures
        r == scenario_in_range(*s),
{
    if !table_in_range(&s.initial.island_a.members) || !table_in_range(&s.initial.island_b.members) {
        return false;
    }
    let mut i: usize = 0;
    while i < s.events.len()
        invariant
            i <= s.events@.len(),
            entries_in_range(s.initial.island_a@.members),
            entries_in_range(s.initial.island_b@.members),
            forall|j: int|
                0 <= j < i ==> patch_in_range(#[trigger] s.events@[j].patches.island_a) && patch_in_range(
                    s.events@[j].patches.island_b,
                ),
        decreases s.events@.len() - i,
    {
        if !patch_ok(&s.events[i].patches.island_a) || !patch_ok(&s.events[i].patches.island_b) {
            return false;
        }
        i = i + 1;
    }
    true
}

} // verus!
