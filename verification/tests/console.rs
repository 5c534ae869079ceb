//! The node's and the daemon's command lines, and the text they show.

use resonant::belief::{BeliefState, MembershipView};
use resonant::digest::RepairDigest;
use resonant::scope::ScopeId;
use resonant::epoch::Epoch;
use resonant::id::SubjectId;
use resonant::net::command::{
    block_actions, block_verdict, join_strings, parse_block_command, parse_command, split_words, trim_str,
    BlockCommand, NodeAction, NodeCommand,
};
use resonant::evidence::{AssertedState, ObservationMode, Stance};
use resonant::net::gossip::auto_witness;
use resonant::net::present::{
    advancement_confidence, digest_short, display_name, help_line, keep_tail, log_tone, override_epoch,
    override_state, own_trust, residue_line, resolve_suffix, short_display, status_line, str_ends_with,
    str_starts_with, unknown_command_line, LogTone,
};
use resonant::net::present::{
    chat_line, moderation_line, override_line, own_chat_line, partition_line, peer_line, refused_moderation_line,
    reunion_line, vouched_line, why_header,
};
use resonant::evidence::{Diversity, Quality, WitnessSummary};
use resonant::net::panel::{
    block_entry_line, convergence_strip, newest_lines, pane_heights, pane_title, residue_cell, roster_line,
    standing_cell, standing_tone, StandingTone,
};
use resonant::net::desk::{Desk, DeskAction, DeskKey};
use resonant::net::wire::Moderation;
use resonant::trust::Confidence;

fn strings(words: &[&str]) -> Vec<String> {
    words.iter().map(|w| w.to_string()).collect()
}

#[test]
fn trimming_strips_unicode_whitespace() {
    assert_eq!(trim_str("  \t hello world \n"), "hello world");
    assert_eq!(trim_str("\u{3000}x\u{a0}"), "x");
    assert_eq!(trim_str("   "), "");
}

#[test]
fn words_are_maximal_runs() {
    assert_eq!(split_words("  /ban  carol   spam here "), strings(&["/ban", "carol", "spam", "here"]));
    assert_eq!(split_words(""), Vec::<String>::new());
    assert_eq!(split_words("one"), strings(&["one"]));
    assert_eq!(join_strings(&strings(&["a", "bc", "d"])), "a bc d");
    assert_eq!(join_strings(&[]), "");
}

#[test]
fn blank_lines_do_nothing_and_plain_lines_chat() {
    assert!(matches!(parse_command("   "), NodeCommand::Nothing));
    match parse_command("  hello there  ") {
        NodeCommand::Chat(t) => assert_eq!(t, "hello there"),
        _ => panic!("expected chat"),
    }
}

#[test]
fn commands_carry_their_arguments() {
    assert!(matches!(parse_command("/roster"), NodeCommand::Roster));
    assert!(matches!(parse_command(" /status "), NodeCommand::Status));
    assert!(matches!(parse_command("/heal"), NodeCommand::Heal));
    assert!(matches!(parse_command("/peers"), NodeCommand::Peers));
    assert!(matches!(parse_command("/help"), NodeCommand::Help));
    match parse_command("/vouch abc123") {
        NodeCommand::Vouch(p) => assert_eq!(p.as_deref(), Some("abc123")),
        _ => panic!("expected vouch"),
    }
    match parse_command("/why") {
        NodeCommand::Why(p) => assert_eq!(p, None),
        _ => panic!("expected why"),
    }
    match parse_command("/split a b c") {
        NodeCommand::Split(ps) => assert_eq!(ps, strings(&["a", "b", "c"])),
        _ => panic!("expected split"),
    }
    match parse_command("/override carol removed") {
        NodeCommand::Override(p, s) => {
            assert_eq!(p.as_deref(), Some("carol"));
            assert_eq!(s.as_deref(), Some("removed"));
        }
        _ => panic!("expected override"),
    }
    match parse_command("/frobnicate now") {
        NodeCommand::Unknown(n) => assert_eq!(n, "/frobnicate"),
        _ => panic!("expected unknown"),
    }
}

#[test]
fn moderation_reasons_default_to_the_action() {
    match parse_command("/ban carol posting spam during the split") {
        NodeCommand::Moderate(a, p, r) => {
            assert_eq!(a, Moderation::Ban);
            assert_eq!(p.as_deref(), Some("carol"));
            assert_eq!(r, "posting spam during the split");
        }
        _ => panic!("expected ban"),
    }
    match parse_command("/mute carol") {
        NodeCommand::Moderate(a, _, r) => {
            assert_eq!(a, Moderation::Mute);
            assert_eq!(r, "Mute by moderator");
        }
        _ => panic!("expected mute"),
    }
    match parse_command("/ban") {
        NodeCommand::Moderate(_, p, r) => {
            assert_eq!(p, None);
            assert_eq!(r, "Ban by moderator");
        }
        _ => panic!("expected ban"),
    }
}

#[test]
fn daemon_claims_its_own_commands() {
    match parse_block_command("/block spammer@example.org brigading") {
        BlockCommand::Block(h) => assert_eq!(h.as_deref(), Some("spammer@example.org")),
        _ => panic!("expected block"),
    }
    assert!(matches!(parse_block_command("/confirm"), BlockCommand::Confirm(None)));
    assert!(matches!(parse_block_command("/dispute x"), BlockCommand::Dispute(Some(_))));
    assert!(matches!(parse_block_command("/list"), BlockCommand::List));
    assert!(matches!(parse_block_command("/why x"), BlockCommand::Why(Some(_))));
    assert!(matches!(parse_block_command("/retire x"), BlockCommand::Retire(Some(_))));
    assert!(matches!(parse_block_command("/status"), BlockCommand::Shared));
    assert!(matches!(parse_block_command(""), BlockCommand::Shared));
}

#[test]
fn block_entries_read_by_standing() {
    assert_eq!(block_verdict(BeliefState::Accepted), "BLOCKED");
    assert_eq!(block_verdict(BeliefState::Provisional), "blocked (provisional)");
    assert_eq!(block_verdict(BeliefState::Witnessed), "proposed");
    assert_eq!(block_verdict(BeliefState::Introduced), "proposed");
    assert_eq!(block_verdict(BeliefState::Disputed), "DISPUTED");
    assert_eq!(block_verdict(BeliefState::Quarantined), "suspended");
    assert_eq!(block_verdict(BeliefState::Removed), "retired");
    assert_eq!(block_verdict(BeliefState::Suspected), "unknown");
}

#[test]
fn own_trust_follows_standing() {
    assert_eq!(own_trust(true, None), resonant::trust::TrustGrade::new(90));
    assert_eq!(own_trust(false, Some(BeliefState::Accepted)), resonant::trust::TrustGrade::new(70));
    assert_eq!(own_trust(false, Some(BeliefState::Provisional)), resonant::trust::TrustGrade::new(50));
    assert_eq!(own_trust(false, Some(BeliefState::Witnessed)), resonant::trust::TrustGrade::new(30));
    assert_eq!(advancement_confidence(Some(BeliefState::Provisional)), Confidence::Strong);
    assert_eq!(advancement_confidence(Some(BeliefState::Witnessed)), Confidence::Bounded);
}

#[test]
fn override_states_and_epochs() {
    assert_eq!(override_state(None), Ok(BeliefState::Quarantined));
    assert_eq!(override_state(Some("quarantined".to_string())), Ok(BeliefState::Quarantined));
    assert_eq!(override_state(Some("removed".to_string())), Ok(BeliefState::Removed));
    assert_eq!(override_state(Some("accepted".to_string())), Ok(BeliefState::Accepted));
    assert_eq!(override_state(Some("witnessed".to_string())), Err("[?] cannot override to witnessed".to_string()));
    assert_eq!(override_epoch(None, &SubjectId::new("carol")), Epoch(2));
}

#[test]
fn peers_are_named_and_found_by_suffix() {
    assert_eq!(short_display("12D3KooWabcdefXYZ123"), "\u{2026}XYZ123");
    assert_eq!(short_display("abc"), "\u{2026}abc");
    let nick = "carol".to_string();
    assert_eq!(display_name(Some(&nick), "12D3KooWabcdef"), "carol");
    assert_eq!(display_name(None, "12D3KooWabcdef"), "\u{2026}abcdef");
    let known = strings(&["12D3KooWaaa111", "12D3KooWbbb222", "12D3KooWccc222"]);
    assert_eq!(resolve_suffix(&known, "111"), Some(0));
    assert_eq!(resolve_suffix(&known, "222"), None);
    assert_eq!(resolve_suffix(&known, "999"), None);
    assert_eq!(resolve_suffix(&known, "bb222"), Some(1));
    assert!(str_ends_with("abcdef", "def"));
    assert!(!str_ends_with("ef", "def"));
    assert!(str_starts_with("[net] up", "[net]"));
}

#[test]
fn console_lines() {
    assert_eq!(digest_short(None), "------");
    assert_eq!(residue_line("carol", true, "dispute"), "[residue] carol [handled by override]: dispute");
    assert_eq!(residue_line("carol", false, "dispute"), "[residue] carol: dispute");
    assert_eq!(unknown_command_line("/x"), "[?] unknown command /x (try /help)");
    assert!(help_line().starts_with("commands: /roster /status"));
    assert_eq!(log_tone("== HEAL =="), LogTone::Beat);
    assert_eq!(log_tone("[reunion] deterministic"), LogTone::Reunion);
    assert_eq!(log_tone("[residue] x"), LogTone::Residue);
    assert_eq!(log_tone("[mod] x"), LogTone::Moderation);
    assert_eq!(log_tone("~ quiet"), LogTone::Quiet);
    assert_eq!(log_tone("[net] listening"), LogTone::Quiet);
    assert_eq!(log_tone("hello"), LogTone::Plain);
}

#[test]
fn logs_keep_their_newest_lines() {
    let mut log = strings(&["a", "b", "c", "d"]);
    keep_tail(&mut log, 2);
    assert_eq!(log, strings(&["c", "d"]));
    keep_tail(&mut log, 5);
    assert_eq!(log, strings(&["c", "d"]));
}

#[test]
fn status_names_round_digest_and_residue() {
    let digest = RepairDigest::of(&MembershipView::new(ScopeId::new("room:net"), Epoch(1)));
    let tag: String = digest.content_hash[..6].iter().map(|b| format!("{b:02x}")).collect();
    assert_eq!(
        status_line(12, &digest),
        format!("[status] round 12 | digest {tag} | residue: 0 live (0 unhandled) | disputes: 0")
    );
    let short: String = digest.content_hash[..3].iter().map(|b| format!("{b:02x}")).collect();
    assert_eq!(digest_short(Some(&digest)), short);
    assert_eq!(override_epoch(Some(&digest), &SubjectId::new("carol")), Epoch(2));
}

#[test]
fn narration_lines() {
    assert_eq!(chat_line(Some(BeliefState::Accepted), "bob", "hi"), format!("{} bob: hi", resonant::net::wire::state_glyph(BeliefState::Accepted)));
    assert_eq!(chat_line(None, "bob", "hi"), "  bob: hi");
    assert_eq!(own_chat_line("me", "hello"), "\u{25cf} me: hello");
    assert_eq!(moderation_line(Moderation::Mute, "carol", "spam"), "[mod] carol muted: spam");
    assert_eq!(moderation_line(Moderation::Ban, "carol", "spam"), "[mod] carol banned: spam");
    assert_eq!(
        refused_moderation_line(Moderation::Ban, "eve"),
        format!("[mod] ignored {:?} from eve (not standing to moderate)", Moderation::Ban)
    );
    assert_eq!(
        override_line("carol", BeliefState::Quarantined, "creator override after visible dispute"),
        "[mod] OPERATOR OVERRIDE: carol -> quarantined (creator override after visible dispute)"
    );
    assert_eq!(reunion_line(42, 3), "[reunion] deterministic reunion at r42 (3 subjects)");
    assert_eq!(peer_line(true, "bob"), "  up   bob");
    assert_eq!(peer_line(false, "bob"), "  down bob");
    assert_eq!(why_header("bob", 4), "[why] transcript for bob (4 events):");
    assert_eq!(partition_line("bob"), "[net] partitioned away from bob");
    assert_eq!(vouched_line("bob"), "[you] vouched for bob");
}

#[test]
fn trimming_never_changes_the_words() {
    for line in ["  /ban carol spam  ", "\t/list", "plain words here ", "   "] {
        assert_eq!(split_words(line), split_words(trim_str(line)));
    }
}

#[test]
fn an_override_outdates_the_known_epoch() {
    let mut view = MembershipView::new(ScopeId::new("room:net"), Epoch(1));
    view.cell_mut(SubjectId::new("carol"), (Epoch(7), resonant::epoch::Round(0)));
    let digest = RepairDigest::of(&view);
    let known = digest.subject_summaries.get(&SubjectId::new("carol")).unwrap().1;
    assert!(override_epoch(Some(&digest), &SubjectId::new("carol")).0 > known.0);
    assert_eq!(override_epoch(Some(&digest), &SubjectId::new("carol")), Epoch(known.0 + 1));
}

fn summary() -> WitnessSummary {
    WitnessSummary { count: 3, quality: Quality::Strong, diversity: Diversity::CrossScope }
}

#[test]
fn roster_and_blocklist_rows() {
    let s = summary();
    let glyph = resonant::net::wire::state_glyph(BeliefState::Accepted);
    // `{:12}` on a state does not pad: its Display writes the name as is.
    assert_eq!(
        roster_line(BeliefState::Accepted, "bob", &s),
        format!("  {} {} {} (witnesses: {} {:?}/{:?})", glyph, "accepted", "bob", 3, Quality::Strong, Diversity::CrossScope)
    );
    assert_eq!(
        block_entry_line("spammer@example.org", "BLOCKED", &s),
        format!("  {:24} {:22} (witnesses: {} {:?}/{:?})", "spammer@example.org", "BLOCKED", 3, Quality::Strong, Diversity::CrossScope)
    );
}

#[test]
fn console_cells() {
    let s = summary();
    let (head, rest) = standing_cell(BeliefState::Disputed, "carol", &s);
    assert_eq!(head, format!("{} disputed", resonant::net::wire::state_glyph(BeliefState::Disputed)));
    assert_eq!(rest, " carol (3 Strong/CrossScope)");
    assert_eq!(standing_tone(BeliefState::Accepted), StandingTone::Member);
    assert_eq!(standing_tone(BeliefState::Disputed), StandingTone::Contested);
    assert_eq!(standing_tone(BeliefState::Quarantined), StandingTone::Suspended);
    assert_eq!(standing_tone(BeliefState::Removed), StandingTone::Gone);
    assert_eq!(standing_tone(BeliefState::Witnessed), StandingTone::Pending);
    assert_eq!(residue_cell("carol", true, "split"), "\u{203c} carol [handled]: split");
    assert_eq!(residue_cell("carol", false, "split"), "\u{203c} carol: split");
    assert_eq!(pane_heights(0, 0), (2, 3));
    assert_eq!(pane_heights(3, 2), (5, 4));
    assert_eq!(pane_heights(9, 9), (7, 6));
    assert_eq!(pane_title("alice", "alice"), " alice (creator) ");
    assert_eq!(pane_title("bob", "alice"), " bob ");
    let log = vec!["a".to_string(), "b".to_string(), "c".to_string()];
    assert_eq!(newest_lines(&log, 2), vec!["b".to_string(), "c".to_string()]);
    assert_eq!(newest_lines(&log, 9), log);
}

#[test]
fn convergence_strip_names_every_digest() {
    let names = vec!["alice".to_string(), "bob".to_string(), "carol".to_string()];
    let same = vec!["0a1b2c".to_string(); 3];
    let (converged, label, text) = convergence_strip(&same, &names, false);
    assert!(converged);
    assert_eq!(label, " CONVERGED ");
    assert_eq!(text, " digests: alice=0a1b2c bob=0a1b2c carol=0a1b2c   partition: none");
    let split = vec!["0a1b2c".to_string(), "0a1b2c".to_string(), "ffffff".to_string()];
    let (converged, label, text) = convergence_strip(&split, &names, true);
    assert!(!converged);
    assert_eq!(label, " DIVERGED ");
    assert_eq!(text, format!(" digests: alice={} bob={} carol={}   partition: {}", split[0], split[1], split[2], "ACTIVE"));
}

fn cmds(a: &DeskAction) -> Vec<(usize, String)> {
    a.commands.clone()
}

#[test]
fn the_story_desk_drives_the_three_nodes() {
    let mut desk = Desk { partitioned: false, focus: 0, nodes: 3 };
    let (alice, bob, carol) = ("A1", "B2", "C3");
    let heal_first = desk.step(DeskKey::Heal, alice, bob, carol);
    assert!(heal_first.beat.is_none() && heal_first.commands.is_empty());
    let split = desk.step(DeskKey::Partition, alice, bob, carol);
    assert!(desk.partitioned);
    assert_eq!(split.beat.as_deref(), Some("== PARTITION: carol splits off =="));
    assert_eq!(
        cmds(&split),
        vec![(0, "/split C3".to_string()), (1, "/split C3".to_string()), (2, "/split A1 B2".to_string())]
    );
    let again = desk.step(DeskKey::Partition, alice, bob, carol);
    assert!(again.commands.is_empty());
    let ban = desk.step(DeskKey::Ban, alice, bob, carol);
    assert_eq!(cmds(&ban), vec![(0, "/ban C3 posting spam during the split".to_string())]);
    let heal = desk.step(DeskKey::Heal, alice, bob, carol);
    assert!(!desk.partitioned);
    assert_eq!(heal.beat.as_deref(), Some("== HEAL: islands reconnect, deterministic reunion =="));
    assert_eq!(cmds(&heal), vec![(0, "/heal".to_string()), (1, "/heal".to_string()), (2, "/heal".to_string())]);
    let op = desk.step(DeskKey::Override, alice, bob, carol);
    assert_eq!(cmds(&op), vec![(0, "/override C3 quarantined".to_string())]);
    desk.step(DeskKey::NextFocus, alice, bob, carol);
    desk.step(DeskKey::NextFocus, alice, bob, carol);
    assert_eq!(desk.focus, 2);
    desk.step(DeskKey::NextFocus, alice, bob, carol);
    assert_eq!(desk.focus, 0);
    let said = desk.step(DeskKey::Submit("  hello there ".to_string()), alice, bob, carol);
    assert_eq!(cmds(&said), vec![(0, "hello there".to_string())]);
    let blank = desk.step(DeskKey::Submit("   ".to_string()), alice, bob, carol);
    assert!(blank.commands.is_empty());
}

#[test]
fn block_proposes_and_counts_the_proposers_own_inspection() {
    let actions = block_actions(&parse_block_command("/block @spam:example.org too many links"));
    assert_eq!(actions.len(), 2);
    match &actions[0] {
        NodeAction::Introduce { subject, asserted } => {
            assert_eq!(subject, "@spam:example.org");
            assert_eq!(*asserted, AssertedState::Compromised);
        }
        _ => panic!("expected an introduction first"),
    }
    match &actions[1] {
        NodeAction::Witness { subject, mode, stance } => {
            assert_eq!(subject, "@spam:example.org");
            assert_eq!(*mode, ObservationMode::AdminInspection);
            assert_eq!(*stance, Stance::Corroborate);
        }
        _ => panic!("expected the proposer's witness second"),
    }
}

#[test]
fn confirm_dispute_and_retire_map_to_their_inputs() {
    match &block_actions(&parse_block_command("/confirm h1"))[..] {
        [NodeAction::Witness { subject, mode, stance }] => {
            assert_eq!(subject, "h1");
            assert_eq!(*mode, ObservationMode::ChallengeResponse);
            assert_eq!(*stance, Stance::Corroborate);
        }
        _ => panic!("confirm is one corroboration"),
    }
    match &block_actions(&parse_block_command("/dispute h2"))[..] {
        [NodeAction::Witness { subject, mode, stance }] => {
            assert_eq!(subject, "h2");
            assert_eq!(*mode, ObservationMode::AdminInspection);
            assert_eq!(*stance, Stance::Dispute);
        }
        _ => panic!("dispute is one dispute"),
    }
    match &block_actions(&parse_block_command("/retire h3"))[..] {
        [NodeAction::PublishOverride { subject, forced, reason }] => {
            assert_eq!(subject, "h3");
            assert_eq!(*forced, BeliefState::Removed);
            assert_eq!(reason, "federation root retired the block entry");
        }
        _ => panic!("retire is one override"),
    }
    assert!(block_actions(&parse_block_command("/block")).is_empty());
    assert!(block_actions(&parse_block_command("/list")).is_empty());
    assert!(block_actions(&parse_block_command("/why h1")).is_empty());
    assert!(block_actions(&parse_block_command("/status")).is_empty());
}

#[test]
fn auto_witness_only_for_connected_other_peers() {
    assert!(auto_witness(true, true, false));
    assert!(!auto_witness(true, true, true));
    assert!(!auto_witness(true, false, false));
    assert!(!auto_witness(false, true, false));
}
