//! The transport-facing surface: wire envelopes, gossip admission, reunion
//! negotiation decisions, and the display rows.

use resonant::belief::{BeliefEvent, BeliefState, MembershipView};
use resonant::digest::RepairDigest;
use resonant::epoch::{Epoch, Round};
use resonant::evidence::{AssertedState, Claim, Provenance};
use resonant::id::{PeerId, SubjectId};
use resonant::net::gossip::{gossip_verdict, hash_pair, material_divergence, may_moderate, GossipVerdict};
use resonant::net::node::{residues, roster, AppProfile};
use resonant::net::wire::{open_envelope, state_glyph, Envelope, GossipMsg, Moderation, WIRE_VERSION};
use resonant::kernel::Input;
use resonant::net::duties::gossip_input;
use resonant::policy::PolicyBundle;
use resonant::scope::ScopeId;
use resonant::witnessing::EvidenceBook;

fn room() -> ScopeId {
    ScopeId::new("room:net")
}

fn claim(scope: &str, subject: &str) -> Claim {
    Claim {
        subject: SubjectId::new(subject),
        asserted: AssertedState::Present,
        scope: ScopeId::new(scope),
        provenance: Provenance { introducer: PeerId::new("gateway") },
        epoch: Epoch(1),
        evidence: vec![],
    }
}

#[test]
fn glyphs_render_standing() {
    assert_eq!(state_glyph(BeliefState::Accepted), "\u{25cf}");
    assert_eq!(state_glyph(BeliefState::Removed), "\u{2715}");
    assert_eq!(state_glyph(BeliefState::Suspected), "?");
    assert_eq!(state_glyph(BeliefState::Unknown), " ");
}

#[test]
fn envelopes_refuse_other_versions() {
    let ok = open_envelope(Envelope::new(GossipMsg::Chat { text: "hi".to_string() }));
    assert!(matches!(ok, Ok(GossipMsg::Chat { .. })));
    let stale = open_envelope(Envelope { v: WIRE_VERSION + 1, msg: GossipMsg::Chat { text: "hi".to_string() } });
    assert_eq!(stale.err().unwrap(), "unsupported wire version 2");
}

#[test]
fn profiles_differ_only_in_subject_rules() {
    assert!(AppProfile::chat().subjects_are_peers);
    assert_eq!(AppProfile::chat().kind, "chat");
    assert!(!AppProfile::federation().subjects_are_peers);
    assert_eq!(AppProfile::federation().kind, "federation");
}

#[test]
fn gossip_admission_follows_scope_and_standing() {
    let c = GossipMsg::Claim(claim("room:net", "alice"));
    assert_eq!(gossip_verdict(&c, &room(), true, true, true, false, false), GossipVerdict::AdmitClaim);
    assert_eq!(gossip_verdict(&c, &room(), true, true, false, false, false), GossipVerdict::RejectNonPeerClaim);
    assert_eq!(gossip_verdict(&c, &room(), true, false, false, false, false), GossipVerdict::AdmitClaim);
    let foreign = GossipMsg::Claim(claim("elsewhere", "alice"));
    assert_eq!(gossip_verdict(&foreign, &room(), true, true, true, true, true), GossipVerdict::Drop);

    let m = GossipMsg::Moderation { subject: "bob".to_string(), action: Moderation::Ban, reason: "spam".to_string() };
    assert_eq!(gossip_verdict(&m, &room(), false, true, true, true, true), GossipVerdict::Drop);
    assert_eq!(gossip_verdict(&m, &room(), true, true, true, false, false), GossipVerdict::RefuseModeration);
    assert_eq!(gossip_verdict(&m, &room(), true, true, true, true, false), GossipVerdict::ApplyModeration);
    assert_eq!(gossip_verdict(&m, &room(), true, true, false, true, false), GossipVerdict::Drop);

    assert!(may_moderate(true, None));
    assert!(may_moderate(false, Some(BeliefState::Accepted)));
    assert!(!may_moderate(false, Some(BeliefState::Provisional)));
    assert!(!may_moderate(false, None));
}

#[test]
fn hash_pairs_are_ordered() {
    let lo = [1u8; 32];
    let hi = [2u8; 32];
    assert_eq!(hash_pair(hi, lo), (lo, hi));
    assert_eq!(hash_pair(lo, hi), (lo, hi));
}

fn view_with(subject: &str, path: &[BeliefEvent]) -> MembershipView {
    let policy = PolicyBundle::default();
    let mut view = MembershipView::new(room(), Epoch(1));
    let cell = view.cell_mut(SubjectId::new(subject), (Epoch(1), Round(0)));
    let mut round = 0;
    for e in path {
        round += 3;
        cell.apply(e.clone(), (Epoch(1), Round(round)), &policy).unwrap();
    }
    view
}

#[test]
fn only_class_conflict_or_live_disagreement_is_material() {
    let intro = BeliefEvent::Introduced {
        claim: claim("room:net", "dave").id(),
        provenance: Provenance { introducer: PeerId::new("gateway") },
    };
    let removal = BeliefEvent::RemovalDecided { basis: resonant::belief::RemovalBasis::PolicyViolation };
    let introduced = RepairDigest::of(&view_with("dave", &[intro.clone()]));
    let removed = RepairDigest::of(&view_with("dave", &[intro.clone(), removal]));
    // Introduced vs removed: no permissive side, so no class conflict.
    assert!(!material_divergence(&introduced, &removed));
    assert!(!material_divergence(&introduced, &introduced));
}

#[test]
fn roster_and_residue_rows_read_the_view() {
    let intro = BeliefEvent::Introduced {
        claim: claim("room:net", "erin").id(),
        provenance: Provenance { introducer: PeerId::new("gateway") },
    };
    let view = view_with("erin", &[intro]);
    let book = EvidenceBook::new();
    let rows = roster(&view, &book);
    assert_eq!(rows.len(), 1);
    assert_eq!(rows[0].subject, "erin");
    assert_eq!(rows[0].state, BeliefState::Introduced);
    assert_eq!(rows[0].summary.count, 0);
    assert!(residues(&view).is_empty());
}

#[test]
fn chat_is_shown_whatever_the_standing() {
    let chat = GossipMsg::Chat { text: "hello".to_string() };
    for flags in 0..32u32 {
        let bit = |k: u32| flags & (1 << k) != 0;
        assert_eq!(
            gossip_verdict(&chat, &room(), bit(0), bit(1), bit(2), bit(3), bit(4)),
            GossipVerdict::ShowChat
        );
    }
}

#[test]
fn admitted_gossip_feeds_its_kernel_input() {
    let c = GossipMsg::Claim(claim("room:net", "alice"));
    match gossip_input(&c, GossipVerdict::AdmitClaim, &room()) {
        Some(Input::Introduce(fed)) => assert_eq!(fed.subject, SubjectId::new("alice")),
        _ => panic!("an admitted claim introduces its subject"),
    }
    assert!(gossip_input(&c, GossipVerdict::RejectNonPeerClaim, &room()).is_none());
    assert!(gossip_input(&c, GossipVerdict::Drop, &room()).is_none());
    let ban = GossipMsg::Moderation { subject: "mallory".to_string(), action: Moderation::Ban, reason: "spam".to_string() };
    match gossip_input(&ban, GossipVerdict::ApplyModeration, &room()) {
        Some(Input::RemovalAssessed { scope, subject, .. }) => {
            assert_eq!(scope, room());
            assert_eq!(subject, SubjectId::new("mallory"));
        }
        _ => panic!("a ban becomes a removal assessment"),
    }
    assert!(gossip_input(&ban, GossipVerdict::RefuseModeration, &room()).is_none());
    let chat = GossipMsg::Chat { text: "hi".to_string() };
    assert!(gossip_input(&chat, GossipVerdict::ShowChat, &room()).is_none());
}
