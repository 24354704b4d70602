use origilink::friends::{add_friend, Friend};
use origilink::keys::{derive_contact_pubkey, derive_uid, get_account_uid, validate_mnemonic, generate_mnemonic};
use origilink::requests::{IncomingRequest, OutgoingRequest};
use origilink::sync::{
    accept_backup, accept_chat_seal, accept_direct_seal, all_backup_slots, backup_timestamp,
    build_watch_list, decide_friend_event, latest_backup_index, load_pending_friend_requests,
    match_watch, next_backoff, publish_outcome, reject_friend_request, slot_of_tag,
    subscription_relays, text_backup_is_newer, BackupSlot, FriendAction, FriendEventKind, SyncState,
    Watch,
};

const MNEMONIC: &str = "leader monkey parrot ring guide accident before fence cannon height naive bean";
const ACCOUNT_0_PUBKEY: &str = "17162c921dc4d2518f9a101db33695df1afb56ab82f5ff3e5da6eec3ca5cd917";

fn s(x: &str) -> String {
    x.to_string()
}

fn friend(pubkey: &str, index: u32) -> Friend {
    let (mut list, _) =
        add_friend(Vec::new(), s(pubkey), s(""), index, s("F"), s(""), vec![], None, 0);
    list.remove(0)
}

fn incoming(pubkey: &str, uid: &str) -> IncomingRequest {
    IncomingRequest {
        invite_account_index: 2,
        pubkey: s(pubkey),
        uid: s(uid),
        display_name: s("Req"),
        status_message: s("hi"),
        relays: vec![s("wss://r")],
        avatar_base64: None,
    }
}

fn outgoing(index: u32, relays: Vec<String>) -> OutgoingRequest {
    OutgoingRequest { my_account_index: index, invite_pubkey: s("inv"), invite_relays: relays, created_at: 0 }
}

#[test]
fn backup_slots_round_trip_through_their_tags() {
    let slots = all_backup_slots();
    assert_eq!(slots.len(), 11);
    for slot in &slots {
        let tag = slot.d_tag();
        assert!(tag.starts_with("keychat-account-"));
        let back = slot_of_tag(&tag).expect("a known tag");
        assert_eq!(back.d_tag(), tag);
    }
    assert_eq!(BackupSlot::Text.d_tag(), "keychat-account-text");
    assert_eq!(BackupSlot::ChatStarted.d_tag(), "keychat-account-chatstarted");
    assert!(slot_of_tag(&s("keychat-friend")).is_none());
}

#[test]
fn a_backup_is_applied_once_and_never_over_newer_state() {
    let mut state = SyncState::default();
    assert!(accept_backup(&mut state, BackupSlot::Relays, 10));
    assert_eq!(state.relays_updated_at, 10);
    // The same event echoed back is a duplicate.
    assert!(!accept_backup(&mut state, BackupSlot::Relays, 10));
    // An older one arriving late is stale.
    assert!(!accept_backup(&mut state, BackupSlot::Relays, 5));
    assert_eq!(state.relays_updated_at, 10);
    // Other slots are independent.
    assert!(accept_backup(&mut state, BackupSlot::Avatar, 7));
    assert_eq!(state.avatar_updated_at, 7);
    assert_eq!(state.relays_updated_at, 10);
    assert!(accept_backup(&mut state, BackupSlot::Relays, 11));
    assert_eq!(state.relays_updated_at, 11);
}

#[test]
fn a_zero_stamped_backup_is_never_applied_to_a_fresh_state() {
    let mut state = SyncState::default();
    assert!(!accept_backup(&mut state, BackupSlot::Friends, 0));
}

#[test]
fn text_backup_newness() {
    assert!(text_backup_is_newer(None, 0));
    assert!(text_backup_is_newer(Some(5), 6));
    assert!(!text_backup_is_newer(Some(5), 5));
    assert!(!text_backup_is_newer(Some(5), 4));
}

#[test]
fn backup_timestamps_clamp_negative_values() {
    assert_eq!(backup_timestamp(-3), 0);
    assert_eq!(backup_timestamp(0), 0);
    assert_eq!(backup_timestamp(1_700_000_000), 1_700_000_000);
}

#[test]
fn latest_backup_is_the_first_of_the_newest() {
    assert_eq!(latest_backup_index(&vec![]), None);
    assert_eq!(latest_backup_index(&vec![5]), Some(0));
    assert_eq!(latest_backup_index(&vec![3, 9, 1, 9]), Some(1));
}

#[test]
fn publishing_succeeds_when_any_relay_accepts() {
    assert_eq!(publish_outcome(&vec![false, true]), Ok(()));
    assert_eq!(publish_outcome(&vec![false, false]), Err(s("failed to publish to any relay")));
    assert_eq!(publish_outcome(&vec![]), Err(s("failed to publish to any relay")));
}

#[test]
fn reconnect_backoff_doubles_up_to_thirty_seconds() {
    assert_eq!(next_backoff(1), 2);
    assert_eq!(next_backoff(8), 16);
    assert_eq!(next_backoff(16), 30);
    assert_eq!(next_backoff(30), 30);
}

#[test]
fn pending_requests_skip_friends_and_blocked() {
    let friends = vec![friend("friend", 1)];
    let blocked = vec![s("blocked")];
    let pending = load_pending_friend_requests(
        &friends,
        &blocked,
        vec![incoming("friend", "u1"), incoming("new", "u2"), incoming("blocked", "u3")],
    );
    assert_eq!(pending.len(), 1);
    assert_eq!(pending[0].pubkey, "new");
    assert_eq!(pending[0].uid, "u2");
    assert_eq!(pending[0].invite_account_index, 2);
    assert_eq!(pending[0].relays, vec![s("wss://r")]);
}

#[test]
fn rejecting_blocks_the_pubkey_and_its_uid() {
    let out = reject_friend_request(
        vec![incoming("a", "uid-a"), incoming("b", "uid-b")],
        vec![],
        vec![],
        s("a"),
    );
    assert_eq!(out.incoming.len(), 1);
    assert_eq!(out.incoming[0].pubkey, "b");
    assert_eq!(out.blocked, vec![s("a")]);
    assert_eq!(out.blocked_uids, vec![s("uid-a")]);

    // A request without a UID blocks only the pubkey.
    let out = reject_friend_request(vec![incoming("c", "")], vec![s("a")], vec![s("uid-a")], s("c"));
    assert_eq!(out.blocked, vec![s("a"), s("c")]);
    assert_eq!(out.blocked_uids, vec![s("uid-a")]);
}

#[test]
fn friend_events_are_decided_by_what_they_match() {
    let f = Watch::Friend(3, s("pk"));
    assert!(decide_friend_event(&f, FriendEventKind::GiftWrap, true, false) == FriendAction::HoldMessage(3));
    assert!(decide_friend_event(&f, FriendEventKind::GiftWrap, false, false) == FriendAction::ReceiveMessage(3));
    assert!(decide_friend_event(&f, FriendEventKind::ProfileUpdate, false, false) == FriendAction::UpdateProfile(3));
    assert!(decide_friend_event(&f, FriendEventKind::ProfileUpdate, true, false) == FriendAction::Ignore);
    assert!(decide_friend_event(&f, FriendEventKind::Request, false, false) == FriendAction::Ignore);

    let inv = Watch::Invite(4);
    assert!(decide_friend_event(&inv, FriendEventKind::Request, false, false) == FriendAction::StoreRequest(4));
    assert!(decide_friend_event(&inv, FriendEventKind::Request, false, true) == FriendAction::Ignore);
    assert!(decide_friend_event(&inv, FriendEventKind::Accept, false, false) == FriendAction::Ignore);

    let out = Watch::Outgoing(5);
    assert!(decide_friend_event(&out, FriendEventKind::Accept, false, false) == FriendAction::AcceptFriend(5));
    assert!(decide_friend_event(&out, FriendEventKind::Other, false, false) == FriendAction::Ignore);
}

#[test]
fn events_match_the_first_tagged_watch_entry() {
    let watch = vec![(s("k1"), Watch::Invite(1)), (s("k2"), Watch::Outgoing(2)), (s("k2"), Watch::Invite(9))];
    assert_eq!(match_watch(&watch, &vec![s("x"), s("k2")]), Some(1));
    assert_eq!(match_watch(&watch, &vec![s("k1")]), Some(0));
    assert_eq!(match_watch(&watch, &vec![s("zz")]), None);
}

#[test]
fn seal_acceptance() {
    let (friend, me, other) = (s("friend"), s("me"), s("other"));
    assert!(accept_chat_seal(true, &friend, &friend, &friend, &me));
    assert!(accept_chat_seal(true, &me, &me, &friend, &me));
    assert!(!accept_chat_seal(true, &other, &other, &friend, &me));
    assert!(!accept_chat_seal(true, &friend, &other, &friend, &me));
    assert!(!accept_chat_seal(false, &friend, &friend, &friend, &me));

    assert!(accept_direct_seal(true, &friend, &friend, &friend));
    assert!(!accept_direct_seal(true, &me, &me, &friend));
    assert!(!accept_direct_seal(true, &friend, &me, &friend));
    assert!(!accept_direct_seal(false, &friend, &friend, &friend));
}

#[test]
fn subscription_relays_are_our_relays_then_request_relays_each_once() {
    let mine = vec![s("wss://a"), s("wss://b")];
    let reqs = vec![
        outgoing(1, vec![s("wss://b"), s("wss://c")]),
        outgoing(2, vec![s("wss://c"), s("wss://d")]),
    ];
    assert_eq!(
        subscription_relays(&mine, &reqs),
        vec![s("wss://a"), s("wss://b"), s("wss://c"), s("wss://d")]
    );
    assert_eq!(subscription_relays(&vec![s("x"), s("x")], &vec![]), vec![s("x")]);
}

#[test]
fn nip06_contact_keys_follow_the_published_test_vector() {
    assert_eq!(derive_contact_pubkey(MNEMONIC, 0), Ok(s(ACCOUNT_0_PUBKEY)));
    // Surrounding whitespace is ignored.
    assert_eq!(derive_contact_pubkey(&format!("  {MNEMONIC}\n"), 0), Ok(s(ACCOUNT_0_PUBKEY)));
    let other = derive_contact_pubkey(MNEMONIC, 1).unwrap();
    assert_ne!(other, ACCOUNT_0_PUBKEY);
    assert_eq!(other.len(), 64);
}

#[test]
fn watch_list_pairs_each_target_with_its_contact_key() {
    let friends = vec![friend("friend-pk", 1)];
    let watch = build_watch_list(MNEMONIC, &vec![0], &vec![outgoing(2, vec![])], &friends);
    assert_eq!(watch.len(), 3);
    assert_eq!(watch[0].0, ACCOUNT_0_PUBKEY);
    assert!(matches!(watch[0].1, Watch::Invite(0)));
    assert_eq!(watch[1].0, derive_contact_pubkey(MNEMONIC, 2).unwrap());
    assert!(matches!(watch[1].1, Watch::Outgoing(2)));
    assert_eq!(watch[2].0, derive_contact_pubkey(MNEMONIC, 1).unwrap());
    assert!(matches!(&watch[2].1, Watch::Friend(1, pk) if pk == "friend-pk"));

    // A phrase that derives nothing watches nothing.
    assert!(build_watch_list("not a phrase", &vec![0], &vec![], &friends).is_empty());
}

#[test]
fn uid_is_a_stable_hash() {
    let uid = get_account_uid(s(MNEMONIC)).unwrap();
    assert_eq!(uid.len(), 64);
    assert!(uid.chars().all(|c| c.is_ascii_hexdigit() && !c.is_ascii_uppercase()));
    assert_eq!(derive_uid(MNEMONIC).unwrap(), uid);
    // Not any relationship key itself.
    assert_ne!(uid, ACCOUNT_0_PUBKEY);
    assert!(get_account_uid(s("nonsense words")).is_err());
}

#[test]
fn mnemonics_validate() {
    assert_eq!(validate_mnemonic(s(MNEMONIC)), Ok(()));
    assert_eq!(validate_mnemonic(format!(" {MNEMONIC} ")), Ok(()));
    assert!(validate_mnemonic(s("leader monkey parrot")).is_err());
    let fresh = generate_mnemonic().unwrap();
    assert_eq!(fresh.split(' ').count(), 12);
    assert!(fresh.split(' ').all(|w| !w.is_empty() && w.chars().all(|c| c.is_ascii_lowercase())));
    assert_eq!(validate_mnemonic(fresh), Ok(()));
}

#[test]
fn uid_ignores_surrounding_whitespace() {
    let plain = get_account_uid(s(MNEMONIC)).unwrap();
    assert_eq!(get_account_uid(format!(" \t{MNEMONIC}\n ")).unwrap(), plain);
    assert_eq!(plain.len(), 64);
    assert!(plain.chars().all(|c| c.is_ascii_digit() || ('a'..='f').contains(&c)));
}
