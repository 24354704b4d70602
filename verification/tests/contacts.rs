use origilink::account::{avatar_file_name, is_stale_avatar, load_config, AppConfig};
use origilink::chat::{
    check_chat_send, check_message_length, message_from_seal, clear_chat_history, count_unread, hold_message, list_active_chat_pubkeys,
    load_chat_history, load_unread_counts, mark_chat_started, mark_thread_read, max_message_chars,
    ChatMessage,
};
use origilink::friends::{
    add_friend, block_pubkey, contains_str, find_friend, push_unique, remove_friend,
    update_friend_profile, Friend,
};
use origilink::keyed::KeyedList;
use origilink::relay::{default_relays, load_relay_list, RelayList};
use origilink::requests::{add, remove, remove_incoming, IncomingRequest, OutgoingRequest};

fn s(x: &str) -> String {
    x.to_string()
}

fn add_simple(friends: Vec<Friend>, pubkey: &str, uid: &str, index: u32, name: &str) -> (Vec<Friend>, bool) {
    add_friend(friends, s(pubkey), s(uid), index, s(name), s(""), vec![s("wss://r")], None, 100)
}

fn message(id: &str, created_at: i64, is_mine: bool) -> ChatMessage {
    ChatMessage { id: s(id), sender_pubkey: s("peer"), content: s(id), created_at, is_mine }
}

fn incoming(pubkey: &str, uid: &str) -> IncomingRequest {
    IncomingRequest {
        invite_account_index: 3,
        pubkey: s(pubkey),
        uid: s(uid),
        display_name: s("name"),
        status_message: s(""),
        relays: vec![],
        avatar_base64: None,
    }
}

#[test]
fn add_friend_appends_a_new_contact() {
    let (friends, merged) = add_simple(Vec::new(), "pk1", "uid1", 1, "Alice");
    assert!(!merged);
    assert_eq!(friends.len(), 1);
    assert_eq!(friends[0].pubkey, "pk1");
    assert_eq!(friends[0].my_account_index, 1);
    assert_eq!(friends[0].added_at, 100);
}

#[test]
fn add_friend_replaces_an_entry_for_the_same_pubkey() {
    let (friends, _) = add_simple(Vec::new(), "pk1", "uid1", 1, "Alice");
    let (friends, _) = add_simple(friends, "pk2", "uid2", 2, "Bob");
    let (friends, merged) = add_simple(friends, "pk1", "uid1", 5, "Alice 2");
    assert!(merged);
    assert_eq!(friends.len(), 2);
    assert_eq!(friends[0].pubkey, "pk2");
    assert_eq!(friends[1].pubkey, "pk1");
    assert_eq!(friends[1].display_name, "Alice 2");
    assert_eq!(friends[1].my_account_index, 5);
}

#[test]
fn add_friend_merges_a_new_key_of_a_known_account() {
    let (friends, _) = add_simple(Vec::new(), "old-key", "uid1", 1, "Alice");
    let (friends, merged) = add_simple(friends, "new-key", "uid1", 7, "Alice");
    assert!(merged);
    assert_eq!(friends.len(), 1);
    assert_eq!(friends[0].pubkey, "new-key");
}

#[test]
fn add_friend_without_uid_never_merges_by_uid() {
    let (friends, _) = add_simple(Vec::new(), "a", "", 1, "A");
    let (friends, merged) = add_simple(friends, "b", "", 2, "B");
    assert!(!merged);
    assert_eq!(friends.len(), 2);
}

#[test]
fn remove_and_find_friend() {
    let (friends, _) = add_simple(Vec::new(), "pk1", "u1", 1, "A");
    let (friends, _) = add_simple(friends, "pk2", "u2", 2, "B");
    assert_eq!(find_friend(&friends, &s("pk2")), Some(1));
    assert_eq!(find_friend(&friends, &s("nobody")), None);
    let friends = remove_friend(friends, s("pk1"));
    assert_eq!(friends.len(), 1);
    assert_eq!(friends[0].pubkey, "pk2");
    let friends = remove_friend(friends, s("nobody"));
    assert_eq!(friends.len(), 1);
}

#[test]
fn update_friend_profile_keeps_relays_and_avatar_when_absent() {
    let (friends, _) = add_friend(
        Vec::new(),
        s("pk1"),
        s("u1"),
        4,
        s("Old"),
        s("old status"),
        vec![s("wss://a")],
        Some(s("/avatar.png")),
        50,
    );
    assert_eq!(friends[0].profile_updated_at, 0);
    let (friends, applied) = update_friend_profile(friends, &s("pk1"), s("New"), s("new status"), vec![], None, 60);
    assert!(applied);
    assert_eq!(friends[0].display_name, "New");
    assert_eq!(friends[0].status_message, "new status");
    assert_eq!(friends[0].relays, vec![s("wss://a")]);
    assert_eq!(friends[0].avatar_path, Some(s("/avatar.png")));
    assert_eq!(friends[0].my_account_index, 4);
    assert_eq!(friends[0].added_at, 50);
    assert_eq!(friends[0].profile_updated_at, 60);

    let (friends, applied) =
        update_friend_profile(friends, &s("pk1"), s("New"), s(""), vec![s("wss://b")], Some(s("/b.png")), 60);
    assert!(applied);
    assert_eq!(friends[0].relays, vec![s("wss://b")]);
    assert_eq!(friends[0].avatar_path, Some(s("/b.png")));
}

#[test]
fn a_reordered_older_profile_update_is_dropped() {
    let (friends, _) = add_simple(Vec::new(), "pk1", "u1", 1, "A");
    let (friends, applied) = update_friend_profile(friends, &s("pk1"), s("Newest"), s(""), vec![], None, 100);
    assert!(applied);
    let (friends, applied) = update_friend_profile(friends, &s("pk1"), s("Older"), s(""), vec![], None, 99);
    assert!(!applied);
    assert_eq!(friends[0].display_name, "Newest");
    assert_eq!(friends[0].profile_updated_at, 100);
}

#[test]
fn update_friend_profile_of_a_stranger_changes_nothing() {
    let (friends, _) = add_simple(Vec::new(), "pk1", "u1", 1, "A");
    let (friends, applied) = update_friend_profile(friends, &s("other"), s("X"), s("Y"), vec![], None, 5);
    assert!(!applied);
    assert_eq!(friends.len(), 1);
    assert_eq!(friends[0].display_name, "A");
}

#[test]
fn block_pubkey_is_idempotent() {
    let blocked = block_pubkey(Vec::new(), s("pk"));
    let blocked = block_pubkey(blocked, s("pk"));
    assert_eq!(blocked, vec![s("pk")]);
    assert!(contains_str(&blocked, &s("pk")));
    assert!(!contains_str(&blocked, &s("other")));
    let list = push_unique(blocked, s("other"));
    assert_eq!(list, vec![s("pk"), s("other")]);
}

#[test]
fn outgoing_requests_add_and_remove_by_index() {
    let reqs: Vec<OutgoingRequest> = Vec::new();
    let reqs = add(reqs, 1, s("inv1"), vec![s("wss://x")], 10);
    let reqs = add(reqs, 2, s("inv2"), vec![], 11);
    let reqs = add(reqs, 1, s("inv3"), vec![], 12);
    assert_eq!(reqs.len(), 3);
    let reqs = remove(reqs, 1);
    assert_eq!(reqs.len(), 1);
    assert_eq!(reqs[0].invite_pubkey, "inv2");
}

#[test]
fn incoming_requests_removed_by_pubkey() {
    let reqs = vec![incoming("a", "ua"), incoming("b", "ub"), incoming("a", "ua2")];
    let reqs = remove_incoming(reqs, &s("a"));
    assert_eq!(reqs.len(), 1);
    assert_eq!(reqs[0].pubkey, "b");
}

#[test]
fn message_length_limit() {
    assert_eq!(max_message_chars(), 4000);
    assert!(check_message_length(&"x".repeat(4000)).is_ok());
    assert_eq!(check_message_length(&"x".repeat(4001)), Err(s("message too long")));
    // Characters, not bytes, are counted.
    assert!(check_message_length(&"é".repeat(4000)).is_ok());
}

#[test]
fn started_and_held_lists_hold_each_id_once() {
    let started = mark_chat_started(Vec::new(), s("pk"));
    let started = mark_chat_started(started, s("pk"));
    assert_eq!(started, vec![s("pk")]);
    let held = hold_message(vec![s("m1")], s("m2"));
    let held = hold_message(held, s("m1"));
    assert_eq!(held, vec![s("m1"), s("m2")]);
}

#[test]
fn clear_chat_history_resets_the_thread() {
    let mut read_state: KeyedList<i64> = KeyedList::new();
    mark_thread_read(&mut read_state, s("pk"), 40);
    mark_thread_read(&mut read_state, s("other"), 41);
    let mut cleared: KeyedList<i64> = KeyedList::new();
    let started = clear_chat_history(vec![s("pk"), s("other")], &mut read_state, &mut cleared, s("pk"), 99);
    assert_eq!(started, vec![s("other")]);
    assert_eq!(read_state.get(&s("pk")), None);
    assert_eq!(read_state.get(&s("other")), Some(&41));
    assert_eq!(cleared.get(&s("pk")), Some(&99));

    // Messages up to the cutoff stay hidden, even when refetched later.
    let history = load_chat_history(
        vec![message("old", 99, false), message("new", 100, false)],
        false,
        &Vec::new(),
        &cleared,
        &s("pk"),
    );
    assert_eq!(history.len(), 1);
    assert_eq!(history[0].id, "new");
}

#[test]
fn load_chat_history_sorts_and_hides_held_while_blocked() {
    let cleared: KeyedList<i64> = KeyedList::new();
    let msgs = vec![message("c", 30, false), message("a", 10, true), message("b", 20, false)];
    let held = vec![s("b")];
    let shown = load_chat_history(msgs, false, &held, &cleared, &s("pk"));
    let ids: Vec<&str> = shown.iter().map(|m| m.id.as_str()).collect();
    assert_eq!(ids, vec!["a", "b", "c"]);

    let msgs = vec![message("c", 30, false), message("a", 10, true), message("b", 20, false)];
    let shown = load_chat_history(msgs, true, &held, &cleared, &s("pk"));
    let ids: Vec<&str> = shown.iter().map(|m| m.id.as_str()).collect();
    assert_eq!(ids, vec!["a", "c"]);
}

#[test]
fn load_chat_history_is_stable_for_equal_times() {
    let cleared: KeyedList<i64> = KeyedList::new();
    let msgs = vec![message("x", 5, false), message("y", 5, true), message("z", 1, false)];
    let shown = load_chat_history(msgs, false, &Vec::new(), &cleared, &s("pk"));
    let ids: Vec<&str> = shown.iter().map(|m| m.id.as_str()).collect();
    assert_eq!(ids, vec!["z", "x", "y"]);
}

#[test]
fn unread_counts_only_count_received_messages_after_the_read_mark() {
    let msgs = vec![message("a", 10, false), message("b", 20, true), message("c", 30, false)];
    assert_eq!(count_unread(&msgs, 0), 2);
    assert_eq!(count_unread(&msgs, 10), 1);
    assert_eq!(count_unread(&msgs, 30), 0);

    let mut read_state: KeyedList<i64> = KeyedList::new();
    mark_thread_read(&mut read_state, s("p1"), 15);
    let counts = load_unread_counts(
        &read_state,
        &vec![(s("p1"), Some(msgs)), (s("p2"), Some(vec![message("d", 1, false)])), (s("p3"), None)],
    );
    assert_eq!(counts.len(), 3);
    assert_eq!(counts[0].friend_pubkey, "p1");
    assert_eq!(counts[0].count, 1);
    assert_eq!(counts[1].count, 1);
    assert_eq!(counts[2].count, 0);
}

#[test]
fn active_chats_are_started_or_have_history() {
    let active = list_active_chat_pubkeys(&vec![(s("a"), false), (s("b"), true), (s("c"), false)], &vec![s("c")]);
    assert_eq!(active, vec![s("b"), s("c")]);
}

#[test]
fn relay_list_falls_back_to_defaults() {
    let defaults = default_relays();
    assert_eq!(
        defaults,
        vec![s("wss://relay.damus.io"), s("wss://nos.lol"), s("wss://relay.primal.net")]
    );
    assert_eq!(load_relay_list(None).urls, defaults);
    let saved = RelayList { urls: vec![s("wss://mine")] };
    assert_eq!(load_relay_list(Some(saved)).urls, vec![s("wss://mine")]);
}

#[test]
fn config_defaults_to_the_device_locale() {
    assert_eq!(load_config(None).language, None);
    let saved = AppConfig { language: Some(s("ja")) };
    assert_eq!(load_config(Some(saved)).language, Some(s("ja")));
}

#[test]
fn avatar_file_names_follow_content() {
    let name = avatar_file_name(b"abc", "png");
    assert_eq!(
        name,
        "account_avatar_ba7816bf8f01cfea414140de5dae2223b00361a396177a9cb410ff61f20015ad.png"
    );
    assert_ne!(avatar_file_name(b"abd", "png"), name);
    assert!(is_stale_avatar("account_avatar_old.png", &name));
    assert!(!is_stale_avatar(&name, &name));
    assert!(!is_stale_avatar("friend_avatar.png", &name));
    assert!(!is_stale_avatar("short", &name));
}

#[test]
fn sending_needs_a_short_message_to_an_unblocked_friend() {
    let (friends, _) = add_simple(Vec::new(), "pk1", "u1", 1, "A");
    let (friends, _) = add_simple(friends, "pk2", "u2", 2, "B");
    let blocked = vec![s("pk2")];
    assert_eq!(check_chat_send(&friends, &blocked, &s("pk1"), "hi"), Ok(0));
    assert_eq!(check_chat_send(&friends, &blocked, &s("pk2"), "hi"), Err(s("friend is blocked")));
    assert_eq!(check_chat_send(&friends, &blocked, &s("pk3"), "hi"), Err(s("not a friend")));
    assert_eq!(check_chat_send(&friends, &blocked, &s("pk1"), &"x".repeat(4001)), Err(s("message too long")));
}

#[test]
fn seals_whose_rumor_claims_another_author_are_refused() {
    let m = message_from_seal(s("seal"), s("me"), &s("me"), s("hi"), 7, &s("me")).unwrap();
    assert!(m.is_mine);
    assert_eq!(m.id, "seal");
    assert_eq!(m.content, "hi");
    assert_eq!(m.created_at, 7);
    let m = message_from_seal(s("seal"), s("friend"), &s("friend"), s("yo"), 8, &s("me")).unwrap();
    assert!(!m.is_mine);
    assert_eq!(m.sender_pubkey, "friend");
    assert!(message_from_seal(s("seal"), s("friend"), &s("mallory"), s("x"), 9, &s("me")).is_none());
}
