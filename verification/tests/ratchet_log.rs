use origilink::ratchet::{
    already_processed, apply_received, append_message, delete_ratchet_message, edit_ratchet_message,
    hide_ratchet_message, load_ratchet_history, mark_processed, send_ratchet_message, RatchetChatMessage,
    RatchetContent, MAX_PROCESSED_IDS,
};

fn s(x: &str) -> String {
    x.to_string()
}

fn log() -> Vec<RatchetChatMessage> {
    let all = send_ratchet_message(Vec::new(), s("mine-1"), s("bob"), s("hello"), 10, None);
    let all = apply_received(all, RatchetContent::Msg { body: s("hi"), reply_to: Some(s("mine-1")) }, s("theirs-1"), s("bob"), 11);
    send_ratchet_message(all, s("carol-1"), s("carol"), s("yo"), 5, None)
}

#[test]
fn sent_and_received_messages_are_logged_once() {
    let all = log();
    assert_eq!(all.len(), 3);
    assert!(all[0].is_mine);
    assert!(!all[1].is_mine);
    assert_eq!(all[1].reply_to, Some(s("mine-1")));
    let again = send_ratchet_message(all, s("mine-1"), s("bob"), s("dup"), 12, None);
    assert_eq!(again.len(), 3);
    assert_eq!(again[0].content, "hello");
    let again = apply_received(again, RatchetContent::Msg { body: s("dup"), reply_to: None }, s("theirs-1"), s("bob"), 13);
    assert_eq!(again.len(), 3);
}

#[test]
fn history_is_per_thread_visible_and_ordered() {
    let all = log();
    let all = append_message(all, RatchetChatMessage {
        id: s("early"),
        friend_pubkey: s("bob"),
        content: s("first"),
        created_at: 1,
        is_mine: false,
        hidden: false,
        is_edited: false,
        is_deleted: false,
        reply_to: None,
    });
    let shown = load_ratchet_history(all, &s("bob"));
    let ids: Vec<&str> = shown.iter().map(|m| m.id.as_str()).collect();
    assert_eq!(ids, vec!["early", "mine-1", "theirs-1"]);

    let all = hide_ratchet_message(log(), &s("mine-1"));
    assert!(all[0].hidden);
    let shown = load_ratchet_history(all, &s("bob"));
    assert_eq!(shown.len(), 1);
    assert_eq!(shown[0].id, "theirs-1");
}

#[test]
fn only_own_messages_are_edited_or_deleted_locally() {
    let all = edit_ratchet_message(log(), &s("mine-1"), s("hello!"));
    assert_eq!(all[0].content, "hello!");
    assert!(all[0].is_edited);
    let all = edit_ratchet_message(all, &s("theirs-1"), s("hijack"));
    assert_eq!(all[1].content, "hi");
    assert!(!all[1].is_edited);

    let all = delete_ratchet_message(all, &s("mine-1"));
    assert!(all[0].is_deleted);
    assert_eq!(all[0].content, "");
    let all = delete_ratchet_message(all, &s("theirs-1"));
    assert!(!all[1].is_deleted);
}

#[test]
fn received_edits_and_deletes_touch_only_the_senders_messages() {
    let all = apply_received(log(), RatchetContent::Edit { target: s("theirs-1"), body: s("hi there") }, s("e1"), s("bob"), 20);
    assert_eq!(all[1].content, "hi there");
    assert!(all[1].is_edited);
    let all = apply_received(all, RatchetContent::Edit { target: s("mine-1"), body: s("forged") }, s("e2"), s("bob"), 21);
    assert_eq!(all[0].content, "hello");
    let all = apply_received(all, RatchetContent::Delete { target: s("theirs-1") }, s("d1"), s("bob"), 22);
    assert!(all[1].is_deleted);
    assert_eq!(all[1].content, "");
    let all = apply_received(all, RatchetContent::Delete { target: s("mine-1") }, s("d2"), s("bob"), 23);
    assert!(!all[0].is_deleted);
    assert_eq!(all.len(), 3);
}

#[test]
fn processed_ids_are_remembered_up_to_the_cap() {
    let ids = mark_processed(Vec::new(), s("a"), 3);
    let ids = mark_processed(ids, s("b"), 3);
    let ids = mark_processed(ids, s("c"), 3);
    assert!(already_processed(&ids, &s("a")));
    let ids = mark_processed(ids, s("d"), 3);
    assert_eq!(ids, vec![s("b"), s("c"), s("d")]);
    assert!(!already_processed(&ids, &s("a")));
    assert!(already_processed(&ids, &s("d")));
    assert_eq!(MAX_PROCESSED_IDS, 4000);

    let mut ids = Vec::new();
    for i in 0..4005 {
        ids = mark_processed(ids, format!("id{i}"), MAX_PROCESSED_IDS);
    }
    assert_eq!(ids.len(), MAX_PROCESSED_IDS);
    assert_eq!(ids[0], "id5");
    assert_eq!(ids[MAX_PROCESSED_IDS - 1], "id4004");
}

#[test]
fn a_processed_seal_survives_fewer_than_cap_later_marks() {
    let mut ids = mark_processed(Vec::new(), s("seal"), 4);
    for later in ["a", "b", "c"] {
        ids = mark_processed(ids, s(later), 4);
    }
    assert!(already_processed(&ids, &s("seal")));
    ids = mark_processed(ids, s("d"), 4);
    assert!(!already_processed(&ids, &s("seal")));
}
