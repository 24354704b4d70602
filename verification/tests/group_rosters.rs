use origilink::friends::{add_friend, Friend};
use origilink::group_ratchet::{group_identities, session_key, MAX_GROUP_PROCESSED_IDS};
use origilink::groups::{
    add_group_member, append_message, broadcast_recipients, check_group_send, create_group, delete_group_messages,
    leave_group, load_group_messages, merge_roster, plan_delivery, remove_group_member,
    resolve_member_uid_by_group_pubkey, resolve_members, sender_name_for, store_received_group_message,
    update_own_entry, Group, GroupInvitePayload, GroupMember, StoredGroupAttachment, StoredGroupMessage,
};
use origilink::keys::derive_contact_pubkey;

fn s(x: &str) -> String {
    x.to_string()
}

fn friends() -> Vec<Friend> {
    let (f, _) = add_friend(Vec::new(), s("pk-a"), s("uid-a"), 1, s("Alice"), s(""), vec![], None, 0);
    let (f, _) = add_friend(f, s("pk-b"), s("uid-b"), 2, s("Bob"), s(""), vec![], None, 0);
    f
}

fn member(uid: &str, name: &str) -> GroupMember {
    GroupMember { uid: s(uid), display_name: s(name), group_pubkey: None, relays: vec![], device_pubkey: None }
}

fn routed(uid: &str, name: &str, group_pubkey: &str, device: &str) -> GroupMember {
    GroupMember {
        uid: s(uid),
        display_name: s(name),
        group_pubkey: Some(s(group_pubkey)),
        relays: vec![s("wss://m")],
        device_pubkey: Some(s(device)),
    }
}

fn uids(g: &Group) -> Vec<String> {
    g.members.iter().map(|m| m.uid.clone()).collect()
}

fn stored(id: &str, group: &str, sender: &str, name: &str, at: i64) -> StoredGroupMessage {
    StoredGroupMessage {
        id: s(id),
        group_id: s(group),
        sender_uid: s(sender),
        sender_name: s(name),
        content: s(id),
        created_at: at,
        attachment: None,
    }
}

fn new_group() -> (Vec<Group>, Group) {
    create_group(Vec::new(), &friends(), &vec![s("pk-a"), s("stranger")], member("me", "Me"), s("g1"), s("Team"), 10)
}

#[test]
fn create_group_resolves_friends_and_appends_self() {
    let (groups, group) = new_group();
    assert_eq!(groups.len(), 1);
    assert_eq!(group.id, "g1");
    assert_eq!(group.name, "Team");
    assert_eq!(group.created_at, 10);
    assert_eq!(uids(&group), vec![s("uid-a"), s("me")]);
    assert_eq!(group.members[0].display_name, "Alice");
    assert!(group.members[0].group_pubkey.is_none());
    assert_eq!(resolve_members(&friends(), &vec![s("pk-b"), s("pk-a")]).len(), 2);
}

#[test]
fn add_group_member_needs_the_group_and_a_friend() {
    let (groups, _) = new_group();
    let (groups, group) = add_group_member(groups, &friends(), &s("g1"), &s("pk-b")).unwrap();
    assert_eq!(uids(&group), vec![s("uid-a"), s("me"), s("uid-b")]);
    assert_eq!(uids(&groups[0]), uids(&group));
    // Adding the same account again changes nothing.
    let (groups, group) = add_group_member(groups, &friends(), &s("g1"), &s("pk-b")).unwrap();
    assert_eq!(group.members.len(), 3);
    assert!(matches!(add_group_member(groups, &friends(), &s("nope"), &s("pk-b")), Err(e) if e == "group not found"));
    let (groups, _) = new_group();
    assert!(matches!(add_group_member(groups, &friends(), &s("g1"), &s("pk-x")), Err(e) if e == "not a friend"));
}

#[test]
fn remove_and_leave() {
    let (groups, _) = new_group();
    let (groups, group) = remove_group_member(groups, &s("g1"), &s("uid-a")).unwrap();
    assert_eq!(uids(&group), vec![s("me")]);
    assert_eq!(groups.len(), 1);
    assert!(matches!(remove_group_member(groups, &s("g2"), &s("me")), Err(e) if e == "group not found"));

    let (groups, _) = new_group();
    let (groups, announced) = leave_group(groups, &s("g1"), &s("me")).unwrap();
    assert!(groups.is_empty());
    assert_eq!(uids(&announced), vec![s("uid-a")]);
    assert!(matches!(leave_group(groups, &s("g1"), &s("me")), Err(e) if e == "group not found"));
}

#[test]
fn merging_a_roster_converges() {
    let payload = || GroupInvitePayload { group_id: s("g9"), name: s("New"), members: vec![member("x", "X")] };
    let (groups, merged, changed) = merge_roster(Vec::new(), payload(), 77);
    assert!(changed);
    assert_eq!(merged.created_at, 77);
    assert_eq!(groups.len(), 1);
    let (groups, _, changed) = merge_roster(groups, payload(), 78);
    assert!(!changed);
    assert_eq!(groups[0].created_at, 77);

    // A rename and a new roster both count as changes; an empty roster never wipes members.
    let renamed = GroupInvitePayload { group_id: s("g9"), name: s("Renamed"), members: vec![] };
    let (groups, merged, changed) = merge_roster(groups, renamed, 79);
    assert!(changed);
    assert_eq!(merged.name, "Renamed");
    assert_eq!(uids(&merged), vec![s("x")]);
    let roster = GroupInvitePayload { group_id: s("g9"), name: s("Renamed"), members: vec![member("y", "Y")] };
    let (_, merged, changed) = merge_roster(groups, roster, 80);
    assert!(changed);
    assert_eq!(uids(&merged), vec![s("y")]);
}

#[test]
fn own_entry_is_brought_up_to_date() {
    let (groups, group) = new_group();
    // Unchanged entry: nothing to do.
    assert!(update_own_entry(groups, &group, &s("me"), member("me", "Me")).is_none());
    let (groups, group) = new_group();
    let (groups, updated) = update_own_entry(groups, &group, &s("me"), routed("me", "Me", "gpk", "dev")).unwrap();
    assert_eq!(updated.members[1].group_pubkey, Some(s("gpk")));
    assert_eq!(groups[0].members[1].device_pubkey, Some(s("dev")));
    // Missing entry: appended.
    let (groups, group) = new_group();
    let (_, updated) = update_own_entry(groups, &group, &s("other-me"), member("other-me", "Me2")).unwrap();
    assert_eq!(uids(&updated), vec![s("uid-a"), s("me"), s("other-me")]);
}

#[test]
fn group_messages_show_current_names_oldest_first() {
    let (groups, _) = new_group();
    let all = vec![
        stored("m2", "g1", "uid-a", "stale name", 20),
        stored("m1", "g1", "me", "Me", 10),
        stored("other", "g2", "uid-a", "A", 5),
        stored("m3", "g1", "gone", "Departed", 30),
    ];
    let shown = load_group_messages(all, &groups, &s("g1"), &s("me"));
    let ids: Vec<&str> = shown.iter().map(|m| m.id.as_str()).collect();
    assert_eq!(ids, vec!["m1", "m2", "m3"]);
    assert!(shown[0].is_mine);
    assert!(!shown[1].is_mine);
    assert_eq!(shown[1].sender_name, "Alice");
    assert_eq!(shown[2].sender_name, "Departed");
}

#[test]
fn message_log_dedups_and_deletes_by_group() {
    let all = append_message(Vec::new(), stored("m1", "g1", "a", "A", 1));
    let all = append_message(all, stored("m1", "g1", "a", "A", 2));
    assert_eq!(all.len(), 1);
    assert_eq!(all[0].created_at, 1);
    let all = append_message(all, stored("m2", "g2", "a", "A", 3));
    let all = delete_group_messages(all, &s("g1"));
    assert_eq!(all.len(), 1);
    assert_eq!(all[0].id, "m2");
}

#[test]
fn received_messages_take_the_roster_name() {
    let (groups, _) = new_group();
    assert_eq!(sender_name_for(&groups, &s("g1"), &s("uid-a")), "Alice");
    assert_eq!(sender_name_for(&groups, &s("g1"), &s("ghost")), "");
    assert_eq!(sender_name_for(&groups, &s("nope"), &s("uid-a")), "");
    let attachment = StoredGroupAttachment {
        url: s("https://files/x"),
        sha256: s("00"),
        size: 3,
        mime_type: s("image/png"),
        filename: s("x.png"),
        enc_key: s("key"),
        caption: None,
    };
    let all = store_received_group_message(Vec::new(), &groups, s("uid-a"), s("g1"), s("x.png"), 50, s("seal1"), Some(attachment));
    assert_eq!(all.len(), 1);
    assert_eq!(all[0].sender_name, "Alice");
    assert_eq!(all[0].id, "seal1");
    assert_eq!(all[0].attachment.as_ref().map(|a| a.size), Some(3));
    let all = store_received_group_message(all, &groups, s("uid-a"), s("g1"), s("again"), 51, s("seal1"), None);
    assert_eq!(all.len(), 1);
    assert_eq!(all[0].content, "x.png");
}

#[test]
fn members_are_found_by_routing_identity() {
    let (groups, group) = new_group();
    let (groups, _) = update_own_entry(groups, &group, &s("me"), routed("me", "Me", "gpk-me", "dev")).unwrap();
    assert_eq!(resolve_member_uid_by_group_pubkey(&groups, &s("g1"), &s("gpk-me")), Some(s("me")));
    assert_eq!(resolve_member_uid_by_group_pubkey(&groups, &s("g1"), &s("unknown")), None);
    assert_eq!(resolve_member_uid_by_group_pubkey(&groups, &s("g2"), &s("gpk-me")), None);
}

#[test]
fn delivery_prefers_the_direct_channel_and_falls_back_to_the_friend() {
    let f = friends();
    let direct = plan_delivery(&routed("uid-b", "Bob", "gpk", "dev"), true, &f);
    assert!(direct.direct);
    assert_eq!(direct.fallback, Some(1));
    let no_key = plan_delivery(&routed("uid-b", "Bob", "gpk", "dev"), false, &f);
    assert!(!no_key.direct);
    let unannounced = plan_delivery(&member("uid-a", "Alice"), true, &f);
    assert!(!unannounced.direct);
    assert_eq!(unannounced.fallback, Some(0));
    let unreachable = plan_delivery(&member("stranger", "S"), true, &f);
    assert!(!unreachable.direct);
    assert_eq!(unreachable.fallback, None);
}

#[test]
fn broadcasts_skip_ourselves() {
    let members = vec![member("a", "A"), member("me", "Me"), member("b", "B"), member("me", "Me again")];
    assert_eq!(broadcast_recipients(&members, &s("me")), vec![0, 2]);
    assert_eq!(broadcast_recipients(&Vec::new(), &s("me")), Vec::<usize>::new());
}

#[test]
fn group_sessions_are_keyed_by_group_and_peer() {
    assert_eq!(session_key("g1", "abcd"), "g1:abcd");
    assert_eq!(MAX_GROUP_PROCESSED_IDS, 4000);
}

#[test]
fn group_identities_derive_each_recorded_index() {
    let mnemonic = "leader monkey parrot ring guide accident before fence cannon height naive bean";
    let ids = group_identities(mnemonic, &vec![(s("g1"), 5), (s("g2"), 6)]);
    assert_eq!(ids.len(), 2);
    assert_eq!(ids[0].0, derive_contact_pubkey(mnemonic, 5).unwrap());
    assert_eq!(ids[0].1, "g1");
    assert_eq!(ids[1].0, derive_contact_pubkey(mnemonic, 6).unwrap());
    assert!(group_identities("bad", &vec![(s("g1"), 5)]).is_empty());
}

#[test]
fn group_sends_need_the_group_and_a_short_message() {
    let (groups, _) = new_group();
    assert_eq!(check_group_send(&groups, &s("g1"), "hello"), Ok(0));
    assert_eq!(check_group_send(&groups, &s("g2"), "hello"), Err(s("group not found")));
    assert_eq!(check_group_send(&groups, &s("g1"), &"y".repeat(4001)), Err(s("message too long")));
}
