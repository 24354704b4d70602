//! Group chat state: rosters (tracked by stable account UID), membership
//! changes, roster merging on receipt, and each device's own message log.
//! Delivery itself (per-member encryption and publishing) happens outside
//! this crate; what is decided here is who is in a group and what a member
//! sees.

use vstd::prelude::*;
use crate::friends::{Friend, find_friend, find_first};
use crate::seqs::{
    retain_vec, find_index, first_index, find_last_index, last_index, sort_vec_by_time, sort_by_time, Timed,
    any_where, first_where, lemma_first_index,
};
use crate::text::{strs_view, opt_view, opt_str_eq, strs_eq, clone_opt_str, clone_strs};

verus! {

broadcast use vstd::seq_lib::group_seq_properties;

pub struct GroupMember {
    pub uid: String,
    pub display_name: String,
    /// This member's dedicated per-group routing identity (hex pubkey),
    /// once they have announced it.
    pub group_pubkey: Option<String>,
    /// Where to publish to `group_pubkey` — this member's own relay list.
    pub relays: Vec<String>,
    /// This member's forward-secrecy device identity, once known.
    pub device_pubkey: Option<String>,
}

pub struct Group {
    pub id: String,
    pub name: String,
    pub members: Vec<GroupMember>,
    pub created_at: i64,
}

/// A membership list as broadcast to a group's members: always the complete
/// roster as the sender knows it.
pub struct GroupInvitePayload {
    pub group_id: String,
    pub name: String,
    pub members: Vec<GroupMember>,
}

/// Pointer to an encrypted attachment blob, as delivered to every member.
pub struct GroupAttachmentPayload {
    pub group_id: String,
    pub url: String,
    pub sha256: String,
    pub size: u32,
    pub mime_type: String,
    pub filename: String,
    pub enc_key: String,
    pub caption: Option<String>,
}

/// An attachment as shown on a [GroupChatMessage].
pub struct GroupChatAttachment {
    pub url: String,
    pub sha256: String,
    pub size: u32,
    pub mime_type: String,
    pub filename: String,
    pub enc_key: String,
    pub caption: Option<String>,
}

/// An attachment as kept in this device's message log.
pub struct StoredGroupAttachment {
    pub url: String,
    pub sha256: String,
    pub size: u32,
    pub mime_type: String,
    pub filename: String,
    pub enc_key: String,
    pub caption: Option<String>,
}

/// A message as kept in this device's message log.
pub struct StoredGroupMessage {
    pub id: String,
    pub group_id: String,
    pub sender_uid: String,
    pub sender_name: String,
    pub content: String,
    pub created_at: i64,
    pub attachment: Option<StoredGroupAttachment>,
}

/// A group message as shown in the UI.
pub struct GroupChatMessage {
    pub id: String,
    pub group_id: String,
    pub sender_uid: String,
    pub sender_name: String,
    pub content: String,
    pub created_at: i64,
    pub is_mine: bool,
    pub attachment: Option<GroupChatAttachment>,
}

impl Timed for GroupChatMessage {
    open spec fn time_of(&self) -> i64 {
        self.created_at
    }

    fn time(&self) -> (t: i64) {
        self.created_at
    }
}

/// Two roster entries carry the same information.
pub open spec fn member_same(a: GroupMember, b: GroupMember) -> bool {
    &&& a.uid@ == b.uid@
    &&& a.display_name@ == b.display_name@
    &&& opt_view(a.group_pubkey) == opt_view(b.group_pubkey)
    &&& strs_view(a.relays@) == strs_view(b.relays@)
    &&& opt_view(a.device_pubkey) == opt_view(b.device_pubkey)
}

/// `c` is a field-for-field copy of `m`.
pub open spec fn member_copy(c: GroupMember, m: GroupMember) -> bool {
    &&& c.uid == m.uid
    &&& c.display_name == m.display_name
    &&& c.group_pubkey == m.group_pubkey
    &&& c.relays@ == m.relays@
    &&& c.device_pubkey == m.device_pubkey
}

/// Two rosters carry the same entries in the same order.
pub open spec fn members_same(a: Seq<GroupMember>, b: Seq<GroupMember>) -> bool {
    &&& a.len() == b.len()
    &&& forall|i: int| 0 <= i < a.len() ==> member_same(#[trigger] a[i], b[i])
}

/// Two groups carry the same information.
pub open spec fn group_same(a: Group, b: Group) -> bool {
    &&& a.id@ == b.id@
    &&& a.name@ == b.name@
    &&& a.created_at == b.created_at
    &&& members_same(a.members@, b.members@)
}

/// Whether two roster entries carry the same information.
pub fn member_eq(a: &GroupMember, b: &GroupMember) -> (r: bool)
    ensures
        r == member_same(*a, *b),
        r ==> a.uid@ == b.uid@ && a.display_name@ == b.display_name@ && opt_view(a.group_pubkey) == opt_view(
            b.group_pubkey,
        ) && strs_view(a.relays@) == strs_view(b.relays@) && opt_view(a.device_pubkey) == opt_view(b.device_pubkey),
        opt_view(a.device_pubkey) != opt_view(b.device_pubkey) ==> !r,
        opt_view(a.group_pubkey) != opt_view(b.group_pubkey) ==> !r,
        strs_view(a.relays@) != strs_view(b.relays@) ==> !r,
        a.display_name@ != b.display_name@ ==> !r,
{
    a.uid == b.uid && a.display_name == b.display_name && opt_str_eq(&a.group_pubkey, &b.group_pubkey)
        && strs_eq(&a.relays, &b.relays) && opt_str_eq(&a.device_pubkey, &b.device_pubkey)
}

/// Whether two rosters carry the same entries in the same order.
pub fn members_eq(a: &Vec<GroupMember>, b: &Vec<GroupMember>) -> (r: bool)
    ensures
        r == members_same(a@, b@),
{
    if a.len() != b.len() {
        return false;
    }
    let mut i: usize = 0;
    while i < a.len()
        invariant
            a@.len() == b@.len(),
            i <= a@.len(),
            forall|j: int| 0 <= j < i ==> member_same(#[trigger] a@[j], b@[j]),
        decreases a@.len() - i,
    {
        if !member_eq(&a[i], &b[i]) {
            return false;
        }
        i = i + 1;
    }
    true
}

/// A copy of a roster entry.
pub fn clone_member(m: &GroupMember) -> (c: GroupMember)
    ensures
        c.uid == m.uid,
        c.display_name == m.display_name,
        c.group_pubkey == m.group_pubkey,
        c.relays@ == m.relays@,
        c.device_pubkey == m.device_pubkey,
        member_copy(c, *m),
        member_same(c, *m),
{
    GroupMember {
        uid: m.uid.clone(),
        display_name: m.display_name.clone(),
        group_pubkey: clone_opt_str(&m.group_pubkey),
        relays: clone_strs(&m.relays),
        device_pubkey: clone_opt_str(&m.device_pubkey),
    }
}

/// A copy of a roster.
pub fn clone_members(v: &Vec<GroupMember>) -> (c: Vec<GroupMember>)
    ensures
        members_same(c@, v@),
        c@.len() == v@.len(),
        forall|j: int| 0 <= j < v@.len() ==> member_copy(#[trigger] c@[j], v@[j]),
{
    let mut c: Vec<GroupMember> = Vec::new();
    let mut i: usize = 0;
    while i < v.len()
        invariant
            i <= v@.len(),
            c@.len() == i,
            forall|j: int| 0 <= j < i ==> member_same(#[trigger] c@[j], v@[j]),
            forall|j: int| 0 <= j < i ==> member_copy(#[trigger] c@[j], v@[j]),
        decreases v@.len() - i,
    {
        c.push(clone_member(&v[i]));
        i = i + 1;
    }
    c
}

/// A copy of a group.
pub fn clone_group(g: &Group) -> (c: Group)
    ensures
        group_same(c, *g),
        c.id == g.id,
        c.name == g.name,
        c.created_at == g.created_at,
        c.members@.len() == g.members@.len(),
        forall|j: int| 0 <= j < g.members@.len() ==> member_copy(#[trigger] c.members@[j], g.members@[j]),
{
    Group {
        id: g.id.clone(),
        name: g.name.clone(),
        members: clone_members(&g.members),
        created_at: g.created_at,
    }
}

/// `m` is the roster entry made for friend `f` before they announce any
/// routing information: their UID and name, nothing else.
pub open spec fn fresh_member_of(m: GroupMember, f: Friend) -> bool {
    &&& m.uid == f.uid
    &&& m.display_name == f.display_name
    &&& m.group_pubkey is None
    &&& m.relays@.len() == 0
    &&& m.device_pubkey is None
}

/// The friends that `pubkeys` name, in order, skipping any that is not a
/// friend.
pub open spec fn resolved_friends(friends: Seq<Friend>, pubkeys: Seq<String>) -> Seq<Friend>
    decreases pubkeys.len(),
{
    if pubkeys.len() == 0 {
        Seq::empty()
    } else {
        let rest = resolved_friends(friends, pubkeys.drop_last());
        match find_first(friends, pubkeys.last()@) {
            Some(i) => rest.push(friends[i]),
            None => rest,
        }
    }
}

fn member_for_friend(f: &Friend) -> (m: GroupMember)
    ensures
        fresh_member_of(m, *f),
{
    GroupMember {
        uid: f.uid.clone(),
        display_name: f.display_name.clone(),
        group_pubkey: None,
        relays: Vec::new(),
        device_pubkey: None,
    }
}

/// Resolves `pubkeys` (as they appear in this device's own friends list)
/// into roster entries, silently dropping any pubkey that isn't a friend.
pub fn resolve_members(friends: &Vec<Friend>, pubkeys: &Vec<String>) -> (out: Vec<GroupMember>)
    ensures
        out@.len() == resolved_friends(friends@, pubkeys@).len(),
        forall|j: int|
            0 <= j < out@.len() ==> fresh_member_of(
                #[trigger] out@[j],
                resolved_friends(friends@, pubkeys@)[j],
            ),
{
    let mut out: Vec<GroupMember> = Vec::new();
    let mut i: usize = 0;
    while i < pubkeys.len()
        invariant
            i <= pubkeys@.len(),
            out@.len() == resolved_friends(friends@, pubkeys@.take(i as int)).len(),
            forall|j: int|
                0 <= j < out@.len() ==> fresh_member_of(
                    #[trigger] out@[j],
                    resolved_friends(friends@, pubkeys@.take(i as int))[j],
                ),
        decreases pubkeys@.len() - i,
    {
        let r = find_friend(friends, &pubkeys[i]);
        proof {
            let t = pubkeys@.take(i + 1);
            assert(t.drop_last() == pubkeys@.take(i as int));
            assert(t.last() == pubkeys@[i as int]);
            crate::friends::lemma_find_first_of(friends@, pubkeys@[i as int]@, r);
        }
        match r {
            Some(fi) => {
                let m = member_for_friend(&friends[fi]);
                out.push(m);
            },
            None => {},
        }
        i = i + 1;
    }
    proof {
        assert(pubkeys@.take(pubkeys@.len() as int) == pubkeys@);
    }
    out
}

/// Whether `g` is the group `id`.
pub open spec fn is_group(id: Seq<char>) -> spec_fn(Group) -> bool {
    |g: Group| g.id@ == id
}

/// The index of the first group with id `id`, if any.
pub fn find_group(groups: &Vec<Group>, id: &String) -> (r: Option<usize>)
    ensures
        match r {
            Some(i) => first_index(groups@, is_group(id@)) == Some(i as int) && groups@[i as int].id@
                == id@,
            None => first_index(groups@, is_group(id@)) is None,
        },
{
    find_index(
        groups,
        (|g: &Group| -> (b: bool)
            ensures
                b == (g.id@ == id@),
            { g.id == *id }),
        Ghost(is_group(id@)),
    )
}

/// Creates a group named `name` with the friends `member_pubkeys` name
/// (non-friends are skipped) followed by this account's own entry, and adds
/// it to the group list.
pub fn create_group(
    groups: Vec<Group>,
    friends: &Vec<Friend>,
    member_pubkeys: &Vec<String>,
    own_entry: GroupMember,
    group_id: String,
    name: String,
    created_at: i64,
) -> (out: (Vec<Group>, Group))
    ensures
        out.0@.len() == groups@.len() + 1,
        out.0@.drop_last() == groups@,
        group_same(out.1, out.0@.last()),
        out.1.id == group_id,
        out.1.name == name,
        out.1.created_at == created_at,
        out.1.members@.len() == resolved_friends(friends@, member_pubkeys@).len() + 1,
        forall|j: int|
            0 <= j < resolved_friends(friends@, member_pubkeys@).len() ==> fresh_member_of(
                #[trigger] out.1.members@[j],
                resolved_friends(friends@, member_pubkeys@)[j],
            ),
        member_same(out.1.members@.last(), own_entry),
{
    let mut members = resolve_members(friends, member_pubkeys);
    members.push(own_entry);
    let group = Group { id: group_id, name, members, created_at };
    let copy = clone_group(&group);
    let mut groups = groups;
    groups.push(group);
    proof {
        assert(members_same(copy.members@, group.members@));
        assert(member_same(copy.members@[copy.members@.len() - 1], group.members@[group.members@.len()
            - 1]));
    }
    (groups, copy)
}

/// Whether some entry of `members` has UID `uid`.
pub open spec fn has_uid(members: Seq<GroupMember>, uid: Seq<char>) -> bool {
    exists|j: int| 0 <= j < members.len() && #[trigger] members[j].uid@ == uid
}

/// Whether `m` is some other member than `uid`.
pub open spec fn other_uid(uid: Seq<char>) -> spec_fn(GroupMember) -> bool {
    |m: GroupMember| m.uid@ != uid
}

fn contains_uid(members: &Vec<GroupMember>, uid: &String) -> (b: bool)
    ensures
        b == has_uid(members@, uid@),
{
    let mut i: usize = 0;
    while i < members.len()
        invariant
            i <= members@.len(),
            forall|j: int| 0 <= j < i ==> #[trigger] members@[j].uid@ != uid@,
        decreases members@.len() - i,
    {
        if members[i].uid == *uid {
            return true;
        }
        i = i + 1;
    }
    false
}

/// `new` is `old` with only its roster replaced by `members`.
pub open spec fn same_group_new_members(old: Group, new: Group, members: Seq<GroupMember>) -> bool {
    &&& new.id == old.id
    &&& new.name == old.name
    &&& new.created_at == old.created_at
    &&& new.members@ == members
}

/// `groups` after the group at `i` was replaced by `g`.
pub open spec fn replaced_at(old: Seq<Group>, new: Seq<Group>, i: int, g: Group) -> bool {
    &&& new.len() == old.len()
    &&& 0 <= i < old.len()
    &&& new[i] == g
    &&& forall|k: int| 0 <= k < old.len() && k != i ==> #[trigger] new[k] == old[k]
}

/// Adds the friend `member_pubkey` to `group_id`'s roster (unless an entry
/// with their UID is already there), handing back the updated group list
/// and a copy of the updated group to broadcast.
pub fn add_group_member(
    groups: Vec<Group>,
    friends: &Vec<Friend>,
    group_id: &String,
    member_pubkey: &String,
) -> (r: Result<(Vec<Group>, Group), String>)
    ensures
        match first_index(groups@, is_group(group_id@)) {
            None => r is Err && r->Err_0@ == "group not found"@,
            Some(gi) => match find_first(friends@, member_pubkey@) {
                None => r is Err && r->Err_0@ == "not a friend"@,
                Some(fi) => r is Ok && {
                    let (gs, g) = r->Ok_0;
                    let old_g = groups@[gi];
                    let new_g = gs@[gi];
                    &&& replaced_at(groups@, gs@, gi, new_g)
                    &&& new_g.id == old_g.id && new_g.name == old_g.name && new_g.created_at
                        == old_g.created_at
                    &&& if has_uid(old_g.members@, friends@[fi].uid@) {
                        new_g.members@ == old_g.members@
                    } else {
                        &&& new_g.members@.len() == old_g.members@.len() + 1
                        &&& new_g.members@.drop_last() == old_g.members@
                        &&& fresh_member_of(new_g.members@.last(), friends@[fi])
                    }
                    &&& group_same(g, new_g)
                },
            },
        },
{
    let gi = match find_group(&groups, group_id) {
        Some(gi) => gi,
        None => {
            return Err(String::from_str("group not found"));
        },
    };
    let fr = find_friend(friends, member_pubkey);
    proof {
        crate::friends::lemma_find_first_of(friends@, member_pubkey@, fr);
    }
    let fi = match fr {
        Some(fi) => fi,
        None => {
            return Err(String::from_str("not a friend"));
        },
    };
    let new_member = member_for_friend(&friends[fi]);
    let mut groups = groups;
    let ghost old_groups = groups@;
    let mut g = groups.remove(gi);
    let ghost old_g = g;
    if !contains_uid(&g.members, &new_member.uid) {
        g.members.push(new_member);
    }
    let copy = clone_group(&g);
    groups.insert(gi, g);
    proof {
        assert(groups@ == old_groups.update(gi as int, g));
    }
    Ok((groups, copy))
}

/// Drops every entry with UID `member_uid` from `group_id`'s roster, handing
/// back the updated group list and a copy of the updated group to broadcast.
pub fn remove_group_member(groups: Vec<Group>, group_id: &String, member_uid: &String) -> (r: Result<
    (Vec<Group>, Group),
    String,
>)
    ensures
        match first_index(groups@, is_group(group_id@)) {
            None => r is Err && r->Err_0@ == "group not found"@,
            Some(gi) => r is Ok && {
                let (gs, g) = r->Ok_0;
                &&& replaced_at(groups@, gs@, gi, gs@[gi])
                &&& same_group_new_members(
                    groups@[gi],
                    gs@[gi],
                    groups@[gi].members@.filter(other_uid(member_uid@)),
                )
                &&& group_same(g, gs@[gi])
            },
        },
{
    let gi = match find_group(&groups, group_id) {
        Some(gi) => gi,
        None => {
            return Err(String::from_str("group not found"));
        },
    };
    let mut groups = groups;
    let ghost old_groups = groups@;
    let g = groups.remove(gi);
    let members = retain_vec(
        g.members,
        (|m: &GroupMember| -> (b: bool)
            ensures
                b == (m.uid@ != member_uid@),
            { !(m.uid == *member_uid) }),
        Ghost(other_uid(member_uid@)),
    );
    let g = Group { id: g.id, name: g.name, members, created_at: g.created_at };
    let copy = clone_group(&g);
    groups.insert(gi, g);
    proof {
        assert(groups@ == old_groups.update(gi as int, g));
    }
    Ok((groups, copy))
}

/// Whether `g` is some other group than `id`.
pub open spec fn other_group(id: Seq<char>) -> spec_fn(Group) -> bool {
    |g: Group| g.id@ != id
}

/// Leaves `group_id`: the group (every entry with that id) is dropped from
/// this device's list, and the roster to announce to the remaining members
/// is the group's own roster without this account's entries.
pub fn leave_group(groups: Vec<Group>, group_id: &String, self_uid: &String) -> (r: Result<
    (Vec<Group>, Group),
    String,
>)
    ensures
        match first_index(groups@, is_group(group_id@)) {
            None => r is Err && r->Err_0@ == "group not found"@,
            Some(gi) => r is Ok && {
                let (gs, announced) = r->Ok_0;
                &&& gs@ == groups@.filter(other_group(group_id@))
                &&& same_group_new_members(
                    groups@[gi],
                    announced,
                    groups@[gi].members@.filter(other_uid(self_uid@)),
                )
            },
        },
{
    let gi = match find_group(&groups, group_id) {
        Some(gi) => gi,
        None => {
            return Err(String::from_str("group not found"));
        },
    };
    let mut groups = groups;
    let ghost old_groups = groups@;
    let g = groups.remove(gi);
    let members = retain_vec(
        g.members,
        (|m: &GroupMember| -> (b: bool)
            ensures
                b == (m.uid@ != self_uid@),
            { !(m.uid == *self_uid) }),
        Ghost(other_uid(self_uid@)),
    );
    let announced = Group { id: g.id, name: g.name, members, created_at: g.created_at };
    let rest = retain_vec(
        groups,
        (|h: &Group| -> (b: bool)
            ensures
                b == (h.id@ != group_id@),
            { !(h.id == *group_id) }),
        Ghost(other_group(group_id@)),
    );
    proof {
        lemma_filter_skips(old_groups, gi as int, other_group(group_id@));
    }
    Ok((rest, announced))
}

/// Filtering away an element that fails the predicate does not change the result.
pub proof fn lemma_filter_skips<T>(s: Seq<T>, i: int, p: spec_fn(T) -> bool)
    requires
        0 <= i < s.len(),
        !p(s[i]),
    ensures
        s.remove(i).filter(p) == s.filter(p),
{
    let a = s.take(i);
    let b = s.skip(i + 1);
    assert(s == a + seq![s[i]] + b);
    assert(s.remove(i) == a + b);
    Seq::filter_distributes_over_add(a + seq![s[i]], b, p);
    Seq::filter_distributes_over_add(a, seq![s[i]], p);
    Seq::filter_distributes_over_add(a, b, p);
    Seq::<T>::empty().lemma_filter_push(s[i], p);
    assert(seq![s[i]] == Seq::<T>::empty().push(s[i]));
    reveal(Seq::filter);
    assert(Seq::<T>::empty().filter(p) == Seq::<T>::empty());
    assert(seq![s[i]].filter(p) =~= Seq::<T>::empty());
}

/// What merging `payload` into `groups` (at time `now`) gives: the group
/// list `out_groups`, the merged group `merged`, and whether anything
/// changed (see [merge_roster]).
pub open spec fn merged_as(
    groups: Seq<Group>,
    payload: GroupInvitePayload,
    now: i64,
    out_groups: Seq<Group>,
    merged: Group,
    changed: bool,
) -> bool {
    match first_index(groups, is_group(payload.group_id@)) {
        Some(gi) => {
            let old_g = groups[gi];
            let new_g = out_groups[gi];
            let name_changed = old_g.name@ != payload.name@;
            let members_changed = payload.members@.len() > 0 && !members_same(
                old_g.members@,
                payload.members@,
            );
            &&& replaced_at(groups, out_groups, gi, new_g)
            &&& new_g.id == old_g.id
            &&& new_g.created_at == old_g.created_at
            &&& new_g.name == if name_changed {
                payload.name
            } else {
                old_g.name
            }
            &&& new_g.members@ == if members_changed {
                payload.members@
            } else {
                old_g.members@
            }
            &&& changed == (name_changed || members_changed)
            &&& group_same(merged, new_g)
        },
        None => {
            &&& out_groups.len() == groups.len() + 1
            &&& out_groups.drop_last() == groups
            &&& out_groups.last() == new_group(payload, now)
            &&& changed
            &&& group_same(merged, out_groups.last())
        },
    }
}

/// The group a roster for an unknown group creates.
pub open spec fn new_group(payload: GroupInvitePayload, now: i64) -> Group {
    Group { id: payload.group_id, name: payload.name, members: payload.members, created_at: now }
}

/// Applies a just-received roster for `payload.group_id`: a group heard of
/// for the first time is added (created `now`); otherwise its name is
/// updated if it differs, and its roster is replaced wholesale by a
/// non-empty received roster that differs — a received roster is always the
/// complete one. Also says whether anything changed (see [merged_as]).
pub fn merge_roster(groups: Vec<Group>, payload: GroupInvitePayload, now: i64) -> (out: (
    Vec<Group>,
    Group,
    bool,
))
    ensures
        merged_as(groups@, payload, now, out.0@, out.1, out.2),
{
    let ghost given = payload;
    let ghost before_groups = groups@;
    let mut groups = groups;
    match find_group(&groups, &payload.group_id) {
        Some(gi) => {
            let ghost old_groups = groups@;
            let mut g = groups.remove(gi);
            let mut changed = false;
            if !(g.name == payload.name) {
                g.name = payload.name;
                changed = true;
            }
            if payload.members.len() > 0 && !members_eq(&g.members, &payload.members) {
                g.members = payload.members;
                changed = true;
            }
            let copy = clone_group(&g);
            groups.insert(gi, g);
            proof {
                assert(groups@ == old_groups.update(gi as int, g));
                assert(replaced_at(before_groups, groups@, gi as int, groups@[gi as int]));
                assert(merged_as(before_groups, given, now, groups@, copy, changed));
            }
            (groups, copy, changed)
        },
        None => {
            let g = Group { id: payload.group_id, name: payload.name, members: payload.members, created_at: now };
            let copy = clone_group(&g);
            groups.push(g);
            proof {
                assert(groups@.drop_last() == before_groups);
                assert(groups@.last() == new_group(given, now));
                assert(merged_as(before_groups, given, now, groups@, copy, true));
            }
            (groups, copy, true)
        },
    }
}

/// Two rosters carrying the same information are interchangeable.
proof fn lemma_members_same_equiv(a: Seq<GroupMember>, b: Seq<GroupMember>, c: Seq<GroupMember>)
    ensures
        members_same(a, a),
        members_same(a, b) ==> members_same(b, a),
        members_same(a, b) && members_same(b, c) ==> members_same(a, c),
{
    if members_same(a, b) {
        assert forall|i: int| 0 <= i < b.len() implies member_same(#[trigger] b[i], a[i]) by {
            assert(member_same(a[i], b[i]));
        }
        if members_same(b, c) {
            assert forall|i: int| 0 <= i < a.len() implies member_same(#[trigger] a[i], c[i]) by {
                assert(member_same(a[i], b[i]));
                assert(member_same(b[i], c[i]));
            }
        }
    }
}

/// Merging a roster converges: merging the same roster again (or any
/// roster carrying the same group, name and members) changes nothing, so
/// a member that re-announces only on change never loops.
pub proof fn lemma_merge_converges(
    groups: Seq<Group>,
    payload: GroupInvitePayload,
    now: i64,
    first: (Seq<Group>, Group, bool),
    again: GroupInvitePayload,
    later: i64,
    second: (Seq<Group>, Group, bool),
)
    requires
        merged_as(groups, payload, now, first.0, first.1, first.2),
        again.group_id@ == payload.group_id@,
        again.name@ == payload.name@,
        members_same(again.members@, payload.members@),
        merged_as(first.0, again, later, second.0, second.1, second.2),
    ensures
        !second.2,
{
    let p = is_group(payload.group_id@);
    assert(is_group(again.group_id@) == p);
    lemma_first_index(groups, p);
    lemma_first_index(first.0, p);
    lemma_members_same_equiv(again.members@, payload.members@, payload.members@);
    match first_index(groups, p) {
        Some(gi) => {
            let g1 = first.0[gi];
            assert(first_where(first.0, p, gi)) by {
                assert(forall|j: int| 0 <= j < gi ==> first.0[j] == groups[j]);
            }
            assert(first_index(first.0, p) == Some(gi));
            let old_g = groups[gi];
            if payload.members@.len() > 0 && !members_same(old_g.members@, payload.members@) {
                assert(g1.members@ == payload.members@);
                lemma_members_same_equiv(g1.members@, payload.members@, again.members@);
            } else if payload.members@.len() > 0 {
                assert(g1.members@ == old_g.members@);
                lemma_members_same_equiv(g1.members@, payload.members@, again.members@);
            }
        },
        None => {
            let n = groups.len() as int;
            assert(first_where(first.0, p, n)) by {
                assert forall|j: int| 0 <= j < n implies !p(#[trigger] first.0[j]) by {
                    assert(first.0.drop_last()[j] == first.0[j]);
                    assert(!p(groups[j]));
                }
                assert(first.0[n] == first.0.last());
            }
            assert(first_index(first.0, p) == Some(n));
            let g1 = first.0[n];
            assert(g1 == new_group(payload, now));
            lemma_members_same_equiv(payload.members@, again.members@, payload.members@);
            lemma_members_same_equiv(again.members@, payload.members@, payload.members@);
        },
    }
}

/// Whether message `m` belongs to group `id`.
pub open spec fn in_group(id: Seq<char>) -> spec_fn(StoredGroupMessage) -> bool {
    |m: StoredGroupMessage| m.group_id@ == id
}

/// Whether roster entry `m` has UID `uid`.
pub open spec fn is_uid(uid: Seq<char>) -> spec_fn(GroupMember) -> bool {
    |m: GroupMember| m.uid@ == uid
}

/// The sender name shown for `m`: the name the group's current roster has
/// for its sender (the last roster entry with that UID), falling back to
/// the name stored with the message for a sender no longer in the group.
pub open spec fn shown_sender_name(groups: Seq<Group>, group_id: Seq<char>, m: StoredGroupMessage) -> String {
    match first_index(groups, is_group(group_id)) {
        Some(gi) => match last_index(groups[gi].members@, is_uid(m.sender_uid@)) {
            Some(mi) => groups[gi].members@[mi].display_name,
            None => m.sender_name,
        },
        None => m.sender_name,
    }
}

/// An attachment as shown, field for field.
pub open spec fn shown_attachment(a: Option<StoredGroupAttachment>) -> Option<GroupChatAttachment> {
    match a {
        Some(a) => Some(
            GroupChatAttachment {
                url: a.url,
                sha256: a.sha256,
                size: a.size,
                mime_type: a.mime_type,
                filename: a.filename,
                enc_key: a.enc_key,
                caption: a.caption,
            },
        ),
        None => None,
    }
}

/// A stored message as shown to this account (`self_uid`).
pub open spec fn shown_message(
    groups: Seq<Group>,
    group_id: Seq<char>,
    self_uid: Seq<char>,
    m: StoredGroupMessage,
) -> GroupChatMessage {
    GroupChatMessage {
        id: m.id,
        group_id: m.group_id,
        sender_uid: m.sender_uid,
        sender_name: shown_sender_name(groups, group_id, m),
        content: m.content,
        created_at: m.created_at,
        is_mine: m.sender_uid@ == self_uid,
        attachment: shown_attachment(m.attachment),
    }
}

/// This device's history for `group_id` as shown, oldest first.
pub open spec fn group_history(
    all: Seq<StoredGroupMessage>,
    groups: Seq<Group>,
    group_id: Seq<char>,
    self_uid: Seq<char>,
) -> Seq<GroupChatMessage> {
    sort_by_time(
        all.filter(in_group(group_id)).map_values(
            |m: StoredGroupMessage| shown_message(groups, group_id, self_uid, m),
        ),
    )
}

/// Whether a shown attachment is the stored one, field for field: both
/// absent, or both present and equal.
pub open spec fn attachment_carried(stored: Option<StoredGroupAttachment>, shown: Option<GroupChatAttachment>) -> bool {
    match (stored, shown) {
        (None, None) => true,
        (Some(a), Some(b)) => {
            &&& b.url == a.url
            &&& b.sha256 == a.sha256
            &&& b.size == a.size
            &&& b.mime_type == a.mime_type
            &&& b.filename == a.filename
            &&& b.enc_key == a.enc_key
            &&& b.caption == a.caption
        },
        _ => false,
    }
}

/// Every message of a group's history comes from a stored message of that
/// group, with its id, sender, text and time, and with its attachment
/// carried over unchanged (present exactly when stored).
pub proof fn lemma_history_keeps_attachments(
    all: Seq<StoredGroupMessage>,
    groups: Seq<Group>,
    group_id: Seq<char>,
    self_uid: Seq<char>,
    k: int,
)
    requires
        0 <= k < group_history(all, groups, group_id, self_uid).len(),
    ensures
        exists|j: int|
            #![trigger all[j]]
            0 <= j < all.len() && all[j].group_id@ == group_id && group_history(all, groups, group_id, self_uid)[k].id
                == all[j].id && group_history(all, groups, group_id, self_uid)[k].sender_uid == all[j].sender_uid
                && group_history(all, groups, group_id, self_uid)[k].content == all[j].content && group_history(
                all,
                groups,
                group_id,
                self_uid,
            )[k].created_at == all[j].created_at && attachment_carried(
                all[j].attachment,
                group_history(all, groups, group_id, self_uid)[k].attachment,
            ),
{
    broadcast use vstd::seq_lib::group_to_multiset_ensures;

    let f = |m: StoredGroupMessage| shown_message(groups, group_id, self_uid, m);
    let kept = all.filter(in_group(group_id));
    let mapped = kept.map_values(f);
    crate::seqs::lemma_sort_by_time(mapped);
    let sorted = sort_by_time(mapped);
    assert(group_history(all, groups, group_id, self_uid) == sorted);
    let h = sorted[k];
    assert(sorted.contains(h));
    assert(sorted.to_multiset().count(h) > 0);
    assert(mapped.to_multiset().count(h) > 0);
    assert(mapped.contains(h));
    let i = choose|i: int| 0 <= i < mapped.len() && mapped[i] == h;
    let m = kept[i];
    assert(h == f(m));
    broadcast use vstd::seq_lib::group_filter_ensures;

    assert(in_group(group_id)(m));
    assert(kept.contains(m));
    all.lemma_filter_contains_rev(in_group(group_id), m);
    let j = choose|j: int| 0 <= j < all.len() && all[j] == m;
    assert(all[j] == m);
}

fn show_attachment(a: Option<StoredGroupAttachment>) -> (r: Option<GroupChatAttachment>)
    ensures
        r == shown_attachment(a),
{
    match a {
        Some(a) => Some(
            GroupChatAttachment {
                url: a.url,
                sha256: a.sha256,
                size: a.size,
                mime_type: a.mime_type,
                filename: a.filename,
                enc_key: a.enc_key,
                caption: a.caption,
            },
        ),
        None => None,
    }
}

/// This device's message history for `group_id` (see [group_history]):
/// only that group's messages, each shown with its sender's current name,
/// oldest first.
pub fn load_group_messages(
    all: Vec<StoredGroupMessage>,
    groups: &Vec<Group>,
    group_id: &String,
    self_uid: &String,
) -> (out: Vec<GroupChatMessage>)
    ensures
        out@ == group_history(all@, groups@, group_id@, self_uid@),
        forall|k: int|
            0 <= k < out@.len() ==> exists|j: int|
                #![trigger all@[j]]
                0 <= j < all@.len() && all@[j].group_id@ == group_id@ && (#[trigger] out@[k]).id == all@[j].id
                    && out@[k].sender_uid == all@[j].sender_uid && out@[k].content == all@[j].content
                    && out@[k].created_at == all@[j].created_at && attachment_carried(
                    all@[j].attachment,
                    out@[k].attachment,
                ),
{
    let ghost s = all@;
    let ghost f = |m: StoredGroupMessage| shown_message(groups@, group_id@, self_uid@, m);
    let ghost p = in_group(group_id@);
    let gi = find_group(groups, group_id);
    let mut shown: Vec<GroupChatMessage> = Vec::new();
    let mut rest = all;
    while rest.len() > 0
        invariant
            rest@.len() <= s.len(),
            rest@ == s.skip(s.len() - rest@.len()),
            shown@ == s.take(s.len() - rest@.len()).filter(p).map_values(f),
            f == (|m: StoredGroupMessage| shown_message(groups@, group_id@, self_uid@, m)),
            p == in_group(group_id@),
            match gi {
                Some(i) => first_index(groups@, is_group(group_id@)) == Some(i as int) && i
                    < groups@.len(),
                None => first_index(groups@, is_group(group_id@)) is None,
            },
        decreases rest@.len(),
    {
        let ghost k = s.len() - rest@.len();
        let m = rest.remove(0);
        proof {
            assert(m == s[k]);
            assert(s.take(k + 1) == s.take(k).push(s[k]));
            s.take(k).lemma_filter_push(s[k], p);
            assert(rest@ == s.skip(k + 1));
        }
        if m.group_id == *group_id {
            let ghost m0 = m;
            let sender_name = match gi {
                Some(i) => {
                    let mi = find_last_index(
                        &groups[i].members,
                        (|e: &GroupMember| -> (b: bool)
                            ensures
                                b == (e.uid@ == m.sender_uid@),
                            { e.uid == m.sender_uid }),
                        Ghost(is_uid(m.sender_uid@)),
                    );
                    match mi {
                        Some(j) => groups[i].members[j].display_name.clone(),
                        None => m.sender_name,
                    }
                },
                None => m.sender_name,
            };
            let is_mine = m.sender_uid == *self_uid;
            let item = GroupChatMessage {
                id: m.id,
                group_id: m.group_id,
                sender_uid: m.sender_uid,
                sender_name,
                content: m.content,
                created_at: m.created_at,
                is_mine,
                attachment: show_attachment(m.attachment),
            };
            proof {
                assert(item == f(m0));
                let prev = s.take(k).filter(p);
                assert(prev.push(m0).map_values(f) =~= prev.map_values(f).push(f(m0)));
            }
            shown.push(item);
        }
    }
    proof {
        assert(s.take(s.len() as int) == s);
    }
    let out = sort_vec_by_time(shown);
    proof {
        assert forall|k: int| 0 <= k < out@.len() implies exists|j: int|
            #![trigger s[j]]
            0 <= j < s.len() && s[j].group_id@ == group_id@ && (#[trigger] out@[k]).id == s[j].id
                && out@[k].sender_uid == s[j].sender_uid && out@[k].content == s[j].content
                && out@[k].created_at == s[j].created_at && attachment_carried(s[j].attachment, out@[k].attachment) by {
            lemma_history_keeps_attachments(s, groups@, group_id@, self_uid@, k);
        }
    }
    out
}

/// Whether stored message `m` has id `id`.
pub open spec fn has_message_id(id: Seq<char>) -> spec_fn(StoredGroupMessage) -> bool {
    |m: StoredGroupMessage| m.id@ == id
}

/// Adds `message` to the log unless a message with its id is already there.
pub fn append_message(all: Vec<StoredGroupMessage>, message: StoredGroupMessage) -> (out: Vec<
    StoredGroupMessage,
>)
    ensures
        out@ == if exists|j: int| 0 <= j < all@.len() && has_message_id(message.id@)(#[trigger] all@[j]) {
            all@
        } else {
            all@.push(message)
        },
{
    let present = any_where(
        &all,
        (|m: &StoredGroupMessage| -> (b: bool)
            ensures
                b == (m.id@ == message.id@),
            { m.id == message.id }),
        Ghost(has_message_id(message.id@)),
    );
    let mut all = all;
    if !present {
        all.push(message);
    }
    all
}

/// Whether stored message `m` belongs to some other group than `id`.
pub open spec fn not_in_group(id: Seq<char>) -> spec_fn(StoredGroupMessage) -> bool {
    |m: StoredGroupMessage| m.group_id@ != id
}

/// The log with every message of `group_id` removed.
pub fn delete_group_messages(all: Vec<StoredGroupMessage>, group_id: &String) -> (out: Vec<
    StoredGroupMessage,
>)
    ensures
        out@ == all@.filter(not_in_group(group_id@)),
{
    retain_vec(
        all,
        (|m: &StoredGroupMessage| -> (b: bool)
            ensures
                b == (m.group_id@ != group_id@),
            { !(m.group_id == *group_id) }),
        Ghost(not_in_group(group_id@)),
    )
}

/// Whether roster entry `m` announced the routing identity `pk`.
pub open spec fn has_group_pubkey(pk: Seq<char>) -> spec_fn(GroupMember) -> bool {
    |m: GroupMember| opt_view(m.group_pubkey) == Some(pk)
}

/// The UID of the member of `group_id` whose per-group routing identity is
/// `group_pubkey` (the first such roster entry), if any.
pub fn resolve_member_uid_by_group_pubkey(
    groups: &Vec<Group>,
    group_id: &String,
    group_pubkey: &String,
) -> (r: Option<String>)
    ensures
        r == match first_index(groups@, is_group(group_id@)) {
            Some(gi) => match first_index(groups@[gi].members@, has_group_pubkey(group_pubkey@)) {
                Some(mi) => Some(groups@[gi].members@[mi].uid),
                None => None,
            },
            None => None,
        },
{
    match find_group(groups, group_id) {
        Some(gi) => {
            let mi = find_index(
                &groups[gi].members,
                (|m: &GroupMember| -> (b: bool)
                    ensures
                        b == (opt_view(m.group_pubkey) == Some(group_pubkey@)),
                    {
                        match &m.group_pubkey {
                            Some(pk) => *pk == *group_pubkey,
                            None => false,
                        }
                    }),
                Ghost(has_group_pubkey(group_pubkey@)),
            );
            match mi {
                Some(j) => Some(groups[gi].members[j].uid.clone()),
                None => None,
            }
        },
        None => None,
    }
}

/// The name stored with a newly received message: what `group_id`'s roster
/// calls `sender_uid` (its first entry with that UID), or empty if unknown.
pub fn sender_name_for(groups: &Vec<Group>, group_id: &String, sender_uid: &String) -> (r: String)
    ensures
        match first_index(groups@, is_group(group_id@)) {
            Some(gi) => match first_index(groups@[gi].members@, is_uid(sender_uid@)) {
                Some(mi) => r == groups@[gi].members@[mi].display_name,
                None => r@ == Seq::<char>::empty(),
            },
            None => r@ == Seq::<char>::empty(),
        },
{
    match find_group(groups, group_id) {
        Some(gi) => {
            let mi = find_index(
                &groups[gi].members,
                (|m: &GroupMember| -> (b: bool)
                    ensures
                        b == (m.uid@ == sender_uid@),
                    { m.uid == *sender_uid }),
                Ghost(is_uid(sender_uid@)),
            );
            match mi {
                Some(j) => groups[gi].members[j].display_name.clone(),
                None => String::new(),
            }
        },
        None => String::new(),
    }
}

/// Brings this account's own roster entry in the stored copy of `merged`
/// up to date with `fresh`, for re-announcing: nothing to do (`None`) when
/// `merged` already carries exactly `fresh` for `self_uid` or the group is
/// not stored; otherwise the first entry for `self_uid` is replaced by
/// `fresh`, or `fresh` is appended when there is none.
pub fn update_own_entry(
    groups: Vec<Group>,
    merged: &Group,
    self_uid: &String,
    fresh: GroupMember,
) -> (r: Option<(Vec<Group>, Group)>)
    ensures
        first_index(merged.members@, is_uid(self_uid@)) matches Some(mi) && opt_view(
            merged.members@[mi].device_pubkey,
        ) != opt_view(fresh.device_pubkey) && first_index(groups@, is_group(merged.id@)) is Some ==> r is Some,
        match first_index(merged.members@, is_uid(self_uid@)) {
            Some(mi) if member_same(merged.members@[mi], fresh) => r is None,
            _ => match first_index(groups@, is_group(merged.id@)) {
                None => r is None,
                Some(gi) => r is Some && {
                    let (gs, g) = r->Some_0;
                    let old_m = groups@[gi].members@;
                    &&& replaced_at(groups@, gs@, gi, gs@[gi])
                    &&& same_group_new_members(
                        groups@[gi],
                        gs@[gi],
                        match first_index(old_m, is_uid(self_uid@)) {
                            Some(j) => old_m.update(j, fresh),
                            None => old_m.push(fresh),
                        },
                    )
                    &&& group_same(g, gs@[gi])
                },
            },
        },
{
    let current = find_index(
        &merged.members,
        (|m: &GroupMember| -> (b: bool)
            ensures
                b == (m.uid@ == self_uid@),
            { m.uid == *self_uid }),
        Ghost(is_uid(self_uid@)),
    );
    match current {
        Some(mi) => {
            if member_eq(&merged.members[mi], &fresh) {
                return None;
            }
        },
        None => {},
    }
    let gi = match find_group(&groups, &merged.id) {
        Some(gi) => gi,
        None => {
            return None;
        },
    };
    let mut groups = groups;
    let ghost old_groups = groups@;
    let mut g = groups.remove(gi);
    let own = find_index(
        &g.members,
        (|m: &GroupMember| -> (b: bool)
            ensures
                b == (m.uid@ == self_uid@),
            { m.uid == *self_uid }),
        Ghost(is_uid(self_uid@)),
    );
    let ghost old_members = g.members@;
    match own {
        Some(j) => {
            g.members.set(j, fresh);
        },
        None => {
            g.members.push(fresh);
        },
    }
    let copy = clone_group(&g);
    groups.insert(gi, g);
    proof {
        assert(groups@ == old_groups.update(gi as int, g));
    }
    Some((groups, copy))
}


/// The name a roster gives a sender: what `group_id`'s roster (its first
/// entry with UID `uid`) calls them, or empty if unknown.
pub open spec fn spec_sender_name(groups: Seq<Group>, group_id: Seq<char>, uid: Seq<char>) -> Seq<char> {
    match first_index(groups, is_group(group_id)) {
        Some(gi) => match first_index(groups[gi].members@, is_uid(uid)) {
            Some(mi) => groups[gi].members@[mi].display_name@,
            None => Seq::empty(),
        },
        None => Seq::empty(),
    }
}

/// `m` is the log record of a received message with these fields.
pub open spec fn received_record(
    m: StoredGroupMessage,
    id: String,
    group_id: String,
    sender_uid: String,
    sender_name: Seq<char>,
    text: String,
    created_at: i64,
    attachment: Option<StoredGroupAttachment>,
) -> bool {
    &&& m.id == id
    &&& m.group_id == group_id
    &&& m.sender_uid == sender_uid
    &&& m.sender_name@ == sender_name
    &&& m.content == text
    &&& m.created_at == created_at
    &&& m.attachment == attachment
}

/// Records a message received for `group_id` from `sender_uid` (already
/// resolved by whichever channel delivered it) in this device's log, under
/// the sender's name as the group's roster has it. A message whose id is
/// already logged changes nothing.
pub fn store_received_group_message(
    all: Vec<StoredGroupMessage>,
    groups: &Vec<Group>,
    sender_uid: String,
    group_id: String,
    text: String,
    created_at: i64,
    id: String,
    attachment: Option<StoredGroupAttachment>,
) -> (out: Vec<StoredGroupMessage>)
    ensures
        (exists|j: int| 0 <= j < all@.len() && has_message_id(id@)(#[trigger] all@[j])) ==> out@
            == all@,
        !(exists|j: int| 0 <= j < all@.len() && has_message_id(id@)(#[trigger] all@[j])) ==> {
            &&& out@.len() == all@.len() + 1
            &&& out@.drop_last() == all@
            &&& received_record(
                out@.last(),
                id,
                group_id,
                sender_uid,
                spec_sender_name(groups@, group_id@, sender_uid@),
                text,
                created_at,
                attachment,
            )
        },
{
    let sender_name = sender_name_for(groups, &group_id, &sender_uid);
    let message = StoredGroupMessage {
        id,
        group_id,
        sender_uid,
        sender_name,
        content: text,
        created_at,
        attachment,
    };
    append_message(all, message)
}

/// Checks a message about to be sent to `group_id`: it must fit
/// [crate::chat::MAX_MESSAGE_CHARS] and the group must exist; gives the
/// group's index.
pub fn check_group_send(groups: &Vec<Group>, group_id: &String, content: &str) -> (r: Result<
    usize,
    String,
>)
    ensures
        content@.len() > crate::chat::MAX_MESSAGE_CHARS ==> r is Err && r->Err_0@ == "message too long"@,
        content@.len() <= crate::chat::MAX_MESSAGE_CHARS ==> match first_index(groups@, is_group(group_id@)) {
            Some(gi) => r == Ok::<usize, String>(gi as usize),
            None => r is Err && r->Err_0@ == "group not found"@,
        },
{
    crate::chat::check_message_length(content)?;
    match find_group(groups, group_id) {
        Some(gi) => Ok(gi),
        None => Err(String::from_str("group not found")),
    }
}

/// How a group payload is to reach one member.
pub struct DeliveryPlan {
    /// Try the member's direct per-group (forward-secret) channel first.
    pub direct: bool,
    /// The friend (index into the friends list) whose 1:1 channel carries
    /// the payload when there is no direct channel or sending on it fails.
    pub fallback: Option<usize>,
}

/// Whether friend `f` is the account with UID `uid`.
pub open spec fn is_friend_uid(uid: Seq<char>) -> spec_fn(Friend) -> bool {
    |f: Friend| f.uid@ == uid
}

/// Plans the delivery of a group payload to `member`: the direct channel
/// needs this device's ratchet key and the member's announced per-group
/// routing identity and device identity; the fallback is the first friend
/// with the member's UID. A member reachable by neither gets nothing.
pub fn plan_delivery(member: &GroupMember, has_ratchet_key: bool, friends: &Vec<Friend>) -> (p:
    DeliveryPlan)
    ensures
        p.direct == (has_ratchet_key && member.group_pubkey is Some && member.device_pubkey is Some),
        match p.fallback {
            Some(i) => first_index(friends@, is_friend_uid(member.uid@)) == Some(i as int),
            None => first_index(friends@, is_friend_uid(member.uid@)) is None,
        },
{
    let direct = has_ratchet_key && member.group_pubkey.is_some() && member.device_pubkey.is_some();
    let fallback = find_index(
        friends,
        (|f: &Friend| -> (b: bool)
            ensures
                b == (f.uid@ == member.uid@),
            { f.uid == member.uid }),
        Ghost(is_friend_uid(member.uid@)),
    );
    DeliveryPlan { direct, fallback }
}

/// The roster positions a group payload goes to: every member but this
/// account itself (`self_uid`), in roster order.
pub fn broadcast_recipients(members: &Vec<GroupMember>, self_uid: &String) -> (out: Vec<usize>)
    ensures
        forall|k: int|
            0 <= k < out@.len() ==> out@[k] < members@.len() && members@[out@[k] as int].uid@
                != self_uid@,
        forall|a: int, b: int| 0 <= a < b < out@.len() ==> out@[a] < out@[b],
        forall|i: int|
            0 <= i < members@.len() && members@[i].uid@ != self_uid@ ==> exists|k: int|
                0 <= k < out@.len() && out@[k] == i,
{
    let mut out: Vec<usize> = Vec::new();
    let mut i: usize = 0;
    while i < members.len()
        invariant
            i <= members@.len(),
            forall|k: int|
                0 <= k < out@.len() ==> out@[k] < i && members@[out@[k] as int].uid@ != self_uid@,
            forall|a: int, b: int| 0 <= a < b < out@.len() ==> out@[a] < out@[b],
            forall|j: int|
                0 <= j < i && members@[j].uid@ != self_uid@ ==> exists|k: int|
                    0 <= k < out@.len() && out@[k] == j,
        decreases members@.len() - i,
    {
        if !(members[i].uid == *self_uid) {
            let ghost before = out@;
            out.push(i);
            proof {
                assert(out@[out@.len() - 1] == i);
                assert forall|j: int|
                    0 <= j < i + 1 && members@[j].uid@ != self_uid@ implies exists|k: int|
                        0 <= k < out@.len() && out@[k] == j by {
                    if j < i {
                        let k = choose|k: int| 0 <= k < before.len() && before[k] == j;
                        assert(out@[k] == j);
                    } else {
                        assert(out@[out@.len() - 1] == j);
                    }
                }
            }
        }
        i = i + 1;
    }
    out
}

/// A received roster that differs from the stored one only in a member's
/// device key is a different roster: merging it takes it and reports a
/// change, so the new device key is stored and re-announced.
pub proof fn lemma_device_key_change_is_merged(
    groups: Seq<Group>,
    payload: GroupInvitePayload,
    now: i64,
    out_groups: Seq<Group>,
    merged: Group,
    changed: bool,
    gi: int,
    i: int,
)
    requires
        merged_as(groups, payload, now, out_groups, merged, changed),
        first_index(groups, is_group(payload.group_id@)) == Some(gi),
        groups[gi].members@.len() == payload.members@.len(),
        0 <= i < payload.members@.len(),
        opt_view(groups[gi].members@[i].device_pubkey) != opt_view(payload.members@[i].device_pubkey),
    ensures
        changed,
        out_groups[gi].members@ == payload.members@,
{
    assert(!member_same(groups[gi].members@[i], payload.members@[i]));
    assert(!members_same(groups[gi].members@, payload.members@));
}

} // verus!
