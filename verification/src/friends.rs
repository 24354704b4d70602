//! The friends list and the block list.

use vstd::prelude::*;
use crate::seqs::{retain_vec, position, any_where, first_where};

verus! {

/// A confirmed friend: their per-relationship contact pubkey, and which of
/// *our own* NIP-06 account indices we use to talk to them. Every friend has
/// a distinct pair of keys on both sides, so leaking one relationship's key
/// never exposes another.
pub struct Friend {
    /// The friend's contact pubkey (hex) — distinct from their account's
    /// core identity, minted specifically for this relationship.
    pub pubkey: String,
    /// The friend's stable account UID (the same in every relationship).
    pub uid: String,
    /// Which of our own `account` indices we use to talk to this friend.
    pub my_account_index: u32,
    pub display_name: String,
    pub status_message: String,
    /// The friend's relays as of the last time we heard from them.
    pub relays: Vec<String>,
    /// Local file path to the friend's cached avatar image, if any.
    pub avatar_path: Option<String>,
    pub added_at: i64,
    /// When the newest profile update applied so far was built (0 before
    /// any), so a reordered older update is never applied over it.
    pub profile_updated_at: i64,
}

/// Whether `f` is some other contact than `pubkey`.
pub open spec fn not_pubkey(pubkey: Seq<char>) -> spec_fn(Friend) -> bool {
    |f: Friend| f.pubkey@ != pubkey
}

/// The friends list with every entry for `pubkey` dropped.
pub open spec fn friends_without(friends: Seq<Friend>, pubkey: Seq<char>) -> Seq<Friend> {
    friends.filter(not_pubkey(pubkey))
}

/// `friends` with every entry for `pubkey` removed.
fn drop_pubkey(friends: Vec<Friend>, pubkey: &String) -> (out: Vec<Friend>)
    ensures
        out@ == friends_without(friends@, pubkey@),
{
    retain_vec(
        friends,
        (|f: &Friend| -> (b: bool)
            ensures
                b == (f.pubkey@ != pubkey@),
            { !(f.pubkey == *pubkey) }),
        Ghost(not_pubkey(pubkey@)),
    )
}

/// Whether `f` is the same account as UID `uid` (an empty UID matches
/// nobody: older peers send none).
pub open spec fn same_account(uid: Seq<char>) -> spec_fn(Friend) -> bool {
    |f: Friend| uid.len() > 0 && f.uid@ == uid
}

/// Whether `f` is neither the contact `pubkey` nor the account `uid`.
pub open spec fn other_contact(pubkey: Seq<char>, uid: Seq<char>) -> spec_fn(Friend) -> bool {
    |f: Friend| f.pubkey@ != pubkey && !same_account(uid)(f)
}

/// The entry [add_friend] appends.
pub open spec fn new_friend(
    pubkey: String,
    uid: String,
    my_account_index: u32,
    display_name: String,
    status_message: String,
    relays: Vec<String>,
    avatar_path: Option<String>,
    added_at: i64,
) -> Friend {
    Friend {
        pubkey,
        uid,
        my_account_index,
        display_name,
        status_message,
        relays,
        avatar_path,
        added_at,
        profile_updated_at: 0,
    }
}

/// Adds (or replaces the info of) a friend, deduplicating by their contact
/// pubkey and by their account UID: any earlier entry for `pubkey`, or for
/// the same (non-empty) UID under an older relationship key, is dropped and
/// the new one goes last. Also says whether the UID matched an existing
/// friend — an account that re-friended us under a new key is merged into
/// one entry rather than listed twice.
pub fn add_friend(
    friends: Vec<Friend>,
    pubkey: String,
    uid: String,
    my_account_index: u32,
    display_name: String,
    status_message: String,
    relays: Vec<String>,
    avatar_path: Option<String>,
    added_at: i64,
) -> (out: (Vec<Friend>, bool))
    ensures
        out.0@ == friends@.filter(other_contact(pubkey@, uid@)).push(
            new_friend(pubkey, uid, my_account_index, display_name, status_message, relays, avatar_path, added_at),
        ),
        out.1 == exists|j: int| 0 <= j < friends@.len() && same_account(uid@)(#[trigger] friends@[j]),
{
    let has_uid = uid.unicode_len() > 0;
    let merged = any_where(
        &friends,
        (|f: &Friend| -> (b: bool)
            ensures
                b == (uid@.len() > 0 && f.uid@ == uid@),
            { has_uid && f.uid == uid }),
        Ghost(same_account(uid@)),
    );
    let mut out = retain_vec(
        friends,
        (|f: &Friend| -> (b: bool)
            ensures
                b == (f.pubkey@ != pubkey@ && !(uid@.len() > 0 && f.uid@ == uid@)),
            { !(f.pubkey == pubkey) && !(has_uid && f.uid == uid) }),
        Ghost(other_contact(pubkey@, uid@)),
    );
    out.push(
        Friend {
            pubkey,
            uid,
            my_account_index,
            display_name,
            status_message,
            relays,
            avatar_path,
            added_at,
            profile_updated_at: 0,
        },
    );
    (out, merged)
}

/// Adding a friend leaves exactly one entry for their contact pubkey and
/// for their account: the new one, last.
pub proof fn lemma_added_once(friends: Seq<Friend>, f: Friend)
    ensures
        ({
            let out = friends.filter(other_contact(f.pubkey@, f.uid@)).push(f);
            &&& out.last() == f
            &&& forall|j: int|
                0 <= j < out.len() - 1 ==> (#[trigger] out[j]).pubkey@ != f.pubkey@ && !same_account(
                    f.uid@,
                )(out[j])
        }),
{
    let kept = friends.filter(other_contact(f.pubkey@, f.uid@));
    let out = kept.push(f);
    assert forall|j: int| 0 <= j < out.len() - 1 implies (#[trigger] out[j]).pubkey@ != f.pubkey@
        && !same_account(f.uid@)(out[j]) by {
        assert(out[j] == kept[j]);
        friends.lemma_filter_pred(other_contact(f.pubkey@, f.uid@), j);
    }
}

/// Removes a friend by their contact pubkey.
pub fn remove_friend(friends: Vec<Friend>, pubkey: String) -> (out: Vec<Friend>)
    ensures
        out@ == friends_without(friends@, pubkey@),
{
    drop_pubkey(friends, &pubkey)
}

/// Whether `f` is the contact `pubkey`.
pub open spec fn is_pubkey(pubkey: Seq<char>) -> spec_fn(Friend) -> bool {
    |f: Friend| f.pubkey@ == pubkey
}

/// The index of the first friend with contact pubkey `pubkey`, if any.
pub fn find_friend(friends: &Vec<Friend>, pubkey: &String) -> (r: Option<usize>)
    ensures
        match r {
            Some(i) => first_where(friends@, is_pubkey(pubkey@), i as int),
            None => forall|j: int| 0 <= j < friends@.len() ==> #[trigger] friends@[j].pubkey@ != pubkey@,
        },
{
    let r = position(
        friends,
        (|f: &Friend| -> (b: bool)
            ensures
                b == (f.pubkey@ == pubkey@),
            { f.pubkey == *pubkey }),
        Ghost(is_pubkey(pubkey@)),
    );
    proof {
        if r is None {
            assert forall|j: int| 0 <= j < friends@.len() implies #[trigger] friends@[j].pubkey@
                != pubkey@ by {
                assert(!is_pubkey(pubkey@)(friends@[j]));
            }
        }
    }
    r
}

/// `f` with its display info replaced: name and status always, relays only
/// when the new list is non-empty, the avatar only when a new one is given;
/// `updated_at` becomes the newest applied update. Everything else (account
/// index, UID, when added) is left as it was.
pub open spec fn with_profile(
    f: Friend,
    display_name: String,
    status_message: String,
    relays: Vec<String>,
    avatar_path: Option<String>,
    updated_at: i64,
) -> Friend {
    Friend {
        display_name,
        status_message,
        relays: if relays@.len() > 0 { relays } else { f.relays },
        avatar_path: if avatar_path is Some { avatar_path } else { f.avatar_path },
        profile_updated_at: updated_at,
        ..f
    }
}

/// What a profile update stamped `updated_at` does to `friends`: the first
/// entry for `pubkey` takes it unless a newer update was applied to it
/// already (then the update is stale and dropped), and whether it was
/// applied.
pub open spec fn profile_update(
    friends: Seq<Friend>,
    pubkey: Seq<char>,
    display_name: String,
    status_message: String,
    relays: Vec<String>,
    avatar_path: Option<String>,
    updated_at: i64,
) -> (Seq<Friend>, bool) {
    match find_first(friends, pubkey) {
        Some(i) => if updated_at >= friends[i].profile_updated_at {
            (
                friends.update(
                    i,
                    with_profile(friends[i], display_name, status_message, relays, avatar_path, updated_at),
                ),
                true,
            )
        } else {
            (friends, false)
        },
        None => (friends, false),
    }
}

/// Applies a friend's profile update stamped `updated_at` (see
/// [profile_update]): name, status, current relays and avatar. Says whether
/// it was applied — a stale or reordered update, or one for someone who is
/// not a friend, changes nothing.
pub fn update_friend_profile(
    friends: Vec<Friend>,
    pubkey: &String,
    display_name: String,
    status_message: String,
    relays: Vec<String>,
    avatar_path: Option<String>,
    updated_at: i64,
) -> (out: (Vec<Friend>, bool))
    ensures
        (out.0@, out.1) == profile_update(
            friends@,
            pubkey@,
            display_name,
            status_message,
            relays,
            avatar_path,
            updated_at,
        ),
{
    let ghost orig = friends@;
    let mut friends = friends;
    let r = find_friend(&friends, pubkey);
    proof {
        lemma_find_first_of(friends@, pubkey@, r);
    }
    match r {
        Some(i) => {
            if updated_at < friends[i].profile_updated_at {
                return (friends, false);
            }
            let mut f = friends.remove(i);
            let ghost old_f = f;
            f.display_name = display_name;
            f.status_message = status_message;
            if relays.len() > 0 {
                f.relays = relays;
            }
            if avatar_path.is_some() {
                f.avatar_path = avatar_path;
            }
            f.profile_updated_at = updated_at;
            friends.insert(i, f);
            proof {
                assert(friends@ =~= orig.update(
                    i as int,
                    with_profile(old_f, display_name, status_message, relays, avatar_path, updated_at),
                )) by {
                    assert(orig.remove(i as int).insert(i as int, f) =~= orig.update(
                        i as int,
                        f,
                    ));
                }
            }
            (friends, true)
        },
        None => (friends, false),
    }
}

/// A profile update once applied is never overwritten by an older one: after
/// an update stamped `t` was applied, a later-arriving update stamped
/// earlier than `t` is dropped and changes nothing.
pub proof fn lemma_stale_profile_dropped(
    friends: Seq<Friend>,
    pubkey: Seq<char>,
    display_name: String,
    status_message: String,
    relays: Vec<String>,
    avatar_path: Option<String>,
    t: i64,
    name2: String,
    status2: String,
    relays2: Vec<String>,
    avatar2: Option<String>,
    t2: i64,
)
    requires
        profile_update(friends, pubkey, display_name, status_message, relays, avatar_path, t).1,
        t2 < t,
    ensures
        ({
            let after = profile_update(friends, pubkey, display_name, status_message, relays, avatar_path, t).0;
            profile_update(after, pubkey, name2, status2, relays2, avatar2, t2) == (after, false)
        }),
{
    let i = find_first(friends, pubkey)->Some_0;
    let after = profile_update(friends, pubkey, display_name, status_message, relays, avatar_path, t).0;
    let p = is_pubkey(pubkey);
    assert(first_where(friends, p, i));
    assert(first_where(after, p, i)) by {
        assert(after[i].pubkey == friends[i].pubkey);
        assert forall|j: int| 0 <= j < i implies !p(#[trigger] after[j]) by {
            assert(after[j] == friends[j]);
        }
    }
    lemma_find_first_unique(after, pubkey, i);
}

/// The first index is the one [find_first] names.
proof fn lemma_find_first_unique(friends: Seq<Friend>, pubkey: Seq<char>, i: int)
    requires
        first_where(friends, is_pubkey(pubkey), i),
    ensures
        find_first(friends, pubkey) == Some(i),
{
    let j = choose|j: int| first_where(friends, is_pubkey(pubkey), j);
    if j < i {
        assert(!is_pubkey(pubkey)(friends[j]));
    } else if j > i {
        assert(!is_pubkey(pubkey)(friends[i]));
    }
}

/// The index of the first friend whose contact pubkey is `pubkey`.
pub open spec fn find_first(friends: Seq<Friend>, pubkey: Seq<char>) -> Option<int> {
    if exists|i: int| first_where(friends, is_pubkey(pubkey), i) {
        Some(choose|i: int| first_where(friends, is_pubkey(pubkey), i))
    } else {
        None
    }
}

pub proof fn lemma_find_first_of(friends: Seq<Friend>, pubkey: Seq<char>, r: Option<usize>)
    requires
        match r {
            Some(i) => first_where(friends, is_pubkey(pubkey), i as int),
            None => forall|j: int| 0 <= j < friends.len() ==> #[trigger] friends[j].pubkey@ != pubkey,
        },
    ensures
        match r {
            Some(i) => find_first(friends, pubkey) == Some(i as int),
            None => find_first(friends, pubkey) is None,
        },
{
    match r {
        Some(i) => {
            let j = choose|j: int| first_where(friends, is_pubkey(pubkey), j);
            if j < i {
                assert(!is_pubkey(pubkey)(friends[j]));
            } else if j > i {
                assert(!is_pubkey(pubkey)(friends[i as int]));
            }
        },
        None => {
            if exists|i: int| first_where(friends, is_pubkey(pubkey), i) {
                let i = choose|i: int| first_where(friends, is_pubkey(pubkey), i);
                assert(friends[i].pubkey@ == pubkey);
            }
        },
    }
}

/// Whether `s` is the string `target`.
pub open spec fn same_str(target: Seq<char>) -> spec_fn(String) -> bool {
    |s: String| s@ == target
}

/// Whether `list` holds the string `s`.
pub fn contains_str(list: &Vec<String>, s: &String) -> (b: bool)
    ensures
        b == exists|j: int| 0 <= j < list@.len() && #[trigger] list@[j]@ == s@,
{
    let b = any_where(
        list,
        (|t: &String| -> (b: bool)
            ensures
                b == (t@ == s@),
            { *t == *s }),
        Ghost(same_str(s@)),
    );
    proof {
        if b {
            let j = choose|j: int| 0 <= j < list@.len() && same_str(s@)(#[trigger] list@[j]);
            assert(list@[j]@ == s@);
        } else {
            assert forall|j: int| 0 <= j < list@.len() implies #[trigger] list@[j]@ != s@ by {
                assert(!same_str(s@)(list@[j]));
            }
        }
    }
    b
}

/// `list` with `s` added at the end, unless it is already there.
pub open spec fn with_str(list: Seq<String>, s: String) -> Seq<String> {
    if exists|j: int| 0 <= j < list.len() && #[trigger] list[j]@ == s@ {
        list
    } else {
        list.push(s)
    }
}

/// Adds `s` to `list` unless an equal string is already there.
pub fn push_unique(list: Vec<String>, s: String) -> (out: Vec<String>)
    ensures
        out@ == with_str(list@, s),
{
    let mut list = list;
    if !contains_str(&list, &s) {
        list.push(s);
    }
    list
}

/// Permanently blocks a contact pubkey — e.g. after rejecting their friend
/// request, so re-sending it (with the same key) has no effect. Blocking an
/// already-blocked pubkey changes nothing.
pub fn block_pubkey(blocked: Vec<String>, pubkey: String) -> (out: Vec<String>)
    ensures
        out@ == with_str(blocked@, pubkey),
{
    push_unique(blocked, pubkey)
}

} // verus!
