//! Account backup and friend-protocol bookkeeping: the backup slots and
//! which incoming backup events get applied, which incoming friend-protocol
//! events are acted on and how, and the small decisions around publishing
//! and fetching.

use vstd::prelude::*;
use crate::friends::{Friend, contains_str, push_unique, with_str};
use crate::requests::{IncomingRequest, OutgoingRequest, remove_incoming, other_requester};
use crate::keys::{derive_contact_pubkey, spec_contact_pubkey, spec_trim};
use crate::seqs::{find_index, first_index};

verus! {

/// One friend as carried in the friends-list backup.
pub struct FriendBackupEntry {
    pub pubkey: String,
    pub uid: String,
    pub my_account_index: u32,
    pub display_name: String,
    pub status_message: String,
    pub relays: Vec<String>,
    pub is_favorite: bool,
}

/// Account text (display name / status) decrypted from a relay-hosted backup.
pub struct RemoteAccount {
    pub display_name: String,
    pub status_message: String,
    pub updated_at: i64,
}

pub struct RemoteAvatar {
    pub avatar_base64: String,
    pub updated_at: i64,
}

pub struct RemoteRelays {
    pub relays: Vec<String>,
    pub updated_at: i64,
}

pub struct RemoteFriends {
    pub friends: Vec<FriendBackupEntry>,
    pub updated_at: i64,
}

/// A pending incoming friend request, ready to show the user.
pub struct PendingFriendRequest {
    pub invite_account_index: u32,
    pub pubkey: String,
    pub uid: String,
    pub display_name: String,
    pub status_message: String,
    pub relays: Vec<String>,
    pub avatar_base64: Option<String>,
}

/// The data a "my QR" screen encodes: enough for a scanner to send a friend
/// request without any prior relay round-trip.
pub struct InviteQrPayload {
    pub pubkey: String,
    pub relays: Vec<String>,
    pub display_name: String,
    pub status_message: String,
    pub uid: String,
}

/// A live update about friends, requests, messages or the account backup.
pub struct FriendEvent {
    pub kind: String,
    pub pubkey: String,
    pub display_name: String,
    pub status_message: String,
    pub invite_account_index: Option<u32>,
    pub relays: Vec<String>,
    pub content: Option<String>,
}

/// The `updated_at` of the last-applied backup per slot, so stale or
/// duplicate backup events (relays replay freely, in any order) are never
/// applied over newer local state.
pub struct SyncState {
    pub avatar_updated_at: i64,
    pub relays_updated_at: i64,
    pub friends_updated_at: i64,
    pub blocked_updated_at: i64,
    pub invites_updated_at: i64,
    pub outgoing_updated_at: i64,
    pub incoming_updated_at: i64,
    pub readstate_updated_at: i64,
    pub config_updated_at: i64,
    pub chatstarted_updated_at: i64,
}

/// Nothing applied yet for any slot.
pub open spec fn spec_initial_sync_state() -> SyncState {
    SyncState {
        avatar_updated_at: 0,
        relays_updated_at: 0,
        friends_updated_at: 0,
        blocked_updated_at: 0,
        invites_updated_at: 0,
        outgoing_updated_at: 0,
        incoming_updated_at: 0,
        readstate_updated_at: 0,
        config_updated_at: 0,
        chatstarted_updated_at: 0,
    }
}

impl Default for SyncState {
    fn default() -> (s: Self)
        ensures
            s == spec_initial_sync_state(),
    {
        SyncState {
            avatar_updated_at: 0,
            relays_updated_at: 0,
            friends_updated_at: 0,
            blocked_updated_at: 0,
            invites_updated_at: 0,
            outgoing_updated_at: 0,
            incoming_updated_at: 0,
            readstate_updated_at: 0,
            config_updated_at: 0,
            chatstarted_updated_at: 0,
        }
    }
}

/// The independent account-backup slots, each a replaceable event of its own.
#[derive(Clone, Copy, PartialEq, Eq, Structural)]
pub enum BackupSlot {
    Text,
    Avatar,
    Relays,
    Friends,
    Blocked,
    Invites,
    Outgoing,
    Incoming,
    ReadState,
    Config,
    ChatStarted,
}

/// The identifier (`d`) tag of each slot.
pub open spec fn spec_d_tag(slot: BackupSlot) -> Seq<char> {
    match slot {
        BackupSlot::Text => "keychat-account-text"@,
        BackupSlot::Avatar => "keychat-account-avatar"@,
        BackupSlot::Relays => "keychat-account-relays"@,
        BackupSlot::Friends => "keychat-account-friends"@,
        BackupSlot::Blocked => "keychat-account-blocked"@,
        BackupSlot::Invites => "keychat-account-invites"@,
        BackupSlot::Outgoing => "keychat-account-outgoing"@,
        BackupSlot::Incoming => "keychat-account-incoming"@,
        BackupSlot::ReadState => "keychat-account-readstate"@,
        BackupSlot::Config => "keychat-account-config"@,
        BackupSlot::ChatStarted => "keychat-account-chatstarted"@,
    }
}

/// Every slot, in the order a full backup deletion walks them.
pub open spec fn spec_all_slots() -> Seq<BackupSlot> {
    seq![
        BackupSlot::Text,
        BackupSlot::Avatar,
        BackupSlot::Relays,
        BackupSlot::Friends,
        BackupSlot::Blocked,
        BackupSlot::Invites,
        BackupSlot::Outgoing,
        BackupSlot::Incoming,
        BackupSlot::ReadState,
        BackupSlot::Config,
        BackupSlot::ChatStarted,
    ]
}

impl BackupSlot {
    /// This slot's identifier (`d`) tag.
    pub fn d_tag(&self) -> (s: String)
        ensures
            s@ == spec_d_tag(*self),
    {
        match self {
            BackupSlot::Text => String::from_str("keychat-account-text"),
            BackupSlot::Avatar => String::from_str("keychat-account-avatar"),
            BackupSlot::Relays => String::from_str("keychat-account-relays"),
            BackupSlot::Friends => String::from_str("keychat-account-friends"),
            BackupSlot::Blocked => String::from_str("keychat-account-blocked"),
            BackupSlot::Invites => String::from_str("keychat-account-invites"),
            BackupSlot::Outgoing => String::from_str("keychat-account-outgoing"),
            BackupSlot::Incoming => String::from_str("keychat-account-incoming"),
            BackupSlot::ReadState => String::from_str("keychat-account-readstate"),
            BackupSlot::Config => String::from_str("keychat-account-config"),
            BackupSlot::ChatStarted => String::from_str("keychat-account-chatstarted"),
        }
    }
}

/// Every backup slot, in the order a full backup deletion walks them.
pub fn all_backup_slots() -> (v: Vec<BackupSlot>)
    ensures
        v@ == spec_all_slots(),
{
    let v = vec![
        BackupSlot::Text,
        BackupSlot::Avatar,
        BackupSlot::Relays,
        BackupSlot::Friends,
        BackupSlot::Blocked,
        BackupSlot::Invites,
        BackupSlot::Outgoing,
        BackupSlot::Incoming,
        BackupSlot::ReadState,
        BackupSlot::Config,
        BackupSlot::ChatStarted,
    ];
    assert(v@ =~= spec_all_slots());
    v
}

/// The slot a backup event's identifier tag names, if it is one of ours.
pub fn slot_of_tag(tag: &String) -> (r: Option<BackupSlot>)
    ensures
        match r {
            Some(s) => spec_d_tag(s) == tag@,
            None => forall|i: int| 0 <= i < 11 ==> #[trigger] spec_d_tag(spec_all_slots()[i]) != tag@,
        },
{
    let slots = all_backup_slots();
    let mut i: usize = 0;
    while i < slots.len()
        invariant
            slots@ == spec_all_slots(),
            i <= 11,
            forall|j: int| 0 <= j < i ==> #[trigger] spec_d_tag(spec_all_slots()[j]) != tag@,
        decreases 11 - i,
    {
        let t = slots[i].d_tag();
        if t == *tag {
            return Some(slots[i]);
        }
        i = i + 1;
    }
    None
}

/// When the last backup for `slot` was applied (the text slot is tracked by
/// the account's own `updated_at` instead, and counts as never here).
pub open spec fn slot_time(state: SyncState, slot: BackupSlot) -> i64 {
    match slot {
        BackupSlot::Text => i64::MAX,
        BackupSlot::Avatar => state.avatar_updated_at,
        BackupSlot::Relays => state.relays_updated_at,
        BackupSlot::Friends => state.friends_updated_at,
        BackupSlot::Blocked => state.blocked_updated_at,
        BackupSlot::Invites => state.invites_updated_at,
        BackupSlot::Outgoing => state.outgoing_updated_at,
        BackupSlot::Incoming => state.incoming_updated_at,
        BackupSlot::ReadState => state.readstate_updated_at,
        BackupSlot::Config => state.config_updated_at,
        BackupSlot::ChatStarted => state.chatstarted_updated_at,
    }
}

/// `state` with `slot`'s applied time set to `t`.
pub open spec fn with_slot_time(state: SyncState, slot: BackupSlot, t: i64) -> SyncState {
    match slot {
        BackupSlot::Text => state,
        BackupSlot::Avatar => SyncState { avatar_updated_at: t, ..state },
        BackupSlot::Relays => SyncState { relays_updated_at: t, ..state },
        BackupSlot::Friends => SyncState { friends_updated_at: t, ..state },
        BackupSlot::Blocked => SyncState { blocked_updated_at: t, ..state },
        BackupSlot::Invites => SyncState { invites_updated_at: t, ..state },
        BackupSlot::Outgoing => SyncState { outgoing_updated_at: t, ..state },
        BackupSlot::Incoming => SyncState { incoming_updated_at: t, ..state },
        BackupSlot::ReadState => SyncState { readstate_updated_at: t, ..state },
        BackupSlot::Config => SyncState { config_updated_at: t, ..state },
        BackupSlot::ChatStarted => SyncState { chatstarted_updated_at: t, ..state },
    }
}

/// From a fresh state (nothing applied yet), the first backup of any slot
/// but the text slot with a positive time is applied, and the slot then
/// remembers that time.
pub proof fn lemma_first_backup_applied(slot: BackupSlot, t: i64)
    requires
        slot != BackupSlot::Text,
        t > 0,
    ensures
        t > slot_time(spec_initial_sync_state(), slot),
        slot_time(with_slot_time(spec_initial_sync_state(), slot, t), slot) == t,
{
}

/// Decides whether a backup event for `slot` (other than the text slot)
/// stamped `updated_at` is applied: only when it is newer than the last one
/// applied for that slot, which then becomes its applied time.
pub fn accept_backup(state: &mut SyncState, slot: BackupSlot, updated_at: i64) -> (applied: bool)
    ensures
        applied == (updated_at > slot_time(*old(state), slot)),
        *final(state) == if applied {
            with_slot_time(*old(state), slot, updated_at)
        } else {
            *old(state)
        },
        slot == BackupSlot::Text ==> !applied,
        slot == BackupSlot::Avatar ==> (applied <==> updated_at > old(state).avatar_updated_at) && final(state).avatar_updated_at
            == if applied {
            updated_at
        } else {
            old(state).avatar_updated_at
        },
        slot == BackupSlot::Relays ==> (applied <==> updated_at > old(state).relays_updated_at) && final(state).relays_updated_at
            == if applied {
            updated_at
        } else {
            old(state).relays_updated_at
        },
        slot == BackupSlot::Friends ==> (applied <==> updated_at > old(state).friends_updated_at) && final(state).friends_updated_at
            == if applied {
            updated_at
        } else {
            old(state).friends_updated_at
        },
        slot == BackupSlot::Blocked ==> (applied <==> updated_at > old(state).blocked_updated_at) && final(state).blocked_updated_at
            == if applied {
            updated_at
        } else {
            old(state).blocked_updated_at
        },
        slot == BackupSlot::Invites ==> (applied <==> updated_at > old(state).invites_updated_at) && final(state).invites_updated_at
            == if applied {
            updated_at
        } else {
            old(state).invites_updated_at
        },
        slot == BackupSlot::Outgoing ==> (applied <==> updated_at > old(state).outgoing_updated_at) && final(state).outgoing_updated_at
            == if applied {
            updated_at
        } else {
            old(state).outgoing_updated_at
        },
        slot == BackupSlot::Incoming ==> (applied <==> updated_at > old(state).incoming_updated_at) && final(state).incoming_updated_at
            == if applied {
            updated_at
        } else {
            old(state).incoming_updated_at
        },
        slot == BackupSlot::ReadState ==> (applied <==> updated_at > old(state).readstate_updated_at) && final(state).readstate_updated_at
            == if applied {
            updated_at
        } else {
            old(state).readstate_updated_at
        },
        slot == BackupSlot::Config ==> (applied <==> updated_at > old(state).config_updated_at) && final(state).config_updated_at
            == if applied {
            updated_at
        } else {
            old(state).config_updated_at
        },
        slot == BackupSlot::ChatStarted ==> (applied <==> updated_at > old(state).chatstarted_updated_at) && final(state).chatstarted_updated_at
            == if applied {
            updated_at
        } else {
            old(state).chatstarted_updated_at
        },
{
    let current = match slot {
        BackupSlot::Text => i64::MAX,
        BackupSlot::Avatar => state.avatar_updated_at,
        BackupSlot::Relays => state.relays_updated_at,
        BackupSlot::Friends => state.friends_updated_at,
        BackupSlot::Blocked => state.blocked_updated_at,
        BackupSlot::Invites => state.invites_updated_at,
        BackupSlot::Outgoing => state.outgoing_updated_at,
        BackupSlot::Incoming => state.incoming_updated_at,
        BackupSlot::ReadState => state.readstate_updated_at,
        BackupSlot::Config => state.config_updated_at,
        BackupSlot::ChatStarted => state.chatstarted_updated_at,
    };
    if updated_at <= current {
        return false;
    }
    match slot {
        BackupSlot::Text => {},
        BackupSlot::Avatar => state.avatar_updated_at = updated_at,
        BackupSlot::Relays => state.relays_updated_at = updated_at,
        BackupSlot::Friends => state.friends_updated_at = updated_at,
        BackupSlot::Blocked => state.blocked_updated_at = updated_at,
        BackupSlot::Invites => state.invites_updated_at = updated_at,
        BackupSlot::Outgoing => state.outgoing_updated_at = updated_at,
        BackupSlot::Incoming => state.incoming_updated_at = updated_at,
        BackupSlot::ReadState => state.readstate_updated_at = updated_at,
        BackupSlot::Config => state.config_updated_at = updated_at,
        BackupSlot::ChatStarted => state.chatstarted_updated_at = updated_at,
    }
    true
}

/// A backup event once applied is never applied again, and an older one
/// arriving later is never applied over it; applied times only grow.
pub proof fn lemma_backup_applied_once(state: SyncState, slot: BackupSlot, t: i64, t2: i64)
    requires
        t > slot_time(state, slot),
        t2 <= t,
    ensures
        !(t2 > slot_time(with_slot_time(state, slot, t), slot)),
        forall|s: BackupSlot|
            slot_time(with_slot_time(state, slot, t), s) >= #[trigger] slot_time(state, s),
{
    assert forall|s: BackupSlot| slot_time(with_slot_time(state, slot, t), s) >= #[trigger] slot_time(
        state,
        s,
    ) by {}
}

/// Whether a text backup stamped `updated_at` replaces the local account
/// text: when there is no local account yet, or the backup is newer.
pub fn text_backup_is_newer(local_updated_at: Option<i64>, updated_at: i64) -> (b: bool)
    ensures
        b == match local_updated_at {
            Some(t) => updated_at > t,
            None => true,
        },
{
    match local_updated_at {
        Some(t) => updated_at > t,
        None => true,
    }
}

/// The `created_at` a backup event stamped `updated_at` gets (negative
/// stamps clamp to 0).
pub fn backup_timestamp(updated_at: i64) -> (t: u64)
    ensures
        t == if updated_at < 0 {
            0
        } else {
            updated_at as int
        },
{
    if updated_at < 0 {
        0
    } else {
        updated_at as u64
    }
}

/// The index of the newest fetched backup event (the first of the newest,
/// when several tie), given their `created_at` times.
pub fn latest_backup_index(created_at: &Vec<u64>) -> (r: Option<usize>)
    ensures
        match r {
            None => created_at@.len() == 0,
            Some(i) => {
                &&& i < created_at@.len()
                &&& forall|j: int| 0 <= j < created_at@.len() ==> #[trigger] created_at@[j] <= created_at@[i as int]
                &&& forall|j: int| 0 <= j < i ==> #[trigger] created_at@[j] < created_at@[i as int]
            },
        },
{
    if created_at.len() == 0 {
        return None;
    }
    let mut best: usize = 0;
    let mut j: usize = 1;
    while j < created_at.len()
        invariant
            best < j <= created_at@.len(),
            forall|k: int| 0 <= k < j ==> #[trigger] created_at@[k] <= created_at@[best as int],
            forall|k: int| 0 <= k < best ==> #[trigger] created_at@[k] < created_at@[best as int],
        decreases created_at@.len() - j,
    {
        if created_at[j] > created_at[best] {
            best = j;
        }
        j = j + 1;
    }
    Some(best)
}

/// The outcome of publishing to several relays: fine when any relay took
/// the event.
pub fn publish_outcome(accepted: &Vec<bool>) -> (r: Result<(), String>)
    ensures
        r is Ok <==> exists|i: int| 0 <= i < accepted@.len() && #[trigger] accepted@[i],
        r is Err ==> r->Err_0@ == "failed to publish to any relay"@,
{
    let mut i: usize = 0;
    while i < accepted.len()
        invariant
            i <= accepted@.len(),
            forall|j: int| 0 <= j < i ==> !#[trigger] accepted@[j],
        decreases accepted@.len() - i,
    {
        if accepted[i] {
            return Ok(());
        }
        i = i + 1;
    }
    Err(String::from_str("failed to publish to any relay"))
}

/// The wait before retrying a dropped relay subscription: doubled each
/// time, at most 30 seconds.
pub fn next_backoff(backoff_secs: u64) -> (n: u64)
    ensures
        n == if 2 * backoff_secs < 30 {
            2 * backoff_secs
        } else {
            30
        },
{
    if backoff_secs < 15 {
        backoff_secs * 2
    } else {
        30
    }
}

/// Whether request `r` should be shown: it is not from a known friend or a
/// blocked pubkey.
pub open spec fn is_pending(friends: Seq<Friend>, blocked: Seq<String>) -> spec_fn(IncomingRequest) -> bool {
    |r: IncomingRequest|
        !(exists|j: int| 0 <= j < friends.len() && #[trigger] friends[j].pubkey@ == r.pubkey@) && !(exists|
            j: int,
        | 0 <= j < blocked.len() && #[trigger] blocked[j]@ == r.pubkey@)
}

/// A pending request as shown, field for field.
pub open spec fn as_pending(r: IncomingRequest) -> PendingFriendRequest {
    PendingFriendRequest {
        invite_account_index: r.invite_account_index,
        pubkey: r.pubkey,
        uid: r.uid,
        display_name: r.display_name,
        status_message: r.status_message,
        relays: r.relays,
        avatar_base64: r.avatar_base64,
    }
}

/// Each entry of the pending list shows its own request as it came in: the
/// requester's key, UID, name, status, relays, avatar and the invite it
/// answered, none of them taken from another field or another request.
pub proof fn lemma_pending_shows_the_request(
    friends: Seq<Friend>,
    blocked: Seq<String>,
    incoming: Seq<IncomingRequest>,
    k: int,
)
    requires
        0 <= k < incoming.filter(is_pending(friends, blocked)).len(),
    ensures
        ({
            let r = incoming.filter(is_pending(friends, blocked))[k];
            let e = incoming.filter(is_pending(friends, blocked)).map_values(|q: IncomingRequest| as_pending(q))[k];
            &&& e.invite_account_index == r.invite_account_index
            &&& e.pubkey == r.pubkey
            &&& e.uid == r.uid
            &&& e.display_name == r.display_name
            &&& e.status_message == r.status_message
            &&& e.relays == r.relays
            &&& e.avatar_base64 == r.avatar_base64
        }),
{
}

/// The pending list leaves out requests from known friends and blocked
/// pubkeys, and keeps every other request.
pub proof fn lemma_pending_is_exactly_the_unknown(
    friends: Seq<Friend>,
    blocked: Seq<String>,
    incoming: Seq<IncomingRequest>,
)
    ensures
        forall|k: int, j: int|
            0 <= k < incoming.filter(is_pending(friends, blocked)).len() && 0 <= j < friends.len() ==> (
            #[trigger] incoming.filter(is_pending(friends, blocked))[k]).pubkey@ != (#[trigger] friends[j]).pubkey@,
        forall|k: int, j: int|
            0 <= k < incoming.filter(is_pending(friends, blocked)).len() && 0 <= j < blocked.len() ==> (
            #[trigger] incoming.filter(is_pending(friends, blocked))[k]).pubkey@ != (#[trigger] blocked[j])@,
        forall|i: int|
            0 <= i < incoming.len() && (forall|j: int| 0 <= j < friends.len() ==> (#[trigger] friends[j]).pubkey@
                != incoming[i].pubkey@) && (forall|j: int| 0 <= j < blocked.len() ==> (#[trigger] blocked[j])@
                != incoming[i].pubkey@) ==> #[trigger] incoming.filter(is_pending(friends, blocked)).contains(
                incoming[i],
            ),
{
    broadcast use vstd::seq_lib::group_filter_ensures;

    let p = is_pending(friends, blocked);
    assert forall|k: int, j: int|
        0 <= k < incoming.filter(p).len() && 0 <= j < friends.len() implies (#[trigger] incoming.filter(
            p,
        )[k]).pubkey@ != (#[trigger] friends[j]).pubkey@ by {
        assert(p(incoming.filter(p)[k]));
    }
    assert forall|k: int, j: int|
        0 <= k < incoming.filter(p).len() && 0 <= j < blocked.len() implies (#[trigger] incoming.filter(
            p,
        )[k]).pubkey@ != (#[trigger] blocked[j])@ by {
        assert(p(incoming.filter(p)[k]));
    }
    assert forall|i: int|
        0 <= i < incoming.len() && (forall|j: int| 0 <= j < friends.len() ==> (#[trigger] friends[j]).pubkey@
            != incoming[i].pubkey@) && (forall|j: int| 0 <= j < blocked.len() ==> (#[trigger] blocked[j])@
            != incoming[i].pubkey@) implies #[trigger] incoming.filter(p).contains(incoming[i]) by {
        assert(p(incoming[i]));
    }
}

/// Pending incoming friend requests, with already-known friends and blocked
/// pubkeys filtered out (in case a request lingered from before a block or
/// add happened elsewhere).
pub fn load_pending_friend_requests(
    friends: &Vec<Friend>,
    blocked: &Vec<String>,
    incoming: Vec<IncomingRequest>,
) -> (out: Vec<PendingFriendRequest>)
    ensures
        out@ == incoming@.filter(is_pending(friends@, blocked@)).map_values(
            |r: IncomingRequest| as_pending(r),
        ),
        out@.len() == incoming@.filter(is_pending(friends@, blocked@)).len(),
        forall|k: int|
            0 <= k < out@.len() ==> {
                let r = incoming@.filter(is_pending(friends@, blocked@))[k];
                &&& (#[trigger] out@[k]).invite_account_index == r.invite_account_index
                &&& out@[k].pubkey == r.pubkey
                &&& out@[k].uid == r.uid
                &&& out@[k].display_name == r.display_name
                &&& out@[k].status_message == r.status_message
                &&& out@[k].relays == r.relays
                &&& out@[k].avatar_base64 == r.avatar_base64
            },
{
    let ghost s = incoming@;
    let ghost p = is_pending(friends@, blocked@);
    let ghost f = |r: IncomingRequest| as_pending(r);
    let mut out: Vec<PendingFriendRequest> = Vec::new();
    let mut rest = incoming;
    while rest.len() > 0
        invariant
            rest@.len() <= s.len(),
            rest@ == s.skip(s.len() - rest@.len()),
            out@ == s.take(s.len() - rest@.len()).filter(p).map_values(f),
            p == is_pending(friends@, blocked@),
            f == (|r: IncomingRequest| as_pending(r)),
        decreases rest@.len(),
    {
        let ghost k = s.len() - rest@.len();
        let r = rest.remove(0);
        proof {
            assert(r == s[k]);
            assert(s.take(k + 1) == s.take(k).push(s[k]));
            s.take(k).lemma_filter_push(s[k], p);
            assert(rest@ == s.skip(k + 1));
        }
        let known = match crate::friends::find_friend(friends, &r.pubkey) {
            Some(_) => true,
            None => false,
        };
        proof {
            if known {
                let i = choose|i: int| crate::seqs::first_where(friends@, crate::friends::is_pubkey(r.pubkey@), i);
                assert(friends@[i].pubkey@ == r.pubkey@);
            }
        }
        let is_blocked = contains_str(blocked, &r.pubkey);
        if !known && !is_blocked {
            let ghost r0 = r;
            let item = PendingFriendRequest {
                invite_account_index: r.invite_account_index,
                pubkey: r.pubkey,
                uid: r.uid,
                display_name: r.display_name,
                status_message: r.status_message,
                relays: r.relays,
                avatar_base64: r.avatar_base64,
            };
            proof {
                let prev = s.take(k).filter(p);
                assert(prev.push(r0).map_values(f) =~= prev.map_values(f).push(f(r0)));
            }
            out.push(item);
        }
    }
    proof {
        assert(s.take(s.len() as int) == s);
    }
    out
}

/// What rejecting a friend request leaves behind.
pub struct Rejection {
    pub incoming: Vec<IncomingRequest>,
    pub blocked: Vec<String>,
    pub blocked_uids: Vec<String>,
}

/// Whether request `r` came from `pubkey`.
pub open spec fn from_requester(pubkey: Seq<char>) -> spec_fn(IncomingRequest) -> bool {
    |r: IncomingRequest| r.pubkey@ == pubkey
}

/// The UID a rejected request carried (its first request's), empty if none.
pub open spec fn rejected_uid(incoming: Seq<IncomingRequest>, pubkey: Seq<char>) -> Seq<char> {
    match first_index(incoming, from_requester(pubkey)) {
        Some(i) => incoming[i].uid@,
        None => Seq::empty(),
    }
}

/// Rejects `requester_pubkey`'s friend request: every request from them is
/// dropped, their pubkey is blocked, and so is the UID their request
/// carried (when it carried one), so re-requesting under a fresh key is
/// ignored too.
pub fn reject_friend_request(
    incoming: Vec<IncomingRequest>,
    blocked: Vec<String>,
    blocked_uids: Vec<String>,
    requester_pubkey: String,
) -> (out: Rejection)
    ensures
        out.incoming@ == incoming@.filter(other_requester(requester_pubkey@)),
        out.blocked@ == with_str(blocked@, requester_pubkey),
        rejected_uid(incoming@, requester_pubkey@).len() == 0 ==> out.blocked_uids@ == blocked_uids@,
        rejected_uid(incoming@, requester_pubkey@).len() > 0 ==> (exists|u: String|
            u@ == rejected_uid(incoming@, requester_pubkey@) && out.blocked_uids@ == #[trigger] with_str(
                blocked_uids@,
                u,
            )),
{
    let i = find_index(
        &incoming,
        (|r: &IncomingRequest| -> (b: bool)
            ensures
                b == (r.pubkey@ == requester_pubkey@),
            { r.pubkey == requester_pubkey }),
        Ghost(from_requester(requester_pubkey@)),
    );
    let uid = match i {
        Some(i) => incoming[i].uid.clone(),
        None => String::new(),
    };
    let incoming = remove_incoming(incoming, &requester_pubkey);
    let blocked = push_unique(blocked, requester_pubkey);
    let blocked_uids = if uid.as_str().is_empty() {
        blocked_uids
    } else {
        push_unique(blocked_uids, uid)
    };
    Rejection { incoming, blocked, blocked_uids }
}

/// Once a request is rejected, nothing from that requester is pending
/// again: their pubkey is blocked, so even a resent request is filtered out
/// of the pending list.
pub proof fn lemma_rejected_stays_rejected(
    friends: Seq<Friend>,
    blocked: Seq<String>,
    requester: String,
    incoming: Seq<IncomingRequest>,
)
    ensures
        forall|i: int|
            0 <= i < incoming.filter(is_pending(friends, with_str(blocked, requester))).len()
                ==> (#[trigger] incoming.filter(is_pending(friends, with_str(blocked, requester)))[i]).pubkey@
                != requester@,
{
    let now_blocked = with_str(blocked, requester);
    let p = is_pending(friends, now_blocked);
    let k = if exists|j: int| 0 <= j < blocked.len() && #[trigger] blocked[j]@ == requester@ {
        choose|j: int| 0 <= j < blocked.len() && #[trigger] blocked[j]@ == requester@
    } else {
        blocked.len() as int
    };
    assert(0 <= k < now_blocked.len() && now_blocked[k]@ == requester@);
    assert forall|i: int| 0 <= i < incoming.filter(p).len() implies (#[trigger] incoming.filter(p)[i]).pubkey@
        != requester@ by {
        incoming.lemma_filter_pred(p, i);
    }
}

/// What a watched pubkey stands for in the friend-events subscription.
pub enum Watch {
    /// One of our invites, at this account index.
    Invite(u32),
    /// An outstanding request we sent, from this account index.
    Outgoing(u32),
    /// An existing friend (their pubkey), reached from this account index.
    Friend(u32, String),
}

/// The account index a watch entry is reached from.
pub open spec fn watch_index(w: Watch) -> u32 {
    match w {
        Watch::Invite(i) => i,
        Watch::Outgoing(i) => i,
        Watch::Friend(i, _) => i,
    }
}

/// The kinds of event the friend-events subscription receives.
#[derive(Clone, Copy, PartialEq, Eq, Structural)]
pub enum FriendEventKind {
    Request,
    Accept,
    ProfileUpdate,
    GiftWrap,
    Other,
}

/// What to do with an incoming friend-protocol event.
#[derive(PartialEq, Eq, Structural)]
pub enum FriendAction {
    /// Drop it.
    Ignore,
    /// A friend request on our invite at this index: record it.
    StoreRequest(u32),
    /// An acceptance of our request sent from this index: add the friend.
    AcceptFriend(u32),
    /// A profile update from a friend (reached from this index).
    UpdateProfile(u32),
    /// A chat message from a friend (reached from this index): store it and
    /// tell the UI.
    ReceiveMessage(u32),
    /// A chat message from a blocked friend: store it, hold it back, and
    /// tell the UI nothing.
    HoldMessage(u32),
}

/// The action for an event of `kind` matched to watch entry `w`:
/// profile-style events from a blocked friend are dropped, and their chat
/// messages are stored but held, with nothing shown; gift wraps only count
/// from friends;
/// a request on an invite is dropped when its sender's UID is blocked.
pub open spec fn spec_friend_action(
    w: Watch,
    kind: FriendEventKind,
    friend_blocked: bool,
    sender_uid_blocked: bool,
) -> FriendAction {
    match w {
        Watch::Friend(i, _) => if kind == FriendEventKind::GiftWrap {
            if friend_blocked {
                FriendAction::HoldMessage(i)
            } else {
                FriendAction::ReceiveMessage(i)
            }
        } else if friend_blocked {
            FriendAction::Ignore
        } else if kind == FriendEventKind::ProfileUpdate {
            FriendAction::UpdateProfile(i)
        } else {
            FriendAction::Ignore
        },
        Watch::Invite(i) => if kind == FriendEventKind::Request && !sender_uid_blocked {
            FriendAction::StoreRequest(i)
        } else {
            FriendAction::Ignore
        },
        Watch::Outgoing(i) => if kind == FriendEventKind::Accept {
            FriendAction::AcceptFriend(i)
        } else {
            FriendAction::Ignore
        },
    }
}

/// Decides what to do with an incoming friend-protocol event (see
/// [spec_friend_action]). `friend_blocked` says whether a friend entry's
/// pubkey is blocked; `sender_uid_blocked` whether a request's sender
/// carries a (non-empty) UID we blocked.
pub fn decide_friend_event(
    w: &Watch,
    kind: FriendEventKind,
    friend_blocked: bool,
    sender_uid_blocked: bool,
) -> (a: FriendAction)
    ensures
        a == spec_friend_action(*w, kind, friend_blocked, sender_uid_blocked),
{
    match w {
        Watch::Friend(i, _) => {
            if kind == FriendEventKind::GiftWrap {
                if friend_blocked {
                    FriendAction::HoldMessage(*i)
                } else {
                    FriendAction::ReceiveMessage(*i)
                }
            } else if friend_blocked {
                FriendAction::Ignore
            } else if kind == FriendEventKind::ProfileUpdate {
                FriendAction::UpdateProfile(*i)
            } else {
                FriendAction::Ignore
            }
        },
        Watch::Invite(i) => {
            if kind == FriendEventKind::Request && !sender_uid_blocked {
                FriendAction::StoreRequest(*i)
            } else {
                FriendAction::Ignore
            }
        },
        Watch::Outgoing(i) => {
            if kind == FriendEventKind::Accept {
                FriendAction::AcceptFriend(*i)
            } else {
                FriendAction::Ignore
            }
        },
    }
}

/// Whether watch entry `e` is for one of the event's tagged pubkeys.
pub open spec fn watched_by(tagged: Seq<String>) -> spec_fn((String, Watch)) -> bool {
    |e: (String, Watch)| exists|j: int| 0 <= j < tagged.len() && #[trigger] tagged[j]@ == e.0@
}

/// The first watch entry whose pubkey the event tags, if any.
pub fn match_watch(watch: &Vec<(String, Watch)>, tagged: &Vec<String>) -> (r: Option<usize>)
    ensures
        match r {
            Some(i) => first_index(watch@, watched_by(tagged@)) == Some(i as int),
            None => first_index(watch@, watched_by(tagged@)) is None,
        },
{
    find_index(
        watch,
        (|e: &(String, Watch)| -> (b: bool)
            ensures
                b == exists|j: int| 0 <= j < tagged@.len() && #[trigger] tagged@[j]@ == e.0@,
            { contains_str(tagged, &e.0) }),
        Ghost(watched_by(tagged@)),
    )
}

/// Whether a decrypted seal is accepted on a friend's channel: it must be a
/// seal, signed by the friend this channel watches for or by ourselves (the
/// self-addressed copy of our own sent message), and its inner rumor must
/// claim the same author as the seal's signer.
pub fn accept_chat_seal(
    is_seal: bool,
    seal_pubkey: &String,
    rumor_pubkey: &String,
    expected_sender: &String,
    my_pubkey: &String,
) -> (b: bool)
    ensures
        b == (is_seal && (seal_pubkey@ == expected_sender@ || seal_pubkey@ == my_pubkey@)
            && rumor_pubkey@ == seal_pubkey@),
{
    is_seal && (*seal_pubkey == *expected_sender || *seal_pubkey == *my_pubkey) && *rumor_pubkey
        == *seal_pubkey
}


/// Whether a decrypted seal is accepted on a channel that only carries the
/// other side's messages (the forward-secret 1:1 channel and a group's
/// fallback channel): it must be a seal signed by the expected sender, and
/// its inner rumor must claim the same author. Unlike [accept_chat_seal],
/// a self-authored copy is refused.
pub fn accept_direct_seal(
    is_seal: bool,
    seal_pubkey: &String,
    rumor_pubkey: &String,
    expected_sender: &String,
) -> (b: bool)
    ensures
        b == (is_seal && seal_pubkey@ == expected_sender@ && rumor_pubkey@ == seal_pubkey@),
{
    is_seal && *seal_pubkey == *expected_sender && *rumor_pubkey == *seal_pubkey
}

/// What the friend-events subscription watches, in order: each active
/// invite, each outstanding outgoing request, each friend.
pub open spec fn watch_targets(
    invite_indices: Seq<u32>,
    outgoing: Seq<OutgoingRequest>,
    friends: Seq<Friend>,
) -> Seq<Watch> {
    invite_indices.map_values(|i: u32| Watch::Invite(i)) + outgoing.map_values(
        |r: OutgoingRequest| Watch::Outgoing(r.my_account_index),
    ) + friends.map_values(|f: Friend| Watch::Friend(f.my_account_index, f.pubkey))
}

/// The watch list for `targets`: each target whose account index derives a
/// contact key from `mnemonic`, paired with that key's pubkey, in order.
pub open spec fn spec_watch_list(mnemonic: Seq<char>, targets: Seq<Watch>) -> Seq<(Seq<char>, Watch)>
    decreases targets.len(),
{
    if targets.len() == 0 {
        seq![]
    } else {
        let prefix = spec_watch_list(mnemonic, targets.drop_last());
        match spec_contact_pubkey(spec_trim(mnemonic), watch_index(targets.last())) {
            Some(pk) => prefix.push((pk, targets.last())),
            None => prefix,
        }
    }
}

/// A watch entry's pubkey as text, beside what it stands for.
pub open spec fn watch_entry_view(e: (String, Watch)) -> (Seq<char>, Watch) {
    (e.0@, e.1)
}

/// The targets of the friend-events subscription (see [watch_targets]).
fn collect_watch_targets(
    invite_indices: &Vec<u32>,
    outgoing: &Vec<OutgoingRequest>,
    friends: &Vec<Friend>,
) -> (t: Vec<Watch>)
    ensures
        t@ == watch_targets(invite_indices@, outgoing@, friends@),
{
    let mut t: Vec<Watch> = Vec::new();
    let mut i: usize = 0;
    while i < invite_indices.len()
        invariant
            i <= invite_indices@.len(),
            t@ == invite_indices@.take(i as int).map_values(|i: u32| Watch::Invite(i)),
        decreases invite_indices@.len() - i,
    {
        t.push(Watch::Invite(invite_indices[i]));
        proof {
            assert(invite_indices@.take(i + 1) == invite_indices@.take(i as int).push(
                invite_indices@[i as int],
            ));
        }
        i = i + 1;
    }
    let ghost first = t@;
    assert(invite_indices@.take(i as int) == invite_indices@);
    let mut j: usize = 0;
    while j < outgoing.len()
        invariant
            j <= outgoing@.len(),
            t@ == first + outgoing@.take(j as int).map_values(
                |r: OutgoingRequest| Watch::Outgoing(r.my_account_index),
            ),
        decreases outgoing@.len() - j,
    {
        t.push(Watch::Outgoing(outgoing[j].my_account_index));
        proof {
            assert(outgoing@.take(j + 1) == outgoing@.take(j as int).push(outgoing@[j as int]));
        }
        j = j + 1;
    }
    let ghost second = t@;
    assert(outgoing@.take(j as int) == outgoing@);
    let mut k: usize = 0;
    while k < friends.len()
        invariant
            k <= friends@.len(),
            t@ == second + friends@.take(k as int).map_values(
                |f: Friend| Watch::Friend(f.my_account_index, f.pubkey),
            ),
        decreases friends@.len() - k,
    {
        t.push(Watch::Friend(friends[k].my_account_index, friends[k].pubkey.clone()));
        proof {
            assert(friends@.take(k + 1) == friends@.take(k as int).push(friends@[k as int]));
        }
        k = k + 1;
    }
    assert(friends@.take(k as int) == friends@);
    t
}

/// Builds the friend-events watch list: for each active invite (by account
/// index), each outstanding outgoing request and each friend, the pubkey of
/// our contact key at that entry's account index, paired with what the
/// entry stands for. Entries whose key cannot be derived are left out.
pub fn build_watch_list(
    mnemonic: &str,
    invite_indices: &Vec<u32>,
    outgoing: &Vec<OutgoingRequest>,
    friends: &Vec<Friend>,
) -> (w: Vec<(String, Watch)>)
    ensures
        w@.map_values(|e: (String, Watch)| watch_entry_view(e)) == spec_watch_list(
            mnemonic@,
            watch_targets(invite_indices@, outgoing@, friends@),
        ),
{
    let targets = collect_watch_targets(invite_indices, outgoing, friends);
    let mut w: Vec<(String, Watch)> = Vec::new();
    let mut i: usize = 0;
    while i < targets.len()
        invariant
            i <= targets@.len(),
            w@.map_values(|e: (String, Watch)| watch_entry_view(e)) == spec_watch_list(
                mnemonic@,
                targets@.take(i as int),
            ),
        decreases targets@.len() - i,
    {
        let (index, target) = match &targets[i] {
            Watch::Invite(a) => (*a, Watch::Invite(*a)),
            Watch::Outgoing(a) => (*a, Watch::Outgoing(*a)),
            Watch::Friend(a, pk) => (*a, Watch::Friend(*a, pk.clone())),
        };
        let ghost before = w@;
        proof {
            assert(targets@.take(i + 1).drop_last() == targets@.take(i as int));
            assert(targets@.take(i + 1).last() == target);
            assert(watch_index(target) == index);
        }
        match derive_contact_pubkey(mnemonic, index) {
            Ok(pk) => {
                w.push((pk, target));
                proof {
                    assert(w@.map_values(|e: (String, Watch)| watch_entry_view(e)) == before.map_values(
                        |e: (String, Watch)| watch_entry_view(e),
                    ).push(watch_entry_view(w@.last())));
                }
            },
            Err(_) => {},
        }
        i = i + 1;
    }
    proof {
        assert(targets@.take(targets@.len() as int) == targets@);
    }
    w
}

/// `list` with each of `items` added in turn, skipping any already there.
pub open spec fn add_all(list: Seq<String>, items: Seq<String>) -> Seq<String>
    decreases items.len(),
{
    if items.len() == 0 {
        list
    } else {
        with_str(add_all(list, items.drop_last()), items.last())
    }
}

/// All the relays of `outgoing`'s requests, in order.
pub open spec fn invite_relays_of(outgoing: Seq<OutgoingRequest>) -> Seq<String>
    decreases outgoing.len(),
{
    if outgoing.len() == 0 {
        seq![]
    } else {
        invite_relays_of(outgoing.drop_last()) + outgoing.last().invite_relays@
    }
}

/// Adds each of `items` to `list` in turn, skipping any already there.
fn add_all_vec(list: Vec<String>, items: &Vec<String>) -> (out: Vec<String>)
    ensures
        out@ == add_all(list@, items@),
{
    let mut out = list;
    let ghost start = out@;
    let mut i: usize = 0;
    while i < items.len()
        invariant
            i <= items@.len(),
            out@ == add_all(start, items@.take(i as int)),
        decreases items@.len() - i,
    {
        proof {
            assert(items@.take(i + 1).drop_last() == items@.take(i as int));
        }
        out = push_unique(out, items[i].clone());
        i = i + 1;
    }
    assert(items@.take(i as int) == items@);
    out
}

/// The relays the friend-events subscription listens on: our own relays,
/// then those of every outstanding outgoing request, each once (the first
/// time it occurs).
pub fn subscription_relays(my_relays: &Vec<String>, outgoing: &Vec<OutgoingRequest>) -> (out: Vec<
    String,
>)
    ensures
        out@ == add_all(seq![], my_relays@ + invite_relays_of(outgoing@)),
        forall|a: int, b: int| 0 <= a < b < out@.len() ==> out@[a]@ != out@[b]@,
        forall|s: Seq<char>|
            #[trigger] has_str(out@, s) <==> (has_str(my_relays@, s) || has_str(
                invite_relays_of(outgoing@),
                s,
            )),
{
    let mut all: Vec<String> = crate::text::clone_strs(my_relays);
    let mut j: usize = 0;
    while j < outgoing.len()
        invariant
            j <= outgoing@.len(),
            all@ == my_relays@ + invite_relays_of(outgoing@.take(j as int)),
        decreases outgoing@.len() - j,
    {
        proof {
            assert(outgoing@.take(j + 1).drop_last() == outgoing@.take(j as int));
        }
        let relays = &outgoing[j].invite_relays;
        let ghost before = all@;
        let mut k: usize = 0;
        while k < relays.len()
            invariant
                k <= relays@.len(),
                all@ == before + relays@.take(k as int),
            decreases relays@.len() - k,
        {
            all.push(relays[k].clone());
            proof {
                assert(relays@.take(k + 1) == relays@.take(k as int).push(relays@[k as int]));
            }
            k = k + 1;
        }
        proof {
            assert(relays@.take(k as int) == relays@);
        }
        j = j + 1;
    }
    assert(outgoing@.take(j as int) == outgoing@);
    let out = add_all_vec(Vec::new(), &all);
    proof {
        lemma_add_all(seq![], all@);
        assert forall|s: Seq<char>|
            #[trigger] has_str(all@, s) <==> (has_str(my_relays@, s) || has_str(
                invite_relays_of(outgoing@),
                s,
            )) by {
            let mine = my_relays@;
            let theirs = invite_relays_of(outgoing@);
            if has_str(all@, s) {
                let a = choose|a: int| 0 <= a < all@.len() && #[trigger] all@[a]@ == s;
                if a < mine.len() {
                    assert(mine[a]@ == s);
                } else {
                    assert(theirs[a - mine.len()]@ == s);
                }
            }
            if has_str(mine, s) {
                let a = choose|a: int| 0 <= a < mine.len() && #[trigger] mine[a]@ == s;
                assert(all@[a]@ == s);
            }
            if has_str(theirs, s) {
                let b = choose|b: int| 0 <= b < theirs.len() && #[trigger] theirs[b]@ == s;
                assert(all@[mine.len() + b]@ == s);
            }
        }
    }
    out
}

/// Whether `list` holds a string with the text `s`.
pub open spec fn has_str(list: Seq<String>, s: Seq<char>) -> bool {
    exists|a: int| 0 <= a < list.len() && #[trigger] list[a]@ == s
}

/// Adding strings one by one, skipping those already present, keeps the
/// list free of repeats and ends with exactly the strings of `list` and
/// `items`.
pub proof fn lemma_add_all(list: Seq<String>, items: Seq<String>)
    requires
        forall|a: int, b: int| 0 <= a < b < list.len() ==> list[a]@ != list[b]@,
    ensures
        forall|a: int, b: int|
            0 <= a < b < add_all(list, items).len() ==> add_all(list, items)[a]@ != add_all(
                list,
                items,
            )[b]@,
        forall|s: Seq<char>|
            #[trigger] has_str(add_all(list, items), s) <==> (has_str(list, s) || has_str(items, s)),
    decreases items.len(),
{
    if items.len() > 0 {
        let prev = add_all(list, items.drop_last());
        lemma_add_all(list, items.drop_last());
        let out = add_all(list, items);
        let last = items.last();
        assert forall|s: Seq<char>|
            #[trigger] has_str(out, s) <==> (has_str(list, s) || has_str(items, s)) by {
            assert(has_str(prev, s) <==> (has_str(list, s) || has_str(items.drop_last(), s)));
            if has_str(out, s) {
                let a = choose|a: int| 0 <= a < out.len() && #[trigger] out[a]@ == s;
                if a < prev.len() {
                    assert(prev[a]@ == s);
                    if !has_str(list, s) {
                        let b = choose|b: int|
                            0 <= b < items.drop_last().len() && #[trigger] items.drop_last()[b]@ == s;
                        assert(items[b]@ == s);
                    }
                } else {
                    assert(items[items.len() - 1]@ == s);
                }
            }
            if has_str(items, s) {
                let b = choose|b: int| 0 <= b < items.len() && #[trigger] items[b]@ == s;
                if b < items.len() - 1 {
                    assert(items.drop_last()[b]@ == s);
                    let a = choose|a: int| 0 <= a < prev.len() && #[trigger] prev[a]@ == s;
                    assert(out[a]@ == s);
                } else if has_str(prev, s) {
                    let a = choose|a: int| 0 <= a < prev.len() && #[trigger] prev[a]@ == s;
                    assert(out[a]@ == s);
                } else {
                    assert(out[out.len() - 1]@ == s);
                }
            }
            if has_str(list, s) {
                let a = choose|a: int| 0 <= a < prev.len() && #[trigger] prev[a]@ == s;
                assert(out[a]@ == s);
            }
        }
        assert forall|a: int, b: int| 0 <= a < b < out.len() implies out[a]@ != out[b]@ by {
            if b >= prev.len() {
                assert(!has_str(prev, last@));
                assert(out[a] == prev[a]);
                if out[a]@ == out[b]@ {
                    assert(prev[a]@ == last@);
                }
            }
        }
    }
}

} // verus!
