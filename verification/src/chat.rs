//! One-to-one chat bookkeeping: which threads are open, what has been read
//! or cleared, which messages are held back from a blocked friend, and how
//! a thread's history is assembled for display.

use vstd::prelude::*;
use crate::friends::{push_unique, with_str, contains_str, find_friend, find_first, lemma_find_first_of, Friend};
use crate::keyed::KeyedList;
use crate::seqs::{retain_vec, count_vec, count_where, sort_vec_by_time, sort_by_time, lemma_sort_by_time, Timed};

verus! {

/// A single decrypted message, ready to show in the UI.
pub struct ChatMessage {
    pub id: String,
    pub sender_pubkey: String,
    pub content: String,
    pub created_at: i64,
    pub is_mine: bool,
}

impl Timed for ChatMessage {
    open spec fn time_of(&self) -> i64 {
        self.created_at
    }

    fn time(&self) -> (t: i64) {
        self.created_at
    }
}

/// How many unread messages a friend's thread has.
pub struct UnreadCount {
    pub friend_pubkey: String,
    pub count: u32,
}

/// Message length cap (characters) — a generous limit for a chat bubble,
/// mainly there to stop a single event from ballooning.
pub const MAX_MESSAGE_CHARS: usize = 4000;

/// The message length cap, for the composer to enforce the same limit.
pub fn max_message_chars() -> (n: u32)
    ensures
        n == MAX_MESSAGE_CHARS,
{
    4000
}

/// Refuses a message longer than [MAX_MESSAGE_CHARS] characters.
pub fn check_message_length(message: &str) -> (r: Result<(), String>)
    ensures
        r is Ok <==> message@.len() <= MAX_MESSAGE_CHARS,
        r is Err ==> r->Err_0@ == "message too long"@,
{
    if message.unicode_len() > MAX_MESSAGE_CHARS {
        Err(String::from_str("message too long"))
    } else {
        Ok(())
    }
}

/// Whether a message may be sent to `friend_pubkey`, and to which friend
/// entry: it must fit [MAX_MESSAGE_CHARS], the pubkey must be a friend's,
/// and that friend must not be blocked.
pub open spec fn spec_chat_send(
    friends: Seq<Friend>,
    blocked: Seq<String>,
    friend_pubkey: Seq<char>,
    message: Seq<char>,
) -> Result<int, Seq<char>> {
    if message.len() > MAX_MESSAGE_CHARS {
        Err("message too long"@)
    } else {
        match find_first(friends, friend_pubkey) {
            None => Err("not a friend"@),
            Some(i) => if exists|j: int| 0 <= j < blocked.len() && #[trigger] blocked[j]@ == friend_pubkey {
                Err("friend is blocked"@)
            } else {
                Ok(i)
            },
        }
    }
}

/// Checks a message about to be sent to `friend_pubkey` (see
/// [spec_chat_send]), giving the friend's index in `friends`.
pub fn check_chat_send(
    friends: &Vec<Friend>,
    blocked: &Vec<String>,
    friend_pubkey: &String,
    message: &str,
) -> (r: Result<usize, String>)
    ensures
        match (r, spec_chat_send(friends@, blocked@, friend_pubkey@, message@)) {
            (Ok(i), Ok(j)) => i == j,
            (Err(e), Err(f)) => e@ == f,
            _ => false,
        },
{
    proof {
        reveal_strlit("message too long");
        reveal_strlit("not a friend");
        reveal_strlit("friend is blocked");
    }
    check_message_length(message)?;
    let found = find_friend(friends, friend_pubkey);
    proof {
        lemma_find_first_of(friends@, friend_pubkey@, found);
    }
    match found {
        None => Err(String::from_str("not a friend")),
        Some(i) => {
            if contains_str(blocked, friend_pubkey) {
                Err(String::from_str("friend is blocked"))
            } else {
                Ok(i)
            }
        },
    }
}

/// The message a decrypted seal carries: `None` when its rumor claims
/// another author than the seal's signer (a forgery); otherwise the seal's
/// id and signer, the rumor's text and time, and whether we sent it.
pub fn message_from_seal(
    seal_id: String,
    seal_pubkey: String,
    rumor_pubkey: &String,
    content: String,
    created_at: i64,
    my_pubkey: &String,
) -> (r: Option<ChatMessage>)
    ensures
        r is Some <==> rumor_pubkey@ == seal_pubkey@,
        r matches Some(m) ==> m.id == seal_id && m.sender_pubkey == seal_pubkey && m.content == content
            && m.created_at == created_at && m.is_mine == (seal_pubkey@ == my_pubkey@),
{
    if !(*rumor_pubkey == seal_pubkey) {
        return None;
    }
    let is_mine = seal_pubkey == *my_pubkey;
    Some(ChatMessage { id: seal_id, sender_pubkey: seal_pubkey, content, created_at, is_mine })
}

/// Marks `friend_pubkey`'s thread as started (once).
pub fn mark_chat_started(started: Vec<String>, friend_pubkey: String) -> (out: Vec<String>)
    ensures
        out@ == with_str(started@, friend_pubkey),
{
    push_unique(started, friend_pubkey)
}

/// Marks a just-received message from a blocked sender as held (once).
pub fn hold_message(held: Vec<String>, message_id: String) -> (out: Vec<String>)
    ensures
        out@ == with_str(held@, message_id),
{
    push_unique(held, message_id)
}

/// Records that every message in `friend_pubkey`'s thread up to `now` has
/// been seen.
pub fn mark_thread_read(read_state: &mut KeyedList<i64>, friend_pubkey: String, now: i64)
    ensures
        final(read_state)@ == old(read_state)@.insert(friend_pubkey@, now),
{
    read_state.insert(friend_pubkey, now);
}

/// Whether `s` is some other string than `target`.
pub open spec fn other_str(target: Seq<char>) -> spec_fn(String) -> bool {
    |s: String| s@ != target
}

/// Resets `friend_pubkey`'s thread: it is no longer started, its read mark
/// is forgotten, and everything up to `now` is hidden from its history
/// from here on (so messages refetched from relays later stay cleared).
pub fn clear_chat_history(
    started: Vec<String>,
    read_state: &mut KeyedList<i64>,
    cleared: &mut KeyedList<i64>,
    friend_pubkey: String,
    now: i64,
) -> (out: Vec<String>)
    ensures
        out@ == started@.filter(other_str(friend_pubkey@)),
        final(read_state)@ == old(read_state)@.remove(friend_pubkey@),
        final(cleared)@ == old(cleared)@.insert(friend_pubkey@, now),
{
    let out = retain_vec(
        started,
        (|s: &String| -> (b: bool)
            ensures
                b == (s@ != friend_pubkey@),
            { !(*s == friend_pubkey) }),
        Ghost(other_str(friend_pubkey@)),
    );
    let _ = read_state.remove(&friend_pubkey);
    cleared.insert(friend_pubkey, now);
    out
}

/// Whether message `m` is not among the held ids.
pub open spec fn not_held(held: Seq<String>) -> spec_fn(ChatMessage) -> bool {
    |m: ChatMessage| !(exists|j: int| 0 <= j < held.len() && #[trigger] held[j]@ == m.id@)
}

/// Whether message `m` is newer than the clear cutoff.
pub open spec fn after_cutoff(cutoff: i64) -> spec_fn(ChatMessage) -> bool {
    |m: ChatMessage| m.created_at > cutoff
}

/// The messages of a thread as shown: held messages are hidden while the
/// friend is blocked, anything at or before the thread's clear cutoff is
/// hidden, and the rest is ordered oldest first.
pub open spec fn visible_history(
    messages: Seq<ChatMessage>,
    is_blocked: bool,
    held: Seq<String>,
    cutoff: Option<i64>,
) -> Seq<ChatMessage> {
    let unheld = if is_blocked { messages.filter(not_held(held)) } else { messages };
    let uncleared = match cutoff {
        Some(c) => unheld.filter(after_cutoff(c)),
        None => unheld,
    };
    sort_by_time(uncleared)
}

/// A cleared thread stays cleared and a blocked friend's held messages
/// stay hidden: nothing at or before the clear cutoff is ever shown, and
/// while the friend is blocked no held message is shown — whatever
/// messages are refetched later.
pub proof fn lemma_hidden_stays_hidden(
    messages: Seq<ChatMessage>,
    is_blocked: bool,
    held: Seq<String>,
    cutoff: Option<i64>,
)
    ensures
        forall|i: int|
            0 <= i < visible_history(messages, is_blocked, held, cutoff).len() ==> {
                let m = #[trigger] visible_history(messages, is_blocked, held, cutoff)[i];
                &&& (cutoff matches Some(c) ==> m.created_at > c)
                &&& (is_blocked ==> not_held(held)(m))
            },
{
    let unheld = if is_blocked { messages.filter(not_held(held)) } else { messages };
    let uncleared = match cutoff {
        Some(c) => unheld.filter(after_cutoff(c)),
        None => unheld,
    };
    let shown = sort_by_time(uncleared);
    lemma_sort_by_time(uncleared);
    assert forall|i: int| 0 <= i < shown.len() implies {
        let m = #[trigger] shown[i];
        &&& (cutoff matches Some(c) ==> m.created_at > c)
        &&& (is_blocked ==> not_held(held)(m))
    } by {
        let m = shown[i];
        shown.to_multiset_ensures();
        uncleared.to_multiset_ensures();
        assert(shown.contains(m));
        assert(shown.to_multiset().count(m) > 0);
        assert(uncleared.to_multiset().count(m) > 0);
        assert(uncleared.contains(m));
        let k = choose|k: int| 0 <= k < uncleared.len() && uncleared[k] == m;
        match cutoff {
            Some(c) => {
                unheld.lemma_filter_pred(after_cutoff(c), k);
                assert(unheld.filter(after_cutoff(c)).contains(m));
                unheld.lemma_filter_contains_rev(after_cutoff(c), m);
                assert(unheld.contains(m));
            },
            None => {},
        }
        assert(unheld.contains(m));
        if is_blocked {
            messages.lemma_filter_contains_rev(not_held(held), m);
        }
    }
}

/// Turns a thread's decrypted messages into its displayed history (see
/// [visible_history]); `cleared` maps friend pubkeys to their clear cutoff.
pub fn load_chat_history(
    messages: Vec<ChatMessage>,
    is_blocked: bool,
    held: &Vec<String>,
    cleared: &KeyedList<i64>,
    friend_pubkey: &String,
) -> (out: Vec<ChatMessage>)
    ensures
        out@ == visible_history(
            messages@,
            is_blocked,
            held@,
            if cleared@.dom().contains(friend_pubkey@) {
                Some(cleared@[friend_pubkey@])
            } else {
                None
            },
        ),
{
    let unheld = if is_blocked {
        retain_vec(
            messages,
            (|m: &ChatMessage| -> (b: bool)
                ensures
                    b == !(exists|j: int| 0 <= j < held@.len() && #[trigger] held@[j]@ == m.id@),
                { !contains_str(held, &m.id) }),
            Ghost(not_held(held@)),
        )
    } else {
        messages
    };
    let uncleared = match cleared.get(friend_pubkey) {
        Some(c) => {
            let cutoff = *c;
            retain_vec(
                unheld,
                (|m: &ChatMessage| -> (b: bool)
                    ensures
                        b == (m.created_at > cutoff),
                    { m.created_at > cutoff }),
                Ghost(after_cutoff(cutoff)),
            )
        },
        None => unheld,
    };
    sort_vec_by_time(uncleared)
}

/// Whether message `m` is from the friend and newer than `last_read`.
pub open spec fn unread_after(last_read: i64) -> spec_fn(ChatMessage) -> bool {
    |m: ChatMessage| !m.is_mine && m.created_at > last_read
}

/// The friend's messages received after `last_read`.
pub fn count_unread(messages: &Vec<ChatMessage>, last_read: i64) -> (n: usize)
    ensures
        n == count_where(messages@, unread_after(last_read)),
{
    count_vec(
        messages,
        (|m: &ChatMessage| -> (b: bool)
            ensures
                b == (!m.is_mine && m.created_at > last_read),
            { !m.is_mine && m.created_at > last_read }),
        Ghost(unread_after(last_read)),
    )
}

/// When `pubkey`'s thread was last read (0 if never).
pub open spec fn last_read_of(read_state: Map<Seq<char>, i64>, pubkey: Seq<char>) -> i64 {
    if read_state.dom().contains(pubkey) {
        read_state[pubkey]
    } else {
        0
    }
}

/// The unread count shown for a thread whose history is `history` (none
/// when it could not be loaded).
pub open spec fn unread_count_of(history: Option<Vec<ChatMessage>>, last_read: i64) -> u32 {
    match history {
        Some(h) => count_where(h@, unread_after(last_read)) as u32,
        None => 0,
    }
}

/// For each thread in `threads` (a friend's pubkey and their displayed
/// history, if it could be loaded), counts the friend's messages received
/// after the thread was last read (all of them if it never was).
pub fn load_unread_counts(
    read_state: &KeyedList<i64>,
    threads: &Vec<(String, Option<Vec<ChatMessage>>)>,
) -> (out: Vec<UnreadCount>)
    ensures
        out@.len() == threads@.len(),
        forall|i: int|
            0 <= i < out@.len() ==> #[trigger] out@[i].friend_pubkey == threads@[i].0
                && out@[i].count == unread_count_of(
                threads@[i].1,
                last_read_of(read_state@, threads@[i].0@),
            ),
{
    let mut out: Vec<UnreadCount> = Vec::new();
    let mut i: usize = 0;
    while i < threads.len()
        invariant
            i <= threads@.len(),
            out@.len() == i,
            forall|k: int|
                0 <= k < i ==> #[trigger] out@[k].friend_pubkey == threads@[k].0 && out@[k].count
                    == unread_count_of(threads@[k].1, last_read_of(read_state@, threads@[k].0@)),
        decreases threads@.len() - i,
    {
        let pubkey = &threads[i].0;
        let last_read = match read_state.get(pubkey) {
            Some(t) => *t,
            None => 0,
        };
        let count: u32 = match &threads[i].1 {
            Some(h) => {
                let n = count_unread(h, last_read);
                n as u32
            },
            None => 0,
        };
        out.push(UnreadCount { friend_pubkey: pubkey.clone(), count });
        i = i + 1;
    }
    out
}

/// The friends that belong in the Talk tab, in order: those whose thread
/// the user started, or with whom some message is visible (each thread is
/// a friend's pubkey and whether it has visible history).
pub open spec fn active_pubkeys(threads: Seq<(String, bool)>, started: Seq<String>) -> Seq<String>
    decreases threads.len(),
{
    if threads.len() == 0 {
        Seq::empty()
    } else {
        let rest = active_pubkeys(threads.drop_last(), started);
        let (pubkey, has_history) = threads.last();
        if has_history || exists|j: int| 0 <= j < started.len() && #[trigger] started[j]@ == pubkey@ {
            rest.push(pubkey)
        } else {
            rest
        }
    }
}

/// Pubkeys of friends who should show up in the Talk tab: either the user
/// explicitly started that thread, or a message already exists in either
/// direction (see [active_pubkeys]).
pub fn list_active_chat_pubkeys(threads: &Vec<(String, bool)>, started: &Vec<String>) -> (out: Vec<
    String,
>)
    ensures
        out@ == active_pubkeys(threads@, started@),
{
    let mut out: Vec<String> = Vec::new();
    let mut i: usize = 0;
    while i < threads.len()
        invariant
            i <= threads@.len(),
            out@ == active_pubkeys(threads@.take(i as int), started@),
        decreases threads@.len() - i,
    {
        proof {
            let t = threads@.take(i + 1);
            assert(t.drop_last() == threads@.take(i as int));
            assert(t.last() == threads@[i as int]);
        }
        let keep = threads[i].1 || contains_str(started, &threads[i].0);
        if keep {
            out.push(threads[i].0.clone());
        }
        i = i + 1;
    }
    proof {
        assert(threads@.take(i as int) == threads@);
    }
    out
}

} // verus!
