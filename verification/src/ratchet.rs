//! The forward-secret (ratchet) message log: what this device has sent or
//! received over its Olm sessions, kept as plaintext (encrypted at rest by
//! the caller), plus duplicate suppression for relay re-deliveries.

use vstd::prelude::*;
use crate::friends::contains_str;
use crate::seqs::{retain_vec, find_index, first_index, any_where, sort_vec_by_time, sort_by_time, Timed};

verus! {

broadcast use vstd::seq_lib::group_seq_properties;

/// A forward-secret message, already decrypted.
pub struct RatchetChatMessage {
    pub id: String,
    pub friend_pubkey: String,
    pub content: String,
    pub created_at: i64,
    pub is_mine: bool,
    pub hidden: bool,
    pub is_edited: bool,
    pub is_deleted: bool,
    pub reply_to: Option<String>,
}

impl Timed for RatchetChatMessage {
    open spec fn time_of(&self) -> i64 {
        self.created_at
    }

    fn time(&self) -> (t: i64) {
        self.created_at
    }
}

/// What a decrypted ratchet payload carries: a message (optionally replying
/// to an earlier one), or an edit or delete of a message already stored.
pub enum RatchetContent {
    Msg { body: String, reply_to: Option<String> },
    Edit { target: String, body: String },
    Delete { target: String },
}

/// Cap on how many processed seal ids are remembered for duplicate
/// suppression.
pub const MAX_PROCESSED_IDS: usize = 4000;

/// Whether `m` is a visible message of the thread with `friend`.
pub open spec fn shown_in_thread(friend: Seq<char>) -> spec_fn(RatchetChatMessage) -> bool {
    |m: RatchetChatMessage| m.friend_pubkey@ == friend && !m.hidden
}

/// This device's forward-secret history with `friend_pubkey`: that thread's
/// messages that are not hidden, oldest first.
pub fn load_ratchet_history(all: Vec<RatchetChatMessage>, friend_pubkey: &String) -> (out: Vec<
    RatchetChatMessage,
>)
    ensures
        out@ == sort_by_time(all@.filter(shown_in_thread(friend_pubkey@))),
{
    let kept = retain_vec(
        all,
        (|m: &RatchetChatMessage| -> (b: bool)
            ensures
                b == (m.friend_pubkey@ == friend_pubkey@ && !m.hidden),
            { m.friend_pubkey == *friend_pubkey && !m.hidden }),
        Ghost(shown_in_thread(friend_pubkey@)),
    );
    sort_vec_by_time(kept)
}

/// Whether `m` has id `id`.
pub open spec fn has_id(id: Seq<char>) -> spec_fn(RatchetChatMessage) -> bool {
    |m: RatchetChatMessage| m.id@ == id
}

/// Whether `m` is this device's own message `id`.
pub open spec fn own_with_id(id: Seq<char>) -> spec_fn(RatchetChatMessage) -> bool {
    |m: RatchetChatMessage| m.id@ == id && m.is_mine
}

/// Whether `m` is the friend's message `id`.
pub open spec fn theirs_with_id(id: Seq<char>) -> spec_fn(RatchetChatMessage) -> bool {
    |m: RatchetChatMessage| m.id@ == id && !m.is_mine
}

/// `all` with the first message satisfying `p` replaced by `f` of it.
pub open spec fn update_first(
    all: Seq<RatchetChatMessage>,
    p: spec_fn(RatchetChatMessage) -> bool,
    f: spec_fn(RatchetChatMessage) -> RatchetChatMessage,
) -> Seq<RatchetChatMessage> {
    match first_index(all, p) {
        Some(i) => all.update(i, f(all[i])),
        None => all,
    }
}

/// `m` hidden from this device's view.
pub open spec fn hidden(m: RatchetChatMessage) -> RatchetChatMessage {
    RatchetChatMessage { hidden: true, ..m }
}

/// `m` with its text replaced by `body`, marked edited.
pub open spec fn edited(body: String) -> spec_fn(RatchetChatMessage) -> RatchetChatMessage {
    |m: RatchetChatMessage| RatchetChatMessage { content: body, is_edited: true, ..m }
}

/// `out` is `all` with the first message satisfying `p` (if any) marked
/// deleted and its text cleared; everything else is unchanged.
pub open spec fn deleted_first(
    all: Seq<RatchetChatMessage>,
    out: Seq<RatchetChatMessage>,
    p: spec_fn(RatchetChatMessage) -> bool,
) -> bool {
    match first_index(all, p) {
        Some(i) => {
            &&& out.len() == all.len()
            &&& forall|k: int| 0 <= k < all.len() && k != i ==> #[trigger] out[k] == all[k]
            &&& out[i] == RatchetChatMessage { content: out[i].content, is_deleted: true, ..all[i] }
            &&& out[i].content@ == Seq::<char>::empty()
        },
        None => out == all,
    }
}

/// Hides the message `message_id` from this device's view only (nothing
/// changes if there is no such message).
pub fn hide_ratchet_message(all: Vec<RatchetChatMessage>, message_id: &String) -> (out: Vec<
    RatchetChatMessage,
>)
    ensures
        out@ == update_first(all@, has_id(message_id@), |m: RatchetChatMessage| hidden(m)),
{
    let mut all = all;
    let i = find_index(
        &all,
        (|m: &RatchetChatMessage| -> (b: bool)
            ensures
                b == (m.id@ == message_id@),
            { m.id == *message_id }),
        Ghost(has_id(message_id@)),
    );
    match i {
        Some(i) => {
            let ghost before = all@;
            let mut m = all.remove(i);
            m.hidden = true;
            all.insert(i, m);
            proof {
                assert(all@ =~= before.update(i as int, hidden(before[i as int])));
            }
            all
        },
        None => all,
    }
}

/// The first message `id` of the given side (own when `mine`) with its
/// text replaced by `new_content` and marked edited.
fn edit_first(all: Vec<RatchetChatMessage>, id: &String, mine: bool, new_content: String) -> (out: Vec<
    RatchetChatMessage,
>)
    ensures
        out@ == update_first(
            all@,
            if mine {
                own_with_id(id@)
            } else {
                theirs_with_id(id@)
            },
            edited(new_content),
        ),
{
    let i = find_side(&all, id, mine);
    let mut all = all;
    match i {
        Some(i) => {
            let ghost before = all@;
            let mut m = all.remove(i);
            m.content = new_content;
            m.is_edited = true;
            all.insert(i, m);
            proof {
                assert(all@ =~= before.update(i as int, edited(new_content)(before[i as int])));
            }
            all
        },
        None => all,
    }
}

/// The first message `id` of the given side (own when `mine`) marked
/// deleted, with its text cleared.
fn delete_first(all: Vec<RatchetChatMessage>, id: &String, mine: bool) -> (out: Vec<
    RatchetChatMessage,
>)
    ensures
        deleted_first(
            all@,
            out@,
            if mine {
                own_with_id(id@)
            } else {
                theirs_with_id(id@)
            },
        ),
{
    let i = find_side(&all, id, mine);
    let mut all = all;
    match i {
        Some(i) => {
            let ghost before = all@;
            let mut m = all.remove(i);
            m.content = String::new();
            m.is_deleted = true;
            all.insert(i, m);
            proof {
                assert forall|k: int| 0 <= k < before.len() && k != i implies #[trigger] all@[k]
                    == before[k] by {
                    if k < i {
                    } else {
                        assert(all@[k] == before.remove(i as int)[k - 1]);
                    }
                }
            }
            all
        },
        None => all,
    }
}

/// The index of the first message `id` of the given side (own when `mine`).
fn find_side(all: &Vec<RatchetChatMessage>, id: &String, mine: bool) -> (r: Option<usize>)
    ensures
        match r {
            Some(i) => first_index(
                all@,
                if mine {
                    own_with_id(id@)
                } else {
                    theirs_with_id(id@)
                },
            ) == Some(i as int),
            None => first_index(
                all@,
                if mine {
                    own_with_id(id@)
                } else {
                    theirs_with_id(id@)
                },
            ) is None,
        },
{
    let ghost p = if mine {
        own_with_id(id@)
    } else {
        theirs_with_id(id@)
    };
    let ghost q = |m: RatchetChatMessage| m.id@ == id@ && m.is_mine == mine;
    assert(q =~= p);
    find_index(
        all,
        (|m: &RatchetChatMessage| -> (b: bool)
            ensures
                b == (m.id@ == id@ && m.is_mine == mine),
            { m.id == *id && m.is_mine == mine }),
        Ghost(q),
    )
}

/// Records a message this device just sent at the end of the log (unless
/// its id is already there).
pub fn send_ratchet_message(
    all: Vec<RatchetChatMessage>,
    msg_id: String,
    friend_pubkey: String,
    content: String,
    created_at: i64,
    reply_to: Option<String>,
) -> (out: Vec<RatchetChatMessage>)
    ensures
        out@ == with_message(
            all@,
            RatchetChatMessage {
                id: msg_id,
                friend_pubkey,
                content,
                created_at,
                is_mine: true,
                hidden: false,
                is_edited: false,
                is_deleted: false,
                reply_to,
            },
        ),
{
    append_message(
        all,
        RatchetChatMessage {
            id: msg_id,
            friend_pubkey,
            content,
            created_at,
            is_mine: true,
            hidden: false,
            is_edited: false,
            is_deleted: false,
            reply_to,
        },
    )
}

/// Replaces the text of this device's own message `message_id`, marking it
/// edited (nothing changes if there is no such own message).
pub fn edit_ratchet_message(all: Vec<RatchetChatMessage>, message_id: &String, new_content: String) -> (out:
    Vec<RatchetChatMessage>)
    ensures
        out@ == update_first(all@, own_with_id(message_id@), edited(new_content)),
{
    edit_first(all, message_id, true, new_content)
}

/// Unsends this device's own message `message_id`: its text is cleared and
/// it is marked deleted (nothing changes if there is no such own message).
pub fn delete_ratchet_message(all: Vec<RatchetChatMessage>, message_id: &String) -> (out: Vec<
    RatchetChatMessage,
>)
    ensures
        deleted_first(all@, out@, own_with_id(message_id@)),
{
    delete_first(all, message_id, true)
}

/// `all` with `m` at the end, unless a message with its id is already there.
pub open spec fn with_message(all: Seq<RatchetChatMessage>, m: RatchetChatMessage) -> Seq<
    RatchetChatMessage,
> {
    if exists|j: int| 0 <= j < all.len() && has_id(m.id@)(#[trigger] all[j]) {
        all
    } else {
        all.push(m)
    }
}

/// Adds `message` to the log unless a message with its id is already there.
pub fn append_message(all: Vec<RatchetChatMessage>, message: RatchetChatMessage) -> (out: Vec<
    RatchetChatMessage,
>)
    ensures
        out@ == with_message(all@, message),
{
    let present = any_where(
        &all,
        (|m: &RatchetChatMessage| -> (b: bool)
            ensures
                b == (m.id@ == message.id@),
            { m.id == message.id }),
        Ghost(has_id(message.id@)),
    );
    let mut all = all;
    if !present {
        all.push(message);
    }
    all
}

/// `out` is the log after applying what a friend's ratchet payload (`id`,
/// sent at `created_at`) turned out to carry: a new message from them, or
/// an edit or delete of one of *their* earlier messages.
pub open spec fn received_into(
    all: Seq<RatchetChatMessage>,
    out: Seq<RatchetChatMessage>,
    content: RatchetContent,
    id: String,
    friend_pubkey: String,
    created_at: i64,
) -> bool {
    match content {
        RatchetContent::Msg { body, reply_to } => out == with_message(
            all,
            RatchetChatMessage {
                id,
                friend_pubkey,
                content: body,
                created_at,
                is_mine: false,
                hidden: false,
                is_edited: false,
                is_deleted: false,
                reply_to,
            },
        ),
        RatchetContent::Edit { target, body } => out == update_first(
            all,
            theirs_with_id(target@),
            edited(body),
        ),
        RatchetContent::Delete { target } => deleted_first(all, out, theirs_with_id(target@)),
    }
}

/// Applies a decrypted payload from `friend_pubkey` to the log (see
/// [received_into]).
pub fn apply_received(
    all: Vec<RatchetChatMessage>,
    content: RatchetContent,
    id: String,
    friend_pubkey: String,
    created_at: i64,
) -> (out: Vec<RatchetChatMessage>)
    ensures
        received_into(all@, out@, content, id, friend_pubkey, created_at),
{
    match content {
        RatchetContent::Msg { body, reply_to } => append_message(
            all,
            RatchetChatMessage {
                id,
                friend_pubkey,
                content: body,
                created_at,
                is_mine: false,
                hidden: false,
                is_edited: false,
                is_deleted: false,
                reply_to,
            },
        ),
        RatchetContent::Edit { target, body } => edit_first(all, &target, false, body),
        RatchetContent::Delete { target } => delete_first(all, &target, false),
    }
}

/// Whether seal `seal_id` was already processed.
pub fn already_processed(ids: &Vec<String>, seal_id: &String) -> (b: bool)
    ensures
        b == exists|j: int| 0 <= j < ids@.len() && #[trigger] ids@[j]@ == seal_id@,
{
    contains_str(ids, seal_id)
}

/// The remembered ids after adding one: the newest `cap` of them.
pub open spec fn remembered(ids: Seq<String>, seal_id: String, cap: nat) -> Seq<String> {
    let all = ids.push(seal_id);
    if all.len() > cap {
        all.skip(all.len() - cap)
    } else {
        all
    }
}

/// Remembers `seal_id` as processed, forgetting the oldest ids beyond `cap`.
pub fn mark_processed(ids: Vec<String>, seal_id: String, cap: usize) -> (out: Vec<String>)
    ensures
        out@ == remembered(ids@, seal_id, cap as nat),
{
    let mut ids = ids;
    ids.push(seal_id);
    if ids.len() > cap {
        let excess = ids.len() - cap;
        let ghost before = ids@;
        let tail = ids.split_off(excess);
        proof {
            assert(tail@ =~= before.skip(excess as int));
        }
        tail
    } else {
        ids
    }
}

/// The remembered ids never exceed the cap, and the newest is the one just
/// added.
pub proof fn lemma_remembered_bounded(ids: Seq<String>, seal_id: String, cap: nat)
    requires
        cap > 0,
    ensures
        remembered(ids, seal_id, cap).len() <= cap,
        remembered(ids, seal_id, cap).last() == seal_id,
{
}

/// The remembered ids after marking each of `later` in turn.
pub open spec fn remember_all(ids: Seq<String>, later: Seq<String>, cap: nat) -> Seq<String>
    decreases later.len(),
{
    if later.len() == 0 {
        ids
    } else {
        remember_all(remembered(ids, later[0], cap), later.drop_first(), cap)
    }
}

/// Whether `seal_id` is among the last `d` entries of `ids`.
pub open spec fn among_last(ids: Seq<String>, seal_id: Seq<char>, d: int) -> bool {
    exists|j: int| ids.len() - d <= j < ids.len() && 0 <= j && #[trigger] ids[j]@ == seal_id
}

proof fn lemma_among_last_step(ids: Seq<String>, seal_id: Seq<char>, d: int, next: String, cap: nat)
    requires
        among_last(ids, seal_id, d),
        0 <= d < cap,
    ensures
        among_last(remembered(ids, next, cap), seal_id, d + 1),
{
    let j = choose|j: int| ids.len() - d <= j < ids.len() && 0 <= j && #[trigger] ids[j]@ == seal_id;
    let all = ids.push(next);
    assert(all[j] == ids[j]);
    if all.len() > cap {
        let k = j - (all.len() - cap);
        assert(remembered(ids, next, cap)[k] == all[j]);
    } else {
        assert(remembered(ids, next, cap)[j] == all[j]);
    }
}

proof fn lemma_among_last_all(ids: Seq<String>, seal_id: Seq<char>, d: int, later: Seq<String>, cap: nat)
    requires
        among_last(ids, seal_id, d),
        0 <= d,
        d + later.len() <= cap,
    ensures
        among_last(remember_all(ids, later, cap), seal_id, d + later.len()),
    decreases later.len(),
{
    if later.len() > 0 {
        lemma_among_last_step(ids, seal_id, d, later[0], cap);
        lemma_among_last_all(remembered(ids, later[0], cap), seal_id, d + 1, later.drop_first(), cap);
    }
}

/// A seal marked processed is still remembered after fewer than `cap`
/// further marks, so a redelivered gift wrap carrying it is recognised (see
/// [already_processed]) and ignored.
pub proof fn lemma_processed_stays_processed(ids: Seq<String>, seal_id: String, later: Seq<String>, cap: nat)
    requires
        later.len() < cap,
    ensures
        exists|j: int|
            0 <= j < remember_all(remembered(ids, seal_id, cap), later, cap).len() && #[trigger] remember_all(
                remembered(ids, seal_id, cap),
                later,
                cap,
            )[j]@ == seal_id@,
{
    let first = remembered(ids, seal_id, cap);
    lemma_remembered_bounded(ids, seal_id, cap);
    assert(first[first.len() - 1]@ == seal_id@);
    assert(among_last(first, seal_id@, 1));
    lemma_among_last_all(first, seal_id@, 1, later, cap);
    let out = remember_all(first, later, cap);
    let j = choose|j: int| out.len() - (1 + later.len()) <= j < out.len() && 0 <= j && #[trigger] out[j]@ == seal_id@;
    assert(0 <= j < out.len() && out[j]@ == seal_id@);
}

/// The same at the cap the app uses: a seal that was processed is refused
/// again until [MAX_PROCESSED_IDS] other seals have been processed after it.
pub proof fn lemma_processed_kept_until_cap(ids: Seq<String>, seal_id: String, later: Seq<String>)
    requires
        later.len() < MAX_PROCESSED_IDS,
    ensures
        exists|j: int|
            0 <= j < remember_all(remembered(ids, seal_id, MAX_PROCESSED_IDS as nat), later, MAX_PROCESSED_IDS as nat).len()
                && #[trigger] remember_all(
                remembered(ids, seal_id, MAX_PROCESSED_IDS as nat),
                later,
                MAX_PROCESSED_IDS as nat,
            )[j]@ == seal_id@,
{
    lemma_processed_stays_processed(ids, seal_id, later, MAX_PROCESSED_IDS as nat);
}

} // verus!
