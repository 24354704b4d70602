//! Friend requests in flight, in both directions.

use vstd::prelude::*;
use crate::seqs::retain_vec;

verus! {

/// A friend request we sent out, not yet known to be accepted. Tracks which
/// of our own account indices we used, and where to look for the other
/// side's acceptance (the same relays we sent the request to).
pub struct OutgoingRequest {
    pub my_account_index: u32,
    pub invite_pubkey: String,
    pub invite_relays: Vec<String>,
    pub created_at: i64,
}

/// A friend request that arrived on one of our invites and is waiting for
/// the user to accept or reject it.
pub struct IncomingRequest {
    pub invite_account_index: u32,
    pub pubkey: String,
    pub uid: String,
    pub display_name: String,
    pub status_message: String,
    pub relays: Vec<String>,
    pub avatar_base64: Option<String>,
}

/// Records a newly sent request at the end of the list.
pub fn add(
    requests: Vec<OutgoingRequest>,
    my_account_index: u32,
    invite_pubkey: String,
    invite_relays: Vec<String>,
    created_at: i64,
) -> (out: Vec<OutgoingRequest>)
    ensures
        out@ == requests@.push(
            OutgoingRequest { my_account_index, invite_pubkey, invite_relays, created_at },
        ),
{
    let mut requests = requests;
    requests.push(OutgoingRequest { my_account_index, invite_pubkey, invite_relays, created_at });
    requests
}

/// Whether `r` was sent from some other account index than `index`.
pub open spec fn other_index(index: u32) -> spec_fn(OutgoingRequest) -> bool {
    |r: OutgoingRequest| r.my_account_index != index
}

/// Removes the outgoing request(s) for `my_account_index` — called once it's
/// been resolved (accepted and turned into a friend).
pub fn remove(requests: Vec<OutgoingRequest>, my_account_index: u32) -> (out: Vec<OutgoingRequest>)
    ensures
        out@ == requests@.filter(other_index(my_account_index)),
{
    retain_vec(
        requests,
        (|r: &OutgoingRequest| -> (b: bool)
            ensures
                b == (r.my_account_index != my_account_index),
            { r.my_account_index != my_account_index }),
        Ghost(other_index(my_account_index)),
    )
}

/// Whether `r` came from some other requester than `pubkey`.
pub open spec fn other_requester(pubkey: Seq<char>) -> spec_fn(IncomingRequest) -> bool {
    |r: IncomingRequest| r.pubkey@ != pubkey
}

/// Drops every pending incoming request from `pubkey`.
pub fn remove_incoming(requests: Vec<IncomingRequest>, pubkey: &String) -> (out: Vec<IncomingRequest>)
    ensures
        out@ == requests@.filter(other_requester(pubkey@)),
{
    retain_vec(
        requests,
        (|r: &IncomingRequest| -> (b: bool)
            ensures
                b == (r.pubkey@ != pubkey@),
            { !(r.pubkey == *pubkey) }),
        Ghost(other_requester(pubkey@)),
    )
}

} // verus!
