//! Bookkeeping of the per-group forward-secret channel: the routing
//! identities this account holds (one NIP-06 account index per group) and
//! how sessions with each peer in a group are keyed.

use vstd::prelude::*;
use crate::keys::{derive_contact_pubkey, spec_contact_pubkey, spec_trim};

verus! {

/// How many processed seal ids the group channel remembers.
pub const MAX_GROUP_PROCESSED_IDS: usize = 4000;

/// The session-store key of the session with `peer` in group `group_id`.
pub open spec fn spec_session_key(group_id: Seq<char>, peer: Seq<char>) -> Seq<char> {
    group_id + seq![':'] + peer
}

/// The session-store key of the session with the member whose per-group
/// routing identity is `peer_group_pubkey`, in `group_id`:
/// `"<group_id>:<peer_group_pubkey>"`.
pub fn session_key(group_id: &str, peer_group_pubkey: &str) -> (k: String)
    ensures
        k@ == spec_session_key(group_id@, peer_group_pubkey@),
{
    let mut k = String::from_str(group_id);
    proof {
        reveal_strlit(":");
    }
    k.append(":");
    k.append(peer_group_pubkey);
    k
}

/// The routing identities for `accounts` (group id and account index
/// pairs): for each pair whose index derives a contact key, that key's
/// pubkey beside the group id, in order.
pub open spec fn spec_group_identities(mnemonic: Seq<char>, accounts: Seq<(String, u32)>) -> Seq<
    (Seq<char>, Seq<char>),
>
    decreases accounts.len(),
{
    if accounts.len() == 0 {
        seq![]
    } else {
        let prefix = spec_group_identities(mnemonic, accounts.drop_last());
        match spec_contact_pubkey(spec_trim(mnemonic), accounts.last().1) {
            Some(pk) => prefix.push((pk, accounts.last().0@)),
            None => prefix,
        }
    }
}

/// A pair of strings by their text.
pub open spec fn pair_view(p: (String, String)) -> (Seq<char>, Seq<char>) {
    (p.0@, p.1@)
}

/// Every per-group routing identity this account holds, as (pubkey, group
/// id) pairs, so an incoming event tagged with one of those pubkeys can be
/// told apart and routed to its group. Indices that derive no key are
/// skipped.
pub fn group_identities(mnemonic: &str, accounts: &Vec<(String, u32)>) -> (out: Vec<(String, String)>)
    ensures
        out@.map_values(|p: (String, String)| pair_view(p)) == spec_group_identities(mnemonic@, accounts@),
{
    let mut out: Vec<(String, String)> = Vec::new();
    let mut i: usize = 0;
    while i < accounts.len()
        invariant
            i <= accounts@.len(),
            out@.map_values(|p: (String, String)| pair_view(p)) == spec_group_identities(
                mnemonic@,
                accounts@.take(i as int),
            ),
        decreases accounts@.len() - i,
    {
        let ghost before = out@;
        proof {
            assert(accounts@.take(i + 1).drop_last() == accounts@.take(i as int));
            assert(accounts@.take(i + 1).last() == accounts@[i as int]);
        }
        match derive_contact_pubkey(mnemonic, accounts[i].1) {
            Ok(pk) => {
                out.push((pk, accounts[i].0.clone()));
                proof {
                    assert(out@.map_values(|p: (String, String)| pair_view(p)) == before.map_values(
                        |p: (String, String)| pair_view(p),
                    ).push(pair_view(out@.last())));
                }
            },
            Err(_) => {},
        }
        i = i + 1;
    }
    proof {
        assert(accounts@.take(accounts@.len() as int) == accounts@);
    }
    out
}

} // verus!
