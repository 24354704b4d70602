//! The relay list this device publishes to and reads from.

use vstd::prelude::*;

verus! {

/// The list of Nostr relay URLs this device publishes to / reads from.
pub struct RelayList {
    pub urls: Vec<String>,
}

/// The three default public relays, in order.
pub open spec fn spec_default_relay_urls() -> Seq<Seq<char>> {
    seq!["wss://relay.damus.io"@, "wss://nos.lol"@, "wss://relay.primal.net"@]
}

fn default_relay_urls() -> (urls: Vec<String>)
    ensures
        urls@.len() == 3,
        forall|i: int| 0 <= i < 3 ==> #[trigger] urls@[i]@ == spec_default_relay_urls()[i],
{
    let mut urls: Vec<String> = Vec::new();
    urls.push(String::from_str("wss://relay.damus.io"));
    urls.push(String::from_str("wss://nos.lol"));
    urls.push(String::from_str("wss://relay.primal.net"));
    urls
}

/// The default set of public relays, used both as the fallback in
/// [load_relay_list] and to let the UI offer a "reset to defaults" action.
pub fn default_relays() -> (urls: Vec<String>)
    ensures
        urls@.len() == 3,
        forall|i: int| 0 <= i < 3 ==> #[trigger] urls@[i]@ == spec_default_relay_urls()[i],
{
    default_relay_urls()
}

/// The relay list to use, given what was read back from storage: the saved
/// list if there is one, otherwise the default public relays.
pub fn load_relay_list(saved: Option<RelayList>) -> (list: RelayList)
    ensures
        saved is Some ==> list == saved->0,
        saved is None ==> list.urls@.len() == 3 && forall|i: int|
            0 <= i < 3 ==> #[trigger] list.urls@[i]@ == spec_default_relay_urls()[i],
{
    match saved {
        Some(list) => list,
        None => RelayList { urls: default_relay_urls() },
    }
}

} // verus!
