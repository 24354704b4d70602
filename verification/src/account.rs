//! The local account's own display data, app preferences, and how its
//! avatar file is named.

use vstd::prelude::*;
use vstd::utf8::encode_utf8;
use crate::crypto::{hex_encode, sha256, spec_hex, spec_sha256};

verus! {

/// Local account identity: display info persisted per-device.
pub struct Account {
    pub display_name: String,
    pub status_message: String,
    /// Absolute path to the avatar image file, if the user picked one.
    pub avatar_path: Option<String>,
    /// Unix timestamp (seconds) of the last local edit, used to decide
    /// whether the local copy or the relay-synced backup is newer.
    pub updated_at: i64,
}

/// Local display profile.
pub struct Profile {
    pub display_name: String,
    pub status_message: String,
    pub avatar_path: Option<String>,
}

/// Personal app preferences — never shared with friends.
pub struct AppConfig {
    /// BCP-47 language code, or `None` to follow the device locale.
    pub language: Option<String>,
}

impl Default for AppConfig {
    fn default() -> (c: Self)
        ensures
            c.language is None,
    {
        AppConfig { language: None }
    }
}

/// The app config to use, given what was read back from storage: the saved
/// one, or the defaults (follow the device locale) if none was saved.
pub fn load_config(saved: Option<AppConfig>) -> (c: AppConfig)
    ensures
        saved is Some ==> c == saved->0,
        saved is None ==> c.language is None,
{
    match saved {
        Some(c) => c,
        None => AppConfig::default(),
    }
}

/// The prefix every file holding this account's avatar starts with.
pub open spec fn avatar_prefix() -> Seq<char> {
    "account_avatar_"@
}

/// The file name an avatar with these bytes is stored under:
/// `account_avatar_<hex sha256 of the bytes>.<extension>` — a new name for
/// new content, so image caches keyed by path never show a stale picture.
pub open spec fn spec_avatar_file_name(bytes: Seq<u8>, extension: Seq<char>) -> Seq<char> {
    avatar_prefix() + spec_hex(spec_sha256(bytes)) + seq!['.'] + extension
}

/// The file name to store avatar `bytes` under (see [spec_avatar_file_name]).
pub fn avatar_file_name(bytes: &[u8], extension: &str) -> (name: String)
    ensures
        name@ == spec_avatar_file_name(bytes@, extension@),
{
    let digest = sha256(bytes);
    let hash = hex_encode(digest.as_slice());
    let mut name = String::from_str("account_avatar_");
    name.append(hash.as_str());
    proof {
        reveal_strlit(".");
    }
    name.append(".");
    name.append(extension);
    name
}

/// Whether a file called `name` is an earlier avatar to delete once the
/// avatar is stored as `current`.
pub fn is_stale_avatar(name: &str, current: &String) -> (b: bool)
    ensures
        b == (avatar_prefix().is_prefix_of(name@) && name@ != current@),
{
    proof {
        reveal_strlit("account_avatar_");
    }
    let prefix = String::from_str("account_avatar_");
    let n = name.unicode_len();
    if n < 15 {
        return false;
    }
    let head = name.substring_char(0, 15).to_owned();
    let starts = head == prefix;
    proof {
        if starts {
            assert(name@.subrange(0, 15) == avatar_prefix());
            assert(avatar_prefix().is_prefix_of(name@));
        } else {
            if avatar_prefix().is_prefix_of(name@) {
                assert(name@.subrange(0, 15) =~= avatar_prefix());
            }
        }
    }
    let name_owned = name.to_owned();
    starts && !(name_owned == *current)
}

} // verus!
