# origilink

The core of OrigiLink, a Nostr messenger: friends and friend requests,
one-to-one and group chat state, forward-secret (Olm) sessions, relay-hosted
account backups and the relay protocol bookkeeping, written in Verus. The
library's own decisions are specified and proved; the cryptography and event
encoding it calls (vodozemac, nostr, bip39, and the hash and cipher crates)
are trusted through stated contracts.

Layout:

- `src/` — the verified library.
  - `friends`, `requests`, `chat`, `groups`, `ratchet`: the app's state and
    how each operation changes it.
  - `session`: the per-peer Olm session store, session choice for sending,
    session lookup for receiving, and the announced device key bundle.
  - `sync`: backup slots and their staleness rules, the friend-protocol
    decisions, the watch list and relay set of the live subscription.
  - `pool`: NIP-01 frames, subscription ids and routing of relay messages.
  - `wire`: receiving NIP-59 gift wraps (wrap, signed seal, rumor) and
    NIP-44 payloads, and which of them are accepted.
  - `crypto`, `keys`: hex and base64 text, at-rest encryption, NIP-06 key
    derivation and the account UID.
  - `keyed`, `seqs`, `text`: a string-keyed map with a `Map` view, verified
    sequence helpers (filtering, searching, stable time ordering) and string
    helpers.
- `app/` — the I/O around the library: JSON files, the `nostr-lmdb` chat
  store, WebSocket connections, building and sealing outgoing Nostr events,
  and the async loops.
- `tests/` — tests of the library, including the Olm session scenarios.
