//! OrigiLink's core logic: friend, chat, group and forward-secrecy state,
//! the account backup bookkeeping, and the small pieces of cryptographic
//! plumbing they rest on. Every function here works on plain values; the
//! file, database and relay I/O that feeds them lives outside this crate.

pub mod account;
pub mod chat;
pub mod crypto;
pub mod friends;
pub mod group_ratchet;
pub mod groups;
pub mod keyed;
pub mod keys;
pub mod pool;
pub mod ratchet;
pub mod relay;
pub mod requests;
pub mod seqs;
pub mod session;
pub mod sync;
pub mod text;
pub mod wire;
