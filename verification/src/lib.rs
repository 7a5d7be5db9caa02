//! Verified core of a command-line client for a hosted chat service.
//!
//! The heart of the crate is the realtime RPC transport: a binary-framed,
//! request/response-correlated duplex channel with a handshake state machine,
//! batched calls, and a server-error taxonomy.  Around it stand the pure
//! pieces of the surrounding tooling: query-path alias rewriting, relative
//! date parsing, table formatting, and the token/state caches' update rules.
//! All I/O (sockets, files, prompts) lives outside this crate; every function
//! here is a total, contract-checked computation on plain values.

pub mod api;
pub mod auth;
pub mod codec;
pub mod config;
pub mod dates;
pub mod dispatch;
pub mod messages;
pub mod output;
pub mod peers;
pub mod protocol;
pub mod query;
pub mod state;
pub mod update;
pub mod realtime;
pub mod strutil;
