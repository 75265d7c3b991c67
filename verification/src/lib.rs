//! Core of a terminal editor built around an embedded LSP client layer:
//! a length-prefixed JSON-RPC framing codec, an LSP client state machine
//! with request correlation and semantic-token decoding, a client manager
//! that allocates multiplexer tokens and routes readiness events, and the
//! editor state driven by a single-threaded event loop.
use vstd::prelude::*;

pub mod action;
pub mod buffer;
pub mod codec;
pub mod command;
pub mod editor;
pub mod external_command;
pub mod fmt;
pub mod json;
pub mod key_mapper;
pub mod lsp;
pub mod preview;
pub mod rpc;
pub mod terminal;
pub mod vec_map;

verus! {

/// Upper bound on buffered outbound bytes: a request enqueued while the
/// buffer already holds more than this many bytes is dropped.
pub const SEND_BUF_SIZE_LIMIT: usize = 10240;

} // verus!
