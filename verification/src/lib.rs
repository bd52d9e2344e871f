//! A uProtocol transport adapter over a Zenoh-style pub/sub + query substrate.
//!
//! The crate holds the protocol-bridging core: mapping uProtocol URIs to
//! substrate key strings, encoding and decoding message attributes into the
//! binary attachment that travels beside each sample, adapting payloads to the
//! substrate's value-plus-encoding shape, and the bookkeeping of listener
//! tokens and pending queries that lets an RPC server match replies to
//! requests. Substrate I/O itself (session, put, get, subscriber and queryable
//! declarations) lives outside the crate; the core hands it fully prepared
//! actions and interprets what it brings back.

pub mod attachment;
pub mod codec;
pub mod payload;
pub mod registry;
pub mod keys;
pub mod link;
pub mod numfmt;
pub mod status;
pub mod uri;
pub mod text;

use vstd::prelude::*;

verus! {

/// Marker for the listener side of the transport; it carries no state of its
/// own because listeners are tracked through tokens in the link's registries.
pub struct ZenohListener {}

} // verus!
