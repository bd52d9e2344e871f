//! The link: the adapter's state and the decisions behind its operations.
//!
//! A link owns three registries: subscriber handles and queryable handles
//! under listener tokens, and pending inbound queries under request-id
//! strings. The substrate session itself and every call into it live with
//! the embedding program; the link hands it fully prepared actions — what
//! key to use, what bytes to put, what suffix and attachment to carry —
//! and bookkeeps the handles it gets back.
//!
//! The handle types are parameters: `S` for subscribers, `Q` for
//! queryables, `P` for pending queries. The link never looks inside them.

use vstd::prelude::*;
use vstd::map::*;
use crate::attachment::{Attachment, uattributes_key};
use crate::codec::{UAttributes, attrs_bytes, decode_attributes, decode_attrs, encode_attributes, uuid_str_of, uuid_to_string};
use crate::numfmt::{hex_of, lemma_hex_of_ascii, parse_i32_spec};
use crate::payload::{Data, UMessage, UPayload, empty_payload, format_suffix, format_suffix_of, payload_bytes, payload_from_value, payload_value_bytes};
use crate::registry::Registry;
use crate::status::{RpcMapperError, UCode, UStatus};
use crate::text::{ascii_bytes, bytes_of, chars_of, push_bytes, string_from_ascii};
use crate::uri::{UUri, UEntity, clone_uuri, is_valid_uri, long_uri_of, to_zenoh_key_string, uri_valid};
use crate::keys::zenoh_key_of;

verus! {

/// Relies on `rand::random`: draws a fresh value from the thread-local
/// generator; nothing is promised of which value comes back.
pub assume_specification<T>[ rand::random::<T> ]() -> (r: T)
    where
        rand::distributions::Standard: rand::distributions::Distribution<T>,
;

/// The message kind carried in `UAttributes::type_` for a publication.
pub const MESSAGE_TYPE_PUBLISH: i32 = 1;

/// The message kind carried in `UAttributes::type_` for an RPC request.
pub const MESSAGE_TYPE_REQUEST: i32 = 2;

/// The message kind carried in `UAttributes::type_` for an RPC response.
pub const MESSAGE_TYPE_RESPONSE: i32 = 3;

/// A listener token: the substrate key, an underscore, and the uppercase
/// hexadecimal of a random 64-bit value.
pub open spec fn token_of(key: Seq<u8>, r: u64) -> Seq<u8> {
    key + seq![95u8] + hex_of(r as nat)
}

/// The uProtocol-to-substrate link: the three registries behind the six
/// transport operations.
pub struct ULinkZenoh<S, Q, P> {
    subscriber_map: Registry<S>,
    queryable_map: Registry<Q>,
    query_map: Registry<P>,
}

impl<S, Q, P> ULinkZenoh<S, Q, P> {
    /// All three registries keep their tokens unique.
    pub closed spec fn wf(&self) -> bool {
        self.subscriber_map.wf() && self.queryable_map.wf() && self.query_map.wf()
    }

    /// The live subscribers, by token bytes.
    pub closed spec fn subscribers(&self) -> Map<Seq<u8>, S> {
        self.subscriber_map@
    }

    /// The live queryables, by token bytes.
    pub closed spec fn queryables(&self) -> Map<Seq<u8>, Q> {
        self.queryable_map@
    }

    /// The pending queries, by request-id bytes.
    pub closed spec fn pending(&self) -> Map<Seq<u8>, P> {
        self.query_map@
    }

    /// A fresh link with no registrations and no pending queries.
    pub fn new() -> (l: ULinkZenoh<S, Q, P>)
        ensures
            l.wf(),
            l.subscribers() == Map::<Seq<u8>, S>::empty(),
            l.queryables() == Map::<Seq<u8>, Q>::empty(),
            l.pending() == Map::<Seq<u8>, P>::empty(),
    {
        ULinkZenoh {
            subscriber_map: Registry::new(),
            queryable_map: Registry::new(),
            query_map: Registry::new(),
        }
    }

    /// Stores a declared subscriber handle under a token fresh for the
    /// subscriber registry, and returns the token. Fails only when the
    /// bounded search for a fresh random token is exhausted, which a
    /// collision-free registry — in particular an empty one — cannot cause.
    pub fn register_subscriber(&mut self, key: &[u8], handle: S) -> (r: Result<String, UStatus>)
        requires
            old(self).wf(),
            ascii_bytes(key@),
        ensures
            final(self).wf(),
            final(self).queryables() == old(self).queryables(),
            final(self).pending() == old(self).pending(),
            old(self).subscribers() == Map::<Seq<u8>, S>::empty() ==> r is Ok,
            match r {
                Ok(token) => {
                    &&& exists|rnd: u64| token@ == chars_of(#[trigger] token_of(key@, rnd))
                    &&& !old(self).subscribers().contains_key(bytes_of(token@))
                    &&& final(self).subscribers() == old(self).subscribers().insert(
                        bytes_of(token@),
                        handle,
                    )
                },
                Err(e) => {
                    &&& final(self).subscribers() == old(self).subscribers()
                    &&& exists|k: Seq<u8>| old(self).subscribers().contains_key(k)
                    &&& e.code == UCode::Internal
                    &&& e.message@ == "Unable to mint listener token"@
                },
            },
    {
        match fresh_token(&self.subscriber_map, key) {
            Some(token_bytes) => {
                let ghost tb: Seq<u8> = token_bytes@;
                let token: String = string_from_ascii(
                    vstd::slice::slice_to_vec(token_bytes.as_slice()),
                );
                proof {
                    crate::text::lemma_bytes_chars_roundtrip(tb);
                }
                self.subscriber_map.insert(token_bytes, handle);
                Ok(token)
            },
            None => Err(
                UStatus::fail_with_code(UCode::Internal, "Unable to mint listener token"),
            ),
        }
    }

    /// Stores a declared queryable handle under a token fresh for the
    /// queryable registry, and returns the token, with the same success
    /// guarantee as `register_subscriber`.
    pub fn register_queryable(&mut self, key: &[u8], handle: Q) -> (r: Result<String, UStatus>)
        requires
            old(self).wf(),
            ascii_bytes(key@),
        ensures
            final(self).wf(),
            final(self).subscribers() == old(self).subscribers(),
            final(self).pending() == old(self).pending(),
            old(self).queryables() == Map::<Seq<u8>, Q>::empty() ==> r is Ok,
            match r {
                Ok(token) => {
                    &&& exists|rnd: u64| token@ == chars_of(#[trigger] token_of(key@, rnd))
                    &&& !old(self).queryables().contains_key(bytes_of(token@))
                    &&& final(self).queryables() == old(self).queryables().insert(
                        bytes_of(token@),
                        handle,
                    )
                },
                Err(e) => {
                    &&& final(self).queryables() == old(self).queryables()
                    &&& exists|k: Seq<u8>| old(self).queryables().contains_key(k)
                    &&& e.code == UCode::Internal
                    &&& e.message@ == "Unable to mint listener token"@
                },
            },
    {
        match fresh_token(&self.queryable_map, key) {
            Some(token_bytes) => {
                let ghost tb: Seq<u8> = token_bytes@;
                let token: String = string_from_ascii(
                    vstd::slice::slice_to_vec(token_bytes.as_slice()),
                );
                proof {
                    crate::text::lemma_bytes_chars_roundtrip(tb);
                }
                self.queryable_map.insert(token_bytes, handle);
                Ok(token)
            },
            None => Err(
                UStatus::fail_with_code(UCode::Internal, "Unable to mint listener token"),
            ),
        }
    }

    /// Removes the subscriber registered under `listener`; dropping the
    /// returned handle is what deregisters it from the substrate. Fails
    /// with `Invalid topic` on a rejected URI and with `Listener doesn't
    /// exist` when no subscriber lives under the token.
    pub fn unregister_listener(&mut self, topic: &UUri, listener: &str) -> (r: Result<S, UStatus>)
        requires
            old(self).wf(),
        ensures
            final(self).wf(),
            final(self).queryables() == old(self).queryables(),
            final(self).pending() == old(self).pending(),
            match r {
                Ok(handle) => {
                    &&& uri_valid(*topic)
                    &&& old(self).subscribers().contains_key(
                        vstd::utf8::encode_utf8(listener@),
                    )
                    &&& handle == old(self).subscribers()[vstd::utf8::encode_utf8(listener@)]
                    &&& final(self).subscribers() == old(self).subscribers().remove(
                        vstd::utf8::encode_utf8(listener@),
                    )
                },
                Err(e) => {
                    &&& final(self).subscribers() == old(self).subscribers()
                    &&& e.code == UCode::InvalidArgument
                    &&& if !uri_valid(*topic) {
                        e.message@ == "Invalid topic"@
                    } else {
                        &&& !old(self).subscribers().contains_key(
                            vstd::utf8::encode_utf8(listener@),
                        )
                        &&& e.message@ == "Listener doesn't exist"@
                    }
                },
            },
    {
        if !is_valid_uri(topic) {
            return Err(UStatus::fail_with_code(UCode::InvalidArgument, "Invalid topic"));
        }
        match self.subscriber_map.remove(listener.as_bytes()) {
            Some(handle) => Ok(handle),
            None => Err(
                UStatus::fail_with_code(UCode::InvalidArgument, "Listener doesn't exist"),
            ),
        }
    }

    /// Removes the queryable registered under `listener`, as
    /// `unregister_listener` does for subscribers.
    pub fn unregister_rpc_listener(&mut self, method: &UUri, listener: &str) -> (r: Result<
        Q,
        UStatus,
    >)
        requires
            old(self).wf(),
        ensures
            final(self).wf(),
            final(self).subscribers() == old(self).subscribers(),
            final(self).pending() == old(self).pending(),
            match r {
                Ok(handle) => {
                    &&& uri_valid(*method)
                    &&& old(self).queryables().contains_key(vstd::utf8::encode_utf8(listener@))
                    &&& handle == old(self).queryables()[vstd::utf8::encode_utf8(listener@)]
                    &&& final(self).queryables() == old(self).queryables().remove(
                        vstd::utf8::encode_utf8(listener@),
                    )
                },
                Err(e) => {
                    &&& final(self).queryables() == old(self).queryables()
                    &&& e.code == UCode::InvalidArgument
                    &&& if !uri_valid(*method) {
                        e.message@ == "Invalid topic"@
                    } else {
                        &&& !old(self).queryables().contains_key(
                            vstd::utf8::encode_utf8(listener@),
                        )
                        &&& e.message@ == "Listener doesn't exist"@
                    }
                },
            },
    {
        if !is_valid_uri(method) {
            return Err(UStatus::fail_with_code(UCode::InvalidArgument, "Invalid topic"));
        }
        match self.queryable_map.remove(listener.as_bytes()) {
            Some(handle) => Ok(handle),
            None => Err(
                UStatus::fail_with_code(UCode::InvalidArgument, "Listener doesn't exist"),
            ),
        }
    }

    /// Authentication is part of the transport contract but not offered by
    /// this adapter.
    pub fn authenticate(&self, entity: &UEntity) -> (r: Result<(), UStatus>)
        ensures
            match r {
                Ok(_) => false,
                Err(e) => e.code == UCode::Unimplemented && e.message@ == "Not implemented"@,
            },
    {
        let _ = entity;
        Err(UStatus::fail_with_code(UCode::Unimplemented, "Not implemented"))
    }
}

/// Builds the token for one draw of randomness.
fn mint_token(key: &[u8], r: u64) -> (t: Vec<u8>)
    ensures
        t@ == token_of(key@, r),
{
    let mut t: Vec<u8> = vstd::slice::slice_to_vec(key);
    t.push(95);
    let hex: Vec<u8> = crate::numfmt::u64_to_hex_upper(r);
    push_bytes(&mut t, hex.as_slice());
    proof {
        assert(t@ =~= token_of(key@, r));
    }
    t
}

/// Draws random tokens until one is free in the given registry, giving up
/// after a fixed number of draws so the search always ends; a draw of
/// sixty-four random bits collides with a live token only when the
/// registry already holds that exact suffix. The search can come back
/// empty only after a collision, so it always succeeds on an empty
/// registry.
fn fresh_token<V>(reg: &Registry<V>, key: &[u8]) -> (t: Option<Vec<u8>>)
    requires
        ascii_bytes(key@),
    ensures
        match t {
            Some(tb) => {
                &&& !reg@.contains_key(tb@)
                &&& exists|r: u64| tb@ == #[trigger] token_of(key@, r)
                &&& ascii_bytes(tb@)
            },
            None => exists|k: Seq<u8>| reg@.contains_key(k),
        },
{
    let mut attempts: usize = 0;
    while attempts < 64
        invariant
            ascii_bytes(key@),
            attempts > 0 ==> exists|k: Seq<u8>| reg@.contains_key(k),
        decreases 64 - attempts,
    {
        let r: u64 = rand::random();
        let t: Vec<u8> = mint_token(key, r);
        if !reg.contains_key(t.as_slice()) {
            proof {
                lemma_hex_of_ascii(r as nat);
                assert forall|i: int| 0 <= i < t@.len() implies #[trigger] t@[i] < 128 by {
                    if i < key@.len() {
                        assert(t@[i] == key@[i]);
                    } else if i == key@.len() {
                        assert(t@[i] == 95);
                    } else {
                        assert(t@[i] == hex_of(r as nat)[i - key@.len() - 1]);
                    }
                }
            }
            return Some(t);
        }
        assert(reg@.contains_key(t@));
        attempts = attempts + 1;
    }
    None
}

/// Validates a topic and maps it to the substrate key a registration will
/// subscribe or answer on: a rejected URI yields `Invalid topic`, and an
/// accepted one yields exactly its escaped key, in ASCII as the
/// registration functions demand.
pub fn prepare_register(topic: &UUri) -> (r: Result<String, UStatus>)
    ensures
        match r {
            Ok(k) => {
                &&& uri_valid(*topic)
                &&& k@ == chars_of(zenoh_key_of(long_uri_of(*topic)))
                &&& ascii_bytes(bytes_of(k@))
            },
            Err(e) => {
                &&& !uri_valid(*topic)
                &&& e.code == UCode::InvalidArgument
                &&& e.message@ == "Invalid topic"@
            },
        },
{
    if !is_valid_uri(topic) {
        return Err(UStatus::fail_with_code(UCode::InvalidArgument, "Invalid topic"));
    }
    match to_zenoh_key_string(topic) {
        Ok(k) => {
            proof {
                crate::uri::lemma_long_uri_ascii(*topic);
                crate::keys::lemma_zenoh_key_ascii(long_uri_of(*topic));
                crate::text::lemma_bytes_chars_roundtrip(zenoh_key_of(long_uri_of(*topic)));
            }
            Ok(k)
        },
        Err(e) => {
            proof {
                assert(false);
            }
            Err(e)
        },
    }
}

/// What `send` asks the substrate to do: publish a value under a key, or
/// answer a pending query with a value.
#[derive(Debug)]
pub enum SendAction<P> {
    Put { key: String, payload: Vec<u8>, encoding_suffix: String, attachment: Attachment },
    Reply { query: P, key: String, payload: Vec<u8>, encoding_suffix: String },
}

/// Which substrate endpoints a get is aimed at; the adapter always asks
/// for the best matching one.
#[derive(Clone, Copy, PartialEq, Eq, Structural, Debug)]
pub enum GetTarget {
    BestMatching,
}

/// What `invoke_method` asks the substrate to do: one get with a value, an
/// attachment, the target and the fixed timeout.
#[derive(Debug)]
pub struct GetAction {
    pub key: String,
    pub payload: Vec<u8>,
    pub encoding_suffix: String,
    pub attachment: Attachment,
    pub target: GetTarget,
    pub timeout_ms: u64,
}

/// The value carried by an inbound query or reply: its encoding suffix and
/// its bytes.
#[derive(Debug)]
pub struct SampleValue {
    pub encoding_suffix: Vec<u8>,
    pub payload: Vec<u8>,
}

/// The request-id bytes of attributes that carry a request id.
pub open spec fn reqid_str(a: UAttributes) -> Seq<u8> {
    match a.reqid {
        Some(u) => uuid_str_of(u),
        None => Seq::<u8>::empty(),
    }
}

impl<S, Q, P> ULinkZenoh<S, Q, P> {
    /// Decides a `send`: validates the topic, dispatches on the message
    /// kind, extracts the value bytes, encodes the attributes, and — for a
    /// response — consumes the pending query named by the request id.
    pub fn prepare_send(&mut self, topic: &UUri, payload: UPayload, attributes: &UAttributes)
        -> (r: Result<SendAction<P>, UStatus>)
        requires
            old(self).wf(),
            uri_valid(*topic) && attributes.type_ == MESSAGE_TYPE_RESPONSE
                && payload_value_bytes(payload) is Some ==> attributes.reqid is Some,
        ensures
            final(self).wf(),
            final(self).subscribers() == old(self).subscribers(),
            final(self).queryables() == old(self).queryables(),
            match r {
                Ok(action) => match action {
                    SendAction::Put { key, payload: value, encoding_suffix, attachment } => {
                        &&& uri_valid(*topic)
                        &&& attributes.type_ == MESSAGE_TYPE_PUBLISH
                        &&& key@ == chars_of(zenoh_key_of(long_uri_of(*topic)))
                        &&& payload_value_bytes(payload) == Some(value@)
                        &&& encoding_suffix@ == chars_of(format_suffix_of(payload.format))
                        &&& attachment.spec_get(uattributes_key()) == Some(
                            attrs_bytes(attributes@),
                        )
                        &&& attachment.entries@.len() == 1
                        &&& final(self).pending() == old(self).pending()
                    },
                    SendAction::Reply { query, key, payload: value, encoding_suffix } => {
                        &&& uri_valid(*topic)
                        &&& attributes.type_ == MESSAGE_TYPE_RESPONSE
                        &&& old(self).pending().contains_key(reqid_str(*attributes))
                        &&& query == old(self).pending()[reqid_str(*attributes)]
                        &&& final(self).pending() == old(self).pending().remove(
                            reqid_str(*attributes),
                        )
                        &&& key@ == chars_of(zenoh_key_of(long_uri_of(*topic)))
                        &&& payload_value_bytes(payload) == Some(value@)
                        &&& encoding_suffix@ == chars_of(format_suffix_of(payload.format))
                    },
                },
                Err(e) => {
                    &&& final(self).pending() == old(self).pending()
                    &&& e.code == UCode::InvalidArgument
                    &&& if !uri_valid(*topic) {
                        e.message@ == "Invalid topic"@
                    } else if attributes.type_ == MESSAGE_TYPE_PUBLISH {
                        payload_value_bytes(payload) is None && e.message@ == "Invalid data"@
                    } else if attributes.type_ == MESSAGE_TYPE_RESPONSE {
                        if payload_value_bytes(payload) is None {
                            e.message@ == "Invalid data"@
                        } else {
                            &&& !old(self).pending().contains_key(reqid_str(*attributes))
                            &&& e.message@ == "No matching request"@
                        }
                    } else {
                        e.message@ == "Wrong Message type in UAttributes"@
                    }
                },
            },
    {
        if !is_valid_uri(topic) {
            return Err(UStatus::fail_with_code(UCode::InvalidArgument, "Invalid topic"));
        }
        let key: String = match to_zenoh_key_string(topic) {
            Ok(k) => k,
            Err(e) => {
                proof {
                    assert(false);
                }
                return Err(e);
            },
        };
        let format: i32 = payload.format;
        if attributes.type_ == MESSAGE_TYPE_PUBLISH {
            let value: Vec<u8> = match payload_bytes(payload) {
                Some(v) => v,
                None => {
                    return Err(UStatus::fail_with_code(UCode::InvalidArgument, "Invalid data"));
                },
            };
            let attr_bytes: Vec<u8> = encode_attributes(attributes);
            let attachment: Attachment = Attachment::for_uattributes(attr_bytes);
            let encoding_suffix: String = format_suffix(format);
            Ok(SendAction::Put { key, payload: value, encoding_suffix, attachment })
        } else if attributes.type_ == MESSAGE_TYPE_RESPONSE {
            let value: Vec<u8> = match payload_bytes(payload) {
                Some(v) => v,
                None => {
                    return Err(UStatus::fail_with_code(UCode::InvalidArgument, "Invalid data"));
                },
            };
            let rid: String = match &attributes.reqid {
                Some(u) => uuid_to_string(u),
                None => {
                    proof {
                        assert(false);
                    }
                    return Err(UStatus::fail_with_code(UCode::InvalidArgument, "Invalid data"));
                },
            };
            proof {
                crate::codec::lemma_uuid_str_ascii(attributes.reqid->Some_0);
                crate::text::lemma_encode_chars_of(reqid_str(*attributes));
            }
            match self.query_map.remove(rid.as_str().as_bytes()) {
                Some(query) => {
                    let encoding_suffix: String = format_suffix(format);
                    Ok(SendAction::Reply { query, key, payload: value, encoding_suffix })
                },
                None => Err(
                    UStatus::fail_with_code(UCode::InvalidArgument, "No matching request"),
                ),
            }
        } else {
            Err(
                UStatus::fail_with_code(
                    UCode::InvalidArgument,
                    "Wrong Message type in UAttributes",
                ),
            )
        }
    }

    /// Decides an inbound query on the RPC server side: decodes the
    /// attributes from the attachment, adapts the value if one came, and
    /// stashes the query under its request id for the later response.
    pub fn process_query(
        &mut self,
        topic: &UUri,
        attachment: Option<&Attachment>,
        value: Option<SampleValue>,
        query: P,
    ) -> (r: Result<UMessage, UStatus>)
        requires
            old(self).wf(),
        ensures
            final(self).wf(),
            final(self).subscribers() == old(self).subscribers(),
            final(self).queryables() == old(self).queryables(),
            match r {
                Ok(m) => {
                    &&& m.source == Some(*topic)
                    &&& match (attachment, m.attributes) {
                        (Some(att), Some(ma)) => {
                            &&& att.spec_get(uattributes_key()) is Some
                            &&& decode_attrs(att.spec_get(uattributes_key())->Some_0) == Some(
                                ma@,
                            )
                            &&& ma@.reqid is Some
                            &&& final(self).pending() == old(self).pending().insert(
                                uuid_str_of(ma@.reqid->Some_0),
                                query,
                            )
                        },
                        _ => false,
                    }
                    &&& match (value, m.payload) {
                        (Some(v), Some(p)) => {
                            &&& parse_i32_spec(v.encoding_suffix@) == Some(p.format)
                            &&& p.data == Some(Data::Value(v.payload))
                            &&& p.length == Some(0i32)
                        },
                        (None, Some(p)) => p.format == 0 && p.data is None && p.length == Some(
                            0i32,
                        ),
                        _ => false,
                    }
                },
                Err(e) => {
                    &&& final(self).pending() == old(self).pending()
                    &&& e.code == UCode::Internal
                    &&& match attachment {
                        None => e.message@ == "Unable to get attachment"@,
                        Some(att) => match att.spec_get(uattributes_key()) {
                            None => e.message@ == "Unable to get uattributes"@,
                            Some(ab) => match decode_attrs(ab) {
                                None => e.message@ == "Unable to decode attribute"@,
                                Some(a) => match value {
                                    Some(v) => if parse_i32_spec(v.encoding_suffix@) is None {
                                        e.message@ == "Unable to get payload encoding"@
                                    } else {
                                        a.reqid is None && e.message@
                                            == "The request is without reqid in UAttributes"@
                                    },
                                    None => a.reqid is None && e.message@
                                        == "The request is without reqid in UAttributes"@,
                                },
                            },
                        },
                    }
                },
            },
    {
        let att: &Attachment = match attachment {
            Some(att) => att,
            None => {
                return Err(UStatus::fail_with_code(UCode::Internal, "Unable to get attachment"));
            },
        };
        let key: Vec<u8> = crate::attachment::uattributes_key_bytes();
        let attr_bytes: Vec<u8> = match att.get(key.as_slice()) {
            Some(b) => b,
            None => {
                return Err(
                    UStatus::fail_with_code(UCode::Internal, "Unable to get uattributes"),
                );
            },
        };
        let u_attributes: UAttributes = match decode_attributes(attr_bytes.as_slice()) {
            Some(a) => a,
            None => {
                return Err(UStatus::fail_with_code(UCode::Internal, "Unable to decode attribute"));
            },
        };
        let u_payload: UPayload = match value {
            Some(v) => match payload_from_value(v.encoding_suffix.as_slice(), v.payload) {
                Some(p) => p,
                None => {
                    return Err(
                        UStatus::fail_with_code(UCode::Internal, "Unable to get payload encoding"),
                    );
                },
            },
            None => empty_payload(),
        };
        let rid: String = match &u_attributes.reqid {
            Some(u) => uuid_to_string(u),
            None => {
                return Err(
                    UStatus::fail_with_code(
                        UCode::Internal,
                        "The request is without reqid in UAttributes",
                    ),
                );
            },
        };
        proof {
            crate::codec::lemma_uuid_str_ascii(u_attributes.reqid->Some_0);
            crate::text::lemma_encode_chars_of(uuid_str_of(u_attributes.reqid->Some_0));
        }
        let rid_bytes: Vec<u8> = vstd::slice::slice_to_vec(rid.as_str().as_bytes());
        self.query_map.set(rid_bytes, query);
        Ok(
            UMessage {
                source: Some(clone_uuri(topic)),
                attributes: Some(u_attributes),
                payload: Some(u_payload),
            },
        )
    }
}

/// Turns an inbound sample into the message a subscriber callback
/// delivers: attributes from the attachment, format from the suffix, the
/// sample bytes as value.
pub fn process_sample(
    topic: &UUri,
    attachment: Option<&Attachment>,
    encoding_suffix: &[u8],
    payload: Vec<u8>,
) -> (r: Result<UMessage, UStatus>)
    ensures
        match r {
            Ok(m) => {
                &&& m.source == Some(*topic)
                &&& match (attachment, m.attributes) {
                    (Some(att), Some(ma)) => {
                        &&& att.spec_get(uattributes_key()) is Some
                        &&& decode_attrs(att.spec_get(uattributes_key())->Some_0) == Some(ma@)
                    },
                    _ => false,
                }
                &&& match m.payload {
                    Some(p) => {
                        &&& parse_i32_spec(encoding_suffix@) == Some(p.format)
                        &&& p.data == Some(Data::Value(payload))
                        &&& p.length == Some(0i32)
                    },
                    None => false,
                }
            },
            Err(e) => {
                &&& e.code == UCode::Internal
                &&& match attachment {
                    None => e.message@ == "Unable to get attachment"@,
                    Some(att) => match att.spec_get(uattributes_key()) {
                        None => e.message@ == "Unable to get uattributes"@,
                        Some(ab) => match decode_attrs(ab) {
                            None => e.message@ == "Unable to decode attribute"@,
                            Some(_) => parse_i32_spec(encoding_suffix@) is None && e.message@
                                == "Unable to get payload encoding"@,
                        },
                    },
                }
            },
        },
{
    let att: &Attachment = match attachment {
        Some(att) => att,
        None => {
            return Err(UStatus::fail_with_code(UCode::Internal, "Unable to get attachment"));
        },
    };
    let key: Vec<u8> = crate::attachment::uattributes_key_bytes();
    let attr_bytes: Vec<u8> = match att.get(key.as_slice()) {
        Some(b) => b,
        None => {
            return Err(UStatus::fail_with_code(UCode::Internal, "Unable to get uattributes"));
        },
    };
    let u_attributes: UAttributes = match decode_attributes(attr_bytes.as_slice()) {
        Some(a) => a,
        None => {
            return Err(UStatus::fail_with_code(UCode::Internal, "Unable to decode attribute"));
        },
    };
    let u_payload: UPayload = match payload_from_value(encoding_suffix, payload) {
        Some(p) => p,
        None => {
            return Err(
                UStatus::fail_with_code(UCode::Internal, "Unable to get payload encoding"),
            );
        },
    };
    Ok(
        UMessage {
            source: Some(clone_uuri(topic)),
            attributes: Some(u_attributes),
            payload: Some(u_payload),
        },
    )
}

/// Decides an `invoke_method`: validates the method URI, extracts the
/// request value, encodes the attributes, and fixes target and timeout.
pub fn prepare_invoke(topic: &UUri, payload: UPayload, attributes: &UAttributes) -> (r: Result<
    GetAction,
    RpcMapperError,
>)
    ensures
        match r {
            Ok(g) => {
                &&& uri_valid(*topic)
                &&& g.key@ == chars_of(zenoh_key_of(long_uri_of(*topic)))
                &&& payload_value_bytes(payload) == Some(g.payload@)
                &&& g.encoding_suffix@ == chars_of(format_suffix_of(payload.format))
                &&& g.attachment.spec_get(uattributes_key()) == Some(attrs_bytes(attributes@))
                &&& g.attachment.entries@.len() == 1
                &&& g.target == GetTarget::BestMatching
                &&& g.timeout_ms == 1000
            },
            Err(e) => match e {
                RpcMapperError::UnexpectedError(m) => !uri_valid(*topic) && m@ == "Wrong UUri"@,
                RpcMapperError::InvalidPayload(m) => uri_valid(*topic) && payload_value_bytes(
                    payload,
                ) is None && m@ == "Wrong UPayload"@,
                RpcMapperError::ProtobufError(_) => false,
            },
        },
{
    if !is_valid_uri(topic) {
        return Err(RpcMapperError::UnexpectedError("Wrong UUri".to_owned()));
    }
    let key: String = match to_zenoh_key_string(topic) {
        Ok(k) => k,
        Err(_) => {
            proof {
                assert(false);
            }
            return Err(RpcMapperError::UnexpectedError("Wrong UUri".to_owned()));
        },
    };
    let format: i32 = payload.format;
    let value: Vec<u8> = match payload_bytes(payload) {
        Some(v) => v,
        None => {
            return Err(RpcMapperError::InvalidPayload("Wrong UPayload".to_owned()));
        },
    };
    let attr_bytes: Vec<u8> = encode_attributes(attributes);
    let attachment: Attachment = Attachment::for_uattributes(attr_bytes);
    let encoding_suffix: String = format_suffix(format);
    Ok(
        GetAction {
            key,
            payload: value,
            encoding_suffix,
            attachment,
            target: GetTarget::BestMatching,
            timeout_ms: 1000,
        },
    )
}

/// Interprets the first reply of an RPC call: a failed sample becomes the
/// reply-parsing error, an unreadable suffix the encoding error, and a
/// good sample the reply payload.
pub fn parse_reply(sample: Option<SampleValue>) -> (r: Result<UPayload, RpcMapperError>)
    ensures
        match sample {
            Some(v) => match r {
                Ok(p) => {
                    &&& parse_i32_spec(v.encoding_suffix@) == Some(p.format)
                    &&& p.data == Some(Data::Value(v.payload))
                    &&& p.length == Some(0i32)
                },
                Err(e) => match e {
                    RpcMapperError::UnexpectedError(m) => parse_i32_spec(v.encoding_suffix@)
                        is None && m@ == "Error while parsing Zenoh encoding"@,
                    _ => false,
                },
            },
            None => match r {
                Err(RpcMapperError::UnexpectedError(m)) => m@
                    == "Error while parsing Zenoh reply"@,
                _ => false,
            },
        },
{
    match sample {
        Some(v) => match payload_from_value(v.encoding_suffix.as_slice(), v.payload) {
            Some(p) => Ok(p),
            None => Err(
                RpcMapperError::UnexpectedError("Error while parsing Zenoh encoding".to_owned()),
            ),
        },
        None => Err(RpcMapperError::UnexpectedError("Error while parsing Zenoh reply".to_owned())),
    }
}

/// Law (publish delivery): what the publish path places on the wire is
/// exactly what the subscriber path reads back — the attachment bytes
/// decode to the sent attributes, and the suffix, rendered to text and
/// read back as bytes, parses to the sent format. With `prepare_send`'s
/// and `process_sample`'s contracts this pins a delivered message to the
/// published bytes, attributes and format.
pub proof fn lemma_publish_roundtrip(a: crate::codec::AttrsView, format: i32)
    requires
        crate::codec::attrs_wf(a),
    ensures
        decode_attrs(attrs_bytes(a)) == Some(a),
        parse_i32_spec(bytes_of(chars_of(format_suffix_of(format)))) == Some(format),
{
    crate::codec::lemma_attrs_roundtrip(a);
    crate::payload::lemma_format_suffix_roundtrip(format);
    crate::payload::lemma_dec_i32_ascii(format);
    crate::text::lemma_bytes_chars_roundtrip(format_suffix_of(format));
}

/// Law (RPC delivery): the request's attributes — its request id included —
/// and its value format survive to the server, and the reply's format
/// survives back to the client. With `prepare_invoke`'s, `process_query`'s,
/// `prepare_send`'s and `parse_reply`'s contracts this pins both payloads
/// of a round trip to what the peers sent.
pub proof fn lemma_rpc_roundtrip(
    a: crate::codec::AttrsView,
    request_format: i32,
    reply_format: i32,
)
    requires
        crate::codec::attrs_wf(a),
        a.reqid is Some,
    ensures
        decode_attrs(attrs_bytes(a)) == Some(a),
        match decode_attrs(attrs_bytes(a)) {
            Some(d) => d.reqid == a.reqid,
            None => false,
        },
        parse_i32_spec(bytes_of(chars_of(format_suffix_of(request_format)))) == Some(
            request_format,
        ),
        parse_i32_spec(bytes_of(chars_of(format_suffix_of(reply_format)))) == Some(reply_format),
{
    lemma_publish_roundtrip(a, request_format);
    lemma_publish_roundtrip(a, reply_format);
}


/// Law (listener lifecycle): a token fresh at registration names exactly
/// one entry afterwards; removing it once restores the registry, and the
/// token then names nothing — so a second unregister with the same token
/// must fail. `register_subscriber`, `register_queryable` and the two
/// unregister operations instantiate this with their own maps.
pub proof fn lemma_listener_lifecycle<H>(m: Map<Seq<u8>, H>, token: Seq<u8>, handle: H)
    requires
        !m.contains_key(token),
    ensures
        m.insert(token, handle).contains_key(token),
        m.insert(token, handle)[token] == handle,
        m.insert(token, handle).remove(token) == m,
        !m.insert(token, handle).remove(token).contains_key(token),
{
    assert(m.insert(token, handle).remove(token) =~= m);
}

} // verus!
