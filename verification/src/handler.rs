//! Stream and datagram handlers: the per-message decisions.
//!
//! Each accepted channel hands its raw message bytes to one of these
//! functions; the unverified shell around the library performs the reads
//! and writes.  A bidirectional stream in the metadata profile carries
//! query requests and gets one response per well-formed request, silence
//! for anything malformed.  A unidirectional stream is answered on a
//! brand-new outbound unidirectional stream with a fixed acknowledgement;
//! a datagram with a fixed unreliable acknowledgement.

use crate::codec::{
    decode_query, encode_response, spec_decode_query, spec_encode_response, QueryRequestView,
    QueryResponse, QueryResponseView,
};
use crate::store::MetadataStore;
use vstd::prelude::*;
use vstd::string::StringSliceAdditionalSpecFns;

verus! {

/// The response a well-formed query deserves: the request's id echoed,
/// `found` exactly when the store holds the key, and then the stored
/// value's JSON text as `data`.
pub open spec fn spec_query_response(m: Map<Seq<u8>, Seq<u8>>, q: QueryRequestView)
    -> QueryResponseView {
    QueryResponseView {
        request_id: q.request_id,
        found: m.contains_key(q.key),
        data: if m.contains_key(q.key) {
            Some(m[q.key])
        } else {
            None
        },
    }
}

/// Services one message read from a bidirectional stream in the metadata
/// profile.  A well-formed request is answered with the encoded response
/// for its key; malformed bytes yield no response at all, and the stream
/// stays open for the next message.
pub fn handle_query_message(store: &MetadataStore, msg: &[u8]) -> (r: Option<Vec<u8>>)
    requires
        store.wf(),
    ensures
        match spec_decode_query(msg@) {
            Some(q) => r matches Some(resp) && resp@ == spec_encode_response(
                spec_query_response(store.view(), q),
            ),
            None => r is None,
        },
{
    match decode_query(msg) {
        Some(q) => {
            let resp = match store.lookup(q.key.as_slice()) {
                Some(v) => QueryResponse {
                    request_id: q.request_id,
                    found: true,
                    data: Some(vstd::slice::slice_to_vec(v.as_slice())),
                },
                None => QueryResponse { request_id: q.request_id, found: false, data: None },
            };
            Some(encode_response(&resp))
        },
        None => None,
    }
}

/// Every response echoes its request: for every store contents and every
/// decoded request, the response built for it carries the request's own
/// id, whatever interleaving of streams produced it.
pub proof fn lemma_response_echoes_request_id(m: Map<Seq<u8>, Seq<u8>>, q: QueryRequestView)
    ensures
        spec_query_response(m, q).request_id == q.request_id,
{
}

/// The fixed acknowledgement sent on a new outbound unidirectional
/// stream after a message arrived on an inbound one.
pub fn handle_uni_message() -> (r: Vec<u8>)
    ensures
        r@ == ("ACK from server").spec_bytes(),
{
    crate::bytes::str_bytes("ACK from server")
}

/// The fixed acknowledgement sent back as an unreliable datagram.
pub fn handle_datagram_message() -> (r: Vec<u8>)
    ensures
        r@ == ("ACK datagram").spec_bytes(),
{
    crate::bytes::str_bytes("ACK datagram")
}

} // verus!
