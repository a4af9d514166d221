//! The connection dispatcher's per-event decisions.
//!
//! One dispatcher owns one negotiated session.  Its loop waits for the
//! next event — a bidirectional stream accepted, a unidirectional stream
//! accepted, a datagram received — bumps the matching counter exactly
//! once at acceptance time, and routes the event's bytes to a handler.
//! This module makes those decisions under the serialized-per-connection
//! policy of the command profile: the loop answers the current event
//! before waiting on the next, and a decode failure in any arm ends the
//! connection.  The unverified shell performs the waiting, the reads and
//! the writes, and carries each returned reply onto the matching channel.

use crate::api::{handle_api_request, spec_api_response};
use crate::bytes::{spec_trim, trim_copy};
use crate::handler::{handle_datagram_message, handle_uni_message};
use crate::stats::{spec_step, ChannelKind, ChannelStats};
use vstd::prelude::*;
use vstd::string::StringSliceAdditionalSpecFns;
use vstd::string::StrSliceExecFns;
use vstd::utf8::{decode_utf8, encode_utf8, valid_utf8};

verus! {

/// One multiplexed event, with the message bytes it delivered.
pub enum ChannelEvent {
    BiMessage(Vec<u8>),
    UniMessage(Vec<u8>),
    DatagramMessage(Vec<u8>),
}

impl ChannelEvent {
    /// The channel kind whose counter this event bumps.
    pub open spec fn kind(&self) -> ChannelKind {
        match *self {
            ChannelEvent::BiMessage(_) => ChannelKind::Bidirectional,
            ChannelEvent::UniMessage(_) => ChannelKind::Unidirectional,
            ChannelEvent::DatagramMessage(_) => ChannelKind::Datagram,
        }
    }
}

/// Where the reply to one event must go.
pub enum Outcome {
    /// Write back on the same bidirectional stream.
    StreamReply(Vec<u8>),
    /// Open a new outbound unidirectional stream and write there.
    OpenUniReply(Vec<u8>),
    /// Send back as an unreliable datagram.
    DatagramReply(Vec<u8>),
}

/// Why an event ends the connection under the serialized policy.
#[derive(Clone, Copy, PartialEq, Eq, Structural, Debug)]
pub enum DispatchError {
    /// The event's bytes are not valid UTF-8.
    InvalidUtf8,
}

/// Handles one event of the command profile: bumps the matching counter,
/// then routes.  A bidirectional message is trimmed of ASCII whitespace
/// and dispatched as a command line against the counters as they stand
/// after the bump; a unidirectional message and a datagram are answered
/// with their fixed acknowledgements.  Bytes that are not valid UTF-8
/// end the connection instead of producing a reply.
pub fn dispatch_api_event(stats: &mut ChannelStats, ev: &ChannelEvent) -> (r: Result<
    Outcome,
    DispatchError,
>)
    requires
        match *ev {
            ChannelEvent::BiMessage(_) => old(stats).bi_streams < u64::MAX,
            ChannelEvent::UniMessage(_) => old(stats).uni_streams < u64::MAX,
            ChannelEvent::DatagramMessage(_) => old(stats).datagrams < u64::MAX,
        },
    ensures
        final(stats).view() == spec_step(old(stats).view(), ev.kind()),
        match *ev {
            ChannelEvent::BiMessage(ref m) => {
                if valid_utf8(spec_trim(m@)) {
                    r matches Ok(Outcome::StreamReply(b)) && b@ == encode_utf8(
                        spec_api_response(
                            decode_utf8(spec_trim(m@)),
                            final(stats).bi_streams,
                            final(stats).uni_streams,
                            final(stats).datagrams,
                        ),
                    )
                } else {
                    r == Err::<Outcome, DispatchError>(DispatchError::InvalidUtf8)
                }
            },
            ChannelEvent::UniMessage(ref m) => {
                if valid_utf8(m@) {
                    r matches Ok(Outcome::OpenUniReply(b)) && b@ == (
                    "ACK from server").spec_bytes()
                } else {
                    r == Err::<Outcome, DispatchError>(DispatchError::InvalidUtf8)
                }
            },
            ChannelEvent::DatagramMessage(ref m) => {
                if valid_utf8(m@) {
                    r matches Ok(Outcome::DatagramReply(b)) && b@ == ("ACK datagram").spec_bytes()
                } else {
                    r == Err::<Outcome, DispatchError>(DispatchError::InvalidUtf8)
                }
            },
        },
{
    match ev {
        ChannelEvent::BiMessage(m) => {
            stats.increment(ChannelKind::Bidirectional);
            let trimmed = trim_copy(m.as_slice());
            match core::str::from_utf8(trimmed.as_slice()) {
                Ok(line) => {
                    let resp = handle_api_request(line, stats);
                    Ok(Outcome::StreamReply(resp.as_str().as_bytes_vec()))
                },
                Err(_) => Err(DispatchError::InvalidUtf8),
            }
        },
        ChannelEvent::UniMessage(m) => {
            stats.increment(ChannelKind::Unidirectional);
            match core::str::from_utf8(m.as_slice()) {
                Ok(_) => Ok(Outcome::OpenUniReply(handle_uni_message())),
                Err(_) => Err(DispatchError::InvalidUtf8),
            }
        },
        ChannelEvent::DatagramMessage(m) => {
            stats.increment(ChannelKind::Datagram);
            match core::str::from_utf8(m.as_slice()) {
                Ok(_) => Ok(Outcome::DatagramReply(handle_datagram_message())),
                Err(_) => Err(DispatchError::InvalidUtf8),
            }
        },
    }
}

} // verus!
