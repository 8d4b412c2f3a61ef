use vstd::prelude::*;

pub mod io;
pub mod packet;
pub mod varint;

use vstd::utf8::encode_utf8;

use crate::io::{
    spec_envelope, spec_write_long, spec_write_string, spec_write_u16, ByteBuffer,
};
use crate::packet::{Handshake, Ping, Request};
use crate::varint::varint_encoding;

verus! {

/// The ways a decode can fail, mirroring the protocol's error taxonomy:
/// a short read, an over-long VarInt, a string that is not UTF-8, and a
/// packet whose ID is not the one the status phase allows.
#[derive(Clone, Copy, Debug, PartialEq, Eq, Structural)]
pub enum McError {
    UnexpectedEof,
    MalformedInput,
    InvalidEncoding,
    ProtocolViolation,
}

/// What the ping session does next, given the outcome of one attempt to
/// read the server's status reply.
pub enum SessionAction {
    /// A non-empty JSON payload arrived: the session is over; the text goes
    /// to the JSON collaborator.
    Complete(String),
    /// The empty-payload signal: wait the backoff interval, then read again.
    RetryAfterDelay,
    /// The connection ran dry mid-message: report "no response", since a
    /// caller cannot tell a downed host from a slow one.
    GiveUp,
    /// A fatal decode error: the stream is desynchronized beyond recovery;
    /// end the session with the error.
    Abort(McError),
}

/// The session's retry-on-empty policy, as a decision on the outcome of one
/// read attempt: a payload completes the session, the empty signal asks for
/// one backoff-and-reread cycle, a short read becomes "no response", and
/// every other error is fatal.
pub fn session_response_action(outcome: Result<Option<String>, McError>) -> (action:
    SessionAction)
    ensures
        match outcome {
            Ok(Some(json)) => action matches SessionAction::Complete(j) && j@ == json@,
            Ok(None) => action matches SessionAction::RetryAfterDelay,
            Err(McError::UnexpectedEof) => action matches SessionAction::GiveUp,
            Err(e) => action matches SessionAction::Abort(e2) && e2 == e,
        },
{
    match outcome {
        Ok(Some(json)) => SessionAction::Complete(json),
        Ok(None) => SessionAction::RetryAfterDelay,
        Err(McError::UnexpectedEof) => SessionAction::GiveUp,
        Err(e) => SessionAction::Abort(e),
    }
}

/// The three framed packets the client sends once the connection is open:
/// Handshake, then Request, then Ping, each framed on its own so the caller
/// can flush them as three independent writes, in that order.
pub fn opening_frames(version: i32, address: String, port: u16) -> (frames: (
    Vec<u8>,
    Vec<u8>,
    Vec<u8>,
))
    requires
        encode_utf8(address@).len() <= 0x7FFF_FF00,
    ensures
        frames.0@ == spec_envelope(
            0x00,
            varint_encoding(version) + spec_write_string(address@) + spec_write_u16(port)
                + varint_encoding(1),
        ),
        frames.1@ == spec_envelope(0x00, Seq::<u8>::empty()),
        frames.2@ == spec_envelope(0x01, spec_write_long(-1i64)),
{
    let mut first = ByteBuffer::new();
    first.write_packet(Handshake::new(version, address, port));
    let mut second = ByteBuffer::new();
    second.write_packet(Request::new());
    let mut third = ByteBuffer::new();
    third.write_packet(Ping::new());
    (first.into_bytes(), second.into_bytes(), third.into_bytes())
}

} // verus!
