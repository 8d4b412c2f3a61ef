//! The byte-level codec: an in-memory byte sink and byte source, and the
//! write/read operations of the wire protocol, each pinned to a spec-level
//! description of the exact bytes it emits or consumes.

use vstd::prelude::*;
use vstd::utf8::{decode_utf8, encode_utf8, valid_utf8};

use crate::packet::{Out, Packet};
use crate::varint::{
    cont_len, lemma_cont_len_bounds, lemma_cont_len_is, lemma_pow128_values,
    lemma_varint_bytes_len5, lemma_varint_length_bound, lemma_varint_value_snoc, pow128,
    spec_read_varint, unsigned32, varint_bytes, varint_encoding, varint_result, varint_value,
};
use crate::McError;

verus! {

/// The unsigned reading of an i64's two's-complement bit pattern.
pub open spec fn unsigned64(v: i64) -> int {
    if v >= 0 {
        v as int
    } else {
        v + 0x1_0000_0000_0000_0000
    }
}

/// The two big-endian bytes of an unsigned 16-bit value.
pub open spec fn spec_write_u16(v: u16) -> Seq<u8> {
    seq![(v / 256) as u8, (v % 256) as u8]
}

/// The eight big-endian bytes of a signed 64-bit value's two's-complement
/// bit pattern.
pub open spec fn spec_write_long(v: i64) -> Seq<u8> {
    let u = unsigned64(v);
    seq![
        (u / 0x100_0000_0000_0000 % 256) as u8,
        (u / 0x1_0000_0000_0000 % 256) as u8,
        (u / 0x100_0000_0000 % 256) as u8,
        (u / 0x1_0000_0000 % 256) as u8,
        (u / 0x100_0000 % 256) as u8,
        (u / 0x1_0000 % 256) as u8,
        (u / 0x100 % 256) as u8,
        (u % 256) as u8,
    ]
}

/// A string on the wire: the byte length of its UTF-8 form as a VarInt,
/// then the UTF-8 bytes, with no terminator.
pub open spec fn spec_write_string(cs: Seq<char>) -> Seq<u8> {
    varint_bytes(encode_utf8(cs).len()) + encode_utf8(cs)
}

/// The envelope wrapping a packet on the wire: the byte count of
/// `VarInt(id) ++ body` as a VarInt, then those bytes themselves.
pub open spec fn spec_envelope(id: i32, body: Seq<u8>) -> Seq<u8> {
    varint_bytes((varint_encoding(id) + body).len()) + (varint_encoding(id) + body)
}

/// An in-memory byte sink: everything written to it is appended to `data`.
pub struct ByteBuffer {
    pub data: Vec<u8>,
}

/// A sink for the wire protocol's primitives. Every write appends exactly
/// the bytes the matching spec function describes.
pub trait MinecraftWrite: Sized {
    /// The bytes written to this sink so far.
    spec fn sink(&self) -> Seq<u8>;

    fn write_varint(&mut self, value: i32)
        ensures
            final (self).sink() == old(self).sink() + varint_encoding(value),
    ;

    fn write_long(&mut self, value: i64)
        ensures
            final (self).sink() == old(self).sink() + spec_write_long(value),
    ;

    fn write_string(&mut self, value: String)
        requires
            encode_utf8(value@).len() <= 0x7FFF_FFFF,
        ensures
            final (self).sink() == old(self).sink() + spec_write_string(value@),
    ;

    fn write_u16(&mut self, value: u16)
        ensures
            final (self).sink() == old(self).sink() + spec_write_u16(value),
    ;
}

impl ByteBuffer {
    pub fn new() -> (r: ByteBuffer)
        ensures
            r.data@ == Seq::<u8>::empty(),
    {
        ByteBuffer { data: Vec::new() }
    }

    /// Hands out the accumulated bytes.
    pub fn into_bytes(self) -> (r: Vec<u8>)
        ensures
            r@ == self.data@,
    {
        self.data
    }

    /// Appends a byte slice whole, as a blocking write-all would.
    fn push_bytes(&mut self, bytes: &[u8])
        ensures
            final (self).data@ == old(self).data@ + bytes@,
    {
        let mut i: usize = 0;
        while i < bytes.len()
            invariant
                i <= bytes.len(),
                self.data@ =~= old(self).data@ + bytes@.take(i as int),
            decreases bytes.len() - i,
        {
            self.data.push(bytes[i]);
            i = i + 1;
            assert(bytes@.take(i as int) =~= bytes@.take(i as int - 1).push(bytes@[i as int - 1]));
        }
        assert(bytes@.take(bytes@.len() as int) =~= bytes@);
    }

    /// Frames one outbound packet: the packet ID's VarInt and the body are
    /// buffered first, so their combined byte count can be written as the
    /// envelope's leading VarInt before any of them.
    pub fn write_packet<T: Packet + Out>(&mut self, packet: T)
        requires
            packet.writable(),
        ensures
            final (self).data@ == old(self).data@ + spec_envelope(
                packet.id_spec(),
                packet.body_spec(),
            ),
    {
        let ghost id = packet.id_spec();
        let ghost body = packet.body_spec();
        let mut buffer = ByteBuffer::new();
        buffer.write_varint(packet.get_id());
        packet.write(&mut buffer);
        proof {
            packet.lemma_body_bounded();
            lemma_varint_length_bound(id);
            assert(buffer.data@ =~= varint_encoding(id) + body);
        }
        let n = buffer.data.len();
        self.write_varint(n as i32);
        self.push_bytes(buffer.data.as_slice());
        proof {
            assert(unsigned32(n as i32) == (varint_encoding(id) + body).len());
            assert(self.data@ =~= old(self).data@ + spec_envelope(id, body));
        }
    }
}

impl MinecraftWrite for ByteBuffer {
    open spec fn sink(&self) -> Seq<u8> {
        self.data@
    }

    fn write_varint(&mut self, value: i32) {
        let mut u: u32 = if value >= 0 {
            value as u32
        } else {
            ((value as i64) + 0x1_0000_0000i64) as u32
        };
        assert(u as int == unsigned32(value));
        let ghost n0: nat = u as nat;
        while u >= 128
            invariant
                old(self).data@ + varint_bytes(n0) =~= self.data@ + varint_bytes(u as nat),
            decreases u,
        {
            let b: u8 = (u % 128) as u8 + 128;
            proof {
                assert(varint_bytes(u as nat) == seq![b] + varint_bytes((u / 128) as nat));
            }
            self.data.push(b);
            u = u / 128;
            assert(old(self).data@ + varint_bytes(n0) =~= self.data@ + varint_bytes(u as nat));
        }
        proof {
            assert(varint_bytes(u as nat) == seq![u as u8]);
        }
        self.data.push(u as u8);
        assert(self.data@ =~= old(self).data@ + varint_bytes(n0));
    }

    fn write_long(&mut self, value: i64) {
        let u: u64 = if value >= 0 {
            value as u64
        } else {
            ((value as i128) + 0x1_0000_0000_0000_0000i128) as u64
        };
        assert(u as int == unsigned64(value));
        self.data.push((u / 0x100_0000_0000_0000 % 256) as u8);
        self.data.push((u / 0x1_0000_0000_0000 % 256) as u8);
        self.data.push((u / 0x100_0000_0000 % 256) as u8);
        self.data.push((u / 0x1_0000_0000 % 256) as u8);
        self.data.push((u / 0x100_0000 % 256) as u8);
        self.data.push((u / 0x1_0000 % 256) as u8);
        self.data.push((u / 0x100 % 256) as u8);
        self.data.push((u % 256) as u8);
        assert(self.data@ =~= old(self).data@ + spec_write_long(value));
    }

    fn write_string(&mut self, value: String) {
        let bytes = value.as_str().as_bytes();
        self.write_varint(bytes.len() as i32);
        self.push_bytes(bytes);
        assert(self.data@ =~= old(self).data@ + spec_write_string(value@));
    }

    fn write_u16(&mut self, value: u16) {
        self.data.push((value / 256) as u8);
        self.data.push((value % 256) as u8);
        assert(self.data@ =~= old(self).data@ + spec_write_u16(value));
    }

}

/// The unsigned reading of the first two bytes of `s`, big-endian.
pub open spec fn be16_value(s: Seq<u8>) -> int {
    s[0] * 0x100 + s[1]
}

/// The unsigned reading of the first eight bytes of `s`, big-endian.
pub open spec fn be64_value(s: Seq<u8>) -> int {
    s[0] * 0x100_0000_0000_0000 + s[1] * 0x1_0000_0000_0000 + s[2] * 0x100_0000_0000 + s[3]
        * 0x1_0000_0000 + s[4] * 0x100_0000 + s[5] * 0x1_0000 + s[6] * 0x100 + s[7]
}

/// The i64 whose two's-complement bit pattern reads as `n`, for n in [0, 2^64).
pub open spec fn signed64(n: int) -> int {
    if n < 0x8000_0000_0000_0000 {
        n
    } else {
        n - 0x1_0000_0000_0000_0000
    }
}

/// What reading a fixed two-byte big-endian value yields: the value and two
/// consumed bytes, or a short read that consumes nothing.
pub open spec fn spec_read_u16(s: Seq<u8>) -> (Result<u16, McError>, int) {
    if s.len() >= 2 {
        (Ok(be16_value(s) as u16), 2)
    } else {
        (Err(McError::UnexpectedEof), 0)
    }
}

/// What reading a fixed eight-byte big-endian signed value yields.
pub open spec fn spec_read_long(s: Seq<u8>) -> (Result<i64, McError>, int) {
    if s.len() >= 8 {
        (Ok(signed64(be64_value(s)) as i64), 8)
    } else {
        (Err(McError::UnexpectedEof), 0)
    }
}

/// What reading a VarInt-length-prefixed byte run yields: the raw bytes and
/// how many bytes of `s` were consumed. A negative length, or one running
/// past the input, is a short read that stops right after the prefix.
pub open spec fn spec_read_string_bytes(s: Seq<u8>) -> (Result<Seq<u8>, McError>, int) {
    let (rv, c) = spec_read_varint(s);
    match rv {
        Err(e) => (Err(e), c),
        Ok(n) => if n < 0 || c + n > s.len() {
            (Err(McError::UnexpectedEof), c)
        } else {
            (Ok(s.subrange(c, c + n)), c + n)
        },
    }
}

/// What reading a wire string yields: the UTF-8 bytes of the string, or an
/// encoding error when the prefixed run is not valid UTF-8.
pub open spec fn spec_read_string(s: Seq<u8>) -> (Result<Seq<u8>, McError>, int) {
    let (rb, c) = spec_read_string_bytes(s);
    match rb {
        Err(e) => (Err(e), c),
        Ok(b) => if valid_utf8(b) {
            (Ok(b), c)
        } else {
            (Err(McError::InvalidEncoding), c)
        },
    }
}

/// What unwrapping one envelope yields: the embedded packet ID and the body
/// bytes after it. The declared length is read first; exactly that many
/// bytes form the envelope, and the ID's VarInt is re-parsed out of them.
pub open spec fn spec_read_packet(s: Seq<u8>) -> (Result<(i32, Seq<u8>), McError>, int) {
    let (rl, c) = spec_read_varint(s);
    match rl {
        Err(e) => (Err(e), c),
        Ok(n) => if n < 0 || c + n > s.len() {
            (Err(McError::UnexpectedEof), c)
        } else {
            let env = s.subrange(c, c + n);
            let (ri, c2) = spec_read_varint(env);
            match ri {
                Err(e) => (Err(e), c + n),
                Ok(id) => (Ok((id, env.skip(c2))), c + n),
            }
        },
    }
}

/// What one attempt to take the server's status reply yields: the JSON
/// payload's UTF-8 bytes, `None` for the empty-payload "try again" signal,
/// or the error class the attempt died of. Only packet ID 0x00 is accepted.
pub open spec fn spec_receive(s: Seq<u8>) -> (Result<Option<Seq<u8>>, McError>, int) {
    let (rp, c) = spec_read_packet(s);
    match rp {
        Err(e) => (Err(e), c),
        Ok(p) => if p.0 != 0x00 {
            (Err(McError::ProtocolViolation), c)
        } else {
            let (rs, _c2) = spec_read_string(p.1);
            match rs {
                Err(e) => (Err(e), c),
                Ok(b) => if b.len() == 0 {
                    (Ok(None), c)
                } else {
                    (Ok(Some(b)), c)
                },
            }
        },
    }
}

/// Law: reading a wire string from a written one, whatever follows it,
/// consumes exactly the written bytes and yields the same character
/// sequence back.
pub proof fn lemma_string_round_trip(cs: Seq<char>, tail: Seq<u8>)
    requires
        encode_utf8(cs).len() <= 0x7FFF_FFFF,
    ensures
        spec_read_string(spec_write_string(cs) + tail) == (
            Result::<Seq<u8>, McError>::Ok(encode_utf8(cs)),
            spec_write_string(cs).len() as int,
        ),
        decode_utf8(encode_utf8(cs)) == cs,
{
    let bytes = encode_utf8(cs);
    let len: i32 = bytes.len() as i32;
    let s = spec_write_string(cs) + tail;
    crate::varint::lemma_varint_round_trip(len, bytes + tail);
    assert(varint_encoding(len) == varint_bytes(bytes.len()));
    assert(s =~= varint_encoding(len) + (bytes + tail));
    let c = spec_read_varint(s).1;
    assert(c == varint_encoding(len).len());
    assert(s.subrange(c, c + len as int) =~= bytes);
    vstd::utf8::encode_utf8_valid_utf8(cs);
    vstd::utf8::encode_utf8_decode_utf8(cs);
    assert(spec_write_string(cs).len() == c + len as int);
}

/// Law: unwrapping a written envelope, whatever follows it, consumes
/// exactly the envelope and yields the packet ID and body that were
/// framed; and the envelope's length prefix carries the byte count of
/// `VarInt(id) ++ body`.
pub proof fn lemma_packet_round_trip(id: i32, body: Seq<u8>, tail: Seq<u8>)
    requires
        body.len() <= 0x7FFF_FF80,
    ensures
        spec_read_packet(spec_envelope(id, body) + tail) == (
            Result::<(i32, Seq<u8>), McError>::Ok((id, body)),
            spec_envelope(id, body).len() as int,
        ),
        spec_envelope(id, body) == varint_bytes((varint_encoding(id).len() + body.len()) as nat)
            + varint_encoding(id) + body,
        varint_value(varint_bytes((varint_encoding(id).len() + body.len()) as nat))
            == varint_encoding(id).len() + body.len(),
{
    let inner = varint_encoding(id) + body;
    lemma_varint_length_bound(id);
    let len: i32 = inner.len() as i32;
    let s = spec_envelope(id, body) + tail;
    crate::varint::lemma_varint_round_trip(len, inner + tail);
    assert(varint_encoding(len) == varint_bytes(inner.len()));
    assert(s =~= varint_encoding(len) + (inner + tail));
    let c = spec_read_varint(s).1;
    assert(c == varint_encoding(len).len());
    assert(s.subrange(c, c + len as int) =~= inner);
    crate::varint::lemma_varint_round_trip(id, body);
    assert(inner.skip(varint_encoding(id).len() as int) =~= body);
    assert(spec_envelope(id, body).len() == c + len as int);
    assert(spec_envelope(id, body) =~= varint_bytes(
        (varint_encoding(id).len() + body.len()) as nat,
    ) + varint_encoding(id) + body);
    crate::varint::lemma_varint_value_of_encoding((varint_encoding(id).len() + body.len()) as nat);
}

/// Law: reading a two-byte value back from its written form, whatever
/// follows it, yields the u16 that was written.
pub proof fn lemma_u16_round_trip(v: u16, tail: Seq<u8>)
    ensures
        spec_read_u16(spec_write_u16(v) + tail) == (Result::<u16, McError>::Ok(v), 2int),
{
    let s = spec_write_u16(v) + tail;
    assert(s[0] == (v / 256) as u8);
    assert(s[1] == (v % 256) as u8);
}

/// Base-256 digits rebuild the value they were cut from.
proof fn lemma_be64_decompose(u: u64)
    ensures
        (u / 0x100_0000_0000_0000 % 256) * 0x100_0000_0000_0000 + (u / 0x1_0000_0000_0000 % 256)
            * 0x1_0000_0000_0000 + (u / 0x100_0000_0000 % 256) * 0x100_0000_0000 + (u
            / 0x1_0000_0000 % 256) * 0x1_0000_0000 + (u / 0x100_0000 % 256) * 0x100_0000 + (u
            / 0x1_0000 % 256) * 0x1_0000 + (u / 0x100 % 256) * 0x100 + u % 256 == u,
{
    assert((u / 0x100_0000_0000_0000 % 256) * 0x100_0000_0000_0000 + (u / 0x1_0000_0000_0000
        % 256) * 0x1_0000_0000_0000 + (u / 0x100_0000_0000 % 256) * 0x100_0000_0000 + (u
        / 0x1_0000_0000 % 256) * 0x1_0000_0000 + (u / 0x100_0000 % 256) * 0x100_0000 + (u
        / 0x1_0000 % 256) * 0x1_0000 + (u / 0x100 % 256) * 0x100 + u % 256 == u) by (bit_vector);
}

/// Law: reading an eight-byte value back from its written form, whatever
/// follows it, yields the i64 that was written.
pub proof fn lemma_long_round_trip(v: i64, tail: Seq<u8>)
    ensures
        spec_read_long(spec_write_long(v) + tail) == (Result::<i64, McError>::Ok(v), 8int),
{
    let u = unsigned64(v);
    let s = spec_write_long(v) + tail;
    assert(s.len() >= 8);
    assert forall|i: int| 0 <= i < 8 implies s[i] == spec_write_long(v)[i] by {}
    lemma_be64_decompose(u as u64);
    assert(be64_value(s) == u);
    assert(signed64(u) == v);
}

/// An in-memory byte source: reads consume `data` from the front, as a
/// blocking stream hands bytes out in order.
pub struct ByteReader {
    pub data: Vec<u8>,
}

/// A source for the wire protocol's primitives. Every read consumes exactly
/// the bytes the matching spec function describes and returns the value or
/// error it names.
pub trait MinecraftRead: Sized {
    /// The bytes not yet consumed.
    spec fn source(&self) -> Seq<u8>;

    fn read_varint(&mut self) -> (r: Result<i32, McError>)
        ensures
            ({
                let (r0, c) = spec_read_varint(old(self).source());
                &&& r == r0
                &&& final (self).source() == old(self).source().skip(c)
            }),
    ;

    fn read_u16(&mut self) -> (r: Result<u16, McError>)
        ensures
            ({
                let (r0, c) = spec_read_u16(old(self).source());
                &&& r == r0
                &&& final (self).source() == old(self).source().skip(c)
            }),
    ;

    fn read_long(&mut self) -> (r: Result<i64, McError>)
        ensures
            ({
                let (r0, c) = spec_read_long(old(self).source());
                &&& r == r0
                &&& final (self).source() == old(self).source().skip(c)
            }),
    ;

    fn read_string(&mut self) -> (r: Result<String, McError>)
        ensures
            ({
                let (r0, c) = spec_read_string(old(self).source());
                &&& final (self).source() == old(self).source().skip(c)
                &&& match r0 {
                    Ok(b) => r matches Ok(s) && s@ == decode_utf8(b) && valid_utf8(b),
                    Err(e) => r matches Err(e2) && e2 == e,
                }
            }),
    ;

    /// One attempt to read the server's status reply: `Ok(Some(json))` for a
    /// non-empty payload, `Ok(None)` for the empty-payload "try again"
    /// signal, and an error for anything the protocol does not allow. The
    /// caller owns the retry loop.
    fn receive(&mut self) -> (r: Result<Option<String>, McError>)
        ensures
            ({
                let (r0, c) = spec_receive(old(self).source());
                &&& final (self).source() == old(self).source().skip(c)
                &&& match r0 {
                    Ok(Some(b)) => r matches Ok(s) && s matches Some(st) && st@ == decode_utf8(b)
                        && valid_utf8(b) && b.len() > 0,
                    Ok(None) => r matches Ok(s) && s matches None,
                    Err(e) => r matches Err(e2) && e2 == e,
                }
            }),
    ;
}

/// Relies on std's String::from_utf8: when the bytes are valid UTF-8 it
/// returns the string they encode (from_utf8 is documented as the inverse
/// of into_bytes), and otherwise an error.
#[verifier::external_body]
fn bytes_to_string(bytes: Vec<u8>) -> (r: Result<String, McError>)
    ensures
        match r {
            Ok(s) => valid_utf8(bytes@) && s@ == decode_utf8(bytes@),
            Err(e) => !valid_utf8(bytes@) && e == McError::InvalidEncoding,
        },
{
    match String::from_utf8(bytes) {
        Ok(s) => Ok(s),
        Err(_) => Err(McError::InvalidEncoding),
    }
}

impl ByteReader {
    pub fn new(data: Vec<u8>) -> (r: ByteReader)
        ensures
            r.data@ == data@,
    {
        ByteReader { data }
    }

    /// Hands out the bytes not yet consumed.
    pub fn into_bytes(self) -> (r: Vec<u8>)
        ensures
            r@ == self.data@,
    {
        self.data
    }

    /// Takes the next byte, as a blocking read-exact of one byte would.
    fn read_byte(&mut self) -> (r: Result<u8, McError>)
        ensures
            old(self).data@.len() > 0 ==> r == Ok::<u8, McError>(old(self).data@[0]),
            old(self).data@.len() > 0 ==> final (self).data@ == old(self).data@.skip(1),
            old(self).data@.len() == 0 ==> r == Err::<u8, McError>(McError::UnexpectedEof),
            old(self).data@.len() == 0 ==> final (self).data@ == old(self).data@,
    {
        if self.data.len() == 0 {
            Err(McError::UnexpectedEof)
        } else {
            let b = self.data.remove(0);
            proof {
                assert(old(self).data@.remove(0) =~= old(self).data@.skip(1));
            }
            Ok(b)
        }
    }

    /// Takes the next `n` bytes whole, as a blocking read-exact would.
    fn take_front(&mut self, n: usize) -> (r: Vec<u8>)
        requires
            n <= old(self).data@.len(),
        ensures
            r@ == old(self).data@.take(n as int),
            final (self).data@ == old(self).data@.skip(n as int),
    {
        let mut out: Vec<u8> = Vec::new();
        let mut i: usize = 0;
        while i < n
            invariant
                i <= n,
                n <= old(self).data@.len(),
                out@ =~= old(self).data@.take(i as int),
                self.data@ =~= old(self).data@.skip(i as int),
            decreases n - i,
        {
            let b = self.data.remove(0);
            proof {
                assert(self.data@ =~= old(self).data@.skip(i as int).remove(0));
                assert(old(self).data@.skip(i as int).remove(0) =~= old(self).data@.skip(
                    i as int + 1,
                ));
                assert(old(self).data@.skip(i as int)[0] == old(self).data@[i as int]);
            }
            out.push(b);
            i = i + 1;
            proof {
                assert(out@ =~= old(self).data@.take(i as int));
            }
        }
        out
    }

    /// Unwraps one envelope: reads the declared length, takes exactly that
    /// many bytes, and re-parses their front as the packet ID's VarInt,
    /// leaving the rest as the body.
    pub fn read_packet(&mut self) -> (r: Result<(i32, Vec<u8>), McError>)
        ensures
            ({
                let (r0, c) = spec_read_packet(old(self).data@);
                &&& final (self).data@ == old(self).data@.skip(c)
                &&& match r0 {
                    Ok(p) => r matches Ok(q) && q.0 == p.0 && q.1@ == p.1,
                    Err(e) => r matches Err(e2) && e2 == e,
                }
            }),
    {
        let ghost s = self.data@;
        let n = match self.read_varint() {
            Ok(v) => v,
            Err(e) => {
                return Err(e);
            },
        };
        proof {
            lemma_cont_len_bounds(s);
        }
        if n < 0 {
            return Err(McError::UnexpectedEof);
        }
        if (n as usize) > self.data.len() {
            return Err(McError::UnexpectedEof);
        }
        let ghost c = spec_read_varint(s).1;
        let env = self.take_front(n as usize);
        proof {
            assert(env@ =~= s.subrange(c, c + n as int));
            assert(self.data@ =~= s.skip(c + n as int));
        }
        let mut er = ByteReader::new(env);
        let id = match er.read_varint() {
            Ok(v) => v,
            Err(e) => {
                return Err(e);
            },
        };
        let body = er.into_bytes();
        proof {
            let c2 = spec_read_varint(s.subrange(c, c + n as int)).1;
            assert(body@ == s.subrange(c, c + n as int).skip(c2));
        }
        Ok((id, body))
    }

    /// Reads a VarInt-length-prefixed byte run whole.
    fn read_string_bytes(&mut self) -> (r: Result<Vec<u8>, McError>)
        ensures
            ({
                let (r0, c) = spec_read_string_bytes(old(self).data@);
                &&& final (self).data@ == old(self).data@.skip(c)
                &&& match r0 {
                    Ok(b) => r matches Ok(v) && v@ == b,
                    Err(e) => r matches Err(e2) && e2 == e,
                }
            }),
    {
        let ghost s = self.data@;
        let n = match self.read_varint() {
            Ok(v) => v,
            Err(e) => {
                return Err(e);
            },
        };
        proof {
            lemma_cont_len_bounds(s);
        }
        if n < 0 {
            return Err(McError::UnexpectedEof);
        }
        if (n as usize) > self.data.len() {
            return Err(McError::UnexpectedEof);
        }
        let ghost c = spec_read_varint(s).1;
        let run = self.take_front(n as usize);
        proof {
            assert(run@ =~= s.subrange(c, c + n as int));
            assert(self.data@ =~= s.skip(c + n as int));
        }
        Ok(run)
    }
}

impl MinecraftRead for ByteReader {
    open spec fn source(&self) -> Seq<u8> {
        self.data@
    }

    fn read_varint(&mut self) -> (r: Result<i32, McError>) {
        let ghost s = self.data@;
        proof {
            lemma_pow128_values();
            lemma_cont_len_bounds(s);
        }
        let mut acc: u64 = 0;
        let mut mult: u64 = 1;
        let mut count: usize = 0;
        loop
            invariant
                old(self).data@ == s,
                count <= 5,
                count as int <= s.len(),
                self.data@ == s.skip(count as int),
                forall|j: int| 0 <= j < count ==> s[j] >= 128,
                acc == varint_value(s.take(count as int)),
                mult == pow128(count as nat),
                0 <= acc < mult,
                mult <= 0x8_0000_0000,
                cont_len(s) >= count || cont_len(s) == s.len(),
            decreases s.len() - count,
        {
            proof {
                lemma_cont_len_bounds(s);
            }
            let b = match self.read_byte() {
                Ok(b) => b,
                Err(_) => {
                    proof {
                        assert(count as int == s.len());
                        assert(cont_len(s) == s.len()) by {
                            lemma_cont_len_bounds(s);
                            if cont_len(s) < s.len() {
                                assert(s[cont_len(s)] >= 128);
                            }
                        }
                        assert(self.data@ == s.skip(s.len() as int));
                    }
                    return Err(McError::UnexpectedEof);
                },
            };
            count = count + 1;
            if count > 5 {
                proof {
                    assert(s.len() >= 6);
                    assert(cont_len(s) >= 5) by {
                        lemma_cont_len_bounds(s);
                        if cont_len(s) < 5 {
                            assert(s[cont_len(s)] >= 128);
                        }
                    }
                    assert(self.data@ == s.skip(5).skip(1));
                    assert(s.skip(5).skip(1) =~= s.skip(6));
                }
                return Err(McError::MalformedInput);
            }
            proof {
                lemma_varint_value_snoc(s.take(count as int - 1), b);
                assert(s.take(count as int) =~= s.take(count as int - 1).push(
                    s[count as int - 1],
                ));
                assert(b == s[count as int - 1]);
                assert((b % 128) * mult <= 127 * mult) by (nonlinear_arith)
                    requires
                        b % 128 <= 127,
                        mult >= 0,
                {}
                assert(pow128((count - 1) as nat) * 128 == pow128(count as nat));
                assert(self.data@ == s.skip(count as int - 1).skip(1));
                assert(s.skip(count as int - 1).skip(1) =~= s.skip(count as int));
            }
            acc = acc + ((b % 128) as u64) * mult;
            if b < 128 {
                proof {
                    lemma_cont_len_is(s, count as int - 1);
                }
                let masked: u64 = acc % 0x1_0000_0000;
                let r: i32 = if masked < 0x8000_0000 {
                    masked as i32
                } else {
                    ((masked as i64) - 0x1_0000_0000i64) as i32
                };
                proof {
                    assert(r == varint_result(s.take(count as int)));
                }
                return Ok(r);
            }
            proof {
                lemma_pow128_values();
                assert(mult * 128 == pow128(count as nat));
                assert(acc < mult * 128);
                assert(pow128(count as nat) <= pow128(5)) by {
                    if count == 1 {
                    } else if count == 2 {
                    } else if count == 3 {
                    } else if count == 4 {
                    } else {
                        assert(count == 5);
                    }
                    reveal_with_fuel(pow128, 6);
                }
            }
            mult = mult * 128;
        }
    }

    fn read_u16(&mut self) -> (r: Result<u16, McError>) {
        if self.data.len() < 2 {
            return Err(McError::UnexpectedEof);
        }
        let b = self.take_front(2);
        let v: u16 = (b[0] as u16) * 0x100 + (b[1] as u16);
        proof {
            assert(b@[0] == old(self).data@[0]);
            assert(b@[1] == old(self).data@[1]);
        }
        Ok(v)
    }

    fn read_long(&mut self) -> (r: Result<i64, McError>) {
        if self.data.len() < 8 {
            return Err(McError::UnexpectedEof);
        }
        let b = self.take_front(8);
        let u: u64 = (b[0] as u64) * 0x100_0000_0000_0000 + (b[1] as u64) * 0x1_0000_0000_0000 + (
        b[2] as u64) * 0x100_0000_0000 + (b[3] as u64) * 0x1_0000_0000 + (b[4] as u64) * 0x100_0000
            + (b[5] as u64) * 0x1_0000 + (b[6] as u64) * 0x100 + (b[7] as u64);
        proof {
            assert forall|i: int| 0 <= i < 8 implies b@[i] == old(self).data@[i] by {}
            assert(u == be64_value(old(self).data@));
        }
        let v: i64 = if u < 0x8000_0000_0000_0000 {
            u as i64
        } else {
            ((u as i128) - 0x1_0000_0000_0000_0000i128) as i64
        };
        Ok(v)
    }

    fn read_string(&mut self) -> (r: Result<String, McError>) {
        let bytes = match self.read_string_bytes() {
            Ok(b) => b,
            Err(e) => {
                return Err(e);
            },
        };
        bytes_to_string(bytes)
    }

    fn receive(&mut self) -> (r: Result<Option<String>, McError>) {
        let ghost s = self.data@;
        let (id, body) = match self.read_packet() {
            Ok(p) => p,
            Err(e) => {
                return Err(e);
            },
        };
        if id != 0x00 {
            return Err(McError::ProtocolViolation);
        }
        let mut br = ByteReader::new(body);
        let bytes = match br.read_string_bytes() {
            Ok(b) => b,
            Err(e) => {
                return Err(e);
            },
        };
        if bytes.len() == 0 {
            proof {
                assert(valid_utf8(Seq::<u8>::empty()));
                assert(bytes@ =~= Seq::<u8>::empty());
            }
            return Ok(None);
        }
        match bytes_to_string(bytes) {
            Ok(st) => Ok(Some(st)),
            Err(e) => Err(e),
        }
    }
}

} // verus!
