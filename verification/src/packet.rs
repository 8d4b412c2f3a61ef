//! The packet catalog: the fixed set of status-phase packets, each with its
//! numeric ID and its body-encoding rule.

use vstd::prelude::*;
use vstd::utf8::encode_utf8;

use crate::io::{spec_write_long, spec_write_string, spec_write_u16, MinecraftWrite};
use crate::varint::{lemma_varint_bytes_len5, lemma_varint_length_bound, varint_encoding};

verus! {

/// A packet of the wire protocol, with its stable numeric ID.
pub trait Packet {
    /// The packet ID this type carries on the wire.
    spec fn id_spec(&self) -> i32;

    fn get_id(&self) -> (id: i32)
        ensures
            id == self.id_spec(),
    ;
}

/// A packet bound for the server: it knows the exact bytes of its body.
pub trait Out: Packet {
    /// The exact byte sequence of this packet's body.
    spec fn body_spec(&self) -> Seq<u8>;

    /// When the packet is small enough to be framed: the envelope's length
    /// field is a VarInt and must fit an i32.
    spec fn writable(&self) -> bool;

    /// A writable packet's body stays well clear of the i32 limit, leaving
    /// room for the ID's VarInt inside the envelope.
    proof fn lemma_body_bounded(&self)
        requires
            self.writable(),
        ensures
            self.body_spec().len() <= 0x7FFF_FF80,
    ;

    fn write<W: MinecraftWrite>(self, buffer: &mut W)
        requires
            self.writable(),
        ensures
            final (buffer).sink() == old(buffer).sink() + self.body_spec(),
    ;
}

/// The handshake packet: protocol version, the address and port used to
/// connect, and the next-state field, fixed here to 1 for the status phase.
pub struct Handshake {
    pub version: i32,
    pub address: String,
    pub port: u16,
}

impl Handshake {
    /// Constructs a new instance of this packet with the arguments provided.
    pub fn new(version: i32, address: String, port: u16) -> (r: Handshake)
        ensures
            r.version == version,
            r.address@ == address@,
            r.port == port,
    {
        Handshake { version, address, port }
    }
}

impl Packet for Handshake {
    open spec fn id_spec(&self) -> i32 {
        0x00
    }

    fn get_id(&self) -> i32 {
        0x00
    }
}

impl Out for Handshake {
    open spec fn body_spec(&self) -> Seq<u8> {
        varint_encoding(self.version) + spec_write_string(self.address@) + spec_write_u16(
            self.port,
        ) + varint_encoding(1)
    }

    open spec fn writable(&self) -> bool {
        encode_utf8(self.address@).len() <= 0x7FFF_FF00
    }

    proof fn lemma_body_bounded(&self) {
        lemma_varint_length_bound(self.version);
        lemma_varint_length_bound(1);
        lemma_varint_bytes_len5(encode_utf8(self.address@).len());
    }

    fn write<W: MinecraftWrite>(self, buffer: &mut W) {
        let ghost body = self.body_spec();
        buffer.write_varint(self.version);
        buffer.write_string(self.address);
        buffer.write_u16(self.port);
        buffer.write_varint(1);
        assert(buffer.sink() =~= old(buffer).sink() + body);
    }
}

/// The status request packet: an empty body.
pub struct Request;

impl Request {
    pub fn new() -> Request {
        Request {  }
    }
}

impl Packet for Request {
    open spec fn id_spec(&self) -> i32 {
        0x00
    }

    fn get_id(&self) -> i32 {
        0x00
    }
}

impl Out for Request {
    open spec fn body_spec(&self) -> Seq<u8> {
        Seq::<u8>::empty()
    }

    open spec fn writable(&self) -> bool {
        true
    }

    proof fn lemma_body_bounded(&self) {
    }

    fn write<W: MinecraftWrite>(self, buffer: &mut W) {
        assert(buffer.sink() =~= old(buffer).sink() + Seq::<u8>::empty());
    }
}

/// The status ping packet: a signed 64-bit payload, fixed to the -1
/// sentinel since no pong round-trip is timed in the status phase.
pub struct Ping;

impl Ping {
    pub fn new() -> Ping {
        Ping {  }
    }
}

impl Packet for Ping {
    open spec fn id_spec(&self) -> i32 {
        0x01
    }

    fn get_id(&self) -> i32 {
        0x01
    }
}

impl Out for Ping {
    open spec fn body_spec(&self) -> Seq<u8> {
        spec_write_long(-1i64)
    }

    open spec fn writable(&self) -> bool {
        true
    }

    proof fn lemma_body_bounded(&self) {
    }

    fn write<W: MinecraftWrite>(self, buffer: &mut W) {
        buffer.write_long(-1);
    }
}

/// The decoded status record a Response packet's JSON payload describes.
pub struct Response {
    pub version: ServerVersion,
    pub players: ServerPlayers,
    pub favicon: String,
}

/// The player counts of a status record, with an optional sample list.
pub struct ServerPlayers {
    pub max: i32,
    pub online: i32,
    pub sample: Option<Vec<ServerPlayer>>,
}

/// One sampled player: display name and UUID text.
pub struct ServerPlayer {
    pub name: String,
    pub id: String,
}

/// The server's version: display name and protocol number.
pub struct ServerVersion {
    pub name: String,
    pub protocol: u16,
}

impl Packet for Response {
    open spec fn id_spec(&self) -> i32 {
        0x00
    }

    fn get_id(&self) -> i32 {
        0x00
    }
}

} // verus!
