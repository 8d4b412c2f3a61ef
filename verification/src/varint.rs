//! The VarInt codec's mathematical model: the byte sequence an i32 encodes
//! to, the value a byte sequence decodes to, and the laws tying the two
//! together.

use vstd::prelude::*;

use crate::McError;

verus! {

/// The unsigned reading of an i32's two's-complement bit pattern.
pub open spec fn unsigned32(v: i32) -> int {
    if v >= 0 {
        v as int
    } else {
        v + 0x1_0000_0000
    }
}

/// The i32 whose two's-complement bit pattern reads as `n`, for n in [0, 2^32).
pub open spec fn signed32(n: int) -> int {
    if n < 0x8000_0000 {
        n
    } else {
        n - 0x1_0000_0000
    }
}

/// The VarInt encoding of an unsigned value: seven payload bits per byte,
/// least-significant group first, the high bit marking continuation.
pub open spec fn varint_bytes(n: nat) -> Seq<u8>
    decreases n,
{
    if n < 128 {
        seq![n as u8]
    } else {
        seq![(n % 128 + 128) as u8] + varint_bytes(n / 128)
    }
}

/// The VarInt encoding of an i32, over its two's-complement bit pattern.
pub open spec fn varint_encoding(v: i32) -> Seq<u8> {
    varint_bytes(unsigned32(v) as nat)
}

/// The unsigned value a byte sequence carries when every byte is read as a
/// seven-bit group, least-significant first.
pub open spec fn varint_value(s: Seq<u8>) -> int
    decreases s.len(),
{
    if s.len() == 0 {
        0
    } else {
        s[0] % 128 + 128 * varint_value(s.skip(1))
    }
}

/// How many leading bytes of `s` have their continuation bit set.
pub open spec fn cont_len(s: Seq<u8>) -> int
    decreases s.len(),
{
    if s.len() == 0 {
        0
    } else if s[0] < 128 {
        0
    } else {
        1 + cont_len(s.skip(1))
    }
}

/// 128 raised to the k-th power.
pub open spec fn pow128(k: nat) -> int
    decreases k,
{
    if k == 0 {
        1
    } else {
        128 * pow128((k - 1) as nat)
    }
}

/// The i32 a full VarInt byte group decodes to: the accumulated value,
/// truncated to 32 bits and then read as signed.
pub open spec fn varint_result(s: Seq<u8>) -> i32 {
    signed32(varint_value(s) % 0x1_0000_0000) as i32
}

/// What reading one VarInt from the front of `s` yields, and how many bytes
/// it consumes: the first byte without a continuation bit ends the group; a
/// group that would run past five bytes is malformed; running out of input
/// first is a short read.
pub open spec fn spec_read_varint(s: Seq<u8>) -> (Result<i32, McError>, int) {
    let k = cont_len(s);
    if k <= 4 && k < s.len() {
        (Ok(varint_result(s.take(k + 1))), k + 1)
    } else if k >= 5 && s.len() >= 6 {
        (Err(McError::MalformedInput), 6)
    } else {
        (Err(McError::UnexpectedEof), s.len() as int)
    }
}

pub proof fn lemma_pow128_values()
    ensures
        pow128(0) == 1,
        pow128(1) == 128,
        pow128(5) == 0x8_0000_0000,
{
    reveal_with_fuel(pow128, 6);
}

/// A value below 128^k encodes in at most k bytes.
proof fn lemma_varint_bytes_len_bound(n: nat, k: nat)
    requires
        1 <= k,
        n < pow128(k),
    ensures
        varint_bytes(n).len() <= k,
    decreases k,
{
    reveal_with_fuel(pow128, 2);
    if k == 1 {
        assert(n < 128);
    } else if n < 128 {
    } else {
        assert(pow128(k) == 128 * pow128((k - 1) as nat));
        assert(n / 128 < pow128((k - 1) as nat)) by (nonlinear_arith)
            requires
                n < 128 * pow128((k - 1) as nat),
                pow128((k - 1) as nat) >= 0,
        {}
        lemma_varint_bytes_len_bound(n / 128, (k - 1) as nat);
    }
}

/// Any value below 2^32 encodes in one to five bytes.
pub proof fn lemma_varint_bytes_len5(n: nat)
    requires
        n < 0x1_0000_0000,
    ensures
        1 <= varint_bytes(n).len() <= 5,
{
    lemma_pow128_values();
    lemma_varint_bytes_len_bound(n, 5);
}

/// Law: every i32 encodes to between one and five bytes.
pub proof fn lemma_varint_length_bound(v: i32)
    ensures
        1 <= varint_encoding(v).len() <= 5,
{
    lemma_varint_bytes_len5(unsigned32(v) as nat);
}

/// Decoding an encoding gives back the value that was encoded.
pub proof fn lemma_varint_value_of_encoding(n: nat)
    ensures
        varint_value(varint_bytes(n)) == n,
    decreases n,
{
    if n < 128 {
        assert(varint_bytes(n) == seq![n as u8]);
        assert(seq![n as u8].skip(1) =~= Seq::<u8>::empty());
        assert(varint_value(Seq::<u8>::empty()) == 0);
        assert(varint_value(seq![n as u8]) == (n as u8) % 128 + 128 * varint_value(
            seq![n as u8].skip(1),
        ));
    } else {
        lemma_varint_value_of_encoding(n / 128);
        let first = (n % 128 + 128) as u8;
        let rest = varint_bytes(n / 128);
        assert(varint_bytes(n) == seq![first] + rest);
        assert((seq![first] + rest).skip(1) =~= rest);
        assert((seq![first] + rest)[0] == first);
        assert(varint_value(seq![first] + rest) == first % 128 + 128 * varint_value(rest));
        assert(first % 128 == n % 128);
    }
}

/// In an encoding, every byte but the last carries the continuation bit,
/// and the last does not.
proof fn lemma_varint_bytes_shape(n: nat)
    ensures
        forall|i: int| 0 <= i < varint_bytes(n).len() - 1 ==> varint_bytes(n)[i] >= 128,
        varint_bytes(n)[varint_bytes(n).len() - 1] < 128,
    decreases n,
{
    if n < 128 {
    } else {
        lemma_varint_bytes_shape(n / 128);
        let first = (n % 128 + 128) as u8;
        let rest = varint_bytes(n / 128);
        assert(varint_bytes(n) == seq![first] + rest);
        assert forall|i: int| 0 <= i < varint_bytes(n).len() - 1 implies varint_bytes(n)[i]
            >= 128 by {
            if i > 0 {
                assert(varint_bytes(n)[i] == rest[i - 1]);
            }
        }
        assert(varint_bytes(n)[varint_bytes(n).len() - 1] == rest[rest.len() - 1]);
    }
}

/// `cont_len` is the index of the first byte without a continuation bit.
pub proof fn lemma_cont_len_bounds(s: Seq<u8>)
    ensures
        0 <= cont_len(s) <= s.len(),
        forall|i: int| 0 <= i < cont_len(s) ==> s[i] >= 128,
        cont_len(s) < s.len() ==> s[cont_len(s)] < 128,
    decreases s.len(),
{
    if s.len() == 0 {
    } else if s[0] < 128 {
    } else {
        lemma_cont_len_bounds(s.skip(1));
        assert forall|i: int| 0 <= i < cont_len(s) implies s[i] >= 128 by {
            if i > 0 {
                assert(s.skip(1)[i - 1] == s[i]);
            }
        }
        if cont_len(s) < s.len() {
            assert(s[cont_len(s)] == s.skip(1)[cont_len(s) - 1]);
        }
    }
}

/// If the bytes before index j all carry the continuation bit and the byte
/// at j does not, then j is where the first VarInt group ends.
pub proof fn lemma_cont_len_is(s: Seq<u8>, j: int)
    requires
        0 <= j < s.len(),
        forall|i: int| 0 <= i < j ==> s[i] >= 128,
        s[j] < 128,
    ensures
        cont_len(s) == j,
    decreases j,
{
    if j == 0 {
    } else {
        assert forall|i: int| 0 <= i < j - 1 implies s.skip(1)[i] >= 128 by {
            assert(s.skip(1)[i] == s[i + 1]);
        }
        assert(s.skip(1)[j - 1] == s[j]);
        lemma_cont_len_is(s.skip(1), j - 1);
    }
}

/// Appending a byte adds its seven payload bits at the next group position.
pub proof fn lemma_varint_value_snoc(s: Seq<u8>, b: u8)
    ensures
        varint_value(s.push(b)) == varint_value(s) + (b % 128) * pow128(s.len()),
    decreases s.len(),
{
    if s.len() == 0 {
        assert(s.push(b) =~= seq![b]);
        assert(seq![b].skip(1) =~= Seq::<u8>::empty());
        assert(varint_value(Seq::<u8>::empty()) == 0);
        assert(varint_value(seq![b]) == b % 128 + 128 * varint_value(seq![b].skip(1)));
        assert(pow128(0) == 1);
    } else {
        let rest = s.skip(1);
        lemma_varint_value_snoc(rest, b);
        assert(s.push(b).skip(1) =~= rest.push(b));
        assert(s.push(b)[0] == s[0]);
        assert(varint_value(s.push(b)) == s[0] % 128 + 128 * varint_value(rest.push(b)));
        assert(varint_value(s) == s[0] % 128 + 128 * varint_value(rest));
        let p = pow128((s.len() - 1) as nat);
        assert(pow128(s.len()) == 128 * p);
        assert(varint_value(rest.push(b)) == varint_value(rest) + (b % 128) * p);
        assert(128 * (varint_value(rest) + (b % 128) * p) == 128 * varint_value(rest) + (b % 128)
            * (128 * p)) by (nonlinear_arith);
    }
}

/// Law: reading a VarInt from an i32's encoding, whatever follows it,
/// consumes exactly the encoding and yields the i32 back.
pub proof fn lemma_varint_round_trip(v: i32, tail: Seq<u8>)
    ensures
        spec_read_varint(varint_encoding(v) + tail) == (
            Result::<i32, McError>::Ok(v),
            varint_encoding(v).len() as int,
        ),
{
    let n = unsigned32(v) as nat;
    let enc = varint_bytes(n);
    let s = enc + tail;
    lemma_varint_length_bound(v);
    lemma_varint_bytes_shape(n);
    assert forall|i: int| 0 <= i < enc.len() - 1 implies s[i] >= 128 by {
        assert(s[i] == enc[i]);
    }
    assert(s[enc.len() - 1] == enc[enc.len() - 1]);
    lemma_cont_len_is(s, enc.len() - 1);
    assert(s.take(enc.len() as int) =~= enc);
    lemma_varint_value_of_encoding(n);
    assert(n < 0x1_0000_0000);
    assert(varint_value(enc) % 0x1_0000_0000 == n);
    assert(signed32(unsigned32(v)) == v);
}

} // verus!
