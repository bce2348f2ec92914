//! Fixed-width big-endian integers and protobuf varints read from byte slices.
use byteorder::ByteOrder;
use quick_protobuf::BytesReader;
use vstd::prelude::*;

verus! {

/// The unsigned value of `s` read as a big-endian number.
pub open spec fn be_value(s: Seq<u8>) -> nat
    decreases s.len(),
{
    if s.len() == 0 {
        0
    } else {
        be_value(s.drop_last()) * 256 + s.last() as nat
    }
}

/// Relies on byteorder's `BigEndian::read_u64`: the first eight bytes as a big-endian number.
#[verifier::external_body]
pub(crate) fn read_be_u64(buf: &[u8]) -> (r: u64)
    requires
        buf@.len() >= 8,
    ensures
        r as nat == be_value(buf@.subrange(0, 8)),
{
    byteorder::BigEndian::read_u64(buf)
}

/// Relies on byteorder's `BigEndian::read_u32`: the first four bytes as a big-endian number.
#[verifier::external_body]
pub(crate) fn read_be_u32(buf: &[u8]) -> (r: u32)
    requires
        buf@.len() >= 4,
    ensures
        r as nat == be_value(buf@.subrange(0, 4)),
{
    byteorder::BigEndian::read_u32(buf)
}

/// Length in bytes of the varint at the start of `s`: the first byte below 0x80, taken
/// among the first ten bytes, ends it. `None` when no such byte exists.
pub open spec fn varint_len_from(s: Seq<u8>, i: nat) -> Option<nat>
    decreases 10 - i,
{
    if i >= 10 || i >= s.len() {
        None
    } else if s[i as int] < 128 {
        Some(i + 1)
    } else {
        varint_len_from(s, i + 1)
    }
}

pub open spec fn varint_len(s: Seq<u8>) -> Option<nat> {
    varint_len_from(s, 0)
}

/// The number that the little-endian base-128 digits of `s` spell (high bit of each byte dropped).
pub open spec fn varint_digits(s: Seq<u8>) -> nat
    decreases s.len(),
{
    if s.len() == 0 {
        0
    } else {
        (s[0] % 128) as nat + 128 * varint_digits(s.drop_first())
    }
}

/// The value of the varint at the start of `s`, kept modulo 2^64 as 64-bit decoders do.
pub open spec fn varint_value(s: Seq<u8>) -> u64 {
    match varint_len(s) {
        Some(n) => (varint_digits(s.subrange(0, n as int)) % 0x1_0000_0000_0000_0000) as u64,
        None => 0,
    }
}

/// Relies on quick_protobuf's `BytesReader::read_varint64` over `buf[pos..]`: it reads up to
/// ten bytes, stops after the first byte below 0x80, adds the seven low bits of each byte at
/// increasing positions and drops what lies beyond 64 bits; it fails when the slice ends first
/// or when ten bytes all have the high bit set. Also returns how many bytes were left unread.
#[verifier::external_body]
fn read_varint_raw(buf: &[u8], pos: usize) -> (r: Option<(u64, usize)>)
    requires
        pos <= buf@.len(),
    ensures
        match r {
            Some((v, rest)) => {
                let s = buf@.subrange(pos as int, buf@.len() as int);
                &&& rest < s.len()
                &&& varint_len(s) == Some((s.len() - rest) as nat)
                &&& v == varint_value(s)
            },
            None => varint_len(buf@.subrange(pos as int, buf@.len() as int)) is None,
        },
{
    let tail = &buf[pos..];
    let mut reader = BytesReader::from_bytes(tail);
    match reader.read_varint64(tail) {
        Ok(v) => Some((v, reader.len())),
        Err(_) => None,
    }
}

proof fn lemma_varint_len_bounds(s: Seq<u8>, i: nat)
    ensures
        varint_len_from(s, i) matches Some(n) ==> i < n <= 10 && n <= s.len(),
    decreases 10 - i,
{
    if i < 10 && i < s.len() && s[i as int] >= 128 {
        lemma_varint_len_bounds(s, i + 1);
    }
}

/// Reads the varint that starts at `pos` and returns its value and the position after it.
pub fn read_varint(buf: &[u8], pos: usize) -> (r: Option<(u64, usize)>)
    requires
        pos <= buf@.len(),
    ensures
        match r {
            Some((v, next)) => {
                let s = buf@.subrange(pos as int, buf@.len() as int);
                &&& varint_len(s) == Some((next - pos) as nat)
                &&& pos < next <= buf@.len()
                &&& v == varint_value(s)
            },
            None => varint_len(buf@.subrange(pos as int, buf@.len() as int)) is None,
        },
{
    match read_varint_raw(buf, pos) {
        Some((v, rest)) => {
            proof {
                lemma_varint_len_bounds(buf@.subrange(pos as int, buf@.len() as int), 0);
            }
            Some((v, buf.len() - rest))
        },
        None => None,
    }
}

} // verus!
