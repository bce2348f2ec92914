//! The fixed container header: magic, version, manifest and signature lengths.
use crate::bytes::{be_value, read_be_u32, read_be_u64};
use crate::error::PayloadError;
use vstd::prelude::*;

verus! {

/// Size in bytes of the fixed header.
pub const HEADER_LEN: usize = 24;

/// The only container format version supported.
pub const PAYLOAD_VERSION: u64 = 2;

pub open spec fn magic() -> Seq<u8> {
    seq![0x43u8, 0x72u8, 0x41u8, 0x55u8]
}

#[derive(Debug, Clone, Copy, PartialEq, Eq)]
pub struct Header {
    pub version: u64,
    pub manifest_len: u64,
    pub signature_len: u32,
}

pub open spec fn be_at(s: Seq<u8>, start: int, n: int) -> nat {
    be_value(s.subrange(start, start + n))
}

/// What the header at the start of `s` decodes to; each check is made in turn, and a check
/// never looks past the field that it is about.
pub open spec fn header_spec(s: Seq<u8>) -> Result<Header, PayloadError> {
    if s.len() < 4 {
        Err(PayloadError::Truncated)
    } else if s.subrange(0, 4) != magic() {
        Err(PayloadError::InvalidMagic)
    } else if s.len() < 12 {
        Err(PayloadError::Truncated)
    } else if be_at(s, 4, 8) != PAYLOAD_VERSION {
        Err(PayloadError::UnsupportedVersion(be_at(s, 4, 8) as u64))
    } else if s.len() < 20 {
        Err(PayloadError::Truncated)
    } else if be_at(s, 12, 8) == 0 {
        Err(PayloadError::ManifestLengthZero)
    } else if s.len() < 24 {
        Err(PayloadError::Truncated)
    } else if be_at(s, 20, 4) == 0 {
        Err(PayloadError::SignatureLengthZero)
    } else {
        Ok(Header {
            version: be_at(s, 4, 8) as u64,
            manifest_len: be_at(s, 12, 8) as u64,
            signature_len: be_at(s, 20, 4) as u32,
        })
    }
}

/// Validates and decodes the header at the start of `bytes`.
pub fn parse_header(bytes: &[u8]) -> (r: Result<Header, PayloadError>)
    ensures
        r == header_spec(bytes@),
{
    let s = bytes;
    if s.len() < 4 {
        return Err(PayloadError::Truncated);
    }
    if !(s[0] == 0x43u8 && s[1] == 0x72u8 && s[2] == 0x41u8 && s[3] == 0x55u8) {
        proof {
            if s@.subrange(0, 4) == magic() {
                assert(s@.subrange(0, 4)[0] == s@[0]);
                assert(s@.subrange(0, 4)[1] == s@[1]);
                assert(s@.subrange(0, 4)[2] == s@[2]);
                assert(s@.subrange(0, 4)[3] == s@[3]);
            }
        }
        return Err(PayloadError::InvalidMagic);
    }
    assert(s@.subrange(0, 4) =~= magic());
    if s.len() < 12 {
        return Err(PayloadError::Truncated);
    }
    let t = vstd::slice::slice_subrange(s, 4, s.len());
    assert(t@.subrange(0, 8) =~= s@.subrange(4, 12));
    let version = read_be_u64(t);
    if version != PAYLOAD_VERSION {
        return Err(PayloadError::UnsupportedVersion(version));
    }
    if s.len() < 20 {
        return Err(PayloadError::Truncated);
    }
    let t = vstd::slice::slice_subrange(s, 12, s.len());
    assert(t@.subrange(0, 8) =~= s@.subrange(12, 20));
    let manifest_len = read_be_u64(t);
    if manifest_len == 0 {
        return Err(PayloadError::ManifestLengthZero);
    }
    if s.len() < 24 {
        return Err(PayloadError::Truncated);
    }
    let t = vstd::slice::slice_subrange(s, 20, s.len());
    assert(t@.subrange(0, 4) =~= s@.subrange(20, 24));
    let signature_len = read_be_u32(t);
    if signature_len == 0 {
        return Err(PayloadError::SignatureLengthZero);
    }
    Ok(Header { version, manifest_len, signature_len })
}

} // verus!
