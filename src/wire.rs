//! Protobuf wire format: one field at a time, within a bounded region of a buffer.
use crate::bytes::{read_varint, varint_len, varint_value};
use vstd::prelude::*;

verus! {

/// The value of one field, as the wire format gives it.
#[derive(Debug, Clone, Copy, PartialEq, Eq)]
pub enum Wire {
    Varint(u64),
    /// A fixed 32- or 64-bit value; nothing in a manifest reads one.
    Fixed,
    /// A length-delimited value occupying `[start, end)` of the buffer.
    Bytes(usize, usize),
}

pub open spec fn low32(v: u64) -> u32 {
    (v % 0x1_0000_0000) as u32
}

/// The field that starts at `pos` in the region `s[pos..end]`: its tag (the key read as a
/// 32-bit varint), its value, and the position after it. `None` when the region does not hold
/// a whole field, or when the wire type is a group or unknown.
pub open spec fn field_at(s: Seq<u8>, pos: int, end: int) -> Option<(u32, Wire, int)> {
    let key = s.subrange(pos, end);
    match varint_len(key) {
        None => None,
        Some(n) => {
            let tag = low32(varint_value(key));
            let p = pos + n;
            let rest = s.subrange(p, end);
            if tag % 8 == 0 {
                match varint_len(rest) {
                    None => None,
                    Some(m) => Some((tag, Wire::Varint(varint_value(rest)), p + m)),
                }
            } else if tag % 8 == 1 {
                if p + 8 <= end {
                    Some((tag, Wire::Fixed, p + 8))
                } else {
                    None
                }
            } else if tag % 8 == 5 {
                if p + 4 <= end {
                    Some((tag, Wire::Fixed, p + 4))
                } else {
                    None
                }
            } else if tag % 8 == 2 {
                match varint_len(rest) {
                    None => None,
                    Some(m) => {
                        let a = p + m;
                        let b = a + varint_value(rest);
                        if b <= end {
                            Some((tag, Wire::Bytes(a as usize, b as usize), b))
                        } else {
                            None
                        }
                    },
                }
            } else {
                None
            }
        },
    }
}

/// Reads the field that starts at `pos` and ends no later than `end`.
pub fn next_field(buf: &[u8], pos: usize, end: usize) -> (r: Option<(u32, Wire, usize)>)
    requires
        pos <= end <= buf@.len(),
    ensures
        r matches Some((tag, w, next)) ==> field_at(buf@, pos as int, end as int) == Some(
            (tag, w, next as int),
        ) && pos < next <= end,
        r is None ==> field_at(buf@, pos as int, end as int) is None,
{
    let region = vstd::slice::slice_subrange(buf, 0, end);
    assert(region@.subrange(pos as int, end as int) =~= buf@.subrange(pos as int, end as int));
    let (key, p) = match read_varint(region, pos) {
        Some(x) => x,
        None => return None,
    };
    let tag = (key % 0x1_0000_0000) as u32;
    assert(region@.subrange(p as int, end as int) =~= buf@.subrange(p as int, end as int));
    let wt = tag % 8;
    if wt == 0 {
        match read_varint(region, p) {
            Some((v, next)) => Some((tag, Wire::Varint(v), next)),
            None => None,
        }
    } else if wt == 1 {
        if end - p >= 8 {
            Some((tag, Wire::Fixed, p + 8))
        } else {
            None
        }
    } else if wt == 5 {
        if end - p >= 4 {
            Some((tag, Wire::Fixed, p + 4))
        } else {
            None
        }
    } else if wt == 2 {
        match read_varint(region, p) {
            Some((len, a)) => {
                if len <= (end - a) as u64 {
                    let b = a + len as usize;
                    Some((tag, Wire::Bytes(a, b), b))
                } else {
                    None
                }
            },
            None => None,
        }
    } else {
        None
    }
}

} // verus!
