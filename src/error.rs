//! Every way in which an extraction can fail.
use vstd::prelude::*;

verus! {

#[derive(Debug, Clone, PartialEq, Eq)]
pub enum PayloadError {
    /// The input ended before a field that the container needs.
    Truncated,
    /// The first four bytes are not the container's magic tag.
    InvalidMagic,
    /// The header's format version is not the one supported; holds the value seen.
    UnsupportedVersion(u64),
    ManifestLengthZero,
    SignatureLengthZero,
    /// The manifest bytes are not a well-formed manifest message.
    ManifestDecode,
    /// The manifest describes a delta payload (minor version other than zero).
    DeltaPayload,
    /// No partition name was given and neither fallback partition exists.
    BootPartitionNotFound,
    /// The requested partition does not exist; holds its name.
    PartitionNotFound(String),
    DataLengthMissing,
    DataOffsetMissing,
    DstExtentsMissing,
    StartBlockMissing,
    NumBlocksMissing,
    /// An operation's data starts before the data already consumed.
    OverlappingData,
    /// An offset or length does not fit in 64 bits (or in memory, for an in-memory image).
    OffsetOverflow,
    UnsupportedOperation,
    DecompressionFailed,
}

/// Relies on `String::push_str`: appends `t` to `s`.
#[verifier::external_body]
fn append_str(s: &mut String, t: &str)
    ensures
        final(s)@ == old(s)@ + t@,
{
    s.push_str(t)
}

/// Relies on `String::push`: appends one character to `s`.
#[verifier::external_body]
fn append_char(s: &mut String, c: char)
    ensures
        final(s)@ == old(s)@.push(c),
{
    s.push(c)
}

/// The character of a decimal digit.
pub open spec fn digit_char(d: nat) -> char {
    if d == 0 {
        '0'
    } else if d == 1 {
        '1'
    } else if d == 2 {
        '2'
    } else if d == 3 {
        '3'
    } else if d == 4 {
        '4'
    } else if d == 5 {
        '5'
    } else if d == 6 {
        '6'
    } else if d == 7 {
        '7'
    } else if d == 8 {
        '8'
    } else {
        '9'
    }
}

/// The decimal representation of `v`, without leading zeros.
pub open spec fn decimal(v: nat) -> Seq<char>
    decreases v,
{
    if v < 10 {
        seq![digit_char(v)]
    } else {
        decimal(v / 10).push(digit_char(v % 10))
    }
}

fn push_digit(s: &mut String, d: u64)
    requires
        d < 10,
    ensures
        final(s)@ == old(s)@.push(digit_char(d as nat)),
{
    let c = if d == 0 {
        '0'
    } else if d == 1 {
        '1'
    } else if d == 2 {
        '2'
    } else if d == 3 {
        '3'
    } else if d == 4 {
        '4'
    } else if d == 5 {
        '5'
    } else if d == 6 {
        '6'
    } else if d == 7 {
        '7'
    } else if d == 8 {
        '8'
    } else {
        '9'
    };
    append_char(s, c);
}

/// Appends the decimal representation of `v` to `s`.
pub fn push_decimal(s: &mut String, v: u64)
    ensures
        final(s)@ == old(s)@ + decimal(v as nat),
    decreases v,
{
    if v >= 10 {
        push_decimal(s, v / 10);
    }
    push_digit(s, v % 10);
    assert(final(s)@ =~= old(s)@ + decimal(v as nat));
}

/// The message that describes each failure.
pub open spec fn message_of(e: PayloadError) -> Seq<char> {
    match e {
        PayloadError::Truncated => "invalid payload: unexpected end of data"@,
        PayloadError::InvalidMagic => "invalid payload: invalid magic"@,
        PayloadError::UnsupportedVersion(v) => "invalid payload: unsupported version: "@ + decimal(
            v as nat,
        ),
        PayloadError::ManifestLengthZero => "invalid payload: manifest length is zero"@,
        PayloadError::SignatureLengthZero => "invalid payload: manifest signature length is zero"@,
        PayloadError::ManifestDecode => "invalid payload: malformed manifest"@,
        PayloadError::DeltaPayload => "invalid payload: delta payloads are not supported, please use a full payload file"@,
        PayloadError::BootPartitionNotFound => "boot partition not found"@,
        PayloadError::PartitionNotFound(n) => "partition '"@ + n@ + "' not found"@,
        PayloadError::DataLengthMissing => "invalid payload: data length not found"@,
        PayloadError::DataOffsetMissing => "invalid payload: data offset not found"@,
        PayloadError::DstExtentsMissing => "invalid payload: dst extents not found"@,
        PayloadError::StartBlockMissing => "invalid payload: start block not found"@,
        PayloadError::NumBlocksMissing => "invalid payload: num blocks not found"@,
        PayloadError::OverlappingData => "invalid payload: operation data overlaps data already read"@,
        PayloadError::OffsetOverflow => "invalid payload: offset out of range"@,
        PayloadError::UnsupportedOperation => "invalid payload: unsupported operation type"@,
        PayloadError::DecompressionFailed => "invalid payload: decompression failed"@,
    }
}

impl PayloadError {
    /// A one-line description of the failure, naming the version seen or the partition sought.
    pub fn message(&self) -> (r: String)
        ensures
            r@ == message_of(*self),
    {
        match self {
            PayloadError::Truncated => "invalid payload: unexpected end of data".to_owned(),
            PayloadError::InvalidMagic => "invalid payload: invalid magic".to_owned(),
            PayloadError::UnsupportedVersion(v) => {
                let mut s = "invalid payload: unsupported version: ".to_owned();
                push_decimal(&mut s, *v);
                s
            },
            PayloadError::ManifestLengthZero => "invalid payload: manifest length is zero".to_owned(),
            PayloadError::SignatureLengthZero => {
                "invalid payload: manifest signature length is zero".to_owned()
            },
            PayloadError::ManifestDecode => "invalid payload: malformed manifest".to_owned(),
            PayloadError::DeltaPayload => {
                "invalid payload: delta payloads are not supported, please use a full payload file".to_owned()
            },
            PayloadError::BootPartitionNotFound => "boot partition not found".to_owned(),
            PayloadError::PartitionNotFound(n) => {
                let mut s = "partition '".to_owned();
                append_str(&mut s, n.as_str());
                append_str(&mut s, "' not found");
                s
            },
            PayloadError::DataLengthMissing => "invalid payload: data length not found".to_owned(),
            PayloadError::DataOffsetMissing => "invalid payload: data offset not found".to_owned(),
            PayloadError::DstExtentsMissing => "invalid payload: dst extents not found".to_owned(),
            PayloadError::StartBlockMissing => "invalid payload: start block not found".to_owned(),
            PayloadError::NumBlocksMissing => "invalid payload: num blocks not found".to_owned(),
            PayloadError::OverlappingData => {
                "invalid payload: operation data overlaps data already read".to_owned()
            },
            PayloadError::OffsetOverflow => "invalid payload: offset out of range".to_owned(),
            PayloadError::UnsupportedOperation => "invalid payload: unsupported operation type".to_owned(),
            PayloadError::DecompressionFailed => "invalid payload: decompression failed".to_owned(),
        }
    }
}

} // verus!
