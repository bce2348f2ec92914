//! Replaying planned steps on an image held in memory.
use crate::error::PayloadError;
use crate::plan::{steps_view, Action, ActionModel, ByteRange, Codec, Step, StepModel};
use vstd::prelude::*;

verus! {

/// `img` after writing `data` at byte `off`; the image grows, zero-filled, when needed.
pub open spec fn write_at(img: Seq<u8>, off: int, data: Seq<u8>) -> Seq<u8> {
    let n = if img.len() > off + data.len() {
        img.len() as int
    } else {
        off + data.len()
    };
    Seq::new(
        n as nat,
        |k: int|
            if off <= k < off + data.len() {
                data[k - off]
            } else if k < img.len() {
                img[k]
            } else {
                0u8
            },
    )
}

pub open spec fn zeros(n: nat) -> Seq<u8> {
    Seq::new(n, |k: int| 0u8)
}

/// `img` after zero-filling each range in turn.
pub open spec fn zero_fill(img: Seq<u8>, ranges: Seq<ByteRange>) -> Seq<u8>
    decreases ranges.len(),
{
    if ranges.len() == 0 {
        img
    } else {
        write_at(
            zero_fill(img, ranges.drop_last()),
            ranges.last().offset as int,
            zeros(ranges.last().len as nat),
        )
    }
}

/// What xz decompression makes of `data`; `None` when the decoder reports an error.
pub uninterp spec fn xz_decoded(data: Seq<u8>) -> Option<Seq<u8>>;

/// What bzip2 decompression makes of `data`; `None` when the decoder reports an error.
pub uninterp spec fn bzip2_decoded(data: Seq<u8>) -> Option<Seq<u8>>;

pub open spec fn decoded(codec: Codec, data: Seq<u8>) -> Option<Seq<u8>> {
    match codec {
        Codec::Bzip2 => bzip2_decoded(data),
        Codec::Xz => xz_decoded(data),
    }
}

/// An in-memory image cannot reach past the address space.
pub open spec fn fits_in_memory(end: int) -> bool {
    end <= usize::MAX
}

pub open spec fn ranges_fit(ranges: Seq<ByteRange>) -> bool {
    forall|i: int| 0 <= i < ranges.len() ==> fits_in_memory(ranges[i].offset + ranges[i].len)
}

/// `img` after one action applied with the bytes `data` that its step read.
pub open spec fn apply_spec(img: Seq<u8>, action: ActionModel, data: Seq<u8>) -> Result<
    Seq<u8>,
    PayloadError,
> {
    match action {
        ActionModel::Write(o) => if fits_in_memory(o + data.len()) {
            Ok(write_at(img, o as int, data))
        } else {
            Err(PayloadError::OffsetOverflow)
        },
        ActionModel::Zero(rs) => if ranges_fit(rs) {
            Ok(zero_fill(img, rs))
        } else {
            Err(PayloadError::OffsetOverflow)
        },
        ActionModel::Decompress(o, c) => match decoded(c, data) {
            None => Err(PayloadError::DecompressionFailed),
            Some(d) => if fits_in_memory(o + d.len()) {
                Ok(write_at(img, o as int, d))
            } else {
                Err(PayloadError::OffsetOverflow)
            },
        },
    }
}

/// The image after the first `n` steps, each reading its bytes from the data region `data`.
pub open spec fn replay_prefix(data: Seq<u8>, steps: Seq<StepModel>, n: int) -> Result<
    Seq<u8>,
    PayloadError,
>
    decreases n,
{
    if n <= 0 {
        Ok(Seq::empty())
    } else {
        match replay_prefix(data, steps, n - 1) {
            Err(e) => Err(e),
            Ok(img) => {
                let st = steps[n - 1];
                if st.data_offset + st.data_length > data.len() {
                    Err(PayloadError::Truncated)
                } else {
                    apply_spec(
                        img,
                        st.action,
                        data.subrange(
                            st.data_offset as int,
                            st.data_offset + st.data_length,
                        ),
                    )
                }
            },
        }
    }
}

pub open spec fn replay_spec(data: Seq<u8>, steps: Seq<StepModel>) -> Result<Seq<u8>, PayloadError> {
    replay_prefix(data, steps, steps.len() as int)
}

/// Relies on xz2's `bufread::XzDecoder` (liblzma's single-stream decoder), read to its end:
/// decodes one xz stream read from a byte slice and fails on a corrupt or truncated stream; its
/// output depends on the input bytes alone.
#[verifier::external_body]
fn xz_decompress(data: &[u8]) -> (r: Option<Vec<u8>>)
    ensures
        match r {
            Some(v) => xz_decoded(data@) == Some(v@),
            None => xz_decoded(data@) is None,
        },
{
    let mut out: Vec<u8> = Vec::new();
    match std::io::Read::read_to_end(&mut xz2::bufread::XzDecoder::new(data), &mut out) {
        Ok(_) => Some(out),
        Err(_) => None,
    }
}

/// Relies on bzip2_rs's `DecoderReader`, read to its end: decodes a bzip2 stream; its output
/// depends on the input bytes alone.
#[verifier::external_body]
fn bzip2_decompress(data: &[u8]) -> (r: Option<Vec<u8>>)
    ensures
        match r {
            Some(v) => bzip2_decoded(data@) == Some(v@),
            None => bzip2_decoded(data@) is None,
        },
{
    let mut out: Vec<u8> = Vec::new();
    match std::io::copy(&mut bzip2_rs::DecoderReader::new(data), &mut out) {
        Ok(_) => Some(out),
        Err(_) => None,
    }
}

/// Decompresses `data` with `codec`.
pub fn decompress(codec: Codec, data: &[u8]) -> (r: Option<Vec<u8>>)
    ensures
        match r {
            Some(v) => decoded(codec, data@) == Some(v@),
            None => decoded(codec, data@) is None,
        },
{
    match codec {
        Codec::Bzip2 => bzip2_decompress(data),
        Codec::Xz => xz_decompress(data),
    }
}

fn grow_to(img: &mut Vec<u8>, n: usize)
    ensures
        final(img)@.len() == if old(img)@.len() > n {
            old(img)@.len()
        } else {
            n as nat
        },
        forall|k: int| 0 <= k < old(img)@.len() ==> final(img)@[k] == old(img)@[k],
        forall|k: int| old(img)@.len() <= k < final(img)@.len() ==> final(img)@[k] == 0u8,
{
    while img.len() < n
        invariant
            old(img)@.len() <= img@.len(),
            img@.len() <= if old(img)@.len() > n {
                old(img)@.len()
            } else {
                n as nat
            },
            forall|k: int| 0 <= k < old(img)@.len() ==> img@[k] == old(img)@[k],
            forall|k: int| old(img)@.len() <= k < img@.len() ==> img@[k] == 0u8,
        decreases n - img@.len(),
    {
        img.push(0u8);
    }
}

/// Writes `data` at byte `off`, growing the image with zeros where needed.
pub fn write_bytes(img: &mut Vec<u8>, off: usize, data: &[u8])
    requires
        off + data@.len() <= usize::MAX,
    ensures
        final(img)@ == write_at(old(img)@, off as int, data@),
{
    let end = off + data.len();
    grow_to(img, end);
    let ghost grown = img@;
    let mut i: usize = 0;
    while i < data.len()
        invariant
            end == off + data@.len(),
            i <= data@.len(),
            img@.len() == grown.len(),
            grown.len() >= end,
            grown.len() == if old(img)@.len() > end {
                old(img)@.len()
            } else {
                end as nat
            },
            forall|k: int| 0 <= k < old(img)@.len() ==> grown[k] == old(img)@[k],
            forall|k: int| old(img)@.len() <= k < grown.len() ==> grown[k] == 0u8,
            forall|k: int| 0 <= k < grown.len() && !(off <= k < off + i) ==> img@[k] == grown[k],
            forall|k: int| off <= k < off + i ==> img@[k] == data@[k - off],
        decreases data@.len() - i,
    {
        img.set(off + i, data[i]);
        i = i + 1;
    }
    let ghost w = write_at(old(img)@, off as int, data@);
    assert(img@.len() == w.len());
    assert forall|k: int| 0 <= k < w.len() implies img@[k] == w[k] by {
        if off <= k < off + data@.len() {
        } else if k < old(img)@.len() {
            assert(img@[k] == grown[k]);
        } else {
            assert(img@[k] == grown[k]);
        }
    }
    assert(img@ =~= w);
}

/// Writes `len` zero bytes at byte `off`, growing the image where needed.
pub fn write_zeros(img: &mut Vec<u8>, off: usize, len: usize)
    requires
        off + len <= usize::MAX,
    ensures
        final(img)@ == write_at(old(img)@, off as int, zeros(len as nat)),
{
    let end = off + len;
    grow_to(img, end);
    let ghost grown = img@;
    let mut i: usize = 0;
    while i < len
        invariant
            end == off + len,
            i <= len,
            img@.len() == grown.len(),
            grown.len() >= end,
            grown.len() == if old(img)@.len() > end {
                old(img)@.len()
            } else {
                end as nat
            },
            forall|k: int| 0 <= k < old(img)@.len() ==> grown[k] == old(img)@[k],
            forall|k: int| old(img)@.len() <= k < grown.len() ==> grown[k] == 0u8,
            forall|k: int| 0 <= k < grown.len() && !(off <= k < off + i) ==> img@[k] == grown[k],
            forall|k: int| off <= k < off + i ==> img@[k] == 0u8,
        decreases len - i,
    {
        img.set(off + i, 0u8);
        i = i + 1;
    }
    let ghost w = write_at(old(img)@, off as int, zeros(len as nat));
    assert(img@.len() == w.len());
    assert forall|k: int| 0 <= k < w.len() implies img@[k] == w[k] by {
        if off <= k < off + len {
        } else if k < old(img)@.len() {
            assert(img@[k] == grown[k]);
        } else {
            assert(img@[k] == grown[k]);
        }
    }
    assert(img@ =~= w);
}

fn fits(off: u64, len: u64) -> (r: bool)
    ensures
        r == fits_in_memory(off + len),
{
    (off as u128) + (len as u128) <= (usize::MAX as u128)
}

/// Applies one action to the image, with the bytes `data` that its step read.
pub fn apply_action(img: &mut Vec<u8>, action: &Action, data: &[u8]) -> (r: Result<(), PayloadError>)
    ensures
        match r {
            Ok(()) => apply_spec(old(img)@, action@, data@) == Ok::<Seq<u8>, PayloadError>(
                final(img)@,
            ),
            Err(e) => apply_spec(old(img)@, action@, data@) == Err::<Seq<u8>, PayloadError>(e),
        },
{
    match action {
        Action::Write(o) => {
            if !fits(*o, data.len() as u64) {
                return Err(PayloadError::OffsetOverflow);
            }
            write_bytes(img, *o as usize, data);
            Ok(())
        },
        Action::Zero(rs) => {
            let mut i: usize = 0;
            while i < rs.len()
                invariant
                    action@ == ActionModel::Zero(rs@),
                    img@ == old(img)@,
                    i <= rs@.len(),
                    forall|k: int| 0 <= k < i ==> fits_in_memory(rs@[k].offset + rs@[k].len),
                decreases rs@.len() - i,
            {
                if !fits(rs[i].offset, rs[i].len) {
                    assert(!ranges_fit(rs@));
                    return Err(PayloadError::OffsetOverflow);
                }
                i = i + 1;
            }
            let mut j: usize = 0;
            assert(rs@.take(0) =~= Seq::<ByteRange>::empty());
            while j < rs.len()
                invariant
                    action@ == ActionModel::Zero(rs@),
                    j <= rs@.len(),
                    ranges_fit(rs@),
                    img@ == zero_fill(old(img)@, rs@.take(j as int)),
                decreases rs@.len() - j,
            {
                assert(rs@.take(j + 1).drop_last() =~= rs@.take(j as int));
                assert(fits_in_memory(rs@[j as int].offset + rs@[j as int].len));
                write_zeros(img, rs[j].offset as usize, rs[j].len as usize);
                j = j + 1;
            }
            assert(rs@.take(j as int) =~= rs@);
            Ok(())
        },
        Action::Decompress(o, c) => {
            let d = match decompress(*c, data) {
                Some(d) => d,
                None => return Err(PayloadError::DecompressionFailed),
            };
            if !fits(*o, d.len() as u64) {
                return Err(PayloadError::OffsetOverflow);
            }
            write_bytes(img, *o as usize, d.as_slice());
            Ok(())
        },
    }
}

/// Replays the steps on an empty image, each reading its bytes from the data region `data`.
pub fn replay(data: &[u8], steps: &Vec<Step>) -> (r: Result<Vec<u8>, PayloadError>)
    ensures
        match r {
            Ok(img) => replay_spec(data@, steps_view(steps@)) == Ok::<Seq<u8>, PayloadError>(img@),
            Err(e) => replay_spec(data@, steps_view(steps@)) == Err::<Seq<u8>, PayloadError>(e),
        },
{
    let ghost sv = steps_view(steps@);
    let mut img: Vec<u8> = Vec::new();
    let mut i: usize = 0;
    assert(img@ =~= Seq::<u8>::empty());
    while i < steps.len()
        invariant
            sv == steps_view(steps@),
            i <= steps@.len(),
            replay_prefix(data@, sv, i as int) == Ok::<Seq<u8>, PayloadError>(img@),
        decreases steps@.len() - i,
    {
        let st = &steps[i];
        assert(sv[i as int] == st@);
        if st.data_length > data.len() as u64 || st.data_offset > data.len() as u64 - st.data_length {
            proof { lemma_replay_err_extends(data@, sv, i as int + 1); }
            return Err(PayloadError::Truncated);
        }
        let start = st.data_offset as usize;
        let end = start + st.data_length as usize;
        let chunk = vstd::slice::slice_subrange(data, start, end);
        match apply_action(&mut img, &st.action, chunk) {
            Ok(()) => {},
            Err(e) => {
                proof { lemma_replay_err_extends(data@, sv, i as int + 1); }
                return Err(e);
            },
        }
        i = i + 1;
    }
    Ok(img)
}

/// Once a prefix of the replay fails, the whole replay fails with the same error.
proof fn lemma_replay_err_extends(data: Seq<u8>, steps: Seq<StepModel>, n: int)
    requires
        0 <= n <= steps.len(),
        replay_prefix(data, steps, n) is Err,
    ensures
        replay_spec(data, steps) == replay_prefix(data, steps, n),
    decreases steps.len() - n,
{
    if n < steps.len() {
        lemma_replay_err_extends(data, steps, n + 1);
    }
}

} // verus!
