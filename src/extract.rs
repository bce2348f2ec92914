//! The whole extraction, from the payload's bytes to the partition's image.
use crate::error::PayloadError;
use crate::header::{header_spec, parse_header, HEADER_LEN};
use crate::image::{replay, replay_spec};
use crate::manifest::{decode_manifest, manifest_spec, Manifest, PartitionModel};
use crate::plan::{is_replay_order, plan_operations, plan_spec};
use crate::select::{
    boot_name, check_full_payload, has_named, init_boot_name, is_first_named, select_partition,
};
use vstd::prelude::*;
use vstd::string::StringSliceAdditionalSpecFns;

verus! {

/// The first partition called `n`, if there is one.
pub open spec fn first_named(ps: Seq<PartitionModel>, n: Seq<u8>) -> Option<int> {
    if has_named(ps, n) {
        Some(choose|i: int| is_first_named(ps, n, i))
    } else {
        None
    }
}

/// The partition that is extracted: the one named, or else "init_boot", or else "boot".
pub open spec fn selected_index(ps: Seq<PartitionModel>, name: Option<&str>) -> Option<int> {
    match name {
        Some(n) => first_named(ps, n.spec_bytes()),
        None => if has_named(ps, init_boot_name()) {
            first_named(ps, init_boot_name())
        } else {
            first_named(ps, boot_name())
        },
    }
}

/// The error that a failed partition lookup gives.
pub open spec fn is_not_found(name: Option<&str>, e: PayloadError) -> bool {
    match name {
        Some(n) => e matches PayloadError::PartitionNotFound(s) && s@ == n@,
        None => e == PayloadError::BootPartitionNotFound,
    }
}

proof fn lemma_first_named_unique(ps: Seq<PartitionModel>, n: Seq<u8>, i: int)
    requires
        is_first_named(ps, n, i),
    ensures
        first_named(ps, n) == Some(i),
{
    let j = choose|j: int| is_first_named(ps, n, j);
    assert(is_first_named(ps, n, j));
    if j < i {
        assert(ps[j].name != n);
    } else if i < j {
        assert(ps[i].name != n);
    }
}

/// A manifest decoded from `bytes`, refused unless it describes a full payload.
pub fn load_manifest(bytes: &[u8]) -> (r: Result<Manifest, PayloadError>)
    ensures
        match manifest_spec(bytes@) {
            None => r == Err::<Manifest, PayloadError>(PayloadError::ManifestDecode),
            Some(m) => if m.minor_version != 0 {
                r == Err::<Manifest, PayloadError>(PayloadError::DeltaPayload)
            } else {
                r matches Ok(x) && x@ == m
            },
        },
{
    let m = match decode_manifest(bytes) {
        Some(m) => m,
        None => return Err(PayloadError::ManifestDecode),
    };
    match check_full_payload(&m) {
        Ok(()) => Ok(m),
        Err(e) => Err(e),
    }
}

/// Where output goes when no path is given: the partition's name followed by ".img".
pub fn default_output_name(partition_name: &[u8]) -> (r: Vec<u8>)
    ensures
        r@ == partition_name@ + seq![0x2eu8, 0x69u8, 0x6du8, 0x67u8],
{
    let mut r = vstd::slice::slice_to_vec(partition_name);
    r.push(0x2eu8);
    r.push(0x69u8);
    r.push(0x6du8);
    r.push(0x67u8);
    r
}

/// The extracted partition: its name and its image.
pub struct Extraction {
    pub partition_name: Vec<u8>,
    pub image: Vec<u8>,
}

pub open spec fn extraction_view(r: Result<Extraction, PayloadError>) -> Result<
    (Seq<u8>, Seq<u8>),
    PayloadError,
> {
    match r {
        Ok(x) => Ok((x.partition_name@, x.image@)),
        Err(e) => Err(e),
    }
}

/// What extracting from the payload `p` gives: the header is checked, the manifest read and
/// decoded, delta payloads refused, the partition selected, the signature skipped, and the
/// partition's operations replayed in data order on an empty image.
pub open spec fn extract_outcome(
    p: Seq<u8>,
    name: Option<&str>,
    r: Result<(Seq<u8>, Seq<u8>), PayloadError>,
) -> bool {
    match header_spec(p) {
        Err(e) => r == Err::<(Seq<u8>, Seq<u8>), PayloadError>(e),
        Ok(h) => {
            let mend = HEADER_LEN + h.manifest_len;
            let dstart = mend + h.signature_len;
            if p.len() < mend {
                r == Err::<(Seq<u8>, Seq<u8>), PayloadError>(PayloadError::Truncated)
            } else {
                match manifest_spec(p.subrange(HEADER_LEN as int, mend)) {
                    None => r == Err::<(Seq<u8>, Seq<u8>), PayloadError>(
                        PayloadError::ManifestDecode,
                    ),
                    Some(m) => if m.minor_version != 0 {
                        r == Err::<(Seq<u8>, Seq<u8>), PayloadError>(PayloadError::DeltaPayload)
                    } else {
                        match selected_index(m.partitions, name) {
                            None => r matches Err(e) && is_not_found(name, e),
                            Some(i) => if p.len() < dstart {
                                r == Err::<(Seq<u8>, Seq<u8>), PayloadError>(
                                    PayloadError::Truncated,
                                )
                            } else {
                                let part = m.partitions[i];
                                exists|order: Seq<usize>|
                                    is_replay_order(part.operations, order) && match plan_spec(
                                        part.operations,
                                        order,
                                        m.block_size as u64,
                                    ) {
                                        Err(e) => r == Err::<(Seq<u8>, Seq<u8>), PayloadError>(e),
                                        Ok(steps) => match replay_spec(
                                            p.subrange(dstart, p.len() as int),
                                            steps,
                                        ) {
                                            Err(e) => r == Err::<(Seq<u8>, Seq<u8>), PayloadError>(
                                                e,
                                            ),
                                            Ok(img) => r == Ok::<(Seq<u8>, Seq<u8>), PayloadError>(
                                                (part.name, img),
                                            ),
                                        },
                                    }
                            },
                        }
                    },
                }
            }
        },
    }
}

/// Extracts a partition image from a whole payload held in memory.
pub fn extract_image(payload: &[u8], partition: Option<&str>) -> (r: Result<
    Extraction,
    PayloadError,
>)
    ensures
        extract_outcome(payload@, partition, extraction_view(r)),
{
    let h = match parse_header(payload) {
        Ok(h) => h,
        Err(e) => return Err(e),
    };
    let rest = payload.len() - HEADER_LEN;
    if (rest as u64) < h.manifest_len {
        return Err(PayloadError::Truncated);
    }
    let mend = HEADER_LEN + h.manifest_len as usize;
    let mbytes = vstd::slice::slice_subrange(payload, HEADER_LEN, mend);
    let m = match load_manifest(mbytes) {
        Ok(m) => m,
        Err(e) => return Err(e),
    };
    let i = match select_partition(&m, partition) {
        Ok(i) => i,
        Err(e) => {
            proof {
                let ps = m@.partitions;
                match partition {
                    Some(n) => {},
                    None => {
                        assert(!has_named(ps, init_boot_name()));
                        assert(!has_named(ps, boot_name()));
                    },
                }
            }
            return Err(e);
        },
    };
    proof {
        let ps = m@.partitions;
        match partition {
            Some(n) => lemma_first_named_unique(ps, n.spec_bytes(), i as int),
            None => if has_named(ps, init_boot_name()) {
                lemma_first_named_unique(ps, init_boot_name(), i as int);
            } else {
                lemma_first_named_unique(ps, boot_name(), i as int);
            },
        }
    }
    if payload.len() - mend < h.signature_len as usize {
        return Err(PayloadError::Truncated);
    }
    let dstart = mend + h.signature_len as usize;
    let data = vstd::slice::slice_subrange(payload, dstart, payload.len());
    let part = &m.partitions[i];
    assert(m@.partitions[i as int] == part@);
    let steps = match plan_operations(&part.operations, m.block_size) {
        Ok(s) => s,
        Err(e) => return Err(e),
    };
    let image = match replay(data, &steps) {
        Ok(img) => img,
        Err(e) => return Err(e),
    };
    let name = vstd::slice::slice_to_vec(part.partition_name.as_slice());
    Ok(Extraction { partition_name: name, image })
}

} // verus!
