//! Choosing the partition to extract, and refusing delta payloads.
use crate::error::PayloadError;
use crate::manifest::{Manifest, PartitionModel};
use vstd::prelude::*;
use vstd::string::StringSliceAdditionalSpecFns;

verus! {

pub open spec fn init_boot_name() -> Seq<u8> {
    seq![0x69u8, 0x6eu8, 0x69u8, 0x74u8, 0x5fu8, 0x62u8, 0x6fu8, 0x6fu8, 0x74u8]
}

pub open spec fn boot_name() -> Seq<u8> {
    seq![0x62u8, 0x6fu8, 0x6fu8, 0x74u8]
}

pub open spec fn has_named(ps: Seq<PartitionModel>, name: Seq<u8>) -> bool {
    exists|j: int| 0 <= j < ps.len() && ps[j].name == name
}

/// `i` is the first partition of `ps` called `name`.
pub open spec fn is_first_named(ps: Seq<PartitionModel>, name: Seq<u8>, i: int) -> bool {
    &&& 0 <= i < ps.len()
    &&& ps[i].name == name
    &&& forall|j: int| 0 <= j < i ==> ps[j].name != name
}

/// A manifest is accepted only for a full payload, whose minor version is zero.
pub fn check_full_payload(manifest: &Manifest) -> (r: Result<(), PayloadError>)
    ensures
        r is Ok <==> manifest.minor_version == 0,
        r is Err ==> r == Err::<(), PayloadError>(PayloadError::DeltaPayload),
{
    if manifest.minor_version != 0 {
        Err(PayloadError::DeltaPayload)
    } else {
        Ok(())
    }
}

fn bytes_eq(a: &[u8], b: &[u8]) -> (r: bool)
    ensures
        r == (a@ == b@),
{
    if a.len() != b.len() {
        return false;
    }
    let mut i: usize = 0;
    while i < a.len()
        invariant
            a@.len() == b@.len(),
            i <= a@.len(),
            forall|k: int| 0 <= k < i ==> a@[k] == b@[k],
        decreases a@.len() - i,
    {
        if a[i] != b[i] {
            return false;
        }
        i = i + 1;
    }
    assert(a@ =~= b@);
    true
}

/// The index of the first partition called `name`, if any.
pub fn find_partition(manifest: &Manifest, name: &[u8]) -> (r: Option<usize>)
    ensures
        r matches Some(i) ==> is_first_named(manifest@.partitions, name@, i as int),
        r is None <==> !has_named(manifest@.partitions, name@),
{
    let ps = &manifest.partitions;
    let mut i: usize = 0;
    while i < ps.len()
        invariant
            ps == &manifest.partitions,
            i <= ps@.len(),
            manifest@.partitions.len() == ps@.len(),
            forall|j: int| 0 <= j < i ==> manifest@.partitions[j].name != name@,
        decreases ps@.len() - i,
    {
        assert(manifest@.partitions[i as int] == ps@[i as int]@) by {
            assert(manifest@.partitions == crate::manifest::partitions_view(ps@));
        }
        if bytes_eq(ps[i].partition_name.as_slice(), name) {
            return Some(i);
        }
        i = i + 1;
    }
    None
}

/// Picks the partition to extract. With a name, the first partition of that name; without
/// one, the first "init_boot" partition, else the first "boot" partition.
pub fn select_partition(manifest: &Manifest, name: Option<&str>) -> (r: Result<
    usize,
    PayloadError,
>)
    ensures
        match name {
            Some(n) => match r {
                Ok(i) => is_first_named(manifest@.partitions, n.spec_bytes(), i as int),
                Err(e) => !has_named(manifest@.partitions, n.spec_bytes()) && (
                e matches PayloadError::PartitionNotFound(s) && s@ == n@),
            },
            None => {
                let ps = manifest@.partitions;
                if has_named(ps, init_boot_name()) {
                    (r matches Ok(i) && is_first_named(ps, init_boot_name(), i as int))
                } else if has_named(ps, boot_name()) {
                    (r matches Ok(i) && is_first_named(ps, boot_name(), i as int))
                } else {
                    r == Err::<usize, PayloadError>(PayloadError::BootPartitionNotFound)
                }
            },
        },
{
    match name {
        Some(n) => match find_partition(manifest, n.as_bytes()) {
            Some(i) => Ok(i),
            None => Err(PayloadError::PartitionNotFound(n.to_owned())),
        },
        None => {
            // Names tried in order of preference.
            let preferred: Vec<Vec<u8>> = vec![
                vec![0x69u8, 0x6eu8, 0x69u8, 0x74u8, 0x5fu8, 0x62u8, 0x6fu8, 0x6fu8, 0x74u8],
                vec![0x62u8, 0x6fu8, 0x6fu8, 0x74u8],
            ];
            assert(preferred@[0]@ =~= init_boot_name());
            assert(preferred@[1]@ =~= boot_name());
            let mut k: usize = 0;
            while k < preferred.len()
                invariant
                    name is None,
                    preferred@.len() == 2,
                    preferred@[0]@ == init_boot_name(),
                    preferred@[1]@ == boot_name(),
                    k <= 2,
                    forall|j: int|
                        0 <= j < k ==> !has_named(manifest@.partitions, #[trigger] preferred@[j]@),
                decreases 2 - k,
            {
                if let Some(i) = find_partition(manifest, preferred[k].as_slice()) {
                    proof {
                        let ps = manifest@.partitions;
                        assert(ps[i as int].name == preferred@[k as int]@);
                        assert(has_named(ps, preferred@[k as int]@));
                        if k == 1 {
                            assert(!has_named(ps, preferred@[0]@));
                            assert(is_first_named(ps, boot_name(), i as int));
                        } else {
                            assert(is_first_named(ps, init_boot_name(), i as int));
                        }
                    }
                    return Ok(i);
                }
                k = k + 1;
            }
            Err(PayloadError::BootPartitionNotFound)
        },
    }
}

} // verus!
