//! The manifest: block size, minor version and partitions, each with its install operations;
//! and its decoding from protobuf bytes.
use crate::wire::{field_at, low32, next_field, Wire};
use vstd::prelude::*;
use vstd::utf8::valid_utf8;

verus! {

/// Block size that a manifest without the field has.
pub const DEFAULT_BLOCK_SIZE: u32 = 4096;

#[derive(Debug, Clone, Copy, PartialEq, Eq)]
pub struct Extent {
    pub start_block: Option<u64>,
    pub num_blocks: Option<u64>,
}

/// The kind of an install operation; `Other` holds any type number this engine does not apply.
#[derive(Debug, Clone, Copy, PartialEq, Eq)]
pub enum OpType {
    Replace,
    ReplaceBz,
    Zero,
    ReplaceXz,
    Other(u32),
}

#[derive(Debug, Clone)]
pub struct InstallOperation {
    pub op_type: OpType,
    pub data_offset: Option<u64>,
    pub data_length: Option<u64>,
    pub dst_extents: Vec<Extent>,
}

#[derive(Debug, Clone)]
pub struct PartitionUpdate {
    /// The partition's name, as UTF-8 bytes.
    pub partition_name: Vec<u8>,
    pub operations: Vec<InstallOperation>,
}

#[derive(Debug, Clone)]
pub struct Manifest {
    pub block_size: u32,
    pub minor_version: u32,
    pub partitions: Vec<PartitionUpdate>,
}

pub struct OperationModel {
    pub op_type: OpType,
    pub data_offset: Option<u64>,
    pub data_length: Option<u64>,
    pub dst_extents: Seq<Extent>,
}

pub struct PartitionModel {
    pub name: Seq<u8>,
    pub operations: Seq<OperationModel>,
}

pub struct ManifestModel {
    pub block_size: u32,
    pub minor_version: u32,
    pub partitions: Seq<PartitionModel>,
}

impl View for InstallOperation {
    type V = OperationModel;

    open spec fn view(&self) -> OperationModel {
        OperationModel {
            op_type: self.op_type,
            data_offset: self.data_offset,
            data_length: self.data_length,
            dst_extents: self.dst_extents@,
        }
    }
}

pub open spec fn operations_view(ops: Seq<InstallOperation>) -> Seq<OperationModel> {
    ops.map_values(|o: InstallOperation| o@)
}

impl View for PartitionUpdate {
    type V = PartitionModel;

    open spec fn view(&self) -> PartitionModel {
        PartitionModel { name: self.partition_name@, operations: operations_view(self.operations@) }
    }
}

pub open spec fn partitions_view(ps: Seq<PartitionUpdate>) -> Seq<PartitionModel> {
    ps.map_values(|p: PartitionUpdate| p@)
}

impl View for Manifest {
    type V = ManifestModel;

    open spec fn view(&self) -> ManifestModel {
        ManifestModel {
            block_size: self.block_size,
            minor_version: self.minor_version,
            partitions: partitions_view(self.partitions@),
        }
    }
}

/// The operation kind that a type number stands for.
pub open spec fn op_type_of(v: u32) -> OpType {
    if v == 0 {
        OpType::Replace
    } else if v == 1 {
        OpType::ReplaceBz
    } else if v == 6 {
        OpType::Zero
    } else if v == 8 {
        OpType::ReplaceXz
    } else {
        OpType::Other(v)
    }
}

pub fn op_type_from(v: u32) -> (r: OpType)
    ensures
        r == op_type_of(v),
{
    if v == 0 {
        OpType::Replace
    } else if v == 1 {
        OpType::ReplaceBz
    } else if v == 6 {
        OpType::Zero
    } else if v == 8 {
        OpType::ReplaceXz
    } else {
        OpType::Other(v)
    }
}

pub open spec fn empty_extent() -> Extent {
    Extent { start_block: None, num_blocks: None }
}

pub open spec fn empty_operation() -> OperationModel {
    OperationModel {
        op_type: OpType::Replace,
        data_offset: None,
        data_length: None,
        dst_extents: Seq::empty(),
    }
}

pub open spec fn empty_partition() -> PartitionModel {
    PartitionModel { name: Seq::empty(), operations: Seq::empty() }
}

pub open spec fn empty_manifest() -> ManifestModel {
    ManifestModel {
        block_size: DEFAULT_BLOCK_SIZE,
        minor_version: 0,
        partitions: Seq::empty(),
    }
}

/// Extent fields: start_block (1), num_blocks (2), both varints.
pub open spec fn extent_field(acc: Extent, tag: u32, w: Wire) -> Extent {
    match w {
        Wire::Varint(v) => if tag == 8 {
            Extent { start_block: Some(v), ..acc }
        } else if tag == 16 {
            Extent { num_blocks: Some(v), ..acc }
        } else {
            acc
        },
        _ => acc,
    }
}

/// The extent that the fields in `s[pos..end]` give, starting from `acc`.
pub open spec fn extent_fields(s: Seq<u8>, pos: int, end: int, acc: Extent) -> Option<Extent>
    decreases end - pos,
{
    if pos >= end {
        Some(acc)
    } else {
        match field_at(s, pos, end) {
            None => None,
            Some((tag, w, next)) => if next <= pos || next > end {
                None
            } else {
                extent_fields(s, next, end, extent_field(acc, tag, w))
            },
        }
    }
}

/// Operation fields: type (1), data_offset (2), data_length (3), dst_extents (6, repeated).
pub open spec fn operation_fields(s: Seq<u8>, pos: int, end: int, acc: OperationModel) -> Option<
    OperationModel,
>
    decreases end - pos,
{
    if pos >= end {
        Some(acc)
    } else {
        match field_at(s, pos, end) {
            None => None,
            Some((tag, w, next)) => if next <= pos || next > end {
                None
            } else {
                match w {
                    Wire::Varint(v) => if tag == 8 {
                        operation_fields(
                            s,
                            next,
                            end,
                            OperationModel { op_type: op_type_of(low32(v)), ..acc },
                        )
                    } else if tag == 16 {
                        operation_fields(
                            s,
                            next,
                            end,
                            OperationModel { data_offset: Some(v), ..acc },
                        )
                    } else if tag == 24 {
                        operation_fields(
                            s,
                            next,
                            end,
                            OperationModel { data_length: Some(v), ..acc },
                        )
                    } else {
                        operation_fields(s, next, end, acc)
                    },
                    Wire::Bytes(a, b) => if tag == 50 {
                        match extent_fields(s, a as int, b as int, empty_extent()) {
                            None => None,
                            Some(e) => operation_fields(
                                s,
                                next,
                                end,
                                OperationModel { dst_extents: acc.dst_extents.push(e), ..acc },
                            ),
                        }
                    } else {
                        operation_fields(s, next, end, acc)
                    },
                    Wire::Fixed => operation_fields(s, next, end, acc),
                }
            },
        }
    }
}

/// Partition fields: partition_name (1, UTF-8), operations (8, repeated).
pub open spec fn partition_fields(s: Seq<u8>, pos: int, end: int, acc: PartitionModel) -> Option<
    PartitionModel,
>
    decreases end - pos,
{
    if pos >= end {
        Some(acc)
    } else {
        match field_at(s, pos, end) {
            None => None,
            Some((tag, w, next)) => if next <= pos || next > end {
                None
            } else {
                match w {
                    Wire::Bytes(a, b) => if tag == 10 {
                        if valid_utf8(s.subrange(a as int, b as int)) {
                            partition_fields(
                                s,
                                next,
                                end,
                                PartitionModel { name: s.subrange(a as int, b as int), ..acc },
                            )
                        } else {
                            None
                        }
                    } else if tag == 66 {
                        match operation_fields(s, a as int, b as int, empty_operation()) {
                            None => None,
                            Some(o) => partition_fields(
                                s,
                                next,
                                end,
                                PartitionModel { operations: acc.operations.push(o), ..acc },
                            ),
                        }
                    } else {
                        partition_fields(s, next, end, acc)
                    },
                    _ => partition_fields(s, next, end, acc),
                }
            },
        }
    }
}

/// Manifest fields: block_size (3), minor_version (12), partitions (13, repeated).
pub open spec fn manifest_fields(s: Seq<u8>, pos: int, end: int, acc: ManifestModel) -> Option<
    ManifestModel,
>
    decreases end - pos,
{
    if pos >= end {
        Some(acc)
    } else {
        match field_at(s, pos, end) {
            None => None,
            Some((tag, w, next)) => if next <= pos || next > end {
                None
            } else {
                match w {
                    Wire::Varint(v) => if tag == 24 {
                        manifest_fields(s, next, end, ManifestModel { block_size: low32(v), ..acc })
                    } else if tag == 96 {
                        manifest_fields(
                            s,
                            next,
                            end,
                            ManifestModel { minor_version: low32(v), ..acc },
                        )
                    } else {
                        manifest_fields(s, next, end, acc)
                    },
                    Wire::Bytes(a, b) => if tag == 106 {
                        match partition_fields(s, a as int, b as int, empty_partition()) {
                            None => None,
                            Some(p) => manifest_fields(
                                s,
                                next,
                                end,
                                ManifestModel { partitions: acc.partitions.push(p), ..acc },
                            ),
                        }
                    } else {
                        manifest_fields(s, next, end, acc)
                    },
                    Wire::Fixed => manifest_fields(s, next, end, acc),
                }
            },
        }
    }
}

/// What the manifest bytes `s` decode to; `None` when they are not a well-formed manifest.
pub open spec fn manifest_spec(s: Seq<u8>) -> Option<ManifestModel> {
    manifest_fields(s, 0, s.len() as int, empty_manifest())
}

/// Relies on `std::str::from_utf8`: it succeeds exactly on valid UTF-8.
#[verifier::external_body]
fn is_valid_utf8(b: &[u8]) -> (r: bool)
    ensures
        r == valid_utf8(b@),
{
    std::str::from_utf8(b).is_ok()
}

fn copy_range(buf: &[u8], a: usize, b: usize) -> (r: Vec<u8>)
    requires
        a <= b <= buf@.len(),
    ensures
        r@ == buf@.subrange(a as int, b as int),
{
    let mut r: Vec<u8> = Vec::new();
    let mut i: usize = a;
    while i < b
        invariant
            a <= i <= b <= buf@.len(),
            r@ == buf@.subrange(a as int, i as int),
        decreases b - i,
    {
        r.push(buf[i]);
        i = i + 1;
    }
    r
}

fn decode_extent(buf: &[u8], start: usize, end: usize) -> (r: Option<Extent>)
    requires
        start <= end <= buf@.len(),
    ensures
        r == extent_fields(buf@, start as int, end as int, empty_extent()),
{
    let mut acc = Extent { start_block: None, num_blocks: None };
    let mut pos = start;
    while pos < end
        invariant
            start <= pos <= end <= buf@.len(),
            extent_fields(buf@, pos as int, end as int, acc) == extent_fields(
                buf@,
                start as int,
                end as int,
                empty_extent(),
            ),
        decreases end - pos,
    {
        let (tag, w, next) = match next_field(buf, pos, end) {
            Some(f) => f,
            None => return None,
        };
        if let Wire::Varint(v) = w {
            if tag == 8 {
                acc = Extent { start_block: Some(v), ..acc };
            } else if tag == 16 {
                acc = Extent { num_blocks: Some(v), ..acc };
            }
        }
        pos = next;
    }
    Some(acc)
}

fn decode_operation(buf: &[u8], start: usize, end: usize) -> (r: Option<InstallOperation>)
    requires
        start <= end <= buf@.len(),
    ensures
        r matches Some(o) ==> operation_fields(buf@, start as int, end as int, empty_operation())
            == Some(o@),
        r is None ==> operation_fields(buf@, start as int, end as int, empty_operation()) is None,
{
    let mut acc = InstallOperation {
        op_type: OpType::Replace,
        data_offset: None,
        data_length: None,
        dst_extents: Vec::new(),
    };
    assert(acc@ == empty_operation()) by {
        assert(acc@.dst_extents =~= Seq::<Extent>::empty());
    }
    let mut pos = start;
    while pos < end
        invariant
            start <= pos <= end <= buf@.len(),
            operation_fields(buf@, pos as int, end as int, acc@) == operation_fields(
                buf@,
                start as int,
                end as int,
                empty_operation(),
            ),
        decreases end - pos,
    {
        let (tag, w, next) = match next_field(buf, pos, end) {
            Some(f) => f,
            None => return None,
        };
        match w {
            Wire::Varint(v) => {
                if tag == 8 {
                    acc.op_type = op_type_from((v % 0x1_0000_0000) as u32);
                } else if tag == 16 {
                    acc.data_offset = Some(v);
                } else if tag == 24 {
                    acc.data_length = Some(v);
                }
            },
            Wire::Bytes(a, b) => {
                if tag == 50 {
                    match decode_extent(buf, a, b) {
                        Some(e) => acc.dst_extents.push(e),
                        None => return None,
                    }
                }
            },
            Wire::Fixed => {},
        }
        pos = next;
    }
    Some(acc)
}

fn decode_partition(buf: &[u8], start: usize, end: usize) -> (r: Option<PartitionUpdate>)
    requires
        start <= end <= buf@.len(),
    ensures
        r matches Some(p) ==> partition_fields(buf@, start as int, end as int, empty_partition())
            == Some(p@),
        r is None ==> partition_fields(buf@, start as int, end as int, empty_partition()) is None,
{
    let mut acc = PartitionUpdate { partition_name: Vec::new(), operations: Vec::new() };
    assert(acc@ == empty_partition()) by {
        assert(acc@.name =~= Seq::<u8>::empty());
        assert(acc@.operations =~= Seq::<OperationModel>::empty());
    }
    let mut pos = start;
    while pos < end
        invariant
            start <= pos <= end <= buf@.len(),
            partition_fields(buf@, pos as int, end as int, acc@) == partition_fields(
                buf@,
                start as int,
                end as int,
                empty_partition(),
            ),
        decreases end - pos,
    {
        let (tag, w, next) = match next_field(buf, pos, end) {
            Some(f) => f,
            None => return None,
        };
        if let Wire::Bytes(a, b) = w {
            if tag == 10 {
                let name = vstd::slice::slice_subrange(buf, a, b);
                if !is_valid_utf8(name) {
                    return None;
                }
                acc.partition_name = copy_range(buf, a, b);
            } else if tag == 66 {
                match decode_operation(buf, a, b) {
                    Some(o) => {
                        let ghost before = acc.operations@;
                        acc.operations.push(o);
                        assert(operations_view(acc.operations@) =~= operations_view(before).push(
                            o@,
                        ));
                    },
                    None => return None,
                }
            }
        }
        pos = next;
    }
    Some(acc)
}

/// Decodes the manifest message held in `bytes`.
pub fn decode_manifest(bytes: &[u8]) -> (r: Option<Manifest>)
    ensures
        r matches Some(m) ==> manifest_spec(bytes@) == Some(m@),
        r is None ==> manifest_spec(bytes@) is None,
{
    decode_manifest_range(bytes, 0, bytes.len())
}

fn decode_manifest_range(buf: &[u8], start: usize, end: usize) -> (r: Option<Manifest>)
    requires
        start <= end <= buf@.len(),
    ensures
        r matches Some(m) ==> manifest_fields(buf@, start as int, end as int, empty_manifest())
            == Some(m@),
        r is None ==> manifest_fields(buf@, start as int, end as int, empty_manifest()) is None,
{
    let mut acc = Manifest {
        block_size: DEFAULT_BLOCK_SIZE,
        minor_version: 0,
        partitions: Vec::new(),
    };
    assert(acc@ == empty_manifest()) by {
        assert(acc@.partitions =~= Seq::<PartitionModel>::empty());
    }
    let mut pos = start;
    while pos < end
        invariant
            start <= pos <= end <= buf@.len(),
            manifest_fields(buf@, pos as int, end as int, acc@) == manifest_fields(
                buf@,
                start as int,
                end as int,
                empty_manifest(),
            ),
        decreases end - pos,
    {
        let (tag, w, next) = match next_field(buf, pos, end) {
            Some(f) => f,
            None => return None,
        };
        match w {
            Wire::Varint(v) => {
                if tag == 24 {
                    acc.block_size = (v % 0x1_0000_0000) as u32;
                } else if tag == 96 {
                    acc.minor_version = (v % 0x1_0000_0000) as u32;
                }
            },
            Wire::Bytes(a, b) => {
                if tag == 106 {
                    match decode_partition(buf, a, b) {
                        Some(p) => {
                            let ghost before = acc.partitions@;
                            acc.partitions.push(p);
                            assert(partitions_view(acc.partitions@) =~= partitions_view(
                                before,
                            ).push(p@));
                        },
                        None => return None,
                    }
                }
            },
            Wire::Fixed => {},
        }
        pos = next;
    }
    Some(acc)
}

} // verus!
