use ota_payload::bytes::read_varint;
use ota_payload::error::PayloadError;
use ota_payload::extract::{default_output_name, extract_image, load_manifest};
use ota_payload::header::{parse_header, Header};
use ota_payload::image::{decompress, write_bytes};
use ota_payload::manifest::{decode_manifest, op_type_from, OpType};
use ota_payload::plan::{plan_operations, replay_order, Action, Codec};
use ota_payload::select::select_partition;

const REPLACE: u64 = 0;
const REPLACE_BZ: u64 = 1;
const ZERO: u64 = 6;
const REPLACE_XZ: u64 = 8;
const SOURCE_COPY: u64 = 4;

fn varint(mut v: u64) -> Vec<u8> {
    let mut out = Vec::new();
    loop {
        let b = (v & 0x7f) as u8;
        v >>= 7;
        if v == 0 {
            out.push(b);
            return out;
        }
        out.push(b | 0x80);
    }
}

fn field_varint(num: u64, v: u64) -> Vec<u8> {
    let mut out = varint(num << 3);
    out.extend(varint(v));
    out
}

fn field_bytes(num: u64, b: &[u8]) -> Vec<u8> {
    let mut out = varint((num << 3) | 2);
    out.extend(varint(b.len() as u64));
    out.extend_from_slice(b);
    out
}

fn extent(start: u64, num: u64) -> Vec<u8> {
    let mut out = field_varint(1, start);
    out.extend(field_varint(2, num));
    out
}

fn operation(kind: u64, offset: Option<u64>, length: Option<u64>, extents: &[(u64, u64)]) -> Vec<u8> {
    let mut out = field_varint(1, kind);
    if let Some(o) = offset {
        out.extend(field_varint(2, o));
    }
    if let Some(l) = length {
        out.extend(field_varint(3, l));
    }
    for (s, n) in extents {
        out.extend(field_bytes(6, &extent(*s, *n)));
    }
    out
}

fn partition(name: &str, ops: &[Vec<u8>]) -> Vec<u8> {
    let mut out = field_bytes(1, name.as_bytes());
    for o in ops {
        out.extend(field_bytes(8, o));
    }
    out
}

fn manifest(block_size: u32, minor: u32, parts: &[Vec<u8>]) -> Vec<u8> {
    let mut out = field_varint(3, block_size as u64);
    if minor != 0 {
        out.extend(field_varint(12, minor as u64));
    }
    for p in parts {
        out.extend(field_bytes(13, p));
    }
    out
}

fn payload(manifest: &[u8], data: &[u8]) -> Vec<u8> {
    let sig = [0xaau8; 3];
    let mut out = b"CrAU".to_vec();
    out.extend_from_slice(&2u64.to_be_bytes());
    out.extend_from_slice(&(manifest.len() as u64).to_be_bytes());
    out.extend_from_slice(&(sig.len() as u32).to_be_bytes());
    out.extend_from_slice(manifest);
    out.extend_from_slice(&sig);
    out.extend_from_slice(data);
    out
}

fn xz(data: &[u8]) -> Vec<u8> {
    let mut input = data;
    let mut out = Vec::new();
    lzma_rs::xz_compress(&mut input, &mut out).unwrap();
    out
}

#[test]
fn header_is_decoded() {
    let p = payload(&[1, 2, 3], &[]);
    assert_eq!(
        parse_header(&p),
        Ok(Header { version: 2, manifest_len: 3, signature_len: 3 })
    );
}

#[test]
fn bad_magic_fails_before_manifest() {
    let mut p = payload(&manifest(4, 0, &[partition("boot", &[])]), &[]);
    p[3] = b'V';
    assert_eq!(parse_header(&p), Err(PayloadError::InvalidMagic));
    assert_eq!(extract_image(&p, None).err(), Some(PayloadError::InvalidMagic));
    // only the magic is present: nothing past it is needed to fail
    assert_eq!(parse_header(b"XXXX"), Err(PayloadError::InvalidMagic));
}

#[test]
fn header_errors() {
    assert_eq!(parse_header(b"CrA"), Err(PayloadError::Truncated));
    let mut p = payload(&[1], &[]);
    p[11] = 3;
    assert_eq!(parse_header(&p), Err(PayloadError::UnsupportedVersion(3)));
    let mut p = payload(&[1], &[]);
    p[19] = 0;
    assert_eq!(parse_header(&p), Err(PayloadError::ManifestLengthZero));
    let mut p = payload(&[1], &[]);
    p[23] = 0;
    assert_eq!(parse_header(&p), Err(PayloadError::SignatureLengthZero));
    assert_eq!(parse_header(&payload(&[1], &[])[..20]), Err(PayloadError::Truncated));
}

#[test]
fn varints_are_read() {
    assert_eq!(read_varint(&[0xac, 0x02, 0x05], 0), Some((300, 2)));
    assert_eq!(read_varint(&[0x00, 0x7f], 1), Some((127, 2)));
    assert_eq!(read_varint(&[0x80, 0x80], 0), None);
    assert_eq!(read_varint(&[0xff; 11], 0), None);
}

#[test]
fn manifest_is_decoded() {
    let ops = vec![operation(ZERO, Some(5), Some(0), &[(1, 2), (7, 1)])];
    let m = decode_manifest(&manifest(512, 0, &[partition("system", &[]), partition("boot", &ops)]))
        .unwrap();
    assert_eq!(m.block_size, 512);
    assert_eq!(m.minor_version, 0);
    assert_eq!(m.partitions.len(), 2);
    assert_eq!(m.partitions[1].partition_name, b"boot".to_vec());
    let op = &m.partitions[1].operations[0];
    assert_eq!(op.op_type, OpType::Zero);
    assert_eq!(op.data_offset, Some(5));
    assert_eq!(op.data_length, Some(0));
    assert_eq!(op.dst_extents.len(), 2);
    assert_eq!(op.dst_extents[1].start_block, Some(7));
    assert_eq!(op.dst_extents[1].num_blocks, Some(1));
}

#[test]
fn manifest_defaults_block_size() {
    let m = decode_manifest(&field_bytes(13, &partition("boot", &[]))).unwrap();
    assert_eq!(m.block_size, 4096);
}

#[test]
fn malformed_manifest_is_refused() {
    assert!(decode_manifest(&[0x1a, 0x05, 0x01]).is_none());
    assert_eq!(load_manifest(&[0x1a, 0x05, 0x01]).err(), Some(PayloadError::ManifestDecode));
    let p = payload(&[0x1a, 0x05, 0x01], &[]);
    assert_eq!(extract_image(&p, None).err(), Some(PayloadError::ManifestDecode));
}

#[test]
fn delta_payload_is_refused() {
    let m = manifest(4, 3, &[partition("boot", &[operation(SOURCE_COPY, Some(0), Some(0), &[(0, 1)])])]);
    assert_eq!(load_manifest(&m).err(), Some(PayloadError::DeltaPayload));
    let p = payload(&m, &[]);
    let e = extract_image(&p, None).err().unwrap();
    assert_eq!(e, PayloadError::DeltaPayload);
    assert_ne!(e.message(), PayloadError::ManifestDecode.message());
}

#[test]
fn init_boot_is_preferred() {
    let m = decode_manifest(&manifest(
        4,
        0,
        &[partition("boot", &[]), partition("system", &[]), partition("init_boot", &[])],
    ))
    .unwrap();
    assert_eq!(select_partition(&m, None), Ok(2));
}

#[test]
fn boot_is_the_fallback() {
    let m = decode_manifest(&manifest(4, 0, &[partition("system", &[]), partition("boot", &[])]))
        .unwrap();
    assert_eq!(select_partition(&m, None), Ok(1));
}

#[test]
fn missing_boot_is_not_found() {
    let m = decode_manifest(&manifest(4, 0, &[partition("system", &[])])).unwrap();
    assert_eq!(select_partition(&m, None), Err(PayloadError::BootPartitionNotFound));
    let p = payload(&manifest(4, 0, &[partition("system", &[])]), &[]);
    assert_eq!(extract_image(&p, None).err(), Some(PayloadError::BootPartitionNotFound));
}

#[test]
fn named_partition_is_selected() {
    let m = decode_manifest(&manifest(4, 0, &[partition("boot", &[]), partition("vendor_boot", &[])]))
        .unwrap();
    assert_eq!(select_partition(&m, Some("vendor_boot")), Ok(1));
    assert_eq!(
        select_partition(&m, Some("vendor")),
        Err(PayloadError::PartitionNotFound("vendor".to_string()))
    );
}

#[test]
fn operations_are_ordered_by_data_offset() {
    let ops = vec![
        operation(REPLACE, Some(8), Some(4), &[(0, 1)]),
        operation(REPLACE, Some(0), Some(4), &[(1, 1)]),
        operation(REPLACE, Some(4), Some(4), &[(2, 1)]),
        operation(REPLACE, Some(4), Some(0), &[(3, 1)]),
    ];
    let m = decode_manifest(&manifest(4, 0, &[partition("boot", &ops)])).unwrap();
    assert_eq!(replay_order(&m.partitions[0].operations), vec![1, 2, 3, 0]);
}

#[test]
fn replace_operations_in_any_order() {
    let data: Vec<u8> = (0u8..12).collect();
    let ops = vec![
        operation(REPLACE, Some(8), Some(4), &[(0, 1)]),
        operation(REPLACE, Some(0), Some(4), &[(2, 1)]),
        operation(REPLACE, Some(4), Some(4), &[(1, 1)]),
    ];
    let p = payload(&manifest(4, 0, &[partition("boot", &ops)]), &data);
    let x = extract_image(&p, None).unwrap();
    assert_eq!(x.partition_name, b"boot".to_vec());
    assert_eq!(x.image, vec![8, 9, 10, 11, 4, 5, 6, 7, 0, 1, 2, 3]);
}

#[test]
fn skipped_data_is_not_written() {
    let data: Vec<u8> = (0u8..10).collect();
    let ops = vec![operation(REPLACE, Some(6), Some(2), &[(1, 1)])];
    let p = payload(&manifest(2, 0, &[partition("boot", &ops)]), &data);
    let x = extract_image(&p, None).unwrap();
    assert_eq!(x.image, vec![0, 0, 6, 7]);
}

#[test]
fn zero_operation_clears_every_extent() {
    let data = vec![0xffu8; 16];
    let ops = vec![
        operation(REPLACE, Some(0), Some(16), &[(0, 4)]),
        operation(ZERO, Some(16), Some(0), &[(0, 1), (2, 2)]),
    ];
    let p = payload(&manifest(4, 0, &[partition("boot", &ops)]), &data);
    let x = extract_image(&p, None).unwrap();
    let mut expected = vec![0u8; 16];
    expected[4..8].copy_from_slice(&[0xff; 4]);
    assert_eq!(x.image, expected);
}

#[test]
fn zero_ranges_use_block_size() {
    let ops = vec![operation(ZERO, Some(0), Some(0), &[(1, 3)])];
    let m = decode_manifest(&manifest(4, 0, &[partition("boot", &ops)])).unwrap();
    let steps = plan_operations(&m.partitions[0].operations, m.block_size).unwrap();
    match &steps[0].action {
        Action::Zero(rs) => {
            assert_eq!(rs.len(), 1);
            assert_eq!(rs[0].offset, 4);
            assert_eq!(rs[0].len, 12);
        }
        other => panic!("unexpected action {:?}", other),
    }
}

#[test]
fn xz_round_trip_reproduces_image() {
    let image: Vec<u8> = (0..64u32).map(|i| (i * 7 % 251) as u8).collect();
    let mut data = Vec::new();
    let mut ops = Vec::new();
    for (i, block) in image.chunks(16).enumerate() {
        let c = xz(block);
        ops.push(operation(REPLACE_XZ, Some(data.len() as u64), Some(c.len() as u64), &[(i as u64, 1)]));
        data.extend(c);
    }
    ops.reverse();
    let p = payload(&manifest(16, 0, &[partition("init_boot", &ops)]), &data);
    let x = extract_image(&p, None).unwrap();
    assert_eq!(x.partition_name, b"init_boot".to_vec());
    assert_eq!(x.image, image);
}

#[test]
fn decompression_codecs() {
    assert_eq!(decompress(Codec::Xz, &xz(b"hello")), Some(b"hello".to_vec()));
    assert_eq!(decompress(Codec::Xz, b"hello"), None);
    let empty_bz2 = [0x42u8, 0x5a, 0x68, 0x39, 0x17, 0x72, 0x45, 0x38, 0x50, 0x90, 0, 0, 0, 0];
    assert_eq!(decompress(Codec::Bzip2, &empty_bz2), Some(vec![]));
    assert_eq!(decompress(Codec::Bzip2, b"not bzip2 data"), None);
}

#[test]
fn bad_compressed_data_fails() {
    let ops = vec![operation(REPLACE_BZ, Some(0), Some(4), &[(0, 1)])];
    let p = payload(&manifest(4, 0, &[partition("boot", &ops)]), &[1, 2, 3, 4]);
    assert_eq!(extract_image(&p, None).err(), Some(PayloadError::DecompressionFailed));
}

#[test]
fn overlapping_data_is_refused() {
    let ops = vec![
        operation(REPLACE, Some(0), Some(8), &[(0, 2)]),
        operation(REPLACE, Some(4), Some(4), &[(2, 1)]),
    ];
    let m = decode_manifest(&manifest(4, 0, &[partition("boot", &ops)])).unwrap();
    assert_eq!(
        plan_operations(&m.partitions[0].operations, 4).err(),
        Some(PayloadError::OverlappingData)
    );
    let p = payload(&manifest(4, 0, &[partition("boot", &ops)]), &[0u8; 8]);
    assert_eq!(extract_image(&p, None).err(), Some(PayloadError::OverlappingData));
}

#[test]
fn structural_errors() {
    let cases = vec![
        (operation(REPLACE, Some(0), None, &[(0, 1)]), PayloadError::DataLengthMissing),
        (operation(REPLACE, None, Some(0), &[(0, 1)]), PayloadError::DataOffsetMissing),
        (operation(REPLACE, Some(0), Some(0), &[]), PayloadError::DstExtentsMissing),
        (operation(SOURCE_COPY, Some(0), Some(0), &[(0, 1)]), PayloadError::UnsupportedOperation),
        (operation(REPLACE, Some(0), Some(0), &[(u64::MAX, 1)]), PayloadError::OffsetOverflow),
    ];
    for (op, err) in cases {
        let m = decode_manifest(&manifest(4, 0, &[partition("boot", &[op])])).unwrap();
        assert_eq!(plan_operations(&m.partitions[0].operations, 4).err(), Some(err));
    }
    let mut no_start = field_varint(1, REPLACE);
    no_start.extend(field_varint(2, 0));
    no_start.extend(field_varint(3, 0));
    no_start.extend(field_bytes(6, &field_varint(2, 1)));
    let m = decode_manifest(&manifest(4, 0, &[partition("boot", &[no_start])])).unwrap();
    assert_eq!(
        plan_operations(&m.partitions[0].operations, 4).err(),
        Some(PayloadError::StartBlockMissing)
    );
    let mut no_count = field_varint(1, ZERO);
    no_count.extend(field_varint(2, 0));
    no_count.extend(field_varint(3, 0));
    no_count.extend(field_bytes(6, &field_varint(1, 1)));
    let m = decode_manifest(&manifest(4, 0, &[partition("boot", &[no_count])])).unwrap();
    assert_eq!(
        plan_operations(&m.partitions[0].operations, 4).err(),
        Some(PayloadError::NumBlocksMissing)
    );
}

#[test]
fn truncated_data_fails() {
    let ops = vec![operation(REPLACE, Some(0), Some(8), &[(0, 2)])];
    let p = payload(&manifest(4, 0, &[partition("boot", &ops)]), &[1, 2, 3]);
    assert_eq!(extract_image(&p, None).err(), Some(PayloadError::Truncated));
}

#[test]
fn write_grows_image_with_zeros() {
    let mut img = vec![1u8, 2];
    write_bytes(&mut img, 4, &[9, 9]);
    assert_eq!(img, vec![1, 2, 0, 0, 9, 9]);
}

#[test]
fn output_name_defaults_to_partition() {
    assert_eq!(default_output_name(b"init_boot"), b"init_boot.img".to_vec());
}

#[test]
fn partition_name_must_be_utf8() {
    let mut bad = field_bytes(1, &[0x62, 0xff, 0x6f]);
    bad.extend(field_bytes(8, &operation(REPLACE, Some(0), Some(0), &[(0, 1)])));
    assert!(decode_manifest(&manifest(4, 0, &[bad])).is_none());
    let good = partition("bööt", &[]);
    let m = decode_manifest(&manifest(4, 0, &[good])).unwrap();
    assert_eq!(m.partitions[0].partition_name, "bööt".as_bytes().to_vec());
}

#[test]
fn operation_type_numbers() {
    assert_eq!(op_type_from(0), OpType::Replace);
    assert_eq!(op_type_from(1), OpType::ReplaceBz);
    assert_eq!(op_type_from(6), OpType::Zero);
    assert_eq!(op_type_from(8), OpType::ReplaceXz);
    assert_eq!(op_type_from(9), OpType::Other(9));
}

#[test]
fn messages_name_the_failure() {
    assert_eq!(PayloadError::InvalidMagic.message(), "invalid payload: invalid magic");
    assert_eq!(
        PayloadError::UnsupportedVersion(3).message(),
        "invalid payload: unsupported version: 3"
    );
    assert_eq!(
        PayloadError::UnsupportedVersion(1234567890).message(),
        "invalid payload: unsupported version: 1234567890"
    );
    assert_eq!(
        PayloadError::UnsupportedVersion(0).message(),
        "invalid payload: unsupported version: 0"
    );
    assert_eq!(
        PayloadError::PartitionNotFound("vendor".to_string()).message(),
        "partition 'vendor' not found"
    );
    assert_eq!(
        PayloadError::DeltaPayload.message(),
        "invalid payload: delta payloads are not supported, please use a full payload file"
    );
    assert_eq!(PayloadError::BootPartitionNotFound.message(), "boot partition not found");
}

#[test]
fn corrupt_xz_is_refused() {
    let mut c = xz(b"some image bytes");
    let n = c.len();
    assert_eq!(decompress(Codec::Xz, &c[..n - 1]), None);
    c[1] ^= 0x55;
    assert_eq!(decompress(Codec::Xz, &c), None);
}
