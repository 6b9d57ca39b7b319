//! End-to-end tests of the CAR header, block and UnixFS decoders.

use ipfs_car::block_decoder::decode_block_content;
use ipfs_car::block_decoder::BlockDecodeResult;
use ipfs_car::car_header::decode_carv1_header;
use ipfs_car::car_header::decode_carv2_header;
use ipfs_car::cid::read_cid;
use ipfs_car::error::ErrorData;
use ipfs_car::unixfs::decode_unixfs;
use ipfs_car::varint::read_varint;

use sha2::Digest;

/// Unsigned LEB128 encoding, for building test inputs.
fn vi(mut v: u64) -> Vec<u8> {
    let mut out = Vec::new();
    while v >= 0x80 {
        out.push((v % 0x80 + 0x80) as u8);
        v /= 0x80;
    }
    out.push(v as u8);
    out
}

/// Raw CID bytes: version 1, the given codec, hash code and digest.
fn cid_bytes(codec: u64, hash_code: u64, digest: &[u8]) -> Vec<u8> {
    let mut out = vi(1);
    out.extend_from_slice(&vi(codec));
    out.extend_from_slice(&vi(hash_code));
    out.extend_from_slice(&vi(digest.len() as u64));
    out.extend_from_slice(digest);
    out
}

/// One length-prefixed block frame.
fn frame(cid: &[u8], content: &[u8]) -> Vec<u8> {
    let mut out = vi((cid.len() + content.len()) as u64);
    out.extend_from_slice(cid);
    out.extend_from_slice(content);
    out
}

/// A CARv1 header: varint length prefix, then the two-entry CBOR map with
/// the given root CID byte strings (each prefixed by the zero multibase
/// byte) and version 1.
fn carv1_header(roots: &[Vec<u8>]) -> Vec<u8> {
    let mut map = vec![0xa2u8];
    map.push(0x65);
    map.extend_from_slice(b"roots");
    assert!(roots.len() < 24);
    map.push(0x80 + roots.len() as u8);
    for r in roots {
        map.push(0xd8);
        map.push(0x2a);
        let inner_len = r.len() + 1;
        assert!(inner_len < 256);
        if inner_len < 24 {
            map.push(0x40 + inner_len as u8);
        } else {
            map.push(0x58);
            map.push(inner_len as u8);
        }
        map.push(0x00);
        map.extend_from_slice(r);
    }
    map.push(0x67);
    map.extend_from_slice(b"version");
    map.push(0x01);
    let mut out = vi(map.len() as u64);
    out.extend_from_slice(&map);
    out
}

/// A UnixFS node: outer message with an embedded metadata message.
fn unixfs_content(node_type: u64, filesize: Option<u64>) -> Vec<u8> {
    let mut inner = vec![0x08u8];
    inner.extend_from_slice(&vi(node_type));
    if let Some(f) = filesize {
        inner.push(0x18);
        inner.extend_from_slice(&vi(f));
    }
    let mut outer = vec![0x0au8];
    outer.extend_from_slice(&vi(inner.len() as u64));
    outer.extend_from_slice(&inner);
    outer
}

#[test]
fn varint_single_and_multi_byte() {
    let one = vec![0x07u8];
    assert_eq!(read_varint(&one, 0).unwrap(), (7, 1));
    let multi = vec![0xacu8, 0x02];
    assert_eq!(read_varint(&multi, 0).unwrap(), (300, 2));
}

#[test]
fn varint_truncated_and_oversized() {
    let cut = vec![0xffu8, 0xff];
    assert!(read_varint(&cut, 0).is_err());
    let too_long = vec![0xffu8; 11];
    let r = read_varint(&too_long, 0);
    assert_eq!(r.unwrap_err().error_code, 1);
}

#[test]
fn carv1_two_roots_in_order() {
    let r1 = cid_bytes(0x55, 0x00, &[1, 2, 3]);
    let r2 = cid_bytes(0x70, 0x00, &[4, 5]);
    let bytes = carv1_header(&[r1, r2]);
    let r = decode_carv1_header(&bytes);
    assert_eq!(r.error.error_code, 0);
    assert_eq!(r.data.version, 1);
    assert_eq!(r.data.roots.len(), 2);
    assert_eq!(r.data.roots[0], "bafkqaaybaibq");
    assert_eq!(r.data.roots[1], "bafyaaaqeau");
}

#[test]
fn carv1_zero_roots() {
    let bytes = carv1_header(&[]);
    let r = decode_carv1_header(&bytes);
    assert_eq!(r.error.error_code, 0);
    assert_eq!(r.data.version, 1);
    assert_eq!(r.data.roots.len(), 0);
}

#[test]
fn carv1_truncated_varint_is_error() {
    let bytes = vec![0x80u8];
    let r = decode_carv1_header(&bytes);
    assert_eq!(r.error.error_code, 1);
    assert_eq!(r.data.version, 0);
    assert!(r.data.roots.is_empty());
}

#[test]
fn carv1_length_beyond_buffer() {
    let bytes = vi(100);
    let r = decode_carv1_header(&bytes);
    assert_eq!(r.error.error_code, 4);
    assert!(r.data.roots.is_empty());
}

#[test]
fn carv1_malformed_map() {
    let mut bytes = vi(3);
    bytes.extend_from_slice(&[0x01, 0x02, 0x03]);
    let r = decode_carv1_header(&bytes);
    assert_eq!(r.error.error_code, 11);
}

#[test]
fn carv1_unsupported_version() {
    let mut map = vec![0xa2u8, 0x65];
    map.extend_from_slice(b"roots");
    map.push(0x80);
    map.push(0x67);
    map.extend_from_slice(b"version");
    map.push(0x02);
    let mut bytes = vi(map.len() as u64);
    bytes.extend_from_slice(&map);
    let r = decode_carv1_header(&bytes);
    assert_eq!(r.error.error_code, 5);
    assert!(r.data.roots.is_empty());
}

#[test]
fn carv1_bad_root_keeps_prefix() {
    let good = cid_bytes(0x55, 0x00, &[1, 2, 3]);
    let bad = vec![0x09u8, 0x55];
    let bytes = carv1_header(&[good, bad]);
    let r = decode_carv1_header(&bytes);
    assert_eq!(r.error.error_code, 6);
    assert_eq!(r.error.error, "malformed root at index 1");
    assert_eq!(r.data.version, 1);
    assert_eq!(r.data.roots.len(), 1);
    assert_eq!(r.data.roots[0], "bafkqaaybaibq");
}

#[test]
fn carv2_fields_roundtrip() {
    let mut bytes = vec![0x0au8, 0xa1, 0x67, 0x76, 0x65, 0x72, 0x73, 0x69, 0x6f, 0x6e, 0x02];
    bytes.extend_from_slice(&7u64.to_le_bytes());
    bytes.extend_from_slice(&9u64.to_le_bytes());
    bytes.extend_from_slice(&51u64.to_le_bytes());
    bytes.extend_from_slice(&4242u64.to_le_bytes());
    bytes.extend_from_slice(&9000u64.to_le_bytes());
    let r = decode_carv2_header(&bytes);
    assert_eq!(r.error.error_code, 0);
    assert_eq!(r.data.characteristics.data, [7, 9]);
    assert_eq!(r.data.data_offset, 51);
    assert_eq!(r.data.data_size, 4242);
    assert_eq!(r.data.index_offset, 9000);
}

#[test]
fn carv2_truncated() {
    let bytes = vec![0x0au8, 0xa1, 0x67];
    let r = decode_carv2_header(&bytes);
    assert_eq!(r.error.error_code, 8);
    assert_eq!(r.data.data_offset, 0);
    assert_eq!(r.data.data_size, 0);
    assert_eq!(r.data.index_offset, 0);
}

#[test]
fn carv2_bad_magic() {
    let mut bytes = vec![0x0bu8; 51];
    bytes[0] = 0x0a;
    let r = decode_carv2_header(&bytes);
    assert_eq!(r.error.error_code, 7);
    assert_eq!(r.data.data_offset, 0);
}

#[test]
fn block_identity_hash_verifies() {
    let content = b"leaf bytes";
    let cid = cid_bytes(0x55, 0x00, content);
    let bytes = frame(&cid, content);
    let r = decode_block_content(0, &bytes);
    assert_eq!(r.error.error_code, 0);
    assert!(r.verified);
    assert_eq!(r.content_data, content);
    assert_eq!(r.data_offset, 0);
}

#[test]
fn block_sha256_verifies_and_offset_echoes() {
    let content = b"hello world";
    let digest = sha2::Sha256::digest(content);
    let cid = cid_bytes(0x55, 0x12, &digest);
    let mut bytes = vec![0xeeu8; 5];
    bytes.extend_from_slice(&frame(&cid, content));
    let r = decode_block_content(5, &bytes);
    assert_eq!(r.error.error_code, 0);
    assert!(r.verified);
    assert_eq!(r.data_offset, 5);
    assert_eq!(
        r.cid,
        "bafkreifzjut3te2nhyekklss27nh3k72ysco7y32koao5eei66wof36n5e"
    );
    assert_eq!(r.content_data, content);
}

#[test]
fn block_corrupted_content_fails_verification() {
    let content = b"hello world".to_vec();
    let digest = sha2::Sha256::digest(&content);
    let cid = cid_bytes(0x55, 0x12, &digest);
    let bytes = frame(&cid, &content);
    let good = decode_block_content(0, &bytes);
    assert!(good.verified);
    let mut corrupt = bytes.clone();
    let last = corrupt.len() - 1;
    corrupt[last] ^= 0x01;
    let r = decode_block_content(0, &corrupt);
    assert_eq!(r.error.error_code, 0);
    assert!(!r.verified);
    assert_eq!(r.cid, good.cid);
    assert_eq!(r.content_data.len(), content.len());
    assert_ne!(r.content_data, content);
}

#[test]
fn block_unsupported_hash_keeps_content() {
    let content = b"some bytes";
    let cid = cid_bytes(0x55, 0x99, &[0xaa, 0xbb]);
    let bytes = frame(&cid, content);
    let r = decode_block_content(0, &bytes);
    assert_eq!(r.error.error_code, 10);
    assert!(!r.verified);
    assert_eq!(r.content_data, content);
    assert!(!r.cid.is_empty());
}

#[test]
fn block_truncated_varint_is_error() {
    let bytes = vec![0xffu8];
    let r = decode_block_content(0, &bytes);
    assert_eq!(r.error.error_code, 1);
    assert!(r.cid.is_empty());
    assert!(r.content_data.is_empty());
    assert!(!r.verified);
    assert!(!r.is_content);
    assert_eq!(r.data_offset, 0);
}

#[test]
fn block_frame_length_beyond_buffer() {
    let mut bytes = vi(100);
    bytes.push(0x00);
    let r = decode_block_content(0, &bytes);
    assert_eq!(r.error.error_code, 9);
}

#[test]
fn block_truncated_cid_digest() {
    let mut cid = vi(1);
    cid.extend_from_slice(&vi(0x55));
    cid.extend_from_slice(&vi(0x00));
    cid.extend_from_slice(&vi(32));
    cid.push(0x01);
    let bytes = frame(&cid, &[]);
    let r = decode_block_content(0, &bytes);
    assert_eq!(r.error.error_code, 2);
}

#[test]
fn block_unknown_cid_version() {
    let mut cid = vi(9);
    cid.extend_from_slice(&vi(0x55));
    let bytes = frame(&cid, &[1, 2]);
    let r = decode_block_content(0, &bytes);
    assert_eq!(r.error.error_code, 3);
}

#[test]
fn file_leaf_classifies_as_content() {
    let content = unixfs_content(2, Some(11));
    let cid: Vec<u8> = cid_bytes(0x70, 0x00, &content);
    let bytes = frame(&cid, &content);
    let r = decode_block_content(0, &bytes);
    assert_eq!(r.error.error_code, 0);
    assert!(r.is_content);
    assert_eq!(r.meta_data, "file 11");
}

#[test]
fn directory_classifies_as_non_content() {
    let content = unixfs_content(1, None);
    let cid: Vec<u8> = cid_bytes(0x70, 0x00, &content);
    let bytes = frame(&cid, &content);
    let r = decode_block_content(0, &bytes);
    assert_eq!(r.error.error_code, 0);
    assert!(!r.is_content);
    assert_eq!(r.meta_data, format!("directory {}", content.len()));
}

#[test]
fn file_with_links_is_not_leaf() {
    let mut content = unixfs_content(2, Some(100));
    let link = {
        let mut l: Vec<u8> = vec![0x0a, 0x03, 0x01, 0x02, 0x03];
        l.push(0x12);
        l.push(0x01);
        l.push(0x61);
        l
    };
    content.push(0x12);
    content.extend_from_slice(&vi(link.len() as u64));
    content.extend_from_slice(&link);
    let cid: Vec<u8> = cid_bytes(0x70, 0x00, &content);
    let bytes = frame(&cid, &content);
    let r = decode_block_content(0, &bytes);
    assert_eq!(r.error.error_code, 0);
    assert!(!r.is_content);
}

#[test]
fn opaque_bytes_are_non_content() {
    let content = b"not protobuf at all \xff\xff";
    let cid = cid_bytes(0x55, 0x00, content);
    let bytes = frame(&cid, content);
    let r = decode_block_content(0, &bytes);
    assert_eq!(r.error.error_code, 0);
    assert!(!r.is_content);
    assert_eq!(r.meta_data, format!("opaque {}", content.len()));
}

#[test]
fn decoding_twice_is_bit_identical() {
    let content = unixfs_content(2, Some(7));
    let cid: Vec<u8> = cid_bytes(0x70, 0x00, &content);
    let bytes = frame(&cid, &content);
    let r1 = decode_block_content(0, &bytes);
    let r2 = decode_block_content(0, &bytes);
    assert_eq!(r1.data_offset, r2.data_offset);
    assert_eq!(r1.cid, r2.cid);
    assert_eq!(r1.meta_data, r2.meta_data);
    assert_eq!(r1.content_data, r2.content_data);
    assert_eq!(r1.verified, r2.verified);
    assert_eq!(r1.is_content, r2.is_content);
    assert_eq!(r1.error.error_code, r2.error.error_code);
    let roots = cid_bytes(0x55, 0x00, &[1, 2, 3]);
    let hbytes = carv1_header(&[roots]);
    let h1 = decode_carv1_header(&hbytes);
    let h2 = decode_carv1_header(&hbytes);
    assert_eq!(h1.data.version, h2.data.version);
    assert_eq!(h1.data.roots, h2.data.roots);
    assert_eq!(h1.error.error_code, h2.error.error_code);
}

#[test]
fn verification_is_deterministic() {
    let content = b"same bytes";
    let digest = sha2::Sha256::digest(content);
    let cid = cid_bytes(0x55, 0x12, &digest);
    let bytes = frame(&cid, content);
    let first = decode_block_content(0, &bytes).verified;
    for _ in 0..3 {
        assert_eq!(decode_block_content(0, &bytes).verified, first);
    }
}

#[test]
fn default_block_result_is_all_defaults() {
    let r = BlockDecodeResult::default();
    assert_eq!(r.data_offset, 0);
    assert!(r.cid.is_empty());
    assert!(r.meta_data.is_empty());
    assert!(r.content_data.is_empty());
    assert!(!r.verified);
    assert!(!r.is_content);
    assert_eq!(r.error.error_code, 0);
}

#[test]
fn error_format_message() {
    let e = ErrorData::new("truncated cid", 2);
    assert_eq!(e.format_message(), "Error: truncated cid  Code: 2");
}

#[test]
fn unixfs_links_and_blocksizes_reported() {
    let mut content = unixfs_content(2, Some(20));
    let link: Vec<u8> = vec![0x0a, 0x02, 0xaa, 0xbb, 0x12, 0x03, 0x61, 0x62, 0x63, 0x18, 0x14];
    content.push(0x12);
    content.extend_from_slice(&vi(link.len() as u64));
    content.extend_from_slice(&link);
    let n = decode_unixfs(&content).unwrap();
    assert_eq!(n.node_type, 2);
    assert_eq!(n.filesize, Some(20));
    assert_eq!(n.links.len(), 1);
    assert_eq!(n.links[0].hash, vec![0xaa, 0xbb]);
    assert_eq!(n.links[0].name, b"abc");
    assert_eq!(n.links[0].tsize, Some(20));
}

#[test]
fn file_with_blocksizes_is_not_leaf() {
    let inner: Vec<u8> = vec![0x08, 0x02, 0x20, 0x0a, 0x20, 0x0b];
    let mut content: Vec<u8> = vec![0x0a];
    content.push(inner.len() as u8);
    content.extend_from_slice(&inner);
    let cid: Vec<u8> = cid_bytes(0x70, 0x00, &content);
    let bytes = frame(&cid, &content);
    let r = decode_block_content(0, &bytes);
    assert_eq!(r.error.error_code, 0);
    assert!(!r.is_content);
}

#[test]
fn read_cid_reports_fields() {
    let bytes = cid_bytes(0x70, 0x12, &[9u8; 32]);
    let (cid, end) = read_cid(&bytes, 0).unwrap();
    assert_eq!(end, bytes.len());
    assert_eq!(cid.version, 1);
    assert_eq!(cid.codec, 0x70);
    assert_eq!(cid.hash_code, 0x12);
    assert_eq!(cid.digest, vec![9u8; 32]);
    let bad = read_cid(&bytes, 1);
    assert!(bad.is_err());
}

#[test]
fn cid_canonical_bytes_roundtrip() {
    let bytes = cid_bytes(0x55, 0x00, &[1, 2, 3]);
    let (cid, _) = read_cid(&bytes, 0).unwrap();
    assert_eq!(ipfs_car::cid::cid_encoded_bytes(&cid), bytes);
}

#[test]
fn cid_padded_varint_reencodes_canonically() {
    let padded: Vec<u8> = vec![0x01, 0xd5, 0x00, 0x00, 0x02, 0x08, 0x09];
    let (cid, end) = read_cid(&padded, 0).unwrap();
    assert_eq!(end, padded.len());
    assert_eq!(cid.codec, 0x55);
    let canonical = cid_bytes(0x55, 0x00, &[0x08, 0x09]);
    assert_eq!(ipfs_car::cid::cid_encoded_bytes(&cid), canonical);
}
