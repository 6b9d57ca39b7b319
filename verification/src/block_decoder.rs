//! Block extraction and verification: reads one length-prefixed block
//! frame at a byte offset, splits it into CID and content, recomputes the
//! content digest against the CID, and classifies the content.

use vstd::prelude::*;

use crate::cid::cid_string_of;
use crate::cid::cid_to_string;
use crate::cid::parse_cid;
use crate::cid::read_cid;
use crate::cid::CidParse;
use crate::cid::SpecCid;
use crate::digest::digest_matches;
use crate::digest::hash_supported;
use crate::digest::verify_digest;
use crate::digest::MH_IDENTITY;
use crate::digest::MH_SHA2_256;
use crate::error::ErrorData;
use crate::error::FRAME_LENGTH_ERROR;
use crate::error::MALFORMED_VARINT;
use crate::error::NO_ERROR;
use crate::error::TRUNCATED_CID;
use crate::error::UNKNOWN_MULTIBASE;
use crate::error::UNSUPPORTED_HASH_ALGORITHM;
use crate::text::append_decimal;
use crate::text::dec_digits;
use crate::unixfs::decode_unixfs;
use crate::unixfs::is_file_leaf;
use crate::unixfs::unixfs_node;
use crate::varint::parse_varint;
use crate::varint::read_varint;
use vstd::slice::slice_subrange;
use vstd::slice::slice_to_vec;
use vstd::string::StringExecFns;

verus! {

/// A decoded block. `data_offset` echoes the frame's offset in every
/// outcome; `verified` says whether the recomputed digest matches the
/// CID; `is_content` says whether the content is raw file leaf data.
#[derive(Debug)]
pub struct BlockDecodeResult {
    pub data_offset: usize,
    pub cid: String,
    pub meta_data: String,
    pub content_data: Vec<u8>,
    pub verified: bool,
    pub is_content: bool,
    pub error: ErrorData,
}

/// Outcome of framing one block.
pub enum BlockParse {
    /// The frame was split into a CID and its content bytes.
    Framed { cid: SpecCid, content: Seq<u8> },
    /// The frame length varint is malformed.
    VarintError,
    /// The declared frame length exceeds the remaining buffer.
    LengthError,
    /// The CID inside the frame is truncated.
    CidTruncated,
    /// The CID version inside the frame is not recognized.
    CidBadVersion,
}

/// The block frame grammar: a varint frame length, then one CID, then
/// content bytes to the end of the frame.
pub open spec fn parse_block(s: Seq<u8>, offset: int) -> BlockParse {
    match parse_varint(s, offset) {
        None => BlockParse::VarintError,
        Some((flen, p)) => {
            if p + flen > s.len() {
                BlockParse::LengthError
            } else {
                let frame = s.subrange(p, p + flen);
                match parse_cid(frame, 0) {
                    CidParse::Truncated => BlockParse::CidTruncated,
                    CidParse::UnknownVersion => BlockParse::CidBadVersion,
                    CidParse::Parsed { cid, end } => BlockParse::Framed {
                        cid,
                        content: frame.subrange(end, frame.len() as int),
                    },
                }
            }
        },
    }
}

/// The label of a UnixFS type tag.
pub open spec fn type_label(t: u64) -> Seq<char> {
    if t == 0 {
        "raw"@
    } else if t == 1 {
        "directory"@
    } else if t == 2 {
        "file"@
    } else if t == 3 {
        "metadata"@
    } else if t == 4 {
        "symlink"@
    } else if t == 5 {
        "hamtshard"@
    } else {
        "unknown"@
    }
}

/// The human-readable summary of block content: its type and its size
/// (the declared file size when present, else the content length).
pub open spec fn meta_string(content: Seq<u8>) -> Seq<char> {
    match unixfs_node(content) {
        Some(n) => type_label(n.node_type) + " "@ + dec_digits(
            match n.filesize {
                Some(f) => f as nat,
                None => content.len(),
            },
        ),
        None => "opaque "@ + dec_digits(content.len()),
    }
}

/// A failed block result: safe defaults plus the given error.
pub open spec fn block_failed(r: BlockDecodeResult, code: u16, msg: Seq<char>) -> bool {
    &&& r.cid@ == Seq::<char>::empty()
    &&& r.meta_data@ == Seq::<char>::empty()
    &&& r.content_data@ == Seq::<u8>::empty()
    &&& r.verified == false
    &&& r.is_content == false
    &&& r.error.error_code == code
    &&& r.error.error@ == msg
}

/// What `decode_block_content` promises of its result, case by case over
/// the frame grammar. The offset is echoed back in every outcome.
pub open spec fn block_result_matches(r: BlockDecodeResult, offset: int, s: Seq<u8>) -> bool {
    &&& r.data_offset == offset
    &&& match parse_block(s, offset) {
        BlockParse::Framed { cid, content } => {
            &&& r.cid@ == cid_string_of(cid)
            &&& r.content_data@ == content
            &&& r.verified == digest_matches(cid, content)
            &&& r.is_content == is_file_leaf(content)
            &&& r.meta_data@ == meta_string(content)
            &&& if hash_supported(cid.hash_code) {
                r.error.error_code == NO_ERROR && r.error.error@ == Seq::<char>::empty()
            } else {
                r.error.error_code == UNSUPPORTED_HASH_ALGORITHM && r.error.error@
                    == "unsupported multihash code"@
            }
        },
        BlockParse::VarintError => block_failed(r, MALFORMED_VARINT, "malformed varint"@),
        BlockParse::LengthError => block_failed(
            r,
            FRAME_LENGTH_ERROR,
            "block frame exceeds buffer"@,
        ),
        BlockParse::CidTruncated => block_failed(r, TRUNCATED_CID, "truncated cid"@),
        BlockParse::CidBadVersion => block_failed(r, UNKNOWN_MULTIBASE, "unrecognized cid version"@),
    }
}

/// Builds a block failure result with default data fields and the echoed
/// offset.
fn block_failure(offset: usize, e: ErrorData) -> (r: BlockDecodeResult)
    ensures
        block_failed(r, e.error_code, e.error@),
        r.data_offset == offset,
{
    BlockDecodeResult {
        data_offset: offset,
        cid: String::new(),
        meta_data: String::new(),
        content_data: Vec::new(),
        verified: false,
        is_content: false,
        error: e,
    }
}

/// Decodes the block frame at `offset`: reads the frame length, splits
/// the frame into CID and content, recomputes the content digest against
/// the CID, and classifies the content as raw file leaf data or not.
/// Verification and classification failures are reported in the boolean
/// fields, not as errors; the error field is set only for frame-level
/// failures and for an unsupported multihash code, and the block's bytes
/// are returned in every framed outcome.
pub fn decode_block_content(offset: usize, data: &[u8]) -> (r: BlockDecodeResult)
    ensures
        block_result_matches(r, offset as int, data@),
{
    let first = match read_varint(data, offset) {
        Ok(t) => t,
        Err(e) => {
            return block_failure(offset, e);
        },
    };
    let flen = first.0;
    let p = first.1;
    if flen > (data.len() - p) as u64 {
        return block_failure(
            offset,
            ErrorData::new("block frame exceeds buffer", FRAME_LENGTH_ERROR),
        );
    }
    let frame_end = p + flen as usize;
    let frame = slice_subrange(data, p, frame_end);
    let parsed = match read_cid(frame, 0) {
        Ok(t) => t,
        Err(e) => {
            return block_failure(offset, e);
        },
    };
    let cid = parsed.0;
    let cid_end = parsed.1;
    let content = slice_to_vec(slice_subrange(frame, cid_end, frame.len()));
    let verified = verify_digest(&cid, content.as_slice());
    let node = decode_unixfs(content.as_slice());
    let is_content = match &node {
        Some(n) => n.node_type == 2 && n.blocksizes.len() == 0 && n.links.len() == 0,
        None => false,
    };
    let mut meta = String::new();
    match &node {
        Some(n) => {
            if n.node_type == 0 {
                meta.append("raw");
            } else if n.node_type == 1 {
                meta.append("directory");
            } else if n.node_type == 2 {
                meta.append("file");
            } else if n.node_type == 3 {
                meta.append("metadata");
            } else if n.node_type == 4 {
                meta.append("symlink");
            } else if n.node_type == 5 {
                meta.append("hamtshard");
            } else {
                meta.append("unknown");
            }
            meta.append(" ");
            let size: u64 = match n.filesize {
                Some(f) => f,
                None => content.len() as u64,
            };
            append_decimal(&mut meta, size);
        },
        None => {
            meta.append("opaque ");
            append_decimal(&mut meta, content.len() as u64);
        },
    }
    proof {
        assert(meta@ =~= meta_string(content@));
    }
    let error = if cid.hash_code == MH_IDENTITY || cid.hash_code == MH_SHA2_256 {
        ErrorData::none()
    } else {
        ErrorData::new("unsupported multihash code", UNSUPPORTED_HASH_ALGORITHM)
    };
    let cid_str = cid_to_string(&cid);
    BlockDecodeResult {
        data_offset: offset,
        cid: cid_str,
        meta_data: meta,
        content_data: content,
        verified,
        is_content,
        error,
    }
}

impl Default for BlockDecodeResult {
    /// The all-defaults result: zero offset, empty strings and bytes,
    /// nothing verified, no error.
    fn default() -> (r: BlockDecodeResult)
        ensures
            r.data_offset == 0,
            r.cid@ == Seq::<char>::empty(),
            r.meta_data@ == Seq::<char>::empty(),
            r.content_data@ == Seq::<u8>::empty(),
            r.verified == false,
            r.is_content == false,
            r.error.error_code == NO_ERROR,
            r.error.error@ == Seq::<char>::empty(),
    {
        BlockDecodeResult {
            data_offset: 0,
            cid: String::new(),
            meta_data: String::new(),
            content_data: Vec::new(),
            verified: false,
            is_content: false,
            error: ErrorData::none(),
        }
    }
}

/// Offset echo invariant: whatever the outcome, the result's
/// `data_offset` is the offset the decode was asked about.
pub proof fn lemma_block_offset_echo(r: BlockDecodeResult, offset: int, s: Seq<u8>)
    requires
        block_result_matches(r, offset, s),
    ensures
        r.data_offset == offset,
{
}

/// A buffer whose frame length varint is malformed (for instance, one
/// truncated mid-varint) decodes to an error result with default data
/// fields, never a panic.
pub proof fn lemma_truncated_varint_is_error(r: BlockDecodeResult, offset: int, s: Seq<u8>)
    requires
        block_result_matches(r, offset, s),
        parse_varint(s, offset) is None,
    ensures
        r.error.error_code == MALFORMED_VARINT,
        r.cid@ == Seq::<char>::empty(),
        r.content_data@ == Seq::<u8>::empty(),
        r.verified == false,
        r.is_content == false,
{
}

/// An unsupported multihash code yields `verified == false` and the
/// unsupported-hash error, while the CID and the content bytes are still
/// returned.
pub proof fn lemma_unsupported_hash_keeps_content(r: BlockDecodeResult, offset: int, s: Seq<u8>)
    requires
        block_result_matches(r, offset, s),
        parse_block(s, offset) is Framed,
        !hash_supported(parse_block(s, offset)->Framed_cid.hash_code),
    ensures
        r.error.error_code == UNSUPPORTED_HASH_ALGORITHM,
        r.verified == false,
        r.cid@ == cid_string_of(parse_block(s, offset)->Framed_cid),
        r.content_data@ == parse_block(s, offset)->Framed_content,
{
}

/// Position just past the frame length varint of a framed block.
pub open spec fn block_frame_start(s: Seq<u8>, offset: int) -> int {
    parse_varint(s, offset).unwrap().1
}

/// Position just past the last byte of a framed block.
pub open spec fn block_frame_end(s: Seq<u8>, offset: int) -> int {
    block_frame_start(s, offset) + parse_varint(s, offset).unwrap().0
}

/// Position of the first content byte of a framed block.
pub open spec fn block_content_start(s: Seq<u8>, offset: int) -> int {
    block_frame_start(s, offset) + parse_cid(
        s.subrange(block_frame_start(s, offset), block_frame_end(s, offset)),
        0,
    )->Parsed_end
}

/// Changing one byte inside a framed block's content leaves the frame
/// decodable with the same CID; only the content byte changes. (Whether
/// the changed content still verifies is a separate question for the
/// digest.)
pub proof fn lemma_corruption_keeps_frame(s1: Seq<u8>, s2: Seq<u8>, offset: int, i: int)
    requires
        parse_block(s1, offset) is Framed,
        s1.len() == s2.len(),
        forall|j: int| 0 <= j < s1.len() && j != i ==> s1[j] == s2[j],
        block_content_start(s1, offset) <= i < block_frame_end(s1, offset),
    ensures
        parse_block(s2, offset) is Framed,
        parse_block(s2, offset)->Framed_cid == parse_block(s1, offset)->Framed_cid,
        parse_block(s2, offset)->Framed_content == parse_block(
            s1,
            offset,
        )->Framed_content.update(i - block_content_start(s1, offset), s2[i]),
{
    let flen = parse_varint(s1, offset).unwrap().0;
    let p = parse_varint(s1, offset).unwrap().1;
    crate::varint::lemma_varint_advances(s1, offset);
    let frame1 = s1.subrange(p, p + flen);
    let cid_end = parse_cid(frame1, 0)->Parsed_end;
    crate::cid::lemma_cid_parse_advances(frame1, 0);
    crate::varint::lemma_varint_local(s1, s2, offset);
    let frame2 = s2.subrange(p, p + flen);
    assert(forall|j: int| 0 <= j < cid_end ==> frame1[j] == frame2[j]);
    crate::cid::lemma_cid_parse_local(frame1, frame2, 0);
    assert(frame2.subrange(cid_end, frame2.len() as int) =~= frame1.subrange(
        cid_end,
        frame1.len() as int,
    ).update(i - (p + cid_end), s2[i]));
}

/// Re-running the decode after one byte inside `content` changed still
/// succeeds at the frame level: the same CID string and the same offset
/// come back, and the returned content differs only in that byte. Whether
/// `verified` flips is left to the digest comparison.
pub proof fn lemma_corrupted_block_still_decodes(
    r1: BlockDecodeResult,
    r2: BlockDecodeResult,
    offset: int,
    s1: Seq<u8>,
    s2: Seq<u8>,
    i: int,
)
    requires
        block_result_matches(r1, offset, s1),
        block_result_matches(r2, offset, s2),
        parse_block(s1, offset) is Framed,
        s1.len() == s2.len(),
        forall|j: int| 0 <= j < s1.len() && j != i ==> s1[j] == s2[j],
        block_content_start(s1, offset) <= i < block_frame_end(s1, offset),
    ensures
        r2.cid@ == r1.cid@,
        r2.data_offset == r1.data_offset,
        r2.content_data@ == r1.content_data@.update(
            i - block_content_start(s1, offset),
            s2[i],
        ),
{
    lemma_corruption_keeps_frame(s1, s2, offset, i);
}

/// Decoding the same block bytes twice yields bit-identical results:
/// every field of the outcome is pinned by the offset and the bytes.
pub proof fn lemma_block_deterministic(
    r1: BlockDecodeResult,
    r2: BlockDecodeResult,
    offset: int,
    s: Seq<u8>,
)
    requires
        block_result_matches(r1, offset, s),
        block_result_matches(r2, offset, s),
    ensures
        r1.data_offset == r2.data_offset,
        r1.cid@ == r2.cid@,
        r1.meta_data@ == r2.meta_data@,
        r1.content_data@ == r2.content_data@,
        r1.verified == r2.verified,
        r1.is_content == r2.is_content,
        r1.error.error_code == r2.error.error_code,
        r1.error.error@ == r2.error.error@,
{
}

} // verus!
