//! CAR archive preambles: the CARv1 header (version + root CID list, in a
//! DAG-CBOR map) and the fixed-size CARv2 preamble (pragma, characteristics
//! bitfield and payload offsets).

use vstd::prelude::*;

use crate::cid::be_bytes_val;
use crate::cid::cid_string_of;
use crate::cid::cid_to_string;
use crate::cid::parse_cid;
use crate::cid::read_cid;
use crate::cid::CidParse;
use crate::cid::SpecCid;
use crate::error::ErrorData;
use crate::error::BAD_MAGIC;
use crate::error::HEADER_DECODE_ERROR;
use crate::error::HEADER_LENGTH_ERROR;
use crate::error::MALFORMED_VARINT;
use crate::error::NO_ERROR;
use crate::error::ROOT_DECODE_ERROR;
use crate::error::TRUNCATED_HEADER;
use crate::error::UNSUPPORTED_VERSION;
use crate::text::append_decimal;
use crate::text::dec_digits;
use crate::varint::parse_varint;
use crate::varint::read_varint;
use vstd::slice::slice_subrange;
use vstd::string::StringExecFns;

verus! {

/// A decoded CARv1 header: the archive version (always 1 on success) and
/// the root CIDs in encoded order, in canonical string form.
#[derive(Debug)]
pub struct CarV1Header {
    pub version: u64,
    pub roots: Vec<String>,
}

/// The 128-bit CARv2 characteristics bitfield, as two little-endian 64-bit
/// words in encoded order.
#[derive(Debug)]
pub struct Characteristics {
    pub data: [u64; 2],
}

/// A decoded CARv2 preamble. The embedded CARv1 header at `data_offset` is
/// the caller's to fetch and pass to the CARv1 decoder separately.
#[derive(Debug)]
pub struct CarV2Header {
    pub characteristics: Characteristics,
    pub data_offset: u64,
    pub data_size: u64,
    pub index_offset: u64,
}

/// A CARv1 header decode outcome: data plus error, never an unwind.
#[derive(Debug)]
pub struct CarV1HeaderResult {
    pub data: CarV1Header,
    pub error: ErrorData,
}

/// A CARv2 preamble decode outcome: data plus error, never an unwind.
#[derive(Debug)]
pub struct CarV2HeaderResult {
    pub data: CarV2Header,
    pub error: ErrorData,
}

/// The bytes `s[pos .. pos + k]` read as one little-endian number.
pub open spec fn le_bytes_val(s: Seq<u8>, pos: int, k: nat) -> nat
    decreases k,
{
    if k == 0 {
        0
    } else {
        (s[pos] + le_bytes_val(s, pos + 1, (k - 1) as nat) * 256) as nat
    }
}

/// The fixed 11-byte CARv2 pragma.
pub open spec fn carv2_pragma() -> Seq<u8> {
    seq![0x0au8, 0xa1u8, 0x67u8, 0x76u8, 0x65u8, 0x72u8, 0x73u8, 0x69u8, 0x6fu8, 0x6eu8, 0x02u8]
}

/// Total size of the fixed CARv2 preamble: pragma, characteristics and
/// three offsets.
pub const CARV2_PREAMBLE_LEN: usize = 51;

/// Outcome of reading a CARv2 preamble.
pub enum CarV2Parse {
    /// The five fixed little-endian fields, in encoded order.
    Fields { char_lo: u64, char_hi: u64, data_offset: u64, data_size: u64, index_offset: u64 },
    /// Fewer bytes than the fixed preamble size remain.
    Truncated,
    /// The pragma bytes are absent.
    BadMagic,
}

/// The CARv2 preamble grammar: the pragma, then five fixed-width
/// little-endian 64-bit fields.
pub open spec fn parse_carv2(s: Seq<u8>) -> CarV2Parse {
    if s.len() < CARV2_PREAMBLE_LEN {
        CarV2Parse::Truncated
    } else if s.subrange(0, 11) != carv2_pragma() {
        CarV2Parse::BadMagic
    } else {
        CarV2Parse::Fields {
            char_lo: le_bytes_val(s, 11, 8) as u64,
            char_hi: le_bytes_val(s, 19, 8) as u64,
            data_offset: le_bytes_val(s, 27, 8) as u64,
            data_size: le_bytes_val(s, 35, 8) as u64,
            index_offset: le_bytes_val(s, 43, 8) as u64,
        }
    }
}

/// What `decode_carv2_header` promises of its result: on success the five
/// fields round-trip exactly the little-endian integers present in the
/// input bytes; on failure the fields are zero and the error says why.
pub open spec fn carv2_result_matches(r: CarV2HeaderResult, s: Seq<u8>) -> bool {
    match parse_carv2(s) {
        CarV2Parse::Fields { char_lo, char_hi, data_offset, data_size, index_offset } => {
            &&& r.error.error_code == NO_ERROR
            &&& r.error.error@ == Seq::<char>::empty()
            &&& r.data.characteristics.data@ == seq![char_lo, char_hi]
            &&& r.data.data_offset == data_offset
            &&& r.data.data_size == data_size
            &&& r.data.index_offset == index_offset
        },
        CarV2Parse::Truncated => {
            &&& r.error.error_code == TRUNCATED_HEADER
            &&& r.error.error@ == "truncated carv2 preamble"@
            &&& carv2_zero_data(r.data)
        },
        CarV2Parse::BadMagic => {
            &&& r.error.error_code == BAD_MAGIC
            &&& r.error.error@ == "bad carv2 pragma"@
            &&& carv2_zero_data(r.data)
        },
    }
}

/// All CARv2 data fields at their safe defaults.
pub open spec fn carv2_zero_data(h: CarV2Header) -> bool {
    &&& h.characteristics.data@ == seq![0u64, 0u64]
    &&& h.data_offset == 0
    &&& h.data_size == 0
    &&& h.index_offset == 0
}

/// Reads eight little-endian bytes as a `u64`.
fn read_le64(data: &[u8], pos: usize) -> (r: u64)
    requires
        pos + 8 <= data@.len(),
    ensures
        r == le_bytes_val(data@, pos as int, 8),
{
    let n = data.len();
    let mut r: u64 = 0;
    let mut k: usize = 0;
    proof {
        vstd::arithmetic::power2::lemma2_to64();
    }
    while k < 8
        invariant
            k <= 8,
            pos + 8 <= data@.len(),
            data@.len() <= usize::MAX,
            r == le_bytes_val(data@, (pos + 8 - k) as int, k as nat),
            r < vstd::arithmetic::power2::pow2((8 * k) as nat),
        decreases 8 - k,
    {
        proof {
            vstd::arithmetic::power2::lemma2_to64();
            vstd::arithmetic::power2::lemma_pow2_adds((8 * k) as nat, 8nat);
            vstd::arithmetic::power2::lemma_pow2((8 * k + 8) as nat);
            vstd::arithmetic::power2::lemma_pow2(64nat);
            vstd::arithmetic::power::lemma_pow_increases(2nat, (8 * k + 8) as nat, 64nat);
        }
        let b = data[pos + 8 - k - 1];
        r = r * 256 + (b as u64);
        k = k + 1;
    }
    r
}

/// Builds a CARv2 failure result with zeroed data fields.
fn carv2_failure(message: &str, code: u16) -> (r: CarV2HeaderResult)
    ensures
        carv2_zero_data(r.data),
        r.error.error_code == code,
        r.error.error@ == message@,
{
    CarV2HeaderResult {
        data: CarV2Header {
            characteristics: Characteristics { data: [0, 0] },
            data_offset: 0,
            data_size: 0,
            index_offset: 0,
        },
        error: ErrorData::new(message, code),
    }
}

/// Decodes a CARv2 preamble from the start of `data`: verifies the fixed
/// pragma, then returns the characteristics bitfield and the payload
/// offset, payload size and index offset exactly as encoded.
pub fn decode_carv2_header(data: &[u8]) -> (r: CarV2HeaderResult)
    ensures
        carv2_result_matches(r, data@),
{
    if data.len() < CARV2_PREAMBLE_LEN {
        return carv2_failure("truncated carv2 preamble", TRUNCATED_HEADER);
    }
    if !(data[0] == 0x0a && data[1] == 0xa1 && data[2] == 0x67 && data[3] == 0x76 && data[4]
        == 0x65 && data[5] == 0x72 && data[6] == 0x73 && data[7] == 0x69 && data[8] == 0x6f
        && data[9] == 0x6e && data[10] == 0x02) {
        proof {
            assert(data@.subrange(0, 11) != carv2_pragma());
        }
        return carv2_failure("bad carv2 pragma", BAD_MAGIC);
    }
    proof {
        assert(data@.subrange(0, 11) =~= carv2_pragma());
    }
    let char_lo = read_le64(data, 11);
    let char_hi = read_le64(data, 19);
    let data_offset = read_le64(data, 27);
    let data_size = read_le64(data, 35);
    let index_offset = read_le64(data, 43);
    let r = CarV2HeaderResult {
        data: CarV2Header {
            characteristics: Characteristics { data: [char_lo, char_hi] },
            data_offset,
            data_size,
            index_offset,
        },
        error: ErrorData::none(),
    };
    proof {
        assert(r.data.characteristics.data@ =~= seq![char_lo, char_hi]);
    }
    r
}

/// One CBOR data-item head: the major type, its argument value and the
/// position just past the head. Only direct arguments and the one-, two-,
/// four- and eight-byte big-endian forms are recognized.
pub open spec fn cbor_head(s: Seq<u8>, pos: int) -> Option<(u8, u64, int)> {
    if pos < 0 || pos >= s.len() {
        None
    } else {
        let major = s[pos] / 32;
        let minor = s[pos] % 32;
        if minor < 24 {
            Some((major, minor as u64, pos + 1))
        } else if minor <= 27 {
            let k: int = if minor == 24 {
                1
            } else if minor == 25 {
                2
            } else if minor == 26 {
                4
            } else {
                8
            };
            if pos + 1 + k <= s.len() {
                Some((major, be_bytes_val(s.subrange(pos + 1, pos + 1 + k)) as u64, pos + 1 + k))
            } else {
                None
            }
        } else {
            None
        }
    }
}

/// A CBOR text string at `pos`: its bytes and the position just past them.
pub open spec fn cbor_text(s: Seq<u8>, pos: int) -> Option<(Seq<u8>, int)> {
    match cbor_head(s, pos) {
        None => None,
        Some((major, len, p)) => {
            if major == 3 && p + len <= s.len() {
                Some((s.subrange(p, p + len), p + len))
            } else {
                None
            }
        },
    }
}

/// A CBOR unsigned integer at `pos`.
pub open spec fn cbor_uint(s: Seq<u8>, pos: int) -> Option<(u64, int)> {
    match cbor_head(s, pos) {
        None => None,
        Some((major, v, p)) => if major == 0 {
            Some((v, p))
        } else {
            None
        },
    }
}

/// The bytes of the UTF-8 key `roots`.
pub open spec fn roots_key() -> Seq<u8> {
    seq![0x72u8, 0x6fu8, 0x6fu8, 0x74u8, 0x73u8]
}

/// The bytes of the UTF-8 key `version`.
pub open spec fn version_key() -> Seq<u8> {
    seq![0x76u8, 0x65u8, 0x72u8, 0x73u8, 0x69u8, 0x6fu8, 0x6eu8]
}

/// `n` array elements, each a CBOR tag 42 wrapping a byte string: the root
/// byte strings in encoded order and the position just past the last one.
pub open spec fn cbor_roots(s: Seq<u8>, pos: int, n: nat) -> Option<(Seq<Seq<u8>>, int)>
    decreases n,
{
    if n == 0 {
        Some((Seq::empty(), pos))
    } else {
        match cbor_head(s, pos) {
            None => None,
            Some((tmajor, tval, p1)) => {
                if tmajor != 6 || tval != 42 {
                    None
                } else {
                    match cbor_head(s, p1) {
                        None => None,
                        Some((bmajor, blen, p2)) => {
                            if bmajor != 2 || p2 + blen > s.len() {
                                None
                            } else {
                                match cbor_roots(s, p2 + blen, (n - 1) as nat) {
                                    None => None,
                                    Some((rest, end)) => Some(
                                        (seq![s.subrange(p2, p2 + blen)] + rest, end),
                                    ),
                                }
                            }
                        },
                    }
                }
            },
        }
    }
}

/// The CARv1 header body: a two-entry CBOR map holding the key `roots`
/// (an array of tag-42 byte strings) and the key `version` (an unsigned
/// integer), in either order, with nothing after the map.
pub open spec fn parse_carv1_body(s: Seq<u8>) -> Option<(u64, Seq<Seq<u8>>)> {
    match cbor_head(s, 0) {
        None => None,
        Some((major, cnt, p0)) => {
            if major != 5 || cnt != 2 {
                None
            } else {
                match cbor_text(s, p0) {
                    None => None,
                    Some((key1, p1)) => {
                        if key1 == roots_key() {
                            match cbor_head(s, p1) {
                                None => None,
                                Some((amajor, n, p2)) => {
                                    if amajor != 4 {
                                        None
                                    } else {
                                        match cbor_roots(s, p2, n as nat) {
                                            None => None,
                                            Some((rbs, p3)) => match cbor_text(s, p3) {
                                                None => None,
                                                Some((key2, p4)) => {
                                                    if key2 != version_key() {
                                                        None
                                                    } else {
                                                        match cbor_uint(s, p4) {
                                                            None => None,
                                                            Some((v, p5)) => {
                                                                if p5 == s.len() {
                                                                    Some((v, rbs))
                                                                } else {
                                                                    None
                                                                }
                                                            },
                                                        }
                                                    }
                                                },
                                            },
                                        }
                                    }
                                },
                            }
                        } else if key1 == version_key() {
                            match cbor_uint(s, p1) {
                                None => None,
                                Some((v, p2)) => match cbor_text(s, p2) {
                                    None => None,
                                    Some((key2, p3)) => {
                                        if key2 != roots_key() {
                                            None
                                        } else {
                                            match cbor_head(s, p3) {
                                                None => None,
                                                Some((amajor, n, p4)) => {
                                                    if amajor != 4 {
                                                        None
                                                    } else {
                                                        match cbor_roots(s, p4, n as nat) {
                                                            None => None,
                                                            Some((rbs, p5)) => {
                                                                if p5 == s.len() {
                                                                    Some((v, rbs))
                                                                } else {
                                                                    None
                                                                }
                                                            },
                                                        }
                                                    }
                                                },
                                            }
                                        }
                                    },
                                },
                            }
                        } else {
                            None
                        }
                    },
                }
            }
        },
    }
}

/// A root byte string decodes iff it is the identity multibase prefix
/// (one zero byte) followed by exactly one CID.
pub open spec fn root_cid(rb: Seq<u8>) -> Option<SpecCid> {
    if rb.len() < 1 || rb[0] != 0 {
        None
    } else {
        match parse_cid(rb, 1) {
            CidParse::Parsed { cid, end } => if end == rb.len() {
                Some(cid)
            } else {
                None
            },
            _ => None,
        }
    }
}

/// Length of the longest prefix of root byte strings that all decode.
pub open spec fn good_roots_prefix_len(rbs: Seq<Seq<u8>>) -> int
    decreases rbs.len(),
{
    if rbs.len() == 0 {
        0
    } else if root_cid(rbs[0]) is None {
        0
    } else {
        1 + good_roots_prefix_len(rbs.skip(1))
    }
}

/// The decoded CIDs of the longest decodable prefix of root byte strings.
pub open spec fn decoded_roots(rbs: Seq<Seq<u8>>) -> Seq<SpecCid> {
    Seq::new(good_roots_prefix_len(rbs) as nat, |i: int| root_cid(rbs[i]).unwrap())
}

/// The longest decodable prefix ends exactly at the first root that fails.
pub proof fn lemma_good_prefix(rbs: Seq<Seq<u8>>, i: int)
    requires
        0 <= i <= rbs.len(),
        forall|k: int| 0 <= k < i ==> root_cid(#[trigger] rbs[k]) is Some,
        i < rbs.len() ==> root_cid(rbs[i]) is None,
    ensures
        good_roots_prefix_len(rbs) == i,
    decreases rbs.len(),
{
    if rbs.len() == 0 {
    } else if i == 0 {
    } else {
        assert(root_cid(rbs[0]) is Some);
        lemma_good_prefix(rbs.skip(1), i - 1);
    }
}

/// Outcome of reading a CARv1 header.
pub enum CarV1Parse {
    /// The version (always 1) and the decoded roots in encoded order.
    Valid { version: u64, roots: Seq<SpecCid> },
    /// The header length varint is malformed.
    VarintError,
    /// The header length exceeds the remaining buffer.
    LengthError,
    /// The header bytes are not the expected two-entry map.
    Malformed,
    /// The version field is not 1.
    BadVersion { version: u64 },
    /// The first root at `index` failed to decode; `roots` holds the
    /// decoded prefix.
    BadRoot { roots: Seq<SpecCid>, index: int },
}

/// The CARv1 header grammar: a varint length prefix, then the header map,
/// then per-root CID decoding with a partial-prefix policy.
pub open spec fn parse_carv1(s: Seq<u8>) -> CarV1Parse {
    match parse_varint(s, 0) {
        None => CarV1Parse::VarintError,
        Some((hlen, p)) => {
            if p + hlen > s.len() {
                CarV1Parse::LengthError
            } else {
                match parse_carv1_body(s.subrange(p, p + hlen)) {
                    None => CarV1Parse::Malformed,
                    Some((version, rbs)) => {
                        if version != 1 {
                            CarV1Parse::BadVersion { version }
                        } else {
                            let g = good_roots_prefix_len(rbs);
                            if g == rbs.len() {
                                CarV1Parse::Valid { version: 1, roots: decoded_roots(rbs) }
                            } else {
                                CarV1Parse::BadRoot { roots: decoded_roots(rbs), index: g }
                            }
                        }
                    },
                }
            }
        },
    }
}

/// The root strings hold exactly the canonical string forms of `roots`.
pub open spec fn roots_strings_match(v: Seq<String>, roots: Seq<SpecCid>) -> bool {
    &&& v.len() == roots.len()
    &&& forall|k: int| 0 <= k < roots.len() ==> v[k]@ == cid_string_of(#[trigger] roots[k])
}

/// A failed CARv1 result: safe defaults plus the given error.
pub open spec fn carv1_failed(r: CarV1HeaderResult, code: u16, msg: Seq<char>) -> bool {
    &&& r.error.error_code == code
    &&& r.error.error@ == msg
    &&& r.data.version == 0
    &&& r.data.roots@.len() == 0
}

/// What `decode_carv1_header` promises of its result, case by case over
/// the grammar outcome.
pub open spec fn carv1_result_matches(r: CarV1HeaderResult, s: Seq<u8>) -> bool {
    match parse_carv1(s) {
        CarV1Parse::Valid { version, roots } => {
            &&& r.error.error_code == NO_ERROR
            &&& r.error.error@ == Seq::<char>::empty()
            &&& r.data.version == version
            &&& roots_strings_match(r.data.roots@, roots)
        },
        CarV1Parse::VarintError => carv1_failed(r, MALFORMED_VARINT, "malformed varint"@),
        CarV1Parse::LengthError => carv1_failed(
            r,
            HEADER_LENGTH_ERROR,
            "carv1 header length exceeds buffer"@,
        ),
        CarV1Parse::Malformed => carv1_failed(r, HEADER_DECODE_ERROR, "malformed carv1 header"@),
        CarV1Parse::BadVersion { .. } => carv1_failed(
            r,
            UNSUPPORTED_VERSION,
            "unsupported car version"@,
        ),
        CarV1Parse::BadRoot { roots, index } => {
            &&& r.error.error_code == ROOT_DECODE_ERROR
            &&& r.error.error@ == "malformed root at index "@ + dec_digits(index as nat)
            &&& r.data.version == 1
            &&& roots_strings_match(r.data.roots@, roots)
        },
    }
}

/// The views of root byte ranges within `s`.
pub open spec fn range_views(s: Seq<u8>, rg: Seq<(usize, usize)>) -> Seq<Seq<u8>> {
    Seq::new(rg.len(), |k: int| s.subrange(rg[k].0 as int, rg[k].1 as int))
}

/// Reads `k` big-endian bytes as a `u64`.
fn read_be(data: &[u8], pos: usize, k: usize) -> (r: u64)
    requires
        k <= 8,
        pos + k <= data@.len(),
    ensures
        r == be_bytes_val(data@.subrange(pos as int, pos + k)),
{
    let n = data.len();
    let mut r: u64 = 0;
    let mut j: usize = 0;
    let mut p: usize = pos;
    proof {
        vstd::arithmetic::power2::lemma2_to64();
        assert(data@.subrange(pos as int, pos as int) =~= Seq::<u8>::empty());
    }
    while j < k
        invariant
            j <= k <= 8,
            pos + k <= data@.len(),
            data@.len() <= usize::MAX,
            p == pos + j,
            r == be_bytes_val(data@.subrange(pos as int, pos + j)),
            r < vstd::arithmetic::power2::pow2((8 * j) as nat),
        decreases k - j,
    {
        proof {
            vstd::arithmetic::power2::lemma2_to64();
            crate::cid::lemma_be_subrange_step(data@, pos as int, pos + j + 1);
            vstd::arithmetic::power2::lemma_pow2_adds((8 * j) as nat, 8nat);
            vstd::arithmetic::power2::lemma_pow2((8 * j + 8) as nat);
            vstd::arithmetic::power2::lemma_pow2(64nat);
            vstd::arithmetic::power::lemma_pow_increases(2nat, (8 * j + 8) as nat, 64nat);
        }
        r = r * 256 + (data[p] as u64);
        j = j + 1;
        p = p + 1;
    }
    r
}

/// Reads one CBOR head.
fn read_cbor_head(data: &[u8], pos: usize) -> (r: Option<(u8, u64, usize)>)
    ensures
        match r {
            Some((major, value, next)) => {
                &&& cbor_head(data@, pos as int) == Some((major, value, next as int))
                &&& pos < next <= data@.len()
            },
            None => cbor_head(data@, pos as int) is None,
        },
{
    if pos >= data.len() {
        return None;
    }
    let b = data[pos];
    let major = b / 32;
    let minor = b % 32;
    if minor < 24 {
        return Some((major, minor as u64, pos + 1));
    }
    if minor > 27 {
        return None;
    }
    let k: usize = if minor == 24 {
        1
    } else if minor == 25 {
        2
    } else if minor == 26 {
        4
    } else {
        8
    };
    if (data.len() - pos) - 1 < k {
        return None;
    }
    let v = read_be(data, pos + 1, k);
    Some((major, v, pos + 1 + k))
}

/// Reads a CBOR text string head, returning the byte range of its contents.
fn read_cbor_text(data: &[u8], pos: usize) -> (r: Option<(usize, usize)>)
    ensures
        match r {
            Some((a, b)) => {
                &&& cbor_text(data@, pos as int) == Some(
                    (data@.subrange(a as int, b as int), b as int),
                )
                &&& a <= b <= data@.len()
            },
            None => cbor_text(data@, pos as int) is None,
        },
{
    match read_cbor_head(data, pos) {
        None => None,
        Some((major, len, p)) => {
            if major != 3 {
                return None;
            }
            if len > (data.len() - p) as u64 {
                return None;
            }
            Some((p, p + len as usize))
        },
    }
}

/// Reads a CBOR unsigned integer.
fn read_cbor_uint(data: &[u8], pos: usize) -> (r: Option<(u64, usize)>)
    ensures
        match r {
            Some((v, next)) => cbor_uint(data@, pos as int) == Some((v, next as int)) && next
                <= data@.len(),
            None => cbor_uint(data@, pos as int) is None,
        },
{
    match read_cbor_head(data, pos) {
        None => None,
        Some((major, v, p)) => {
            if major != 0 {
                return None;
            }
            Some((v, p))
        },
    }
}

/// Whether the byte span equals the key `roots`.
fn is_roots_key(data: &[u8], a: usize, b: usize) -> (r: bool)
    requires
        a <= b <= data@.len(),
    ensures
        r == (data@.subrange(a as int, b as int) == roots_key()),
{
    let n = data.len();
    if b - a != 5 {
        proof {
            assert(roots_key().len() == 5);
            assert(data@.subrange(a as int, b as int).len() == b - a);
        }
        return false;
    }
    let ok = data[a] == 0x72 && data[a + 1] == 0x6f && data[a + 2] == 0x6f && data[a + 3] == 0x74
        && data[a + 4] == 0x73;
    proof {
        if ok {
            assert(data@.subrange(a as int, b as int) =~= roots_key());
        }
    }
    ok
}

/// Whether the byte span equals the key `version`.
fn is_version_key(data: &[u8], a: usize, b: usize) -> (r: bool)
    requires
        a <= b <= data@.len(),
    ensures
        r == (data@.subrange(a as int, b as int) == version_key()),
{
    let n = data.len();
    if b - a != 7 {
        proof {
            assert(version_key().len() == 7);
            assert(data@.subrange(a as int, b as int).len() == b - a);
        }
        return false;
    }
    let ok = data[a] == 0x76 && data[a + 1] == 0x65 && data[a + 2] == 0x72 && data[a + 3] == 0x73
        && data[a + 4] == 0x69 && data[a + 5] == 0x6f && data[a + 6] == 0x6e;
    proof {
        if ok {
            assert(data@.subrange(a as int, b as int) =~= version_key());
        }
    }
    ok
}

/// Reads `n` tag-42 byte-string roots, returning their byte ranges.
fn read_root_ranges(body: &[u8], start: usize, n: u64) -> (r: Option<(Vec<(usize, usize)>, usize)>)
    requires
        start <= body@.len(),
    ensures
        match r {
            Some((ranges, next)) => {
                &&& cbor_roots(body@, start as int, n as nat) == Some(
                    (range_views(body@, ranges@), next as int),
                )
                &&& next <= body@.len()
                &&& forall|k: int|
                    0 <= k < ranges@.len() ==> (#[trigger] ranges@[k]).0 <= ranges@[k].1
                        <= body@.len()
            },
            None => cbor_roots(body@, start as int, n as nat) is None,
        },
{
    let mut ranges: Vec<(usize, usize)> = Vec::new();
    let mut pos = start;
    let mut i: u64 = 0;
    proof {
        assert(range_views(body@, ranges@) =~= Seq::<Seq<u8>>::empty());
    }
    while i < n
        invariant
            i <= n,
            pos <= body@.len(),
            ranges@.len() == i,
            forall|k: int|
                0 <= k < ranges@.len() ==> (#[trigger] ranges@[k]).0 <= ranges@[k].1
                    <= body@.len(),
            match cbor_roots(body@, pos as int, (n - i) as nat) {
                None => cbor_roots(body@, start as int, n as nat) is None,
                Some((rest, end)) => cbor_roots(body@, start as int, n as nat) == Some(
                    (range_views(body@, ranges@) + rest, end),
                ),
            },
        decreases n - i,
    {
        let tag = match read_cbor_head(body, pos) {
            Some(h) => h,
            None => {
                return None;
            },
        };
        if tag.0 != 6 || tag.1 != 42 {
            return None;
        }
        let bh = match read_cbor_head(body, tag.2) {
            Some(h) => h,
            None => {
                return None;
            },
        };
        if bh.0 != 2 {
            return None;
        }
        if bh.1 > (body.len() - bh.2) as u64 {
            return None;
        }
        let a = bh.2;
        let b = bh.2 + bh.1 as usize;
        let ghost prev = ranges@;
        ranges.push((a, b));
        proof {
            assert(range_views(body@, ranges@) =~= range_views(body@, prev) + seq![
                body@.subrange(a as int, b as int),
            ]);
            let rest_old = cbor_roots(body@, pos as int, (n - i) as nat);
            let rest_new = cbor_roots(body@, b as int, (n - i - 1) as nat);
            if rest_new is Some {
                assert(range_views(body@, prev) + (seq![body@.subrange(a as int, b as int)]
                    + rest_new.unwrap().0) =~= range_views(body@, ranges@)
                    + rest_new.unwrap().0);
            }
        }
        pos = b;
        i = i + 1;
    }
    proof {
        assert(range_views(body@, ranges@) + Seq::<Seq<u8>>::empty() =~= range_views(
            body@,
            ranges@,
        ));
    }
    Some((ranges, pos))
}

/// Parses the CARv1 header body map, returning the version and the root
/// byte ranges.
fn parse_body_exec(body: &[u8]) -> (r: Option<(u64, Vec<(usize, usize)>)>)
    ensures
        match r {
            Some((v, ranges)) => {
                &&& parse_carv1_body(body@) == Some((v, range_views(body@, ranges@)))
                &&& forall|k: int|
                    0 <= k < ranges@.len() ==> (#[trigger] ranges@[k]).0 <= ranges@[k].1
                        <= body@.len()
            },
            None => parse_carv1_body(body@) is None,
        },
{
    let head = match read_cbor_head(body, 0) {
        Some(h) => h,
        None => {
            return None;
        },
    };
    if head.0 != 5 || head.1 != 2 {
        return None;
    }
    let key1 = match read_cbor_text(body, head.2) {
        Some(t) => t,
        None => {
            return None;
        },
    };
    if is_roots_key(body, key1.0, key1.1) {
        let ah = match read_cbor_head(body, key1.1) {
            Some(h) => h,
            None => {
                return None;
            },
        };
        if ah.0 != 4 {
            return None;
        }
        let rr = match read_root_ranges(body, ah.2, ah.1) {
            Some(t) => t,
            None => {
                return None;
            },
        };
        let key2 = match read_cbor_text(body, rr.1) {
            Some(t) => t,
            None => {
                return None;
            },
        };
        if !is_version_key(body, key2.0, key2.1) {
            return None;
        }
        let u = match read_cbor_uint(body, key2.1) {
            Some(t) => t,
            None => {
                return None;
            },
        };
        if u.1 != body.len() {
            return None;
        }
        Some((u.0, rr.0))
    } else if is_version_key(body, key1.0, key1.1) {
        let u = match read_cbor_uint(body, key1.1) {
            Some(t) => t,
            None => {
                return None;
            },
        };
        let key2 = match read_cbor_text(body, u.1) {
            Some(t) => t,
            None => {
                return None;
            },
        };
        if !is_roots_key(body, key2.0, key2.1) {
            return None;
        }
        let ah = match read_cbor_head(body, key2.1) {
            Some(h) => h,
            None => {
                return None;
            },
        };
        if ah.0 != 4 {
            return None;
        }
        let rr = match read_root_ranges(body, ah.2, ah.1) {
            Some(t) => t,
            None => {
                return None;
            },
        };
        if rr.1 != body.len() {
            return None;
        }
        Some((u.0, rr.0))
    } else {
        None
    }
}

/// Builds a CARv1 failure result with default data fields.
fn carv1_failure(message: &str, code: u16) -> (r: CarV1HeaderResult)
    ensures
        carv1_failed(r, code, message@),
{
    CarV1HeaderResult {
        data: CarV1Header { version: 0, roots: Vec::new() },
        error: ErrorData::new(message, code),
    }
}

/// Decodes a CARv1 header from the start of `data`: the varint length
/// prefix, the two-entry map with `version` and `roots`, then each root as
/// an identity-multibase CID. On a malformed root the roots decoded before
/// it are still returned, with an error naming its index.
pub fn decode_carv1_header(data: &[u8]) -> (r: CarV1HeaderResult)
    ensures
        carv1_result_matches(r, data@),
{
    let first = match read_varint(data, 0) {
        Ok(t) => t,
        Err(_) => {
            return carv1_failure("malformed varint", MALFORMED_VARINT);
        },
    };
    let hlen = first.0;
    let p = first.1;
    if hlen > (data.len() - p) as u64 {
        return carv1_failure("carv1 header length exceeds buffer", HEADER_LENGTH_ERROR);
    }
    let body_end = p + hlen as usize;
    let body = slice_subrange(data, p, body_end);
    let parsed = match parse_body_exec(body) {
        Some(t) => t,
        None => {
            return carv1_failure("malformed carv1 header", HEADER_DECODE_ERROR);
        },
    };
    let version = parsed.0;
    let ranges = parsed.1;
    if version != 1 {
        return carv1_failure("unsupported car version", UNSUPPORTED_VERSION);
    }
    let ghost rbs = range_views(body@, ranges@);
    let mut roots_out: Vec<String> = Vec::new();
    let mut k: usize = 0;
    while k < ranges.len()
        invariant
            k <= ranges@.len(),
            roots_out@.len() == k,
            rbs == range_views(body@, ranges@),
            rbs.len() == ranges@.len(),
            forall|j: int|
                0 <= j < ranges@.len() ==> (#[trigger] ranges@[j]).0 <= ranges@[j].1
                    <= body@.len(),
            forall|j: int|
                0 <= j < k ==> root_cid(#[trigger] rbs[j]) is Some && roots_out@[j]@
                    == cid_string_of(root_cid(rbs[j]).unwrap()),
            good_roots_prefix_len(rbs) != rbs.len() ==> parse_carv1(data@)
                == (CarV1Parse::BadRoot {
                roots: decoded_roots(rbs),
                index: good_roots_prefix_len(rbs),
            }),
        decreases ranges@.len() - k,
    {
        let range = ranges[k];
        let root = slice_subrange(body, range.0, range.1);
        let mut good = false;
        if root.len() >= 1 {
            if root[0] == 0 {
                match read_cid(root, 1) {
                    Ok((cid, end)) => {
                        if end == root.len() {
                            proof {
                                assert(rbs[k as int] == root@);
                                assert(root_cid(rbs[k as int]) == Some(cid@));
                            }
                            let s = cid_to_string(&cid);
                            roots_out.push(s);
                            good = true;
                        }
                    },
                    Err(_) => {},
                }
            }
        }
        if !good {
            proof {
                assert(rbs[k as int] == root@);
                assert(root_cid(rbs[k as int]) is None);
                lemma_good_prefix(rbs, k as int);
            }
            let mut msg = String::new();
            msg.append("malformed root at index ");
            append_decimal(&mut msg, k as u64);
            proof {
                assert(msg@ =~= "malformed root at index "@ + dec_digits(k as nat));
            }
            return CarV1HeaderResult {
                data: CarV1Header { version: 1, roots: roots_out },
                error: ErrorData { error: msg, error_code: ROOT_DECODE_ERROR },
            };
        }
        k = k + 1;
    }
    proof {
        lemma_good_prefix(rbs, rbs.len() as int);
    }
    CarV1HeaderResult {
        data: CarV1Header { version: 1, roots: roots_out },
        error: ErrorData::none(),
    }
}

/// Every valid CARv1 byte sequence with N roots decodes to exactly N root
/// strings, in encoded order, with no error.
pub proof fn lemma_carv1_roots_complete(r: CarV1HeaderResult, s: Seq<u8>)
    requires
        carv1_result_matches(r, s),
        parse_carv1(s) is Valid,
    ensures
        r.error.error_code == NO_ERROR,
        r.data.roots@.len() == parse_carv1(s)->Valid_roots.len(),
        forall|k: int|
            0 <= k < parse_carv1(s)->Valid_roots.len() ==> r.data.roots@[k]@ == cid_string_of(
                parse_carv1(s)->Valid_roots[k],
            ),
{
}

/// Decoding the same CARv1 header bytes twice yields bit-identical
/// results.
pub proof fn lemma_carv1_deterministic(r1: CarV1HeaderResult, r2: CarV1HeaderResult, s: Seq<u8>)
    requires
        carv1_result_matches(r1, s),
        carv1_result_matches(r2, s),
    ensures
        r1.data.version == r2.data.version,
        r1.data.roots@.len() == r2.data.roots@.len(),
        forall|k: int|
            0 <= k < r1.data.roots@.len() ==> r1.data.roots@[k]@ == r2.data.roots@[k]@,
        r1.error.error_code == r2.error.error_code,
        r1.error.error@ == r2.error.error@,
{
    assert forall|k: int|
        0 <= k < r1.data.roots@.len() implies r1.data.roots@[k]@ == r2.data.roots@[k]@ by {
        match parse_carv1(s) {
            CarV1Parse::Valid { version, roots } => {
                assert(r1.data.roots@[k]@ == cid_string_of(roots[k]));
                assert(r2.data.roots@[k]@ == cid_string_of(roots[k]));
            },
            CarV1Parse::BadRoot { roots, index } => {
                assert(r1.data.roots@[k]@ == cid_string_of(roots[k]));
                assert(r2.data.roots@[k]@ == cid_string_of(roots[k]));
            },
            _ => {
            },
        }
    }
}

/// Decoding the same CARv2 preamble bytes twice yields bit-identical
/// results: both outcomes are pinned, field by field, by the input bytes.
pub proof fn lemma_carv2_deterministic(r1: CarV2HeaderResult, r2: CarV2HeaderResult, s: Seq<u8>)
    requires
        carv2_result_matches(r1, s),
        carv2_result_matches(r2, s),
    ensures
        r1.data.characteristics.data@ == r2.data.characteristics.data@,
        r1.data.data_offset == r2.data.data_offset,
        r1.data.data_size == r2.data.data_size,
        r1.data.index_offset == r2.data.index_offset,
        r1.error.error_code == r2.error.error_code,
        r1.error.error@ == r2.error.error@,
{
}

} // verus!
