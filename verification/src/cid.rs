//! Content identifiers (CIDs): the self-describing version + codec +
//! multihash prefix that names every block in a CAR archive, together with
//! its canonical multibase string form.

use vstd::prelude::*;

use crate::error::ErrorData;
use crate::error::TRUNCATED_CID;
use crate::error::UNKNOWN_MULTIBASE;
use crate::varint::lemma_varint_advances;
use vstd::string::StrSliceExecFns;
use vstd::string::StringExecFns;
use crate::varint::parse_varint;
use crate::varint::read_varint;

verus! {

/// The mathematical model of a CID: a version tag, a content codec tag and a
/// multihash (hash-function code plus the raw digest bytes; the digest length
/// of the encoding is `digest.len()`).
pub struct SpecCid {
    pub version: u64,
    pub codec: u64,
    pub hash_code: u64,
    pub digest: Seq<u8>,
}

/// A parsed CID. Immutable once parsed; equality is byte-equality of its
/// canonical encoding, which [`cid_encoded_bytes`] reproduces.
#[derive(Debug)]
pub struct Cid {
    pub version: u64,
    pub codec: u64,
    pub hash_code: u64,
    pub digest: Vec<u8>,
}

impl View for Cid {
    type V = SpecCid;

    open spec fn view(&self) -> SpecCid {
        SpecCid {
            version: self.version,
            codec: self.codec,
            hash_code: self.hash_code,
            digest: self.digest@,
        }
    }
}

/// Outcome of reading a CID from a byte buffer.
pub enum CidParse {
    /// A CID was read; `end` is the position just past its digest bytes.
    Parsed { cid: SpecCid, end: int },
    /// The buffer ended inside the CID: an inner varint was malformed or
    /// fewer bytes remain than the declared digest length.
    Truncated,
    /// The version tag is not a recognized CID version.
    UnknownVersion,
}

/// The CID grammar: a version varint (must be 1), a codec varint, a
/// hash-function-code varint, a digest-length varint, then that many raw
/// digest bytes.
pub open spec fn parse_cid(s: Seq<u8>, pos: int) -> CidParse {
    match parse_varint(s, pos) {
        None => CidParse::Truncated,
        Some((version, p1)) => {
            if version != 1 {
                CidParse::UnknownVersion
            } else {
                match parse_varint(s, p1) {
                    None => CidParse::Truncated,
                    Some((codec, p2)) => match parse_varint(s, p2) {
                        None => CidParse::Truncated,
                        Some((hash_code, p3)) => match parse_varint(s, p3) {
                            None => CidParse::Truncated,
                            Some((dlen, p4)) => {
                                if p4 + dlen > s.len() {
                                    CidParse::Truncated
                                } else {
                                    CidParse::Parsed {
                                        cid: SpecCid {
                                            version: 1,
                                            codec,
                                            hash_code,
                                            digest: s.subrange(p4, p4 + dlen),
                                        },
                                        end: p4 + dlen,
                                    }
                                }
                            },
                        },
                    },
                }
            }
        },
    }
}

/// A successfully parsed CID always consumes at least one byte and stays
/// inside the buffer.
pub proof fn lemma_cid_parse_advances(s: Seq<u8>, pos: int)
    requires
        parse_cid(s, pos) is Parsed,
    ensures
        pos < parse_cid(s, pos)->Parsed_end <= s.len(),
{
    lemma_varint_advances(s, pos);
    let p1 = parse_varint(s, pos).unwrap().1;
    lemma_varint_advances(s, p1);
    let p2 = parse_varint(s, p1).unwrap().1;
    lemma_varint_advances(s, p2);
    let p3 = parse_varint(s, p2).unwrap().1;
    lemma_varint_advances(s, p3);
}

/// A parsed CID depends only on the bytes it actually read: a buffer of
/// the same length that agrees on them parses to the same CID.
pub proof fn lemma_cid_parse_local(s1: Seq<u8>, s2: Seq<u8>, pos: int)
    requires
        s1.len() == s2.len(),
        parse_cid(s1, pos) is Parsed,
        forall|j: int| pos <= j < parse_cid(s1, pos)->Parsed_end ==> s1[j] == s2[j],
    ensures
        parse_cid(s2, pos) == parse_cid(s1, pos),
{
    let end = parse_cid(s1, pos)->Parsed_end;
    lemma_cid_parse_advances(s1, pos);
    let p1 = parse_varint(s1, pos).unwrap().1;
    let p2 = parse_varint(s1, p1).unwrap().1;
    let p3 = parse_varint(s1, p2).unwrap().1;
    let p4 = parse_varint(s1, p3).unwrap().1;
    crate::varint::lemma_varint_advances(s1, pos);
    crate::varint::lemma_varint_advances(s1, p1);
    crate::varint::lemma_varint_advances(s1, p2);
    crate::varint::lemma_varint_advances(s1, p3);
    assert(p4 <= end);
    crate::varint::lemma_varint_local(s1, s2, pos);
    crate::varint::lemma_varint_local(s1, s2, p1);
    crate::varint::lemma_varint_local(s1, s2, p2);
    crate::varint::lemma_varint_local(s1, s2, p3);
    assert(s1.subrange(p4, end) =~= s2.subrange(p4, end));
}

/// Reads a CID starting at `pos`, returning it and the position just past
/// its digest bytes.
pub fn read_cid(data: &[u8], pos: usize) -> (r: Result<(Cid, usize), ErrorData>)
    ensures
        match r {
            Ok((cid, end)) => {
                &&& parse_cid(data@, pos as int) == (CidParse::Parsed {
                    cid: cid@,
                    end: end as int,
                })
                &&& pos < end <= data@.len()
            },
            Err(e) => match parse_cid(data@, pos as int) {
                CidParse::Parsed { .. } => false,
                CidParse::Truncated => {
                    &&& e.error_code == TRUNCATED_CID
                    &&& e.error@ == "truncated cid"@
                },
                CidParse::UnknownVersion => {
                    &&& e.error_code == UNKNOWN_MULTIBASE
                    &&& e.error@ == "unrecognized cid version"@
                },
            },
        },
{
    let version = match read_varint(data, pos) {
        Ok((v, next)) => (v, next),
        Err(_) => {
            return Err(ErrorData::new("truncated cid", TRUNCATED_CID));
        },
    };
    if version.0 != 1 {
        return Err(ErrorData::new("unrecognized cid version", UNKNOWN_MULTIBASE));
    }
    let codec = match read_varint(data, version.1) {
        Ok((v, next)) => (v, next),
        Err(_) => {
            return Err(ErrorData::new("truncated cid", TRUNCATED_CID));
        },
    };
    let hash_code = match read_varint(data, codec.1) {
        Ok((v, next)) => (v, next),
        Err(_) => {
            return Err(ErrorData::new("truncated cid", TRUNCATED_CID));
        },
    };
    let dlen = match read_varint(data, hash_code.1) {
        Ok((v, next)) => (v, next),
        Err(_) => {
            return Err(ErrorData::new("truncated cid", TRUNCATED_CID));
        },
    };
    let p4 = dlen.1;
    if dlen.0 > (data.len() - p4) as u64 {
        return Err(ErrorData::new("truncated cid", TRUNCATED_CID));
    }
    let end = p4 + dlen.0 as usize;
    let digest = vstd::slice::slice_to_vec(vstd::slice::slice_subrange(data, p4, end));
    let cid = Cid { version: 1, codec: codec.0, hash_code: hash_code.0, digest };
    Ok((cid, end))
}

/// The canonical unsigned LEB128 encoding of `v`: seven value bits per byte,
/// least significant group first, high bit set on every byte but the last.
pub open spec fn varint_encode(v: nat) -> Seq<u8>
    decreases v,
{
    if v < 0x80 {
        seq![v as u8]
    } else {
        seq![(0x80 + v % 0x80) as u8] + varint_encode(v / 0x80)
    }
}

/// The canonical byte encoding of a CID: version, codec, hash code and
/// digest length as varints, then the raw digest bytes.
pub open spec fn cid_encoding(c: SpecCid) -> Seq<u8> {
    varint_encode(c.version as nat) + varint_encode(c.codec as nat) + varint_encode(
        c.hash_code as nat,
    ) + varint_encode(c.digest.len()) + c.digest
}

/// The lower-case base32 alphabet used by the multibase `b` prefix.
pub open spec fn b32_char(d: int) -> char {
    "abcdefghijklmnopqrstuvwxyz234567"@[d]
}

/// The `count` base32 digits of `n`, most significant first: digit `j` holds
/// bits `5 * (count - 1 - j)` and up of `n`.
pub open spec fn b32_digits(n: nat, count: nat) -> Seq<char>
    decreases count,
{
    if count == 0 {
        Seq::empty()
    } else {
        let place = vstd::arithmetic::power2::pow2((5 * (count - 1)) as nat);
        seq![b32_char(((n / place) % 32) as int)] + b32_digits(n % place, (count - 1) as nat)
    }
}

/// The bytes of `s` read as one big-endian number.
pub open spec fn be_bytes_val(s: Seq<u8>) -> nat
    decreases s.len(),
{
    if s.len() == 0 {
        0
    } else {
        (be_bytes_val(s.drop_last()) * 256 + s.last()) as nat
    }
}

/// Zero bits appended to a final partial group of `r` bytes so that its bit
/// count becomes a multiple of five.
pub open spec fn b32_pad_bits(r: nat) -> nat {
    if r == 1 {
        2
    } else if r == 2 {
        4
    } else if r == 3 {
        1
    } else {
        3
    }
}

/// Base32 digits produced by a final partial group of `r` bytes.
pub open spec fn b32_tail_count(r: nat) -> nat {
    if r == 1 {
        2
    } else if r == 2 {
        4
    } else if r == 3 {
        5
    } else {
        7
    }
}

/// Unpadded lower-case base32: each full five-byte group becomes eight
/// digits; a final partial group is padded with zero bits to a multiple of
/// five bits.
pub open spec fn base32_chars(bytes: Seq<u8>) -> Seq<char>
    decreases bytes.len(),
{
    if bytes.len() == 0 {
        Seq::empty()
    } else if bytes.len() >= 5 {
        b32_digits(be_bytes_val(bytes.take(5)), 8) + base32_chars(bytes.skip(5))
    } else {
        b32_digits(
            be_bytes_val(bytes) * vstd::arithmetic::power2::pow2(b32_pad_bits(bytes.len())),
            b32_tail_count(bytes.len()),
        )
    }
}

/// The canonical string form of a CID: the multibase prefix `b` followed by
/// the base32 encoding of its canonical bytes.
pub open spec fn cid_string_of(c: SpecCid) -> Seq<char> {
    seq!['b'] + base32_chars(cid_encoding(c))
}

/// Appends the canonical varint encoding of `v` to `out`.
fn encode_varint_into(out: &mut Vec<u8>, v: u64)
    ensures
        final(out)@ == old(out)@ + varint_encode(v as nat),
{
    let mut x = v;
    while x >= 0x80
        invariant
            old(out)@ + varint_encode(v as nat) == out@ + varint_encode(x as nat),
        decreases x,
    {
        out.push((0x80 + x % 0x80) as u8);
        x = x / 0x80;
    }
    out.push(x as u8);
    proof {
        assert(out@ =~= old(out)@ + varint_encode(v as nat));
    }
}

/// The canonical byte encoding of a parsed CID.
pub fn cid_encoded_bytes(cid: &Cid) -> (r: Vec<u8>)
    ensures
        r@ == cid_encoding(cid@),
{
    let mut out: Vec<u8> = Vec::new();
    encode_varint_into(&mut out, cid.version);
    encode_varint_into(&mut out, cid.codec);
    encode_varint_into(&mut out, cid.hash_code);
    encode_varint_into(&mut out, cid.digest.len() as u64);
    let mut j: usize = 0;
    while j < cid.digest.len()
        invariant
            j <= cid.digest@.len(),
            out@ == varint_encode(cid@.version as nat) + varint_encode(cid@.codec as nat)
                + varint_encode(cid@.hash_code as nat) + varint_encode(cid@.digest.len())
                + cid@.digest.take(j as int),
        decreases cid.digest@.len() - j,
    {
        out.push(cid.digest[j]);
        proof {
            assert(cid@.digest.take(j + 1) =~= cid@.digest.take(j as int) + seq![
                cid@.digest[j as int],
            ]);
        }
        j = j + 1;
    }
    proof {
        assert(cid@.digest.take(cid.digest@.len() as int) =~= cid@.digest);
    }
    out
}

/// A subrange of bytes shrinks by its last element under [`be_bytes_val`].
pub proof fn lemma_be_subrange_step(s: Seq<u8>, lo: int, hi: int)
    requires
        0 <= lo < hi <= s.len(),
    ensures
        be_bytes_val(s.subrange(lo, hi)) == be_bytes_val(s.subrange(lo, hi - 1)) * 256 + s[hi - 1],
{
    assert(s.subrange(lo, hi).drop_last() =~= s.subrange(lo, hi - 1));
    assert(s.subrange(lo, hi).last() == s[hi - 1]);
}

/// Appends the `count` base32 digits of `n`, most significant first.
fn b32_digits_append(out: &mut String, n: u64, count: usize)
    requires
        1 <= count <= 8,
    ensures
        final(out)@ == old(out)@ + b32_digits(n as nat, count as nat),
{
    let mut div: u64 = 1;
    let mut k: usize = 1;
    proof {
        vstd::arithmetic::power2::lemma2_to64();
    }
    while k < count
        invariant
            1 <= k <= count <= 8,
            div == vstd::arithmetic::power2::pow2((5 * (k - 1)) as nat),
        decreases count - k,
    {
        proof {
            vstd::arithmetic::power2::lemma2_to64();
            if 5 * (k - 1) < 31 {
                vstd::arithmetic::power2::lemma_pow2_strictly_increases(
                    (5 * (k - 1)) as nat,
                    31nat,
                );
            }
            vstd::arithmetic::power2::lemma_pow2_adds((5 * (k - 1)) as nat, 5nat);
        }
        div = div * 32;
        k = k + 1;
    }
    let mut c = count;
    let mut m = n;
    while c > 0
        invariant
            c <= count <= 8,
            c >= 1 ==> div == vstd::arithmetic::power2::pow2((5 * (c - 1)) as nat),
            old(out)@ + b32_digits(n as nat, count as nat) == out@ + b32_digits(
                m as nat,
                c as nat,
            ),
        decreases c,
    {
        let alpha = "abcdefghijklmnopqrstuvwxyz234567";
        proof {
            vstd::arithmetic::power2::lemma_pow2_pos((5 * (c - 1)) as nat);
            reveal_strlit("abcdefghijklmnopqrstuvwxyz234567");
            assert(alpha@.len() == 32);
            assert(alpha.is_ascii());
        }
        let d = ((m / div) % 32) as usize;
        let ch = alpha.substring_ascii(d, d + 1);
        proof {
            assert(ch@ =~= seq![b32_char(d as int)]);
            let place = vstd::arithmetic::power2::pow2((5 * (c - 1)) as nat);
            assert(b32_digits(m as nat, c as nat) == seq![
                b32_char(((m as nat / place) % 32) as int),
            ] + b32_digits((m as nat % place) as nat, (c - 1) as nat));
        }
        out.append(ch);
        proof {
            assert(old(out)@ + b32_digits(n as nat, count as nat) =~= out@ + b32_digits(
                (m as nat % div as nat) as nat,
                (c - 1) as nat,
            ));
        }
        m = m % div;
        if c > 1 {
            proof {
                vstd::arithmetic::power2::lemma2_to64();
                vstd::arithmetic::power2::lemma_pow2_adds((5 * (c - 2)) as nat, 5nat);
            }
            div = div / 32;
        }
        c = c - 1;
    }
    proof {
        assert(out@ =~= old(out)@ + b32_digits(n as nat, count as nat));
    }
}

/// Appends the unpadded lower-case base32 encoding of `bytes` to `out`.
fn base32_append(out: &mut String, bytes: &[u8])
    ensures
        final(out)@ == old(out)@ + base32_chars(bytes@),
{
    let mut i: usize = 0;
    proof {
        assert(bytes@.skip(0) =~= bytes@);
    }
    while bytes.len() - i >= 5
        invariant
            i <= bytes@.len(),
            old(out)@ + base32_chars(bytes@) == out@ + base32_chars(bytes@.skip(i as int)),
        decreases bytes@.len() - i,
    {
        let b0 = bytes[i] as u64;
        let b1 = bytes[i + 1] as u64;
        let b2 = bytes[i + 2] as u64;
        let b3 = bytes[i + 3] as u64;
        let b4 = bytes[i + 4] as u64;
        let n = (((b0 * 256 + b1) * 256 + b2) * 256 + b3) * 256 + b4;
        proof {
            let lo = i as int;
            assert(bytes@.subrange(lo, lo) =~= Seq::<u8>::empty());
            lemma_be_subrange_step(bytes@, lo, lo + 1);
            lemma_be_subrange_step(bytes@, lo, lo + 2);
            lemma_be_subrange_step(bytes@, lo, lo + 3);
            lemma_be_subrange_step(bytes@, lo, lo + 4);
            lemma_be_subrange_step(bytes@, lo, lo + 5);
            assert(be_bytes_val(bytes@.subrange(lo, lo + 5)) == n);
            assert(bytes@.skip(lo).take(5) =~= bytes@.subrange(lo, lo + 5));
            assert(bytes@.skip(lo).skip(5) =~= bytes@.skip(lo + 5));
        }
        b32_digits_append(out, n, 8);
        proof {
            assert(old(out)@ + base32_chars(bytes@) =~= out@ + base32_chars(
                bytes@.skip(i + 5),
            ));
        }
        i = i + 5;
    }
    let rest = bytes.len() - i;
    if rest == 0 {
        proof {
            assert(base32_chars(bytes@.skip(i as int)) =~= Seq::<char>::empty());
            assert(out@ =~= old(out)@ + base32_chars(bytes@));
        }
        return ;
    }
    let mut n: u64 = 0;
    let mut j: usize = 0;
    let mut p: usize = i;
    proof {
        vstd::arithmetic::power2::lemma2_to64();
        assert(bytes@.subrange(i as int, i as int) =~= Seq::<u8>::empty());
    }
    while j < rest
        invariant
            i + rest == bytes@.len(),
            1 <= rest <= 4,
            j <= rest,
            p == i + j,
            n == be_bytes_val(bytes@.subrange(i as int, i + j)),
            n < vstd::arithmetic::power2::pow2((8 * j) as nat),
        decreases rest - j,
    {
        proof {
            vstd::arithmetic::power2::lemma2_to64();
            lemma_be_subrange_step(bytes@, i as int, i + j + 1);
            vstd::arithmetic::power2::lemma_pow2_adds((8 * j) as nat, 8nat);
        }
        n = n * 256 + (bytes[p] as u64);
        j = j + 1;
        p = p + 1;
    }
    let (mult, count): (u64, usize) = if rest == 1 {
        (4, 2)
    } else if rest == 2 {
        (16, 4)
    } else if rest == 3 {
        (2, 5)
    } else {
        (8, 7)
    };
    proof {
        vstd::arithmetic::power2::lemma2_to64();
        vstd::arithmetic::power2::lemma_pow2_strictly_increases((8 * rest) as nat, 33nat);
        assert(n * mult <= 0x2_0000_0000u64 * 16) by (nonlinear_arith)
            requires
                n < 0x2_0000_0000u64,
                mult <= 16u64,
        ;
        assert(bytes@.skip(i as int) =~= bytes@.subrange(i as int, i + rest));
        assert(base32_chars(bytes@.skip(i as int)) == b32_digits(
            (n * mult) as nat,
            count as nat,
        ));
    }
    b32_digits_append(out, n * mult, count);
    proof {
        assert(out@ =~= old(out)@ + base32_chars(bytes@));
    }
}

/// The canonical string form of a CID: multibase prefix `b`, then the
/// base32-encoded canonical bytes.
pub fn cid_to_string(cid: &Cid) -> (r: String)
    ensures
        r@ == cid_string_of(cid@),
{
    let mut s = String::new();
    let prefix = "b";
    proof {
        reveal_strlit("b");
    }
    s.append(prefix);
    proof {
        assert(s@ =~= seq!['b']);
    }
    let bytes = cid_encoded_bytes(cid);
    base32_append(&mut s, bytes.as_slice());
    proof {
        assert(s@ =~= cid_string_of(cid@));
    }
    s
}

} // verus!
