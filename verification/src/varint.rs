//! Unsigned LEB128 varints: the length prefixes and numeric tags used by the
//! CAR framing, by CIDs and by the UnixFS protobuf schema.

use vstd::prelude::*;

use crate::error::ErrorData;
use crate::error::MALFORMED_VARINT;

verus! {

/// One decoding step of an unsigned LEB128 varint. `mult` is the place value
/// of the byte at `pos` (a power of 128) and `acc` the value accumulated from
/// earlier bytes. Decoding fails on a buffer that ends before a terminating
/// byte (high bit clear), on a value that does not fit in 64 bits, and on an
/// encoding longer than ten bytes.
pub open spec fn varint_step(s: Seq<u8>, pos: int, mult: nat, acc: nat) -> Option<(u64, int)>
    decreases s.len() - pos,
{
    if pos < 0 || pos >= s.len() {
        None
    } else {
        let b = s[pos];
        let v = acc + (b & 0x7f) * mult;
        if v > u64::MAX {
            None
        } else if b < 0x80 {
            Some((v as u64, pos + 1))
        } else if mult >= 0x8000_0000_0000_0000 {
            None
        } else {
            varint_step(s, pos + 1, mult * 128, v as nat)
        }
    }
}

/// The unsigned LEB128 varint starting at `pos`: its value and the position
/// just past its last byte, or `None` if the encoding is malformed.
pub open spec fn parse_varint(s: Seq<u8>, pos: int) -> Option<(u64, int)> {
    varint_step(s, pos, 1, 0)
}

/// A successfully decoded varint always consumes at least one byte and stays
/// inside the buffer.
pub proof fn lemma_varint_step_advances(s: Seq<u8>, pos: int, mult: nat, acc: nat)
    requires
        varint_step(s, pos, mult, acc) is Some,
    ensures
        pos < varint_step(s, pos, mult, acc).unwrap().1 <= s.len(),
    decreases s.len() - pos,
{
    let b = s[pos];
    let v = acc + (b & 0x7f) * mult;
    if v > u64::MAX {
    } else if b < 0x80 {
    } else if mult >= 0x8000_0000_0000_0000 {
    } else {
        lemma_varint_step_advances(s, pos + 1, mult * 128, v as nat);
    }
}

/// A successfully decoded varint always consumes at least one byte and stays
/// inside the buffer.
pub proof fn lemma_varint_advances(s: Seq<u8>, pos: int)
    requires
        parse_varint(s, pos) is Some,
    ensures
        pos < parse_varint(s, pos).unwrap().1 <= s.len(),
{
    lemma_varint_step_advances(s, pos, 1, 0);
}

/// A decoded varint depends only on the bytes it actually read: a buffer of
/// the same length that agrees on them decodes identically.
pub proof fn lemma_varint_step_local(s1: Seq<u8>, s2: Seq<u8>, pos: int, mult: nat, acc: nat)
    requires
        s1.len() == s2.len(),
        varint_step(s1, pos, mult, acc) is Some,
        forall|j: int|
            pos <= j < varint_step(s1, pos, mult, acc).unwrap().1 ==> s1[j] == s2[j],
    ensures
        varint_step(s2, pos, mult, acc) == varint_step(s1, pos, mult, acc),
    decreases s1.len() - pos,
{
    lemma_varint_step_advances(s1, pos, mult, acc);
    let b = s1[pos];
    let v = acc + (b & 0x7f) * mult;
    if v > u64::MAX {
    } else if b < 0x80 {
    } else if mult >= 0x8000_0000_0000_0000 {
    } else {
        lemma_varint_step_advances(s1, pos + 1, mult * 128, v as nat);
        lemma_varint_step_local(s1, s2, pos + 1, mult * 128, v as nat);
    }
}

/// A decoded varint depends only on the bytes it actually read.
pub proof fn lemma_varint_local(s1: Seq<u8>, s2: Seq<u8>, pos: int)
    requires
        s1.len() == s2.len(),
        parse_varint(s1, pos) is Some,
        forall|j: int| pos <= j < parse_varint(s1, pos).unwrap().1 ==> s1[j] == s2[j],
    ensures
        parse_varint(s2, pos) == parse_varint(s1, pos),
{
    lemma_varint_step_local(s1, s2, pos, 1, 0);
}

/// Decodes the unsigned LEB128 varint starting at `pos`, returning its value
/// and the position just past its last byte.
pub fn read_varint(data: &[u8], pos: usize) -> (r: Result<(u64, usize), ErrorData>)
    ensures
        match r {
            Ok((value, next_pos)) => {
                &&& parse_varint(data@, pos as int) == Some((value, next_pos as int))
                &&& pos < next_pos <= data@.len()
            },
            Err(e) => {
                &&& parse_varint(data@, pos as int) is None
                &&& e.error_code == MALFORMED_VARINT
                &&& e.error@ == "malformed varint"@
            },
        },
{
    if pos >= data.len() {
        return Err(ErrorData::new("malformed varint", MALFORMED_VARINT));
    }
    let mut i = pos;
    let mut mult: u128 = 1;
    let mut acc: u128 = 0;
    while i < data.len()
        invariant
            pos <= i <= data@.len(),
            1 <= mult <= 0x400_0000_0000_0000_0000u128,
            acc <= u64::MAX,
            parse_varint(data@, pos as int) == varint_step(
                data@,
                i as int,
                mult as nat,
                acc as nat,
            ),
        decreases data@.len() - i,
    {
        let b = data[i];
        let low = (b & 0x7f) as u128;
        assert(b & 0x7f <= 0x7f) by (bit_vector);
        assert(low * mult <= 0x7f * 0x400_0000_0000_0000_0000u128) by (nonlinear_arith)
            requires
                low <= 0x7f,
                mult <= 0x400_0000_0000_0000_0000u128,
        ;
        let v = acc + low * mult;
        if v > u64::MAX as u128 {
            return Err(ErrorData::new("malformed varint", MALFORMED_VARINT));
        }
        if b < 0x80 {
            proof {
                lemma_varint_advances(data@, pos as int);
            }
            return Ok((v as u64, i + 1));
        }
        if mult >= 0x8000_0000_0000_0000u128 {
            return Err(ErrorData::new("malformed varint", MALFORMED_VARINT));
        }
        mult = mult * 128;
        acc = v;
        i = i + 1;
    }
    Err(ErrorData::new("malformed varint", MALFORMED_VARINT))
}

} // verus!
