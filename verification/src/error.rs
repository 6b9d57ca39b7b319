//! Error reporting: every decode entry point returns its result together with
//! an `ErrorData` value whose numeric code is the stable, caller-visible
//! contract. Code `0` means "no error".

use vstd::prelude::*;

use crate::text::append_decimal;
use crate::text::dec_digits;
use vstd::string::StringExecFns;

verus! {

/// No error occurred; the accompanying data fields are meaningful.
pub const NO_ERROR: u16 = 0;
/// A varint ended before its terminating byte or overflowed 64 bits.
pub const MALFORMED_VARINT: u16 = 1;
/// A CID declared more digest bytes than remain in the buffer, or one of its
/// inner varints was malformed.
pub const TRUNCATED_CID: u16 = 2;
/// The CID version tag is not a recognized CID version.
pub const UNKNOWN_MULTIBASE: u16 = 3;
/// The CARv1 header length prefix exceeds the remaining buffer.
pub const HEADER_LENGTH_ERROR: u16 = 4;
/// The CARv1 header's version field is not 1.
pub const UNSUPPORTED_VERSION: u16 = 5;
/// A root CID inside a CARv1 header failed to decode.
pub const ROOT_DECODE_ERROR: u16 = 6;
/// The fixed CARv2 pragma bytes are absent.
pub const BAD_MAGIC: u16 = 7;
/// Fewer bytes than the fixed CARv2 preamble size remain.
pub const TRUNCATED_HEADER: u16 = 8;
/// A block frame's declared length exceeds the remaining buffer.
pub const FRAME_LENGTH_ERROR: u16 = 9;
/// The multihash code named by a CID is not in the supported table.
pub const UNSUPPORTED_HASH_ALGORITHM: u16 = 10;
/// The CARv1 header bytes do not form the expected map structure.
pub const HEADER_DECODE_ERROR: u16 = 11;

/// A decode outcome: a human-readable message plus a stable numeric code that
/// callers branch on.
#[derive(Debug)]
pub struct ErrorData {
    pub error: String,
    pub error_code: u16,
}

impl ErrorData {
    /// Whether this value reports an actual error.
    pub open spec fn is_error(&self) -> bool {
        self.error_code != NO_ERROR
    }

    /// The "no error" value: code 0 and an empty message.
    pub fn none() -> (r: ErrorData)
        ensures
            r.error_code == NO_ERROR,
            r.error@ == Seq::<char>::empty(),
    {
        ErrorData { error: String::new(), error_code: NO_ERROR }
    }

    /// An error with the given message and code.
    pub fn new(message: &str, code: u16) -> (r: ErrorData)
        ensures
            r.error_code == code,
            r.error@ == message@,
    {
        ErrorData { error: message.to_owned(), error_code: code }
    }

    /// One line naming the message and the numeric code.
    pub fn format_message(&self) -> (r: String)
        ensures
            r@ == "Error: "@ + self.error@ + "  Code: "@ + dec_digits(self.error_code as nat),
    {
        let mut s = String::new();
        s.append("Error: ");
        s.append(self.error.as_str());
        s.append("  Code: ");
        append_decimal(&mut s, self.error_code as u64);
        proof {
            assert(s@ =~= "Error: "@ + self.error@ + "  Code: "@ + dec_digits(
                self.error_code as nat,
            ));
        }
        s
    }
}

} // verus!
