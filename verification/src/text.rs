//! Decimal rendering of unsigned integers, used by the human-readable
//! summaries and error messages.

use vstd::prelude::*;

use vstd::string::StrSliceExecFns;
use vstd::string::StringExecFns;

verus! {

/// The decimal digit characters.
pub open spec fn dec_char(d: int) -> char {
    "0123456789"@[d]
}

/// The decimal digits of `n`, most significant first, with no leading zero
/// except for `n == 0` itself.
pub open spec fn dec_digits(n: nat) -> Seq<char>
    decreases n,
{
    if n < 10 {
        seq![dec_char(n as int)]
    } else {
        dec_digits(n / 10) + seq![dec_char((n % 10) as int)]
    }
}

/// Appends the decimal rendering of `n` to `out`.
pub fn append_decimal(out: &mut String, n: u64)
    ensures
        final(out)@ == old(out)@ + dec_digits(n as nat),
    decreases n,
{
    if n >= 10 {
        append_decimal(out, n / 10);
    }
    let digits = "0123456789";
    proof {
        reveal_strlit("0123456789");
        assert(digits@.len() == 10);
        assert(digits.is_ascii());
    }
    let d = (n % 10) as usize;
    let ch = digits.substring_ascii(d, d + 1);
    proof {
        assert(ch@ =~= seq![dec_char(d as int)]);
    }
    out.append(ch);
    proof {
        assert(out@ =~= old(out)@ + dec_digits(n as nat));
    }
}

} // verus!
