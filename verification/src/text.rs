//! Bridging between ASCII byte sequences and strings.

use vstd::prelude::*;
use vstd::string::StrSliceExecFns;

verus! {

/// The bytes of an ASCII character sequence.
pub open spec fn ascii_bytes_of(s: Seq<char>) -> Seq<u8> {
    Seq::new(s.len(), |i: int| s[i] as u8)
}

/// The characters of an ASCII byte sequence.
pub open spec fn ascii_chars_of(bs: Seq<u8>) -> Seq<char> {
    bs.map_values(|b: u8| b as char)
}

pub open spec fn all_ascii(bs: Seq<u8>) -> bool {
    forall|i: int| 0 <= i < bs.len() ==> (#[trigger] bs[i]) < 128
}

/// The bytes of an ASCII string.
pub fn string_bytes(s: &str) -> (r: Vec<u8>)
    requires
        vstd::string::is_ascii(s),
    ensures
        r@ == ascii_bytes_of(s@),
        all_ascii(r@),
{
    proof {
        broadcast use vstd::string::is_ascii_spec_bytes;
        broadcast use vstd::utf8::is_ascii_chars_nat_bound;

    }
    let r = s.as_bytes_vec();
    proof {
        assert(r@ =~= ascii_bytes_of(s@));
        assert forall|i: int| 0 <= i < r@.len() implies (#[trigger] r@[i]) < 128 by {
            assert((s@[i] as nat) < 128);
        }
    }
    r
}

/// Relies on String::from_utf8: ASCII bytes are valid UTF-8 and
/// decode to exactly one character per byte, with equal code points.
#[verifier::external_body]
pub(crate) fn ascii_to_string(v: Vec<u8>) -> (r: String)
    requires
        all_ascii(v@),
    ensures
        r@ == ascii_chars_of(v@),
{
    match String::from_utf8(v) {
        Ok(s) => s,
        Err(_) => String::new(),
    }
}

} // verus!
