//! Percent-encoding and -decoding of URL query components, on bytes.
//!
//! Every byte outside the RFC 3986 unreserved set is written as a
//! percent escape, so an encoded component never contains a
//! delimiter (`&`, `=`, `?`, `#`) and decoding inverts encoding
//! exactly.

use vstd::prelude::*;

verus! {

// ASCII codes of the bytes the URL grammar singles out.
pub const B_PCT: u8 = 37;  // '%'
pub const B_AMP: u8 = 38;  // '&'
pub const B_EQ: u8 = 61;  // '='
pub const B_QMARK: u8 = 63;  // '?'
pub const B_HASH: u8 = 35;  // '#'
pub const B_COLON: u8 = 58;  // ':'
pub const B_SLASH: u8 = 47;  // '/'
pub const B_PLUS: u8 = 43;  // '+'
pub const B_SPACE: u8 = 32;  // ' '
pub const B_DASH: u8 = 45;  // '-'
pub const B_UNDER: u8 = 95;  // '_'
pub const B_DOT: u8 = 46;  // '.'
pub const B_TILDE: u8 = 126;  // '~'

/// Bytes that may travel unescaped in a query component
/// (the RFC 3986 unreserved set).
pub open spec fn is_unreserved(b: u8) -> bool {
    (65 <= b && b <= 90)  // 'A'..'Z'
    || (97 <= b && b <= 122)  // 'a'..'z'
    || (48 <= b && b <= 57)  // '0'..'9'
    || b == B_DASH || b == B_UNDER || b == B_DOT || b == B_TILDE
}

/// The upper-case hex digit for a nibble.
pub open spec fn hex_digit(n: u8) -> u8
    recommends
        n < 16,
{
    if n < 10 {
        (48 + n) as u8  // '0' + n
    } else {
        (65 + (n - 10)) as u8  // 'A' + (n - 10)
    }
}

pub open spec fn is_hex_digit(b: u8) -> bool {
    (48 <= b && b <= 57)  // '0'..'9'
    || (65 <= b && b <= 70)  // 'A'..'F'
    || (97 <= b && b <= 102)  // 'a'..'f'
}

/// The value of one hex digit.
pub open spec fn hex_val(b: u8) -> u8
    recommends
        is_hex_digit(b),
{
    if 48 <= b && b <= 57 {
        (b - 48) as u8
    } else if 65 <= b && b <= 70 {
        (b - 65 + 10) as u8
    } else {
        (b - 97 + 10) as u8
    }
}

/// How one byte is encoded: unreserved bytes pass, all others
/// become a percent escape.
pub open spec fn enc_byte(b: u8) -> Seq<u8> {
    if is_unreserved(b) {
        seq![b]
    } else {
        seq![B_PCT, hex_digit(b / 16), hex_digit(b % 16)]
    }
}

/// Percent-encoding of a byte sequence.
pub open spec fn enc(s: Seq<u8>) -> Seq<u8>
    decreases s.len(),
{
    if s.len() == 0 {
        Seq::empty()
    } else {
        enc_byte(s[0]) + enc(s.skip(1))
    }
}

/// Percent-decoding: a valid escape yields its byte, `+` yields a
/// space, and anything else (including a malformed escape) passes
/// through unchanged.
pub open spec fn dec(s: Seq<u8>) -> Seq<u8>
    decreases s.len(),
{
    if s.len() == 0 {
        Seq::empty()
    } else if s[0] == B_PCT && s.len() >= 3 && is_hex_digit(s[1]) && is_hex_digit(s[2]) {
        seq![(hex_val(s[1]) * 16 + hex_val(s[2])) as u8] + dec(s.skip(3))
    } else if s[0] == B_PLUS {
        seq![B_SPACE] + dec(s.skip(1))
    } else {
        seq![s[0]] + dec(s.skip(1))
    }
}

proof fn lemma_enc_unfold_last(s: Seq<u8>)
    requires
        s.len() > 0,
    ensures
        enc(s) == enc(s.take(s.len() - 1)) + enc_byte(s[s.len() - 1]),
    decreases s.len(),
{
    if s.len() == 1 {
        assert(s.take(0) =~= Seq::<u8>::empty());
        assert(s.skip(1) =~= Seq::<u8>::empty());
        assert(enc(s.skip(1)) == Seq::<u8>::empty());
        assert(enc(s) =~= enc_byte(s[0]));
        assert(enc(s.take(0)) + enc_byte(s[0]) =~= enc_byte(s[0]));
    } else {
        let t = s.skip(1);
        lemma_enc_unfold_last(t);
        assert(t.take(t.len() - 1) =~= s.take(s.len() - 1).skip(1));
        assert(t[t.len() - 1] == s[s.len() - 1]);
        assert(s.take(s.len() - 1).len() > 0);
        assert(s.take(s.len() - 1)[0] == s[0]);
        assert(enc(s.take(s.len() - 1)) == enc_byte(s[0]) + enc(s.take(s.len() - 1).skip(1)));
        assert(enc(s) == enc_byte(s[0]) + (enc(t.take(t.len() - 1)) + enc_byte(s[s.len() - 1])));
        assert(enc_byte(s[0]) + (enc(t.take(t.len() - 1)) + enc_byte(s[s.len() - 1])) =~= (enc_byte(
            s[0],
        ) + enc(t.take(t.len() - 1))) + enc_byte(s[s.len() - 1]));
    }
}

/// Every byte of an encoded component is unreserved, a `%`, or a
/// hex digit; in particular it is ASCII and none of the URL
/// delimiters `&`, `=`, `?`, `#` appear.
pub proof fn lemma_enc_bytes(s: Seq<u8>)
    ensures
        forall|i: int|
            0 <= i < enc(s).len() ==> (is_unreserved(#[trigger] enc(s)[i]) || enc(s)[i] == B_PCT
                || is_hex_digit(enc(s)[i])),
    decreases s.len(),
{
    if s.len() > 0 {
        lemma_enc_bytes(s.skip(1));
        assert forall|i: int| 0 <= i < enc(s).len() implies (is_unreserved(#[trigger] enc(s)[i])
            || enc(s)[i] == B_PCT || is_hex_digit(enc(s)[i])) by {
            if i < enc_byte(s[0]).len() {
                assert(enc(s)[i] == enc_byte(s[0])[i]);
            } else {
                assert(enc(s)[i] == enc(s.skip(1))[i - enc_byte(s[0]).len()]);
            }
        }
    }
}

proof fn lemma_hex_digit_roundtrip(n: u8)
    requires
        n < 16,
    ensures
        is_hex_digit(hex_digit(n)),
        hex_val(hex_digit(n)) == n,
        hex_digit(n) != B_PCT,
        hex_digit(n) != B_PLUS,
{
}

/// Decoding inverts encoding.
pub proof fn lemma_dec_enc(s: Seq<u8>)
    ensures
        dec(enc(s)) == s,
    decreases s.len(),
{
    if s.len() == 0 {
        assert(dec(enc(s)) =~= s);
    } else {
        let b = s[0];
        lemma_dec_enc(s.skip(1));
        if is_unreserved(b) {
            assert(enc(s) == seq![b] + enc(s.skip(1)));
            assert(enc(s)[0] == b);
            assert(b != B_PCT && b != B_PLUS);
            assert(enc(s).skip(1) =~= enc(s.skip(1)));
            assert(dec(enc(s)) == seq![b] + dec(enc(s.skip(1))));
            assert(seq![b] + s.skip(1) =~= s);
        } else {
            lemma_hex_digit_roundtrip(b / 16);
            lemma_hex_digit_roundtrip(b % 16);
            assert(enc(s) == seq![B_PCT, hex_digit(b / 16), hex_digit(b % 16)] + enc(s.skip(1)));
            assert(enc(s)[0] == B_PCT && enc(s)[1] == hex_digit(b / 16) && enc(s)[2] == hex_digit(
                b % 16,
            ));
            assert(enc(s).len() >= 3);
            assert((hex_val(enc(s)[1]) * 16 + hex_val(enc(s)[2])) as u8 == b) by {
                assert(hex_val(enc(s)[1]) == b / 16);
                assert(hex_val(enc(s)[2]) == b % 16);
            }
            assert(enc(s).skip(3) =~= enc(s.skip(1)));
            assert(dec(enc(s)) == seq![b] + dec(enc(s.skip(1))));
            assert(seq![b] + s.skip(1) =~= s);
        }
    }
}

/// The exec counterpart of `hex_digit`.
fn hex_digit_exec(n: u8) -> (r: u8)
    requires
        n < 16,
    ensures
        r == hex_digit(n),
{
    if n < 10 {
        48 + n
    } else {
        65 + (n - 10)
    }
}

fn is_unreserved_exec(b: u8) -> (r: bool)
    ensures
        r == is_unreserved(b),
{
    (65 <= b && b <= 90) || (97 <= b && b <= 122) || (48 <= b && b <= 57) || b == B_DASH || b
        == B_UNDER || b == B_DOT || b == B_TILDE
}

fn is_hex_digit_exec(b: u8) -> (r: bool)
    ensures
        r == is_hex_digit(b),
{
    (48 <= b && b <= 57) || (65 <= b && b <= 70) || (97 <= b && b <= 102)
}

fn hex_val_exec(b: u8) -> (r: u8)
    requires
        is_hex_digit(b),
    ensures
        r == hex_val(b),
{
    if 48 <= b && b <= 57 {
        b - 48
    } else if 65 <= b && b <= 70 {
        b - 65 + 10
    } else {
        b - 97 + 10
    }
}

/// Percent-encode a byte sequence for use in a query component.
pub fn encode_component(s: &[u8]) -> (r: Vec<u8>)
    ensures
        r@ == enc(s@),
{
    let mut r: Vec<u8> = Vec::new();
    let mut i: usize = 0;
    while i < s.len()
        invariant
            i <= s.len(),
            r@ == enc(s@.take(i as int)),
        decreases s.len() - i,
    {
        let b = s[i];
        if is_unreserved_exec(b) {
            r.push(b);
        } else {
            r.push(B_PCT);
            r.push(hex_digit_exec(b / 16));
            r.push(hex_digit_exec(b % 16));
        }
        proof {
            assert(s@.take(i + 1).len() > 0);
            lemma_enc_unfold_last(s@.take(i + 1));
            assert(s@.take(i + 1).take(i as int) =~= s@.take(i as int));
            assert(s@.take(i + 1)[i as int] == s@[i as int]);
            assert(r@ =~= enc(s@.take(i as int)) + enc_byte(s@[i as int]));
        }
        i = i + 1;
    }
    proof {
        assert(s@.take(s@.len() as int) =~= s@);
    }
    r
}

/// Percent-decode a query component.
pub fn decode_component(s: &[u8]) -> (r: Vec<u8>)
    ensures
        r@ == dec(s@),
{
    let mut r: Vec<u8> = Vec::new();
    let mut i: usize = 0;
    proof {
        assert(s@.skip(0) =~= s@);
        assert(Seq::<u8>::empty() + dec(s@) =~= dec(s@));
    }
    while i < s.len()
        invariant
            i <= s.len(),
            dec(s@) == r@ + dec(s@.skip(i as int)),
        decreases s.len() - i,
    {
        let ghost pre = s@.skip(i as int);
        proof {
            assert(pre.len() > 0);
            assert(pre[0] == s@[i as int]);
        }
        if s[i] == B_PCT && s.len() - i >= 3 && is_hex_digit_exec(s[i + 1]) && is_hex_digit_exec(
            s[i + 2],
        ) {
            proof {
                assert(pre[1] == s@[i + 1]);
                assert(pre[2] == s@[i + 2]);
                assert(dec(pre) == seq![(hex_val(pre[1]) * 16 + hex_val(pre[2])) as u8] + dec(
                    pre.skip(3),
                ));
                assert(pre.skip(3) =~= s@.skip(i + 3));
            }
            let v = hex_val_exec(s[i + 1]) * 16 + hex_val_exec(s[i + 2]);
            r.push(v);
            proof {
                assert(r@ + dec(s@.skip(i + 3)) =~= (r@.take(r@.len() - 1) + seq![(hex_val(pre[1])
                    * 16 + hex_val(pre[2])) as u8]) + dec(s@.skip(i + 3)));
                assert(dec(s@) == r@ + dec(s@.skip(i + 3)));
            }
            i = i + 3;
        } else {
            let out: u8 = if s[i] == B_PLUS {
                B_SPACE
            } else {
                s[i]
            };
            proof {
                if pre[0] == B_PCT && pre.len() >= 3 && is_hex_digit(pre[1]) && is_hex_digit(
                    pre[2],
                ) {
                    assert(false);
                }
                assert(dec(pre) == seq![out] + dec(pre.skip(1)));
                assert(pre.skip(1) =~= s@.skip(i + 1));
            }
            r.push(out);
            proof {
                assert(r@ + dec(s@.skip(i + 1)) =~= (r@.take(r@.len() - 1) + seq![out]) + dec(
                    s@.skip(i + 1),
                ));
                assert(dec(s@) == r@ + dec(s@.skip(i + 1)));
            }
            i = i + 1;
        }
    }
    proof {
        assert(s@.skip(s@.len() as int) =~= Seq::<u8>::empty());
    }
    r
}

} // verus!
