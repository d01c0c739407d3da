//! Query strings: building `k=v&k=v` strings from pairs of byte
//! components, parsing them back, and the round-trip proof that
//! parsing recovers exactly the pairs that were built.

use vstd::prelude::*;
use crate::encoding::{
    enc, dec, enc_byte, is_unreserved, is_hex_digit, lemma_enc_bytes, lemma_dec_enc,
    encode_component, decode_component, B_AMP, B_EQ, B_QMARK, B_HASH, B_PCT,
};

verus! {

/// The index of the first byte satisfying `p`, or `s.len()` if none does.
pub open spec fn find(s: Seq<u8>, p: spec_fn(u8) -> bool) -> int
    decreases s.len(),
{
    if s.len() == 0 {
        0
    } else if p(s[0]) {
        0
    } else {
        1 + find(s.skip(1), p)
    }
}

pub open spec fn p_amp() -> spec_fn(u8) -> bool {
    |b: u8| b == B_AMP
}

pub open spec fn p_eq() -> spec_fn(u8) -> bool {
    |b: u8| b == B_EQ
}

/// What `find` returns: the first hit, and nothing before it.
pub proof fn lemma_find_props(s: Seq<u8>, p: spec_fn(u8) -> bool)
    ensures
        0 <= find(s, p) <= s.len(),
        forall|i: int| 0 <= i < find(s, p) ==> !p(s[i]),
        find(s, p) < s.len() ==> p(s[find(s, p)]),
    decreases s.len(),
{
    if s.len() > 0 && !p(s[0]) {
        lemma_find_props(s.skip(1), p);
        assert forall|i: int| 0 <= i < find(s, p) implies !p(s[i]) by {
            if i > 0 {
                assert(s.skip(1)[i - 1] == s[i]);
            }
        }
        if find(s, p) < s.len() {
            assert(s.skip(1)[find(s, p) - 1] == s[find(s, p)]);
        }
    }
}

/// `find` is the only index with its characterisation.
pub proof fn lemma_find_unique(s: Seq<u8>, p: spec_fn(u8) -> bool, j: int)
    requires
        0 <= j <= s.len(),
        forall|i: int| 0 <= i < j ==> !p(s[i]),
        j < s.len() ==> p(s[j]),
    ensures
        find(s, p) == j,
{
    lemma_find_props(s, p);
    let f = find(s, p);
    if f < j {
        assert(p(s[f]));
        assert(!p(s[f]));
    } else if f > j {
        assert(p(s[j]));
        assert(!p(s[j]));
    }
}

/// The encoded form of one pair.
pub open spec fn pair_bytes(p: (Seq<u8>, Seq<u8>)) -> Seq<u8> {
    enc(p.0) + seq![B_EQ] + enc(p.1)
}

/// The encoded form of a pair list, `&`-separated.
pub open spec fn query_of_pairs(ps: Seq<(Seq<u8>, Seq<u8>)>) -> Seq<u8>
    decreases ps.len(),
{
    if ps.len() == 0 {
        Seq::empty()
    } else if ps.len() == 1 {
        pair_bytes(ps[0])
    } else {
        pair_bytes(ps[0]) + seq![B_AMP] + query_of_pairs(ps.skip(1))
    }
}

/// One `k=v` piece, percent-decoded; a piece without `=` is a key
/// with an empty value.
pub open spec fn parse_pair(piece: Seq<u8>) -> (Seq<u8>, Seq<u8>) {
    let e = find(piece, p_eq());
    if e == piece.len() {
        (dec(piece), Seq::empty())
    } else {
        (dec(piece.take(e)), dec(piece.skip(e + 1)))
    }
}

/// Parsing of a raw query string: split on `&`, drop empty pieces,
/// decode each piece.
pub open spec fn parse_query(s: Seq<u8>) -> Seq<(Seq<u8>, Seq<u8>)>
    decreases s.len(),
    via parse_query_decreases
{
    if s.len() == 0 {
        Seq::empty()
    } else {
        let a = find(s, p_amp());
        let head = if a == 0 {
            Seq::<(Seq<u8>, Seq<u8>)>::empty()
        } else {
            seq![parse_pair(s.take(a))]
        };
        if a == s.len() {
            head
        } else {
            head + parse_query(s.skip(a + 1))
        }
    }
}

#[via_fn]
proof fn parse_query_decreases(s: Seq<u8>) {
    if s.len() > 0 {
        lemma_find_props(s, p_amp());
    }
}

/// First value stored under a key, if any.
pub open spec fn q_get(q: Seq<(Seq<u8>, Seq<u8>)>, k: Seq<u8>) -> Option<Seq<u8>>
    decreases q.len(),
{
    if q.len() == 0 {
        None
    } else if q[0].0 == k {
        Some(q[0].1)
    } else {
        q_get(q.skip(1), k)
    }
}

/// The byte views of a vector of byte-vector pairs.
pub open spec fn pairs_view(ps: Seq<(Vec<u8>, Vec<u8>)>) -> Seq<(Seq<u8>, Seq<u8>)> {
    ps.map_values(|p: (Vec<u8>, Vec<u8>)| (p.0@, p.1@))
}

proof fn lemma_query_push(ps: Seq<(Seq<u8>, Seq<u8>)>, p: (Seq<u8>, Seq<u8>))
    ensures
        ps.len() == 0 ==> query_of_pairs(ps.push(p)) == pair_bytes(p),
        ps.len() > 0 ==> query_of_pairs(ps.push(p)) == query_of_pairs(ps) + seq![B_AMP]
            + pair_bytes(p),
    decreases ps.len(),
{
    if ps.len() == 0 {
        assert(ps.push(p).len() == 1);
        assert(ps.push(p)[0] == p);
    } else if ps.len() == 1 {
        assert(ps.push(p).len() == 2);
        assert(ps.push(p)[0] == ps[0]);
        assert(ps.push(p).skip(1) =~= seq![p]);
        assert(query_of_pairs(seq![p]) == pair_bytes(p));
        assert(query_of_pairs(ps) == pair_bytes(ps[0]));
    } else {
        lemma_query_push(ps.skip(1), p);
        assert(ps.push(p).skip(1) =~= ps.skip(1).push(p));
        assert(ps.push(p)[0] == ps[0]);
        assert(query_of_pairs(ps.push(p)) == pair_bytes(ps[0]) + seq![B_AMP] + (query_of_pairs(
            ps.skip(1),
        ) + seq![B_AMP] + pair_bytes(p)));
        assert(pair_bytes(ps[0]) + seq![B_AMP] + (query_of_pairs(ps.skip(1)) + seq![B_AMP]
            + pair_bytes(p)) =~= (pair_bytes(ps[0]) + seq![B_AMP] + query_of_pairs(ps.skip(1)))
            + seq![B_AMP] + pair_bytes(p));
    }
}

/// Build the `&`-separated, percent-encoded query string for a pair list.
pub fn build_query(pairs: &Vec<(Vec<u8>, Vec<u8>)>) -> (r: Vec<u8>)
    ensures
        r@ == query_of_pairs(pairs_view(pairs@)),
{
    let mut r: Vec<u8> = Vec::new();
    let mut i: usize = 0;
    proof {
        assert(pairs_view(pairs@).take(0) =~= Seq::<(Seq<u8>, Seq<u8>)>::empty());
    }
    while i < pairs.len()
        invariant
            i <= pairs.len(),
            r@ == query_of_pairs(pairs_view(pairs@).take(i as int)),
        decreases pairs.len() - i,
    {
        let ghost pre = pairs_view(pairs@).take(i as int);
        if i > 0 {
            r.push(B_AMP);
        }
        let mut ek = encode_component(pairs[i].0.as_slice());
        r.append(&mut ek);
        r.push(B_EQ);
        let mut ev = encode_component(pairs[i].1.as_slice());
        r.append(&mut ev);
        proof {
            let p = (pairs@[i as int].0@, pairs@[i as int].1@);
            lemma_query_push(pre, p);
            assert(pairs_view(pairs@).take(i + 1) =~= pre.push(p));
            if i == 0 {
                assert(r@ =~= pair_bytes(p));
            } else {
                assert(r@ =~= query_of_pairs(pre) + seq![B_AMP] + pair_bytes(p));
            }
        }
        i = i + 1;
    }
    proof {
        assert(pairs_view(pairs@).take(pairs@.len() as int) =~= pairs_view(pairs@));
    }
    r
}

/// The copy of `s[from..to]` as a fresh vector.
pub fn subrange_vec(s: &[u8], from: usize, to: usize) -> (r: Vec<u8>)
    requires
        from <= to <= s@.len(),
    ensures
        r@ == s@.subrange(from as int, to as int),
{
    let mut r: Vec<u8> = Vec::new();
    let mut i: usize = from;
    while i < to
        invariant
            from <= i <= to <= s@.len(),
            r@ == s@.subrange(from as int, i as int),
        decreases to - i,
    {
        r.push(s[i]);
        proof {
            assert(r@ =~= s@.subrange(from as int, i + 1));
        }
        i = i + 1;
    }
    r
}

/// Byte-wise equality of two slices.
pub fn bytes_eq(a: &[u8], b: &[u8]) -> (r: bool)
    ensures
        r == (a@ == b@),
{
    if a.len() != b.len() {
        proof {
            assert(a@ != b@);
        }
        return false;
    }
    let mut i: usize = 0;
    while i < a.len()
        invariant
            i <= a@.len(),
            a@.len() == b@.len(),
            forall|t: int| 0 <= t < i ==> a@[t] == b@[t],
        decreases a.len() - i,
    {
        if a[i] != b[i] {
            return false;
        }
        i = i + 1;
    }
    proof {
        assert(a@ =~= b@);
    }
    true
}

/// First index at or after `from` holding `b`, or `s.len()`.
fn find_byte_from(s: &[u8], from: usize, b: u8) -> (j: usize)
    requires
        from <= s@.len(),
    ensures
        from <= j <= s@.len(),
        forall|t: int| from <= t < j ==> s@[t] != b,
        j < s@.len() ==> s@[j as int] == b,
{
    let mut i: usize = from;
    while i < s.len()
        invariant
            from <= i <= s@.len(),
            forall|t: int| from <= t < i ==> s@[t] != b,
        decreases s.len() - i,
    {
        if s[i] == b {
            return i;
        }
        i = i + 1;
    }
    i
}

/// Parse a raw query string into decoded key/value pairs.
pub fn parse_query_bytes(s: &[u8]) -> (r: Vec<(Vec<u8>, Vec<u8>)>)
    ensures
        pairs_view(r@) == parse_query(s@),
{
    let mut r: Vec<(Vec<u8>, Vec<u8>)> = Vec::new();
    let mut i: usize = 0;
    proof {
        assert(s@.skip(0) =~= s@);
        assert(pairs_view(r@) =~= Seq::<(Seq<u8>, Seq<u8>)>::empty());
        assert(pairs_view(r@) + parse_query(s@) =~= parse_query(s@));
    }
    while i < s.len()
        invariant
            i <= s@.len(),
            parse_query(s@) == pairs_view(r@) + parse_query(s@.skip(i as int)),
        decreases s.len() - i,
    {
        let ghost rest = s@.skip(i as int);
        let j = find_byte_from(s, i, B_AMP);
        proof {
            assert forall|t: int| 0 <= t < j - i implies !(p_amp()(rest[t])) by {
                assert(rest[t] == s@[i + t]);
            }
            if j < s@.len() {
                assert(p_amp()(rest[j - i]));
            }
            lemma_find_unique(rest, p_amp(), j - i);
        }
        let ghost head = if j == i {
            Seq::<(Seq<u8>, Seq<u8>)>::empty()
        } else {
            seq![parse_pair(rest.take(j - i))]
        };
        proof {
            if j < s@.len() {
                assert(parse_query(rest) == head + parse_query(rest.skip(j - i + 1)));
                assert(rest.skip(j - i + 1) =~= s@.skip(j + 1));
            } else {
                assert(j - i == rest.len());
                assert(parse_query(rest) == head);
            }
        }
        if j > i {
            // piece s[i..j]; split at the first '='
            let ghost piece = rest.take(j - i);
            proof {
                assert(piece =~= s@.subrange(i as int, j as int));
            }
            let e0 = find_byte_from(s, i, B_EQ);
            let e = if e0 > j {
                j
            } else {
                e0
            };
            proof {
                assert forall|u: int| 0 <= u < e - i implies !(p_eq()(piece[u])) by {
                    assert(piece[u] == s@[i + u]);
                }
                if e < j {
                    assert(p_eq()(piece[e - i]));
                }
                lemma_find_unique(piece, p_eq(), e - i);
            }
            let key_raw = subrange_vec(s, i, e);
            let k = decode_component(key_raw.as_slice());
            let v = if e < j {
                let val_raw = subrange_vec(s, e + 1, j);
                decode_component(val_raw.as_slice())
            } else {
                Vec::new()
            };
            proof {
                if e < j {
                    assert(piece.take(e - i) =~= s@.subrange(i as int, e as int));
                    assert(piece.skip(e - i + 1) =~= s@.subrange(e + 1, j as int));
                    assert(parse_pair(piece) == (k@, v@));
                } else {
                    assert(find(piece, p_eq()) == piece.len());
                    assert(v@ =~= Seq::<u8>::empty());
                    assert(parse_pair(piece) == (k@, v@));
                }
            }
            let ghost old_pairs = r@;
            r.push((k, v));
            proof {
                assert(pairs_view(r@) =~= pairs_view(old_pairs) + seq![(k@, v@)]);
                assert(head =~= seq![(k@, v@)]);
            }
        }
        proof {
            if j == i {
                assert(head =~= Seq::<(Seq<u8>, Seq<u8>)>::empty());
                assert(pairs_view(r@) + head =~= pairs_view(r@));
            }
            if j < s@.len() {
                assert((pairs_view(r@) + parse_query(s@.skip(j + 1))) =~= parse_query(s@));
            } else {
                assert(s@.skip(s@.len() as int) =~= Seq::<u8>::empty());
                assert((pairs_view(r@) + parse_query(s@.skip(s@.len() as int))) =~= parse_query(
                    s@,
                ));
            }
        }
        if j < s.len() {
            i = j + 1;
        } else {
            i = s.len();
        }
    }
    proof {
        assert(s@.skip(s@.len() as int) =~= Seq::<u8>::empty());
        assert(pairs_view(r@) + parse_query(s@.skip(s@.len() as int)) =~= pairs_view(r@));
    }
    r
}

/// No byte of an encoded pair is a `?`, `#` or `&`, and all of it
/// is ASCII.
proof fn lemma_pair_bytes_delims(p: (Seq<u8>, Seq<u8>))
    ensures
        forall|i: int|
            0 <= i < pair_bytes(p).len() ==> (#[trigger] pair_bytes(p)[i]) != B_AMP && pair_bytes(
                p,
            )[i] != B_QMARK && pair_bytes(p)[i] != B_HASH && pair_bytes(p)[i] < 128,
{
    lemma_enc_bytes(p.0);
    lemma_enc_bytes(p.1);
    assert forall|i: int| 0 <= i < pair_bytes(p).len() implies (#[trigger] pair_bytes(p)[i])
        != B_AMP && pair_bytes(p)[i] != B_QMARK && pair_bytes(p)[i] != B_HASH && pair_bytes(p)[i]
        < 128 by {
        let q = pair_bytes(p);
        if i < enc(p.0).len() {
            assert(q[i] == enc(p.0)[i]);
        } else if i == enc(p.0).len() {
            assert(q[i] == B_EQ);
        } else {
            assert(q[i] == enc(p.1)[i - enc(p.0).len() - 1]);
        }
    }
}

/// Parsing one encoded pair recovers it.
proof fn lemma_parse_pair_roundtrip(p: (Seq<u8>, Seq<u8>))
    ensures
        parse_pair(pair_bytes(p)) == p,
{
    let q = pair_bytes(p);
    lemma_enc_bytes(p.0);
    assert forall|u: int| 0 <= u < enc(p.0).len() implies !(p_eq()(q[u])) by {
        assert(q[u] == enc(p.0)[u]);
    }
    assert(q[enc(p.0).len() as int] == B_EQ);
    lemma_find_unique(q, p_eq(), enc(p.0).len() as int);
    assert(q.take(enc(p.0).len() as int) =~= enc(p.0));
    assert(q.skip(enc(p.0).len() as int + 1) =~= enc(p.1));
    lemma_dec_enc(p.0);
    lemma_dec_enc(p.1);
    assert(parse_pair(q) == (p.0, p.1));
    assert((p.0, p.1) == p);
}

/// Round trip: parsing a built query string yields exactly the
/// pairs it was built from.
pub proof fn lemma_parse_query_roundtrip(ps: Seq<(Seq<u8>, Seq<u8>)>)
    ensures
        parse_query(query_of_pairs(ps)) == ps,
    decreases ps.len(),
{
    if ps.len() == 0 {
        assert(parse_query(query_of_pairs(ps)) =~= ps);
    } else if ps.len() == 1 {
        let q = query_of_pairs(ps);
        assert(q == pair_bytes(ps[0]));
        lemma_pair_bytes_delims(ps[0]);
        assert(q.len() > 0);
        lemma_find_unique(q, p_amp(), q.len() as int);
        assert(q.take(q.len() as int) =~= q);
        lemma_parse_pair_roundtrip(ps[0]);
        assert(parse_query(q) == seq![ps[0]]);
        assert(seq![ps[0]] =~= ps);
    } else {
        let q = query_of_pairs(ps);
        let pb = pair_bytes(ps[0]);
        let rest_q = query_of_pairs(ps.skip(1));
        assert(q == pb + seq![B_AMP] + rest_q);
        lemma_pair_bytes_delims(ps[0]);
        assert forall|u: int| 0 <= u < pb.len() implies !(p_amp()(q[u])) by {
            assert(q[u] == pb[u]);
        }
        assert(q[pb.len() as int] == B_AMP);
        lemma_find_unique(q, p_amp(), pb.len() as int);
        assert(pb.len() > 0);
        assert(q.take(pb.len() as int) =~= pb);
        lemma_parse_pair_roundtrip(ps[0]);
        assert(q.skip(pb.len() as int + 1) =~= rest_q);
        lemma_parse_query_roundtrip(ps.skip(1));
        assert(parse_query(q) == seq![ps[0]] + ps.skip(1));
        assert(seq![ps[0]] + ps.skip(1) =~= ps);
    }
}

/// No byte of a built query string is a `?` or `#`, and all of it
/// is ASCII.
pub proof fn lemma_query_of_pairs_delims(ps: Seq<(Seq<u8>, Seq<u8>)>)
    ensures
        forall|i: int|
            0 <= i < query_of_pairs(ps).len() ==> (#[trigger] query_of_pairs(ps)[i]) != B_QMARK
                && query_of_pairs(ps)[i] != B_HASH && query_of_pairs(ps)[i] < 128,
    decreases ps.len(),
{
    if ps.len() == 0 {
    } else if ps.len() == 1 {
        lemma_pair_bytes_delims(ps[0]);
        assert(query_of_pairs(ps) == pair_bytes(ps[0]));
    } else {
        lemma_pair_bytes_delims(ps[0]);
        lemma_query_of_pairs_delims(ps.skip(1));
        let q = query_of_pairs(ps);
        let pb = pair_bytes(ps[0]);
        assert forall|i: int| 0 <= i < q.len() implies (#[trigger] q[i]) != B_QMARK && q[i]
            != B_HASH && q[i] < 128 by {
            if i < pb.len() {
                assert(q[i] == pb[i]);
            } else if i == pb.len() {
                assert(q[i] == B_AMP);
            } else {
                assert(q[i] == query_of_pairs(ps.skip(1))[i - pb.len() - 1]);
            }
        }
    }
}

} // verus!
