//! A minimal parsed form of `scheme://host/path?query#fragment`
//! URLs, enough to classify observed navigation targets and to read
//! their query parameters.

use vstd::prelude::*;
use crate::encoding::{B_COLON, B_SLASH, B_QMARK, B_HASH};
use crate::query::{
    find, lemma_find_unique, parse_query, q_get, pairs_view, parse_query_bytes, subrange_vec,
    bytes_eq,
};

verus! {

/// The mathematical shape of a parsed URL.
pub ghost struct UrlView {
    pub scheme: Seq<u8>,
    pub host: Seq<u8>,
    pub path: Seq<u8>,
    pub query: Seq<(Seq<u8>, Seq<u8>)>,
}

/// Characters allowed in a URL scheme.
pub open spec fn is_scheme_char(b: u8) -> bool {
    (65 <= b && b <= 90) || (97 <= b && b <= 122) || (48 <= b && b <= 57) || b == 43 || b == 45
        || b == 46
}

pub open spec fn p_colon() -> spec_fn(u8) -> bool {
    |b: u8| b == B_COLON
}

/// The first `c` bytes form a well-formed scheme.
pub open spec fn scheme_ok(s: Seq<u8>, c: int) -> bool {
    forall|i: int| 0 <= i < c ==> is_scheme_char(#[trigger] s[i])
}

pub open spec fn p_host_end() -> spec_fn(u8) -> bool {
    |b: u8| b == B_SLASH || b == B_QMARK || b == B_HASH
}

pub open spec fn p_path_end() -> spec_fn(u8) -> bool {
    |b: u8| b == B_QMARK || b == B_HASH
}

pub open spec fn p_hash() -> spec_fn(u8) -> bool {
    |b: u8| b == B_HASH
}

/// Parsing of an absolute URL: a nonempty scheme of scheme
/// characters, `://`, a nonempty host up to the first `/`, `?` or
/// `#`, a path defaulting to `/`, a query between `?` and `#` or
/// the end, and an ignored fragment.
pub open spec fn parse_url(s: Seq<u8>) -> Option<UrlView> {
    let c = find(s, p_colon());
    if c == 0 || c + 2 >= s.len() || s[c + 1] != B_SLASH || s[c + 2] != B_SLASH || !scheme_ok(
        s,
        c,
    ) {
        None
    } else {
        let rest = s.skip(c + 3);
        let h = find(rest, p_host_end());
        if h == 0 {
            None
        } else {
            let after = rest.skip(h);
            let path = if after.len() == 0 || after[0] != B_SLASH {
                seq![B_SLASH]
            } else {
                after.take(find(after, p_path_end()))
            };
            let tail = if after.len() == 0 || after[0] != B_SLASH {
                after
            } else {
                after.skip(find(after, p_path_end()))
            };
            let query = if tail.len() > 0 && tail[0] == B_QMARK {
                parse_query(tail.skip(1).take(find(tail.skip(1), p_hash())))
            } else {
                Seq::empty()
            };
            Some(UrlView { scheme: s.take(c), host: rest.take(h), path, query })
        }
    }
}

/// A parsed URL: what one observed navigation target looks like to
/// the client. Query pairs are percent-decoded; keys keep their
/// first occurrence on lookup.
pub struct RedirectUrl {
    pub scheme: Vec<u8>,
    pub host: Vec<u8>,
    pub path: Vec<u8>,
    pub query: Vec<(Vec<u8>, Vec<u8>)>,
}

impl View for RedirectUrl {
    type V = UrlView;

    open spec fn view(&self) -> UrlView {
        UrlView {
            scheme: self.scheme@,
            host: self.host@,
            path: self.path@,
            query: pairs_view(self.query@),
        }
    }
}

/// First index at or after `from` whose byte ends a host, or `s.len()`.
fn find_host_end_from(s: &[u8], from: usize) -> (j: usize)
    requires
        from <= s@.len(),
    ensures
        from <= j <= s@.len(),
        forall|t: int| from <= t < j ==> !(p_host_end()(s@[t])),
        j < s@.len() ==> p_host_end()(s@[j as int]),
{
    let mut i: usize = from;
    while i < s.len()
        invariant
            from <= i <= s@.len(),
            forall|t: int| from <= t < i ==> !(p_host_end()(s@[t])),
        decreases s.len() - i,
    {
        if s[i] == B_SLASH || s[i] == B_QMARK || s[i] == B_HASH {
            return i;
        }
        i = i + 1;
    }
    i
}

/// First index at or after `from` whose byte ends a path, or `s.len()`.
fn find_path_end_from(s: &[u8], from: usize) -> (j: usize)
    requires
        from <= s@.len(),
    ensures
        from <= j <= s@.len(),
        forall|t: int| from <= t < j ==> !(p_path_end()(s@[t])),
        j < s@.len() ==> p_path_end()(s@[j as int]),
{
    let mut i: usize = from;
    while i < s.len()
        invariant
            from <= i <= s@.len(),
            forall|t: int| from <= t < i ==> !(p_path_end()(s@[t])),
        decreases s.len() - i,
    {
        if s[i] == B_QMARK || s[i] == B_HASH {
            return i;
        }
        i = i + 1;
    }
    i
}

/// First index at or after `from` holding `b`, or `s.len()`.
fn find_byte_from(s: &[u8], from: usize, b: u8) -> (j: usize)
    requires
        from <= s@.len(),
    ensures
        from <= j <= s@.len(),
        forall|t: int| from <= t < j ==> s@[t] != b,
        j < s@.len() ==> s@[j as int] == b,
{
    let mut i: usize = from;
    while i < s.len()
        invariant
            from <= i <= s@.len(),
            forall|t: int| from <= t < i ==> s@[t] != b,
        decreases s.len() - i,
    {
        if s[i] == b {
            return i;
        }
        i = i + 1;
    }
    i
}

impl RedirectUrl {
    /// Parse an absolute URL, or report that the bytes are no URL.
    #[verifier::rlimit(60)]
    #[verifier::loop_isolation(false)]
    pub fn parse(s: &[u8]) -> (r: Option<RedirectUrl>)
        ensures
            match r {
                Some(u) => parse_url(s@) == Some(u@),
                None => parse_url(s@) is None,
            },
    {
        let c = find_byte_from(s, 0, B_COLON);
        proof {
            assert forall|t: int| 0 <= t < c implies !(p_colon()(s@[t])) by {}
            lemma_find_unique(s@, p_colon(), c as int);
        }
        if c == 0 || c >= s.len() || s.len() - c < 3 || s[c + 1] != B_SLASH || s[c + 2] != B_SLASH {
            return None;
        }
        // scheme charset
        let mut t: usize = 0;
        while t < c
            invariant
                t <= c < s@.len(),
                forall|u: int| 0 <= u < t ==> is_scheme_char(s@[u]),
            decreases c - t,
        {
            let b = s[t];
            if !((65 <= b && b <= 90) || (97 <= b && b <= 122) || (48 <= b && b <= 57) || b == 43
                || b == 45 || b == 46) {
                proof {
                    assert(!is_scheme_char(s@[t as int]));
                    assert(!scheme_ok(s@, c as int));
                }
                return None;
            }
            t = t + 1;
        }
        let ghost rest = s@.skip(c + 3);
        let h = find_host_end_from(s, c + 3);
        proof {
            assert forall|u: int| 0 <= u < h - (c + 3) implies !(p_host_end()(rest[u])) by {
                assert(rest[u] == s@[c + 3 + u]);
            }
            if h < s@.len() {
                assert(p_host_end()(rest[h - (c + 3)]));
            }
            lemma_find_unique(rest, p_host_end(), h - (c + 3) as int);
        }
        if h == c + 3 {
            return None;
        }
        let scheme = subrange_vec(s, 0, c);
        let host = subrange_vec(s, c + 3, h);
        proof {
            assert(rest.take(h - (c + 3) as int) =~= s@.subrange(c + 3, h as int));
            assert(s@.take(c as int) =~= s@.subrange(0, c as int));
        }
        let ghost after = rest.skip(h - (c + 3) as int);
        proof {
            assert(after =~= s@.skip(h as int));
        }
        // path and the start of the query part
        let (path, tail_at) = if h == s.len() || s[h] != B_SLASH {
            let mut p: Vec<u8> = Vec::new();
            p.push(B_SLASH);
            proof {
                assert(p@ =~= seq![B_SLASH]);
            }
            (p, h)
        } else {
            let jp = find_path_end_from(s, h);
            proof {
                assert forall|u: int| 0 <= u < jp - h implies !(p_path_end()(after[u])) by {
                    assert(after[u] == s@[h + u]);
                }
                if jp < s@.len() {
                    assert(p_path_end()(after[jp - h]));
                }
                lemma_find_unique(after, p_path_end(), jp - h as int);
                assert(after.take(jp - h as int) =~= s@.subrange(h as int, jp as int));
            }
            (subrange_vec(s, h, jp), jp)
        };
        let ghost tail = after.skip(tail_at - h as int);
        proof {
            assert(tail =~= s@.skip(tail_at as int));
        }
        // query between '?' and '#' or the end
        let query: Vec<(Vec<u8>, Vec<u8>)> = if tail_at < s.len() && s[tail_at] == B_QMARK {
            let jq = find_byte_from(s, tail_at + 1, B_HASH);
            let ghost qtail = tail.skip(1);
            proof {
                assert(qtail =~= s@.skip(tail_at + 1));
                assert forall|u: int| 0 <= u < jq - (tail_at + 1) implies !(p_hash()(qtail[u])) by {
                    assert(qtail[u] == s@[tail_at + 1 + u]);
                }
                if jq < s@.len() {
                    assert(p_hash()(qtail[jq - (tail_at + 1)]));
                }
                lemma_find_unique(qtail, p_hash(), jq - (tail_at + 1) as int);
                assert(qtail.take(jq - (tail_at + 1) as int) =~= s@.subrange(
                    tail_at + 1,
                    jq as int,
                ));
            }
            let raw = subrange_vec(s, tail_at + 1, jq);
            parse_query_bytes(raw.as_slice())
        } else {
            proof {
                if tail.len() > 0 {
                    assert(tail[0] == s@[tail_at as int]);
                }
            }
            Vec::new()
        };
        proof {
            assert(pairs_view(Seq::<(Vec<u8>, Vec<u8>)>::empty()) =~= Seq::<
                (Seq<u8>, Seq<u8>),
            >::empty());
        }
        Some(RedirectUrl { scheme, host, path, query })
    }

    /// The first value stored under `key`, percent-decoded.
    pub fn query_value(&self, key: &[u8]) -> (r: Option<Vec<u8>>)
        ensures
            match r {
                Some(v) => q_get(self@.query, key@) == Some(v@),
                None => q_get(self@.query, key@) is None,
            },
    {
        let ghost qv = pairs_view(self.query@);
        let mut i: usize = 0;
        proof {
            assert(qv.skip(0) =~= qv);
        }
        while i < self.query.len()
            invariant
                i <= self.query@.len(),
                qv == pairs_view(self.query@),
                q_get(qv, key@) == q_get(qv.skip(i as int), key@),
            decreases self.query.len() - i,
        {
            proof {
                assert(qv.skip(i as int)[0] == qv[i as int]);
                assert(qv.skip(i as int).skip(1) =~= qv.skip(i + 1));
            }
            if bytes_eq(self.query[i].0.as_slice(), key) {
                let v = subrange_vec(self.query[i].1.as_slice(), 0, self.query[i].1.len());
                proof {
                    assert(v@ =~= self.query@[i as int].1@);
                }
                return Some(v);
            }
            i = i + 1;
        }
        None
    }
}

} // verus!
