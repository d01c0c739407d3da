//! Building the authorization URL, and the proof that parsing it
//! back yields exactly the query parameters that went into it.

use vstd::prelude::*;
use crate::config::{ClientConfig, config_wf};
use crate::encoding::{B_QMARK, B_SLASH};
use crate::errors::AuthError;
use crate::params::{
    k_client_id, k_redirect_uri, k_response_type, k_scope, k_state, k_code, client_id_bytes,
    redirect_uri_bytes, response_type_bytes, scope_bytes, state_bytes, code_bytes,
};
use crate::query::{
    query_of_pairs, build_query, pairs_view, subrange_vec, find, lemma_find_props,
    lemma_find_unique, parse_query, lemma_parse_query_roundtrip, lemma_query_of_pairs_delims,
    q_get,
};
use crate::text::{ascii_bytes_of, ascii_chars_of, all_ascii, string_bytes, ascii_to_string};
use crate::urls::{parse_url, p_colon, p_host_end, p_path_end, p_hash, scheme_ok};

verus! {

/// The query parameters of an authorization URL carrying `state`.
pub open spec fn auth_pairs(cfg: ClientConfig, state: Seq<u8>) -> Seq<(Seq<u8>, Seq<u8>)> {
    seq![
        (k_client_id(), ascii_bytes_of(cfg.client_id@)),
        (k_redirect_uri(), ascii_bytes_of(cfg.redirect_uri@)),
        (k_response_type(), k_code()),
        (k_scope(), ascii_bytes_of(cfg.scope@)),
        (k_state(), state),
    ]
}

/// The authorization URL, as bytes: the configured endpoint, `?`,
/// and the encoded parameters.
pub open spec fn build_spec(cfg: ClientConfig, state: Seq<u8>) -> Seq<u8> {
    ascii_bytes_of(cfg.auth_url@) + seq![B_QMARK] + query_of_pairs(auth_pairs(cfg, state))
}

/// Compose the authorization URL for one attempt.
pub fn build_authorization_url(cfg: &ClientConfig, state: &[u8]) -> (r: Result<String, AuthError>)
    ensures
        config_wf(*cfg) ==> (r matches Ok(u) && u@ == ascii_chars_of(build_spec(*cfg, state@))),
        !config_wf(*cfg) ==> (r matches Err(AuthError::ConfigError)),
{
    if !cfg.is_wf() {
        return Err(AuthError::ConfigError);
    }
    let mut out = string_bytes(cfg.auth_url.as_str());
    out.push(B_QMARK);
    let mut pairs: Vec<(Vec<u8>, Vec<u8>)> = Vec::new();
    pairs.push((client_id_bytes(), string_bytes(cfg.client_id.as_str())));
    pairs.push((redirect_uri_bytes(), string_bytes(cfg.redirect_uri.as_str())));
    pairs.push((response_type_bytes(), code_bytes()));
    pairs.push((scope_bytes(), string_bytes(cfg.scope.as_str())));
    pairs.push((state_bytes(), subrange_vec(state, 0, state.len())));
    proof {
        assert(state@.subrange(0, state@.len() as int) =~= state@);
        assert(pairs_view(pairs@) =~= auth_pairs(*cfg, state@));
    }
    let mut q = build_query(&pairs);
    out.append(&mut q);
    proof {
        lemma_query_of_pairs_delims(auth_pairs(*cfg, state@));
        assert(out@ =~= build_spec(*cfg, state@));
        let ab = ascii_bytes_of(cfg.auth_url@);
        let qb = query_of_pairs(auth_pairs(*cfg, state@));
        assert forall|i: int| 0 <= i < out@.len() implies (#[trigger] out@[i]) < 128 by {
            if i < ab.len() {
                assert(out@[i] == ab[i]);
            } else if i == ab.len() {
                assert(out@[i] == B_QMARK);
            } else {
                assert(out@[i] == qb[i - ab.len() - 1]);
            }
        }
    }
    Ok(ascii_to_string(out))
}

/// Looking `state` up among the built parameters yields exactly the
/// state the URL was built around: a fresh attempt's URL carries its
/// own pending state and no other.
pub proof fn lemma_auth_pairs_state(cfg: ClientConfig, state: Seq<u8>)
    ensures
        q_get(auth_pairs(cfg, state), k_state()) == Some(state),
{
    let ps = auth_pairs(cfg, state);
    let k = k_state();
    assert(k_client_id() != k) by {
        assert(k_client_id()[1] != k[1]);
    }
    assert(k_redirect_uri() != k) by {
        assert(k_redirect_uri().len() != k.len());
    }
    assert(k_response_type() != k) by {
        assert(k_response_type().len() != k.len());
    }
    assert(k_scope() != k) by {
        assert(k_scope()[1] != k[1]);
    }
    let s1 = ps.skip(1);
    let s2 = s1.skip(1);
    let s3 = s2.skip(1);
    let s4 = s3.skip(1);
    assert(s4 =~= seq![(k, state)]);
    assert(q_get(s4, k) == Some(state));
    assert(s3[0] == ps[3] && s3.skip(1) =~= s4);
    assert(q_get(s3, k) == Some(state));
    assert(s2[0] == ps[2] && s2.skip(1) =~= s3);
    assert(q_get(s2, k) == Some(state));
    assert(s1[0] == ps[1] && s1.skip(1) =~= s2);
    assert(q_get(s1, k) == Some(state));
    assert(q_get(ps, k) == Some(state));
}

/// Round trip: the authorization URL built for a well-formed
/// configuration parses, keeps the endpoint's scheme, host and
/// path, and its query parameters are exactly the pairs that were
/// built in.
pub proof fn lemma_authorization_url_roundtrip(cfg: ClientConfig, state: Seq<u8>)
    requires
        config_wf(cfg),
    ensures
        parse_url(ascii_bytes_of(cfg.auth_url@)) matches Some(base) && parse_url(
            build_spec(cfg, state),
        ) matches Some(u) && u.scheme == base.scheme && u.host == base.host && u.path == base.path
            && u.query == auth_pairs(cfg, state),
{
    let a = ascii_bytes_of(cfg.auth_url@);
    let ps = auth_pairs(cfg, state);
    let q = query_of_pairs(ps);
    let s = build_spec(cfg, state);
    assert(s == a + seq![B_QMARK] + q);
    lemma_query_of_pairs_delims(ps);
    lemma_parse_query_roundtrip(ps);

    let ca = find(a, p_colon());
    lemma_find_props(a, p_colon());
    assert(parse_url(a) is Some);
    assert(!(ca == 0 || ca + 2 >= a.len() || a[ca + 1] != B_SLASH || a[ca + 2] != B_SLASH
        || !scheme_ok(a, ca)));

    // the colon of `s` is the colon of `a`
    assert forall|t: int| 0 <= t < ca implies !(p_colon()(s[t])) by {
        assert(s[t] == a[t]);
    }
    assert(s[ca] == a[ca]);
    lemma_find_unique(s, p_colon(), ca);
    assert(scheme_ok(s, ca)) by {
        assert forall|i: int| 0 <= i < ca implies crate::urls::is_scheme_char(#[trigger] s[i]) by {
            assert(s[i] == a[i]);
        }
    }
    assert(s[ca + 1] == a[ca + 1] && s[ca + 2] == a[ca + 2]);
    assert(s.take(ca) =~= a.take(ca));

    let rest_a = a.skip(ca + 3);
    let rest_s = s.skip(ca + 3);
    assert(rest_s =~= rest_a + seq![B_QMARK] + q);
    let ha = find(rest_a, p_host_end());
    lemma_find_props(rest_a, p_host_end());
    assert(ha != 0);

    assert forall|t: int| 0 <= t < ha implies !(p_host_end()(rest_s[t])) by {
        assert(rest_s[t] == rest_a[t]);
    }
    if ha < rest_a.len() {
        assert(rest_s[ha] == rest_a[ha]);
    } else {
        assert(rest_s[ha] == B_QMARK);
    }
    lemma_find_unique(rest_s, p_host_end(), ha);
    assert(rest_s.take(ha) =~= rest_a.take(ha));

    let after_a = rest_a.skip(ha);
    let after_s = rest_s.skip(ha);
    assert(after_s =~= after_a + seq![B_QMARK] + q);

    // bytes of `a` are never '?' or '#'
    assert forall|t: int| 0 <= t < after_a.len() implies !(p_path_end()(#[trigger] after_a[t]))
        && after_a[t] != B_QMARK by {
        assert(after_a[t] == a[ca + 3 + ha + t]);
    }

    if after_a.len() == 0 {
        assert(after_s.len() > 0 && after_s[0] == B_QMARK);
        let tail_s = after_s;
        let qtail = tail_s.skip(1);
        assert(qtail =~= q);
        assert forall|t: int| 0 <= t < q.len() implies !(p_hash()(#[trigger] q[t])) by {}
        lemma_find_unique(qtail, p_hash(), qtail.len() as int);
        assert(qtail.take(qtail.len() as int) =~= q);
        assert(parse_query(q) == ps);
        assert(parse_url(s) matches Some(u) && u.query == ps && u.path == seq![B_SLASH]);
    } else {
        assert(after_a[0] == rest_a[ha]);
        assert(p_host_end()(rest_a[ha]));
        assert(after_a[0] == B_SLASH);
        assert(after_s[0] == B_SLASH);
        let pe_a = find(after_a, p_path_end());
        lemma_find_unique(after_a, p_path_end(), after_a.len() as int);
        assert forall|t: int| 0 <= t < after_a.len() implies !(p_path_end()(
            #[trigger] after_s[t],
        )) by {
            assert(after_s[t] == after_a[t]);
        }
        assert(after_s[after_a.len() as int] == B_QMARK);
        lemma_find_unique(after_s, p_path_end(), after_a.len() as int);
        assert(after_s.take(after_a.len() as int) =~= after_a);
        assert(after_a.take(after_a.len() as int) =~= after_a);
        let tail_s = after_s.skip(after_a.len() as int);
        assert(tail_s =~= seq![B_QMARK] + q);
        assert(tail_s.len() > 0 && tail_s[0] == B_QMARK);
        let qtail = tail_s.skip(1);
        assert(qtail =~= q);
        assert forall|t: int| 0 <= t < q.len() implies !(p_hash()(#[trigger] q[t])) by {}
        lemma_find_unique(qtail, p_hash(), qtail.len() as int);
        assert(qtail.take(qtail.len() as int) =~= q);
        assert(parse_query(q) == ps);
        assert(parse_url(s) matches Some(u) && u.query == ps && u.path == after_a);
    }
}

} // verus!
