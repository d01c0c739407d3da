use tesla_auth::encoding::{decode_component, encode_component};
use tesla_auth::query::{build_query, parse_query_bytes};

#[test]
fn encode_passes_unreserved_bytes() {
    let r = encode_component(b"AZaz09-_.~");
    assert_eq!(r, b"AZaz09-_.~".to_vec());
}

#[test]
fn encode_escapes_reserved_bytes() {
    let r = encode_component(b"a b/c?");
    assert_eq!(r, b"a%20b%2Fc%3F".to_vec());
}

#[test]
fn encode_escapes_high_bytes() {
    let r = encode_component(&[0x00, 0xFF]);
    assert_eq!(r, b"%00%FF".to_vec());
}

#[test]
fn decode_inverts_encode() {
    let plain: Vec<u8> = b"state=abc&x y/z~%".to_vec();
    let encoded = encode_component(&plain);
    assert_eq!(decode_component(&encoded), plain);
}

#[test]
fn decode_plus_is_space() {
    assert_eq!(decode_component(b"a+b"), b"a b".to_vec());
}

#[test]
fn decode_lowercase_hex() {
    assert_eq!(decode_component(b"%2fx%2Fy"), b"/x/y".to_vec());
}

#[test]
fn decode_malformed_escape_passes_through() {
    assert_eq!(decode_component(b"%G1%2"), b"%G1%2".to_vec());
}

#[test]
fn build_query_joins_encoded_pairs() {
    let pairs = vec![
        (b"a".to_vec(), b"1 2".to_vec()),
        (b"b".to_vec(), b"".to_vec()),
    ];
    assert_eq!(build_query(&pairs), b"a=1%202&b=".to_vec());
}

#[test]
fn parse_query_splits_and_decodes() {
    let pairs = parse_query_bytes(b"a=1%202&b=&c");
    assert_eq!(
        pairs,
        vec![
            (b"a".to_vec(), b"1 2".to_vec()),
            (b"b".to_vec(), b"".to_vec()),
            (b"c".to_vec(), b"".to_vec()),
        ]
    );
}

#[test]
fn parse_query_skips_empty_pieces() {
    let pairs = parse_query_bytes(b"a=1&&b=2&");
    assert_eq!(
        pairs,
        vec![(b"a".to_vec(), b"1".to_vec()), (b"b".to_vec(), b"2".to_vec())]
    );
}

#[test]
fn empty_query_builds_and_parses_empty() {
    let no_pairs: Vec<(Vec<u8>, Vec<u8>)> = Vec::new();
    assert_eq!(build_query(&no_pairs), Vec::<u8>::new());
    assert_eq!(parse_query_bytes(b""), no_pairs);
}

#[test]
fn encode_empty_is_empty() {
    assert_eq!(encode_component(b""), Vec::<u8>::new());
    assert_eq!(decode_component(b""), Vec::<u8>::new());
}

#[test]
fn query_round_trip_concrete() {
    let pairs = vec![
        (b"client_id".to_vec(), b"owner api".to_vec()),
        (b"redirect_uri".to_vec(), b"https://h/p".to_vec()),
    ];
    let q = build_query(&pairs);
    assert_eq!(parse_query_bytes(&q), pairs);
}
