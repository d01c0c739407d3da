use tesla_auth::urls::RedirectUrl;

#[test]
fn parse_full_url() {
    let u = RedirectUrl::parse(b"https://auth.tesla.com/void/callback?state=abc&code=xyz").unwrap();
    assert_eq!(u.scheme, b"https".to_vec());
    assert_eq!(u.host, b"auth.tesla.com".to_vec());
    assert_eq!(u.path, b"/void/callback".to_vec());
    assert_eq!(u.query_value(b"state"), Some(b"abc".to_vec()));
    assert_eq!(u.query_value(b"code"), Some(b"xyz".to_vec()));
    assert_eq!(u.query_value(b"missing"), None);
}

#[test]
fn parse_url_without_path_gets_root() {
    let u = RedirectUrl::parse(b"https://example.com").unwrap();
    assert_eq!(u.host, b"example.com".to_vec());
    assert_eq!(u.path, b"/".to_vec());
    assert!(u.query.is_empty());
}

#[test]
fn parse_url_query_without_path() {
    let u = RedirectUrl::parse(b"https://example.com?a=1").unwrap();
    assert_eq!(u.path, b"/".to_vec());
    assert_eq!(u.query_value(b"a"), Some(b"1".to_vec()));
}

#[test]
fn parse_url_drops_fragment() {
    let u = RedirectUrl::parse(b"https://example.com/p?a=1#frag").unwrap();
    assert_eq!(u.path, b"/p".to_vec());
    assert_eq!(u.query_value(b"a"), Some(b"1".to_vec()));
    assert_eq!(u.query_value(b"frag"), None);
}

#[test]
fn parse_url_decodes_query_values() {
    let u = RedirectUrl::parse(b"wry://index.html?access=a%20b&refresh=c+d").unwrap();
    assert_eq!(u.scheme, b"wry".to_vec());
    assert_eq!(u.query_value(b"access"), Some(b"a b".to_vec()));
    assert_eq!(u.query_value(b"refresh"), Some(b"c d".to_vec()));
}

#[test]
fn parse_rejects_non_urls() {
    assert!(RedirectUrl::parse(b"not a url").is_none());
    assert!(RedirectUrl::parse(b"://missing.scheme/").is_none());
    assert!(RedirectUrl::parse(b"https:///nohost").is_none());
    assert!(RedirectUrl::parse(b"ht tp://bad.scheme/").is_none());
    assert!(RedirectUrl::parse(b"").is_none());
}

#[test]
fn query_value_takes_first_occurrence() {
    let u = RedirectUrl::parse(b"https://h/p?k=1&k=2").unwrap();
    assert_eq!(u.query_value(b"k"), Some(b"1".to_vec()));
}
