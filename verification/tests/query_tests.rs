use m3u8_relay::query::parse_query;
use m3u8_relay::RelayError;

#[test]
fn parameters_are_form_decoded() {
    let q = parse_query(b"url=http%3A%2F%2Fexample.com%2Fa+b.m3u8&headers=%7B%7D").unwrap();
    assert_eq!(q.url, b"http://example.com/a b.m3u8".to_vec());
    assert_eq!(q.headers, Some(b"{}".to_vec()));
    assert_eq!(q.origin, None);
}

#[test]
fn unknown_parameters_are_ignored() {
    let q = parse_query(b"other=1&url=http%3A%2F%2Fa.example&other=2").unwrap();
    assert_eq!(q.url, b"http://a.example".to_vec());
}

#[test]
fn origin_parameter_is_kept_verbatim() {
    let q = parse_query(b"url=x&origin=http%3A%2F%2Fb.example").unwrap();
    assert_eq!(q.origin, Some(b"http://b.example".to_vec()));
}

#[test]
fn missing_url_is_an_error() {
    assert_eq!(parse_query(b"").unwrap_err(), RelayError::InvalidQuery);
    assert_eq!(parse_query(b"headers=%7B%7D").unwrap_err(), RelayError::InvalidQuery);
}

#[test]
fn repeated_parameters_are_an_error() {
    assert_eq!(parse_query(b"url=a&url=b").unwrap_err(), RelayError::InvalidQuery);
    assert_eq!(
        parse_query(b"url=a&headers=x&headers=y").unwrap_err(),
        RelayError::InvalidQuery
    );
    assert_eq!(
        parse_query(b"url=a&origin=x&origin=y").unwrap_err(),
        RelayError::InvalidQuery
    );
}

#[test]
fn stray_escapes_pass_through() {
    let q = parse_query(b"url=a%GZb").unwrap();
    assert_eq!(q.url, b"a%GZb".to_vec());
}
