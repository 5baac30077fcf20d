use m3u8_relay::pipeline::{plan_request, ProxyRequest, RelayConfig};
use m3u8_relay::RelayError;

fn open_config() -> RelayConfig {
    RelayConfig { restrict_origins: false, allowed_origins: Vec::new() }
}

fn restricted_config() -> RelayConfig {
    RelayConfig {
        restrict_origins: true,
        allowed_origins: vec![
            b"http://localhost:5173".to_vec(),
            b"http://localhost:3000".to_vec(),
        ],
    }
}

fn plan(
    config: &RelayConfig,
    origin: Option<&str>,
    referer: Option<&str>,
    qs: &str,
    range: Option<&str>,
) -> Result<ProxyRequest, RelayError> {
    let o = origin.map(|s| s.as_bytes().to_vec());
    let r = referer.map(|s| s.as_bytes().to_vec());
    let rg = range.map(|s| s.as_bytes().to_vec());
    plan_request(config, o.as_ref(), r.as_ref(), qs.as_bytes(), rg.as_ref())
}

#[test]
fn disallowed_origin_is_denied_before_any_fetch_plan() {
    let r = plan(
        &restricted_config(),
        Some("http://evil.example"),
        None,
        "url=http%3A%2F%2Fexample.com%2Fa.m3u8",
        None,
    );
    assert_eq!(r.unwrap_err(), RelayError::OriginDenied);
    assert_eq!(RelayError::OriginDenied.status(), 403);
    assert_eq!(RelayError::OriginDenied.message(), "Access denied: Origin not allowed");
}

#[test]
fn allowed_origin_passes_and_is_echoed() {
    let r = plan(
        &restricted_config(),
        Some("http://localhost:3000"),
        None,
        "url=http%3A%2F%2Fexample.com%2Fa.m3u8",
        None,
    )
    .unwrap();
    assert_eq!(r.cors_origin, b"http://localhost:3000".to_vec());
    assert_eq!(r.target_url, b"http://example.com/a.m3u8".to_vec());
    assert_eq!(r.target_path, b"/a.m3u8".to_vec());
}

#[test]
fn referer_prefix_allows_when_origin_is_absent() {
    let r = plan(
        &restricted_config(),
        None,
        Some("http://localhost:5173/player/index.html"),
        "url=http%3A%2F%2Fexample.com%2Fa.m3u8",
        None,
    );
    assert!(r.is_ok());
    assert_eq!(r.unwrap().cors_origin, b"*".to_vec());
}

#[test]
fn no_headers_at_all_is_denied_when_restricted() {
    let r = plan(&restricted_config(), None, None, "url=http%3A%2F%2Fa.example%2F", None);
    assert_eq!(r.unwrap_err(), RelayError::OriginDenied);
}

#[test]
fn restriction_off_allows_everyone() {
    let r = plan(&open_config(), None, None, "url=http%3A%2F%2Fa.example%2Fx.m3u8", None);
    assert!(r.is_ok());
}

#[test]
fn missing_url_parameter_is_invalid_query() {
    let r = plan(&open_config(), None, None, "headers=%7B%7D", None);
    assert_eq!(r.unwrap_err(), RelayError::InvalidQuery);
    assert_eq!(RelayError::InvalidQuery.message(), "Invalid query parameters");
}

#[test]
fn repeated_url_parameter_is_invalid_query() {
    let r = plan(&open_config(), None, None, "url=http%3A%2F%2Fa.example&url=http%3A%2F%2Fb.example", None);
    assert_eq!(r.unwrap_err(), RelayError::InvalidQuery);
}

#[test]
fn unparsable_target_is_invalid_url() {
    let r = plan(&open_config(), None, None, "url=notaurl", None);
    assert_eq!(r.unwrap_err(), RelayError::InvalidUrl);
    assert_eq!(RelayError::InvalidUrl.message(), "Invalid URL format");
}

#[test]
fn bad_headers_json_is_rejected() {
    let r = plan(&open_config(), None, None, "url=http%3A%2F%2Fa.example&headers=notjson", None);
    assert_eq!(r.unwrap_err(), RelayError::InvalidHeadersJson);
    assert_eq!(RelayError::InvalidHeadersJson.message(), "Invalid headers JSON");
}

fn headers_json_of(n: usize) -> String {
    let mut s = String::from("{");
    let mut i = 0;
    while i < n {
        if i > 0 {
            s.push(',');
        }
        s.push_str(&format!("\"h{}\":\"v\"", i));
        i += 1;
    }
    s.push('}');
    s
}

#[test]
fn fifty_headers_are_accepted() {
    let qs = format!(
        "url=http%3A%2F%2Fa.example&headers={}",
        urlencoding::encode(&headers_json_of(50))
    );
    let r = plan(&open_config(), None, None, &qs, None);
    let p = r.unwrap();
    assert_eq!(p.forward_headers.len(), 50);
}

#[test]
fn fifty_one_headers_are_rejected() {
    let qs = format!(
        "url=http%3A%2F%2Fa.example&headers={}",
        urlencoding::encode(&headers_json_of(51))
    );
    let r = plan(&open_config(), None, None, &qs, None);
    assert_eq!(r.unwrap_err(), RelayError::TooManyHeaders);
    assert_eq!(RelayError::TooManyHeaders.message(), "Too many headers");
}

#[test]
fn invalid_header_name_is_rejected() {
    let qs = format!(
        "url=http%3A%2F%2Fa.example&headers={}",
        urlencoding::encode("{\"bad name\":\"v\"}")
    );
    let r = plan(&open_config(), None, None, &qs, None);
    assert_eq!(r.unwrap_err(), RelayError::InvalidHeaderFormat);
    assert_eq!(RelayError::InvalidHeaderFormat.message(), "Invalid header format");
}

#[test]
fn header_names_are_forwarded_lowercase() {
    let qs = format!(
        "url=http%3A%2F%2Fa.example&headers={}",
        urlencoding::encode("{\"Authorization\":\"Bearer x\"}")
    );
    let p = plan(&open_config(), None, None, &qs, None).unwrap();
    assert_eq!(p.forward_headers.len(), 1);
    assert_eq!(p.forward_headers[0].0, b"authorization".to_vec());
    assert_eq!(p.forward_headers[0].1, b"Bearer x".to_vec());
    assert_eq!(p.headers_raw, Some(b"{\"Authorization\":\"Bearer x\"}".to_vec()));
}

#[test]
fn invalid_origin_parameter_is_rejected() {
    let r = plan(&open_config(), None, None, "url=http%3A%2F%2Fa.example&origin=bad%0Avalue", None);
    assert_eq!(r.unwrap_err(), RelayError::InvalidOrigin);
    assert_eq!(RelayError::InvalidOrigin.message(), "Invalid Origin header");
}

#[test]
fn origin_parameter_overrides_headers_entry() {
    let qs = format!(
        "url=http%3A%2F%2Fa.example&headers={}&origin=http%3A%2F%2Fb.example",
        urlencoding::encode("{\"Origin\":\"http://a.example\"}")
    );
    let p = plan(&open_config(), None, None, &qs, None).unwrap();
    let found: Vec<&(Vec<u8>, Vec<u8>)> =
        p.forward_headers.iter().filter(|(n, _)| n == b"origin").collect();
    assert_eq!(found.len(), 1);
    assert_eq!(found[0].1, b"http://b.example".to_vec());
}

#[test]
fn inbound_range_is_forwarded() {
    let p = plan(
        &open_config(),
        None,
        None,
        "url=http%3A%2F%2Fa.example%2Fv.mp4",
        Some("bytes=0-1023"),
    )
    .unwrap();
    assert!(p.forward_headers.iter().any(|(n, v)| n == b"range" && v == b"bytes=0-1023"));
}
