//! The whole library-side flow of one request: plan, classify,
//! rewrite — everything but the network itself.

use m3u8_relay::classify::classify_response;
use m3u8_relay::pipeline::{plan_request, RelayConfig};
use m3u8_relay::rewrite::rewrite_playlist;

fn open_config() -> RelayConfig {
    RelayConfig { restrict_origins: false, allowed_origins: Vec::new() }
}

#[test]
fn playlist_request_rewrites_with_forwarded_headers() {
    let qs = format!(
        "url=http%3A%2F%2Fexample.com%2Fdir%2Fa.m3u8&headers={}",
        urlencoding::encode("{\"Authorization\":\"Bearer x\"}")
    );
    let plan = plan_request(&open_config(), None, None, qs.as_bytes(), None).unwrap();
    assert_eq!(plan.target_url, b"http://example.com/dir/a.m3u8".to_vec());
    assert!(classify_response(&plan.target_path, b"application/octet-stream"));

    let body = b"#EXTM3U\n#EXT-X-MAP:URI=\"init.mp4\"\nseg1.ts\n";
    let out = rewrite_playlist(body, &plan.target_url, plan.headers_raw.as_ref()).unwrap();
    let text = String::from_utf8(out).unwrap();
    let lines: Vec<&str> = text.split('\n').collect();
    assert_eq!(lines.len(), 3);
    assert_eq!(lines[0], "#EXTM3U");
    assert_eq!(
        lines[1],
        "#EXT-X-MAP:URI=\"/?url=http%3A%2F%2Fexample.com%2Fdir%2Finit.mp4&headers={\"Authorization\":\"Bearer x\"}\""
    );
    assert_eq!(
        lines[2],
        "/?url=http%3A%2F%2Fexample.com%2Fdir%2Fseg1.ts&headers={\"Authorization\":\"Bearer x\"}"
    );
}

#[test]
fn opaque_request_is_not_rewritten() {
    let plan = plan_request(
        &open_config(),
        None,
        None,
        b"url=http%3A%2F%2Fexample.com%2Fseg1.ts",
        None,
    )
    .unwrap();
    assert!(!classify_response(&plan.target_path, b"video/mp2t"));
}

#[test]
fn rewritten_url_parameter_decodes_back_to_the_resolved_url() {
    let plan = plan_request(
        &open_config(),
        None,
        None,
        b"url=http%3A%2F%2Fexample.com%2Fa.m3u8",
        None,
    )
    .unwrap();
    let out = rewrite_playlist(b"seg one.ts\n", &plan.target_url, None).unwrap();
    let text = String::from_utf8(out).unwrap();
    let encoded = text.strip_prefix("/?url=").unwrap();
    let decoded = urlencoding::decode(encoded).unwrap();
    assert_eq!(decoded, "http://example.com/seg%20one.ts");
}
