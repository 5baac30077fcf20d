use m3u8_relay::rewrite::rewrite_playlist;
use m3u8_relay::RelayError;

fn run(body: &str, base: &str, headers: Option<&str>) -> String {
    let h = headers.map(|s| s.as_bytes().to_vec());
    let out = rewrite_playlist(body.as_bytes(), base.as_bytes(), h.as_ref()).unwrap();
    String::from_utf8(out).unwrap()
}

#[test]
fn segment_line_is_rewritten() {
    let out = run("#EXTM3U\nseg1.ts\n", "http://example.com/a.m3u8", None);
    assert_eq!(out, "#EXTM3U\n/?url=http%3A%2F%2Fexample.com%2Fseg1.ts");
}

#[test]
fn headers_parameter_is_reembedded_verbatim() {
    let out = run(
        "#EXTM3U\nseg1.ts\n",
        "http://example.com/a.m3u8",
        Some("{\"Authorization\":\"Bearer x\"}"),
    );
    assert_eq!(
        out,
        "#EXTM3U\n/?url=http%3A%2F%2Fexample.com%2Fseg1.ts&headers={\"Authorization\":\"Bearer x\"}"
    );
}

#[test]
fn map_uri_line_is_rewritten() {
    let out = run(
        "#EXT-X-MAP:URI=\"init.mp4\"\n",
        "http://example.com/dir/a.m3u8",
        None,
    );
    assert_eq!(
        out,
        "#EXT-X-MAP:URI=\"/?url=http%3A%2F%2Fexample.com%2Fdir%2Finit.mp4\""
    );
}

#[test]
fn attribute_uri_is_rewritten_in_place() {
    let out = run(
        "#EXT-X-KEY:METHOD=AES-128,URI=\"key.bin\",IV=0x1\n",
        "http://example.com/a.m3u8",
        None,
    );
    assert_eq!(
        out,
        "#EXT-X-KEY:METHOD=AES-128,URI=\"/?url=http%3A%2F%2Fexample.com%2Fkey.bin\",IV=0x1"
    );
}

#[test]
fn attribute_key_is_case_insensitive_and_kept() {
    let out = run(
        "#X-CUSTOM:url=\"a.ts\"\n",
        "http://example.com/a.m3u8",
        None,
    );
    assert_eq!(out, "#X-CUSTOM:url=\"/?url=http%3A%2F%2Fexample.com%2Fa.ts\"");
}

#[test]
fn absolute_reference_stays_absolute() {
    let out = run("http://other.example/x.ts\n", "http://example.com/a.m3u8", None);
    assert_eq!(out, "/?url=http%3A%2F%2Fother.example%2Fx.ts");
}

#[test]
fn blank_and_plain_directive_lines_pass_through() {
    let out = run(
        "#EXTM3U\n\n#EXT-X-VERSION:3\n   \nseg.ts\n",
        "http://example.com/a.m3u8",
        None,
    );
    assert_eq!(
        out,
        "#EXTM3U\n\n#EXT-X-VERSION:3\n   \n/?url=http%3A%2F%2Fexample.com%2Fseg.ts"
    );
}

#[test]
fn unresolvable_reference_leaves_line_unchanged() {
    let out = run("seg.ts\n", "notaurl", None);
    assert_eq!(out, "seg.ts");
}

#[test]
fn crlf_line_endings_are_normalized() {
    let out = run("#EXTM3U\r\nseg.ts\r\n", "http://example.com/a.m3u8", None);
    assert_eq!(out, "#EXTM3U\n/?url=http%3A%2F%2Fexample.com%2Fseg.ts");
}

#[test]
fn body_at_size_cap_is_accepted() {
    let mut body = vec![b'a'; 10_000_000];
    body[0] = b'#';
    let r = rewrite_playlist(&body, b"http://example.com/a.m3u8", None);
    assert!(r.is_ok());
}

#[test]
fn body_over_size_cap_is_rejected() {
    let body = vec![b'a'; 10_000_001];
    let r = rewrite_playlist(&body, b"http://example.com/a.m3u8", None);
    assert_eq!(r.unwrap_err(), RelayError::PlaylistTooLarge);
    assert_eq!(RelayError::PlaylistTooLarge.status(), 400);
    assert_eq!(RelayError::PlaylistTooLarge.message(), "m3u8 file too large");
}

#[test]
fn lines_beyond_the_cap_are_dropped() {
    let mut body = String::new();
    let mut i = 0;
    while i < 200_002 {
        body.push_str("#c\n");
        i += 1;
    }
    let out = run(&body, "http://example.com/a.m3u8", None);
    let lines: Vec<&str> = out.split('\n').collect();
    assert_eq!(lines.len(), 200_000);
}
