use m3u8_relay::classify::classify_response;

#[test]
fn m3u8_path_is_always_a_playlist() {
    assert!(classify_response(b"/dir/a.m3u8", b"video/mp2t"));
    assert!(classify_response(b"/dir/a.m3u8", b""));
    assert!(classify_response(b"/dir/a.m3u8", b"application/octet-stream"));
}

#[test]
fn mime_token_makes_a_playlist() {
    assert!(classify_response(b"/x", b"application/vnd.apple.mpegurl"));
    assert!(classify_response(b"/x", b"application/x-mpegurl"));
    assert!(classify_response(b"/x", b"audio/mpegurl"));
}

#[test]
fn content_type_case_is_ignored() {
    assert!(classify_response(b"/x", b"Application/VND.Apple.MPEGURL"));
}

#[test]
fn other_resources_are_opaque() {
    assert!(!classify_response(b"/seg1.ts", b"video/mp2t"));
    assert!(!classify_response(b"/x.mp4", b"video/mp4"));
    assert!(!classify_response(b"/x", b""));
}
