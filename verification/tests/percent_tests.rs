use m3u8_relay::percent::{percent_decode_exec, percent_encode_exec};

#[test]
fn encoding_matches_the_url_encoder() {
    let samples: Vec<&[u8]> = vec![
        b"http://example.com/a.m3u8",
        b"hello world & more?=#",
        b"~-._AZaz09",
        b"",
        b"\x00\xff\x80 %",
    ];
    for s in samples {
        let mine = String::from_utf8(percent_encode_exec(s)).unwrap();
        let theirs = urlencoding::encode_binary(s);
        assert_eq!(mine, theirs.as_ref());
    }
}

#[test]
fn every_byte_round_trips() {
    let mut all: Vec<u8> = Vec::new();
    let mut b = 0u16;
    while b < 256 {
        all.push(b as u8);
        b += 1;
    }
    let enc = percent_encode_exec(&all);
    let dec = percent_decode_exec(&enc).unwrap();
    assert_eq!(dec, all);
}

#[test]
fn url_parameter_round_trips_through_rewriting() {
    let u = b"http://example.com/dir/seg one.ts?a=1&b=2";
    let enc = percent_encode_exec(u);
    assert!(!enc.contains(&b'&'));
    assert!(!enc.contains(&b'='));
    let dec = percent_decode_exec(&enc).unwrap();
    assert_eq!(dec, u.to_vec());
}

#[test]
fn malformed_escape_fails_to_decode() {
    assert!(percent_decode_exec(b"%GZ").is_none());
    assert!(percent_decode_exec(b"abc%1").is_none());
    assert!(percent_decode_exec(b"%").is_none());
}

#[test]
fn plain_text_decodes_to_itself() {
    assert_eq!(percent_decode_exec(b"abc.-_~").unwrap(), b"abc.-_~".to_vec());
}
