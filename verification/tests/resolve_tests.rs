use m3u8_relay::urlres::resolve_reference;

#[test]
fn relative_reference_equals_standard_join() {
    let base = "http://example.com/dir/a.m3u8";
    let cases = vec!["seg1.ts", "../up.ts", "/rooted.ts", "sub/dir/x.ts", "x.ts?q=1"];
    for r in cases {
        let mine = resolve_reference(r.as_bytes(), base.as_bytes()).unwrap();
        let theirs = url::Url::parse(base).unwrap().join(r).unwrap();
        assert_eq!(String::from_utf8(mine).unwrap(), theirs.as_str());
    }
}

#[test]
fn absolute_reference_resolves_to_itself() {
    let base = "http://example.com/dir/a.m3u8";
    let mine = resolve_reference(b"https://cdn.example/x.ts", base.as_bytes()).unwrap();
    let theirs = url::Url::parse("https://cdn.example/x.ts").unwrap();
    assert_eq!(String::from_utf8(mine).unwrap(), theirs.as_str());
}

#[test]
fn unresolvable_reference_is_none() {
    assert!(resolve_reference(b"seg.ts", b"not a url").is_none());
}
