//! Content classification: is an upstream response an HLS playlist?
//!
//! A response is a playlist exactly when the target URL's path ends in
//! `.m3u8`, or its content type, lower-cased, contains one of the
//! known HLS MIME tokens.

use vstd::prelude::*;
use crate::bytestr;

verus! {

/// The path suffix `.m3u8`.
pub open spec fn m3u8_ext() -> Seq<u8> {
    seq![46u8, 109u8, 51u8, 117u8, 56u8]
}

/// The MIME token `mpegurl`.
pub open spec fn mpegurl_tok() -> Seq<u8> {
    seq![109u8, 112u8, 101u8, 103u8, 117u8, 114u8, 108u8]
}

/// The MIME token `application/vnd.apple.mpegurl`.
pub open spec fn vnd_apple_tok() -> Seq<u8> {
    seq![
        97u8, 112u8, 112u8, 108u8, 105u8, 99u8, 97u8, 116u8, 105u8, 111u8, 110u8, 47u8, 118u8,
        110u8, 100u8, 46u8, 97u8, 112u8, 112u8, 108u8, 101u8, 46u8, 109u8, 112u8, 101u8, 103u8,
        117u8, 114u8, 108u8,
    ]
}

/// The MIME token `application/x-mpegurl`.
pub open spec fn x_mpegurl_tok() -> Seq<u8> {
    seq![
        97u8, 112u8, 112u8, 108u8, 105u8, 99u8, 97u8, 116u8, 105u8, 111u8, 110u8, 47u8, 120u8,
        45u8, 109u8, 112u8, 101u8, 103u8, 117u8, 114u8, 108u8,
    ]
}

/// Classification of a response: playlist or opaque. Total and binary.
pub open spec fn is_playlist_spec(path: Seq<u8>, content_type: Seq<u8>) -> bool {
    ||| bytestr::ends_with(path, m3u8_ext())
    ||| bytestr::contains_sub(bytestr::lower_bytes(content_type), mpegurl_tok())
    ||| bytestr::contains_sub(bytestr::lower_bytes(content_type), vnd_apple_tok())
    ||| bytestr::contains_sub(bytestr::lower_bytes(content_type), x_mpegurl_tok())
}

/// An occurrence of `t` in `s` carries every occurrence of `u` in `t`
/// into `s`.
proof fn lemma_matches_trans(s: Seq<u8>, t: Seq<u8>, u: Seq<u8>, i: int, j: int)
    requires
        bytestr::matches_at(s, t, i),
        bytestr::matches_at(t, u, j),
    ensures
        bytestr::matches_at(s, u, i + j),
{
    assert forall|m: int| 0 <= m < u.len() implies s[i + j + m] == u[m] by {
        assert(t[j + m] == t.subrange(j, j + u.len() as int)[m]);
        assert(s[i + j + m] == s.subrange(i, i + t.len() as int)[j + m]);
    }
    assert(s.subrange(i + j, i + j + u.len() as int) =~= u);
}

/// Both long MIME tokens contain `mpegurl`, so the three-token
/// disjunction collapses to one substring test.
proof fn lemma_tokens_contain_mpegurl(s: Seq<u8>)
    ensures
        bytestr::contains_sub(s, vnd_apple_tok()) ==> bytestr::contains_sub(s, mpegurl_tok()),
        bytestr::contains_sub(s, x_mpegurl_tok()) ==> bytestr::contains_sub(s, mpegurl_tok()),
{
    assert(vnd_apple_tok().subrange(22, 29) =~= mpegurl_tok());
    assert(x_mpegurl_tok().subrange(14, 21) =~= mpegurl_tok());
    if bytestr::contains_sub(s, vnd_apple_tok()) {
        let i = choose|i: int| bytestr::matches_at(s, vnd_apple_tok(), i);
        lemma_matches_trans(s, vnd_apple_tok(), mpegurl_tok(), i, 22);
    }
    if bytestr::contains_sub(s, x_mpegurl_tok()) {
        let i = choose|i: int| bytestr::matches_at(s, x_mpegurl_tok(), i);
        lemma_matches_trans(s, x_mpegurl_tok(), mpegurl_tok(), i, 14);
    }
}

fn m3u8_ext_vec() -> (r: Vec<u8>)
    ensures
        r@ == m3u8_ext(),
{
    let mut v: Vec<u8> = Vec::new();
    v.push(46u8);
    v.push(109u8);
    v.push(51u8);
    v.push(117u8);
    v.push(56u8);
    assert(v@ =~= m3u8_ext());
    v
}

fn mpegurl_vec() -> (r: Vec<u8>)
    ensures
        r@ == mpegurl_tok(),
{
    let mut v: Vec<u8> = Vec::new();
    v.push(109u8);
    v.push(112u8);
    v.push(101u8);
    v.push(103u8);
    v.push(117u8);
    v.push(114u8);
    v.push(108u8);
    assert(v@ =~= mpegurl_tok());
    v
}

/// Decide whether a response is a playlist, from the target URL's path
/// and the response's content type.
pub fn classify_response(path: &[u8], content_type: &[u8]) -> (r: bool)
    ensures
        r == is_playlist_spec(path@, content_type@),
{
    let ext = m3u8_ext_vec();
    if bytestr::ends_with_exec(path, ext.as_slice()) {
        return true;
    }
    let lower = bytestr::lower_bytes_exec(content_type);
    let tok = mpegurl_vec();
    let found = bytestr::contains_sub_exec(lower.as_slice(), tok.as_slice());
    proof {
        lemma_tokens_contain_mpegurl(lower@);
    }
    found
}

/// A target URL whose path ends in `.m3u8` is always classified as a
/// playlist, whatever content type the response declares.
pub proof fn lemma_m3u8_suffix_is_playlist(path: Seq<u8>, content_type: Seq<u8>)
    requires
        bytestr::ends_with(path, m3u8_ext()),
    ensures
        is_playlist_spec(path, content_type),
{
}

} // verus!
