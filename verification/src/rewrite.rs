//! The playlist line rewriter.
//!
//! A playlist body is split into lines; each line is classified as
//! blank, a directive with an embedded URI, a plain directive, or a
//! bare segment reference, and every embedded or bare reference is
//! resolved against the playlist's own URL and re-encoded as a
//! proxy-relative link `/?url=<percent-encoded>[&headers=<verbatim>]`.

use vstd::prelude::*;
use crate::bytestr;
use crate::percent;
use crate::urlres;

verus! {

/// The literal tag `#EXT-X-MAP:URI="`.
pub open spec fn map_prefix() -> Seq<u8> {
    seq![
        35u8, 69u8, 88u8, 84u8, 45u8, 88u8, 45u8, 77u8, 65u8, 80u8, 58u8, 85u8, 82u8, 73u8, 61u8,
        34u8,
    ]
}

/// The literal prefix `/?url=` of a rewritten reference.
pub open spec fn url_param_prefix() -> Seq<u8> {
    seq![47u8, 63u8, 117u8, 114u8, 108u8, 61u8]
}

/// The literal separator `&headers=` of a rewritten reference.
pub open spec fn headers_sep() -> Seq<u8> {
    seq![38u8, 104u8, 101u8, 97u8, 100u8, 101u8, 114u8, 115u8, 61u8]
}

fn map_prefix_vec() -> (r: Vec<u8>)
    ensures
        r@ == map_prefix(),
{
    let mut v: Vec<u8> = Vec::new();
    v.push(35u8);
    v.push(69u8);
    v.push(88u8);
    v.push(84u8);
    v.push(45u8);
    v.push(88u8);
    v.push(45u8);
    v.push(77u8);
    v.push(65u8);
    v.push(80u8);
    v.push(58u8);
    v.push(85u8);
    v.push(82u8);
    v.push(73u8);
    v.push(61u8);
    v.push(34u8);
    assert(v@ =~= map_prefix());
    v
}

fn url_param_prefix_vec() -> (r: Vec<u8>)
    ensures
        r@ == url_param_prefix(),
{
    let mut v: Vec<u8> = Vec::new();
    v.push(47u8);
    v.push(63u8);
    v.push(117u8);
    v.push(114u8);
    v.push(108u8);
    v.push(61u8);
    assert(v@ =~= url_param_prefix());
    v
}

fn headers_sep_vec() -> (r: Vec<u8>)
    ensures
        r@ == headers_sep(),
{
    let mut v: Vec<u8> = Vec::new();
    v.push(38u8);
    v.push(104u8);
    v.push(101u8);
    v.push(97u8);
    v.push(100u8);
    v.push(101u8);
    v.push(114u8);
    v.push(115u8);
    v.push(61u8);
    assert(v@ =~= headers_sep());
    v
}

/// ASCII whitespace, as stripped when deciding whether a line is blank.
pub open spec fn is_ascii_ws(b: u8) -> bool {
    b == 32 || (9 <= b && b <= 13)
}

/// A line of nothing but ASCII whitespace (or nothing at all).
pub open spec fn is_blank(line: Seq<u8>) -> bool {
    forall|i: int| 0 <= i < line.len() ==> is_ascii_ws(#[trigger] line[i])
}

fn is_blank_exec(line: &[u8]) -> (r: bool)
    ensures
        r == is_blank(line@),
{
    let mut i: usize = 0;
    while i < line.len()
        invariant
            i <= line.len(),
            forall|j: int| 0 <= j < i ==> is_ascii_ws(#[trigger] line@[j]),
        decreases line.len() - i,
    {
        let b = line[i];
        if !(b == 32 || (9 <= b && b <= 13)) {
            return false;
        }
        i += 1;
    }
    true
}

/// A directive or blank line: starts with `#`, or holds only whitespace.
pub open spec fn is_comment_or_blank(line: Seq<u8>) -> bool {
    (line.len() > 0 && line[0] == 35u8) || is_blank(line)
}

/// Repeatedly strip a (non-empty) leading pattern, as the tag prefix
/// is stripped from a `#EXT-X-MAP` line.
pub open spec fn trim_prefix_rep(s: Seq<u8>, p: Seq<u8>) -> Seq<u8>
    decreases s.len(),
{
    if p.len() > 0 && bytestr::starts_with(s, p) {
        trim_prefix_rep(s.skip(p.len() as int), p)
    } else {
        s
    }
}

/// Strip every trailing `"` quote.
pub open spec fn trim_quotes_end(s: Seq<u8>) -> Seq<u8>
    decreases s.len(),
{
    if s.len() > 0 && s.last() == 34u8 {
        trim_quotes_end(s.drop_last())
    } else {
        s
    }
}

/// The three-byte attribute key `URI` or `URL`, in any letter case.
pub open spec fn is_uri_key(k: Seq<u8>) -> bool {
    bytestr::lower_bytes(k) == seq![117u8, 114u8, 105u8] || bytestr::lower_bytes(k) == seq![
        117u8, 114u8, 108u8,
    ]
}

/// An attribute `URI="<value>"` or `URL="<value>"` with a non-empty
/// quoted value occurs in `line` at index `i`.
pub open spec fn uri_match_at(line: Seq<u8>, i: int) -> bool {
    &&& 0 <= i
    &&& i + 5 <= line.len()
    &&& is_uri_key(line.subrange(i, i + 3))
    &&& line[i + 3] == 61u8
    &&& line[i + 4] == 34u8
    &&& match bytestr::find_byte(line.skip(i + 5), 34u8) {
        Some(d) => d >= 1,
        None => false,
    }
}

/// Index of the leftmost URI/URL attribute match at or after `i`.
pub open spec fn first_uri_match_from(line: Seq<u8>, i: int) -> Option<int>
    decreases line.len() - i,
{
    if i < 0 || i >= line.len() {
        None
    } else if uri_match_at(line, i) {
        Some(i)
    } else {
        first_uri_match_from(line, i + 1)
    }
}

/// The proxy-relative link for a resolved absolute URL: the URL
/// percent-encoded as the `url` parameter, and the original `headers`
/// query value, when one was given, re-embedded verbatim.
pub open spec fn proxy_ref(u: Seq<u8>, h: Option<Seq<u8>>) -> Seq<u8> {
    match h {
        None => url_param_prefix() + percent::percent_encode(u),
        Some(hs) => url_param_prefix() + percent::percent_encode(u) + headers_sep() + hs,
    }
}

/// View of an optional borrowed byte string.
pub open spec fn opt_bytes(h: Option<&Vec<u8>>) -> Option<Seq<u8>> {
    match h {
        None => None,
        Some(v) => Some(v@),
    }
}

/// Build the proxy-relative link for a resolved absolute URL.
pub fn make_proxy_ref(u: &[u8], h: Option<&Vec<u8>>) -> (r: Vec<u8>)
    ensures
        r@ == proxy_ref(u@, opt_bytes(h)),
{
    let mut out = url_param_prefix_vec();
    let enc = percent::percent_encode_exec(u);
    bytestr::push_all(&mut out, enc.as_slice());
    match h {
        None => {},
        Some(hs) => {
            let sep = headers_sep_vec();
            bytestr::push_all(&mut out, sep.as_slice());
            bytestr::push_all(&mut out, hs.as_slice());
        },
    }
    out
}

/// How one playlist line is rewritten.
///
/// A blank line or a directive without an embedded reference passes
/// through unchanged. A `#EXT-X-MAP:URI="..."` line has the quoted
/// value resolved and the tag re-emitted around the rewritten link.
/// Any other directive line has its first `URI="..."`/`URL="..."`
/// attribute value resolved and substituted in place. A bare line is a
/// segment reference and is replaced wholesale. A reference that
/// resolves on neither path leaves the line unchanged.
pub open spec fn rewrite_line_spec(line: Seq<u8>, base: Seq<u8>, h: Option<Seq<u8>>) -> Seq<u8> {
    if is_comment_or_blank(line) {
        if bytestr::starts_with(line, map_prefix()) {
            let inner = trim_quotes_end(trim_prefix_rep(line, map_prefix()));
            match urlres::resolve_spec(inner, base) {
                None => line,
                Some(u) => map_prefix() + proxy_ref(u, h) + seq![34u8],
            }
        } else {
            match first_uri_match_from(line, 0) {
                None => line,
                Some(i) => {
                    let d = bytestr::find_byte(line.skip(i + 5), 34u8)->0;
                    let k = i + 5 + d;
                    match urlres::resolve_spec(line.subrange(i + 5, k), base) {
                        None => line,
                        Some(u) => line.take(i) + line.subrange(i, i + 3) + seq![61u8, 34u8]
                            + proxy_ref(u, h) + seq![34u8] + line.skip(k + 1),
                    }
                },
            }
        }
    } else {
        match urlres::resolve_spec(line, base) {
            None => line,
            Some(u) => proxy_ref(u, h),
        }
    }
}

/// Find the leftmost URI/URL attribute: the match index and the index
/// of the closing quote of its value.
fn find_first_uri_match(line: &[u8]) -> (r: Option<(usize, usize)>)
    ensures
        match r {
            None => first_uri_match_from(line@, 0) is None,
            Some((i, k)) => {
                &&& first_uri_match_from(line@, 0) == Some(i as int)
                &&& i + 5 < k < line@.len()
                &&& k == i + 5 + bytestr::find_byte(line@.skip(i as int + 5), 34u8)->0
            },
        },
{
    let mut i: usize = 0;
    while i < line.len()
        invariant
            i <= line.len(),
            first_uri_match_from(line@, 0) == first_uri_match_from(line@, i as int),
        decreases line.len() - i,
    {
        if line.len() - i >= 5 {
            let k0 = lower_byte_exec(line[i]);
            let k1 = lower_byte_exec(line[i + 1]);
            let k2 = lower_byte_exec(line[i + 2]);
            let key_ok = k0 == 117u8 && k1 == 114u8 && (k2 == 105u8 || k2 == 108u8);
            proof {
                let key = line@.subrange(i as int, i as int + 3);
                assert(bytestr::lower_bytes(key).len() == 3);
                assert(bytestr::lower_bytes(key)[0] == bytestr::lower_byte(line@[i as int]));
                assert(bytestr::lower_bytes(key)[1] == bytestr::lower_byte(line@[i as int + 1]));
                assert(bytestr::lower_bytes(key)[2] == bytestr::lower_byte(line@[i as int + 2]));
                if key_ok {
                    if bytestr::lower_byte(line@[i as int + 2]) == 105u8 {
                        assert(bytestr::lower_bytes(key) =~= seq![117u8, 114u8, 105u8]);
                    } else {
                        assert(bytestr::lower_bytes(key) =~= seq![117u8, 114u8, 108u8]);
                    }
                } else {
                    assert(bytestr::lower_bytes(key) != seq![117u8, 114u8, 105u8] && bytestr::lower_bytes(
                        key,
                    ) != seq![117u8, 114u8, 108u8]) by {
                        if bytestr::lower_bytes(key) == seq![117u8, 114u8, 105u8] || bytestr::lower_bytes(
                            key,
                        ) == seq![117u8, 114u8, 108u8] {
                            assert(bytestr::lower_byte(line@[i as int]) == 117u8);
                        }
                    }
                }
            }
            if key_ok && line[i + 3] == 61u8 && line[i + 4] == 34u8 {
                match bytestr::find_byte_from(line, 34u8, i + 5) {
                    Some(k) => {
                        if k > i + 5 {
                            assert(uri_match_at(line@, i as int));
                            return Some((i, k));
                        } else {
                            assert(!uri_match_at(line@, i as int));
                        }
                    },
                    None => {
                        assert(!uri_match_at(line@, i as int));
                    },
                }
            } else {
                assert(!uri_match_at(line@, i as int));
            }
        } else {
            assert(!uri_match_at(line@, i as int));
        }
        i += 1;
    }
    None
}

fn lower_byte_exec(b: u8) -> (r: u8)
    ensures
        r == bytestr::lower_byte(b),
{
    if 65 <= b && b <= 90 {
        b + 32
    } else {
        b
    }
}

/// Rewrite a single playlist line against the playlist's base URL.
pub fn rewrite_line(line: &[u8], base: &[u8], h: Option<&Vec<u8>>) -> (r: Vec<u8>)
    ensures
        r@ == rewrite_line_spec(line@, base@, opt_bytes(h)),
{
    let comment = line.len() > 0 && line[0] == 35u8;
    let blank = is_blank_exec(line);
    if comment || blank {
        let mp = map_prefix_vec();
        if bytestr::starts_with_exec(line, mp.as_slice()) {
            // Strip the (repeated) tag prefix, then every trailing quote.
            let mut off: usize = 0;
            proof {
                assert(line@.skip(0) =~= line@);
            }
            while line.len() - off >= mp.len() && bytestr::matches_at_exec(line, mp.as_slice(), off)
                invariant
                    off <= line.len(),
                    mp@ == map_prefix(),
                    trim_prefix_rep(line@, map_prefix()) == trim_prefix_rep(
                        line@.skip(off as int),
                        map_prefix(),
                    ),
                decreases line.len() - off,
            {
                proof {
                    assert(line@.skip(off as int).subrange(0, mp@.len() as int) =~= line@.subrange(
                        off as int,
                        off as int + mp@.len() as int,
                    ));
                    assert(bytestr::starts_with(line@.skip(off as int), map_prefix()));
                    assert(line@.skip(off as int).skip(mp@.len() as int) =~= line@.skip(
                        off as int + mp@.len() as int,
                    ));
                }
                off += mp.len();
            }
            proof {
                if bytestr::starts_with(line@.skip(off as int), map_prefix()) {
                    assert(line@.skip(off as int).subrange(0, mp@.len() as int) =~= line@.subrange(
                        off as int,
                        off as int + mp@.len() as int,
                    ));
                }
                assert(trim_prefix_rep(line@, map_prefix()) == line@.skip(off as int));
            }
            let mut end: usize = line.len();
            proof {
                assert(line@.subrange(off as int, line@.len() as int) =~= line@.skip(off as int));
            }
            while end > off && line[end - 1] == 34u8
                invariant
                    off <= end <= line.len(),
                    trim_quotes_end(line@.skip(off as int)) == trim_quotes_end(
                        line@.subrange(off as int, end as int),
                    ),
                decreases end,
            {
                proof {
                    assert(line@.subrange(off as int, end as int).drop_last() =~= line@.subrange(
                        off as int,
                        end as int - 1,
                    ));
                }
                end -= 1;
            }
            proof {
                assert(trim_quotes_end(line@.skip(off as int)) == line@.subrange(
                    off as int,
                    end as int,
                ));
            }
            let inner = bytestr::subrange_vec(line, off, end);
            match urlres::resolve_reference(inner.as_slice(), base) {
                None => bytestr::subrange_vec(line, 0, line.len()),
                Some(u) => {
                    let mut out = map_prefix_vec();
                    let link = make_proxy_ref(u.as_slice(), h);
                    bytestr::push_all(&mut out, link.as_slice());
                    out.push(34u8);
                    proof {
                        assert(out@ =~= map_prefix() + proxy_ref(u@, opt_bytes(h)) + seq![34u8]);
                        assert(line@.subrange(0, line@.len() as int) =~= line@);
                    }
                    out
                },
            }
        } else {
            match find_first_uri_match(line) {
                None => {
                    proof {
                        assert(line@.subrange(0, line@.len() as int) =~= line@);
                    }
                    bytestr::subrange_vec(line, 0, line.len())
                },
                Some((i, k)) => {
                    let value = bytestr::subrange_vec(line, i + 5, k);
                    match urlres::resolve_reference(value.as_slice(), base) {
                        None => {
                            proof {
                                assert(line@.subrange(0, line@.len() as int) =~= line@);
                            }
                            bytestr::subrange_vec(line, 0, line.len())
                        },
                        Some(u) => {
                            let mut out = bytestr::subrange_vec(line, 0, i);
                            let key = bytestr::subrange_vec(line, i, i + 3);
                            bytestr::push_all(&mut out, key.as_slice());
                            out.push(61u8);
                            out.push(34u8);
                            let link = make_proxy_ref(u.as_slice(), h);
                            bytestr::push_all(&mut out, link.as_slice());
                            out.push(34u8);
                            let tail = bytestr::subrange_vec(line, k + 1, line.len());
                            bytestr::push_all(&mut out, tail.as_slice());
                            proof {
                                assert(line@.take(i as int) =~= line@.subrange(0, i as int));
                                assert(line@.skip(k as int + 1) =~= line@.subrange(
                                    k as int + 1,
                                    line@.len() as int,
                                ));
                                assert(out@ =~= line@.take(i as int) + line@.subrange(
                                    i as int,
                                    i as int + 3,
                                ) + seq![61u8, 34u8] + proxy_ref(u@, opt_bytes(h)) + seq![34u8]
                                    + line@.skip(k as int + 1));
                            }
                            out
                        },
                    }
                },
            }
        }
    } else {
        match urlres::resolve_reference(line, base) {
            None => {
                proof {
                    assert(line@.subrange(0, line@.len() as int) =~= line@);
                }
                bytestr::subrange_vec(line, 0, line.len())
            },
            Some(u) => make_proxy_ref(u.as_slice(), h),
        }
    }
}

/// Strip one trailing carriage return, as a `\r\n` ending is treated
/// as a plain line ending.
pub open spec fn strip_cr(t: Seq<u8>) -> Seq<u8> {
    if t.len() > 0 && t.last() == 13u8 {
        t.drop_last()
    } else {
        t
    }
}

/// The lines of a playlist body: split at `\n`, a preceding `\r`
/// dropped, a final line ending producing no extra empty line, and an
/// empty body producing no lines.
pub open spec fn split_lines(s: Seq<u8>) -> Seq<Seq<u8>>
    decreases s.len(),
    via split_lines_decreases
{
    if s.len() == 0 {
        Seq::empty()
    } else {
        match bytestr::find_byte(s, 10u8) {
            None => seq![s],
            Some(i) => seq![strip_cr(s.take(i))] + split_lines(s.skip(i + 1)),
        }
    }
}

#[via_fn]
proof fn split_lines_decreases(s: Seq<u8>) {
    if s.len() > 0 {
        bytestr::lemma_find_byte(s, 10u8);
    }
}

/// Lines rejoined with a single `\n` between them.
pub open spec fn join_lines(ls: Seq<Seq<u8>>) -> Seq<u8>
    decreases ls.len(),
{
    if ls.len() == 0 {
        Seq::empty()
    } else if ls.len() == 1 {
        ls[0]
    } else {
        join_lines(ls.drop_last()) + seq![10u8] + ls.last()
    }
}

/// The number of lines processed: all of them, up to the line cap.
pub open spec fn capped_line_count(s: Seq<u8>) -> int {
    if split_lines(s).len() <= crate::MAX_LINES {
        split_lines(s).len() as int
    } else {
        crate::MAX_LINES as int
    }
}

/// The whole rewritten body: the first `MAX_LINES` lines, each
/// rewritten independently, rejoined with `\n`.
pub open spec fn rewrite_playlist_spec(body: Seq<u8>, base: Seq<u8>, h: Option<Seq<u8>>) -> Seq<
    u8,
> {
    join_lines(
        split_lines(body).take(capped_line_count(body)).map_values(
            |l: Seq<u8>| rewrite_line_spec(l, base, h),
        ),
    )
}

/// Split a body into at most `cap` lines.
fn split_lines_exec(s: &[u8], cap: usize) -> (r: Vec<Vec<u8>>)
    ensures
        r@.len() == if split_lines(s@).len() <= cap {
            split_lines(s@).len() as int
        } else {
            cap as int
        },
        forall|j: int| 0 <= j < r@.len() ==> r@[j]@ == split_lines(s@)[j],
{
    let mut out: Vec<Vec<u8>> = Vec::new();
    let mut pos: usize = 0;
    proof {
        assert(s@.skip(0) =~= s@);
        assert(Seq::<Seq<u8>>::empty() + split_lines(s@) =~= split_lines(s@));
    }
    while pos < s.len() && out.len() < cap
        invariant
            pos <= s.len(),
            out@.len() <= cap,
            split_lines(s@) == Seq::new(out@.len() as nat, |j: int| out@[j]@) + split_lines(
                s@.skip(pos as int),
            ),
            pos == s.len() ==> split_lines(s@.skip(pos as int)).len() == 0,
        decreases s.len() - pos,
    {
        let ghost tail = s@.skip(pos as int);
        let ghost pre = Seq::new(out@.len() as nat, |j: int| out@[j]@);
        let line_end = bytestr::find_byte_from(s, 10u8, pos);
        match line_end {
            Some(k) => {
                proof {
                    assert(tail.len() > 0);
                    assert(tail.take(k - pos as int) =~= s@.subrange(pos as int, k as int));
                    assert(tail.skip(k - pos as int + 1) =~= s@.skip(k as int + 1));
                }
                let mut line: Vec<u8>;
                if k > pos && s[k - 1] == 13u8 {
                    line = bytestr::subrange_vec(s, pos, k - 1);
                    proof {
                        assert(s@.subrange(pos as int, k as int).drop_last() =~= s@.subrange(
                            pos as int,
                            k as int - 1,
                        ));
                        assert(line@ == strip_cr(s@.subrange(pos as int, k as int)));
                    }
                } else {
                    line = bytestr::subrange_vec(s, pos, k);
                    proof {
                        assert(line@ == strip_cr(s@.subrange(pos as int, k as int)));
                    }
                }
                out.push(line);
                proof {
                    assert(split_lines(tail) == seq![strip_cr(tail.take(k - pos as int))]
                        + split_lines(tail.skip(k - pos as int + 1)));
                    assert(Seq::new(out@.len() as nat, |j: int| out@[j]@) =~= pre + seq![
                        strip_cr(s@.subrange(pos as int, k as int)),
                    ]);
                    assert(pre + split_lines(tail) =~= (pre + seq![
                        strip_cr(s@.subrange(pos as int, k as int)),
                    ]) + split_lines(s@.skip(k as int + 1)));
                }
                pos = k + 1;
                proof {
                    if pos == s.len() {
                        assert(s@.skip(pos as int) =~= Seq::<u8>::empty());
                    }
                }
            },
            None => {
                let line = bytestr::subrange_vec(s, pos, s.len());
                proof {
                    assert(line@ =~= tail);
                    assert(split_lines(tail) =~= seq![tail]);
                }
                out.push(line);
                proof {
                    assert(Seq::new(out@.len() as nat, |j: int| out@[j]@) =~= pre + seq![tail]);
                    assert(pre + split_lines(tail) =~= (pre + seq![tail]) + split_lines(
                        s@.skip(s@.len() as int),
                    ));
                    assert(s@.skip(s@.len() as int) =~= Seq::<u8>::empty());
                }
                pos = s.len();
            },
        }
    }
    proof {
        let pre = Seq::new(out@.len() as nat, |j: int| out@[j]@);
        if pos == s.len() {
            assert(s@.skip(pos as int) =~= Seq::<u8>::empty());
            assert(split_lines(s@) =~= pre);
        }
        assert(forall|j: int| 0 <= j < out@.len() ==> pre[j] == out@[j]@);
    }
    out
}

/// Rejoin lines with a single `\n` between them.
fn join_lines_exec(lines: &Vec<Vec<u8>>) -> (r: Vec<u8>)
    ensures
        r@ == join_lines(Seq::new(lines@.len() as nat, |j: int| lines@[j]@)),
{
    let ghost dv = Seq::new(lines@.len() as nat, |j: int| lines@[j]@);
    let mut out: Vec<u8> = Vec::new();
    let mut i: usize = 0;
    while i < lines.len()
        invariant
            i <= lines.len(),
            dv == Seq::new(lines@.len() as nat, |j: int| lines@[j]@),
            out@ == join_lines(dv.take(i as int)),
        decreases lines.len() - i,
    {
        let ghost old_out = out@;
        if i > 0 {
            out.push(10u8);
        }
        let line = &lines[i];
        bytestr::push_all(&mut out, line.as_slice());
        proof {
            let t = dv.take(i as int + 1);
            assert(t.drop_last() =~= dv.take(i as int));
            assert(t.last() == dv[i as int]);
            if i == 0 {
                assert(out@ =~= join_lines(t));
            } else {
                assert(out@ =~= join_lines(dv.take(i as int)) + seq![10u8] + dv[i as int]);
                assert(join_lines(t) == join_lines(t.drop_last()) + seq![10u8] + t.last());
            }
        }
        i += 1;
    }
    proof {
        assert(dv.take(dv.len() as int) =~= dv);
    }
    out
}

/// Rewrite a whole playlist body against its own URL.
///
/// A body over the size cap is rejected; otherwise the first
/// `MAX_LINES` lines are each rewritten and rejoined, preserving line
/// order.
pub fn rewrite_playlist(body: &[u8], base: &[u8], h: Option<&Vec<u8>>) -> (r: Result<
    Vec<u8>,
    crate::RelayError,
>)
    ensures
        body@.len() <= crate::MAX_BODY_BYTES <==> r is Ok,
        r matches Ok(v) ==> v@ == rewrite_playlist_spec(body@, base@, opt_bytes(h)),
        r matches Err(e) ==> e == crate::RelayError::PlaylistTooLarge,
{
    if body.len() > crate::MAX_BODY_BYTES {
        return Err(crate::RelayError::PlaylistTooLarge);
    }
    let lines = split_lines_exec(body, crate::MAX_LINES);
    let mut rewritten: Vec<Vec<u8>> = Vec::new();
    let ghost capped = split_lines(body@).take(capped_line_count(body@));
    proof {
        assert(lines@.len() == capped.len());
        assert(forall|j: int| 0 <= j < capped.len() ==> capped[j] == split_lines(body@)[j]);
    }
    let mut i: usize = 0;
    while i < lines.len()
        invariant
            i <= lines.len(),
            rewritten@.len() == i,
            capped == split_lines(body@).take(capped_line_count(body@)),
            lines@.len() == capped.len(),
            forall|j: int| 0 <= j < lines@.len() ==> lines@[j]@ == capped[j],
            forall|j: int|
                0 <= j < i ==> rewritten@[j]@ == rewrite_line_spec(capped[j], base@, opt_bytes(h)),
        decreases lines.len() - i,
    {
        let line = rewrite_line(lines[i].as_slice(), base, h);
        rewritten.push(line);
        i += 1;
    }
    let joined = join_lines_exec(&rewritten);
    proof {
        let dv = Seq::new(rewritten@.len() as nat, |j: int| rewritten@[j]@);
        assert(dv =~= capped.map_values(
            |l: Seq<u8>| rewrite_line_spec(l, base@, opt_bytes(h)),
        ));
    }
    Ok(joined)
}

/// The round trip of every rewritten reference: a rewritten link is
/// the prefix `/?url=`, then the percent-encoded resolved URL, then
/// (optionally) `&headers=` and the verbatim headers text; the encoded
/// part contains no `&`, `=` or `"`, so it ends exactly where the next
/// parameter (or the line) does, and percent-decoding it yields
/// exactly the resolved absolute URL.
pub proof fn lemma_rewritten_reference_round_trip(u: Seq<u8>, h: Option<Seq<u8>>)
    ensures
        proxy_ref(u, h).subrange(
            url_param_prefix().len() as int,
            url_param_prefix().len() + percent::percent_encode(u).len() as int,
        ) == percent::percent_encode(u),
        proxy_ref(u, h).take(url_param_prefix().len() as int) == url_param_prefix(),
        forall|i: int|
            0 <= i < percent::percent_encode(u).len() ==> #[trigger] percent::percent_encode(u)[i]
                != 38 && percent::percent_encode(u)[i] != 61 && percent::percent_encode(u)[i] != 34,
        percent::percent_decode(percent::percent_encode(u)) == Some(u),
{
    percent::lemma_percent_round_trip(u);
    percent::lemma_percent_encode_bytes(u);
    let p = proxy_ref(u, h);
    let n = url_param_prefix().len() as int;
    let e = percent::percent_encode(u);
    assert(p.subrange(n, n + e.len()) =~= e);
    assert(p.take(n) =~= url_param_prefix());
}

} // verus!
