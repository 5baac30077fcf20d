//! The query-string parser: `url`, `headers` and `origin` parameters,
//! form-decoded from the raw query string.
//!
//! Decoding is the usual form decoding: `+` is a space, a `%` escape
//! with two hex digits is that byte, and anything else stands for
//! itself. The `url` parameter must appear exactly once; `headers`
//! and `origin` at most once; anything else is ignored.

use vstd::prelude::*;
use crate::bytestr;
use crate::percent;

verus! {

/// Form decoding of one parameter name or value.
pub open spec fn form_decode(s: Seq<u8>) -> Seq<u8>
    decreases s.len(),
{
    if s.len() == 0 {
        Seq::empty()
    } else if s[0] == 43 {
        seq![32u8] + form_decode(s.skip(1))
    } else if s[0] == 37 && s.len() >= 3 && percent::hex_value(s[1]) != 255 && percent::hex_value(
        s[2],
    ) != 255 {
        seq![(percent::hex_value(s[1]) * 16 + percent::hex_value(s[2])) as u8] + form_decode(
            s.skip(3),
        )
    } else {
        seq![s[0]] + form_decode(s.skip(1))
    }
}

/// The pieces of the query string, split at `&`; empty pieces kept.
pub open spec fn split_amp(s: Seq<u8>) -> Seq<Seq<u8>>
    decreases s.len(),
    via split_amp_decreases
{
    match bytestr::find_byte(s, 38u8) {
        None => seq![s],
        Some(i) => seq![s.take(i)] + split_amp(s.skip(i + 1)),
    }
}

#[via_fn]
proof fn split_amp_decreases(s: Seq<u8>) {
    bytestr::lemma_find_byte(s, 38u8);
}

/// One piece as a decoded (name, value) pair: split at the first `=`,
/// the value empty where there is none.
pub open spec fn pair_of(piece: Seq<u8>) -> (Seq<u8>, Seq<u8>) {
    match bytestr::find_byte(piece, 61u8) {
        None => (form_decode(piece), Seq::empty()),
        Some(i) => (form_decode(piece.take(i)), form_decode(piece.skip(i + 1))),
    }
}

/// The decoded parameter list of a query string, in order.
pub open spec fn query_pairs(s: Seq<u8>) -> Seq<(Seq<u8>, Seq<u8>)> {
    split_amp(s).map_values(|p: Seq<u8>| pair_of(p))
}

/// How many parameters carry this name.
pub open spec fn count_key(l: Seq<(Seq<u8>, Seq<u8>)>, name: Seq<u8>) -> int
    decreases l.len(),
{
    if l.len() == 0 {
        0
    } else {
        count_key(l.drop_last(), name) + if l.last().0 == name {
            1int
        } else {
            0int
        }
    }
}

/// The value of the first parameter with this name, if any.
pub open spec fn first_value(l: Seq<(Seq<u8>, Seq<u8>)>, name: Seq<u8>) -> Option<Seq<u8>>
    decreases l.len(),
{
    if l.len() == 0 {
        None
    } else if l[0].0 == name {
        Some(l[0].1)
    } else {
        first_value(l.drop_first(), name)
    }
}

/// Appending a pair extends `first_value` only where nothing matched.
proof fn lemma_first_value_push(l: Seq<(Seq<u8>, Seq<u8>)>, x: (Seq<u8>, Seq<u8>), name: Seq<u8>)
    ensures
        first_value(l.push(x), name) == if first_value(l, name) is Some {
            first_value(l, name)
        } else if x.0 == name {
            Some(x.1)
        } else {
            None::<Seq<u8>>
        },
    decreases l.len(),
{
    let l2 = l.push(x);
    assert(l2.len() == l.len() + 1);
    if l.len() == 0 {
        assert(l2[0] == x);
        if x.0 == name {
            assert(first_value(l2, name) == Some(x.1));
        } else {
            assert(l2.drop_first() =~= Seq::<(Seq<u8>, Seq<u8>)>::empty());
            assert(first_value(l2, name) == first_value(l2.drop_first(), name));
            assert(first_value(l2, name) is None);
        }
        assert(first_value(l, name) is None);
    } else {
        assert(l2[0] == l[0]);
        if l[0].0 == name {
            assert(first_value(l2, name) == Some(l2[0].1));
            assert(first_value(l, name) == Some(l[0].1));
        } else {
            assert(l2.drop_first() =~= l.drop_first().push(x));
            lemma_first_value_push(l.drop_first(), x, name);
            assert(first_value(l2, name) == first_value(l.drop_first().push(x), name));
            assert(first_value(l, name) == first_value(l.drop_first(), name));
        }
    }
}

/// The parameter name `url`.
pub open spec fn url_key() -> Seq<u8> {
    seq![117u8, 114u8, 108u8]
}

/// The parameter name `headers`.
pub open spec fn headers_key() -> Seq<u8> {
    seq![104u8, 101u8, 97u8, 100u8, 101u8, 114u8, 115u8]
}

/// The parameter name `origin`.
pub open spec fn origin_key() -> Seq<u8> {
    seq![111u8, 114u8, 105u8, 103u8, 105u8, 110u8]
}

/// A query string that does not parse into the expected parameters:
/// `url` missing or repeated, or `headers` or `origin` repeated.
pub open spec fn query_bad(s: Seq<u8>) -> bool {
    ||| count_key(query_pairs(s), url_key()) != 1
    ||| count_key(query_pairs(s), headers_key()) > 1
    ||| count_key(query_pairs(s), origin_key()) > 1
}

/// The three recognized parameters of one request, decoded.
#[derive(Debug)]
pub struct QueryParams {
    /// The target resource, as given (before URL parsing).
    pub url: Vec<u8>,
    /// The forwarded-header JSON text, decoded, verbatim.
    pub headers: Option<Vec<u8>>,
    /// The outbound `Origin` override.
    pub origin: Option<Vec<u8>>,
}

/// Form-decode one piece.
fn form_decode_exec(s: &[u8]) -> (r: Vec<u8>)
    ensures
        r@ == form_decode(s@),
{
    let mut out: Vec<u8> = Vec::new();
    let mut i: usize = 0;
    proof {
        assert(s@.skip(0) =~= s@);
        assert(out@ + s@ =~= s@);
    }
    while i < s.len()
        invariant
            i <= s.len(),
            out@ + form_decode(s@.skip(i as int)) == form_decode(s@),
        decreases s.len() - i,
    {
        let ghost tail = s@.skip(i as int);
        assert(tail.len() > 0 && tail[0] == s@[i as int]);
        let ghost old_out = out@;
        let b = s[i];
        if b == 43 {
            out.push(32u8);
            proof {
                assert(tail.skip(1) =~= s@.skip(i + 1));
                assert(out@ + form_decode(s@.skip(i + 1)) =~= old_out + (seq![32u8] + form_decode(
                    s@.skip(i + 1),
                )));
            }
            i += 1;
        } else if b == 37 && s.len() - i >= 3 {
            let h1 = percent::hex_value_exec(s[i + 1]);
            let h2 = percent::hex_value_exec(s[i + 2]);
            assert(tail[1] == s@[i + 1] && tail[2] == s@[i + 2]);
            if h1 != 255 && h2 != 255 {
                out.push(h1 * 16 + h2);
                proof {
                    assert(tail.skip(3) =~= s@.skip(i + 3));
                    assert(out@ + form_decode(s@.skip(i + 3)) =~= old_out + (seq![
                        (h1 * 16 + h2) as u8,
                    ] + form_decode(s@.skip(i + 3))));
                }
                i += 3;
            } else {
                out.push(b);
                proof {
                    assert(tail.skip(1) =~= s@.skip(i + 1));
                    assert(out@ + form_decode(s@.skip(i + 1)) =~= old_out + (seq![tail[0]]
                        + form_decode(s@.skip(i + 1))));
                }
                i += 1;
            }
        } else {
            out.push(b);
            proof {
                assert(tail.skip(1) =~= s@.skip(i + 1));
                assert(out@ + form_decode(s@.skip(i + 1)) =~= old_out + (seq![tail[0]]
                    + form_decode(s@.skip(i + 1))));
            }
            i += 1;
        }
    }
    proof {
        assert(s@.skip(s@.len() as int) =~= Seq::<u8>::empty());
        assert(out@ + Seq::<u8>::empty() =~= out@);
    }
    out
}

/// Split the query string at `&`, empty pieces kept.
fn split_amp_exec(s: &[u8]) -> (r: Vec<Vec<u8>>)
    ensures
        r@.len() == split_amp(s@).len(),
        forall|j: int| 0 <= j < r@.len() ==> r@[j]@ == split_amp(s@)[j],
{
    let mut pieces: Vec<Vec<u8>> = Vec::new();
    let mut pos: usize = 0;
    let mut done = false;
    proof {
        assert(s@.skip(0) =~= s@);
        assert(Seq::<Seq<u8>>::empty() + split_amp(s@) =~= split_amp(s@));
    }
    while !done
        invariant
            pos <= s.len(),
            !done ==> split_amp(s@) == Seq::new(pieces@.len() as nat, |j: int| pieces@[j]@)
                + split_amp(s@.skip(pos as int)),
            done ==> split_amp(s@) == Seq::new(pieces@.len() as nat, |j: int| pieces@[j]@),
        decreases (s.len() - pos) + (if done { 0int } else { 1int }),
    {
        let ghost tail = s@.skip(pos as int);
        let ghost pre = Seq::new(pieces@.len() as nat, |j: int| pieces@[j]@);
        match bytestr::find_byte_from(s, 38u8, pos) {
            Some(k) => {
                let piece = bytestr::subrange_vec(s, pos, k);
                proof {
                    assert(tail.take(k - pos as int) =~= s@.subrange(pos as int, k as int));
                    assert(tail.skip(k - pos as int + 1) =~= s@.skip(k as int + 1));
                    assert(split_amp(tail) == seq![tail.take(k - pos as int)] + split_amp(
                        tail.skip(k - pos as int + 1),
                    ));
                }
                pieces.push(piece);
                proof {
                    assert(Seq::new(pieces@.len() as nat, |j: int| pieces@[j]@) =~= pre + seq![
                        s@.subrange(pos as int, k as int),
                    ]);
                    assert(pre + split_amp(tail) =~= (pre + seq![
                        s@.subrange(pos as int, k as int),
                    ]) + split_amp(s@.skip(k as int + 1)));
                }
                pos = k + 1;
            },
            None => {
                let piece = bytestr::subrange_vec(s, pos, s.len());
                proof {
                    assert(piece@ =~= tail);
                    assert(split_amp(tail) =~= seq![tail]);
                }
                pieces.push(piece);
                proof {
                    assert(Seq::new(pieces@.len() as nat, |j: int| pieces@[j]@) =~= pre + seq![
                        tail,
                    ]);
                    assert(pre + split_amp(tail) =~= pre + seq![tail]);
                }
                done = true;
            },
        }
    }
    proof {
        let pre = Seq::new(pieces@.len() as nat, |j: int| pieces@[j]@);
        assert(forall|j: int| 0 <= j < pieces@.len() ==> pre[j] == pieces@[j]@);
    }
    pieces
}

fn url_key_vec() -> (r: Vec<u8>)
    ensures
        r@ == url_key(),
{
    let mut v: Vec<u8> = Vec::new();
    v.push(117u8);
    v.push(114u8);
    v.push(108u8);
    assert(v@ =~= url_key());
    v
}

fn headers_key_vec() -> (r: Vec<u8>)
    ensures
        r@ == headers_key(),
{
    let mut v: Vec<u8> = Vec::new();
    v.push(104u8);
    v.push(101u8);
    v.push(97u8);
    v.push(100u8);
    v.push(101u8);
    v.push(114u8);
    v.push(115u8);
    assert(v@ =~= headers_key());
    v
}

fn origin_key_vec() -> (r: Vec<u8>)
    ensures
        r@ == origin_key(),
{
    let mut v: Vec<u8> = Vec::new();
    v.push(111u8);
    v.push(114u8);
    v.push(105u8);
    v.push(103u8);
    v.push(105u8);
    v.push(110u8);
    assert(v@ =~= origin_key());
    v
}

/// View of an optional owned byte string.
pub open spec fn opt_owned(h: &Option<Vec<u8>>) -> Option<Seq<u8>> {
    match h {
        None => None,
        Some(v) => Some(v@),
    }
}

/// Parse a raw query string into the relay's three parameters.
///
/// Fails exactly when `url` is missing or repeated, or `headers` or
/// `origin` is repeated; each parameter otherwise carries the decoded
/// value of its first (only) occurrence.
pub fn parse_query(s: &[u8]) -> (r: Result<QueryParams, crate::RelayError>)
    ensures
        r is Err <==> query_bad(s@),
        r matches Err(e) ==> e == crate::RelayError::InvalidQuery,
        r matches Ok(q) ==> {
            &&& Some(q.url@) == first_value(query_pairs(s@), url_key())
            &&& opt_owned(&q.headers) == first_value(query_pairs(s@), headers_key())
            &&& opt_owned(&q.origin) == first_value(query_pairs(s@), origin_key())
        },
{
    let pieces = split_amp_exec(s);
    let ghost qp = query_pairs(s@);
    let uk = url_key_vec();
    let hk = headers_key_vec();
    let ok = origin_key_vec();
    let mut url: Option<Vec<u8>> = None;
    let mut headers: Option<Vec<u8>> = None;
    let mut origin: Option<Vec<u8>> = None;
    let mut i: usize = 0;
    proof {
        assert(qp.take(0) =~= Seq::<(Seq<u8>, Seq<u8>)>::empty());
    }
    while i < pieces.len()
        invariant
            i <= pieces.len(),
            qp == query_pairs(s@),
            uk@ == url_key() && hk@ == headers_key() && ok@ == origin_key(),
            pieces@.len() == split_amp(s@).len(),
            forall|j: int| 0 <= j < pieces@.len() ==> pieces@[j]@ == split_amp(s@)[j],
            count_key(qp.take(i as int), url_key()) == if url is Some {
                1int
            } else {
                0int
            },
            count_key(qp.take(i as int), headers_key()) == if headers is Some {
                1int
            } else {
                0int
            },
            count_key(qp.take(i as int), origin_key()) == if origin is Some {
                1int
            } else {
                0int
            },
            opt_owned(&url) == first_value(qp.take(i as int), url_key()),
            opt_owned(&headers) == first_value(qp.take(i as int), headers_key()),
            opt_owned(&origin) == first_value(qp.take(i as int), origin_key()),
        decreases pieces.len() - i,
    {
        let piece = &pieces[i];
        let ghost pr = pair_of(piece@);
        proof {
            assert(qp[i as int] == pair_of(split_amp(s@)[i as int]));
            assert(qp.take(i as int + 1).drop_last() =~= qp.take(i as int));
            assert(qp.take(i as int + 1).last() == qp[i as int]);
            lemma_first_value_push(qp.take(i as int), qp[i as int], url_key());
            lemma_first_value_push(qp.take(i as int), qp[i as int], headers_key());
            lemma_first_value_push(qp.take(i as int), qp[i as int], origin_key());
            assert(qp.take(i as int).push(qp[i as int]) =~= qp.take(i as int + 1));
        }
        let name: Vec<u8>;
        let value: Vec<u8>;
        match bytestr::find_byte_from(piece.as_slice(), 61u8, 0) {
            Some(p) => {
                proof {
                    assert(piece@.skip(0) =~= piece@);
                    assert(piece@.take(p as int) =~= piece@.subrange(0, p as int));
                    assert(piece@.skip(p as int + 1) =~= piece@.subrange(
                        p as int + 1,
                        piece@.len() as int,
                    ));
                }
                let raw_name = bytestr::subrange_vec(piece.as_slice(), 0, p);
                let raw_value = bytestr::subrange_vec(piece.as_slice(), p + 1, piece.len());
                name = form_decode_exec(raw_name.as_slice());
                value = form_decode_exec(raw_value.as_slice());
            },
            None => {
                proof {
                    assert(piece@.skip(0) =~= piece@);
                    assert(piece@.subrange(0, piece@.len() as int) =~= piece@);
                }
                let raw_name = bytestr::subrange_vec(piece.as_slice(), 0, piece.len());
                name = form_decode_exec(raw_name.as_slice());
                value = Vec::new();
            },
        }
        assert(name@ == pr.0 && value@ == pr.1);
        if bytestr::bytes_eq(name.as_slice(), uk.as_slice()) {
            if url.is_some() {
                assert(count_key(qp.take(i as int + 1), url_key()) == 2);
                assert(count_key(qp, url_key()) >= 2) by {
                    lemma_count_key_prefix(qp, i as int + 1, url_key());
                }
                return Err(crate::RelayError::InvalidQuery);
            }
            url = Some(value);
        } else if bytestr::bytes_eq(name.as_slice(), hk.as_slice()) {
            if headers.is_some() {
                assert(count_key(qp.take(i as int + 1), headers_key()) == 2);
                assert(count_key(qp, headers_key()) >= 2) by {
                    lemma_count_key_prefix(qp, i as int + 1, headers_key());
                }
                return Err(crate::RelayError::InvalidQuery);
            }
            headers = Some(value);
        } else if bytestr::bytes_eq(name.as_slice(), ok.as_slice()) {
            if origin.is_some() {
                assert(count_key(qp.take(i as int + 1), origin_key()) == 2);
                assert(count_key(qp, origin_key()) >= 2) by {
                    lemma_count_key_prefix(qp, i as int + 1, origin_key());
                }
                return Err(crate::RelayError::InvalidQuery);
            }
            origin = Some(value);
        }
        i += 1;
    }
    proof {
        assert(qp.take(qp.len() as int) =~= qp);
    }
    match url {
        Some(u) => Ok(QueryParams { url: u, headers, origin }),
        None => {
            assert(count_key(qp, url_key()) == 0);
            Err(crate::RelayError::InvalidQuery)
        },
    }
}

/// A name's count over a prefix never exceeds its count over the whole
/// list.
proof fn lemma_count_key_prefix(l: Seq<(Seq<u8>, Seq<u8>)>, n: int, name: Seq<u8>)
    requires
        0 <= n <= l.len(),
    ensures
        count_key(l.take(n), name) <= count_key(l, name),
    decreases l.len() - n,
{
    if n < l.len() {
        lemma_count_key_prefix(l, n + 1, name);
        assert(l.take(n + 1).drop_last() =~= l.take(n));
        assert(count_key(l.take(n), name) <= count_key(l.take(n + 1), name));
    } else {
        assert(l.take(n) =~= l);
    }
}

} // verus!
