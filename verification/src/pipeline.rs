//! The request pipeline up to the upstream fetch: origin gating, query
//! parsing, URL validation and the outbound header set, in the order
//! the handler applies them. A denied or malformed request fails here,
//! before any fetch; an accepted one yields the full fetch plan.

use vstd::prelude::*;
use crate::RelayError;
use crate::bytestr;
use crate::headers;
use crate::origin;
use crate::query;
use crate::urlres;

verus! {

/// The relay's static configuration.
pub struct RelayConfig {
    /// Whether the origin allow-list is enforced.
    pub restrict_origins: bool,
    /// The origins allowed to use the relay.
    pub allowed_origins: Vec<Vec<u8>>,
}

/// Everything the upstream fetch needs, built once per request.
#[derive(Debug)]
pub struct ProxyRequest {
    /// The target resource: the parsed absolute URL's serialization.
    pub target_url: Vec<u8>,
    /// The target URL's path component, for classification.
    pub target_path: Vec<u8>,
    /// The outbound headers, names lower-cased, unique.
    pub forward_headers: Vec<(Vec<u8>, Vec<u8>)>,
    /// The raw `headers` query value, re-embedded into rewritten links.
    pub headers_raw: Option<Vec<u8>>,
    /// The `Access-Control-Allow-Origin` value of every response.
    pub cors_origin: Vec<u8>,
}

/// The outbound header name `origin`.
pub open spec fn origin_hdr() -> Seq<u8> {
    seq![111u8, 114u8, 105u8, 103u8, 105u8, 110u8]
}

/// The outbound header name `range`.
pub open spec fn range_hdr() -> Seq<u8> {
    seq![114u8, 97u8, 110u8, 103u8, 101u8]
}

/// Some entry of the parsed header map has an invalid name or value.
pub open spec fn header_format_bad(m: Map<Seq<u8>, Seq<u8>>) -> bool {
    exists|k: Seq<u8>|
        #[trigger] m.dom().contains(k) && !(headers::valid_header_name(k)
            && headers::valid_header_value(m[k]))
}

/// `ps` lists exactly the entries of `m`, each once, in some order.
pub open spec fn lists_map(ps: Seq<(Seq<u8>, Seq<u8>)>, m: Map<Seq<u8>, Seq<u8>>) -> bool {
    &&& ps.len() == m.dom().len()
    &&& forall|i: int| 0 <= i < ps.len() ==> m.contains_pair(#[trigger] ps[i].0, ps[i].1)
    &&& forall|i: int, j: int| 0 <= i < j < ps.len() ==> ps[i].0 != ps[j].0
    &&& forall|k: Seq<u8>|
        #[trigger] m.dom().contains(k) ==> exists|i: int|
            0 <= i < ps.len() && ps[i] == (k, m[k])
}

/// The header list after the `origin` override and the forwarded
/// `Range`, inserted in that order after the JSON-given headers.
pub open spec fn with_extras(
    l: Seq<(Seq<u8>, Seq<u8>)>,
    origin_param: Option<Seq<u8>>,
    range: Option<Seq<u8>>,
) -> Seq<(Seq<u8>, Seq<u8>)> {
    let l1 = match origin_param {
        Some(o) => headers::insert_pair(l, origin_hdr(), o),
        None => l,
    };
    match range {
        Some(rg) => headers::insert_pair(l1, range_hdr(), rg),
        None => l1,
    }
}

/// The check the `origin` parameter must pass once everything before
/// it has.
pub open spec fn origin_param_failure(qs: Seq<u8>) -> Option<RelayError> {
    match query::first_value(query::query_pairs(qs), query::origin_key()) {
        Some(ov) => if !headers::valid_header_value(ov) {
            Some(RelayError::InvalidOrigin)
        } else {
            None
        },
        None => None,
    }
}

/// The error a request fails with before the upstream fetch, if any:
/// origin check first, then each parsing step, in the handler's order.
pub open spec fn plan_failure(
    restrict: bool,
    allowed: Seq<Seq<u8>>,
    og: Option<Seq<u8>>,
    rf: Option<Seq<u8>>,
    qs: Seq<u8>,
) -> Option<RelayError> {
    if !origin::origin_allowed_spec(restrict, og, rf, allowed) {
        Some(RelayError::OriginDenied)
    } else if query::query_bad(qs) {
        Some(RelayError::InvalidQuery)
    } else {
        let uv = query::first_value(query::query_pairs(qs), query::url_key())->0;
        if urlres::abs_url_of(uv) is None {
            Some(RelayError::InvalidUrl)
        } else {
            match query::first_value(query::query_pairs(qs), query::headers_key()) {
                Some(hv) => match headers::json_header_map_of(hv) {
                    None => Some(RelayError::InvalidHeadersJson),
                    Some(m) => if m.dom().len() > crate::MAX_FORWARD_HEADERS {
                        Some(RelayError::TooManyHeaders)
                    } else if header_format_bad(m) {
                        Some(RelayError::InvalidHeaderFormat)
                    } else {
                        origin_param_failure(qs)
                    },
                },
                None => origin_param_failure(qs),
            }
        }
    }
}

fn origin_hdr_vec() -> (r: Vec<u8>)
    ensures
        r@ == origin_hdr(),
        bytestr::lower_bytes(r@) == origin_hdr(),
{
    let mut v: Vec<u8> = Vec::new();
    v.push(111u8);
    v.push(114u8);
    v.push(105u8);
    v.push(103u8);
    v.push(105u8);
    v.push(110u8);
    assert(v@ =~= origin_hdr());
    assert(bytestr::lower_bytes(v@) =~= origin_hdr());
    v
}

fn range_hdr_vec() -> (r: Vec<u8>)
    ensures
        r@ == range_hdr(),
        bytestr::lower_bytes(r@) == range_hdr(),
{
    let mut v: Vec<u8> = Vec::new();
    v.push(114u8);
    v.push(97u8);
    v.push(110u8);
    v.push(103u8);
    v.push(101u8);
    assert(v@ =~= range_hdr());
    assert(bytestr::lower_bytes(v@) =~= range_hdr());
    v
}

/// Screen and parse one request, yielding the fetch plan or the error
/// the request terminates with. No upstream work happens on a request
/// that fails here; in particular a denied caller causes no fetch.
pub fn plan_request(
    config: &RelayConfig,
    req_origin: Option<&Vec<u8>>,
    req_referer: Option<&Vec<u8>>,
    query_string: &[u8],
    range: Option<&Vec<u8>>,
) -> (r: Result<ProxyRequest, RelayError>)
    ensures
        ({
            let failure = plan_failure(
                config.restrict_origins,
                origin::seqs_of(config.allowed_origins@),
                origin::opt_view(req_origin),
                origin::opt_view(req_referer),
                query_string@,
            );
            &&& r is Err <==> failure is Some
            &&& r matches Err(e) ==> Some(e) == failure
            &&& r matches Ok(p) ==> {
                let qp = query::query_pairs(query_string@);
                let uv = query::first_value(qp, query::url_key())->0;
                &&& Some(p.target_url@) == urlres::abs_url_of(uv)
                &&& p.target_path@ == urlres::url_path_of(uv)
                &&& query::opt_owned(&p.headers_raw) == query::first_value(
                    qp,
                    query::headers_key(),
                )
                &&& p.cors_origin@ == origin::cors_origin_spec(origin::opt_view(req_origin))
                &&& exists|ps: Seq<(Seq<u8>, Seq<u8>)>|
                    {
                        &&& match query::first_value(qp, query::headers_key()) {
                            Some(hv) => lists_map(ps, headers::json_header_map_of(hv)->0),
                            None => ps == Seq::<(Seq<u8>, Seq<u8>)>::empty(),
                        }
                        &&& headers::pairs_view(p.forward_headers@) == with_extras(
                            headers::fold_pairs(ps),
                            query::first_value(qp, query::origin_key()),
                            origin::opt_view(range),
                        )
                    }
            }
        }),
{
    let allowed = origin::origin_allowed(
        config.restrict_origins,
        req_origin,
        req_referer,
        &config.allowed_origins,
    );
    if !allowed {
        return Err(RelayError::OriginDenied);
    }
    let q = match query::parse_query(query_string) {
        Ok(q) => q,
        Err(e) => {
            return Err(e);
        },
    };
    let target_url = match urlres::parse_abs_url(q.url.as_slice()) {
        Some(u) => u,
        None => {
            return Err(RelayError::InvalidUrl);
        },
    };
    let target_path = match urlres::url_path(q.url.as_slice()) {
        Some(p) => p,
        None => {
            return Err(RelayError::InvalidUrl);
        },
    };
    let ghost qp = query::query_pairs(query_string@);
    let mut forward: Vec<(Vec<u8>, Vec<u8>)>;
    let ghost base_list: Seq<(Seq<u8>, Seq<u8>)>;
    match &q.headers {
        Some(hv) => {
            let pairs = match headers::parse_header_json(hv.as_slice()) {
                Some(pairs) => pairs,
                None => {
                    return Err(RelayError::InvalidHeadersJson);
                },
            };
            let ghost m = headers::json_header_map_of(hv@)->0;
            if pairs.len() > crate::MAX_FORWARD_HEADERS {
                return Err(RelayError::TooManyHeaders);
            }
            match headers::build_forward_headers(&pairs) {
                Ok(fw) => {
                    forward = fw;
                    proof {
                        base_list = headers::pairs_view(pairs@);
                        assert(lists_map(base_list, m)) by {
                            assert(forall|i: int|
                                0 <= i < base_list.len() ==> base_list[i] == (
                                    pairs@[i].0@,
                                    pairs@[i].1@,
                                ));
                            assert forall|k: Seq<u8>| #[trigger] m.dom().contains(k) implies exists|i: int|
                                0 <= i < base_list.len() && base_list[i] == (k, m[k]) by {
                                let i = choose|i: int|
                                    0 <= i < pairs@.len() && pairs@[i].0@ == k && pairs@[i].1@
                                        == m[k];
                                assert(0 <= i < base_list.len() && base_list[i] == (k, m[k]));
                            }
                        }
                        assert(!header_format_bad(m)) by {
                            assert forall|k: Seq<u8>|
                                #[trigger] m.dom().contains(k) implies headers::valid_header_name(k)
                                && headers::valid_header_value(m[k]) by {
                                let i = choose|i: int|
                                    0 <= i < pairs@.len() && pairs@[i].0@ == k && pairs@[i].1@
                                        == m[k];
                                assert(headers::entry_ok(headers::pairs_view(pairs@), i));
                                assert(headers::pairs_view(pairs@)[i] == (pairs@[i].0@, pairs@[i].1@));
                            }
                        }
                    }
                },
                Err(_) => {
                    proof {
                        assert(header_format_bad(m)) by {
                            let i = choose|i: int|
                                0 <= i < pairs@.len() && !headers::entry_ok(
                                    headers::pairs_view(pairs@),
                                    i,
                                );
                            assert(headers::pairs_view(pairs@)[i] == (pairs@[i].0@, pairs@[i].1@));
                            assert(m.contains_pair(pairs@[i].0@, pairs@[i].1@));
                            assert(m.dom().contains(pairs@[i].0@));
                        }
                    }
                    return Err(RelayError::InvalidHeaderFormat);
                },
            }
        },
        None => {
            forward = Vec::new();
            proof {
                base_list = Seq::<(Seq<u8>, Seq<u8>)>::empty();
                assert(headers::pairs_view(forward@) =~= headers::fold_pairs(base_list));
            }
        },
    }
    match &q.origin {
        Some(ov) => {
            if !headers::valid_header_value_exec(ov.as_slice()) {
                return Err(RelayError::InvalidOrigin);
            }
            let name = origin_hdr_vec();
            headers::insert_header(&mut forward, name.as_slice(), ov.as_slice());
        },
        None => {},
    }
    match range {
        Some(rg) => {
            let name = range_hdr_vec();
            headers::insert_header(&mut forward, name.as_slice(), rg.as_slice());
        },
        None => {},
    }
    let cors = origin::cors_origin(req_origin);
    let p = ProxyRequest {
        target_url,
        target_path,
        forward_headers: forward,
        headers_raw: q.headers,
        cors_origin: cors,
    };
    proof {
        assert(exists|ps: Seq<(Seq<u8>, Seq<u8>)>|
            {
                &&& match query::first_value(qp, query::headers_key()) {
                    Some(hv) => lists_map(ps, headers::json_header_map_of(hv)->0),
                    None => ps == Seq::<(Seq<u8>, Seq<u8>)>::empty(),
                }
                &&& headers::pairs_view(p.forward_headers@) == with_extras(
                    headers::fold_pairs(ps),
                    query::first_value(qp, query::origin_key()),
                    origin::opt_view(range),
                )
            }) by {
            let ps = base_list;
            assert({
                &&& match query::first_value(qp, query::headers_key()) {
                    Some(hv) => lists_map(ps, headers::json_header_map_of(hv)->0),
                    None => ps == Seq::<(Seq<u8>, Seq<u8>)>::empty(),
                }
                &&& headers::pairs_view(p.forward_headers@) == with_extras(
                    headers::fold_pairs(ps),
                    query::first_value(qp, query::origin_key()),
                    origin::opt_view(range),
                )
            });
        }
    }
    Ok(p)
}

} // verus!
