//! The origin validator: may this caller use the relay at all?
//!
//! With restriction disabled every caller is allowed. With it enabled,
//! an `Origin` header must match an allow-list entry exactly; absent
//! an `Origin`, a `Referer` header must start with an entry; absent
//! both, the caller is denied. A denied request reaches no upstream.

use vstd::prelude::*;
use crate::bytestr;

verus! {

/// Views of a list of byte strings.
pub open spec fn seqs_of(v: Seq<Vec<u8>>) -> Seq<Seq<u8>> {
    Seq::new(v.len(), |i: int| v[i]@)
}

/// View of an optional borrowed byte string.
pub open spec fn opt_view(h: Option<&Vec<u8>>) -> Option<Seq<u8>> {
    match h {
        None => None,
        Some(v) => Some(v@),
    }
}

/// Whether a caller with these `Origin` and `Referer` headers is
/// allowed: everyone when restriction is off; else exact `Origin`
/// membership, then `Referer` prefix match, then denial.
pub open spec fn origin_allowed_spec(
    restrict: bool,
    origin: Option<Seq<u8>>,
    referer: Option<Seq<u8>>,
    allowed: Seq<Seq<u8>>,
) -> bool {
    if !restrict {
        true
    } else {
        match origin {
            Some(o) => exists|i: int| 0 <= i < allowed.len() && allowed[i] == o,
            None => match referer {
                Some(r) => exists|i: int|
                    0 <= i < allowed.len() && bytestr::starts_with(r, #[trigger] allowed[i]),
                None => false,
            },
        }
    }
}

/// Decide whether the caller is allowed to use the relay.
pub fn origin_allowed(
    restrict: bool,
    origin: Option<&Vec<u8>>,
    referer: Option<&Vec<u8>>,
    allowed: &Vec<Vec<u8>>,
) -> (r: bool)
    ensures
        r == origin_allowed_spec(restrict, opt_view(origin), opt_view(referer), seqs_of(allowed@)),
{
    if !restrict {
        return true;
    }
    match origin {
        Some(o) => {
            let mut i: usize = 0;
            while i < allowed.len()
                invariant
                    i <= allowed.len(),
                    opt_view(origin) == Some(o@),
                    restrict,
                    forall|j: int| 0 <= j < i ==> seqs_of(allowed@)[j] != o@,
                decreases allowed.len() - i,
            {
                if bytestr::bytes_eq(allowed[i].as_slice(), o.as_slice()) {
                    proof {
                        let al = seqs_of(allowed@);
                        assert(0 <= (i as int) && (i as int) < al.len() && al[i as int] == o@);
                        assert(exists|j: int| 0 <= j < al.len() && al[j] == o@);
                    }
                    return true;
                }
                i += 1;
            }
            false
        },
        None => match referer {
            Some(r) => {
                let mut i: usize = 0;
                while i < allowed.len()
                    invariant
                        i <= allowed.len(),
                        opt_view(origin) is None,
                        opt_view(referer) == Some(r@),
                        restrict,
                        forall|j: int|
                            0 <= j < i ==> !bytestr::starts_with(r@, #[trigger] seqs_of(allowed@)[j]),
                    decreases allowed.len() - i,
                {
                    if bytestr::starts_with_exec(r.as_slice(), allowed[i].as_slice()) {
                        proof {
                            let al = seqs_of(allowed@);
                            assert(0 <= (i as int) && (i as int) < al.len() && bytestr::starts_with(
                                r@,
                                al[i as int],
                            ));
                            assert(exists|j: int|
                                0 <= j < al.len() && bytestr::starts_with(r@, #[trigger] al[j]));
                        }
                        return true;
                    }
                    i += 1;
                }
                false
            },
            None => false,
        },
    }
}

/// Header bytes that `Origin` echoing accepts: visible ASCII, space
/// or tab, as header text is read back.
pub open spec fn header_text_ok(s: Seq<u8>) -> bool {
    forall|i: int| 0 <= i < s.len() ==> (32 <= #[trigger] s[i] < 127 || s[i] == 9)
}

/// The `Access-Control-Allow-Origin` value a response carries: the
/// caller's own `Origin` where one was sent as plain header text, the
/// wildcard `*` otherwise.
pub open spec fn cors_origin_spec(origin: Option<Seq<u8>>) -> Seq<u8> {
    match origin {
        Some(o) => if header_text_ok(o) {
            o
        } else {
            seq![42u8]
        },
        None => seq![42u8],
    }
}

/// Compute the `Access-Control-Allow-Origin` value for this caller.
pub fn cors_origin(origin: Option<&Vec<u8>>) -> (r: Vec<u8>)
    ensures
        r@ == cors_origin_spec(opt_view(origin)),
{
    match origin {
        Some(o) => {
            let mut i: usize = 0;
            while i < o.len()
                invariant
                    i <= o.len(),
                    opt_view(origin) == Some(o@),
                    forall|j: int| 0 <= j < i ==> (32 <= #[trigger] o@[j] < 127 || o@[j] == 9),
                decreases o.len() - i,
            {
                let b = o[i];
                if !((32 <= b && b < 127) || b == 9) {
                    proof {
                        assert(!(32 <= o@[i as int] < 127 || o@[i as int] == 9));
                        assert(!header_text_ok(o@));
                    }
                    let mut star: Vec<u8> = Vec::new();
                    star.push(42u8);
                    assert(star@ =~= seq![42u8]);
                    return star;
                }
                i += 1;
            }
            bytestr::subrange_vec(o.as_slice(), 0, o.len())
        },
        None => {
            let mut star: Vec<u8> = Vec::new();
            star.push(42u8);
            assert(star@ =~= seq![42u8]);
            star
        },
    }
}

} // verus!
