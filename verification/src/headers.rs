//! The forwarded-header set: parsing the `headers` JSON object,
//! validating names and values, and building the outbound header list
//! with the same insert semantics as an HTTP header map (names
//! lower-cased, a repeated name replaced in place).

use vstd::prelude::*;
use crate::bytestr;

verus! {

/// The string map a JSON object of strings parses to, or `None` where
/// these bytes are no such object. Keys and values as UTF-8 bytes.
pub uninterp spec fn json_header_map_of(s: Seq<u8>) -> Option<Map<Seq<u8>, Seq<u8>>>;

/// Relies on `serde_json::from_slice` into a string-to-string hash
/// map: whether the bytes parse, and the entry set, depend on the
/// bytes alone; the order the entries come back in does not.
#[verifier::external_body]
pub(crate) fn parse_header_json(s: &[u8]) -> (r: Option<Vec<(Vec<u8>, Vec<u8>)>>)
    ensures
        r is Some <==> json_header_map_of(s@) is Some,
        r matches Some(v) ==> {
            let m = json_header_map_of(s@)->0;
            &&& m.dom().finite()
            &&& v@.len() == m.dom().len()
            &&& forall|i: int|
                0 <= i < v@.len() ==> m.contains_pair(#[trigger] v@[i].0@, v@[i].1@)
            &&& forall|i: int, j: int| 0 <= i < j < v@.len() ==> v@[i].0@ != v@[j].0@
            &&& forall|k: Seq<u8>|
                #[trigger] m.dom().contains(k) ==> exists|i: int|
                    0 <= i < v@.len() && v@[i].0@ == k && v@[i].1@ == m[k]
        },
{
    let parsed: std::collections::HashMap<String, String> = serde_json::from_slice(s).ok()?;
    Some(parsed.into_iter().map(|(k, v)| (k.into_bytes(), v.into_bytes())).collect())
}

/// Bytes allowed in an HTTP header name: the token characters
/// `! # $ % & ' * + - . ^ _ ` | ~`, digits and letters.
pub open spec fn header_name_byte_ok(b: u8) -> bool {
    ||| b == 33 || (35 <= b && b <= 39) || b == 42 || b == 43 || b == 45 || b == 46
    ||| (48 <= b && b <= 57)
    ||| (65 <= b && b <= 90)
    ||| (94 <= b && b <= 96)
    ||| (97 <= b && b <= 122)
    ||| b == 124 || b == 126
}

/// A syntactically valid header name: non-empty, token bytes only.
pub open spec fn valid_header_name(s: Seq<u8>) -> bool {
    s.len() > 0 && forall|i: int| 0 <= i < s.len() ==> header_name_byte_ok(#[trigger] s[i])
}

/// Bytes allowed in an HTTP header value: anything but control
/// characters, except horizontal tab.
pub open spec fn header_value_byte_ok(b: u8) -> bool {
    (b >= 32 && b != 127) || b == 9
}

/// Valid header-value text.
pub open spec fn valid_header_value(s: Seq<u8>) -> bool {
    forall|i: int| 0 <= i < s.len() ==> header_value_byte_ok(#[trigger] s[i])
}

/// Check a header name.
pub fn valid_header_name_exec(s: &[u8]) -> (r: bool)
    ensures
        r == valid_header_name(s@),
{
    if s.len() == 0 {
        return false;
    }
    let mut i: usize = 0;
    while i < s.len()
        invariant
            i <= s.len(),
            s@.len() > 0,
            forall|j: int| 0 <= j < i ==> header_name_byte_ok(#[trigger] s@[j]),
        decreases s.len() - i,
    {
        let b = s[i];
        let ok = b == 33 || (35 <= b && b <= 39) || b == 42 || b == 43 || b == 45 || b == 46 || (48
            <= b && b <= 57) || (65 <= b && b <= 90) || (94 <= b && b <= 96) || (97 <= b && b
            <= 122) || b == 124 || b == 126;
        if !ok {
            assert(!header_name_byte_ok(s@[i as int]));
            return false;
        }
        i += 1;
    }
    true
}

/// Check a header value.
pub fn valid_header_value_exec(s: &[u8]) -> (r: bool)
    ensures
        r == valid_header_value(s@),
{
    let mut i: usize = 0;
    while i < s.len()
        invariant
            i <= s.len(),
            forall|j: int| 0 <= j < i ==> header_value_byte_ok(#[trigger] s@[j]),
        decreases s.len() - i,
    {
        let b = s[i];
        if !((b >= 32 && b != 127) || b == 9) {
            assert(!header_value_byte_ok(s@[i as int]));
            return false;
        }
        i += 1;
    }
    true
}

/// Entry `i` of a parsed header list has a valid name and value.
pub open spec fn entry_ok(l: Seq<(Seq<u8>, Seq<u8>)>, i: int) -> bool {
    valid_header_name(l[i].0) && valid_header_value(l[i].1)
}

/// Views of a list of header pairs.
pub open spec fn pairs_view(v: Seq<(Vec<u8>, Vec<u8>)>) -> Seq<(Seq<u8>, Seq<u8>)> {
    Seq::new(v.len(), |i: int| (v[i].0@, v[i].1@))
}

/// Index of the first pair whose name is `name`, if any.
pub open spec fn find_key(l: Seq<(Seq<u8>, Seq<u8>)>, name: Seq<u8>) -> Option<int>
    decreases l.len(),
{
    if l.len() == 0 {
        None
    } else if l[0].0 == name {
        Some(0)
    } else {
        match find_key(l.drop_first(), name) {
            Some(j) => Some(j + 1),
            None => None,
        }
    }
}

/// `find_key` returns the least index holding `name`, or `None` when
/// no pair holds it.
pub proof fn lemma_find_key(l: Seq<(Seq<u8>, Seq<u8>)>, name: Seq<u8>)
    ensures
        match find_key(l, name) {
            Some(j) => 0 <= j < l.len() && l[j].0 == name && forall|m: int|
                0 <= m < j ==> l[m].0 != name,
            None => forall|m: int| 0 <= m < l.len() ==> l[m].0 != name,
        },
    decreases l.len(),
{
    if l.len() > 0 && l[0].0 != name {
        lemma_find_key(l.drop_first(), name);
        assert(forall|m: int| 1 <= m < l.len() ==> l[m] == l.drop_first()[m - 1]);
    }
}

/// One header-map insertion: replace the value of an existing name in
/// place, else append the pair.
pub open spec fn insert_pair(
    l: Seq<(Seq<u8>, Seq<u8>)>,
    name: Seq<u8>,
    value: Seq<u8>,
) -> Seq<(Seq<u8>, Seq<u8>)> {
    match find_key(l, name) {
        Some(i) => l.update(i, (name, value)),
        None => l.push((name, value)),
    }
}

/// The header list after inserting every given pair in order, each
/// name lower-cased, as an HTTP header map would take them.
pub open spec fn fold_pairs(pairs: Seq<(Seq<u8>, Seq<u8>)>) -> Seq<(Seq<u8>, Seq<u8>)>
    decreases pairs.len(),
{
    if pairs.len() == 0 {
        Seq::empty()
    } else {
        insert_pair(
            fold_pairs(pairs.drop_last()),
            bytestr::lower_bytes(pairs.last().0),
            pairs.last().1,
        )
    }
}

/// Insert one pair into the outbound list, lower-casing the name:
/// the executable mirror of `insert_pair`.
pub fn insert_header(out: &mut Vec<(Vec<u8>, Vec<u8>)>, name: &[u8], value: &[u8])
    ensures
        pairs_view(final(out)@) == insert_pair(
            pairs_view(old(out)@),
            bytestr::lower_bytes(name@),
            value@,
        ),
{
    let lower = bytestr::lower_bytes_exec(name);
    let ghost l = pairs_view(out@);
    proof {
        lemma_find_key(l, lower@);
    }
    let mut i: usize = 0;
    while i < out.len()
        invariant
            i <= out.len(),
            lower@ == bytestr::lower_bytes(name@),
            l == pairs_view(out@),
            l == pairs_view(old(out)@),
            forall|j: int| 0 <= j < i ==> l[j].0 != lower@,
        decreases out.len() - i,
    {
        if bytestr::bytes_eq(out[i].0.as_slice(), lower.as_slice()) {
            proof {
                lemma_find_key(l, lower@);
                assert(l[i as int].0 == lower@);
                assert(find_key(l, lower@) == Some(i as int));
            }
            let v = bytestr::subrange_vec(value, 0, value.len());
            proof {
                assert(value@.subrange(0, value@.len() as int) =~= value@);
            }
            out.set(i, (lower, v));
            proof {
                assert(pairs_view(out@) =~= l.update(i as int, (lower@, value@)));
            }
            return ;
        }
        i += 1;
    }
    proof {
        lemma_find_key(l, lower@);
        assert(find_key(l, lower@) is None) by {
            if find_key(l, lower@) is Some {
                let j = find_key(l, lower@)->0;
                assert(l[j].0 == lower@);
            }
        }
    }
    let v = bytestr::subrange_vec(value, 0, value.len());
    proof {
        assert(value@.subrange(0, value@.len() as int) =~= value@);
    }
    out.push((lower, v));
    proof {
        assert(pairs_view(out@) =~= l.push((lower@, value@)));
    }
}

/// Validate every parsed JSON header entry and build the outbound
/// header list from them, in the given order.
///
/// Fails exactly when some entry has an invalid name or value; the
/// result is then the insertion fold of the whole list.
pub fn build_forward_headers(pairs: &Vec<(Vec<u8>, Vec<u8>)>) -> (r: Result<
    Vec<(Vec<u8>, Vec<u8>)>,
    crate::RelayError,
>)
    ensures
        r is Ok <==> (forall|i: int| 0 <= i < pairs@.len() ==> #[trigger] entry_ok(
            pairs_view(pairs@),
            i,
        )),
        r matches Ok(v) ==> pairs_view(v@) == fold_pairs(pairs_view(pairs@)),
        r matches Err(e) ==> e == crate::RelayError::InvalidHeaderFormat,
{
    let ghost all = pairs_view(pairs@);
    let mut out: Vec<(Vec<u8>, Vec<u8>)> = Vec::new();
    let mut i: usize = 0;
    proof {
        assert(all.take(0) =~= Seq::<(Seq<u8>, Seq<u8>)>::empty());
        assert(pairs_view(out@) =~= Seq::<(Seq<u8>, Seq<u8>)>::empty());
    }
    while i < pairs.len()
        invariant
            i <= pairs.len(),
            all == pairs_view(pairs@),
            pairs_view(out@) == fold_pairs(all.take(i as int)),
            forall|j: int| 0 <= j < i ==> #[trigger] entry_ok(all, j),
        decreases pairs.len() - i,
    {
        let name_ok = valid_header_name_exec(pairs[i].0.as_slice());
        let value_ok = valid_header_value_exec(pairs[i].1.as_slice());
        proof {
            assert(all[i as int] == (pairs@[i as int].0@, pairs@[i as int].1@));
        }
        if !name_ok || !value_ok {
            proof {
                assert(!entry_ok(pairs_view(pairs@), i as int));
            }
            return Err(crate::RelayError::InvalidHeaderFormat);
        }
        proof {
            assert(entry_ok(all, i as int));
        }
        let (n, v) = (&pairs[i].0, &pairs[i].1);
        insert_header(&mut out, n.as_slice(), v.as_slice());
        proof {
            assert(all.take(i as int + 1).drop_last() =~= all.take(i as int));
            assert(all.take(i as int + 1).last() == all[i as int]);
        }
        i += 1;
    }
    proof {
        assert(all.take(all.len() as int) =~= all);
    }
    Ok(out)
}

} // verus!
