//! Small verified helpers over byte strings.

use vstd::prelude::*;

verus! {

/// ASCII lower-casing of a single byte: letters `A`..`Z` gain 0x20.
pub open spec fn lower_byte(b: u8) -> u8 {
    if 65 <= b && b <= 90 {
        (b + 32) as u8
    } else {
        b
    }
}

/// `p` occurs in `s` starting at index `i`.
pub open spec fn matches_at(s: Seq<u8>, p: Seq<u8>, i: int) -> bool {
    &&& 0 <= i
    &&& i + p.len() <= s.len()
    &&& s.subrange(i, i + p.len() as int) == p
}

/// `s` begins with `p`.
pub open spec fn starts_with(s: Seq<u8>, p: Seq<u8>) -> bool {
    matches_at(s, p, 0)
}

/// `s` ends with `p`.
pub open spec fn ends_with(s: Seq<u8>, p: Seq<u8>) -> bool {
    p.len() <= s.len() && matches_at(s, p, s.len() - p.len())
}

/// `p` occurs somewhere in `s`.
pub open spec fn contains_sub(s: Seq<u8>, p: Seq<u8>) -> bool {
    exists|i: int| matches_at(s, p, i)
}

/// Exact equality of two byte slices.
pub fn bytes_eq(a: &[u8], b: &[u8]) -> (r: bool)
    ensures
        r == (a@ == b@),
{
    if a.len() != b.len() {
        assert(a@.len() != b@.len());
        return false;
    }
    let mut i: usize = 0;
    while i < a.len()
        invariant
            i <= a.len(),
            a.len() == b.len(),
            forall|j: int| 0 <= j < i ==> a@[j] == b@[j],
        decreases a.len() - i,
    {
        if a[i] != b[i] {
            return false;
        }
        i += 1;
    }
    assert(a@ =~= b@);
    true
}

/// Whether `p` occurs in `s` starting at `i`; `i + p.len()` must be in range.
pub fn matches_at_exec(s: &[u8], p: &[u8], i: usize) -> (r: bool)
    requires
        i + p.len() <= s.len(),
    ensures
        r == matches_at(s@, p@, i as int),
{
    let mut j: usize = 0;
    while j < p.len()
        invariant
            j <= p.len(),
            i + p.len() <= s.len(),
            forall|k: int| 0 <= k < j ==> s@[i + k] == p@[k],
        decreases p.len() - j,
    {
        if s[i + j] != p[j] {
            assert(s@.subrange(i as int, i + p.len() as int)[j as int] != p@[j as int]);
            return false;
        }
        j += 1;
    }
    assert(s@.subrange(i as int, i + p.len() as int) =~= p@);
    true
}

/// `s` begins with `p`.
pub fn starts_with_exec(s: &[u8], p: &[u8]) -> (r: bool)
    ensures
        r == starts_with(s@, p@),
{
    if p.len() > s.len() {
        return false;
    }
    matches_at_exec(s, p, 0)
}

/// `s` ends with `p`.
pub fn ends_with_exec(s: &[u8], p: &[u8]) -> (r: bool)
    ensures
        r == ends_with(s@, p@),
{
    if p.len() > s.len() {
        return false;
    }
    matches_at_exec(s, p, s.len() - p.len())
}

/// Whether `p` occurs anywhere in `s`.
pub fn contains_sub_exec(s: &[u8], p: &[u8]) -> (r: bool)
    ensures
        r == contains_sub(s@, p@),
{
    if p.len() > s.len() {
        assert(forall|i: int| !matches_at(s@, p@, i));
        return false;
    }
    if p.len() == 0 {
        assert(s@.subrange(0, 0) =~= p@);
        assert(matches_at(s@, p@, 0));
        return true;
    }
    let mut i: usize = 0;
    while i <= s.len() - p.len()
        invariant
            0 < p.len() <= s.len(),
            i <= s.len(),
            forall|j: int| 0 <= j < i ==> !matches_at(s@, p@, j),
        decreases s.len() - i,
    {
        if matches_at_exec(s, p, i) {
            return true;
        }
        i += 1;
    }
    assert(forall|j: int| i <= j ==> !matches_at(s@, p@, j));
    false
}

/// Append every byte of `s` to `out`.
pub fn push_all(out: &mut Vec<u8>, s: &[u8])
    ensures
        final(out)@ == old(out)@ + s@,
{
    let mut i: usize = 0;
    while i < s.len()
        invariant
            i <= s.len(),
            out@ == old(out)@ + s@.take(i as int),
        decreases s.len() - i,
    {
        out.push(s[i]);
        proof {
            assert(old(out)@ + s@.take(i as int) + seq![s@[i as int]] =~= old(out)@ + s@.take(
                i as int + 1,
            ));
        }
        i += 1;
    }
    proof {
        assert(s@.take(s@.len() as int) =~= s@);
        assert(old(out)@ + s@.take(0) =~= old(out)@);
    }
}

/// Index of the first occurrence of `b` in `s`, if any.
pub open spec fn find_byte(s: Seq<u8>, b: u8) -> Option<int>
    decreases s.len(),
{
    if s.len() == 0 {
        None
    } else if s[0] == b {
        Some(0)
    } else {
        match find_byte(s.drop_first(), b) {
            Some(j) => Some(j + 1),
            None => None,
        }
    }
}

/// `find_byte` returns the least index holding `b`, or `None` when no
/// position holds it.
pub proof fn lemma_find_byte(s: Seq<u8>, b: u8)
    ensures
        match find_byte(s, b) {
            Some(j) => 0 <= j < s.len() && s[j] == b && forall|m: int| 0 <= m < j ==> s[m] != b,
            None => forall|m: int| 0 <= m < s.len() ==> s[m] != b,
        },
    decreases s.len(),
{
    if s.len() > 0 && s[0] != b {
        lemma_find_byte(s.drop_first(), b);
        assert(forall|m: int| 1 <= m < s.len() ==> s[m] == s.drop_first()[m - 1]);
    }
}

/// A copy of `s[i..j]`.
pub fn subrange_vec(s: &[u8], i: usize, j: usize) -> (r: Vec<u8>)
    requires
        i <= j <= s.len(),
    ensures
        r@ == s@.subrange(i as int, j as int),
{
    let mut out: Vec<u8> = Vec::new();
    let mut k: usize = i;
    while k < j
        invariant
            i <= k <= j <= s.len(),
            out@.len() == k - i,
            forall|m: int| 0 <= m < out@.len() ==> out@[m] == s@[i + m],
        decreases j - k,
    {
        out.push(s[k]);
        k += 1;
    }
    assert(out@ =~= s@.subrange(i as int, j as int));
    out
}

/// Find the first occurrence of `b` in `s` at or after `from`,
/// reported against `find_byte` on the suffix.
pub fn find_byte_from(s: &[u8], b: u8, from: usize) -> (r: Option<usize>)
    requires
        from <= s.len(),
    ensures
        match r {
            Some(k) => from <= k < s.len() && find_byte(s@.skip(from as int), b) == Some(
                k - from,
            ),
            None => find_byte(s@.skip(from as int), b) is None,
        },
{
    let mut k: usize = from;
    while k < s.len()
        invariant
            from <= k <= s.len(),
            forall|m: int| from <= m < k ==> s@[m] != b,
        decreases s.len() - k,
    {
        if s[k] == b {
            proof {
                let t = s@.skip(from as int);
                lemma_find_byte(t, b);
                assert(t[k - from] == b);
                assert(forall|m: int| 0 <= m < k - from ==> t[m] == s@[from + m] && t[m] != b);
                assert(find_byte(t, b) is Some);
                let j = find_byte(t, b)->0;
                assert(t[j] == b);
                assert(j == k - from);
            }
            return Some(k);
        }
        k += 1;
    }
    proof {
        let t = s@.skip(from as int);
        lemma_find_byte(t, b);
        assert(forall|m: int| 0 <= m < t.len() ==> t[m] == s@[from + m] && t[m] != b);
        if find_byte(t, b) is Some {
            let j = find_byte(t, b)->0;
            assert(t[j] == b);
        }
    }
    None
}

/// ASCII lower-casing of a whole byte string, element by element.
pub open spec fn lower_bytes(s: Seq<u8>) -> Seq<u8> {
    s.map_values(|b: u8| lower_byte(b))
}

/// Lower-case a byte string.
pub fn lower_bytes_exec(s: &[u8]) -> (r: Vec<u8>)
    ensures
        r@ == lower_bytes(s@),
{
    let mut out: Vec<u8> = Vec::new();
    let mut i: usize = 0;
    while i < s.len()
        invariant
            i <= s.len(),
            out@.len() == i,
            forall|j: int| 0 <= j < i ==> out@[j] == lower_byte(s@[j]),
        decreases s.len() - i,
    {
        let b = s[i];
        if 65 <= b && b <= 90 {
            out.push(b + 32);
        } else {
            out.push(b);
        }
        i += 1;
    }
    assert(out@ =~= lower_bytes(s@));
    out
}

} // verus!
