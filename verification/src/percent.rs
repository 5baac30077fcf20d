//! Percent-encoding of byte strings, as used in the rewritten `url=`
//! query parameter: every byte is encoded except ASCII alphanumerics
//! and `-`, `.`, `_`, `~`; encoded bytes use upper-case hex digits.

use vstd::prelude::*;

verus! {

/// Bytes that pass through percent-encoding unchanged.
pub open spec fn is_unreserved(b: u8) -> bool {
    ||| 48 <= b && b <= 57  // 0-9
    ||| 65 <= b && b <= 90  // A-Z
    ||| 97 <= b && b <= 122  // a-z
    ||| b == 45  // -
    ||| b == 46  // .
    ||| b == 95  // _
    ||| b == 126  // ~
}

/// Upper-case hex digit for a value below 16.
pub open spec fn hex_digit(n: u8) -> u8
    recommends
        n < 16,
{
    if n < 10 {
        (48 + n) as u8
    } else {
        (55 + n) as u8
    }
}

/// Value of a hex digit byte (upper- or lower-case), or 255 if none.
pub open spec fn hex_value(b: u8) -> u8 {
    if 48 <= b && b <= 57 {
        (b - 48) as u8
    } else if 65 <= b && b <= 70 {
        (b - 55) as u8
    } else if 97 <= b && b <= 102 {
        (b - 87) as u8
    } else {
        255
    }
}

/// Encoding of a single byte: itself, or `%` with two hex digits.
pub open spec fn encode_byte(b: u8) -> Seq<u8> {
    if is_unreserved(b) {
        seq![b]
    } else {
        seq![37u8, hex_digit(b / 16), hex_digit((b % 16) as u8)]
    }
}

/// Percent-encoding of a whole byte string.
pub open spec fn percent_encode(s: Seq<u8>) -> Seq<u8>
    decreases s.len(),
{
    if s.len() == 0 {
        Seq::empty()
    } else {
        encode_byte(s[0]) + percent_encode(s.drop_first())
    }
}

/// Strict percent-decoding: `%` must be followed by two hex digits.
pub open spec fn percent_decode(s: Seq<u8>) -> Option<Seq<u8>>
    decreases s.len(),
{
    if s.len() == 0 {
        Some(Seq::empty())
    } else if s[0] == 37 {
        if s.len() >= 3 && hex_value(s[1]) != 255 && hex_value(s[2]) != 255 {
            match percent_decode(s.skip(3)) {
                Some(t) => Some(seq![(hex_value(s[1]) * 16 + hex_value(s[2])) as u8] + t),
                None => None,
            }
        } else {
            None
        }
    } else {
        match percent_decode(s.skip(1)) {
            Some(t) => Some(seq![s[0]] + t),
            None => None,
        }
    }
}

proof fn lemma_encode_step(s: Seq<u8>, i: int)
    requires
        0 <= i < s.len(),
    ensures
        percent_encode(s.skip(i)) == encode_byte(s[i]) + percent_encode(s.skip(i + 1)),
{
    assert(s.skip(i).len() > 0);
    assert(s.skip(i)[0] == s[i]);
    assert(s.skip(i).drop_first() =~= s.skip(i + 1));
}

/// Percent-encode a byte string.
pub fn percent_encode_exec(s: &[u8]) -> (r: Vec<u8>)
    ensures
        r@ == percent_encode(s@),
{
    let mut out: Vec<u8> = Vec::new();
    let mut i: usize = 0;
    proof {
        assert(s@.skip(0) =~= s@);
    }
    while i < s.len()
        invariant
            i <= s.len(),
            out@ + percent_encode(s@.skip(i as int)) == percent_encode(s@),
        decreases s.len() - i,
    {
        proof {
            lemma_encode_step(s@, i as int);
        }
        let b = s[i];
        if (48 <= b && b <= 57) || (65 <= b && b <= 90) || (97 <= b && b <= 122) || b == 45
            || b == 46 || b == 95 || b == 126 {
            out.push(b);
            assert(out@ + percent_encode(s@.skip(i + 1)) =~= percent_encode(s@));
        } else {
            out.push(37);
            let hi = b / 16;
            let lo = b % 16;
            out.push(if hi < 10 { 48 + hi } else { 55 + hi });
            out.push(if lo < 10 { 48 + lo } else { 55 + lo });
            assert(out@ + percent_encode(s@.skip(i + 1)) =~= percent_encode(s@));
        }
        i += 1;
    }
    proof {
        assert(s@.skip(s@.len() as int) =~= Seq::<u8>::empty());
        assert(out@ =~= percent_encode(s@));
    }
    out
}

/// Percent-decode a byte string; `None` on a malformed escape.
pub fn percent_decode_exec(s: &[u8]) -> (r: Option<Vec<u8>>)
    ensures
        match r {
            Some(v) => percent_decode(s@) == Some(v@),
            None => percent_decode(s@) is None,
        },
{
    let mut out: Vec<u8> = Vec::new();
    let mut i: usize = 0;
    proof {
        assert(s@.skip(0) =~= s@);
        assert(out@ + s@ =~= s@);
    }
    while i < s.len()
        invariant
            i <= s.len(),
            percent_decode(s@) == match percent_decode(s@.skip(i as int)) {
                Some(t) => Some(out@ + t),
                None => None::<Seq<u8>>,
            },
        decreases s.len() - i,
    {
        let ghost tail = s@.skip(i as int);
        assert(tail.len() > 0 && tail[0] == s@[i as int]);
        let b = s[i];
        if b == 37 {
            if s.len() - i < 3 {
                assert(tail.len() < 3);
                assert(percent_decode(tail) is None);
                return None;
            }
            let h1 = hex_value_exec(s[i + 1]);
            let h2 = hex_value_exec(s[i + 2]);
            assert(tail[1] == s@[i + 1] && tail[2] == s@[i + 2]);
            if h1 == 255 || h2 == 255 {
                assert(percent_decode(tail) is None);
                return None;
            }
            let ghost old_out = out@;
            out.push(h1 * 16 + h2);
            proof {
                assert(tail.skip(3) =~= s@.skip(i + 3));
                if percent_decode(s@.skip(i + 3)) is Some {
                    let t = percent_decode(s@.skip(i + 3))->0;
                    assert(percent_decode(tail) == Some(seq![(h1 * 16 + h2) as u8] + t));
                    assert(out@ + t =~= old_out + (seq![(h1 * 16 + h2) as u8] + t));
                }
            }
            i += 3;
        } else {
            let ghost old_out = out@;
            out.push(b);
            proof {
                assert(tail.skip(1) =~= s@.skip(i + 1));
                if percent_decode(s@.skip(i + 1)) is Some {
                    let t = percent_decode(s@.skip(i + 1))->0;
                    assert(percent_decode(tail) == Some(seq![b] + t));
                    assert(out@ + t =~= old_out + (seq![b] + t));
                }
            }
            i += 1;
        }
    }
    proof {
        assert(s@.skip(s@.len() as int) =~= Seq::<u8>::empty());
        assert(out@ + Seq::<u8>::empty() =~= out@);
    }
    Some(out)
}

/// Value of a hex digit byte, or 255 if the byte is no hex digit.
pub fn hex_value_exec(b: u8) -> (r: u8)
    ensures
        r == hex_value(b),
{
    if 48 <= b && b <= 57 {
        b - 48
    } else if 65 <= b && b <= 70 {
        b - 55
    } else if 97 <= b && b <= 102 {
        b - 87
    } else {
        255
    }
}

/// Percent-encoding is injective with a strict decoder: decoding an
/// encoded string gives back exactly the original bytes. This is the
/// round-trip behind every rewritten reference: the `url=` parameter,
/// once percent-decoded, is exactly the resolved absolute URL.
pub proof fn lemma_percent_round_trip(s: Seq<u8>)
    ensures
        percent_decode(percent_encode(s)) == Some(s),
    decreases s.len(),
{
    if s.len() == 0 {
        assert(percent_encode(s) =~= Seq::<u8>::empty());
    } else {
        let b = s[0];
        let rest = s.drop_first();
        lemma_percent_round_trip(rest);
        let e = percent_encode(s);
        assert(e == encode_byte(b) + percent_encode(rest));
        if is_unreserved(b) {
            assert(e[0] == b);
            assert(b != 37);
            assert(e.skip(1) =~= percent_encode(rest));
            assert(percent_decode(e) == Some(seq![b] + rest));
            assert(seq![b] + rest =~= s);
        } else {
            assert(e[0] == 37);
            assert(e[1] == hex_digit(b / 16) && e[2] == hex_digit((b % 16) as u8));
            lemma_hex_digit_value(b / 16);
            lemma_hex_digit_value((b % 16) as u8);
            assert(hex_value(e[1]) == b / 16 && hex_value(e[2]) == b % 16);
            assert(hex_value(e[1]) != 255 && hex_value(e[2]) != 255);
            assert(e.skip(3) =~= percent_encode(rest));
            assert((b / 16) * 16 + b % 16 == b) by {
                vstd::arithmetic::div_mod::lemma_fundamental_div_mod(b as int, 16);
            }
            assert(percent_decode(e) == Some(seq![b] + rest));
            assert(seq![b] + rest =~= s);
        }
    }
}

proof fn lemma_hex_digit_value(n: u8)
    requires
        n < 16,
    ensures
        hex_value(hex_digit(n)) == n,
        hex_value(hex_digit(n)) != 255,
{
}

/// No byte of a percent-encoded string is `&`, `=`, `"` or `%`-free
/// ambiguity: every byte is unreserved, a `%`, or a hex digit. In
/// particular the encoded `url=` value never contains a parameter
/// separator or a quote.
pub proof fn lemma_percent_encode_bytes(s: Seq<u8>)
    ensures
        forall|i: int|
            0 <= i < percent_encode(s).len() ==> (is_unreserved(#[trigger] percent_encode(s)[i])
                || percent_encode(s)[i] == 37 || hex_value(percent_encode(s)[i]) != 255),
        forall|i: int|
            0 <= i < percent_encode(s).len() ==> percent_encode(s)[i] != 38
                && percent_encode(s)[i] != 61 && percent_encode(s)[i] != 34,
    decreases s.len(),
{
    if s.len() > 0 {
        lemma_percent_encode_bytes(s.drop_first());
        let e = percent_encode(s);
        let h = encode_byte(s[0]);
        assert(forall|i: int|
            0 <= i < e.len() ==> e[i] == if i < h.len() {
                h[i]
            } else {
                percent_encode(s.drop_first())[i - h.len()]
            });
    }
}

} // verus!
