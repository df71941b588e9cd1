//! Percent-encoding of byte strings: `%XX` escapes with two hexadecimal
//! digits, as URLs use them.

use vstd::prelude::*;

verus! {

/// The escape character `%`.
pub const PERCENT: u8 = 0x25;

/// The value of a hexadecimal digit, upper or lower case.
pub open spec fn spec_hex_value(c: u8) -> Option<u8> {
    if 0x30 <= c <= 0x39 {
        Some((c - 0x30) as u8)
    } else if 0x41 <= c <= 0x46 {
        Some((c - 0x41 + 10) as u8)
    } else if 0x61 <= c <= 0x66 {
        Some((c - 0x61 + 10) as u8)
    } else {
        None
    }
}

/// The upper-case hexadecimal digit for a value below sixteen.
pub open spec fn spec_hex_digit(v: u8) -> u8 {
    if v < 10 {
        (0x30 + v) as u8
    } else {
        (0x41 + (v - 10)) as u8
    }
}

/// The bytes that are written as they are: letters, digits, `-`, `.`, `_`
/// and `~`.
pub open spec fn is_unreserved(b: u8) -> bool {
    ||| 0x30 <= b <= 0x39
    ||| 0x41 <= b <= 0x5a
    ||| 0x61 <= b <= 0x7a
    ||| b == 0x2d
    ||| b == 0x2e
    ||| b == 0x5f
    ||| b == 0x7e
}

/// One byte in its encoded form.
pub open spec fn spec_encode_byte(b: u8) -> Seq<u8> {
    if is_unreserved(b) {
        seq![b]
    } else {
        seq![PERCENT, spec_hex_digit(b / 16), spec_hex_digit(b % 16)]
    }
}

/// The encoded form of a byte string: each byte in turn.
pub open spec fn spec_encode(s: Seq<u8>) -> Seq<u8>
    decreases s.len(),
{
    if s.len() == 0 {
        Seq::empty()
    } else {
        spec_encode_byte(s[0]) + spec_encode(s.skip(1))
    }
}

/// `s` begins with a complete escape: `%` and two hexadecimal digits.
pub open spec fn starts_with_escape(s: Seq<u8>) -> bool {
    &&& s.len() >= 3
    &&& s[0] == PERCENT
    &&& spec_hex_value(s[1]) is Some
    &&& spec_hex_value(s[2]) is Some
}

/// The byte that the escape at the start of `s` stands for.
pub open spec fn spec_escape_value(s: Seq<u8>) -> u8 {
    (spec_hex_value(s[1]).unwrap() * 16 + spec_hex_value(s[2]).unwrap()) as u8
}

/// Puts `head` in front of a decoded rest, if there is one.
pub open spec fn prepend(head: Seq<u8>, rest: Option<Seq<u8>>) -> Option<Seq<u8>> {
    match rest {
        Some(r) => Some(head + r),
        None => None,
    }
}

/// The decoded form of a byte string, or `None` where a `%` is not followed
/// by two hexadecimal digits.  Every other byte stands for itself.
pub open spec fn spec_decode(s: Seq<u8>) -> Option<Seq<u8>>
    decreases s.len(),
{
    if s.len() == 0 {
        Some(Seq::empty())
    } else if s[0] != PERCENT {
        prepend(seq![s[0]], spec_decode(s.skip(1)))
    } else if starts_with_escape(s) {
        prepend(seq![spec_escape_value(s)], spec_decode(s.skip(3)))
    } else {
        None
    }
}

/// Reads a hexadecimal digit.
pub fn hex_value(c: u8) -> (r: Option<u8>)
    ensures
        r == spec_hex_value(c),
        r is Some ==> r.unwrap() < 16,
{
    if 0x30 <= c && c <= 0x39 {
        Some(c - 0x30)
    } else if 0x41 <= c && c <= 0x46 {
        Some(c - 0x41 + 10)
    } else if 0x61 <= c && c <= 0x66 {
        Some(c - 0x61 + 10)
    } else {
        None
    }
}

/// Writes a value below sixteen as an upper-case hexadecimal digit.
pub fn hex_digit(v: u8) -> (r: u8)
    requires
        v < 16,
    ensures
        r == spec_hex_digit(v),
{
    if v < 10 {
        0x30 + v
    } else {
        0x41 + (v - 10)
    }
}

/// Tells whether a byte is written as it is.
pub fn unreserved(b: u8) -> (r: bool)
    ensures
        r == is_unreserved(b),
{
    (0x30 <= b && b <= 0x39) || (0x41 <= b && b <= 0x5a) || (0x61 <= b && b <= 0x7a) || b == 0x2d
        || b == 0x2e || b == 0x5f || b == 0x7e
}

/// Decodes a percent-encoded byte string.  `None` exactly where some `%` is
/// not followed by two hexadecimal digits.
pub fn decode(s: &[u8]) -> (r: Option<Vec<u8>>)
    ensures
        r is Some <==> spec_decode(s@) is Some,
        r is Some ==> r.unwrap()@ == spec_decode(s@).unwrap(),
{
    let mut out: Vec<u8> = Vec::new();
    let mut i: usize = 0;
    proof {
        assert(s@.skip(0) =~= s@);
        match spec_decode(s@) {
            Some(r) => {
                assert(out@ + r =~= r);
            },
            None => {},
        }
    }
    while i < s.len()
        invariant
            i <= s.len(),
            spec_decode(s@) == prepend(out@, spec_decode(s@.skip(i as int))),
        decreases s.len() - i,
    {
        let ghost tail = s@.skip(i as int);
        let ghost before = out@;
        let c = s[i];
        assert(tail[0] == c);
        if c != PERCENT {
            out.push(c);
            i += 1;
            proof {
                assert(tail.skip(1) =~= s@.skip(i as int));
                match spec_decode(tail.skip(1)) {
                    Some(r) => {
                        assert(before + (seq![c] + r) =~= out@ + r);
                    },
                    None => {},
                }
            }
        } else {
            if s.len() - i < 3 {
                return None;
            }
            assert(tail[1] == s@[i + 1] && tail[2] == s@[i + 2]);
            let hi = hex_value(s[i + 1]);
            let lo = hex_value(s[i + 2]);
            match (hi, lo) {
                (Some(h), Some(l)) => {
                    let b: u8 = h * 16 + l;
                    out.push(b);
                    i += 3;
                    proof {
                        assert(tail.skip(3) =~= s@.skip(i as int));
                        match spec_decode(tail.skip(3)) {
                            Some(r) => {
                                assert(before + (seq![b] + r) =~= out@ + r);
                            },
                            None => {},
                        }
                    }
                },
                _ => {
                    return None;
                },
            }
        }
    }
    proof {
        assert(s@.skip(i as int) =~= Seq::<u8>::empty());
        assert(out@ + Seq::<u8>::empty() =~= out@);
    }
    Some(out)
}

/// Percent-encodes a byte string: unreserved bytes as they are, every other
/// byte as `%` and two upper-case hexadecimal digits.
pub fn encode(s: &[u8]) -> (r: Vec<u8>)
    ensures
        r@ == spec_encode(s@),
{
    let mut out: Vec<u8> = Vec::new();
    let mut i: usize = 0;
    proof {
        assert(s@.skip(0) =~= s@);
        assert(out@ + spec_encode(s@) =~= spec_encode(s@));
    }
    while i < s.len()
        invariant
            i <= s.len(),
            spec_encode(s@) == out@ + spec_encode(s@.skip(i as int)),
        decreases s.len() - i,
    {
        let ghost tail = s@.skip(i as int);
        let ghost before = out@;
        let b = s[i];
        assert(tail[0] == b);
        if unreserved(b) {
            out.push(b);
        } else {
            out.push(PERCENT);
            out.push(hex_digit(b / 16));
            out.push(hex_digit(b % 16));
        }
        i += 1;
        proof {
            assert(tail.skip(1) =~= s@.skip(i as int));
            assert(out@ =~= before + spec_encode_byte(b));
            assert(before + (spec_encode_byte(b) + spec_encode(tail.skip(1))) =~= out@
                + spec_encode(tail.skip(1)));
        }
    }
    proof {
        assert(s@.skip(i as int) =~= Seq::<u8>::empty());
        assert(out@ + Seq::<u8>::empty() =~= out@);
    }
    out
}

/// An encoded byte string holds only unreserved bytes and `%`.
pub proof fn lemma_encode_alphabet(s: Seq<u8>)
    ensures
        forall|i: int|
            0 <= i < spec_encode(s).len() ==> is_unreserved(#[trigger] spec_encode(s)[i])
                || spec_encode(s)[i] == PERCENT,
    decreases s.len(),
{
    if s.len() > 0 {
        lemma_encode_alphabet(s.skip(1));
        let head = spec_encode_byte(s[0]);
        let rest = spec_encode(s.skip(1));
        assert forall|i: int| 0 <= i < spec_encode(s).len() implies is_unreserved(
            #[trigger] spec_encode(s)[i],
        ) || spec_encode(s)[i] == PERCENT by {
            if i < head.len() {
                assert(spec_encode(s)[i] == head[i]);
            } else {
                assert(spec_encode(s)[i] == rest[i - head.len()]);
            }
        }
    }
}

/// What was encoded is what decoding gives back: for every byte string
/// `s`, decoding the encoded form of `s` succeeds and yields `s`.
pub proof fn lemma_decode_encode(s: Seq<u8>)
    ensures
        spec_decode(spec_encode(s)) == Some(s),
    decreases s.len(),
{
    if s.len() > 0 {
        let b = s[0];
        let rest = spec_encode(s.skip(1));
        let e = spec_encode(s);
        lemma_decode_encode(s.skip(1));
        assert(seq![b] + s.skip(1) =~= s);
        if is_unreserved(b) {
            assert(e[0] == b);
            assert(e.skip(1) =~= rest);
        } else {
            assert(e[0] == PERCENT);
            assert(e[1] == spec_hex_digit(b / 16));
            assert(e[2] == spec_hex_digit(b % 16));
            assert(e.skip(3) =~= rest);
            assert(spec_escape_value(e) == b);
        }
    } else {
        assert(spec_encode(s) =~= Seq::<u8>::empty());
    }
}

} // verus!
