//! Percent-encoding of baggage names and values: every byte that the baggage
//! syntax reserves (separators, whitespace, controls, `%` itself, non-ASCII)
//! is written as `%` and two upper-case hexadecimal digits.
use vstd::prelude::*;

verus! {

/// Bytes that are written as `%XX`.
pub open spec fn needs_escape(b: u8) -> bool {
    b <= 32 || b >= 127 || b == 34 || b == 37 || b == 44 || b == 59 || b == 61 || b == 92
}

/// The upper-case ASCII digit for `d`, below 16.
pub open spec fn upper_hex_digit(d: nat) -> u8 {
    if d < 10 {
        (48 + d) as u8
    } else {
        (55 + d) as u8
    }
}

/// How one byte is written.
pub open spec fn encode_byte(b: u8) -> Seq<u8> {
    if needs_escape(b) {
        seq![37u8, upper_hex_digit(b as nat / 16), upper_hex_digit(b as nat % 16)]
    } else {
        seq![b]
    }
}

/// `s` with every byte that needs it escaped.
pub open spec fn percent_encode(s: Seq<u8>) -> Seq<u8>
    decreases s.len(),
{
    if s.len() == 0 {
        Seq::empty()
    } else {
        encode_byte(s[0]) + percent_encode(s.drop_first())
    }
}

/// A hexadecimal digit of either case.
pub open spec fn is_any_hex(b: u8) -> bool {
    (48 <= b && b <= 57) || (65 <= b && b <= 70) || (97 <= b && b <= 102)
}

/// The value of a hexadecimal digit of either case.
pub open spec fn any_hex_value(b: u8) -> nat {
    if b <= 57 {
        (b - 48) as nat
    } else if b <= 70 {
        (b - 55) as nat
    } else {
        (b - 87) as nat
    }
}

/// The bytes that a percent-encoded string stands for; `None` when a `%` is
/// not followed by two hexadecimal digits.
pub open spec fn percent_decode(s: Seq<u8>) -> Option<Seq<u8>>
    decreases s.len(),
{
    if s.len() == 0 {
        Some(Seq::empty())
    } else if s[0] == 37 {
        if s.len() >= 3 && is_any_hex(s[1]) && is_any_hex(s[2]) {
            match percent_decode(s.subrange(3, s.len() as int)) {
                Some(r) => Some(seq![(any_hex_value(s[1]) * 16 + any_hex_value(s[2])) as u8] + r),
                None => None,
            }
        } else {
            None
        }
    } else {
        match percent_decode(s.drop_first()) {
            Some(r) => Some(seq![s[0]] + r),
            None => None,
        }
    }
}

/// Bytes that never occur in an encoded string: the separators of the baggage
/// syntax and the whitespace trimmed around its parts.
pub open spec fn is_plain(b: u8) -> bool {
    b != 44 && b != 61 && b != 59 && b != 32 && b != 9
}

/// No byte of `s` is a separator or a space.
pub open spec fn all_plain(s: Seq<u8>) -> bool {
    forall|i: int| 0 <= i < s.len() ==> is_plain(#[trigger] s[i])
}

/// Encoded strings hold no separator and no space.
pub proof fn lemma_encoded_plain(s: Seq<u8>)
    ensures
        all_plain(percent_encode(s)),
    decreases s.len(),
{
    if s.len() > 0 {
        lemma_encoded_plain(s.drop_first());
        let a = encode_byte(s[0]);
        let b = percent_encode(s.drop_first());
        assert(all_plain(a));
        assert forall|i: int| 0 <= i < (a + b).len() implies is_plain(#[trigger] (a + b)[i]) by {
            if i >= a.len() {
                assert((a + b)[i] == b[i - a.len()]);
            }
        }
    }
}

/// Decoding an encoded string gives it back.
pub proof fn lemma_percent_round_trip(s: Seq<u8>)
    ensures
        percent_decode(percent_encode(s)) == Some(s),
    decreases s.len(),
{
    if s.len() > 0 {
        lemma_percent_round_trip(s.drop_first());
        let a = encode_byte(s[0]);
        let rest = percent_encode(s.drop_first());
        let e = a + rest;
        if needs_escape(s[0]) {
            assert(e.subrange(3, e.len() as int) =~= rest);
            let b = s[0] as nat;
            assert(b == (b / 16) * 16 + b % 16 && b / 16 < 16) by (nonlinear_arith)
                requires
                    b < 256,
            ;
        } else {
            assert(e.drop_first() =~= rest);
        }
        assert(seq![s[0]] + s.drop_first() =~= s);
    }
}

/// Percent-encodes `s`, appending the result to `out`.
pub fn push_percent_encoded(out: &mut Vec<u8>, s: &[u8])
    ensures
        final(out)@ == old(out)@ + percent_encode(s@),
{
    let mut i: usize = 0;
    assert(s@.skip(0) =~= s@);
    assert(out@ + percent_encode(s@) =~= old(out)@ + percent_encode(s@.skip(0)));
    while i < s.len()
        invariant
            0 <= i <= s@.len(),
            old(out)@ + percent_encode(s@) == out@ + percent_encode(s@.skip(i as int)),
        decreases s@.len() - i,
    {
        let b = s[i];
        let ghost before = out@;
        assert(s@.skip(i as int).drop_first() =~= s@.skip(i + 1));
        assert(s@.skip(i as int)[0] == b);
        if b <= 32 || b >= 127 || b == 34 || b == 37 || b == 44 || b == 59 || b == 61 || b == 92 {
            let hi = b / 16;
            let lo = b % 16;
            out.push(37);
            out.push(if hi < 10 { 48 + hi } else { 55 + hi });
            out.push(if lo < 10 { 48 + lo } else { 55 + lo });
        } else {
            out.push(b);
        }
        assert(out@ =~= before + encode_byte(b));
        i = i + 1;
        assert(old(out)@ + percent_encode(s@) =~= out@ + percent_encode(s@.skip(i as int)));
    }
}

/// Decodes a percent-encoded string; `None` on a malformed escape.
pub fn percent_decode_bytes(s: &[u8]) -> (r: Option<Vec<u8>>)
    ensures
        match r {
            Some(v) => percent_decode(s@) == Some(v@),
            None => percent_decode(s@) is None,
        },
{
    let mut out: Vec<u8> = Vec::new();
    let mut i: usize = 0;
    assert(s@.skip(0) =~= s@);
    while i < s.len()
        invariant
            0 <= i <= s@.len(),
            percent_decode(s@) == match percent_decode(s@.skip(i as int)) {
                Some(r) => Some(out@ + r),
                None => None,
            },
        decreases s@.len() - i,
    {
        let ghost t = s@.skip(i as int);
        let b = s[i];
        assert(t[0] == b);
        if b == 37 {
            if s.len() - i > 2 {
                let h = s[i + 1];
                let l = s[i + 2];
                assert(t[1] == h && t[2] == l);
                let h_ok = (48 <= h && h <= 57) || (65 <= h && h <= 70) || (97 <= h && h <= 102);
                let l_ok = (48 <= l && l <= 57) || (65 <= l && l <= 70) || (97 <= l && l <= 102);
                if !(h_ok && l_ok) {
                    return None;
                }
                let hv: u8 = if h <= 57 { h - 48 } else if h <= 70 { h - 55 } else { h - 87 };
                let lv: u8 = if l <= 57 { l - 48 } else if l <= 70 { l - 55 } else { l - 87 };
                let ghost before = out@;
                out.push(hv * 16 + lv);
                assert(t.subrange(3, t.len() as int) =~= s@.skip(i + 3));
                i = i + 3;
                proof {
                    match percent_decode(s@.skip(i as int)) {
                        Some(r) => {
                            assert(before + (seq![(hv * 16 + lv) as u8] + r) =~= out@ + r);
                        },
                        None => {},
                    }
                }
            } else {
                return None;
            }
        } else {
            let ghost before = out@;
            out.push(b);
            assert(t.drop_first() =~= s@.skip(i + 1));
            i = i + 1;
            proof {
                match percent_decode(s@.skip(i as int)) {
                    Some(r) => {
                        assert(before + (seq![b] + r) =~= out@ + r);
                    },
                    None => {},
                }
            }
        }
    }
    assert(s@.skip(i as int) =~= Seq::<u8>::empty());
    assert(out@ + Seq::<u8>::empty() =~= out@);
    Some(out)
}

} // verus!
