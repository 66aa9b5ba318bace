//! Fixed-width lower-case hexadecimal numerals, most significant digit first.
use vstd::prelude::*;

verus! {

/// Sixteen to the power `n`.
pub open spec fn pow16(n: nat) -> nat
    decreases n,
{
    if n == 0 {
        1
    } else {
        16 * pow16((n - 1) as nat)
    }
}

/// The lower-case ASCII digit for `d`, below 16.
pub open spec fn hex_digit(d: nat) -> u8 {
    if d < 10 {
        (48 + d) as u8
    } else {
        (87 + d) as u8
    }
}

/// The `n` lowest hexadecimal digits of `v`.
pub open spec fn hex_of(v: nat, n: nat) -> Seq<u8>
    decreases n,
{
    if n == 0 {
        Seq::empty()
    } else {
        hex_of(v / 16, (n - 1) as nat).push(hex_digit(v % 16))
    }
}

/// A lower-case hexadecimal digit.
pub open spec fn is_hex_byte(b: u8) -> bool {
    (48 <= b && b <= 57) || (97 <= b && b <= 102)
}

/// Every byte is a lower-case hexadecimal digit.
pub open spec fn is_hex(s: Seq<u8>) -> bool {
    forall|i: int| 0 <= i < s.len() ==> is_hex_byte(#[trigger] s[i])
}

/// The value of a lower-case hexadecimal digit.
pub open spec fn digit_value(b: u8) -> nat {
    if b <= 57 {
        (b - 48) as nat
    } else {
        (b - 87) as nat
    }
}

/// The number that a numeral of lower-case hexadecimal digits denotes.
pub open spec fn hex_value(s: Seq<u8>) -> nat
    decreases s.len(),
{
    if s.len() == 0 {
        0
    } else {
        hex_value(s.drop_last()) * 16 + digit_value(s.last())
    }
}

/// Powers of sixteen grow with the exponent.
pub proof fn lemma_pow16_mono(a: nat, b: nat)
    requires
        a <= b,
    ensures
        pow16(a) <= pow16(b),
    decreases b,
{
    if a < b {
        lemma_pow16_mono(a, (b - 1) as nat);
    }
}

/// The powers of sixteen that bound the id and flag fields.
pub proof fn lemma_pow16_32()
    ensures
        pow16(32) == 0x1_0000_0000_0000_0000_0000_0000_0000_0000,
        pow16(16) == 0x1_0000_0000_0000_0000,
        pow16(2) == 0x100,
{
    reveal_with_fuel(pow16, 33);
}

/// A numeral of `n` digits denotes less than sixteen to the `n`.
pub proof fn lemma_hex_value_bound(s: Seq<u8>)
    requires
        is_hex(s),
    ensures
        hex_value(s) < pow16(s.len()),
    decreases s.len(),
{
    if s.len() > 0 {
        let t = s.drop_last();
        assert(is_hex(t)) by {
            assert forall|i: int| 0 <= i < t.len() implies is_hex_byte(#[trigger] t[i]) by {
                assert(t[i] == s[i]);
            }
        }
        lemma_hex_value_bound(t);
        assert(is_hex_byte(s[s.len() - 1]));
        assert(hex_value(t) * 16 + digit_value(s.last()) < pow16(t.len()) * 16) by (nonlinear_arith)
            requires
                hex_value(t) < pow16(t.len()),
                digit_value(s.last()) < 16,
        ;
    }
}

/// Reading back the `n` digits written for `v` gives `v`, when `v` has at most `n` digits.
pub proof fn lemma_hex_round_trip(v: nat, n: nat)
    requires
        v < pow16(n),
    ensures
        hex_of(v, n).len() == n,
        is_hex(hex_of(v, n)),
        hex_value(hex_of(v, n)) == v,
    decreases n,
{
    if n > 0 {
        let q = v / 16;
        let r = v % 16;
        assert(v == q * 16 + r && r < 16) by (nonlinear_arith)
            requires
                q == v / 16,
                r == v % 16,
        ;
        assert(q < pow16((n - 1) as nat)) by (nonlinear_arith)
            requires
                v == q * 16 + r,
                r < 16,
                v < 16 * pow16((n - 1) as nat),
        ;
        lemma_hex_round_trip(q, (n - 1) as nat);
        let s = hex_of(v, n);
        assert(s.drop_last() =~= hex_of(q, (n - 1) as nat));
        assert forall|i: int| 0 <= i < s.len() implies is_hex_byte(#[trigger] s[i]) by {
            if i < n - 1 {
                assert(s[i] == hex_of(q, (n - 1) as nat)[i]);
            }
        }
    }
}

/// Appends the `n` lowest hexadecimal digits of `v` to `out`.
pub fn push_hex(out: &mut Vec<u8>, v: u128, n: usize)
    ensures
        final(out)@ == old(out)@ + hex_of(v as nat, n as nat),
    decreases n,
{
    if n > 0 {
        push_hex(out, v / 16, n - 1);
        let d = (v % 16) as u8;
        let c: u8 = if d < 10 { 48 + d } else { 87 + d };
        out.push(c);
        assert(final(out)@ =~= old(out)@ + hex_of(v as nat, n as nat));
    } else {
        assert(final(out)@ =~= old(out)@ + hex_of(v as nat, n as nat));
    }
}

/// The value of the `n` digits of `s` from `start`, if all are lower-case
/// hexadecimal digits.
pub fn parse_hex(s: &[u8], start: usize, n: usize) -> (r: Option<u128>)
    requires
        start + n <= s@.len(),
        n <= 32,
    ensures
        r == if is_hex(s@.subrange(start as int, start + n)) {
            Some(hex_value(s@.subrange(start as int, start + n)) as u128)
        } else {
            None::<u128>
        },
{
    let ghost full = s@.subrange(start as int, start + n);
    let mut acc: u128 = 0;
    let mut i: usize = 0;
    let len = s.len();
    proof {
        lemma_pow16_32();
        assert(full.take(0) =~= Seq::<u8>::empty());
    }
    while i < n
        invariant
            start + n <= s@.len(),
            len == s@.len(),
            n <= 32,
            0 <= i <= n,
            full == s@.subrange(start as int, start + n),
            is_hex(full.take(i as int)),
            acc as nat == hex_value(full.take(i as int)),
            pow16(32) == 0x1_0000_0000_0000_0000_0000_0000_0000_0000,
        decreases n - i,
    {
        let b = s[start + i];
        assert(b == full[i as int]);
        if !((48 <= b && b <= 57) || (97 <= b && b <= 102)) {
            assert(!is_hex(full));
            return None;
        }
        let d: u128 = if b <= 57 { (b - 48) as u128 } else { (b - 87) as u128 };
        proof {
            lemma_hex_value_bound(full.take(i as int));
            lemma_pow16_mono((i + 1) as nat, 32);
            assert(full.take(i + 1).drop_last() =~= full.take(i as int));
            assert(acc * 16 + d < pow16((i + 1) as nat)) by (nonlinear_arith)
                requires
                    acc < pow16(i as nat),
                    d < 16,
                    pow16((i + 1) as nat) == 16 * pow16(i as nat),
            ;
        }
        acc = acc * 16 + d;
        i = i + 1;
        proof {
            assert forall|j: int| 0 <= j < i implies is_hex_byte(#[trigger] full.take(i as int)[j]) by {
                if j < i - 1 {
                    assert(full.take(i as int)[j] == full.take(i - 1)[j]);
                }
            }
        }
    }
    assert(full.take(n as int) =~= full);
    Some(acc)
}

} // verus!
