//! Decimal digit strings: variable-width and zero-padded fixed-width byte
//! renderings of unsigned numbers, and the canonical byte form of a decimal.

use vstd::prelude::*;
use crate::decimal::{abs_int, pow10, pow10_u128, Decimal};

verus! {

/// The shortest decimal digit string of `v` (just "0" for zero).
pub open spec fn dec_digits(v: int) -> Seq<u8>
    decreases v,
{
    if v < 10 {
        seq![(48 + v) as u8]
    } else {
        dec_digits(v / 10) + seq![(48 + v % 10) as u8]
    }
}

/// The `width`-digit zero-padded string of `v mod 10^width`.
pub open spec fn dec_digits_fixed(v: int, width: nat) -> Seq<u8>
    decreases width,
{
    if width == 0 {
        Seq::empty()
    } else {
        dec_digits_fixed(v / 10, (width - 1) as nat) + seq![(48 + v % 10) as u8]
    }
}

/// A number below 10^w has at most w digits.
pub proof fn lemma_dec_digits_len(v: int, w: nat)
    requires
        0 <= v < pow10(w),
        w >= 1,
    ensures
        dec_digits(v).len() <= w,
    decreases w,
{
    if v >= 10 {
        crate::decimal::lemma_pow10_pos((w - 1) as nat);
        assert(pow10(w) == 10 * pow10((w - 1) as nat));
        assert(v / 10 < pow10((w - 1) as nat)) by (nonlinear_arith)
            requires
                v < 10 * pow10((w - 1) as nat),
                v >= 0,
                pow10((w - 1) as nat) >= 1,
        ;
        assert(w >= 2) by {
            if w == 1 {
                assert(pow10(1nat) == 10 * pow10(0nat));
                assert(pow10(0nat) == 1);
            }
        }
        lemma_dec_digits_len(v / 10, (w - 1) as nat);
    }
}

/// Digit strings contain only ASCII digits and are never empty.
pub proof fn lemma_dec_digits_ascii(v: int)
    requires
        v >= 0,
    ensures
        dec_digits(v).len() >= 1,
        forall|i: int|
            0 <= i < dec_digits(v).len() ==> 48 <= #[trigger] dec_digits(v)[i] <= 57,
    decreases v,
{
    if v >= 10 {
        lemma_dec_digits_ascii(v / 10);
    }
}

/// Fixed-width digit strings contain only ASCII digits.
pub proof fn lemma_dec_digits_fixed_ascii(v: int, width: nat)
    requires
        v >= 0,
    ensures
        dec_digits_fixed(v, width).len() == width,
        forall|i: int|
            0 <= i < width ==> 48 <= #[trigger] dec_digits_fixed(v, width)[i] <= 57,
    decreases width,
{
    if width > 0 {
        lemma_dec_digits_fixed_ascii(v / 10, (width - 1) as nat);
    }
}

/// Appends the decimal digits of `v`.
pub fn push_u128_decimal(out: &mut Vec<u8>, v: u128) -> (count: usize)
    ensures
        final(out)@ == old(out)@ + dec_digits(v as int),
        count == dec_digits(v as int).len(),
    decreases v,
{
    if v < 10 {
        out.push(48 + v as u8);
        proof {
            assert(final(out)@ == old(out)@ + dec_digits(v as int));
        }
        1
    } else {
        let c = push_u128_decimal(out, v / 10);
        out.push(48 + (v % 10) as u8);
        proof {
            assert(final(out)@ == old(out)@ + dec_digits(v as int));
            lemma_dec_digits_ascii(v as int);
            crate::decimal::lemma_pow10_39();
            lemma_dec_digits_len((v / 10) as int, 39);
        }
        c + 1
    }
}

/// Appends exactly `width` digits of `v`, zero-padded on the left.
pub fn push_u128_fixed(out: &mut Vec<u8>, v: u128, width: u32) -> (count: usize)
    ensures
        final(out)@ == old(out)@ + dec_digits_fixed(v as int, width as nat),
        count == width,
    decreases width,
{
    if width == 0 {
        proof {
            assert(final(out)@ == old(out)@ + dec_digits_fixed(v as int, width as nat));
        }
        0
    } else {
        let c = push_u128_fixed(out, v / 10, width - 1);
        out.push(48 + (v % 10) as u8);
        proof {
            assert(final(out)@ == old(out)@ + dec_digits_fixed(v as int, width as nat));
        }
        c + 1
    }
}

/// The canonical byte string of a decimal: optional sign, integer digits,
/// and, for a nonzero scale, a point followed by the zero-padded fraction.
pub open spec fn decimal_bytes(md: (int, nat)) -> Seq<u8> {
    let sign: Seq<u8> = if md.0 < 0 {
        seq![45u8]
    } else {
        Seq::empty()
    };
    let mag = abs_int(md.0);
    if md.1 == 0 {
        sign + dec_digits(mag)
    } else {
        sign + dec_digits(mag / pow10(md.1)) + seq![46u8] + dec_digits_fixed(
            mag % pow10(md.1),
            md.1,
        )
    }
}

impl Decimal {
    /// Appends the canonical string form of this decimal.
    pub fn push_canonical(&self, out: &mut Vec<u8>) -> (count: usize)
        ensures
            final(out)@ == old(out)@ + decimal_bytes(self.model()),
            count == decimal_bytes(self.model()).len(),
    {
        let (neg, mag, s) = self.parts();
        let mut count: usize = 0;
        if neg {
            out.push(45);
            count = 1;
        }
        if s == 0 {
            let c = push_u128_decimal(out, mag);
            proof {
                lemma_dec_digits_ascii(mag as int);
                crate::decimal::lemma_pow10_39();
                lemma_dec_digits_len(mag as int, 39);
                assert(final(out)@ == old(out)@ + decimal_bytes(self.model()));
            }
            count + c
        } else {
            let p = pow10_u128(s);
            let c1 = push_u128_decimal(out, mag / p);
            out.push(46);
            let c2 = push_u128_fixed(out, mag % p, s);
            proof {
                crate::decimal::lemma_pow10_39();
                lemma_dec_digits_len((mag / p) as int, 39);
                lemma_dec_digits_fixed_ascii((mag % p) as int, s as nat);
                assert(final(out)@ == old(out)@ + decimal_bytes(self.model()));
            }
            count + c1 + 1 + c2
        }
    }
}

} // verus!
