//! Small shared utilities: the byte-sink writer and the library's name tag.

use vstd::prelude::*;
use crate::decimal::{abs_int, pow10, Decimal};
use crate::decimal::{lemma_pow10_add, lemma_pow10_mono, lemma_pow10_pos};

verus! {

/// Decimal places kept by `round`; drift beyond this many places is absorbed.
pub const DECIMAL_PLACES: u32 = 16;

/// The number of places `round` keeps for a value of the given scale: one
/// place fewer than the current scale, but never fewer than `DECIMAL_PLACES`.
pub open spec fn round_target(s: nat) -> nat {
    let a = if s >= 1 {
        (s - 1) as nat
    } else {
        0nat
    };
    if a >= DECIMAL_PLACES as nat {
        a
    } else {
        DECIMAL_PLACES as nat
    }
}

/// The model of `round`: drop the last decimal place (half away from zero)
/// beyond the kept precision, then strip trailing zeros.
pub open spec fn spec_round_full(md: (int, nat)) -> (int, nat) {
    crate::decimal::spec_normalize_m(crate::decimal::spec_round_dp(md, round_target(md.1)))
}

/// Absorbs repeating-decimal error by rounding away the last decimal place,
/// half away from zero, down to no fewer than `DECIMAL_PLACES` places.
pub fn round(decimal: Decimal) -> (r: Decimal)
    ensures
        r.inv(),
        r.model() == spec_round_full(decimal.model()),
        abs_int(r.val28()) <= abs_int(decimal.val28()) + pow10(13),
{
    let (_neg, _mag, s) = decimal.parts();
    let dp: u32 = if s >= 17 {
        s - 1
    } else {
        DECIMAL_PLACES
    };
    let rounded = decimal.round_dp_away(dp);
    proof {
        lemma_round_dp_val_bound(decimal, rounded, dp as nat);
    }
    rounded.normalize()
}

/// Rounding to at least 16 places moves the value by less than 10^-15.
proof fn lemma_round_dp_val_bound(d: Decimal, r: Decimal, dp: nat)
    requires
        d.inv(),
        r.inv(),
        dp >= DECIMAL_PLACES as nat,
        r.model() == crate::decimal::spec_round_dp(d.model(), dp),
    ensures
        abs_int(r.val28()) <= abs_int(d.val28()) + pow10(13),
{
    let s = d.scale_spec();
    lemma_pow10_pos(13);
    if s <= dp {
        assert(abs_int(r.val28()) <= abs_int(d.val28()));
    } else {
        let k = (s - dp) as nat;
        let mag = abs_int(d.mantissa_spec());
        let q = mag / pow10(k);
        lemma_pow10_pos(k);
        vstd::arithmetic::div_mod::lemma_fundamental_div_mod(mag, pow10(k));
        assert(q * pow10(k) <= mag) by (nonlinear_arith)
            requires
                mag == pow10(k) * q + mag % pow10(k),
                mag % pow10(k) >= 0,
        ;
        assert(q >= 0) by (nonlinear_arith)
            requires
                mag >= 0,
                pow10(k) >= 1,
                q == mag / pow10(k),
        ;
        let q2 = crate::decimal::abs_int(r.mantissa_spec());
        assert(q2 <= q + 1);
        lemma_pow10_add(k, (28 - s) as nat);
        lemma_pow10_pos((28 - s) as nat);
        lemma_pow10_pos((28 - dp) as nat);
        assert(abs_int(r.val28()) == q2 * pow10((28 - dp) as nat)) by (nonlinear_arith)
            requires
                r.val28() == r.mantissa_spec() * pow10((28 - dp) as nat),
                q2 == abs_int(r.mantissa_spec()),
                pow10((28 - dp) as nat) >= 1,
                r.scale_spec() == dp,
        ;
        assert(abs_int(d.val28()) == mag * pow10((28 - s) as nat)) by (nonlinear_arith)
            requires
                d.val28() == d.mantissa_spec() * pow10((28 - s) as nat),
                mag == abs_int(d.mantissa_spec()),
                pow10((28 - s) as nat) >= 1,
        ;
        assert(q2 * pow10((28 - dp) as nat) <= mag * pow10((28 - s) as nat) + pow10(
            (28 - dp) as nat,
        )) by (nonlinear_arith)
            requires
                q2 <= q + 1,
                q2 >= 0,
                q >= 0,
                q * pow10(k) <= mag,
                pow10(k) * pow10((28 - s) as nat) == pow10((28 - dp) as nat),
                pow10((28 - s) as nat) >= 1,
                pow10(k) >= 1,
        ;
        lemma_pow10_mono((28 - dp) as nat, 12);
        assert(pow10(12) <= pow10(13)) by {
            lemma_pow10_mono(12, 13);
        }
    }
}

/// Gets the package name and version.
pub fn get_lib_name() -> (r: String)
    ensures
        r@ == "easy-pdf v0.1.0"@,
{
    let s: &str = "easy-pdf v0.1.0";
    s.to_owned()
}

/// Appends the whole buffer to the sink and returns the number of bytes added.
///
/// The sink is an in-memory byte vector, so the write cannot fail; callers
/// layered outside the library perform the actual file output.
pub fn write_all_count(writer: &mut Vec<u8>, buf: &[u8]) -> (count: usize)
    ensures
        final(writer)@ == old(writer)@ + buf@,
        count == buf@.len(),
{
    let mut i: usize = 0;
    while i < buf.len()
        invariant
            i <= buf@.len(),
            writer@ == old(writer)@ + buf@.subrange(0, i as int),
        decreases buf@.len() - i,
    {
        writer.push(buf[i]);
        i = i + 1;
        proof {
            assert(writer@ == old(writer)@ + buf@.subrange(0, i as int));
        }
    }
    proof {
        assert(buf@.subrange(0, buf@.len() as int) == buf@);
    }
    buf.len()
}

/// Pure ASCII byte strings are valid UTF-8.
pub proof fn lemma_ascii_valid_utf8(s: Seq<u8>)
    requires
        forall|i: int| 0 <= i < s.len() ==> #[trigger] s[i] < 128,
    ensures
        vstd::utf8::valid_utf8(s),
    decreases s.len(),
{
    if s.len() != 0 {
        assert(s[0] < 128);
        assert(vstd::utf8::valid_first_scalar(s));
        assert(vstd::utf8::length_of_first_scalar(s) == 1);
        assert(vstd::utf8::pop_first_scalar(s) =~= s.drop_first());
        assert(forall|i: int|
            0 <= i < s.drop_first().len() ==> #[trigger] s.drop_first()[i] == s[i + 1]);
        lemma_ascii_valid_utf8(s.drop_first());
    }
}

/// Relies on `String::from_utf8`: valid UTF-8 bytes decode to the string
/// whose encoding is exactly those bytes; invalid input yields an empty
/// string here instead of an error.
#[verifier::external_body]
pub(crate) fn string_from_utf8_bytes(v: Vec<u8>) -> (r: String)
    ensures
        vstd::utf8::valid_utf8(v@) ==> vstd::utf8::encode_utf8(r@) == v@,
{
    match String::from_utf8(v) {
        Ok(s) => s,
        Err(_) => String::new(),
    }
}

} // verus!
