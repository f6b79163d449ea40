//! Fixed-precision signed decimal numbers.
//!
//! A value is `mantissa * 10^-scale` with at most 28 decimal places and a
//! mantissa below 10^28 in magnitude.  All arithmetic converts through this
//! representation exactly where the result fits; division generates decimal
//! digits by long division and truncates beyond the representable precision.

use vstd::prelude::*;

verus! {

/// Largest number of decimal places a value may carry.
pub const MAX_SCALE: u32 = 28;

/// 10^27, the threshold above which the division loop stops adding digits.
pub const DIGIT_CAP: u128 = 1_000_000_000_000_000_000_000_000_000;

/// 10^28, one above the largest representable mantissa magnitude.
pub const MANT_LIM: u128 = 10_000_000_000_000_000_000_000_000_000;

/// 10^n.
pub open spec fn pow10(n: nat) -> int
    decreases n,
{
    if n == 0 {
        1
    } else {
        10 * pow10((n - 1) as nat)
    }
}

pub proof fn lemma_pow10_pos(n: nat)
    ensures
        pow10(n) >= 1,
    decreases n,
{
    if n > 0 {
        lemma_pow10_pos((n - 1) as nat);
    }
}

pub proof fn lemma_pow10_add(a: nat, b: nat)
    ensures
        pow10(a + b) == pow10(a) * pow10(b),
    decreases a,
{
    if a == 0 {
    } else {
        lemma_pow10_add((a - 1) as nat, b);
        assert(pow10((a + b - 1) as nat) == pow10((a - 1) as nat) * pow10(b));
        assert(pow10(a + b) == 10 * pow10((a + b - 1) as nat));
        assert(10 * (pow10((a - 1) as nat) * pow10(b)) == (10 * pow10((a - 1) as nat)) * pow10(
            b,
        )) by (nonlinear_arith);
    }
}

pub proof fn lemma_pow10_mono(a: nat, b: nat)
    requires
        a <= b,
    ensures
        pow10(a) <= pow10(b),
    decreases b,
{
    if a < b {
        lemma_pow10_mono(a, (b - 1) as nat);
        lemma_pow10_pos((b - 1) as nat);
    }
}

/// The exec constants agree with `pow10`.
pub proof fn lemma_pow10_constants()
    ensures
        DIGIT_CAP as int == pow10(27),
        MANT_LIM as int == pow10(28),
{
    reveal_with_fuel(pow10, 30);
}

/// Every 128-bit value has fewer than 39 decimal digits.
pub proof fn lemma_pow10_39()
    ensures
        pow10(39) > u128::MAX as int,
{
    reveal_with_fuel(pow10, 40);
}

/// Computes 10^n for n up to 28.
pub fn pow10_u128(n: u32) -> (r: u128)
    requires
        n <= 28,
    ensures
        r as int == pow10(n as nat),
        r >= 1,
{
    proof {
        lemma_pow10_constants();
    }
    let mut acc: u128 = 1;
    let mut i: u32 = 0;
    while i < n
        invariant
            i <= n <= 28,
            acc as int == pow10(i as nat),
        decreases n - i,
    {
        proof {
            lemma_pow10_mono((i + 1) as nat, 28);
            lemma_pow10_pos(i as nat);
            lemma_pow10_constants();
            assert(pow10((i + 1) as nat) == 10 * pow10(i as nat));
            assert(10 * (acc as int) <= MANT_LIM as int);
        }
        acc = acc * 10;
        i = i + 1;
    }
    proof {
        lemma_pow10_pos(n as nat);
    }
    acc
}

/// A signed decimal number: `mantissa * 10^-scale`.
#[derive(Debug, Clone, Copy)]
pub struct Decimal {
    mantissa: i128,
    scale: u32,
}

impl Decimal {
    /// The stored integer mantissa.
    pub closed spec fn mantissa_spec(&self) -> int {
        self.mantissa as int
    }

    /// The number of decimal places.
    pub closed spec fn scale_spec(&self) -> nat {
        self.scale as nat
    }

    /// Representation bounds: every constructed value satisfies these.
    pub open spec fn inv(&self) -> bool {
        &&& self.scale_spec() <= 28
        &&& -(MANT_LIM as int) < self.mantissa_spec() < MANT_LIM as int
    }

    /// The value scaled to a common 10^-28 grid; two decimals denote the same
    /// number exactly when their `val28` agree.
    pub open spec fn val28(&self) -> int {
        self.mantissa_spec() * pow10((28 - self.scale_spec()) as nat)
    }
}

#[verifier::type_invariant]
pub open spec fn decimal_inv(d: Decimal) -> bool {
    d.inv()
}

impl Decimal {
    /// Creates a decimal from a mantissa and a number of decimal places.
    pub fn new(mantissa: i64, scale: u32) -> (r: Decimal)
        requires
            scale <= 28,
        ensures
            r.mantissa_spec() == mantissa as int,
            r.scale_spec() == scale as nat,
            r.inv(),
    {
        proof {
            lemma_pow10_constants();
        }
        Decimal { mantissa: mantissa as i128, scale }
    }

    /// Creates an integer-valued decimal.
    pub fn from(n: i64) -> (r: Decimal)
        ensures
            r.mantissa_spec() == n as int,
            r.scale_spec() == 0,
            r.inv(),
    {
        Decimal::new(n, 0)
    }

    /// The zero value.
    pub fn zero() -> (r: Decimal)
        ensures
            r.mantissa_spec() == 0,
            r.scale_spec() == 0,
            r.inv(),
    {
        Decimal::new(0, 0)
    }

    /// Internal constructor from full-width parts.
    pub(crate) fn from_parts(mantissa: i128, scale: u32) -> (r: Decimal)
        requires
            scale <= 28,
            -(MANT_LIM as int) < (mantissa as int) < (MANT_LIM as int),
        ensures
            r.mantissa_spec() == mantissa as int,
            r.scale_spec() == scale as nat,
            r.inv(),
    {
        Decimal { mantissa, scale }
    }

    /// The sign and magnitude of the mantissa.
    pub(crate) fn parts(&self) -> (r: (bool, u128, u32))
        ensures
            r.0 == (self.mantissa_spec() < 0),
            r.1 as int == abs_int(self.mantissa_spec()),
            r.2 as nat == self.scale_spec(),
            r.1 < MANT_LIM,
            r.2 <= 28,
    {
        proof {
            use_type_invariant(self);
        }
        if self.mantissa < 0 {
            (true, (-self.mantissa) as u128, self.scale)
        } else {
            (false, self.mantissa as u128, self.scale)
        }
    }

    /// Negation.
    pub fn neg(&self) -> (r: Decimal)
        ensures
            r.inv(),
            r.mantissa_spec() == -self.mantissa_spec(),
            r.scale_spec() == self.scale_spec(),
            r.val28() == -self.val28(),
    {
        proof {
            use_type_invariant(self);
        }
        let r = Decimal { mantissa: -self.mantissa, scale: self.scale };
        proof {
            assert(r.val28() == -self.val28()) by (nonlinear_arith)
                requires
                    r.mantissa_spec() == -self.mantissa_spec(),
                    r.val28() == r.mantissa_spec() * pow10((28 - r.scale_spec()) as nat),
                    self.val28() == self.mantissa_spec() * pow10((28 - self.scale_spec()) as nat),
                    r.scale_spec() == self.scale_spec(),
            ;
        }
        r
    }
}

/// Magnitude of an integer.
pub open spec fn abs_int(x: int) -> int {
    if x < 0 {
        -x
    } else {
        x
    }
}

/// Twice the mantissa limit; the exact-alignment path of addition stays below it.
pub const TWO_MANT: u128 = 20_000_000_000_000_000_000_000_000_000;

/// Applies a sign flag to a magnitude.
pub open spec fn sgn_apply(neg: bool, mag: int) -> int {
    if neg {
        -mag
    } else {
        mag
    }
}

impl Decimal {
    /// The pair (mantissa, scale), the abstract model of a decimal.
    pub open spec fn model(&self) -> (int, nat) {
        (self.mantissa_spec(), self.scale_spec())
    }
}

/// Drops decimal places (truncating toward zero on magnitudes) until the
/// mantissa fits the representable range and the scale is at most 28.
pub open spec fn spec_reduce(mag: int, s: nat) -> (int, nat)
    decreases s,
{
    if s > 28 || (mag >= MANT_LIM as int && s > 0) {
        spec_reduce(mag / 10, (s - 1) as nat)
    } else {
        (mag, s)
    }
}

#[verifier::rlimit(30)]
proof fn lemma_reduce_props(mag: int, s: nat)
    requires
        0 <= mag < (MANT_LIM as int) * pow10(s),
    ensures
        ({
            let (m2, s2) = spec_reduce(mag, s);
            &&& s2 <= s
            &&& s2 <= 28
            &&& 0 <= m2 < MANT_LIM as int
            &&& m2 < (MANT_LIM as int) * pow10(s2)
            &&& m2 * pow10((s - s2) as nat) <= mag
        }),
    decreases s,
{
    lemma_pow10_pos(s);
    assert(pow10(0) == 1);
    if s > 28 || (mag >= MANT_LIM as int && s > 0) {
        assert(s > 0);
        let mag2 = mag / 10;
        assert(pow10(s) == 10 * pow10((s - 1) as nat));
        assert(mag < ((MANT_LIM as int) * pow10((s - 1) as nat)) * 10) by (nonlinear_arith)
            requires
                mag < (MANT_LIM as int) * pow10(s),
                pow10(s) == 10 * pow10((s - 1) as nat),
        ;
        assert(mag2 < (MANT_LIM as int) * pow10((s - 1) as nat)) by (nonlinear_arith)
            requires
                0 <= mag,
                mag < ((MANT_LIM as int) * pow10((s - 1) as nat)) * 10,
                mag2 == mag / 10,
                (MANT_LIM as int) * pow10((s - 1) as nat) > 0,
        ;
        lemma_reduce_props(mag2, (s - 1) as nat);
        assert(spec_reduce(mag, s) == spec_reduce(mag2, (s - 1) as nat));
        let (m2, s2) = spec_reduce(mag, s);
        vstd::arithmetic::div_mod::lemma_fundamental_div_mod(mag, 10);
        assert(s2 <= s - 1 < s);
        assert(pow10((s - s2) as nat) == 10 * pow10((s - 1 - s2) as nat));
        assert(m2 * pow10((s - s2) as nat) <= mag) by (nonlinear_arith)
            requires
                m2 * pow10((s - 1 - s2) as nat) <= mag2,
                mag == 10 * mag2 + mag % 10,
                mag % 10 >= 0,
                pow10((s - s2) as nat) == 10 * pow10((s - 1 - s2) as nat),
                m2 >= 0,
        ;
    } else {
        let (m2, s2) = spec_reduce(mag, s);
        assert(m2 == mag && s2 == s);
        assert(pow10((s - s2) as nat) == 1);
        assert(m2 * pow10((s - s2) as nat) <= mag) by (nonlinear_arith)
            requires
                m2 == mag,
                pow10((s - s2) as nat) == 1,
        ;
        if s == 0 {
            assert(pow10(0) == 1);
        }
    }
}

/// Executable mirror of `spec_reduce`.
fn reduce_exec(mag0: u128, s0: u32) -> (r: (u128, u32))
    requires
        (mag0 as int) < (MANT_LIM as int) * pow10(s0 as nat),
        s0 <= 56,
    ensures
        (r.0 as int, r.1 as nat) == spec_reduce(mag0 as int, s0 as nat),
        r.0 < MANT_LIM,
        r.1 <= 28,
        r.1 <= s0,
{
    proof {
        lemma_reduce_props(mag0 as int, s0 as nat);
    }
    let mut mag = mag0;
    let mut s = s0;
    while s > 28 || (mag >= MANT_LIM && s > 0)
        invariant
            spec_reduce(mag as int, s as nat) == spec_reduce(mag0 as int, s0 as nat),
            (mag as int) < (MANT_LIM as int) * pow10(s as nat),
            s <= s0 <= 56,
        decreases s,
    {
        proof {
            lemma_reduce_props(mag as int, s as nat);
        }
        mag = mag / 10;
        s = s - 1;
        proof {
            lemma_reduce_props(mag as int, s as nat);
        }
    }
    (mag, s)
}

/// Converts a sign and magnitude to a signed mantissa.
fn signed_from(neg: bool, mag: u128) -> (r: i128)
    requires
        mag < MANT_LIM,
    ensures
        r as int == sgn_apply(neg, mag as int),
        -(MANT_LIM as int) < (r as int) < MANT_LIM as int,
{
    if neg {
        -(mag as i128)
    } else {
        mag as i128
    }
}

/// The larger of two naturals.
pub open spec fn max_nat(a: nat, b: nat) -> nat {
    if a >= b {
        a
    } else {
        b
    }
}

/// The smaller of two naturals.
pub open spec fn min_nat(a: nat, b: nat) -> nat {
    if a <= b {
        a
    } else {
        b
    }
}

/// Truncates (toward zero) or pads a mantissa from one scale to another.
pub open spec fn spec_at_scale(m: int, from: nat, to: nat) -> int {
    if to >= from {
        m * pow10((to - from) as nat)
    } else {
        sgn_apply(m < 0, abs_int(m) / pow10((from - to) as nat))
    }
}

/// Both operands aligned at the larger scale stay within the mantissa range,
/// so addition is exact.
pub open spec fn add_fits(a: Decimal, b: Decimal) -> bool {
    let s = max_nat(a.scale_spec(), b.scale_spec());
    let sum = spec_at_scale(a.mantissa_spec(), a.scale_spec(), s) + spec_at_scale(
        b.mantissa_spec(),
        b.scale_spec(),
        s,
    );
    -(MANT_LIM as int) < sum < MANT_LIM as int
}

/// The sum of the magnitudes is representable, so addition cannot overflow
/// even after precision reduction.
pub open spec fn add_ok(a: Decimal, b: Decimal) -> bool {
    abs_int(a.val28()) + abs_int(b.val28()) < (MANT_LIM as int) * pow10(28)
}

/// The model of the sum: exact alignment at the larger scale where it fits,
/// otherwise alignment at the smaller scale followed by range reduction.
pub open spec fn spec_add_m(am: (int, nat), bm: (int, nat)) -> (int, nat) {
    let s_hi = max_nat(am.1, bm.1);
    let c1 = spec_at_scale(am.0, am.1, s_hi);
    let c2 = spec_at_scale(bm.0, bm.1, s_hi);
    if abs_int(c1) <= TWO_MANT as int && abs_int(c2) <= TWO_MANT as int && -(MANT_LIM as int) < c1
        + c2 < MANT_LIM as int {
        (c1 + c2, s_hi)
    } else {
        let s_lo = min_nat(am.1, bm.1);
        let d1 = spec_at_scale(am.0, am.1, s_lo);
        let d2 = spec_at_scale(bm.0, bm.1, s_lo);
        let (mag, s2) = spec_reduce(abs_int(d1 + d2), s_lo);
        (sgn_apply(d1 + d2 < 0, mag), s2)
    }
}

impl Decimal {
    /// Adds two decimals.  The result keeps the larger scale when the aligned
    /// sum is representable; otherwise precision is reduced.
    pub fn add(&self, rhs: &Decimal) -> (r: Decimal)
        requires
            add_ok(*self, *rhs),
        ensures
            r.inv(),
            r.model() == spec_add_m(self.model(), rhs.model()),
            add_fits(*self, *rhs) ==> r.mantissa_spec() == spec_at_scale(
                self.mantissa_spec(),
                self.scale_spec(),
                max_nat(self.scale_spec(), rhs.scale_spec()),
            ) + spec_at_scale(
                rhs.mantissa_spec(),
                rhs.scale_spec(),
                max_nat(self.scale_spec(), rhs.scale_spec()),
            ),
            add_fits(*self, *rhs) ==> r.scale_spec() == max_nat(
                self.scale_spec(),
                rhs.scale_spec(),
            ),
            add_fits(*self, *rhs) ==> r.val28() == self.val28() + rhs.val28(),
            abs_int(r.val28()) <= abs_int(self.val28()) + abs_int(rhs.val28()),
    {
        let (neg_a, mag_a, s_a) = self.parts();
        let (neg_b, mag_b, s_b) = rhs.parts();
        let s_hi: u32 = if s_a >= s_b {
            s_a
        } else {
            s_b
        };
        let p1 = pow10_u128(s_hi - s_a);
        let p2 = pow10_u128(s_hi - s_b);
        let c1 = mag_a.checked_mul(p1);
        let c2 = mag_b.checked_mul(p2);
        let ghost am = self.model();
        let ghost bm = rhs.model();
        let ghost sc1 = spec_at_scale(am.0, am.1, s_hi as nat);
        let ghost sc2 = spec_at_scale(bm.0, bm.1, s_hi as nat);
        proof {
            assert(pow10(0) == 1);
            assert(sc1 == am.0 * pow10((s_hi - s_a) as nat));
            assert(sc2 == bm.0 * pow10((s_hi - s_b) as nat));
            assert(abs_int(sc1) == mag_a as int * pow10((s_hi - s_a) as nat)) by (nonlinear_arith)
                requires
                    sc1 == am.0 * pow10((s_hi - s_a) as nat),
                    mag_a as int == abs_int(am.0),
                    pow10((s_hi - s_a) as nat) >= 1,
            ;
            assert(abs_int(sc2) == mag_b as int * pow10((s_hi - s_b) as nat)) by (nonlinear_arith)
                requires
                    sc2 == bm.0 * pow10((s_hi - s_b) as nat),
                    mag_b as int == abs_int(bm.0),
                    pow10((s_hi - s_b) as nat) >= 1,
            ;
        }
        let mut exact_ok = false;
        let mut w: i128 = 0;
        if let (Some(v1), Some(v2)) = (c1, c2) {
            proof {
                assert(v1 as int == abs_int(sc1));
                assert(v2 as int == abs_int(sc2));
            }
            if v1 <= TWO_MANT && v2 <= TWO_MANT {
                let w1 = signed_sum_part(neg_a, v1);
                let w2 = signed_sum_part(neg_b, v2);
                proof {
                    assert(w1 as int == sc1) by (nonlinear_arith)
                        requires
                            w1 as int == sgn_apply(neg_a, v1 as int),
                            v1 as int == abs_int(sc1),
                            sc1 == am.0 * pow10((s_hi - s_a) as nat),
                            am.0 == sgn_apply(neg_a, mag_a as int),
                            v1 as int == mag_a as int * pow10((s_hi - s_a) as nat),
                    ;
                    assert(w2 as int == sc2) by (nonlinear_arith)
                        requires
                            w2 as int == sgn_apply(neg_b, v2 as int),
                            v2 as int == abs_int(sc2),
                            sc2 == bm.0 * pow10((s_hi - s_b) as nat),
                            bm.0 == sgn_apply(neg_b, mag_b as int),
                            v2 as int == mag_b as int * pow10((s_hi - s_b) as nat),
                    ;
                }
                w = w1 + w2;
                if -(MANT_LIM as i128) < w && w < MANT_LIM as i128 {
                    exact_ok = true;
                }
            }
        }
        proof {
            if c1 is None {
                assert(abs_int(sc1) > u128::MAX as int);
            }
            if c2 is None {
                assert(abs_int(sc2) > u128::MAX as int);
            }
            assert(exact_ok == (abs_int(sc1) <= TWO_MANT as int && abs_int(sc2) <= TWO_MANT as int
                && -(MANT_LIM as int) < sc1 + sc2 < MANT_LIM as int));
        }
        if exact_ok {
            let r = Decimal::from_parts(w, s_hi);
            proof {
                lemma_val28_sum(*self, *rhs, r, s_hi as nat);
            }
            r
        } else {
            let ghost va = self.val28();
            let ghost vb = rhs.val28();
            proof {
                if add_fits(*self, *rhs) {
                    lemma_add_fits_implies_exact(*self, *rhs, s_hi as nat);
                    assert(false);
                }
            }
            let s_lo: u32 = if s_a <= s_b {
                s_a
            } else {
                s_b
            };
            let q1 = pow10_u128(s_a - s_lo);
            let q2 = pow10_u128(s_b - s_lo);
            let t1 = mag_a / q1;
            let t2 = mag_b / q2;
            let ghost sd1 = spec_at_scale(am.0, am.1, s_lo as nat);
            let ghost sd2 = spec_at_scale(bm.0, bm.1, s_lo as nat);
            proof {
                assert(pow10(0) == 1);
                assert(t1 as int == mag_a as int / (q1 as int));
                assert(t2 as int == mag_b as int / (q2 as int));
                assert(mag_a as int / 1 == mag_a as int) by (nonlinear_arith);
                assert(mag_b as int / 1 == mag_b as int) by (nonlinear_arith);
                assert(sd1 == sgn_apply(neg_a, t1 as int) && abs_int(sd1) == t1 as int);
                assert(sd2 == sgn_apply(neg_b, t2 as int) && abs_int(sd2) == t2 as int);
            }
            let u1 = signed_sum_part(neg_a, t1);
            let u2 = signed_sum_part(neg_b, t2);
            let w2 = u1 + u2;
            let neg_w = w2 < 0;
            let mag_w: u128 = if w2 < 0 {
                (-w2) as u128
            } else {
                w2 as u128
            };
            proof {
                lemma_add_fallback_bound(*self, *rhs, s_lo as nat);
                assert(mag_w as int == abs_int(sd1 + sd2));
            }
            let (mag_r, s_r) = reduce_exec(mag_w, s_lo);
            let m_r = signed_from(neg_w && mag_r > 0, mag_r);
            let r = Decimal::from_parts(m_r, s_r);
            proof {
                lemma_sgn_zero(w2 as int, mag_r as int);
                lemma_reduce_props(mag_w as int, s_lo as nat);
                lemma_at_scale_val_bound(*self, s_lo as nat);
                lemma_at_scale_val_bound(*rhs, s_lo as nat);
                lemma_pow10_add((s_lo - s_r) as nat, (28 - s_lo) as nat);
                lemma_pow10_pos((28 - s_lo) as nat);
                lemma_pow10_pos((28 - s_r) as nat);
                lemma_pow10_pos((s_lo - s_r) as nat);
                assert(abs_int(r.val28()) == mag_r as int * pow10((28 - s_r) as nat))
                    by (nonlinear_arith)
                    requires
                        r.val28() == r.mantissa_spec() * pow10((28 - s_r) as nat),
                        r.mantissa_spec() == sgn_apply(neg_w && mag_r > 0, mag_r as int),
                        mag_r >= 0,
                        pow10((28 - s_r) as nat) >= 1,
                ;
                assert(mag_r as int * pow10((28 - s_r) as nat) <= (mag_w as int) * pow10(
                    (28 - s_lo) as nat,
                )) by (nonlinear_arith)
                    requires
                        mag_r as int * pow10((s_lo - s_r) as nat) <= mag_w as int,
                        pow10((s_lo - s_r) as nat) * pow10((28 - s_lo) as nat) == pow10(
                            (28 - s_r) as nat,
                        ),
                        pow10((28 - s_lo) as nat) >= 1,
                        mag_r >= 0,
                ;
                assert((mag_w as int) * pow10((28 - s_lo) as nat) <= (abs_int(sd1) + abs_int(sd2))
                    * pow10((28 - s_lo) as nat)) by (nonlinear_arith)
                    requires
                        mag_w as int == abs_int(sd1 + sd2),
                        pow10((28 - s_lo) as nat) >= 1,
                ;
                assert((abs_int(sd1) + abs_int(sd2)) * pow10((28 - s_lo) as nat) == abs_int(sd1)
                    * pow10((28 - s_lo) as nat) + abs_int(sd2) * pow10((28 - s_lo) as nat))
                    by (nonlinear_arith);
            }
            r
        }
    }
}

/// Signed contribution of one aligned operand; fits in `i128` by the caller's
/// bound checks.
fn signed_sum_part(neg: bool, mag: u128) -> (r: i128)
    requires
        mag <= TWO_MANT,
    ensures
        r as int == sgn_apply(neg, mag as int),
{
    if neg {
        -(mag as i128)
    } else {
        mag as i128
    }
}

/// The aligned exact sum at the common scale equals the sum of the values.
proof fn lemma_val28_sum(a: Decimal, b: Decimal, r: Decimal, s_hi: nat)
    requires
        a.inv(),
        b.inv(),
        r.inv(),
        s_hi == max_nat(a.scale_spec(), b.scale_spec()),
        r.scale_spec() == s_hi,
        r.mantissa_spec() == spec_at_scale(a.mantissa_spec(), a.scale_spec(), s_hi)
            + spec_at_scale(b.mantissa_spec(), b.scale_spec(), s_hi),
    ensures
        r.val28() == a.val28() + b.val28(),
{
    let sa = a.scale_spec();
    let sb = b.scale_spec();
    lemma_pow10_add((s_hi - sa) as nat, (28 - s_hi) as nat);
    lemma_pow10_add((s_hi - sb) as nat, (28 - s_hi) as nat);
    assert((a.mantissa_spec() * pow10((s_hi - sa) as nat)) * pow10((28 - s_hi) as nat)
        == a.mantissa_spec() * pow10((28 - sa) as nat)) by (nonlinear_arith)
        requires
            pow10((s_hi - sa) as nat) * pow10((28 - s_hi) as nat) == pow10((28 - sa) as nat),
    ;
    assert((b.mantissa_spec() * pow10((s_hi - sb) as nat)) * pow10((28 - s_hi) as nat)
        == b.mantissa_spec() * pow10((28 - sb) as nat)) by (nonlinear_arith)
        requires
            pow10((s_hi - sb) as nat) * pow10((28 - s_hi) as nat) == pow10((28 - sb) as nat),
    ;
    assert(r.val28() == (spec_at_scale(a.mantissa_spec(), sa, s_hi) + spec_at_scale(
        b.mantissa_spec(),
        sb,
        s_hi,
    )) * pow10((28 - s_hi) as nat));
    assert((spec_at_scale(a.mantissa_spec(), sa, s_hi) + spec_at_scale(b.mantissa_spec(), sb, s_hi))
        * pow10((28 - s_hi) as nat) == spec_at_scale(a.mantissa_spec(), sa, s_hi) * pow10(
        (28 - s_hi) as nat,
    ) + spec_at_scale(b.mantissa_spec(), sb, s_hi) * pow10((28 - s_hi) as nat)) by (nonlinear_arith);
}

/// When the aligned sum fits, the exact path of `spec_add_m` applies.
proof fn lemma_add_fits_implies_exact(a: Decimal, b: Decimal, s_hi: nat)
    requires
        a.inv(),
        b.inv(),
        s_hi == max_nat(a.scale_spec(), b.scale_spec()),
        add_fits(a, b),
    ensures
        abs_int(spec_at_scale(a.mantissa_spec(), a.scale_spec(), s_hi)) <= TWO_MANT as int,
        abs_int(spec_at_scale(b.mantissa_spec(), b.scale_spec(), s_hi)) <= TWO_MANT as int,
{
    let c1 = spec_at_scale(a.mantissa_spec(), a.scale_spec(), s_hi);
    let c2 = spec_at_scale(b.mantissa_spec(), b.scale_spec(), s_hi);
    if a.scale_spec() >= b.scale_spec() {
        assert(pow10(0) == 1);
        assert(c1 == a.mantissa_spec());
        assert(abs_int(c2) <= abs_int(c1 + c2) + abs_int(c1));
    } else {
        assert(pow10(0) == 1);
        assert(c2 == b.mantissa_spec());
        assert(abs_int(c1) <= abs_int(c1 + c2) + abs_int(c2));
    }
}

/// After truncating both operands to the smaller scale, the magnitude of the
/// sum stays below the reduction bound.
proof fn lemma_add_fallback_bound(a: Decimal, b: Decimal, s_lo: nat)
    requires
        a.inv(),
        b.inv(),
        add_ok(a, b),
        s_lo == min_nat(a.scale_spec(), b.scale_spec()),
    ensures
        abs_int(
            spec_at_scale(a.mantissa_spec(), a.scale_spec(), s_lo) + spec_at_scale(
                b.mantissa_spec(),
                b.scale_spec(),
                s_lo,
            ),
        ) < (MANT_LIM as int) * pow10(s_lo),
{
    let d1 = spec_at_scale(a.mantissa_spec(), a.scale_spec(), s_lo);
    let d2 = spec_at_scale(b.mantissa_spec(), b.scale_spec(), s_lo);
    lemma_at_scale_val_bound(a, s_lo);
    lemma_at_scale_val_bound(b, s_lo);
    lemma_pow10_add(s_lo, (28 - s_lo) as nat);
    lemma_pow10_pos((28 - s_lo) as nat);
    assert(abs_int(d1 + d2) * pow10((28 - s_lo) as nat) <= abs_int(d1) * pow10((28 - s_lo) as nat)
        + abs_int(d2) * pow10((28 - s_lo) as nat)) by (nonlinear_arith)
        requires
            pow10((28 - s_lo) as nat) >= 1,
    ;
    assert(abs_int(d1 + d2) * pow10((28 - s_lo) as nat) < (MANT_LIM as int) * pow10(28));
    assert((MANT_LIM as int) * pow10(28) == ((MANT_LIM as int) * pow10(s_lo)) * pow10(
        (28 - s_lo) as nat,
    )) by (nonlinear_arith)
        requires
            pow10(s_lo) * pow10((28 - s_lo) as nat) == pow10(28),
    ;
    assert(abs_int(d1 + d2) < (MANT_LIM as int) * pow10(s_lo)) by (nonlinear_arith)
        requires
            abs_int(d1 + d2) * pow10((28 - s_lo) as nat) < ((MANT_LIM as int) * pow10(s_lo))
                * pow10((28 - s_lo) as nat),
            pow10((28 - s_lo) as nat) >= 1,
    ;
}

/// Truncating a mantissa to a coarser scale does not increase the value
/// magnitude on the common grid.
proof fn lemma_at_scale_val_bound(a: Decimal, s_lo: nat)
    requires
        a.inv(),
        s_lo <= a.scale_spec(),
    ensures
        abs_int(spec_at_scale(a.mantissa_spec(), a.scale_spec(), s_lo)) * pow10((28 - s_lo) as nat)
            <= abs_int(a.val28()),
{
    let sa = a.scale_spec();
    let k = (sa - s_lo) as nat;
    let mag = abs_int(a.mantissa_spec());
    let t = mag / pow10(k);
    lemma_pow10_pos(k);
    vstd::arithmetic::div_mod::lemma_fundamental_div_mod(mag, pow10(k));
    assert(t * pow10(k) <= mag) by (nonlinear_arith)
        requires
            mag == pow10(k) * t + mag % pow10(k),
            mag % pow10(k) >= 0,
    ;
    assert(pow10(0) == 1);
    assert(mag / pow10(k) >= 0) by (nonlinear_arith)
        requires
            mag >= 0,
            pow10(k) >= 1,
    ;
    if s_lo == sa {
        assert(spec_at_scale(a.mantissa_spec(), sa, s_lo) == a.mantissa_spec() * pow10(0));
        assert(a.mantissa_spec() * pow10(0) == a.mantissa_spec()) by (nonlinear_arith)
            requires
                pow10(0) == 1,
        ;
        assert(t == mag / 1);
        assert(mag / 1 == mag) by (nonlinear_arith);
    } else {
        assert(spec_at_scale(a.mantissa_spec(), sa, s_lo) == sgn_apply(
            a.mantissa_spec() < 0,
            mag / pow10(k),
        ));
    }
    assert(abs_int(spec_at_scale(a.mantissa_spec(), sa, s_lo)) == t);
    lemma_pow10_add(k, (28 - sa) as nat);
    lemma_pow10_pos((28 - sa) as nat);
    assert(abs_int(a.val28()) == mag * pow10((28 - sa) as nat)) by (nonlinear_arith)
        requires
            a.val28() == a.mantissa_spec() * pow10((28 - sa) as nat),
            mag == abs_int(a.mantissa_spec()),
            pow10((28 - sa) as nat) >= 1,
    ;
    assert(t * pow10((28 - s_lo) as nat) == (t * pow10(k)) * pow10((28 - sa) as nat))
        by (nonlinear_arith)
        requires
            pow10(k) * pow10((28 - sa) as nat) == pow10((28 - s_lo) as nat),
    ;
    assert((t * pow10(k)) * pow10((28 - sa) as nat) <= mag * pow10((28 - sa) as nat))
        by (nonlinear_arith)
        requires
            t * pow10(k) <= mag,
            pow10((28 - sa) as nat) >= 1,
    ;
}

/// A zero magnitude never keeps a negative sign.
proof fn lemma_sgn_zero(w: int, mag_r: int)
    requires
        mag_r >= 0,
    ensures
        sgn_apply(w < 0 && mag_r > 0, mag_r) == sgn_apply(w < 0, mag_r),
{
}

impl Decimal {
    /// Subtracts a decimal by adding its negation.
    pub fn sub(&self, rhs: &Decimal) -> (r: Decimal)
        requires
            add_ok(*self, *rhs),
        ensures
            r.inv(),
            r.model() == spec_add_m(self.model(), (-rhs.mantissa_spec(), rhs.scale_spec())),
            abs_int(r.val28()) <= abs_int(self.val28()) + abs_int(rhs.val28()),
    {
        proof {
            use_type_invariant(rhs);
        }
        let nb = rhs.neg();
        proof {
            assert(abs_int(nb.val28()) == abs_int(rhs.val28()));
        }
        self.add(&nb)
    }
}

/// The mantissa product stays computable in 128-bit arithmetic.
pub open spec fn mul_in_range(a: Decimal, b: Decimal) -> bool {
    abs_int(a.mantissa_spec() * b.mantissa_spec()) < pow10(38)
}

/// The product value is representable after scale reduction.
pub open spec fn mul_fits_val(a: Decimal, b: Decimal) -> bool {
    abs_int(a.mantissa_spec() * b.mantissa_spec()) < (MANT_LIM as int) * pow10(
        a.scale_spec() + b.scale_spec(),
    )
}

/// The product is exact: the mantissa product and scale sum both fit.
pub open spec fn mul_exact(a: Decimal, b: Decimal) -> bool {
    &&& a.scale_spec() + b.scale_spec() <= 28
    &&& abs_int(a.mantissa_spec() * b.mantissa_spec()) < MANT_LIM as int
}

/// The model of the product: multiply mantissas, add scales, then reduce.
pub open spec fn spec_mul_m(am: (int, nat), bm: (int, nat)) -> (int, nat) {
    let p = abs_int(am.0 * bm.0);
    let (mag, s) = spec_reduce(p, am.1 + bm.1);
    (sgn_apply(am.0 * bm.0 < 0, mag), s)
}

impl Decimal {
    /// Multiplies two decimals.  Exact whenever the mantissa product and the
    /// scale sum fit the representation; otherwise trailing digits are cut.
    pub fn mul(&self, rhs: &Decimal) -> (r: Decimal)
        requires
            mul_in_range(*self, *rhs),
            mul_fits_val(*self, *rhs),
        ensures
            r.inv(),
            r.model() == spec_mul_m(self.model(), rhs.model()),
            mul_exact(*self, *rhs) ==> r.model() == (
                self.mantissa_spec() * rhs.mantissa_spec(),
                (self.scale_spec() + rhs.scale_spec()) as nat,
            ),
            mul_exact(*self, *rhs) ==> r.val28() * pow10(28) == self.val28() * rhs.val28(),
            abs_int(r.val28()) * pow10(28) <= abs_int(self.val28()) * abs_int(rhs.val28()),
    {
        let (neg_a, mag_a, s_a) = self.parts();
        let (neg_b, mag_b, s_b) = rhs.parts();
        let ghost am = self.model();
        let ghost bm = rhs.model();
        proof {
            lemma_pow10_constants();
            assert(mag_a as int * mag_b as int == abs_int(am.0 * bm.0)) by (nonlinear_arith)
                requires
                    mag_a as int == abs_int(am.0),
                    mag_b as int == abs_int(bm.0),
            ;
            assert(pow10(38) <= u128::MAX as int) by {
                reveal_with_fuel(pow10, 40);
            }
        }
        let p = match mag_a.checked_mul(mag_b) {
            Some(p) => p,
            None => {
                proof {
                    assert(false);
                }
                0
            },
        };
        let s_sum = s_a + s_b;
        let (mag_r, s_r) = reduce_exec(p, s_sum);
        let neg_r = (neg_a != neg_b) && mag_r > 0;
        let m_r = signed_from(neg_r, mag_r);
        let r = Decimal::from_parts(m_r, s_r);
        proof {
            assert((am.0 * bm.0 < 0) == ((am.0 < 0) != (bm.0 < 0) && am.0 != 0 && bm.0 != 0))
                by (nonlinear_arith);
            if am.0 == 0 || bm.0 == 0 {
                assert(mag_a == 0 || mag_b == 0);
                assert(p as int == 0) by (nonlinear_arith)
                    requires
                        p as int == mag_a as int * mag_b as int,
                        mag_a == 0 || mag_b == 0,
                ;
                lemma_reduce_zero(s_sum as nat);
                assert(mag_r == 0);
            }
            assert(m_r as int == sgn_apply(am.0 * bm.0 < 0, mag_r as int));
            lemma_reduce_props(p as int, s_sum as nat);
            lemma_pow10_add((s_sum - s_r) as nat, (56 - s_sum) as nat);
            lemma_pow10_add((28 - s_a) as nat, (28 - s_b) as nat);
            lemma_pow10_pos((56 - s_sum) as nat);
            lemma_pow10_pos((28 - s_r) as nat);
            lemma_pow10_pos((28 - s_a) as nat);
            lemma_pow10_pos((28 - s_b) as nat);
            lemma_pow10_pos((s_sum - s_r) as nat);
            assert(abs_int(r.val28()) == mag_r as int * pow10((28 - s_r) as nat))
                by (nonlinear_arith)
                requires
                    r.val28() == r.mantissa_spec() * pow10((28 - s_r) as nat),
                    r.mantissa_spec() == sgn_apply(am.0 * bm.0 < 0, mag_r as int),
                    mag_r >= 0,
                    pow10((28 - s_r) as nat) >= 1,
            ;
            lemma_pow10_add((28 - s_r) as nat, 28);
            assert(abs_int(r.val28()) * pow10(28) <= (p as int) * pow10((56 - s_sum) as nat))
                by (nonlinear_arith)
                requires
                    abs_int(r.val28()) == mag_r as int * pow10((28 - s_r) as nat),
                    mag_r as int * pow10((s_sum - s_r) as nat) <= p as int,
                    pow10((28 - s_r) as nat) * pow10(28) == pow10((56 - s_r) as nat),
                    pow10((s_sum - s_r) as nat) * pow10((56 - s_sum) as nat) == pow10(
                        (56 - s_r) as nat,
                    ),
                    pow10((56 - s_sum) as nat) >= 1,
                    mag_r >= 0,
            ;
            assert((p as int) * pow10((56 - s_sum) as nat) == abs_int(self.val28()) * abs_int(
                rhs.val28(),
            )) by (nonlinear_arith)
                requires
                    p as int == abs_int(am.0 * bm.0),
                    self.val28() == am.0 * pow10((28 - s_a) as nat),
                    rhs.val28() == bm.0 * pow10((28 - s_b) as nat),
                    pow10((28 - s_a) as nat) * pow10((28 - s_b) as nat) == pow10(
                        (56 - s_sum) as nat,
                    ),
                    pow10((28 - s_a) as nat) >= 1,
                    pow10((28 - s_b) as nat) >= 1,
                    am.1 == s_a as nat && bm.1 == s_b as nat,
            ;
            if mul_exact(*self, *rhs) {
                assert(spec_reduce(p as int, s_sum as nat) == (p as int, s_sum as nat));
                assert(m_r as int == am.0 * bm.0) by (nonlinear_arith)
                    requires
                        m_r as int == sgn_apply(am.0 * bm.0 < 0, p as int),
                        p as int == abs_int(am.0 * bm.0),
                ;
                lemma_val28_mul(*self, *rhs, r);
            }
        }
        r
    }
}

/// Reducing a zero magnitude yields zero.
proof fn lemma_reduce_zero(s: nat)
    ensures
        spec_reduce(0, s).0 == 0,
    decreases s,
{
    if s > 28 {
        lemma_reduce_zero((s - 1) as nat);
    }
}

/// In the exact case the product relation holds on the common grid.
proof fn lemma_val28_mul(a: Decimal, b: Decimal, r: Decimal)
    requires
        a.inv(),
        b.inv(),
        r.inv(),
        mul_exact(a, b),
        r.mantissa_spec() == a.mantissa_spec() * b.mantissa_spec(),
        r.scale_spec() == a.scale_spec() + b.scale_spec(),
    ensures
        r.val28() * pow10(28) == a.val28() * b.val28(),
{
    let sa = a.scale_spec();
    let sb = b.scale_spec();
    let ma = a.mantissa_spec();
    let mb = b.mantissa_spec();
    lemma_pow10_add((28 - sa) as nat, (28 - sb) as nat);
    lemma_pow10_add((28 - sa - sb) as nat, 28);
    assert((56 - sa - sb) as nat == ((28 - sa) + (28 - sb)) as nat);
    assert(r.val28() * pow10(28) == (ma * mb) * pow10((56 - sa - sb) as nat)) by (nonlinear_arith)
        requires
            r.val28() == (ma * mb) * pow10((28 - sa - sb) as nat),
            pow10((28 - sa - sb) as nat) * pow10(28) == pow10((56 - sa - sb) as nat),
    ;
    assert(a.val28() * b.val28() == (ma * mb) * pow10((56 - sa - sb) as nat)) by (nonlinear_arith)
        requires
            a.val28() == ma * pow10((28 - sa) as nat),
            b.val28() == mb * pow10((28 - sb) as nat),
            pow10((28 - sa) as nat) * pow10((28 - sb) as nat) == pow10((56 - sa - sb) as nat),
    ;
}

/// One digit of long division at a time: appends decimal digits of `n / d`
/// to the accumulator until the remainder clears, the digit budget `fcap` is
/// spent, or the accumulator reaches the precision cap.
pub open spec fn div_step(d: int, m: int, rem: int, f: int, fcap: int) -> (int, int, int)
    decreases fcap - f,
{
    if f >= fcap || rem == 0 || m >= DIGIT_CAP as int {
        (m, rem, f)
    } else {
        div_step(d, m * 10 + (rem * 10) / d, (rem * 10) % d, f + 1, fcap)
    }
}

/// The quotient magnitude is below the representable limit.
pub open spec fn div_fits(a: Decimal, b: Decimal) -> bool {
    abs_int(a.mantissa_spec()) * pow10(b.scale_spec()) < abs_int(b.mantissa_spec()) * pow10(
        (a.scale_spec() + 28) as nat,
    )
}

/// The model of the quotient: integer part plus generated decimal digits,
/// truncated toward zero, with the scale adjusted by the operand scales.
pub open spec fn spec_div_m(am: (int, nat), bm: (int, nat)) -> (int, nat) {
    let n = abs_int(am.0);
    let d = abs_int(bm.0);
    let e = bm.1 as int - am.1 as int;
    let fcap = 28 + e;
    let (m, rem, f) = div_step(d, n / d, n % d, 0, fcap);
    let t = f - e;
    let neg = (am.0 < 0) != (bm.0 < 0);
    if t >= 0 {
        (sgn_apply(neg, m), t as nat)
    } else {
        (sgn_apply(neg, m * pow10((-t) as nat)), 0nat)
    }
}

impl Decimal {
    /// Divides by a nonzero decimal, truncating beyond 28 significant digits.
    pub fn div(&self, rhs: &Decimal) -> (r: Decimal)
        requires
            rhs.mantissa_spec() != 0,
            div_fits(*self, *rhs),
        ensures
            r.inv(),
            r.model() == spec_div_m(self.model(), rhs.model()),
            abs_int(r.val28()) * abs_int(rhs.val28()) <= abs_int(self.val28()) * pow10(28),
    {
        let (neg_a, n, s_a) = self.parts();
        let (neg_b, d, s_b) = rhs.parts();
        let neg = neg_a != neg_b;
        let e: i64 = s_b as i64 - s_a as i64;
        let fcap: i64 = 28 + e;
        let ghost am = self.model();
        let ghost bm = rhs.model();
        proof {
            lemma_pow10_constants();
            assert(d >= 1);
        }
        let q0 = n / d;
        let r0 = n % d;
        let ghost target = div_step(d as int, q0 as int, r0 as int, 0, fcap as int);
        let mut m: u128 = q0;
        let mut rem: u128 = r0;
        let mut f: i64 = 0;
        proof {
            vstd::arithmetic::div_mod::lemma_fundamental_div_mod(n as int, d as int);
            assert(pow10(0) == 1);
            assert(q0 as int * (d as int) + r0 as int == n as int * pow10(0)) by (nonlinear_arith)
                requires
                    n as int == d as int * (q0 as int) + r0 as int,
                    pow10(0) == 1,
            ;
        }
        while rem != 0 && f < fcap && m < DIGIT_CAP
            invariant
                1 <= d < MANT_LIM,
                rem < d,
                m < MANT_LIM,
                0 <= f <= fcap <= 56,
                m as int * d as int + rem as int == n as int * pow10(f as nat),
                div_step(d as int, m as int, rem as int, f as int, fcap as int) == target,
                n < MANT_LIM,
            decreases fcap - f,
        {
            let ghost m_old = m as int;
            let ghost rem_old = rem as int;
            let ghost f_old = f as int;
            let rem10 = rem * 10;
            let dig = rem10 / d;
            proof {
                vstd::arithmetic::div_mod::lemma_fundamental_div_mod(rem10 as int, d as int);
                assert(dig <= 9) by (nonlinear_arith)
                    requires
                        rem10 as int == d as int * (dig as int) + (rem10 as int) % (d as int),
                        (rem10 as int) % (d as int) >= 0,
                        rem10 as int <= 10 * (d as int) - 10,
                        d >= 1,
                ;
            }
            rem = rem10 % d;
            m = m * 10 + dig;
            f = f + 1;
            proof {
                assert(pow10(f as nat) == 10 * pow10(f_old as nat));
                assert(m as int * d as int + rem as int == n as int * pow10(f as nat))
                    by (nonlinear_arith)
                    requires
                        m_old * (d as int) + rem_old == (n as int) * pow10(f_old as nat),
                        m as int == m_old * 10 + dig as int,
                        rem10 as int == rem_old * 10,
                        rem10 as int == d as int * (dig as int) + rem as int,
                        pow10(f as nat) == 10 * pow10(f_old as nat),
                ;
                assert(div_step(d as int, m_old, rem_old, f_old, fcap as int) == div_step(
                    d as int,
                    m as int,
                    rem as int,
                    f as int,
                    fcap as int,
                ));
            }
        }
        proof {
            assert(div_step(d as int, m as int, rem as int, f as int, fcap as int) == (
                m as int,
                rem as int,
                f as int,
            ));
        }
        let t: i64 = f - e;
        if t >= 0 {
            let mr = signed_from(neg && m > 0, m);
            let r = Decimal::from_parts(mr, t as u32);
            proof {
                assert(mr as int == sgn_apply(neg, m as int));
                lemma_pow10_pos((28 - t) as nat);
                lemma_pow10_pos((28 - s_b) as nat);
                lemma_pow10_pos((28 - s_a) as nat);
                lemma_pow10_pos(f as nat);
                assert(abs_int(r.val28()) == m as int * pow10((28 - t) as nat))
                    by (nonlinear_arith)
                    requires
                        r.val28() == r.mantissa_spec() * pow10((28 - t) as nat),
                        r.mantissa_spec() == sgn_apply(neg, m as int),
                        m >= 0,
                        pow10((28 - t) as nat) >= 1,
                ;
                assert(abs_int(rhs.val28()) == d as int * pow10((28 - s_b) as nat))
                    by (nonlinear_arith)
                    requires
                        rhs.val28() == bm.0 * pow10((28 - s_b) as nat),
                        d as int == abs_int(bm.0),
                        pow10((28 - s_b) as nat) >= 1,
                        bm.1 == s_b as nat,
                ;
                assert(abs_int(self.val28()) == n as int * pow10((28 - s_a) as nat))
                    by (nonlinear_arith)
                    requires
                        self.val28() == am.0 * pow10((28 - s_a) as nat),
                        n as int == abs_int(am.0),
                        pow10((28 - s_a) as nat) >= 1,
                        am.1 == s_a as nat,
                ;
                lemma_pow10_add((28 - t) as nat, (28 - s_b) as nat);
                lemma_pow10_add(f as nat, (56 - f - s_a) as nat);
                lemma_pow10_add((28 - s_a) as nat, 28);
                lemma_pow10_pos((56 - f - s_a) as nat);
                lemma_pow10_pos((28 - t) as nat);
                assert((56 - t - s_b) as nat == (56 - f - s_a) as nat);
                assert(abs_int(r.val28()) * abs_int(rhs.val28()) <= (n as int) * pow10(
                    (56 - s_a) as nat,
                )) by (nonlinear_arith)
                    requires
                        abs_int(r.val28()) == m as int * pow10((28 - t) as nat),
                        abs_int(rhs.val28()) == d as int * pow10((28 - s_b) as nat),
                        m as int * (d as int) + rem as int == n as int * pow10(f as nat),
                        rem >= 0,
                        pow10((28 - t) as nat) * pow10((28 - s_b) as nat) == pow10(
                            (56 - f - s_a) as nat,
                        ),
                        pow10(f as nat) * pow10((56 - f - s_a) as nat) == pow10((56 - s_a) as nat),
                        pow10((56 - f - s_a) as nat) >= 1,
                        m >= 0,
                        d >= 1,
                ;
                assert((n as int) * pow10((56 - s_a) as nat) == abs_int(self.val28()) * pow10(28))
                    by (nonlinear_arith)
                    requires
                        abs_int(self.val28()) == n as int * pow10((28 - s_a) as nat),
                        pow10((28 - s_a) as nat) * pow10(28) == pow10((56 - s_a) as nat),
                ;
            }
            r
        } else {
            let k = (-t) as u32;
            proof {
                assert(f >= 0 && f - e < 0);
                assert(s_b > s_a);
                lemma_pow10_add((s_b - s_a) as nat, s_a as nat);
                assert(pow10(((s_b - s_a) + s_a) as nat) == pow10(s_b as nat));
                assert((n as int) * pow10(s_b as nat) == ((n as int) * pow10((s_b - s_a) as nat))
                    * pow10(s_a as nat)) by (nonlinear_arith)
                    requires
                        pow10(s_b as nat) == pow10((s_b - s_a) as nat) * pow10(s_a as nat),
                ;
                lemma_pow10_add(28nat, s_a as nat);
                assert((d as int) * pow10((s_a + 28) as nat) == ((d as int) * pow10(28)) * pow10(
                    s_a as nat,
                )) by (nonlinear_arith)
                    requires
                        pow10((s_a + 28) as nat) == pow10(28) * pow10(s_a as nat),
                ;
                lemma_pow10_pos(s_a as nat);
                assert((n as int) * pow10((s_b - s_a) as nat) < (d as int) * pow10(28))
                    by (nonlinear_arith)
                    requires
                        ((n as int) * pow10((s_b - s_a) as nat)) * pow10(s_a as nat) < ((d as int)
                            * pow10(28)) * pow10(s_a as nat),
                        pow10(s_a as nat) >= 1,
                ;
                lemma_pow10_add(f as nat, k as nat);
                lemma_pow10_pos(k as nat);
                lemma_pow10_pos(f as nat);
                assert((m as int * pow10(k as nat)) * (d as int) < (d as int) * pow10(28))
                    by (nonlinear_arith)
                    requires
                        m as int * d as int + rem as int == n as int * pow10(f as nat),
                        rem >= 0,
                        pow10(f as nat) * pow10(k as nat) == pow10((s_b - s_a) as nat),
                        (n as int) * pow10((s_b - s_a) as nat) < (d as int) * pow10(28),
                        pow10(k as nat) >= 1,
                ;
                lemma_pow10_pos(k as nat);
                assert(m as int * pow10(k as nat) < pow10(28)) by (nonlinear_arith)
                    requires
                        (m as int * pow10(k as nat)) * (d as int) < (d as int) * pow10(28),
                        d >= 1,
                        m >= 0,
                        pow10(k as nat) >= 1,
                ;
            }
            let pk = pow10_u128(k);
            let mag2 = m * pk;
            let mr = signed_from(neg && mag2 > 0, mag2);
            let r = Decimal::from_parts(mr, 0);
            proof {
                assert(mag2 == 0 ==> m as int * pow10(k as nat) == 0);
                assert(mr as int == sgn_apply(neg, m as int * pow10(k as nat)));
                lemma_pow10_pos((28 - s_b) as nat);
                lemma_pow10_pos((28 - s_a) as nat);
                assert(abs_int(r.val28()) == mag2 as int * pow10(28)) by (nonlinear_arith)
                    requires
                        r.val28() == r.mantissa_spec() * pow10(28),
                        r.mantissa_spec() == sgn_apply(neg, mag2 as int),
                        mag2 >= 0,
                        pow10(28) >= 1,
                ;
                assert(abs_int(rhs.val28()) == d as int * pow10((28 - s_b) as nat))
                    by (nonlinear_arith)
                    requires
                        rhs.val28() == bm.0 * pow10((28 - s_b) as nat),
                        d as int == abs_int(bm.0),
                        pow10((28 - s_b) as nat) >= 1,
                        bm.1 == s_b as nat,
                ;
                assert(abs_int(self.val28()) == n as int * pow10((28 - s_a) as nat))
                    by (nonlinear_arith)
                    requires
                        self.val28() == am.0 * pow10((28 - s_a) as nat),
                        n as int == abs_int(am.0),
                        pow10((28 - s_a) as nat) >= 1,
                        am.1 == s_a as nat,
                ;
                assert(mag2 as int * (d as int) <= (n as int) * pow10((s_b - s_a) as nat))
                    by (nonlinear_arith)
                    requires
                        m as int * (d as int) + rem as int == n as int * pow10(f as nat),
                        rem >= 0,
                        mag2 as int == m as int * pow10(k as nat),
                        pow10(f as nat) * pow10(k as nat) == pow10((s_b - s_a) as nat),
                        pow10(k as nat) >= 1,
                        m >= 0,
                        d >= 1,
                ;
                lemma_pow10_add(28, (28 - s_b) as nat);
                lemma_pow10_add((s_b - s_a) as nat, (56 - s_b) as nat);
                lemma_pow10_add((28 - s_a) as nat, 28);
                lemma_pow10_pos((56 - s_b) as nat);
                assert(abs_int(r.val28()) * abs_int(rhs.val28()) <= (n as int) * pow10(
                    (56 - s_a) as nat,
                )) by (nonlinear_arith)
                    requires
                        abs_int(r.val28()) == mag2 as int * pow10(28),
                        abs_int(rhs.val28()) == d as int * pow10((28 - s_b) as nat),
                        mag2 as int * (d as int) <= (n as int) * pow10((s_b - s_a) as nat),
                        pow10(28) * pow10((28 - s_b) as nat) == pow10((56 - s_b) as nat),
                        pow10((s_b - s_a) as nat) * pow10((56 - s_b) as nat) == pow10(
                            (56 - s_a) as nat,
                        ),
                        pow10((56 - s_b) as nat) >= 1,
                        mag2 >= 0,
                        d >= 1,
                ;
                assert((n as int) * pow10((56 - s_a) as nat) == abs_int(self.val28()) * pow10(28))
                    by (nonlinear_arith)
                    requires
                        abs_int(self.val28()) == n as int * pow10((28 - s_a) as nat),
                        pow10((28 - s_a) as nat) * pow10(28) == pow10((56 - s_a) as nat),
                ;
            }
            r
        }
    }
}

/// The model of rounding half-away-from-zero to `dp` decimal places.
pub open spec fn spec_round_dp(md: (int, nat), dp: nat) -> (int, nat) {
    if md.1 <= dp {
        md
    } else {
        let k = (md.1 - dp) as nat;
        let mag = abs_int(md.0);
        let q = mag / pow10(k);
        let r = mag % pow10(k);
        let q2 = if 2 * r >= pow10(k) {
            q + 1
        } else {
            q
        };
        (sgn_apply(md.0 < 0, q2), dp)
    }
}

/// Strips trailing zero digits from a magnitude.
pub open spec fn strip_zeros(mag: int, s: nat) -> (int, nat)
    decreases s,
{
    if s == 0 || mag % 10 != 0 {
        (mag, s)
    } else {
        strip_zeros(mag / 10, (s - 1) as nat)
    }
}

/// The model of normalization: trailing zeros removed from the fraction.
pub open spec fn spec_normalize_m(md: (int, nat)) -> (int, nat) {
    let (mag, s) = strip_zeros(abs_int(md.0), md.1);
    (sgn_apply(md.0 < 0, mag), s)
}

/// Padding to `dp` places stays representable (rounding down never needs it).
pub open spec fn rescale_fits(d: Decimal, dp: nat) -> bool {
    d.scale_spec() >= dp || abs_int(d.mantissa_spec()) * pow10((dp - d.scale_spec()) as nat) < (
    MANT_LIM as int)
}

/// The model of rescaling: round down to fewer places, pad zeros to more.
pub open spec fn spec_rescale_m(md: (int, nat), dp: nat) -> (int, nat) {
    if md.1 >= dp {
        spec_round_dp(md, dp)
    } else {
        (md.0 * pow10((dp - md.1) as nat), dp)
    }
}

impl Decimal {
    /// Rounds to `dp` decimal places, half away from zero.  Values already at
    /// or below `dp` places are unchanged.
    pub fn round_dp_away(&self, dp: u32) -> (r: Decimal)
        ensures
            r.inv(),
            r.model() == spec_round_dp(self.model(), dp as nat),
    {
        let (neg, mag, s) = self.parts();
        if s <= dp {
            proof {
                use_type_invariant(self);
            }
            return *self;
        }
        let k = s - dp;
        let p = pow10_u128(k);
        let q = mag / p;
        let rem = mag % p;
        proof {
            lemma_pow10_constants();
            vstd::arithmetic::div_mod::lemma_fundamental_div_mod(mag as int, p as int);
            assert(pow10(k as nat) >= 10) by {
                lemma_pow10_mono(1nat, k as nat);
                reveal_with_fuel(pow10, 2);
            }
            assert(q < DIGIT_CAP as int) by (nonlinear_arith)
                requires
                    mag as int == p as int * (q as int) + rem as int,
                    rem >= 0,
                    p as int >= 10,
                    (mag as int) < MANT_LIM as int,
                    MANT_LIM as int == 10 * (DIGIT_CAP as int),
                    q >= 0,
            ;
        }
        let q2 = if rem >= p - rem {
            q + 1
        } else {
            q
        };
        proof {
            assert((rem >= p - rem) == (2 * (rem as int) >= p as int));
        }
        let m = signed_from(neg && q2 > 0, q2);
        let r = Decimal::from_parts(m, dp);
        proof {
            assert(m as int == sgn_apply(self.mantissa_spec() < 0, q2 as int));
        }
        r
    }

    /// Removes trailing zeros from the fractional part.
    pub fn normalize(&self) -> (r: Decimal)
        ensures
            r.inv(),
            r.model() == spec_normalize_m(self.model()),
            r.val28() == self.val28(),
    {
        let (neg, mag0, s0) = self.parts();
        let mut mag = mag0;
        let mut s = s0;
        while s > 0 && mag % 10 == 0
            invariant
                mag <= mag0 < MANT_LIM,
                s <= s0 <= 28,
                strip_zeros(mag as int, s as nat) == strip_zeros(mag0 as int, s0 as nat),
                mag as int * pow10((28 - s) as nat) == mag0 as int * pow10((28 - s0) as nat),
            decreases s,
        {
            let ghost mag_old = mag as int;
            let ghost s_old = s as nat;
            proof {
                vstd::arithmetic::div_mod::lemma_fundamental_div_mod(mag as int, 10);
                assert(pow10((28 - (s - 1)) as nat) == 10 * pow10((28 - s) as nat));
            }
            mag = mag / 10;
            s = s - 1;
            proof {
                assert(mag as int * 10 == mag_old) by (nonlinear_arith)
                    requires
                        mag_old == 10 * (mag as int) + mag_old % 10,
                        mag_old % 10 == 0,
                ;
                assert(mag as int * pow10((28 - s) as nat) == mag_old * pow10(
                    (28 - s_old) as nat,
                )) by (nonlinear_arith)
                    requires
                        mag as int * 10 == mag_old,
                        pow10((28 - s) as nat) == 10 * pow10((28 - s_old) as nat),
                ;
            }
        }
        let m = signed_from(neg && mag > 0, mag);
        let r = Decimal::from_parts(m, s);
        proof {
            assert(m as int == sgn_apply(self.mantissa_spec() < 0, mag as int));
            assert(r.val28() == self.val28()) by (nonlinear_arith)
                requires
                    mag as int * pow10((28 - s) as nat) == mag0 as int * pow10((28 - s0) as nat),
                    m as int == sgn_apply(self.mantissa_spec() < 0, mag as int),
                    mag0 as int == abs_int(self.mantissa_spec()),
                    r.val28() == (m as int) * pow10((28 - s) as nat),
                    self.val28() == self.mantissa_spec() * pow10((28 - s0) as nat),
                    r.mantissa_spec() == m as int,
                    r.scale_spec() == s as nat,
            ;
        }
        r
    }

    /// Sets the number of decimal places, rounding half away from zero when
    /// places are dropped and padding zeros when places are added.
    pub fn rescale(&self, dp: u32) -> (r: Decimal)
        requires
            dp <= 28,
            rescale_fits(*self, dp as nat),
        ensures
            r.inv(),
            r.model() == spec_rescale_m(self.model(), dp as nat),
    {
        let (neg, mag, s) = self.parts();
        if s >= dp {
            self.round_dp_away(dp)
        } else {
            let p = pow10_u128(dp - s);
            proof {
                assert(mag as int * (p as int) < MANT_LIM as int);
            }
            let mag2 = mag * p;
            let m = signed_from(neg && mag2 > 0, mag2);
            let r = Decimal::from_parts(m, dp);
            proof {
                assert(m as int == sgn_apply(self.mantissa_spec() < 0, mag2 as int));
                assert(m as int == self.mantissa_spec() * pow10((dp - s) as nat))
                    by (nonlinear_arith)
                    requires
                        m as int == sgn_apply(self.mantissa_spec() < 0, mag2 as int),
                        mag2 as int == mag as int * (p as int),
                        mag as int == abs_int(self.mantissa_spec()),
                        p as int == pow10((dp - s) as nat),
                        p >= 1,
                ;
            }
            r
        }
    }
}

impl PartialEq for Decimal {
    /// Two decimals are equal when they denote the same number, regardless of
    /// how many trailing zeros either carries.
    fn eq(&self, other: &Decimal) -> (r: bool) {
        let (neg_a, mag_a, s_a) = self.parts();
        let (neg_b, mag_b, s_b) = other.parts();
        let s_hi: u32 = if s_a >= s_b {
            s_a
        } else {
            s_b
        };
        let p1 = pow10_u128(s_hi - s_a);
        let p2 = pow10_u128(s_hi - s_b);
        let c1 = mag_a.checked_mul(p1);
        let c2 = mag_b.checked_mul(p2);
        let ghost x = self.mantissa_spec() * pow10((s_hi - s_a) as nat);
        let ghost y = other.mantissa_spec() * pow10((s_hi - s_b) as nat);
        proof {
            lemma_eq_align(*self, *other, s_hi as nat);
        }
        match (c1, c2) {
            (Some(v1), Some(v2)) => {
                proof {
                    assert(x == sgn_apply(neg_a, v1 as int)) by (nonlinear_arith)
                        requires
                            x == self.mantissa_spec() * pow10((s_hi - s_a) as nat),
                            v1 as int == mag_a as int * (p1 as int),
                            p1 as int == pow10((s_hi - s_a) as nat),
                            mag_a as int == abs_int(self.mantissa_spec()),
                            neg_a == (self.mantissa_spec() < 0),
                    ;
                    assert(y == sgn_apply(neg_b, v2 as int)) by (nonlinear_arith)
                        requires
                            y == other.mantissa_spec() * pow10((s_hi - s_b) as nat),
                            v2 as int == mag_b as int * (p2 as int),
                            p2 as int == pow10((s_hi - s_b) as nat),
                            mag_b as int == abs_int(other.mantissa_spec()),
                            neg_b == (other.mantissa_spec() < 0),
                    ;
                    assert((x == y) == (v1 == v2 && (neg_a == neg_b || v1 == 0)));
                }
                v1 == v2 && (neg_a == neg_b || v1 == 0)
            },
            _ => {
                proof {
                    lemma_pow10_constants();
                    assert(pow10(0) == 1);
                    if c1 is None {
                        assert(s_hi as nat == s_b as nat && p2 == 1);
                        assert(mag_a as int * (p1 as int) > u128::MAX as int);
                        assert(abs_int(x) > u128::MAX as int) by (nonlinear_arith)
                            requires
                                x == self.mantissa_spec() * pow10((s_hi - s_a) as nat),
                                mag_a as int == abs_int(self.mantissa_spec()),
                                p1 as int == pow10((s_hi - s_a) as nat),
                                mag_a as int * (p1 as int) > u128::MAX as int,
                                p1 >= 1,
                        ;
                        assert(abs_int(y) < MANT_LIM as int) by (nonlinear_arith)
                            requires
                                y == other.mantissa_spec() * pow10((s_hi - s_b) as nat),
                                pow10((s_hi - s_b) as nat) == 1,
                                -(MANT_LIM as int) < other.mantissa_spec() < MANT_LIM as int,
                        ;
                        assert(x != y);
                    } else {
                        assert(c2 is None);
                        assert(s_hi as nat == s_a as nat && p1 == 1);
                        assert(mag_b as int * (p2 as int) > u128::MAX as int);
                        assert(abs_int(y) > u128::MAX as int) by (nonlinear_arith)
                            requires
                                y == other.mantissa_spec() * pow10((s_hi - s_b) as nat),
                                mag_b as int == abs_int(other.mantissa_spec()),
                                p2 as int == pow10((s_hi - s_b) as nat),
                                mag_b as int * (p2 as int) > u128::MAX as int,
                                p2 >= 1,
                        ;
                        assert(abs_int(x) < MANT_LIM as int) by (nonlinear_arith)
                            requires
                                x == self.mantissa_spec() * pow10((s_hi - s_a) as nat),
                                pow10((s_hi - s_a) as nat) == 1,
                                -(MANT_LIM as int) < self.mantissa_spec() < MANT_LIM as int,
                        ;
                        assert(x != y);
                    }
                }
                false
            },
        }
    }
}

/// Value equality is alignment at the larger scale.
proof fn lemma_eq_align(a: Decimal, b: Decimal, s_hi: nat)
    requires
        a.inv(),
        b.inv(),
        s_hi == max_nat(a.scale_spec(), b.scale_spec()),
    ensures
        (a.val28() == b.val28()) == (a.mantissa_spec() * pow10((s_hi - a.scale_spec()) as nat)
            == b.mantissa_spec() * pow10((s_hi - b.scale_spec()) as nat)),
{
    let sa = a.scale_spec();
    let sb = b.scale_spec();
    let x = a.mantissa_spec() * pow10((s_hi - sa) as nat);
    let y = b.mantissa_spec() * pow10((s_hi - sb) as nat);
    lemma_pow10_add((s_hi - sa) as nat, (28 - s_hi) as nat);
    lemma_pow10_add((s_hi - sb) as nat, (28 - s_hi) as nat);
    lemma_pow10_pos((28 - s_hi) as nat);
    assert(a.val28() == x * pow10((28 - s_hi) as nat)) by (nonlinear_arith)
        requires
            a.val28() == a.mantissa_spec() * pow10((28 - sa) as nat),
            x == a.mantissa_spec() * pow10((s_hi - sa) as nat),
            pow10((s_hi - sa) as nat) * pow10((28 - s_hi) as nat) == pow10((28 - sa) as nat),
    ;
    assert(b.val28() == y * pow10((28 - s_hi) as nat)) by (nonlinear_arith)
        requires
            b.val28() == b.mantissa_spec() * pow10((28 - sb) as nat),
            y == b.mantissa_spec() * pow10((s_hi - sb) as nat),
            pow10((s_hi - sb) as nat) * pow10((28 - s_hi) as nat) == pow10((28 - sb) as nat),
    ;
    assert((x * pow10((28 - s_hi) as nat) == y * pow10((28 - s_hi) as nat)) == (x == y))
        by (nonlinear_arith)
        requires
            pow10((28 - s_hi) as nat) >= 1,
    ;
}

impl vstd::std_specs::cmp::PartialEqSpecImpl for Decimal {
    open spec fn obeys_eq_spec() -> bool {
        true
    }

    open spec fn eq_spec(&self, other: &Decimal) -> bool {
        self.val28() == other.val28()
    }
}

/// The value of a model pair on the common grid.
pub open spec fn val28_m(md: (int, nat)) -> int {
    md.0 * pow10((28 - md.1) as nat)
}

/// Dividing an exact product by its own factor recovers the other factor:
/// the quotient digits terminate immediately and the scales cancel.
pub proof fn lemma_div_of_product(a: int, sa: nat, r: int, sr: nat)
    requires
        r != 0,
        -(MANT_LIM as int) < a * r < MANT_LIM as int,
        -(MANT_LIM as int) < a < MANT_LIM as int,
        -(MANT_LIM as int) < r < MANT_LIM as int,
        sa <= 28,
        sr <= 28,
        sa + sr <= 28,
    ensures
        spec_div_m((a * r, (sa + sr) as nat), (r, sr)) == (a, sa),
{
    lemma_pow10_constants();
    let n = abs_int(a * r);
    let d = abs_int(r);
    assert(d >= 1);
    assert(n == abs_int(a) * d) by (nonlinear_arith)
        requires
            n == abs_int(a * r),
            d == abs_int(r),
    ;
    vstd::arithmetic::div_mod::lemma_fundamental_div_mod_converse(n, d, abs_int(a), 0);
    assert(n / d == abs_int(a));
    assert(n % d == 0);
    let e = sr as int - (sa + sr) as int;
    assert(e == -(sa as int));
    let fcap = 28 + e;
    assert(div_step(d, n / d, n % d, 0, fcap) == (abs_int(a), 0int, 0int));
    let t = 0 - e;
    assert(t == sa as int);
    let neg = ((a * r < 0) != (r < 0));
    if a == 0 {
        assert(sgn_apply(neg, abs_int(a)) == a);
    } else {
        assert(neg == (a < 0)) by (nonlinear_arith)
            requires
                neg == ((a * r < 0) != (r < 0)),
                r != 0,
                a != 0,
        ;
        assert(sgn_apply(neg, abs_int(a)) == a);
    }
    assert(spec_div_m((a * r, (sa + sr) as nat), (r, sr)) == (a, sa));
}

/// A product whose mantissa and scale both fit is kept exactly.
pub proof fn lemma_mul_exact_model(am: (int, nat), bm: (int, nat))
    requires
        -(MANT_LIM as int) < am.0 * bm.0 < MANT_LIM as int,
        am.1 + bm.1 <= 28,
    ensures
        spec_mul_m(am, bm) == (am.0 * bm.0, (am.1 + bm.1) as nat),
{
    lemma_pow10_constants();
    let p = abs_int(am.0 * bm.0);
    assert(spec_reduce(p, (am.1 + bm.1) as nat) == (p, (am.1 + bm.1) as nat));
    assert(sgn_apply(am.0 * bm.0 < 0, p) == am.0 * bm.0);
}

} // verus!
