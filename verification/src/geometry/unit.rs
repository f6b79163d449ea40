//! A tagged physical-length scalar with six units, all defined by their
//! ratio to inches.  Arithmetic converts the right operand to the left
//! operand's unit, operates on the decimal values, and rounds away drift.

use vstd::prelude::*;
use crate::decimal::{
    abs_int, add_fits, add_ok, div_fits, mul_fits_val, mul_in_range, pow10, spec_add_m,
    spec_div_m, spec_mul_m, spec_normalize_m, spec_rescale_m, val28_m, Decimal, MANT_LIM,
};
use crate::decimal::{lemma_pow10_add, lemma_pow10_constants, lemma_pow10_mono, lemma_pow10_pos};
use crate::helpers::{round, spec_round_full};

verus! {

/// Default user space units.
#[derive(Debug, Clone, Copy)]
pub enum Unit {
    /// A centimeter.
    Cm(Decimal),
    /// A pixel, 1/96 of an inch.
    Pixel(Decimal),
    /// A point, 1/72 of an inch.
    Point(Decimal),
    /// An inch.
    Inch(Decimal),
    /// A mil, 1/1000 of an inch.
    Mil(Decimal),
    /// A millimeter.
    Mm(Decimal),
}

/// The decimal scalar inside a unit.
pub open spec fn dec_of(u: Unit) -> Decimal {
    match u {
        Unit::Cm(d) => d,
        Unit::Pixel(d) => d,
        Unit::Point(d) => d,
        Unit::Inch(d) => d,
        Unit::Mil(d) => d,
        Unit::Mm(d) => d,
    }
}

/// How many of this unit make an inch, as a decimal model.
pub open spec fn ratio_m(u: Unit) -> (int, nat) {
    match u {
        Unit::Cm(_) => (254, 2nat),
        Unit::Pixel(_) => (96, 0nat),
        Unit::Point(_) => (72, 0nat),
        Unit::Inch(_) => (1, 0nat),
        Unit::Mil(_) => (1000, 0nat),
        Unit::Mm(_) => (254, 1nat),
    }
}

/// Two units carry the same tag.
pub open spec fn same_tag(a: Unit, b: Unit) -> bool {
    match (a, b) {
        (Unit::Cm(_), Unit::Cm(_)) => true,
        (Unit::Pixel(_), Unit::Pixel(_)) => true,
        (Unit::Point(_), Unit::Point(_)) => true,
        (Unit::Inch(_), Unit::Inch(_)) => true,
        (Unit::Mil(_), Unit::Mil(_)) => true,
        (Unit::Mm(_), Unit::Mm(_)) => true,
        _ => false,
    }
}

/// The model of a value with the tag of `tag_u` converted to inches.
pub open spec fn to_inch_m2(tag_u: Unit, dm: (int, nat)) -> (int, nat) {
    if tag_u is Inch {
        dm
    } else {
        spec_div_m(dm, ratio_m(tag_u))
    }
}

/// The model of this unit's value converted to inches.
pub open spec fn to_inch_m(u: Unit) -> (int, nat) {
    to_inch_m2(u, dec_of(u).model())
}

/// The value of a unit's conversion ratio on the common grid.
pub open spec fn ratio_val28(u: Unit) -> int {
    ratio_m(u).0 * pow10((28 - ratio_m(u).1) as nat)
}

/// The value is small enough for every unit conversion to stay representable.
pub open spec fn unit_in_range(u: Unit) -> bool {
    abs_int(dec_of(u).val28()) <= pow10(46)
}

impl Unit {
    /// Decimal value for the unit.
    pub fn decimal_value(&self) -> (r: Decimal)
        ensures
            r == dec_of(*self),
    {
        match self {
            Unit::Cm(d) => *d,
            Unit::Pixel(d) => *d,
            Unit::Point(d) => *d,
            Unit::Inch(d) => *d,
            Unit::Mil(d) => *d,
            Unit::Mm(d) => *d,
        }
    }

    /// A point-valued unit from an integer.
    pub fn from(n: i64) -> (r: Unit)
        ensures
            r == Unit::Point(dec_of(r)),
            dec_of(r).model() == (n as int, 0nat),
    {
        Unit::Point(Decimal::from(n))
    }

    /// The conversion ratio of this unit to inches.
    fn ratio_dec(&self) -> (r: Decimal)
        ensures
            r.inv(),
            r.model() == ratio_m(*self),
            1 <= r.mantissa_spec() <= 1000,
            r.mantissa_spec() >= pow10(r.scale_spec()),
            pow10(28) <= r.val28() <= pow10(32),
    {
        proof {
            reveal_with_fuel(pow10, 6);
            lemma_pow10_add(2, 26);
            lemma_pow10_add(1, 27);
            lemma_pow10_add(3, 28);
            lemma_pow10_add(4, 28);
            lemma_pow10_add(2, 28);
            lemma_pow10_add(1, 28);
            lemma_pow10_pos(26);
            lemma_pow10_pos(27);
            lemma_pow10_pos(28);
            lemma_pow10_mono(28, 32);
            lemma_pow10_mono(31, 32);
            lemma_pow10_mono(29, 32);
            lemma_pow10_mono(30, 32);
            assert(254 * pow10(26) >= 100 * pow10(26)) by (nonlinear_arith)
                requires
                    pow10(26) >= 1,
            ;
            assert(254 * pow10(26) <= 1000 * pow10(26)) by (nonlinear_arith)
                requires
                    pow10(26) >= 1,
            ;
            assert(1000 * pow10(26) == pow10(29)) by (nonlinear_arith)
                requires
                    pow10(3) == 1000,
                    pow10(3) * pow10(26) == pow10(29),
            ;
            assert(254 * pow10(27) >= 10 * pow10(27) && 254 * pow10(27) <= 1000 * pow10(27))
                by (nonlinear_arith)
                requires
                    pow10(27) >= 1,
            ;
            assert(1000 * pow10(27) == pow10(30)) by (nonlinear_arith)
                requires
                    pow10(3) == 1000,
                    pow10(3) * pow10(27) == pow10(30),
            ;
            assert(96 * pow10(28) >= pow10(28) && 96 * pow10(28) <= pow10(30)) by (nonlinear_arith)
                requires
                    pow10(28) >= 1,
                    pow10(30) == 100 * pow10(28),
                    pow10(2) == 100,
            ;
            assert(72 * pow10(28) >= pow10(28) && 72 * pow10(28) <= pow10(30)) by (nonlinear_arith)
                requires
                    pow10(28) >= 1,
                    pow10(30) == 100 * pow10(28),
                    pow10(2) == 100,
            ;
            assert(1000 * pow10(28) == pow10(31)) by (nonlinear_arith)
                requires
                    pow10(3) == 1000,
                    pow10(3) * pow10(28) == pow10(31),
            ;
            assert(pow10(30) == 100 * pow10(28)) by (nonlinear_arith)
                requires
                    pow10(2) == 100,
                    pow10(2) * pow10(28) == pow10(30),
            ;
        }
        match self {
            Unit::Cm(_) => Decimal::new(254, 2),
            Unit::Pixel(_) => Decimal::new(96, 0),
            Unit::Point(_) => Decimal::new(72, 0),
            Unit::Inch(_) => Decimal::new(1, 0),
            Unit::Mil(_) => Decimal::new(1000, 0),
            Unit::Mm(_) => Decimal::new(254, 1),
        }
    }

    /// Unit in inches.
    pub fn inch(&self) -> (r: Unit)
        ensures
            r is Inch,
            dec_of(r).model() == to_inch_m(*self),
            abs_int(dec_of(r).val28()) <= abs_int(dec_of(*self).val28()),
            abs_int(dec_of(r).val28()) * ratio_val28(*self) <= abs_int(dec_of(*self).val28())
                * pow10(28),
    {
        match self {
            Unit::Inch(d) => {
                proof {
                    use_type_invariant(d);
                    lemma_pow10_pos(28);
                    assert(pow10(0nat) == 1);
                    assert(ratio_val28(*self) == pow10(28)) by (nonlinear_arith)
                        requires
                            ratio_val28(*self) == 1 * pow10(28),
                    ;
                }
                Unit::Inch(*d)
            },
            _ => {
                let d = self.decimal_value();
                let rt = self.ratio_dec();
                proof {
                    use_type_invariant(&d);
                    lemma_unit_div_fits(d, rt);
                }
                let q = d.div(&rt);
                proof {
                    lemma_quotient_small(d, rt, q);
                    lemma_pow10_pos(28);
                    assert(rt.val28() == ratio_val28(*self)) by (nonlinear_arith)
                        requires
                            rt.val28() == rt.mantissa_spec() * pow10((28 - rt.scale_spec()) as nat),
                            rt.model() == ratio_m(*self),
                            ratio_val28(*self) == ratio_m(*self).0 * pow10(
                                (28 - ratio_m(*self).1) as nat,
                            ),
                    ;
                    assert(abs_int(rt.val28()) == rt.val28());
                }
                Unit::Inch(q)
            },
        }
    }

    /// Unit in centimeters.
    pub fn cm(&self) -> (r: Unit)
        requires
            unit_in_range(*self),
        ensures
            r is Cm,
            dec_of(r).model() == spec_mul_m(to_inch_m(*self), (254, 2nat)),
            abs_int(dec_of(r).val28()) <= abs_int(dec_of(*self).val28()) * pow10(4),
            *self is Cm ==> abs_int(dec_of(r).val28()) <= abs_int(dec_of(*self).val28()),
    {
        let sd = self.decimal_value();
        let i = self.inch().decimal_value();
        let rt = Decimal::new(254, 2);
        proof {
            ratio_const_facts();
            use_type_invariant(&i);
            use_type_invariant(&sd);
            lemma_from_inch_ok(i, rt, dec_of(*self));
        }
        let r = i.mul(&rt);
        proof {
            lemma_ratio_val_bounds(rt);
            lemma_conv_result_bound(i, rt, r, dec_of(*self));
            lemma_same_tag_conv_bound(
                abs_int(r.val28()),
                abs_int(i.val28()),
                rt.val28(),
                ratio_val28(*self),
                abs_int(dec_of(*self).val28()),
            );
        }
        Unit::Cm(r)
    }

    /// Unit in pixels.  A pixel is 1/96 of an inch.
    pub fn pixel(&self) -> (r: Unit)
        requires
            unit_in_range(*self),
        ensures
            r is Pixel,
            dec_of(r).model() == spec_mul_m(to_inch_m(*self), (96, 0nat)),
            abs_int(dec_of(r).val28()) <= abs_int(dec_of(*self).val28()) * pow10(4),
            *self is Pixel ==> abs_int(dec_of(r).val28()) <= abs_int(dec_of(*self).val28()),
    {
        let sd = self.decimal_value();
        let i = self.inch().decimal_value();
        let rt = Decimal::new(96, 0);
        proof {
            ratio_const_facts();
            use_type_invariant(&i);
            use_type_invariant(&sd);
            lemma_from_inch_ok(i, rt, dec_of(*self));
        }
        let r = i.mul(&rt);
        proof {
            lemma_ratio_val_bounds(rt);
            lemma_conv_result_bound(i, rt, r, dec_of(*self));
            lemma_same_tag_conv_bound(
                abs_int(r.val28()),
                abs_int(i.val28()),
                rt.val28(),
                ratio_val28(*self),
                abs_int(dec_of(*self).val28()),
            );
        }
        Unit::Pixel(r)
    }

    /// Unit in points.  A point is 1/72 of an inch.
    pub fn point(&self) -> (r: Unit)
        requires
            unit_in_range(*self),
        ensures
            r is Point,
            dec_of(r).model() == spec_mul_m(to_inch_m(*self), (72, 0nat)),
            abs_int(dec_of(r).val28()) <= abs_int(dec_of(*self).val28()) * pow10(4),
            *self is Point ==> abs_int(dec_of(r).val28()) <= abs_int(dec_of(*self).val28()),
    {
        let sd = self.decimal_value();
        let i = self.inch().decimal_value();
        let rt = Decimal::new(72, 0);
        proof {
            ratio_const_facts();
            use_type_invariant(&i);
            use_type_invariant(&sd);
            lemma_from_inch_ok(i, rt, dec_of(*self));
        }
        let r = i.mul(&rt);
        proof {
            lemma_ratio_val_bounds(rt);
            lemma_conv_result_bound(i, rt, r, dec_of(*self));
            lemma_same_tag_conv_bound(
                abs_int(r.val28()),
                abs_int(i.val28()),
                rt.val28(),
                ratio_val28(*self),
                abs_int(dec_of(*self).val28()),
            );
        }
        Unit::Point(r)
    }

    /// Unit in mils.  A mil is 1/1000 of an inch.
    pub fn mil(&self) -> (r: Unit)
        requires
            unit_in_range(*self),
        ensures
            r is Mil,
            dec_of(r).model() == spec_mul_m(to_inch_m(*self), (1000, 0nat)),
            abs_int(dec_of(r).val28()) <= abs_int(dec_of(*self).val28()) * pow10(4),
            *self is Mil ==> abs_int(dec_of(r).val28()) <= abs_int(dec_of(*self).val28()),
    {
        let sd = self.decimal_value();
        let i = self.inch().decimal_value();
        let rt = Decimal::new(1000, 0);
        proof {
            ratio_const_facts();
            use_type_invariant(&i);
            use_type_invariant(&sd);
            lemma_from_inch_ok(i, rt, dec_of(*self));
        }
        let r = i.mul(&rt);
        proof {
            lemma_ratio_val_bounds(rt);
            lemma_conv_result_bound(i, rt, r, dec_of(*self));
            lemma_same_tag_conv_bound(
                abs_int(r.val28()),
                abs_int(i.val28()),
                rt.val28(),
                ratio_val28(*self),
                abs_int(dec_of(*self).val28()),
            );
        }
        Unit::Mil(r)
    }

    /// Unit in millimeters.
    pub fn mm(&self) -> (r: Unit)
        requires
            unit_in_range(*self),
        ensures
            r is Mm,
            dec_of(r).model() == spec_mul_m(to_inch_m(*self), (254, 1nat)),
            abs_int(dec_of(r).val28()) <= abs_int(dec_of(*self).val28()) * pow10(4),
            *self is Mm ==> abs_int(dec_of(r).val28()) <= abs_int(dec_of(*self).val28()),
    {
        let sd = self.decimal_value();
        let i = self.inch().decimal_value();
        let rt = Decimal::new(254, 1);
        proof {
            ratio_const_facts();
            use_type_invariant(&i);
            use_type_invariant(&sd);
            lemma_from_inch_ok(i, rt, dec_of(*self));
        }
        let r = i.mul(&rt);
        proof {
            lemma_ratio_val_bounds(rt);
            lemma_conv_result_bound(i, rt, r, dec_of(*self));
            lemma_same_tag_conv_bound(
                abs_int(r.val28()),
                abs_int(i.val28()),
                rt.val28(),
                ratio_val28(*self),
                abs_int(dec_of(*self).val28()),
            );
        }
        Unit::Mm(r)
    }
}

/// The ratio constants all denote values between 1 and 10^4 inches.
proof fn ratio_const_facts()
    ensures
        pow10(0) == 1,
        pow10(1) == 10,
        pow10(2) == 100,
        pow10(3) == 1000,
{
    reveal_with_fuel(pow10, 5);
}

/// Any decimal may be divided by a ratio whose value is at least one.
pub(crate) proof fn lemma_unit_div_fits(d: Decimal, rt: Decimal)
    requires
        d.inv(),
        rt.inv(),
        rt.mantissa_spec() >= pow10(rt.scale_spec()),
    ensures
        div_fits(d, rt),
        rt.mantissa_spec() != 0,
{
    lemma_pow10_pos(rt.scale_spec());
    lemma_pow10_pos(d.scale_spec());
    lemma_pow10_add(d.scale_spec(), 28);
    lemma_pow10_constants();
    assert(abs_int(d.mantissa_spec()) * pow10(rt.scale_spec()) < pow10(28) * pow10(
        rt.scale_spec(),
    )) by (nonlinear_arith)
        requires
            abs_int(d.mantissa_spec()) < MANT_LIM as int,
            MANT_LIM as int == pow10(28),
            pow10(rt.scale_spec()) >= 1,
    ;
    assert(pow10(28) * pow10(rt.scale_spec()) <= abs_int(rt.mantissa_spec()) * pow10(
        (d.scale_spec() + 28) as nat,
    )) by (nonlinear_arith)
        requires
            abs_int(rt.mantissa_spec()) >= pow10(rt.scale_spec()),
            pow10((d.scale_spec() + 28) as nat) == pow10(d.scale_spec()) * pow10(28),
            pow10(d.scale_spec()) >= 1,
            pow10(28) >= 1,
            pow10(rt.scale_spec()) >= 1,
    ;
}

/// Dividing by a ratio of value at least one does not grow the magnitude.
proof fn lemma_quotient_small(d: Decimal, rt: Decimal, q: Decimal)
    requires
        d.inv(),
        rt.inv(),
        q.inv(),
        rt.val28() >= pow10(28),
        abs_int(q.val28()) * abs_int(rt.val28()) <= abs_int(d.val28()) * pow10(28),
    ensures
        abs_int(q.val28()) <= abs_int(d.val28()),
{
    lemma_pow10_pos(28);
    assert(abs_int(q.val28()) * pow10(28) <= abs_int(d.val28()) * pow10(28)) by (nonlinear_arith)
        requires
            abs_int(q.val28()) * abs_int(rt.val28()) <= abs_int(d.val28()) * pow10(28),
            abs_int(rt.val28()) >= pow10(28),
            abs_int(q.val28()) >= 0,
    ;
    assert(abs_int(q.val28()) <= abs_int(d.val28())) by (nonlinear_arith)
        requires
            abs_int(q.val28()) * pow10(28) <= abs_int(d.val28()) * pow10(28),
            pow10(28) >= 1,
    ;
}

/// An in-range inch value may be multiplied by any of the ratio constants.
proof fn lemma_from_inch_ok(i: Decimal, rt: Decimal, src: Decimal)
    requires
        i.inv(),
        rt.inv(),
        src.inv(),
        abs_int(i.val28()) <= abs_int(src.val28()),
        abs_int(src.val28()) <= pow10(46),
        1 <= rt.mantissa_spec() <= 1000,
    ensures
        mul_in_range(i, rt),
        mul_fits_val(i, rt),
{
    let si = i.scale_spec();
    let srt = rt.scale_spec();
    let mi = abs_int(i.mantissa_spec());
    lemma_pow10_pos((28 - si) as nat);
    lemma_pow10_constants();
    lemma_pow10_add(3, 28);
    lemma_pow10_add(3, (18 + si) as nat);
    lemma_pow10_add((28 - si) as nat, (18 + si) as nat);
    lemma_pow10_mono(31, 38);
    lemma_pow10_pos((21 + si) as nat);
    lemma_pow10_pos((18 + si) as nat);
    assert(pow10(3) == 1000) by {
        reveal_with_fuel(pow10, 5);
    }
    assert(abs_int(i.val28()) == mi * pow10((28 - si) as nat)) by (nonlinear_arith)
        requires
            i.val28() == i.mantissa_spec() * pow10((28 - si) as nat),
            mi == abs_int(i.mantissa_spec()),
            pow10((28 - si) as nat) >= 1,
    ;
    assert(mi <= pow10((18 + si) as nat)) by (nonlinear_arith)
        requires
            mi * pow10((28 - si) as nat) <= pow10(46),
            pow10((28 - si) as nat) * pow10((18 + si) as nat) == pow10(46),
            pow10((28 - si) as nat) >= 1,
            pow10((18 + si) as nat) >= 1,
            mi >= 0,
    ;
    assert(abs_int(i.mantissa_spec() * rt.mantissa_spec()) <= mi * 1000) by (nonlinear_arith)
        requires
            mi == abs_int(i.mantissa_spec()),
            1 <= rt.mantissa_spec() <= 1000,
    ;
    assert(mi * 1000 < pow10(31)) by (nonlinear_arith)
        requires
            mi < pow10(28),
            pow10(3) == 1000,
            pow10(3) * pow10(28) == pow10(31),
            mi >= 0,
    ;
    assert(mi * 1000 <= pow10((21 + si) as nat)) by (nonlinear_arith)
        requires
            mi <= pow10((18 + si) as nat),
            pow10(3) == 1000,
            pow10(3) * pow10((18 + si) as nat) == pow10((21 + si) as nat),
            mi >= 0,
    ;
    assert(pow10((21 + si) as nat) < (MANT_LIM as int) * pow10((si + srt) as nat)) by {
        lemma_pow10_add(28, (si + srt) as nat);
        lemma_pow10_pos((28 + si + srt) as nat);
        assert(pow10((28 + si + srt) as nat) == pow10(28) * pow10((si + srt) as nat));
        assert(pow10((21 + si) as nat) < 10 * pow10((21 + si) as nat)) by (nonlinear_arith)
            requires
                pow10((21 + si) as nat) >= 1,
        ;
        lemma_pow10_mono((21 + si) as nat + 1, (28 + si + srt) as nat);
        assert(pow10(((21 + si) + 1) as nat) == 10 * pow10((21 + si) as nat));
    }
    assert(abs_int(i.mantissa_spec() * rt.mantissa_spec()) < pow10(38));
    assert(abs_int(i.mantissa_spec() * rt.mantissa_spec()) < (MANT_LIM as int) * pow10(
        (si + srt) as nat,
    ));
}

/// Each ratio constant's value lies between one and 10^4 inches.
proof fn lemma_ratio_val_bounds(rt: Decimal)
    requires
        rt.inv(),
        1 <= rt.mantissa_spec() <= 1000,
        rt.scale_spec() <= 3,
    ensures
        1 <= rt.val28() <= pow10(32),
{
    let s = rt.scale_spec();
    lemma_pow10_pos((28 - s) as nat);
    lemma_pow10_add(3, (28 - s) as nat);
    lemma_pow10_mono((31 - s) as nat, 32);
    assert(pow10(3) == 1000) by {
        reveal_with_fuel(pow10, 5);
    }
    assert(rt.val28() >= 1) by (nonlinear_arith)
        requires
            rt.val28() == rt.mantissa_spec() * pow10((28 - s) as nat),
            rt.mantissa_spec() >= 1,
            pow10((28 - s) as nat) >= 1,
    ;
    assert(rt.val28() <= pow10((31 - s) as nat)) by (nonlinear_arith)
        requires
            rt.val28() == rt.mantissa_spec() * pow10((28 - s) as nat),
            1 <= rt.mantissa_spec() <= 1000,
            pow10(3) == 1000,
            pow10(3) * pow10((28 - s) as nat) == pow10((31 - s) as nat),
            pow10((28 - s) as nat) >= 1,
    ;
}

/// When the outbound ratio matches the inbound ratio, converting through
/// inches does not grow the value.
proof fn lemma_same_tag_conv_bound(vr: int, vi: int, rt_out: int, rt_in: int, vs: int)
    requires
        vr * pow10(28) <= vi * rt_out,
        vi * rt_in <= vs * pow10(28),
        vr >= 0,
        vi >= 0,
        vs >= 0,
        rt_out >= 1,
    ensures
        rt_out == rt_in ==> vr <= vs,
{
    lemma_pow10_pos(28);
    if rt_out == rt_in {
        assert(vr * pow10(28) <= vs * pow10(28));
        assert(vr <= vs) by (nonlinear_arith)
            requires
                vr * pow10(28) <= vs * pow10(28),
                pow10(28) >= 1,
        ;
    }
}

/// A conversion result is within a factor 10^4 of the source value.
proof fn lemma_conv_result_bound(i: Decimal, rt: Decimal, r: Decimal, src: Decimal)
    requires
        i.inv(),
        rt.inv(),
        r.inv(),
        src.inv(),
        abs_int(i.val28()) <= abs_int(src.val28()),
        rt.val28() <= pow10(32),
        rt.val28() >= 1,
        abs_int(r.val28()) * pow10(28) <= abs_int(i.val28()) * abs_int(rt.val28()),
    ensures
        abs_int(r.val28()) <= abs_int(src.val28()) * pow10(4),
{
    lemma_pow10_add(4, 28);
    lemma_pow10_pos(28);
    lemma_pow10_pos(4);
    assert(abs_int(i.val28()) * abs_int(rt.val28()) <= abs_int(src.val28()) * pow10(32))
        by (nonlinear_arith)
        requires
            abs_int(i.val28()) <= abs_int(src.val28()),
            0 <= abs_int(rt.val28()) <= pow10(32),
            abs_int(i.val28()) >= 0,
    ;
    assert(abs_int(r.val28()) * pow10(28) <= (abs_int(src.val28()) * pow10(4)) * pow10(28))
        by (nonlinear_arith)
        requires
            abs_int(r.val28()) * pow10(28) <= abs_int(src.val28()) * pow10(32),
            pow10(32) == pow10(4) * pow10(28),
    ;
    assert(abs_int(r.val28()) <= abs_int(src.val28()) * pow10(4)) by (nonlinear_arith)
        requires
            abs_int(r.val28()) * pow10(28) <= (abs_int(src.val28()) * pow10(4)) * pow10(28),
            pow10(28) >= 1,
    ;
}

/// The model of adding `b` (converted to `a`'s tag) to `a` and rounding.
pub open spec fn spec_add_m_of_units(a: Unit, b: Unit) -> (int, nat) {
    spec_round_full(spec_add_m(dec_of(a).model(), spec_conv_m(b, a)))
}

/// The model of a value carrying the tag of `tag_b`, converted to the tag
/// of `tag_a`: through inches, then scaled by the target ratio.
pub open spec fn spec_conv_m2(tag_b: Unit, bm: (int, nat), tag_a: Unit) -> (int, nat) {
    if tag_a is Inch {
        to_inch_m2(tag_b, bm)
    } else {
        spec_mul_m(to_inch_m2(tag_b, bm), ratio_m(tag_a))
    }
}

/// The model of a unit's value converted to the tag of `target`.
pub open spec fn spec_conv_m(u: Unit, target: Unit) -> (int, nat) {
    spec_conv_m2(u, dec_of(u).model(), target)
}

/// Conversion depends only on the tags, not on which unit carries them.
pub proof fn lemma_conv_m_tag_only(x: Unit, y: Unit, bm: (int, nat), a: Unit)
    requires
        same_tag(x, y),
    ensures
        spec_conv_m2(x, bm, a) == spec_conv_m2(y, bm, a),
{
    assert(ratio_m(x) == ratio_m(y));
    assert((x is Inch) == (y is Inch));
}

impl Unit {
    /// Converts a unit to the tag of `target`.
    fn to_tag_of(&self, target: &Unit) -> (r: Unit)
        requires
            unit_in_range(*self),
        ensures
            same_tag(r, *target),
            dec_of(r).model() == spec_conv_m(*self, *target),
            abs_int(dec_of(r).val28()) <= abs_int(dec_of(*self).val28()) * pow10(4),
            same_tag(*self, *target) ==> abs_int(dec_of(r).val28()) <= abs_int(
                dec_of(*self).val28(),
            ),
    {
        proof {
            lemma_pow10_pos(4);
            let sd = dec_of(*self);
            assert(abs_int(sd.val28()) * 1 <= abs_int(sd.val28()) * pow10(4)) by (nonlinear_arith)
                requires
                    pow10(4) >= 1,
                    abs_int(sd.val28()) >= 0,
            ;
        }
        match target {
            Unit::Cm(_) => self.cm(),
            Unit::Pixel(_) => self.pixel(),
            Unit::Point(_) => self.point(),
            Unit::Inch(_) => self.inch(),
            Unit::Mil(_) => self.mil(),
            Unit::Mm(_) => self.mm(),
        }
    }

    /// Adds, converting the right operand to this unit's tag first, then
    /// rounding away conversion drift.
    pub fn add(&self, rhs: &Unit) -> (r: Unit)
        requires
            unit_in_range(*self),
            unit_in_range(*rhs),
        ensures
            same_tag(r, *self),
            dec_of(r).model() == spec_round_full(
                spec_add_m(dec_of(*self).model(), spec_conv_m(*rhs, *self)),
            ),
            abs_int(dec_of(r).val28()) <= abs_int(dec_of(*self).val28()) + abs_int(
                dec_of(*rhs).val28(),
            ) * pow10(4) + pow10(13),
            same_tag(*self, *rhs) ==> abs_int(dec_of(r).val28()) <= abs_int(
                dec_of(*self).val28(),
            ) + abs_int(dec_of(*rhs).val28()) + pow10(13),
    {
        let c = rhs.to_tag_of(self);
        let d = self.decimal_value();
        let cd = c.decimal_value();
        proof {
            use_type_invariant(&d);
            use_type_invariant(&cd);
            lemma_units_add_ok(d, cd, dec_of(*rhs));
        }
        let sum = round(d.add(&cd));
        self.with_decimal(sum)
    }

    /// Subtracts, converting the right operand to this unit's tag first.
    pub fn sub(&self, rhs: &Unit) -> (r: Unit)
        requires
            unit_in_range(*self),
            unit_in_range(*rhs),
        ensures
            same_tag(r, *self),
            dec_of(r).model() == spec_round_full(
                spec_add_m(
                    dec_of(*self).model(),
                    (-spec_conv_m(*rhs, *self).0, spec_conv_m(*rhs, *self).1),
                ),
            ),
            abs_int(dec_of(r).val28()) <= abs_int(dec_of(*self).val28()) + abs_int(
                dec_of(*rhs).val28(),
            ) * pow10(4) + pow10(13),
            same_tag(*self, *rhs) ==> abs_int(dec_of(r).val28()) <= abs_int(
                dec_of(*self).val28(),
            ) + abs_int(dec_of(*rhs).val28()) + pow10(13),
    {
        let c = rhs.to_tag_of(self);
        let d = self.decimal_value();
        let cd = c.decimal_value();
        proof {
            use_type_invariant(&d);
            use_type_invariant(&cd);
            lemma_units_add_ok(d, cd, dec_of(*rhs));
        }
        let diff = round(d.sub(&cd));
        self.with_decimal(diff)
    }

    /// Multiplies by the bare decimal value of `rhs`; its unit is stripped.
    pub fn mul(&self, rhs: &Unit) -> (r: Unit)
        requires
            mul_in_range(dec_of(*self), dec_of(*rhs)),
            mul_fits_val(dec_of(*self), dec_of(*rhs)),
        ensures
            same_tag(r, *self),
            dec_of(r).model() == spec_round_full(
                spec_mul_m(dec_of(*self).model(), dec_of(*rhs).model()),
            ),
    {
        let d = self.decimal_value();
        let rd = rhs.decimal_value();
        let prod = round(d.mul(&rd));
        self.with_decimal(prod)
    }

    /// Divides by the bare decimal value of `rhs`; its unit is stripped.
    pub fn div(&self, rhs: &Unit) -> (r: Unit)
        requires
            dec_of(*rhs).mantissa_spec() != 0,
            div_fits(dec_of(*self), dec_of(*rhs)),
        ensures
            same_tag(r, *self),
            dec_of(r).model() == spec_round_full(
                spec_div_m(dec_of(*self).model(), dec_of(*rhs).model()),
            ),
            abs_int(dec_of(r).val28()) * abs_int(dec_of(*rhs).val28()) <= abs_int(
                dec_of(*self).val28(),
            ) * pow10(28) + pow10(13) * abs_int(dec_of(*rhs).val28()),
    {
        let d = self.decimal_value();
        let rd = rhs.decimal_value();
        let q = d.div(&rd);
        let quot = round(q);
        proof {
            lemma_pow10_pos(13);
            assert(abs_int(quot.val28()) * abs_int(rd.val28()) <= abs_int(q.val28()) * abs_int(
                rd.val28(),
            ) + pow10(13) * abs_int(rd.val28())) by (nonlinear_arith)
                requires
                    abs_int(quot.val28()) <= abs_int(q.val28()) + pow10(13),
                    abs_int(rd.val28()) >= 0,
            ;
        }
        self.with_decimal(quot)
    }

    /// Real numbers are limited to 5 decimal places.
    pub fn real_value(&self) -> (r: Decimal)
        requires
            abs_int(dec_of(*self).val28()) <= pow10(50),
        ensures
            r.inv(),
            r.model() == spec_normalize_m(spec_rescale_m(dec_of(*self).model(), 5)),
    {
        let d = self.decimal_value();
        proof {
            use_type_invariant(&d);
            lemma_rescale5_fits(d);
        }
        d.rescale(5).normalize()
    }

    /// Rebuilds a unit with this unit's tag around a new decimal.
    fn with_decimal(&self, d: Decimal) -> (r: Unit)
        ensures
            same_tag(r, *self),
            dec_of(r) == d,
    {
        match self {
            Unit::Cm(_) => Unit::Cm(d),
            Unit::Pixel(_) => Unit::Pixel(d),
            Unit::Point(_) => Unit::Point(d),
            Unit::Inch(_) => Unit::Inch(d),
            Unit::Mil(_) => Unit::Mil(d),
            Unit::Mm(_) => Unit::Mm(d),
        }
    }
}

/// In-range operands can always be added after conversion.
proof fn lemma_units_add_ok(d: Decimal, cd: Decimal, src: Decimal)
    requires
        d.inv(),
        cd.inv(),
        abs_int(d.val28()) <= pow10(46),
        abs_int(cd.val28()) <= abs_int(src.val28()) * pow10(4),
        abs_int(src.val28()) <= pow10(46),
    ensures
        add_ok(d, cd),
{
    lemma_pow10_add(4, 46);
    lemma_pow10_add(28, 28);
    lemma_pow10_constants();
    lemma_pow10_mono(46, 50);
    lemma_pow10_mono(51, 56);
    lemma_pow10_pos(50);
    lemma_pow10_pos(4);
    assert(abs_int(src.val28()) * pow10(4) <= pow10(50)) by (nonlinear_arith)
        requires
            0 <= abs_int(src.val28()) <= pow10(46),
            pow10(4) >= 1,
            pow10(46) * pow10(4) == pow10(50),
    ;
    assert(pow10(51) == 10 * pow10(50));
    assert((MANT_LIM as int) * pow10(28) == pow10(56));
}

/// An in-range value can be rescaled to five places.
proof fn lemma_rescale5_fits(d: Decimal)
    requires
        d.inv(),
        abs_int(d.val28()) <= pow10(50),
    ensures
        crate::decimal::rescale_fits(d, 5),
{
    let s = d.scale_spec();
    if s < 5 {
        let m = abs_int(d.mantissa_spec());
        lemma_pow10_pos((28 - s) as nat);
        lemma_pow10_pos((5 - s) as nat);
        lemma_pow10_add((28 - s) as nat, (22 + s) as nat);
        lemma_pow10_add((5 - s) as nat, (22 + s) as nat);
        lemma_pow10_constants();
        lemma_pow10_mono(27, 28);
        lemma_pow10_pos((22 + s) as nat);
        assert(abs_int(d.val28()) == m * pow10((28 - s) as nat)) by (nonlinear_arith)
            requires
                d.val28() == d.mantissa_spec() * pow10((28 - s) as nat),
                m == abs_int(d.mantissa_spec()),
                pow10((28 - s) as nat) >= 1,
        ;
        assert(m <= pow10((22 + s) as nat)) by (nonlinear_arith)
            requires
                m * pow10((28 - s) as nat) <= pow10(50),
                pow10((28 - s) as nat) * pow10((22 + s) as nat) == pow10(50),
                pow10((28 - s) as nat) >= 1,
                pow10((22 + s) as nat) >= 1,
                m >= 0,
        ;
        assert(m * pow10((5 - s) as nat) <= pow10(27)) by (nonlinear_arith)
            requires
                m <= pow10((22 + s) as nat),
                pow10((5 - s) as nat) * pow10((22 + s) as nat) == pow10(27),
                pow10((5 - s) as nat) >= 1,
                m >= 0,
        ;
        assert(abs_int(d.mantissa_spec()) * pow10((5 - s) as nat) < MANT_LIM as int);
    }
}

impl Default for Unit {
    /// Defaults to a `Point` with a zero value.
    fn default() -> (r: Unit)
        ensures
            r is Point,
            dec_of(r).model() == (0int, 0nat),
    {
        Unit::Point(Decimal::zero())
    }
}

impl PartialEq for Unit {
    /// Units are equal when they carry the same tag and denote the same
    /// decimal value.
    fn eq(&self, other: &Unit) -> (r: bool) {
        match (self, other) {
            (Unit::Cm(a), Unit::Cm(b)) => a == b,
            (Unit::Pixel(a), Unit::Pixel(b)) => a == b,
            (Unit::Point(a), Unit::Point(b)) => a == b,
            (Unit::Inch(a), Unit::Inch(b)) => a == b,
            (Unit::Mil(a), Unit::Mil(b)) => a == b,
            (Unit::Mm(a), Unit::Mm(b)) => a == b,
            _ => false,
        }
    }
}

impl vstd::std_specs::cmp::PartialEqSpecImpl for Unit {
    open spec fn obeys_eq_spec() -> bool {
        true
    }

    open spec fn eq_spec(&self, other: &Unit) -> bool {
        same_tag(*self, *other) && dec_of(*self).val28() == dec_of(*other).val28()
    }
}

/// The conversion of this unit's value to inches is exact: the inch model
/// times the unit's ratio recovers the stored value with no truncation.
pub open spec fn to_inch_exact(u: Unit) -> bool {
    val28_m(to_inch_m(u)) * ratio_val28(u) == dec_of(u).val28() * pow10(28)
}

/// Round-tripping a value through any other unit tag and back reproduces
/// the original decimal value: converting to the other tag multiplies the
/// exact inch form by that tag's ratio, and converting back divides the
/// product by the same ratio and rescales by this tag's ratio.  The
/// premises ask only that the inch form is exact and that the intermediate
/// products stay representable.
pub proof fn lemma_unit_round_trip(u: Unit, t: Unit)
    requires
        to_inch_exact(u),
        to_inch_m(u).1 + ratio_m(t).1 <= 28,
        -(MANT_LIM as int) < to_inch_m(u).0 * ratio_m(t).0 < MANT_LIM as int,
        to_inch_m(u).1 + ratio_m(u).1 <= 28,
        -(MANT_LIM as int) < to_inch_m(u).0 * ratio_m(u).0 < MANT_LIM as int,
        -(MANT_LIM as int) < to_inch_m(u).0 < MANT_LIM as int,
    ensures
        ({
            let outward = spec_mul_m(to_inch_m(u), ratio_m(t));
            let back = spec_mul_m(to_inch_m2(t, outward), ratio_m(u));
            val28_m(back) == dec_of(u).val28()
        }),
{
    let i = to_inch_m(u);
    let rt = ratio_m(t);
    let ru = ratio_m(u);
    crate::decimal::lemma_pow10_constants();
    lemma_pow10_mono(3, 28);
    assert(pow10(3) == 1000) by {
        reveal_with_fuel(pow10, 5);
    }
    assert(1 <= rt.0 <= 1000 && rt.1 <= 2);
    assert(1 <= ru.0 <= 1000 && ru.1 <= 2);
    crate::decimal::lemma_mul_exact_model(i, rt);
    let outward = spec_mul_m(i, rt);
    assert(outward == (i.0 * rt.0, (i.1 + rt.1) as nat));
    let inward = to_inch_m2(t, outward);
    if t is Inch {
        assert(rt == (1int, 0nat));
        assert(i.0 * 1 == i.0) by (nonlinear_arith);
        assert(outward == (i.0, i.1));
        assert(inward == (i.0, i.1));
    } else {
        crate::decimal::lemma_div_of_product(i.0, i.1, rt.0, rt.1);
        assert(inward == (i.0, i.1));
    }
    assert(inward == i);
    crate::decimal::lemma_mul_exact_model(i, ru);
    let back = spec_mul_m(i, ru);
    assert(back == (i.0 * ru.0, (i.1 + ru.1) as nat));
    lemma_pow10_add((28 - i.1 - ru.1) as nat, 28);
    lemma_pow10_add((28 - i.1) as nat, (28 - ru.1) as nat);
    lemma_pow10_pos(28);
    let pa = pow10((28 - i.1) as nat);
    let pb = pow10((28 - ru.1) as nat);
    let pc = pow10((28 - i.1 - ru.1) as nat);
    let pall = pow10(((28 - i.1) + (28 - ru.1)) as nat);
    assert(pc * pow10(28) == pall);
    assert(pa * pb == pall);
    assert(val28_m(back) * pow10(28) == (i.0 * ru.0) * pall) by (nonlinear_arith)
        requires
            val28_m(back) == (i.0 * ru.0) * pc,
            pc * pow10(28) == pall,
    ;
    assert(val28_m(i) * ratio_val28(u) == (i.0 * ru.0) * pall) by (nonlinear_arith)
        requires
            val28_m(i) == i.0 * pa,
            ratio_val28(u) == ru.0 * pb,
            pa * pb == pall,
    ;
    assert(val28_m(back) * pow10(28) == val28_m(i) * ratio_val28(u));
    assert(val28_m(back) * pow10(28) == dec_of(u).val28() * pow10(28));
    assert(val28_m(back) == dec_of(u).val28()) by (nonlinear_arith)
        requires
            val28_m(back) * pow10(28) == dec_of(u).val28() * pow10(28),
            pow10(28) >= 1,
    ;
}

/// The round-trip law instantiated at the one-inch centimeter
/// representative: its inch form is the exact unit value, so converting
/// 2.54 centimeters to any other tag and back reproduces it exactly.
pub proof fn lemma_round_trip_one_inch(u: Unit, t: Unit)
    requires
        u is Cm,
        dec_of(u).model() == (254int, 2nat),
    ensures
        ({
            let outward = spec_mul_m(to_inch_m(u), ratio_m(t));
            let back = spec_mul_m(to_inch_m2(t, outward), ratio_m(u));
            val28_m(back) == dec_of(u).val28()
        }),
{
    crate::decimal::lemma_pow10_constants();
    lemma_pow10_pos(26);
    lemma_pow10_pos(28);
    lemma_pow10_mono(3, 28);
    assert(pow10(3) == 1000) by {
        reveal_with_fuel(pow10, 5);
    }
    assert(1 * 254 == 254) by (nonlinear_arith);
    crate::decimal::lemma_div_of_product(1, 0, 254, 2);
    assert(to_inch_m(u) == (1int, 0nat));
    lemma_pow10_add(2, 26);
    assert(to_inch_exact(u)) by {
        assert(val28_m((1int, 0nat)) == pow10(28));
        assert(ratio_val28(u) == 254 * pow10(26));
        assert(dec_of(u).val28() == 254 * pow10(26));
        assert(pow10(28) * (254 * pow10(26)) == (254 * pow10(26)) * pow10(28))
            by (nonlinear_arith);
    }
    assert(1 <= ratio_m(t).0 <= 1000 && ratio_m(t).1 <= 2);
    assert(-(MANT_LIM as int) < 1 * ratio_m(t).0 < MANT_LIM as int) by (nonlinear_arith)
        requires
            1 <= ratio_m(t).0 <= 1000,
            1000 < MANT_LIM as int,
    ;
    assert(-(MANT_LIM as int) < 1 * ratio_m(u).0 < MANT_LIM as int) by (nonlinear_arith)
        requires
            1 <= ratio_m(u).0 <= 1000,
            1000 < MANT_LIM as int,
    ;
    assert(1000 < MANT_LIM as int) by {
        lemma_pow10_mono(4, 28);
        reveal_with_fuel(pow10, 6);
    }
    lemma_unit_round_trip(u, t);
}

} // verus!
