//! A rectangle: an origin and a size.

use vstd::prelude::*;
use super::point::Point;
use super::size::Size;
use super::unit::{dec_of, same_tag, spec_add_m_of_units, unit_in_range, Unit};
use crate::decimal::{abs_int, div_fits, mul_in_range, pow10};
use crate::helpers::spec_round_full;

verus! {

/// All four components are far inside the convertible range, so sums of
/// coordinates stay convertible.
pub open spec fn rect_in_range(r: Rect) -> bool {
    &&& abs_int(dec_of(r.origin.x).val28()) <= pow10(40)
    &&& abs_int(dec_of(r.origin.y).val28()) <= pow10(40)
    &&& abs_int(dec_of(r.size.width).val28()) <= pow10(40)
    &&& abs_int(dec_of(r.size.height).val28()) <= pow10(40)
}

/// A rectangle.
#[derive(Debug, Clone, Copy, PartialEq)]
pub struct Rect {
    pub origin: Point,
    pub size: Size,
}

impl Rect {
    /// A rectangle from an origin and a size.
    pub fn from_parts(origin: Point, size: Size) -> (r: Rect)
        ensures
            r.origin == origin,
            r.size == size,
    {
        Rect { origin, size }
    }

    /// A rectangle from x, y, width and height units.
    pub fn from_units(u: (Unit, Unit, Unit, Unit)) -> (r: Rect)
        ensures
            r.origin.x == u.0,
            r.origin.y == u.1,
            r.size.width == u.2,
            r.size.height == u.3,
    {
        Rect { origin: Point { x: u.0, y: u.1 }, size: Size { width: u.2, height: u.3 } }
    }

    /// A rectangle from four point-unit integers.
    pub fn from(u: (i64, i64, i64, i64)) -> (r: Rect)
        ensures
            r.origin.x == Unit::Point(dec_of(r.origin.x)),
            dec_of(r.origin.x).model() == (u.0 as int, 0nat),
            r.origin.y == Unit::Point(dec_of(r.origin.y)),
            dec_of(r.origin.y).model() == (u.1 as int, 0nat),
            r.size.width == Unit::Point(dec_of(r.size.width)),
            dec_of(r.size.width).model() == (u.2 as int, 0nat),
            r.size.height == Unit::Point(dec_of(r.size.height)),
            dec_of(r.size.height).model() == (u.3 as int, 0nat),
    {
        Rect {
            origin: Point { x: Unit::from(u.0), y: Unit::from(u.1) },
            size: Size { width: Unit::from(u.2), height: Unit::from(u.3) },
        }
    }

    /// Lower left coordinate for the rectangle.
    pub fn lower_left(&self) -> (r: Point)
        ensures
            r == self.origin,
    {
        self.origin
    }

    /// Min x value.
    pub fn min_x(&self) -> (r: Unit)
        ensures
            r == self.origin.x,
    {
        self.origin.x
    }

    /// Min y value.
    pub fn min_y(&self) -> (r: Unit)
        ensures
            r == self.origin.y,
    {
        self.origin.y
    }

    /// Max x value: the origin plus the width.
    pub fn max_x(&self) -> (r: Unit)
        requires
            rect_in_range(*self),
        ensures
            same_tag(r, self.origin.x),
            dec_of(r).model() == spec_add_m_of_units(self.origin.x, self.size.width),
            unit_in_range(r),
    {
        proof {
            lemma_rect_units_in_range(*self);
        }
        let r = self.origin.x.add(&self.size.width);
        proof {
            lemma_sum_in_range(
                dec_of(r).val28(),
                dec_of(self.origin.x).val28(),
                dec_of(self.size.width).val28(),
            );
        }
        r
    }

    /// Max y value: the origin plus the height.
    pub fn max_y(&self) -> (r: Unit)
        requires
            rect_in_range(*self),
        ensures
            same_tag(r, self.origin.y),
            dec_of(r).model() == spec_add_m_of_units(self.origin.y, self.size.height),
            unit_in_range(r),
    {
        proof {
            lemma_rect_units_in_range(*self);
        }
        let r = self.origin.y.add(&self.size.height);
        proof {
            lemma_sum_in_range(
                dec_of(r).val28(),
                dec_of(self.origin.y).val28(),
                dec_of(self.size.height).val28(),
            );
        }
        r
    }

    /// Upper right coordinate for the rectangle.
    pub fn upper_right(&self) -> (r: Point)
        requires
            rect_in_range(*self),
        ensures
            same_tag(r.x, self.origin.x),
            dec_of(r.x).model() == spec_add_m_of_units(self.origin.x, self.size.width),
            same_tag(r.y, self.origin.y),
            dec_of(r.y).model() == spec_add_m_of_units(self.origin.y, self.size.height),
    {
        Point { x: self.max_x(), y: self.max_y() }
    }

    /// Mid x value.
    pub fn mid_x(&self) -> (r: Unit)
        requires
            rect_in_range(*self),
            same_tag(self.origin.x, self.size.width),
        ensures
            same_tag(r, self.origin.x),
            abs_int(dec_of(r).val28()) <= pow10(42),
            dec_of(r).model() == mid_m(self.origin.x, self.size.width),
    {
        proof {
            lemma_rect_units_in_range(*self);
            crate::decimal::lemma_pow10_mono(40, 45);
        }
        let half = half_of(&self.size.width);
        let r = self.origin.x.add(&half);
        proof {
            lemma_mid_bound(
                dec_of(r).val28(),
                dec_of(self.origin.x).val28(),
                dec_of(half).val28(),
                dec_of(self.size.width).val28(),
            );
            crate::geometry::unit::lemma_conv_m_tag_only(
                half,
                self.size.width,
                dec_of(half).model(),
                self.origin.x,
            );
        }
        r
    }

    /// Mid y value.
    pub fn mid_y(&self) -> (r: Unit)
        requires
            rect_in_range(*self),
            same_tag(self.origin.y, self.size.height),
        ensures
            same_tag(r, self.origin.y),
            abs_int(dec_of(r).val28()) <= pow10(42),
            dec_of(r).model() == mid_m(self.origin.y, self.size.height),
    {
        proof {
            lemma_rect_units_in_range(*self);
            crate::decimal::lemma_pow10_mono(40, 45);
        }
        let half = half_of(&self.size.height);
        let r = self.origin.y.add(&half);
        proof {
            lemma_mid_bound(
                dec_of(r).val28(),
                dec_of(self.origin.y).val28(),
                dec_of(half).val28(),
                dec_of(self.size.height).val28(),
            );
            crate::geometry::unit::lemma_conv_m_tag_only(
                half,
                self.size.height,
                dec_of(half).model(),
                self.origin.y,
            );
        }
        r
    }

    /// Center of the rectangle.
    pub fn center(&self) -> (r: Point)
        requires
            rect_in_range(*self),
            same_tag(self.origin.x, self.size.width),
            same_tag(self.origin.y, self.size.height),
        ensures
            same_tag(r.x, self.origin.x),
            same_tag(r.y, self.origin.y),
            abs_int(dec_of(r.x).val28()) <= pow10(42),
            abs_int(dec_of(r.y).val28()) <= pow10(42),
            dec_of(r.x).model() == mid_m(self.origin.x, self.size.width),
            dec_of(r.y).model() == mid_m(self.origin.y, self.size.height),
    {
        Point { x: self.mid_x(), y: self.mid_y() }
    }
}

/// Half of an in-range unit, still in range.
pub(crate) fn half_of(u: &Unit) -> (r: Unit)
    requires
        abs_int(dec_of(*u).val28()) <= pow10(45),
    ensures
        same_tag(r, *u),
        unit_in_range(r),
        abs_int(dec_of(r).val28()) <= abs_int(dec_of(*u).val28()) + pow10(13),
        dec_of(r).model() == crate::helpers::spec_round_full(
            crate::decimal::spec_div_m(dec_of(*u).model(), (2, 0nat)),
        ),
{
    let two = Unit::from(2);
    let td = two.decimal_value();
    let ud = u.decimal_value();
    proof {
        use_type_invariant(&td);
        use_type_invariant(&ud);
        crate::decimal::lemma_pow10_constants();
        assert(pow10(0nat) == 1);
        crate::geometry::unit::lemma_unit_div_fits(ud, td);
    }
    let r = u.div(&two);
    proof {
        crate::decimal::lemma_pow10_pos(28);
        crate::decimal::lemma_pow10_pos(13);
        crate::decimal::lemma_pow10_add(2, 28);
        assert(td.val28() == 2 * pow10(28)) by (nonlinear_arith)
            requires
                td.val28() == td.mantissa_spec() * pow10((28 - td.scale_spec()) as nat),
                td.model() == (2int, 0nat),
        ;
        lemma_half_range_arith(dec_of(r).val28(), dec_of(*u).val28(), td.val28());
    }
    r
}

/// If `|h| * |two| <= |u| * 10^28 + 10^13 * |two|` with `two` denoting two,
/// and `|u| <= 10^45`, then `|h|` stays within `|u| + 10^13` and in range.
proof fn lemma_half_range_arith(h: int, u: int, two: int)
    requires
        abs_int(h) * abs_int(two) <= abs_int(u) * pow10(28) + pow10(13) * abs_int(two),
        abs_int(u) <= pow10(45),
        two == 2 * pow10(28),
    ensures
        abs_int(h) <= pow10(46),
        abs_int(h) <= abs_int(u) + pow10(13),
{
    crate::decimal::lemma_pow10_pos(28);
    crate::decimal::lemma_pow10_pos(13);
    crate::decimal::lemma_pow10_pos(45);
    crate::decimal::lemma_pow10_mono(45, 46);
    assert(abs_int(h) * (2 * pow10(28)) <= (abs_int(u) + 2 * pow10(13)) * pow10(28))
        by (nonlinear_arith)
        requires
            abs_int(h) * abs_int(two) <= abs_int(u) * pow10(28) + pow10(13) * abs_int(two),
            two == 2 * pow10(28),
            pow10(28) >= 1,
    ;
    assert(2 * abs_int(h) <= abs_int(u) + 2 * pow10(13)) by (nonlinear_arith)
        requires
            abs_int(h) * (2 * pow10(28)) <= (abs_int(u) + 2 * pow10(13)) * pow10(28),
            pow10(28) >= 1,
    ;
    assert(abs_int(h) <= abs_int(u) + pow10(13));
    assert(abs_int(h) <= pow10(46)) by {
        crate::decimal::lemma_pow10_mono(13, 45);
        assert(pow10(46) == 10 * pow10(45));
    }
}

/// The sum of two in-range coordinates stays in the convertible range.
proof fn lemma_sum_in_range(s: int, a: int, b: int)
    requires
        abs_int(s) <= abs_int(a) + abs_int(b) * pow10(4) + pow10(13),
        abs_int(a) <= pow10(40),
        abs_int(b) <= pow10(40),
    ensures
        abs_int(s) <= pow10(46),
{
    crate::decimal::lemma_pow10_add(40, 4);
    crate::decimal::lemma_pow10_pos(4);
    crate::decimal::lemma_pow10_pos(40);
    crate::decimal::lemma_pow10_pos(13);
    crate::decimal::lemma_pow10_pos(44);
    crate::decimal::lemma_pow10_mono(13, 44);
    crate::decimal::lemma_pow10_mono(40, 44);
    crate::decimal::lemma_pow10_mono(45, 46);
    assert(abs_int(b) * pow10(4) <= pow10(44)) by (nonlinear_arith)
        requires
            0 <= abs_int(b) <= pow10(40),
            pow10(4) >= 1,
            pow10(40) * pow10(4) == pow10(44),
    ;
    assert(3 * pow10(44) <= pow10(45)) by {
        assert(pow10(45) == 10 * pow10(44));
    }
}

/// The model of a coordinate plus half its extent: halve the extent, then
/// add it converted to the coordinate's tag, rounding each step.
pub open spec fn mid_m(origin: crate::geometry::unit::Unit, extent: crate::geometry::unit::Unit) -> (
    int,
    nat,
) {
    let hm = crate::helpers::spec_round_full(
        crate::decimal::spec_div_m(dec_of(extent).model(), (2, 0nat)),
    );
    crate::helpers::spec_round_full(
        crate::decimal::spec_add_m(
            dec_of(origin).model(),
            crate::geometry::unit::spec_conv_m2(extent, hm, origin),
        ),
    )
}

/// A coordinate plus half the extent stays well inside the range.
proof fn lemma_mid_bound(m: int, x: int, half: int, w: int)
    requires
        abs_int(m) <= abs_int(x) + abs_int(half) + pow10(13),
        abs_int(half) <= abs_int(w) + pow10(13),
        abs_int(x) <= pow10(40),
        abs_int(w) <= pow10(40),
    ensures
        abs_int(m) <= pow10(42),
{
    crate::decimal::lemma_pow10_pos(13);
    crate::decimal::lemma_pow10_pos(40);
    crate::decimal::lemma_pow10_mono(13, 40);
    assert(pow10(42) == 10 * pow10(41));
    assert(pow10(41) == 10 * pow10(40));
}

/// The components of an in-range rectangle are in the unit range.
pub proof fn lemma_rect_units_in_range(r: Rect)
    requires
        rect_in_range(r),
    ensures
        unit_in_range(r.origin.x),
        unit_in_range(r.origin.y),
        unit_in_range(r.size.width),
        unit_in_range(r.size.height),
{
    crate::decimal::lemma_pow10_mono(40, 46);
}

} // verus!
