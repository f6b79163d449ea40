//! Simple framed content.

use vstd::prelude::*;
use super::{ContentId, Layout};
use crate::decimal::{abs_int, pow10};
use crate::geometry::point::Point;
use crate::geometry::rect::{half_of, rect_in_range, Rect};
use crate::geometry::unit::{dec_of, same_tag, Unit};

verus! {

/// A rectangle whose x components share a tag and whose y components share
/// a tag, so that layout arithmetic stays within its units.
pub open spec fn rect_aligned(r: Rect) -> bool {
    &&& same_tag(r.origin.x, r.size.width)
    &&& same_tag(r.origin.y, r.size.height)
}

/// The model of a coordinate after resizing around the center: half the
/// extent change, converted to the coordinate's tag, is subtracted.
pub open spec fn rebound_origin_m(origin: Unit, old_extent: Unit, new_extent: Unit) -> (int, nat) {
    let c = crate::geometry::unit::spec_conv_m2(
        old_extent,
        dec_of(old_extent).model(),
        new_extent,
    );
    let dm = crate::helpers::spec_round_full(
        crate::decimal::spec_add_m(dec_of(new_extent).model(), (-c.0, c.1)),
    );
    let hm = crate::helpers::spec_round_full(crate::decimal::spec_div_m(dm, (2, 0nat)));
    let c2 = crate::geometry::unit::spec_conv_m2(new_extent, hm, origin);
    crate::helpers::spec_round_full(
        crate::decimal::spec_add_m(dec_of(origin).model(), (-c2.0, c2.1)),
    )
}

/// The model of a coordinate after moving the center: the distance from
/// the old to the new center, converted to the coordinate's tag, is added.
pub open spec fn recenter_origin_m(origin: Unit, extent: Unit, new_c: Unit) -> (int, nat) {
    let mid = crate::geometry::rect::mid_m(origin, extent);
    let cm = crate::geometry::unit::spec_conv_m2(origin, mid, new_c);
    let dm = crate::helpers::spec_round_full(
        crate::decimal::spec_add_m(dec_of(new_c).model(), (-cm.0, cm.1)),
    );
    let cd = crate::geometry::unit::spec_conv_m2(new_c, dm, origin);
    crate::helpers::spec_round_full(
        crate::decimal::spec_add_m(dec_of(origin).model(), cd),
    )
}

/// Content with nothing but a location and a size.
#[derive(Debug, Clone, Copy, PartialEq)]
pub struct Frame {
    pub id: ContentId,
    pub frame: Rect,
}

impl Layout for Frame {
    open spec fn id_spec(&self) -> ContentId {
        self.id
    }

    open spec fn frame_spec(&self) -> Rect {
        self.frame
    }

    fn new(id: ContentId, frame: Rect) -> (r: Frame) {
        Frame { id, frame }
    }

    fn get_id(&self) -> (r: ContentId) {
        self.id
    }

    fn frame(&self) -> (r: Rect) {
        self.frame
    }

    fn set_frame(&mut self, rect: Rect) {
        self.frame = rect;
    }
}

impl Frame {
    /// The size of the content in its own coordinate system, with the
    /// origin at zero.
    pub fn bounds(&self) -> (r: Rect)
        ensures
            r.size == self.frame.size,
            r.origin.x == Unit::Point(dec_of(r.origin.x)),
            dec_of(r.origin.x).model() == (0int, 0nat),
            dec_of(r.origin.y).model() == (0int, 0nat),
    {
        Rect {
            origin: Point { x: Unit::from(0), y: Unit::from(0) },
            size: self.frame.size,
        }
    }

    /// Grows or shrinks the frame to the given bounds from its center,
    /// adjusting the origin accordingly.
    pub fn set_bounds(&mut self, rect: Rect)
        requires
            rect_in_range(rect),
            rect_in_range(old(self).frame),
            rect_aligned(rect),
            rect_aligned(old(self).frame),
            same_tag(rect.size.width, old(self).frame.size.width),
            same_tag(rect.size.height, old(self).frame.size.height),
        ensures
            final(self).frame.size == rect.size,
            final(self).id == old(self).id,
            same_tag(final(self).frame.origin.x, old(self).frame.origin.x),
            same_tag(final(self).frame.origin.y, old(self).frame.origin.y),
            dec_of(final(self).frame.origin.x).model() == rebound_origin_m(
                old(self).frame.origin.x,
                old(self).frame.size.width,
                rect.size.width,
            ),
            dec_of(final(self).frame.origin.y).model() == rebound_origin_m(
                old(self).frame.origin.y,
                old(self).frame.size.height,
                rect.size.height,
            ),
    {
        proof {
            lemma_layout_bounds();
        }
        let delta_width = rect.size.width.sub(&self.frame.size.width);
        let delta_height = rect.size.height.sub(&self.frame.size.height);
        let half_w = half_of(&delta_width);
        let half_h = half_of(&delta_height);
        let new_x = self.frame.origin.x.sub(&half_w);
        let new_y = self.frame.origin.y.sub(&half_h);
        proof {
            crate::geometry::unit::lemma_conv_m_tag_only(
                half_w,
                rect.size.width,
                dec_of(half_w).model(),
                self.frame.origin.x,
            );
            crate::geometry::unit::lemma_conv_m_tag_only(
                half_h,
                rect.size.height,
                dec_of(half_h).model(),
                self.frame.origin.y,
            );
        }
        self.frame = Rect {
            origin: Point { x: new_x, y: new_y },
            size: rect.size,
        };
    }

    /// The center of the frame.
    pub fn center(&self) -> (r: Point)
        requires
            rect_in_range(self.frame),
            rect_aligned(self.frame),
        ensures
            same_tag(r.x, self.frame.origin.x),
            same_tag(r.y, self.frame.origin.y),
            abs_int(dec_of(r.x).val28()) <= pow10(42),
            abs_int(dec_of(r.y).val28()) <= pow10(42),
    {
        self.frame.center()
    }

    /// Moves the center of the frame, adjusting the origin.
    pub fn set_center(&mut self, new_center: Point)
        requires
            rect_in_range(old(self).frame),
            rect_aligned(old(self).frame),
            same_tag(new_center.x, old(self).frame.origin.x),
            same_tag(new_center.y, old(self).frame.origin.y),
            abs_int(dec_of(new_center.x).val28()) <= pow10(40),
            abs_int(dec_of(new_center.y).val28()) <= pow10(40),
        ensures
            final(self).frame.size == old(self).frame.size,
            final(self).id == old(self).id,
            same_tag(final(self).frame.origin.x, old(self).frame.origin.x),
            same_tag(final(self).frame.origin.y, old(self).frame.origin.y),
            dec_of(final(self).frame.origin.x).model() == recenter_origin_m(
                old(self).frame.origin.x,
                old(self).frame.size.width,
                new_center.x,
            ),
            dec_of(final(self).frame.origin.y).model() == recenter_origin_m(
                old(self).frame.origin.y,
                old(self).frame.size.height,
                new_center.y,
            ),
    {
        proof {
            lemma_layout_bounds();
        }
        let old_center = self.frame.center();
        let delta_x = new_center.x.sub(&old_center.x);
        let delta_y = new_center.y.sub(&old_center.y);
        let new_x = self.frame.origin.x.add(&delta_x);
        let new_y = self.frame.origin.y.add(&delta_y);
        proof {
            crate::geometry::unit::lemma_conv_m_tag_only(
                old_center.x,
                self.frame.origin.x,
                dec_of(old_center.x).model(),
                new_center.x,
            );
            crate::geometry::unit::lemma_conv_m_tag_only(
                old_center.y,
                self.frame.origin.y,
                dec_of(old_center.y).model(),
                new_center.y,
            );
            crate::geometry::unit::lemma_conv_m_tag_only(
                delta_x,
                new_center.x,
                dec_of(delta_x).model(),
                self.frame.origin.x,
            );
            crate::geometry::unit::lemma_conv_m_tag_only(
                delta_y,
                new_center.y,
                dec_of(delta_y).model(),
                self.frame.origin.y,
            );
        }
        self.frame = Rect {
            origin: Point { x: new_x, y: new_y },
            size: self.frame.size,
        };
    }
}

/// The power bounds layout arithmetic leans on.
proof fn lemma_layout_bounds()
    ensures
        pow10(40) <= pow10(45),
        pow10(40) <= pow10(46),
        pow10(42) <= pow10(46),
        pow10(13) <= pow10(40),
        pow10(45) <= pow10(46),
        pow10(40) >= 1,
        pow10(13) >= 1,
        pow10(42) >= 1,
        pow10(46) == 10 * pow10(45),
        pow10(45) == 10 * pow10(44),
        pow10(44) == 10 * pow10(43),
        pow10(43) == 10 * pow10(42),
        pow10(42) == 10 * pow10(41),
        pow10(41) == 10 * pow10(40),
{
    crate::decimal::lemma_pow10_mono(40, 45);
    crate::decimal::lemma_pow10_mono(40, 46);
    crate::decimal::lemma_pow10_mono(42, 46);
    crate::decimal::lemma_pow10_mono(13, 40);
    crate::decimal::lemma_pow10_mono(45, 46);
    crate::decimal::lemma_pow10_pos(40);
    crate::decimal::lemma_pow10_pos(13);
    crate::decimal::lemma_pow10_pos(42);
}

} // verus!
