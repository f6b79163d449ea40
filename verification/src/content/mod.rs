//! Content that can be laid out across pages.

pub mod contents;
pub mod frame;

pub use contents::Contents;
pub use frame::Frame;

use vstd::prelude::*;
use crate::geometry::rect::{rect_in_range, Rect};
use frame::rect_aligned;
use crate::geometry::unit::{dec_of, same_tag};
use crate::decimal::{abs_int, pow10};

verus! {

/// Content identifier.
pub type ContentId = u16;

/// Content that can be laid out across one or more pages and rendered.
#[derive(Debug, Clone, Copy, PartialEq)]
pub enum Content {
    /// Simple framed content.
    Frame(Frame),
}

/// Trait used to lay out content.
pub trait Layout: Sized {
    /// The content's identifier.
    spec fn id_spec(&self) -> ContentId;

    /// The content's frame.
    spec fn frame_spec(&self) -> Rect;

    /// Creates a new instance.
    fn new(id: ContentId, frame: Rect) -> (r: Self)
        ensures
            r.id_spec() == id,
            r.frame_spec() == frame,
    ;

    /// Gets the content's id.
    fn get_id(&self) -> (r: ContentId)
        ensures
            r == self.id_spec(),
    ;

    /// The location and size of the content with respect to its parent.
    fn frame(&self) -> (r: Rect)
        ensures
            r == self.frame_spec(),
    ;

    /// Sets the location and size of the content with respect to its parent.
    fn set_frame(&mut self, rect: Rect)
        ensures
            final(self).frame_spec() == rect,
            final(self).id_spec() == old(self).id_spec(),
    ;
}

impl Layout for Content {
    open spec fn id_spec(&self) -> ContentId {
        match *self {
            Content::Frame(f) => f.id,
        }
    }

    open spec fn frame_spec(&self) -> Rect {
        match *self {
            Content::Frame(f) => f.frame,
        }
    }

    fn new(id: ContentId, frame: Rect) -> (r: Content) {
        Content::Frame(Frame { id, frame })
    }

    fn get_id(&self) -> (r: ContentId) {
        match self {
            Content::Frame(f) => f.id,
        }
    }

    fn frame(&self) -> (r: Rect) {
        match self {
            Content::Frame(f) => f.frame,
        }
    }

    fn set_frame(&mut self, rect: Rect) {
        match self {
            Content::Frame(f) => f.frame = rect,
        }
    }
}

impl Content {
    /// The size of the content in its own coordinate system, with the
    /// origin at zero.
    pub fn bounds(&self) -> (r: Rect)
        ensures
            r.size == self.frame_spec().size,
            r.origin.x == crate::geometry::unit::Unit::Point(crate::geometry::unit::dec_of(r.origin.x)),
            crate::geometry::unit::dec_of(r.origin.x).model() == (0int, 0nat),
            crate::geometry::unit::dec_of(r.origin.y).model() == (0int, 0nat),
    {
        match self {
            Content::Frame(f) => f.bounds(),
        }
    }

    /// Grows or shrinks the frame to the given bounds from its center,
    /// adjusting the origin accordingly.
    pub fn set_bounds(&mut self, rect: Rect)
        requires
            rect_in_range(rect),
            rect_in_range(old(self).frame_spec()),
            rect_aligned(rect),
            rect_aligned(old(self).frame_spec()),
            same_tag(rect.size.width, old(self).frame_spec().size.width),
            same_tag(rect.size.height, old(self).frame_spec().size.height),
        ensures
            final(self).frame_spec().size == rect.size,
            final(self).id_spec() == old(self).id_spec(),
            dec_of(final(self).frame_spec().origin.x).model() == frame::rebound_origin_m(
                old(self).frame_spec().origin.x,
                old(self).frame_spec().size.width,
                rect.size.width,
            ),
            dec_of(final(self).frame_spec().origin.y).model() == frame::rebound_origin_m(
                old(self).frame_spec().origin.y,
                old(self).frame_spec().size.height,
                rect.size.height,
            ),
    {
        match self {
            Content::Frame(f) => f.set_bounds(rect),
        }
    }

    /// The center of the frame.
    pub fn center(&self) -> (r: crate::geometry::point::Point)
        requires
            rect_in_range(self.frame_spec()),
            rect_aligned(self.frame_spec()),
    {
        match self {
            Content::Frame(f) => f.center(),
        }
    }

    /// Moves the center of the frame, adjusting the origin.
    pub fn set_center(&mut self, new_center: crate::geometry::point::Point)
        requires
            rect_in_range(old(self).frame_spec()),
            rect_aligned(old(self).frame_spec()),
            same_tag(new_center.x, old(self).frame_spec().origin.x),
            same_tag(new_center.y, old(self).frame_spec().origin.y),
            abs_int(dec_of(new_center.x).val28()) <= pow10(40),
            abs_int(dec_of(new_center.y).val28()) <= pow10(40),
        ensures
            final(self).frame_spec().size == old(self).frame_spec().size,
            final(self).id_spec() == old(self).id_spec(),
            dec_of(final(self).frame_spec().origin.x).model() == frame::recenter_origin_m(
                old(self).frame_spec().origin.x,
                old(self).frame_spec().size.width,
                new_center.x,
            ),
            dec_of(final(self).frame_spec().origin.y).model() == frame::recenter_origin_m(
                old(self).frame_spec().origin.y,
                old(self).frame_spec().size.height,
                new_center.y,
            ),
    {
        match self {
            Content::Frame(f) => f.set_center(new_center),
        }
    }
}

} // verus!
