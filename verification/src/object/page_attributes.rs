//! Inheritable page attributes: paper size and rotation, contributed into a
//! node's dictionary at render time.

use vstd::prelude::*;
use crate::helpers::spec_round_full;
use crate::geometry::paper_size::{paper_dims, PaperSize};
use crate::geometry::rect::rect_in_range;
use crate::pdf_object::{pdf_num_m, render_spec, Dict, PdfModel, PdfObject};

verus! {

/// Page rotation, a multiple of 90 degrees.
#[derive(Debug, Default, Clone, Copy, PartialEq, Eq, Structural)]
pub enum PageRotation {
    #[default]
    R0,
    R90,
    R180,
    R270,
}

/// The rotation in degrees.
pub open spec fn degrees_of(r: PageRotation) -> int {
    match r {
        PageRotation::R0 => 0,
        PageRotation::R90 => 90,
        PageRotation::R180 => 180,
        PageRotation::R270 => 270,
    }
}

impl PageRotation {
    /// The rotation in degrees.
    pub fn degrees(&self) -> (d: u16)
        ensures
            d == degrees_of(*self),
    {
        match self {
            PageRotation::R0 => 0,
            PageRotation::R90 => 90,
            PageRotation::R180 => 180,
            PageRotation::R270 => 270,
        }
    }
}

/// Inherited page attributes that can be applied to pages and page trees.
#[derive(Debug, Default, Clone, Copy, PartialEq, Eq, Structural)]
pub struct InheritedPageAttributes {
    media_box: Option<PaperSize>,
    rotation: Option<PageRotation>,
}

/// The number model of a point-tagged value.
pub open spec fn num_point_m(dm: (int, nat)) -> (int, nat) {
    crate::decimal::spec_normalize_m(
        crate::decimal::spec_rescale_m(
            crate::decimal::spec_mul_m(crate::decimal::spec_div_m(dm, (72, 0nat)), (72, 0nat)),
            5,
        ),
    )
}

/// The model of a paper preset's size coordinate converted to points and
/// added to a zero origin.
pub open spec fn paper_corner_m(metric: bool, dm: (int, nat)) -> (int, nat) {
    let inch_m = if metric {
        crate::decimal::spec_div_m(dm, (254, 1nat))
    } else {
        dm
    };
    spec_round_full(
        crate::decimal::spec_add_m(
            (0, 0nat),
            crate::decimal::spec_mul_m(inch_m, (72, 0nat)),
        ),
    )
}

/// The array value a paper preset renders as: `[0 0 w h]` in points.
pub open spec fn paper_pdf_m(p: PaperSize) -> PdfModel {
    let (wm, hm, metric) = paper_dims(p);
    PdfModel::Array(
        seq![
            PdfModel::Number(num_point_m((0, 0nat))),
            PdfModel::Number(num_point_m((0, 0nat))),
            PdfModel::Number(num_point_m(paper_corner_m(metric, wm))),
            PdfModel::Number(num_point_m(paper_corner_m(metric, hm))),
        ],
    )
}

/// The `/MediaBox ... ` entry these attributes contribute, with its
/// trailing separator, or nothing.
pub open spec fn media_box_entry_bytes(a: InheritedPageAttributes) -> Seq<u8> {
    match a.media_box_spec() {
        Option::Some(p) => seq![
            47u8, 77u8, 101u8, 100u8, 105u8, 97u8, 66u8, 111u8, 120u8, 32u8,
        ] + render_spec(paper_pdf_m(p)) + seq![32u8],
        Option::None => Seq::empty(),
    }
}

/// The `/Rotate N ` entry these attributes contribute, with its trailing
/// separator, or nothing.
pub open spec fn rotate_entry_bytes(a: InheritedPageAttributes) -> Seq<u8> {
    match a.rotation_spec() {
        Option::Some(r) => seq![47u8, 82u8, 111u8, 116u8, 97u8, 116u8, 101u8, 32u8]
            + crate::digits::dec_digits(degrees_of(r)) + seq![32u8],
        Option::None => Seq::empty(),
    }
}

impl InheritedPageAttributes {
    /// The configured paper size.
    pub closed spec fn media_box_spec(&self) -> Option<PaperSize> {
        self.media_box
    }

    /// The configured rotation.
    pub closed spec fn rotation_spec(&self) -> Option<PageRotation> {
        self.rotation
    }

    /// Attributes with nothing configured.
    pub fn empty() -> (r: InheritedPageAttributes)
        ensures
            r.media_box_spec() is None,
            r.rotation_spec() is None,
    {
        InheritedPageAttributes { media_box: Option::None, rotation: Option::None }
    }

    /// Gets the media box.
    pub fn media_box(&self) -> (r: Option<PaperSize>)
        ensures
            r == self.media_box_spec(),
    {
        self.media_box
    }

    /// Sets the media box.
    pub fn set_media_box(&mut self, media_box: Option<PaperSize>)
        ensures
            final(self).media_box_spec() == media_box,
            final(self).rotation_spec() == old(self).rotation_spec(),
    {
        self.media_box = media_box;
    }

    /// Gets the page rotation.
    pub fn rotation(&self) -> (r: Option<PageRotation>)
        ensures
            r == self.rotation_spec(),
    {
        self.rotation
    }

    /// Sets the page rotation.
    pub fn set_rotation(&mut self, rotation: Option<PageRotation>)
        ensures
            final(self).rotation_spec() == rotation,
            final(self).media_box_spec() == old(self).media_box_spec(),
    {
        self.rotation = rotation;
    }

    /// Appends the `/MediaBox` entry, if configured, with its separator.
    pub fn push_media_box_entry(&self, writer: &mut Vec<u8>)
        ensures
            final(writer)@ == old(writer)@ + media_box_entry_bytes(*self),
    {
        match self.media_box {
            Option::Some(p) => {
                writer.push(47);
                writer.push(77);
                writer.push(101);
                writer.push(100);
                writer.push(105);
                writer.push(97);
                writer.push(66);
                writer.push(111);
                writer.push(120);
                writer.push(32);
                let rc = p.rect();
                let v = PdfObject::from_rect(&rc);
                proof {
                    lemma_paper_rect_model(p, rc, v);
                }
                v.render(writer);
                writer.push(32);
                proof {
                    assert(writer@ =~= old(writer)@ + media_box_entry_bytes(*self));
                }
            },
            Option::None => {
                proof {
                    assert(writer@ =~= old(writer)@ + media_box_entry_bytes(*self));
                }
            },
        }
    }

    /// Appends the `/Rotate` entry, if configured, with its separator.
    pub fn push_rotate_entry(&self, writer: &mut Vec<u8>)
        ensures
            final(writer)@ == old(writer)@ + rotate_entry_bytes(*self),
    {
        match self.rotation {
            Option::Some(r) => {
                writer.push(47);
                writer.push(82);
                writer.push(111);
                writer.push(116);
                writer.push(97);
                writer.push(116);
                writer.push(101);
                writer.push(32);
                crate::digits::push_u128_decimal(writer, r.degrees() as u128);
                writer.push(32);
                proof {
                    assert(writer@ =~= old(writer)@ + rotate_entry_bytes(*self));
                }
            },
            Option::None => {
                proof {
                    assert(writer@ =~= old(writer)@ + rotate_entry_bytes(*self));
                }
            },
        }
    }

    /// Adds the configured entries into a caller-built dictionary: the
    /// media box as its corner array under `MediaBox`, and the rotation in
    /// degrees under `Rotate`.
    pub fn extend(&self, dict: &mut Dict)
        requires
            old(dict).wf(),
        ensures
            final(dict).wf(),
            final(dict).model() == ({
                let d1 = match self.media_box_spec() {
                    Option::Some(p) => crate::pdf_object::spec_dict_insert(
                        old(dict).model(),
                        seq![77u8, 101u8, 100u8, 105u8, 97u8, 66u8, 111u8, 120u8],
                        paper_pdf_m(p),
                    ),
                    Option::None => old(dict).model(),
                };
                match self.rotation_spec() {
                    Option::Some(r) => crate::pdf_object::spec_dict_insert(
                        d1,
                        seq![82u8, 111u8, 116u8, 97u8, 116u8, 101u8],
                        PdfModel::Number((degrees_of(r), 0nat)),
                    ),
                    Option::None => d1,
                }
            }),
    {
        if let Option::Some(p) = self.media_box {
            let rc = p.rect();
            let v = PdfObject::from_rect(&rc);
            proof {
                lemma_paper_rect_model(p, rc, v);
            }
            let mk: &[u8] = &[77, 101, 100, 105, 97, 66, 111, 120];
            proof {
                assert(mk@ =~= seq![77u8, 101u8, 100u8, 105u8, 97u8, 66u8, 111u8, 120u8]);
            }
            dict.insert(crate::pdf_object::ascii_key(mk), v);
        }
        if let Option::Some(r) = self.rotation {
            let rk: &[u8] = &[82, 111, 116, 97, 116, 101];
            proof {
                assert(rk@ =~= seq![82u8, 111u8, 116u8, 97u8, 116u8, 101u8]);
            }
            dict.insert(
                crate::pdf_object::ascii_key(rk),
                PdfObject::from_int(r.degrees() as i64),
            );
        }
    }
}

/// A paper preset's rectangle converts to exactly the preset's array value.
proof fn lemma_paper_rect_model(p: PaperSize, rc: crate::geometry::rect::Rect, v: PdfObject)
    requires
        rect_in_range(rc),
        rc.origin.x == crate::geometry::unit::Unit::Point(crate::geometry::unit::dec_of(rc.origin.x)),
        crate::geometry::unit::dec_of(rc.origin.x).model() == (0int, 0nat),
        rc.origin.y == crate::geometry::unit::Unit::Point(crate::geometry::unit::dec_of(rc.origin.y)),
        crate::geometry::unit::dec_of(rc.origin.y).model() == (0int, 0nat),
        crate::geometry::unit::dec_of(rc.size.width).model() == paper_dims(p).0,
        crate::geometry::unit::dec_of(rc.size.height).model() == paper_dims(p).1,
        paper_dims(p).2 ==> rc.size.width == crate::geometry::unit::Unit::Mm(
            crate::geometry::unit::dec_of(rc.size.width),
        ) && rc.size.height == crate::geometry::unit::Unit::Mm(
            crate::geometry::unit::dec_of(rc.size.height),
        ),
        !paper_dims(p).2 ==> rc.size.width == crate::geometry::unit::Unit::Inch(
            crate::geometry::unit::dec_of(rc.size.width),
        ) && rc.size.height == crate::geometry::unit::Unit::Inch(
            crate::geometry::unit::dec_of(rc.size.height),
        ),
        v.model() == PdfModel::Array(
            seq![
                PdfModel::Number(
                    pdf_num_m(rc.origin.x, crate::geometry::unit::dec_of(rc.origin.x).model()),
                ),
                PdfModel::Number(
                    pdf_num_m(rc.origin.y, crate::geometry::unit::dec_of(rc.origin.y).model()),
                ),
                PdfModel::Number(
                    pdf_num_m(
                        rc.origin.x,
                        crate::geometry::unit::spec_add_m_of_units(rc.origin.x, rc.size.width),
                    ),
                ),
                PdfModel::Number(
                    pdf_num_m(
                        rc.origin.y,
                        crate::geometry::unit::spec_add_m_of_units(rc.origin.y, rc.size.height),
                    ),
                ),
            ],
        ),
    ensures
        v.model() == paper_pdf_m(p),
{
    let (wm, hm, metric) = paper_dims(p);
    assert(pdf_num_m(rc.origin.x, (0int, 0nat)) == num_point_m((0, 0nat)));
    assert(crate::geometry::unit::spec_add_m_of_units(rc.origin.x, rc.size.width)
        == paper_corner_m(metric, wm));
    assert(crate::geometry::unit::spec_add_m_of_units(rc.origin.y, rc.size.height)
        == paper_corner_m(metric, hm));
    assert(v.model() == paper_pdf_m(p));
}

} // verus!
