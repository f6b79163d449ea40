//! Physical paper size presets.

use vstd::prelude::*;
use super::point::Point;
use super::rect::{rect_in_range, Rect};
use super::size::Size;
use super::unit::{dec_of, Unit};
use crate::decimal::{abs_int, pow10, Decimal};

verus! {

/// Standard paper sizes: the international A series, North American sizes,
/// and ANSI architectural sizes.
#[derive(Debug, Clone, Copy, PartialEq, Eq, Structural)]
pub enum PaperSize {
    A0,
    A1,
    A2,
    A3,
    A4,
    A5,
    A6,
    A7,
    A8,
    A9,
    A10,
    Letter,
    Legal,
    Tabloid,
    Ledger,
    Executive,
    AnsiA,
    AnsiB,
    AnsiC,
    AnsiD,
    AnsiE,
}

/// The width and height models of a preset, with a flag for metric presets
/// (millimeters) versus imperial presets (inches).
pub open spec fn paper_dims(p: PaperSize) -> ((int, nat), (int, nat), bool) {
    match p {
        PaperSize::A0 => ((841, 0nat), (1189, 0nat), true),
        PaperSize::A1 => ((594, 0nat), (841, 0nat), true),
        PaperSize::A2 => ((420, 0nat), (594, 0nat), true),
        PaperSize::A3 => ((297, 0nat), (420, 0nat), true),
        PaperSize::A4 => ((210, 0nat), (297, 0nat), true),
        PaperSize::A5 => ((148, 0nat), (210, 0nat), true),
        PaperSize::A6 => ((105, 0nat), (148, 0nat), true),
        PaperSize::A7 => ((74, 0nat), (105, 0nat), true),
        PaperSize::A8 => ((52, 0nat), (74, 0nat), true),
        PaperSize::A9 => ((37, 0nat), (52, 0nat), true),
        PaperSize::A10 => ((26, 0nat), (37, 0nat), true),
        PaperSize::Letter => ((85, 1nat), (11, 0nat), false),
        PaperSize::Legal => ((85, 1nat), (14, 0nat), false),
        PaperSize::Tabloid => ((11, 0nat), (17, 0nat), false),
        PaperSize::Ledger => ((17, 0nat), (11, 0nat), false),
        PaperSize::Executive => ((725, 2nat), (105, 1nat), false),
        PaperSize::AnsiA => ((85, 1nat), (11, 0nat), false),
        PaperSize::AnsiB => ((11, 0nat), (17, 0nat), false),
        PaperSize::AnsiC => ((17, 0nat), (22, 0nat), false),
        PaperSize::AnsiD => ((22, 0nat), (34, 0nat), false),
        PaperSize::AnsiE => ((34, 0nat), (44, 0nat), false),
    }
}

impl PaperSize {
    /// The preset as a rectangle at the origin, in millimeters or inches.
    pub fn rect(&self) -> (r: Rect)
        ensures
            rect_in_range(r),
            r.origin.x == Unit::Point(dec_of(r.origin.x)),
            dec_of(r.origin.x).model() == (0int, 0nat),
            r.origin.y == Unit::Point(dec_of(r.origin.y)),
            dec_of(r.origin.y).model() == (0int, 0nat),
            dec_of(r.size.width).model() == paper_dims(*self).0,
            dec_of(r.size.height).model() == paper_dims(*self).1,
            paper_dims(*self).2 ==> r.size.width == Unit::Mm(dec_of(r.size.width))
                && r.size.height == Unit::Mm(dec_of(r.size.height)),
            !paper_dims(*self).2 ==> r.size.width == Unit::Inch(dec_of(r.size.width))
                && r.size.height == Unit::Inch(dec_of(r.size.height)),
    {
        let (w, ws, h, hs, metric): (i64, u32, i64, u32, bool) = match self {
            PaperSize::A0 => (841, 0, 1189, 0, true),
            PaperSize::A1 => (594, 0, 841, 0, true),
            PaperSize::A2 => (420, 0, 594, 0, true),
            PaperSize::A3 => (297, 0, 420, 0, true),
            PaperSize::A4 => (210, 0, 297, 0, true),
            PaperSize::A5 => (148, 0, 210, 0, true),
            PaperSize::A6 => (105, 0, 148, 0, true),
            PaperSize::A7 => (74, 0, 105, 0, true),
            PaperSize::A8 => (52, 0, 74, 0, true),
            PaperSize::A9 => (37, 0, 52, 0, true),
            PaperSize::A10 => (26, 0, 37, 0, true),
            PaperSize::Letter => (85, 1, 11, 0, false),
            PaperSize::Legal => (85, 1, 14, 0, false),
            PaperSize::Tabloid => (11, 0, 17, 0, false),
            PaperSize::Ledger => (17, 0, 11, 0, false),
            PaperSize::Executive => (725, 2, 105, 1, false),
            PaperSize::AnsiA => (85, 1, 11, 0, false),
            PaperSize::AnsiB => (11, 0, 17, 0, false),
            PaperSize::AnsiC => (17, 0, 22, 0, false),
            PaperSize::AnsiD => (22, 0, 34, 0, false),
            PaperSize::AnsiE => (34, 0, 44, 0, false),
        };
        let wd = Decimal::new(w, ws);
        let hd = Decimal::new(h, hs);
        let width = if metric {
            Unit::Mm(wd)
        } else {
            Unit::Inch(wd)
        };
        let height = if metric {
            Unit::Mm(hd)
        } else {
            Unit::Inch(hd)
        };
        let r = Rect {
            origin: Point { x: Unit::from(0), y: Unit::from(0) },
            size: Size { width, height },
        };
        proof {
            lemma_small_unit_in_rect_range(wd);
            lemma_small_unit_in_rect_range(hd);
            crate::decimal::lemma_pow10_pos(40);
        }
        r
    }
}

/// A four-digit decimal is far inside the rectangle range.
proof fn lemma_small_unit_in_rect_range(d: Decimal)
    requires
        d.inv(),
        -10000 < d.mantissa_spec() < 10000,
    ensures
        abs_int(d.val28()) <= pow10(40),
{
    let s = d.scale_spec();
    crate::decimal::lemma_pow10_pos((28 - s) as nat);
    crate::decimal::lemma_pow10_mono((28 - s) as nat, 28);
    crate::decimal::lemma_pow10_add(4, 28);
    crate::decimal::lemma_pow10_mono(32, 40);
    assert(pow10(4) == 10000) by {
        reveal_with_fuel(pow10, 6);
    }
    assert(abs_int(d.val28()) <= 10000 * pow10(28)) by (nonlinear_arith)
        requires
            d.val28() == d.mantissa_spec() * pow10((28 - s) as nat),
            -10000 < d.mantissa_spec() < 10000,
            1 <= pow10((28 - s) as nat) <= pow10(28),
    ;
    assert(10000 * pow10(28) == pow10(32));
}

} // verus!
