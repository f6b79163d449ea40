//! Calendar timestamps as plain values, with the system clock behind a
//! trusted boundary.

use vstd::prelude::*;
use chrono::{Datelike, Offset, Timelike};
use crate::digits::dec_digits_fixed;

verus! {

/// A local calendar date and time with its offset from UTC in minutes.
#[derive(Debug, Clone, Copy, PartialEq, Eq, Structural)]
pub struct DateStamp {
    pub year: u16,
    pub month: u8,
    pub day: u8,
    pub hour: u8,
    pub minute: u8,
    pub second: u8,
    /// Minutes east of UTC; negative offsets lie west.
    pub offset_minutes: i32,
}

/// Field ranges of a plausible calendar stamp.
pub open spec fn date_wf(d: DateStamp) -> bool {
    &&& d.year <= 9999
    &&& 1 <= d.month <= 12
    &&& 1 <= d.day <= 31
    &&& d.hour <= 23
    &&& d.minute <= 59
    &&& d.second <= 60
    &&& -24 * 60 <= d.offset_minutes <= 24 * 60
}

impl DateStamp {
    /// Builds a stamp from its parts.
    pub fn new(
        year: u16,
        month: u8,
        day: u8,
        hour: u8,
        minute: u8,
        second: u8,
        offset_minutes: i32,
    ) -> (r: DateStamp)
        ensures
            r == (DateStamp { year, month, day, hour, minute, second, offset_minutes }),
    {
        DateStamp { year, month, day, hour, minute, second, offset_minutes }
    }
}

/// The rendering `D:YYYYMMDDHHmmSS±HH'mm` used in information entries.
pub open spec fn date_bytes(d: DateStamp) -> Seq<u8> {
    seq![68u8, 58u8] + dec_digits_fixed(d.year as int, 4) + dec_digits_fixed(d.month as int, 2)
        + dec_digits_fixed(d.day as int, 2) + dec_digits_fixed(d.hour as int, 2)
        + dec_digits_fixed(d.minute as int, 2) + dec_digits_fixed(d.second as int, 2) + (if d.offset_minutes
        < 0 {
        seq![45u8]
    } else {
        seq![43u8]
    }) + dec_digits_fixed(abs_minutes(d) / 60, 2) + seq![39u8] + dec_digits_fixed(
        abs_minutes(d) % 60,
        2,
    )
}

/// The offset magnitude in minutes.
pub open spec fn abs_minutes(d: DateStamp) -> int {
    if d.offset_minutes < 0 {
        -(d.offset_minutes as int)
    } else {
        d.offset_minutes as int
    }
}

impl DateStamp {
    /// Appends the `D:` timestamp rendering.
    pub fn push_date(&self, out: &mut Vec<u8>) -> (count: usize)
        ensures
            final(out)@ == old(out)@ + date_bytes(*self),
            count == date_bytes(*self).len(),
    {
        let start = out.len();
        out.push(68);
        out.push(58);
        crate::digits::push_u128_fixed(out, self.year as u128, 4);
        crate::digits::push_u128_fixed(out, self.month as u128, 2);
        crate::digits::push_u128_fixed(out, self.day as u128, 2);
        crate::digits::push_u128_fixed(out, self.hour as u128, 2);
        crate::digits::push_u128_fixed(out, self.minute as u128, 2);
        crate::digits::push_u128_fixed(out, self.second as u128, 2);
        let mag: u32 = if self.offset_minutes < 0 {
            out.push(45);
            if self.offset_minutes == i32::MIN {
                0
            } else {
                (-self.offset_minutes) as u32
            }
        } else {
            out.push(43);
            self.offset_minutes as u32
        };
        proof {
            if self.offset_minutes == i32::MIN {
            } else {
                assert(mag as int == abs_minutes(*self));
            }
        }
        if self.offset_minutes == i32::MIN {
            crate::digits::push_u128_fixed(out, ((i32::MAX as u128) + 1) / 60, 2);
            out.push(39);
            crate::digits::push_u128_fixed(out, ((i32::MAX as u128) + 1) % 60, 2);
        } else {
            crate::digits::push_u128_fixed(out, (mag / 60) as u128, 2);
            out.push(39);
            crate::digits::push_u128_fixed(out, (mag % 60) as u128, 2);
        }
        proof {
            assert(out@ =~= old(out)@ + date_bytes(*self));
        }
        out.len() - start
    }
}

/// Relies on `chrono::Local::now` and the `Datelike`/`Timelike` accessors:
/// the clock yields a calendar stamp whose fields are in their documented
/// ranges.  Nothing further is promised of a clock reading.
#[verifier::external_body]
pub fn now_date() -> (r: DateStamp)
    ensures
        date_wf(r),
{
    let t = chrono::Local::now();
    let offset = t.offset().fix().local_minus_utc() / 60;
    DateStamp::new(
        t.year().clamp(0, 9999) as u16,
        t.month() as u8,
        t.day() as u8,
        t.hour() as u8,
        t.minute() as u8,
        t.second() as u8,
        offset,
    )
}

} // verus!
