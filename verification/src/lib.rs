//! Build PDF documents in memory and serialize them to an exact byte stream.
//!
//! The crate is organised around three pieces: a decimal/unit geometry
//! subsystem, a PDF value model with a deterministic byte renderer, and an
//! indirect-object registry that drives whole-document rendering through a
//! cross-reference table.

use vstd::prelude::*;

pub mod content;
pub mod cross_reference;
pub mod dates;
pub mod decimal;
pub mod error;
pub mod digits;
pub mod geometry;
pub mod object;
pub mod pdf_object;
pub mod resources;
pub mod helpers;

verus! {

/// Adds two numbers.
pub fn add(left: u64, right: u64) -> (r: u64)
    requires
        left + right <= u64::MAX,
    ensures
        r == left + right,
{
    left + right
}

} // verus!
