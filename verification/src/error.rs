//! The error taxonomy of the library.

use vstd::prelude::*;

verus! {

/// Every failure the core can report.
#[derive(Debug, Clone, Copy, PartialEq, Eq, Structural)]
pub enum PdfError {
    /// A referenced document or object is absent where it is required.
    NotFound,
    /// A generic object was interpreted as a variant it is not.
    TypeMismatch,
    /// A page-tree child that is neither a page nor a subtree.
    InvalidChild,
    /// The document information object is missing during rendering.
    MissingInfo,
    /// The catalog is missing during rendering.
    MissingCatalog,
    /// The page tree is missing during rendering.
    MissingPageTree,
    /// An image format the encoding pipeline cannot map.
    UnsupportedFormat,
    /// Image bytes that failed to decode.
    ImageDecode,
    /// A pixel layout the encoding pipeline cannot map.
    UnsupportedColorType,
}

} // verus!
