//! Error kinds for a scanning run.
//!
//! Every kind is fatal for the run: the caller gets the error and no report.
//! An unmatched block identifier during blueprint scanning is *not* an error;
//! it is recorded as data in the scan result.

use vstd::prelude::*;

verus! {

/// Why a scanning run failed.
#[derive(Debug, PartialEq, Eq, Structural)]
pub enum ScanError {
    /// An input document could not be located. Produced by the surrounding
    /// program that resolves paths and reads files, never by the scanners.
    DocumentNotFound,
    /// The XML scanner hit unbalanced, truncated or invalidly encoded input.
    /// Carries the byte offset at which the document became unreadable.
    MalformedXml { position: u64 },
    /// A component-requirement quantity attribute is not a base-10
    /// non-negative integer that fits the quantity type.
    InvalidQuantity,
    /// A component-requirement element lacks one of its two expected
    /// positional attributes.
    MissingAttribute,
}

impl ScanError {
    /// A short human-readable description, for the presentation layer.
    pub fn describe(&self) -> (r: String)
        ensures
            r@.len() > 0,
    {
        let s = match self {
            ScanError::DocumentNotFound => "input document not found",
            ScanError::MalformedXml { position: _ } => "malformed XML input",
            ScanError::InvalidQuantity => "component quantity is not a non-negative integer",
            ScanError::MissingAttribute => "component entry lacks an expected attribute",
        };
        proof {
            reveal_strlit("input document not found");
            reveal_strlit("malformed XML input");
            reveal_strlit("component quantity is not a non-negative integer");
            reveal_strlit("component entry lacks an expected attribute");
        }
        s.to_owned()
    }
}

} // verus!
