//! Error kinds that an extraction run can surface.

use vstd::prelude::*;

verus! {

/// Every failure a run can report. Per-block point-query failures are
/// retried locally and never become a `SerpicoError`; everything else
/// surfaces to the run level through one of these variants, each carrying
/// a human-readable description of the underlying failure.
#[derive(Debug)]
pub enum SerpicoError {
    /// The configured endpoint string is not a valid URL.
    UrlParsingErr(String),
    /// A bound of the block-interval argument is not an unsigned integer.
    IntParsingErr(String),
    /// A remote query failed on a path that is not retried
    /// (head lookup, logs range query).
    ClientErr(String),
    /// Tabular serialization failed.
    WriterErr(String),
    /// Flushing or closing an output failed.
    IoErr(String),
}

} // verus!
