//! The single error channel of the library.
//!
//! Resource content is compiled in and never changes at runtime, so a
//! failure here means a packaging defect, never a transient condition:
//! callers propagate or abort, they do not retry.

use vstd::prelude::*;

verus! {

/// A failure while building a resource table.
#[derive(Debug)]
pub enum Error {
    /// A delimited record did not have exactly two columns; carries the
    /// number of columns the offending record had.
    InvalidRow { columns: usize },
    /// The underlying byte stream could not be decoded: framing reported
    /// by the record reader, or text that is not UTF-8.
    Source(String),
}

impl Error {
    /// A structurally equal copy of the failure.
    pub fn duplicate(&self) -> (r: Error)
        ensures
            r == *self,
    {
        match self {
            Error::InvalidRow { columns } => Error::InvalidRow { columns: *columns },
            Error::Source(m) => Error::Source(m.clone()),
        }
    }

    /// A short description of the failure, for reporting.
    pub fn describe(&self) -> (r: String)
        ensures
            self matches Error::Source(m) ==> r@ == m@,
    {
        match self {
            Error::InvalidRow { columns: _ } => {
                "delimited record does not have exactly two columns".to_owned()
            },
            Error::Source(m) => m.clone(),
        }
    }
}

} // verus!
