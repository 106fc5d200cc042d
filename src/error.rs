use vstd::prelude::*;

verus! {

/// What an entry listing is expected to hold.
#[derive(Clone, Copy, Debug, PartialEq, Eq, Structural)]
pub enum Expectation {
    AnyType,
    DirsOnly,
    FilesOnly,
}

/// Every failure the library reports.
#[derive(Debug)]
pub enum Error {
    /// A filesystem access failed.
    IoFailure(String),
    /// An entry of the wrong kind was found: the offending path and what was expected.
    InvalidEntry(String, Expectation),
    /// A name did not yield the key that was asked of it.
    ParseFailure(String),
    /// An image or output extension is not one of the supported ones.
    UnsupportedFormat(String),
    /// A cover image could not be decoded.
    ImageFailure(String),
    /// A volume plan does not cover the chapters there are.
    InvalidPlan(String),
    /// There was nothing to process.
    EmptyInput(String),
    /// A concurrent unit of work failed or was aborted.
    ConcurrentTaskFailure(String),
}

} // verus!
