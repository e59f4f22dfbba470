use vstd::prelude::*;

verus! {

/// Everything that can stop a preview from being produced.
#[derive(Debug, PartialEq, Eq)]
pub enum IconError {
    /// The input file is missing or unreadable.
    InputReadError,
    /// The vector document is malformed.
    DocumentParseError,
    /// A raster buffer of the requested dimensions cannot be allocated.
    BufferAllocationError,
    /// A background is not three comma-separated channels in 0..=255; holds
    /// the offending text.
    InvalidBackgroundSpec(String),
    /// Encoding or writing the output failed.
    OutputWriteError,
}

} // verus!
