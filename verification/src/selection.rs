use vstd::prelude::*;

verus! {

/// One comma-separated component of a selection specification: either a
/// single logical index, or a range with optional start and end bounds.
/// Indices are signed; negative values count backward from the end of the
/// element sequence, so `-1` selects the last element. An omitted range
/// bound (`None`) stands for the respective extreme of the sequence.
#[derive(Debug)]
pub enum Selection {
    Single(isize),
    Range(Option<isize>, Option<isize>),
}

/// The tokenization strategy that turns one record into its element
/// sequence: delimiter-split fields, raw bytes, or Unicode scalar values.
#[derive(Debug)]
pub enum SelectionType {
    Fields,
    Bytes,
    Characters,
}

/// A fatal configuration error, detected at startup before any record is
/// processed. Each variant carries the offending input text.
#[derive(Debug)]
pub enum CutsError {
    /// A selection component failed signed-integer parsing.
    NonIntegerSelection(String),
    /// A selection component had an unexpected number of `..`-separated parts.
    MalformedSelection(String),
    /// The requested delimiter failed to compile as a pattern.
    InvalidDelimiter(String),
}

} // verus!
