//! The ways in which a trace can fail.

use vstd::prelude::*;

verus! {

/// A failure that ends a trace. A pointer that cannot be followed is not
/// among them: it decodes to `MValue::Unallocated`.
#[derive(Debug, Clone, PartialEq, Eq)]
pub enum Fault {
    /// The traced program ended abnormally; the text is the machine's report.
    Execution(String),
    /// The operand has a type that the decoder does not handle.
    UnsupportedType,
    /// A scalar was read from bytes that were never written.
    Uninitialized,
    /// An operand lies outside every live allocation.
    OutOfBounds,
    /// A boolean holds a bit pattern other than 0 or 1.
    InvalidBool,
    /// A character holds a number that is no Unicode scalar value.
    InvalidChar,
    /// A text slice holds bytes that are not UTF-8.
    InvalidText,
    /// A type registered as a growable sequence lacks the fields expected.
    UnknownLayout,
    /// The value nests deeper than the decoder was allowed to go.
    DepthExceeded,
}

} // verus!
