use vstd::prelude::*;

verus! {

/// The recoverable failures of decoding GFA field text.
///
/// Every decode operation in this crate returns one of these instead of
/// aborting: a driving reader can report the offending field and then
/// continue or stop by its own policy.
#[derive(Debug, Clone, Copy, PartialEq, Eq, Structural)]
pub enum GfaError {
    /// An orientation field held something other than `+` or `-`.
    InvalidOrientation,
    /// An optional field's value did not match the grammar of its type code.
    MalformedValue,
    /// A path segment token was empty or did not end in `+` or `-`.
    MalformedPathToken,
    /// An optional field's type code was not one of `A`, `i`, `f`, `Z`, `J`,
    /// `H`, `B`.
    UnknownTypeCode,
}

} // verus!
