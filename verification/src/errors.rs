use vstd::prelude::*;

verus! {

/// Everything that can go wrong while resolving a stack frame from the
/// values the host reported.
///
/// The first three variants are protocol-level: the host answered, but not in
/// the shape the query expects, or a required register was absent. They are
/// fatal for the invocation. The last three are user-level: a malformed index
/// argument, a frame index beyond the frames the chain actually holds, or
/// stack/base pointers out of their expected order.
#[derive(Clone, Copy, Debug, PartialEq, Eq, Structural)]
pub enum Error {
    /// A host response did not have the expected shape (missing field,
    /// wrong type, or a byte read of the wrong length).
    Schema,
    /// No register whose name ends in the stack-pointer suffix was found.
    MissingStackPointer,
    /// No register whose name ends in the base-pointer suffix was found.
    MissingBasePointer,
    /// The frame index argument was not a non-negative integer.
    InvalidIndex,
    /// The requested frame index exceeds the frames available before the
    /// chain hit a null saved base pointer.
    FrameOutOfBounds { available: u64 },
    /// After the walk, the stack pointer lies above the base pointer, so the
    /// frame cannot be sized. Both values are carried for diagnostics; the
    /// stack pointer is kept wide because it is one saved-pointer
    /// dereference plus a word, which can exceed the machine word.
    PointerOrder { sp: u128, bp: u128 },
}

} // verus!
