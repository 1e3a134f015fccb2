use vstd::prelude::*;

verus! {

/// Fatal conditions that abort a translation. Informational conditions
/// (recursion, foreign or skipped callees) are not errors: they select the
/// summary abstraction instead.
#[derive(Clone, Copy, Debug, PartialEq, Eq, Structural)]
pub enum TranslationError {
    /// The IR violates a structural expectation, or contains a terminator
    /// that an upstream pass should have lowered away.
    MalformedIr,
    /// A call goes through a function pointer rather than a definition.
    UnsupportedIndirection,
    /// A call argument is a constant where a local binding is required.
    UnsupportedConstArg,
    /// A place resolves to a static global rather than a local.
    UnsupportedStatic,
    /// A node handle does not belong to the net it was used with.
    InvalidHandle,
    /// A second arc between the same pair of nodes was requested.
    DuplicateArc,
    /// A jump names a basic block that was never allocated.
    UnknownBlock,
}

} // verus!
