use vstd::prelude::*;

verus! {

/// The failure kinds a render job surfaces to its caller.
///
/// Every failure is recoverable: it aborts the current render job and is
/// returned to the caller, never swallowed and never a process abort.
#[derive(Clone, Copy, Debug, PartialEq, Eq, Structural)]
pub enum Error {
    /// A pixel coordinate lies outside the current or allowed canvas.
    OutOfBounds,
    /// A font resource was malformed or missing.
    FontLoadFailure,
    /// An operation kind for which no rendering routine exists.
    UnsupportedOperation,
    /// Canvas growth would exceed the configured maximum width.
    WidthExceeded,
}

} // verus!
