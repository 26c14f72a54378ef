//! Outcome of a native function: nothing on success, the error otherwise.

use vstd::prelude::*;
use crate::vm::VMError;

verus! {

/// Outcome of a native call: `None` on success, the boxed error on failure.
pub struct NativeResult(pub Option<Box<VMError>>);

impl NativeResult {
    /// Success.
    pub fn ok() -> (r: NativeResult)
        ensures
            r.0 is None,
    {
        NativeResult(None)
    }

    /// Failure with `error`.
    pub fn err(error: VMError) -> (r: NativeResult)
        ensures
            r.0 matches Some(b) && *b == error,
    {
        NativeResult(Some(Box::new(error)))
    }

    /// Whether the call succeeded.
    pub fn is_ok(&self) -> (r: bool)
        ensures
            r == self.0 is None,
    {
        self.0.is_none()
    }

    /// Whether the call failed.
    pub fn is_err(&self) -> (r: bool)
        ensures
            r == self.0 is Some,
    {
        self.0.is_some()
    }
}

} // verus!
