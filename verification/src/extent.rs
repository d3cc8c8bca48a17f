//! Byte ranges on a device.

use vstd::prelude::*;

verus! {

/// A range of a device. `whole_bytes` is false for a range that starts or ends
/// inside a byte, as a bit field does.
#[derive(Clone, Copy, Debug, PartialEq, Eq, Structural)]
pub struct Span {
    pub at: u64,
    pub len: u64,
    pub whole_bytes: bool,
}

impl Span {
    /// `len` whole bytes at `at`.
    pub open spec fn of_bytes(at: u64, len: u64) -> Span {
        Span { at, len, whole_bytes: true }
    }

    /// `len` whole bytes at `at`.
    pub fn bytes(at: u64, len: u64) -> (r: Span)
        ensures
            r == Span::of_bytes(at, len),
    {
        Span { at, len, whole_bytes: true }
    }
}

} // verus!
