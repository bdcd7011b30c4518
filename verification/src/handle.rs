//! An opaque identifier for a top-level window owned by the operating system.
//!
//! The switcher never interprets a handle: it only carries it from the
//! enumeration snapshot to the action that the user finally picks, and
//! compares handles for equality. The raw value exists solely so that the
//! unverified shell can convert to and from the platform's window handle type.
use vstd::prelude::*;

verus! {

/// A capability token naming one OS window. Valid only as long as the OS
/// window exists; equality is the only operation the core logic needs.
#[derive(Clone, Copy, PartialEq, Eq, Structural, Debug)]
pub struct WindowHandle {
    id: u64,
}

impl WindowHandle {
    /// The raw platform value, visible to specifications only.
    pub closed spec fn id(self) -> u64 {
        self.id
    }

    /// Wraps a raw platform window handle.
    pub fn new(id: u64) -> (h: WindowHandle)
        ensures
            h.id() == id,
    {
        WindowHandle { id }
    }

    /// Hands the raw value back, for the shell that makes the OS call.
    pub fn raw(self) -> (r: u64)
        ensures
            r == self.id(),
    {
        self.id
    }
}

} // verus!
