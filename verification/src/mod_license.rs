//! Placeholder linker hook for the licensing extension.
//!
//! The licensing surface is a thin wrapper over a proprietary native
//! library.  When that library is not part of the build, the linker hook
//! intentionally does nothing, so that build scripts can call it
//! unconditionally.

use vstd::prelude::*;

verus! {

/// Link the native licensing library into the build.
///
/// Without the native library present this is deliberately a no-op: a build
/// script may call it unconditionally and nothing is linked.
pub fn link_library() {
}

} // verus!
