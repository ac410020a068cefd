//! Events of the seat session that grants access to the display and input.

use vstd::prelude::*;

verus! {

/// Session event from libseat
#[derive(Debug, Clone, Copy, PartialEq, Eq, Structural)]
pub enum SessionEvent {
    /// Session enabled (VT acquired)
    Enable,
    /// Session disabled (VT released)
    Disable,
}

} // verus!
