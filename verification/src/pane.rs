//! Identifiers and directions for panes of a split screen.

pub mod split_tree;

use vstd::prelude::*;

verus! {

/// Unique identifier for a pane
#[derive(Debug, Clone, Copy, PartialEq, Eq, Hash, Structural)]
pub struct PaneId(pub u16);

/// Split direction
#[derive(Debug, Clone, Copy, PartialEq, Eq, Structural)]
pub enum Direction {
    /// left | right
    Horizontal,
    /// top / bottom
    Vertical,
}

/// Navigation direction for moving between panes
#[derive(Debug, Clone, Copy, PartialEq, Eq, Structural)]
pub enum NavDirection {
    Left,
    Right,
    Up,
    Down,
}

} // verus!
