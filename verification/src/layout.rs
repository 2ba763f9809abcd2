//! Layout vocabulary shared by nodes and text: child arrangement, overflow
//! policy and text alignment.
use vstd::prelude::*;

verus! {

/// Horizontal text alignment.
#[derive(Clone, Copy, Debug, PartialEq, Eq, Structural)]
pub enum HorizontalAlign {
    Left,
    Center,
    Right,
}

/// Vertical text alignment.
#[derive(Clone, Copy, Debug, PartialEq, Eq, Structural)]
pub enum VerticalAlign {
    Top,
    Center,
    Bottom,
}

/// Overflow policy for content and children that exceed a node's bounds.
#[derive(Clone, Copy, Debug, PartialEq, Eq, Structural)]
pub enum Overflow {
    /// Content can render outside the node's bounds.
    Visible,
    /// Content is clipped to the node's bounds.
    Hidden,
    /// Content is clipped but can be scrolled.
    Scroll,
}

impl Default for Overflow {
    fn default() -> (r: Self)
        ensures
            r == Overflow::Visible,
    {
        Overflow::Visible
    }
}

/// How a node arranges its children.
#[derive(Clone, Copy, Debug, PartialEq, Eq, Structural)]
pub enum Layout {
    /// Children are arranged left to right.
    Horizontal,
    /// Children are arranged top to bottom.
    Vertical,
    /// Children overlap, stacked in the Z direction.
    Stack,
}

impl Default for Layout {
    fn default() -> (r: Self)
        ensures
            r == Layout::Vertical,
    {
        Layout::Vertical
    }
}

} // verus!
