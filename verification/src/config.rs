//! Shared configuration values: paddings around a node's content and the
//! horizontal / vertical alignment policies.

use vstd::prelude::*;

verus! {

/// Padding reserved around a node's content block.  The four values are
/// carried with each plain node; the current layout passes record them but
/// do not consume them.
#[derive(Debug, Clone, Copy, PartialEq, Eq, Structural)]
pub struct Inset {
    pub top: u32,
    pub right: u32,
    pub bottom: u32,
    pub left: u32,
}

/// Step-by-step constructor for [`Inset`].
#[derive(Debug, Clone, Copy)]
pub struct InsetBuilder {
    top: u32,
    right: u32,
    bottom: u32,
    left: u32,
}

impl Inset {
    /// The inset with no padding on any side.
    pub fn empty() -> (r: Inset)
        ensures
            r == (Inset { top: 0u32, right: 0u32, bottom: 0u32, left: 0u32 }),
    {
        Inset { top: 0, right: 0, bottom: 0, left: 0 }
    }

    pub fn builder() -> (r: InsetBuilder)
        ensures
            r@ == (Inset { top: 0u32, right: 0u32, bottom: 0u32, left: 0u32 }),
    {
        InsetBuilder { top: 0, right: 0, bottom: 0, left: 0 }
    }
}

impl InsetBuilder {
    /// The inset this builder would currently produce.
    pub closed spec fn view(&self) -> Inset {
        Inset { top: self.top, right: self.right, bottom: self.bottom, left: self.left }
    }

    pub fn top(&mut self, top: u32)
        ensures
            final(self)@ == (Inset { top, ..old(self)@ }),
    {
        self.top = top;
    }

    pub fn right(&mut self, right: u32)
        ensures
            final(self)@ == (Inset { right, ..old(self)@ }),
    {
        self.right = right;
    }

    pub fn bottom(&mut self, bottom: u32)
        ensures
            final(self)@ == (Inset { bottom, ..old(self)@ }),
    {
        self.bottom = bottom;
    }

    pub fn left(&mut self, left: u32)
        ensures
            final(self)@ == (Inset { left, ..old(self)@ }),
    {
        self.left = left;
    }

    pub fn build(&self) -> (r: Inset)
        ensures
            r == self@,
    {
        Inset { top: self.top, right: self.right, bottom: self.bottom, left: self.left }
    }
}

/// Horizontal placement policy for content, connectors and child spans.
#[derive(Debug, Clone, Copy, PartialEq, Eq, Structural)]
pub enum HorizontalAlign {
    Left,
    Center,
    Right,
}

/// Vertical placement policy.  Recorded for configuration completeness; the
/// row layout of the current printer is fixed top-to-bottom.
#[derive(Debug, Clone, Copy, PartialEq, Eq, Structural)]
pub enum VerticalAlign {
    Top,
    Middle,
    Bottom,
}

} // verus!
