use vstd::prelude::*;

verus! {

/// How each line extends horizontally from the anchor point.
#[derive(Clone, Copy, Debug, PartialEq, Eq, Structural)]
pub enum TextJustify {
    Left,
    Center,
    Right,
}

impl Default for TextJustify {
    /// Lines are centred on the anchor unless asked otherwise.
    fn default() -> (r: Self)
        ensures
            r == TextJustify::Center,
    {
        TextJustify::Center
    }
}

/// Where the block of lines sits relative to the anchor's vertical coordinate.
#[derive(Clone, Copy, Debug, PartialEq, Eq, Structural)]
pub enum VerticalAnchor {
    Top,
    Center,
    Bottom,
}

impl Default for VerticalAnchor {
    /// The block is centred on the anchor unless asked otherwise.
    fn default() -> (r: Self)
        ensures
            r == VerticalAnchor::Center,
    {
        VerticalAnchor::Center
    }
}

/// Whether lines are wrapped once they would grow wider than a pixel budget.
#[derive(Clone, Copy, Debug, PartialEq, Eq, Structural)]
pub enum WrapBehavior {
    NoWrap,
    Wrap(u32),
}

impl WrapBehavior {
    /// Wrapping at `max_width` pixels.
    pub fn new(max_width: u32) -> (r: Self)
        ensures
            r == WrapBehavior::Wrap(max_width),
    {
        WrapBehavior::Wrap(max_width)
    }
}

impl Default for WrapBehavior {
    /// Text is not wrapped unless asked otherwise.
    fn default() -> (r: Self)
        ensures
            r == WrapBehavior::NoWrap,
    {
        WrapBehavior::NoWrap
    }
}

/// Configuration errors found before anything is placed.
#[derive(Clone, Copy, Debug, PartialEq, Eq, Structural)]
pub enum TextOnImageError {
    /// The wrap width is narrower than two em-wide characters; holds the smallest accepted width.
    WrapWidthTooSmall(u32),
    /// A line origin falls outside the `i32` coordinates of the canvas.
    PositionOutOfRange,
}

} // verus!
