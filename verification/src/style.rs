//! Layout direction, alignment, floating attachment and text policies.
use vstd::prelude::*;

verus! {

/// Main axis direction for child layout.
#[derive(Debug, Clone, Copy, PartialEq, Eq, Structural)]
pub enum Direction {
    /// Children are placed left to right.
    Row,
    /// Children are placed top to bottom.
    Column,
}

impl Default for Direction {
    fn default() -> (r: Self)
        ensures
            r == Direction::Row,
    {
        Direction::Row
    }
}

/// Horizontal alignment.
#[derive(Debug, Clone, Copy, PartialEq, Eq, Structural)]
pub enum AlignX {
    /// Align to the left edge.
    Left,
    /// Align to the horizontal center.
    Center,
    /// Align to the right edge.
    Right,
}

impl Default for AlignX {
    fn default() -> (r: Self)
        ensures
            r == AlignX::Left,
    {
        AlignX::Left
    }
}

/// Vertical alignment.
#[derive(Debug, Clone, Copy, PartialEq, Eq, Structural)]
pub enum AlignY {
    /// Align to the top edge.
    Top,
    /// Align to the vertical center.
    Center,
    /// Align to the bottom edge.
    Bottom,
}

impl Default for AlignY {
    fn default() -> (r: Self)
        ensures
            r == AlignY::Top,
    {
        AlignY::Top
    }
}

/// Target rectangle used by floating layout.
#[derive(Debug, Clone, PartialEq)]
pub enum AttachTo {
    /// Attach to the parent element.
    Parent,
    /// Attach to the root viewport.
    Root,
    /// Attach to another element by id.
    Element(String),
}

/// Hit-test behavior for floating nodes.
#[derive(Debug, Clone, Copy, PartialEq, Eq, Structural)]
pub enum PointerCapture {
    /// Floating node participates in hit testing.
    Capture,
    /// Pointer events pass through to elements behind it.
    PassThrough,
}

impl Default for PointerCapture {
    fn default() -> (r: Self)
        ensures
            r == PointerCapture::Capture,
    {
        PointerCapture::Capture
    }
}

/// Text wrapping policy.
#[derive(Debug, Clone, Copy, PartialEq, Eq, Structural)]
pub enum TextWrap {
    /// Wrap at whitespace.
    Words,
    /// Split only at newline characters.
    Newlines,
    /// Do not wrap and replace newlines with spaces.
    SingleLine,
}

impl Default for TextWrap {
    fn default() -> (r: Self)
        ensures
            r == TextWrap::Words,
    {
        TextWrap::Words
    }
}

/// Horizontal text alignment inside the text node bounds.
#[derive(Debug, Clone, Copy, PartialEq, Eq, Structural)]
pub enum TextAlign {
    /// Align text to the left.
    Left,
    /// Center each rendered line.
    Center,
    /// Align text to the right.
    Right,
}

impl Default for TextAlign {
    fn default() -> (r: Self)
        ensures
            r == TextAlign::Left,
    {
        TextAlign::Left
    }
}

/// Whether a node's hits are recorded: nodes in normal flow always are;
/// floating nodes only when they capture pointers.
pub fn captures_hits(floating: Option<PointerCapture>) -> (r: bool)
    ensures
        r == (floating is None || floating == Some(PointerCapture::Capture)),
{
    match floating {
        None => true,
        Some(PointerCapture::Capture) => true,
        Some(PointerCapture::PassThrough) => false,
    }
}

} // verus!
