//! Integer measures of a canvas or a texture, and the labels of the buffers which hold what
//! is drawn.

use crate::text::{push_decimal, push_text, spec_decimal, text_of};
use vstd::prelude::*;

verus! {

/// Denotes a pixel on a canvas or texture.
#[derive(Debug, Copy, Clone, PartialEq, Eq, Structural, Hash)]
pub struct Pixel {
    pub x: u32,
    pub y: u32,
}

impl Default for Pixel {
    /// The pixel in the top left corner.
    fn default() -> (res: Self)
        ensures
            res == (Pixel { x: 0, y: 0 }),
    {
        Pixel { x: 0, y: 0 }
    }
}

impl Pixel {
    pub fn new(x: u32, y: u32) -> (res: Self)
        ensures
            res == (Pixel { x, y }),
    {
        Self { x, y }
    }

    /// The text form of the pixel: both coordinates in square brackets.
    pub open spec fn spec_text(self) -> Seq<char> {
        "["@ + spec_decimal(self.x as nat) + " "@ + spec_decimal(self.y as nat) + "]"@
    }

    /// Appends the text form of the pixel.
    fn push_to(&self, chars: &mut Vec<char>)
        ensures
            final(chars)@ == old(chars)@ + self.spec_text(),
    {
        push_text(chars, "[");
        push_decimal(chars, self.x as u64);
        push_text(chars, " ");
        push_decimal(chars, self.y as u64);
        push_text(chars, "]");
        assert(chars@ =~= old(chars)@ + self.spec_text());
    }

    /// Writes the pixel as a text.
    pub fn to_string(&self) -> (res: String)
        ensures
            res@ == self.spec_text(),
    {
        let mut chars: Vec<char> = Vec::new();
        self.push_to(&mut chars);
        assert(chars@ =~= self.spec_text());
        text_of(&chars)
    }
}

/// A rectangle described by two [`Pixel`]s which denote the top left corner and the bottom
/// right one of the rectangle.
#[derive(Debug, Copy, Clone, PartialEq, Eq, Structural, Hash)]
pub struct Rect {
    pub top_left: Pixel,
    pub bottom_right: Pixel,
}

impl Rect {
    pub fn new(top_left: Pixel, bottom_right: Pixel) -> (res: Self)
        ensures
            res == (Rect { top_left, bottom_right }),
    {
        Self { top_left, bottom_right }
    }

    /// The rectangle between two corners.
    pub fn from_corners(value: [Pixel; 2]) -> (res: Self)
        ensures
            res == (Rect { top_left: value@[0], bottom_right: value@[1] }),
    {
        Self { top_left: value[0], bottom_right: value[1] }
    }

    /// The text form of the rectangle: both corners with an arrow between them.
    pub open spec fn spec_text(self) -> Seq<char> {
        self.top_left.spec_text() + "->"@ + self.bottom_right.spec_text()
    }

    /// Writes the rectangle as a text.
    pub fn to_string(&self) -> (res: String)
        ensures
            res@ == self.spec_text(),
    {
        let mut chars: Vec<char> = Vec::new();
        self.top_left.push_to(&mut chars);
        push_text(&mut chars, "->");
        self.bottom_right.push_to(&mut chars);
        assert(chars@ =~= self.spec_text());
        text_of(&chars)
    }
}

/// Describes the size of a canvas, texture or square area.
#[derive(Debug, Copy, Clone, PartialEq, Eq, Structural, Hash)]
pub struct Size {
    pub width: u32,
    pub height: u32,
}

impl Size {
    pub fn new(width: u32, height: u32) -> (res: Self)
        ensures
            res == (Size { width, height }),
    {
        Self { width, height }
    }

    /// The text form of the size: width and height with an `x` between them.
    pub open spec fn spec_text(self) -> Seq<char> {
        spec_decimal(self.width as nat) + "x"@ + spec_decimal(self.height as nat)
    }

    /// Writes the size as a text.
    pub fn to_string(&self) -> (res: String)
        ensures
            res@ == self.spec_text(),
    {
        let mut chars: Vec<char> = Vec::new();
        push_decimal(&mut chars, self.width as u64);
        push_text(&mut chars, "x");
        push_decimal(&mut chars, self.height as u64);
        assert(chars@ =~= self.spec_text());
        text_of(&chars)
    }
}

/// What is known of a buffer besides its use.
#[derive(Debug)]
pub struct BufferInfo {
    pub label: Option<String>,
}

impl Default for BufferInfo {
    /// A buffer without a label.
    fn default() -> (res: Self)
        ensures
            res.label is None,
    {
        Self { label: None }
    }
}

impl Clone for BufferInfo {
    fn clone(&self) -> (res: Self)
        ensures
            res == *self,
    {
        Self {
            label: match &self.label {
                Some(label) => Some(label.clone()),
                None => None,
            },
        }
    }
}

impl BufferInfo {
    /// A buffer without a label.
    pub fn new() -> (res: Self)
        ensures
            res.label is None,
    {
        Self::default()
    }

    /// The same buffer with the given label.
    pub fn with_label(self, label: &str) -> (res: Self)
        ensures
            res.label matches Some(text) && text@ == label@,
    {
        let mut res = self;
        res.label = Some(label.to_string());
        res
    }
}

} // verus!
