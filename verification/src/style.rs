//! Styled-text data: run descriptors, the ambient text style, highlight
//! overrides, and the measurement values the surrounding layout system
//! supplies.

use vstd::prelude::*;

verus! {

/// The bold font weight.
pub const FONT_WEIGHT_BOLD: u16 = 700;

/// Whether text may wrap at the wrap width.
#[derive(Clone, Copy, PartialEq, Eq, Structural, Debug)]
pub enum WhiteSpace {
    /// Wrapping is allowed.
    Normal,
    /// Wrapping is forbidden.
    NoWrap,
}

/// How overlong text is cut when a truncation width applies.
#[derive(Clone, Copy, PartialEq, Eq, Structural, Debug)]
pub enum Truncate {
    /// Hard cut: no marker is injected.
    Truncate,
    /// Cut with an ellipsis marker injected at the cut.
    Ellipsis,
}

/// One axis of the space the surrounding layout system offers.
#[derive(Clone, Copy, PartialEq, Eq, Structural, Debug)]
pub enum AvailableSpace {
    /// A definite number of pixels.
    Definite(i64),
    /// The smallest size fitting the content.
    MinContent,
    /// The largest size fitting the content.
    MaxContent,
}

/// A half-open range of character indices.
#[derive(Clone, Copy, PartialEq, Eq, Structural, Debug)]
pub struct IndexRange {
    pub start: usize,
    pub end: usize,
}

impl IndexRange {
    /// Builds a range from its two endpoints.
    pub fn new(start: usize, end: usize) -> (r: IndexRange)
        ensures
            r == (IndexRange { start, end }),
    {
        IndexRange { start, end }
    }

    /// The index lies within the range.
    pub open spec fn contains_spec(self, ix: int) -> bool {
        self.start <= ix < self.end
    }

    /// Decides whether the index lies within the range.
    pub fn contains(&self, ix: usize) -> (r: bool)
        ensures
            r == self.contains_spec(ix as int),
    {
        self.start <= ix && ix < self.end
    }
}

/// A style override spliced over a range of otherwise uniformly styled
/// text: any field left `None` keeps the base style's value.
#[derive(Clone, Copy, PartialEq, Eq, Debug)]
pub struct HighlightStyle {
    pub color: Option<u32>,
    pub font_weight: Option<u16>,
    pub underline: Option<bool>,
}

/// A run of characters sharing one resolved style. Runs are contiguous, in
/// text order, and cover exactly the text length.
#[derive(Clone, Copy, PartialEq, Eq, Debug)]
pub struct TextRun {
    pub len: usize,
    pub color: u32,
    pub font_weight: u16,
    pub underline: bool,
}

/// The ambient style text is laid out with: resolved pixel metrics plus
/// the wrapping and truncation policy.
#[derive(Clone, Copy, PartialEq, Eq, Debug)]
pub struct TextStyle {
    pub color: u32,
    pub font_weight: u16,
    pub underline: bool,
    pub font_size: i64,
    pub line_height: i64,
    pub white_space: WhiteSpace,
    pub truncate: Option<Truncate>,
}

impl TextStyle {
    /// The run this style produces for `len` characters.
    pub open spec fn to_run_spec(self, len: usize) -> TextRun {
        TextRun { len, color: self.color, font_weight: self.font_weight, underline: self.underline }
    }

    /// Produces a run of `len` characters in this style.
    pub fn to_run(&self, len: usize) -> (r: TextRun)
        ensures
            r == self.to_run_spec(len),
    {
        TextRun { len, color: self.color, font_weight: self.font_weight, underline: self.underline }
    }

    /// This style with a highlight's overrides applied.
    pub open spec fn highlight_spec(self, h: HighlightStyle) -> TextStyle {
        TextStyle {
            color: match h.color {
                Some(c) => c,
                None => self.color,
            },
            font_weight: match h.font_weight {
                Some(w) => w,
                None => self.font_weight,
            },
            underline: match h.underline {
                Some(u) => u,
                None => self.underline,
            },
            ..self
        }
    }

    /// Applies a highlight's overrides to this style.
    pub fn highlight(&self, h: HighlightStyle) -> (r: TextStyle)
        ensures
            r == self.highlight_spec(h),
    {
        let mut out = *self;
        match h.color {
            Some(c) => {
                out.color = c;
            },
            None => {},
        }
        match h.font_weight {
            Some(w) => {
                out.font_weight = w;
            },
            None => {},
        }
        match h.underline {
            Some(u) => {
                out.underline = u;
            },
            None => {},
        }
        out
    }
}

} // verus!
