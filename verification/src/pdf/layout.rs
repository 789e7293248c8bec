//! Page geometry and font sizes.

use crate::pdf::points::Points;
use vstd::prelude::*;

verus! {

/// Font sizes for PDF text.
#[derive(Debug, Clone, Copy, PartialEq)]
pub enum FontSize<N> {
    /// Heading 1 (24pt).
    H1,
    /// Heading 2 (20pt).
    H2,
    /// Heading 3 (16pt).
    H3,
    /// Normal text (12pt).
    Normal,
    /// Small text (10pt).
    Small,
    /// Footnote (8pt).
    Footnote,
    /// Custom size in points.
    Custom(N),
}

impl<N: Points> FontSize<N> {
    /// The size in points.
    pub open spec fn size(self) -> N {
        match self {
            FontSize::H1 => N::spec_of(24),
            FontSize::H2 => N::spec_of(20),
            FontSize::H3 => N::spec_of(16),
            FontSize::Normal => N::spec_of(12),
            FontSize::Small => N::spec_of(10),
            FontSize::Footnote => N::spec_of(8),
            FontSize::Custom(size) => size,
        }
    }

    /// The height of a line: one and a half times the size.
    pub open spec fn line(self) -> N {
        N::spec_times(self.size(), N::spec_over(N::spec_of(3), N::spec_of(2)))
    }

    /// Gets the size in points.
    pub fn points(&self) -> (r: N)
        ensures
            r == self.size(),
    {
        match self {
            FontSize::H1 => N::of(24),
            FontSize::H2 => N::of(20),
            FontSize::H3 => N::of(16),
            FontSize::Normal => N::of(12),
            FontSize::Small => N::of(10),
            FontSize::Footnote => N::of(8),
            FontSize::Custom(size) => *size,
        }
    }

    /// Gets the height of a line.
    pub fn line_height(&self) -> (r: N)
        ensures
            r == self.line(),
    {
        self.points().times(N::of(3).over(N::of(2)))
    }
}

impl<N> Default for FontSize<N> {
    fn default() -> (r: FontSize<N>)
        ensures
            r == FontSize::<N>::Normal,
    {
        FontSize::Normal
    }
}

/// Text alignment.
#[derive(Debug, Clone, Copy, PartialEq, Eq, Structural)]
pub enum TextAlign {
    Left,
    Center,
    Right,
}

impl Default for TextAlign {
    fn default() -> (r: TextAlign)
        ensures
            r == TextAlign::Left,
    {
        TextAlign::Left
    }
}

/// Page size presets.
#[derive(Debug, Clone, Copy, PartialEq)]
pub enum PageSize<N> {
    /// A4 (595 x 842 points).
    A4,
    /// Letter (612 x 792 points).
    Letter,
    /// Legal (612 x 1008 points).
    Legal,
    /// Custom size in points.
    Custom { width: N, height: N },
}

impl<N: Points> PageSize<N> {
    /// Width and height in points.
    pub open spec fn extent(self) -> (N, N) {
        match self {
            PageSize::A4 => (N::spec_of(595), N::spec_of(842)),
            PageSize::Letter => (N::spec_of(612), N::spec_of(792)),
            PageSize::Legal => (N::spec_of(612), N::spec_of(1008)),
            PageSize::Custom { width, height } => (width, height),
        }
    }

    /// Gets the dimensions in points.
    pub fn dimensions(&self) -> (r: (N, N))
        ensures
            r == self.extent(),
    {
        match self {
            PageSize::A4 => (N::of(595), N::of(842)),
            PageSize::Letter => (N::of(612), N::of(792)),
            PageSize::Legal => (N::of(612), N::of(1008)),
            PageSize::Custom { width, height } => (*width, *height),
        }
    }
}

impl<N> Default for PageSize<N> {
    fn default() -> (r: PageSize<N>)
        ensures
            r == PageSize::<N>::A4,
    {
        PageSize::A4
    }
}

/// Page orientation.
#[derive(Debug, Clone, Copy, PartialEq, Eq, Structural)]
pub enum Orientation {
    Portrait,
    Landscape,
}

impl Default for Orientation {
    fn default() -> (r: Orientation)
        ensures
            r == Orientation::Portrait,
    {
        Orientation::Portrait
    }
}

/// The dimensions of a page in an orientation.
pub open spec fn page_extent<N: Points>(size: PageSize<N>, orientation: Orientation) -> (N, N) {
    let (w, h) = size.extent();
    match orientation {
        Orientation::Portrait => (w, h),
        Orientation::Landscape => (h, w),
    }
}

/// Margin settings in points.
#[derive(Debug, Clone, Copy, PartialEq)]
pub struct Margins<N> {
    pub top: N,
    pub right: N,
    pub bottom: N,
    pub left: N,
}

impl<N: Points> Margins<N> {
    /// The same margin on all sides.
    pub open spec fn all(margin: N) -> Margins<N> {
        Margins { top: margin, right: margin, bottom: margin, left: margin }
    }

    /// Margins of a number of inches.
    pub open spec fn in_inches(value: N) -> Margins<N> {
        Margins::all(N::spec_times(value, N::spec_of(72)))
    }

    /// Creates uniform margins (72 points = 1 inch).
    pub fn uniform(margin: N) -> (r: Margins<N>)
        ensures
            r == Margins::all(margin),
    {
        Margins { top: margin, right: margin, bottom: margin, left: margin }
    }

    /// Creates margins from inches.
    pub fn inches(value: N) -> (r: Margins<N>)
        ensures
            r == Margins::in_inches(value),
    {
        Margins::uniform(value.times(N::of(72)))
    }
}

impl<N: Points> Default for Margins<N> {
    fn default() -> (r: Margins<N>)
        ensures
            r == Margins::<N>::in_inches(N::spec_of(1)),
    {
        Margins::inches(N::of(1))
    }
}

} // verus!
