//! Text styles: layout mode, spacing and the nine-way alignment.

use vstd::prelude::*;

use crate::geometry::{in_i32, Size};

verus! {

#[derive(Debug, Clone, Copy, PartialEq, Eq, Structural)]
pub enum HorizontalAlignment {
    Left,
    Center,
    Right,
}

#[derive(Debug, Clone, Copy, PartialEq, Eq, Structural)]
pub enum VerticalAlignment {
    Top,
    Middle,
    Bottom,
}

/// `v / 2` rounded toward zero, as Rust's `/` on `i32` computes it.
pub open spec fn half_toward_zero(v: int) -> int {
    if v >= 0 {
        v / 2
    } else {
        -((-v) / 2)
    }
}

/// Where a box of extent `inner` starts inside a box of extent `outer`:
/// at the start, centered (rounded toward zero) or at the end.
pub open spec fn align_offset(start: bool, center: bool, outer: int, inner: int) -> int {
    if start {
        0
    } else if center {
        half_toward_zero(outer - inner)
    } else {
        outer - inner
    }
}

/// The signed value that `v as i32` gives for a `u32`.
pub open spec fn u32_as_i32(v: u32) -> int {
    (v as i32) as int
}

/// Whether the difference that an alignment offset computes fits in `i32`.
pub open spec fn offset_defined(outer: u32, inner: u32) -> bool {
    in_i32(u32_as_i32(outer) - u32_as_i32(inner))
}

impl HorizontalAlignment {
    pub open spec fn spec_offset(self, outer: int, inner: int) -> int {
        align_offset(self is Left, self is Center, outer, inner)
    }

    /// The x offset of a box of width `inner` inside one of width `outer`.
    pub fn offset(self, outer_width: u32, inner_width: u32) -> (r: i32)
        requires
            offset_defined(outer_width, inner_width),
        ensures
            r == self.spec_offset(u32_as_i32(outer_width), u32_as_i32(inner_width)),
    {
        match self {
            HorizontalAlignment::Left => 0,
            HorizontalAlignment::Center => (outer_width as i32 - inner_width as i32) / 2,
            HorizontalAlignment::Right => outer_width as i32 - inner_width as i32,
        }
    }
}

impl VerticalAlignment {
    pub open spec fn spec_offset(self, outer: int, inner: int) -> int {
        align_offset(self is Top, self is Middle, outer, inner)
    }

    /// The y offset of a box of height `inner` inside one of height `outer`.
    pub fn offset(self, outer_height: u32, inner_height: u32) -> (r: i32)
        requires
            offset_defined(outer_height, inner_height),
        ensures
            r == self.spec_offset(u32_as_i32(outer_height), u32_as_i32(inner_height)),
    {
        match self {
            VerticalAlignment::Top => 0,
            VerticalAlignment::Middle => (outer_height as i32 - inner_height as i32) / 2,
            VerticalAlignment::Bottom => outer_height as i32 - inner_height as i32,
        }
    }
}

/// A horizontal and a vertical alignment.
#[derive(Debug, Clone, Copy, PartialEq, Eq, Structural)]
pub struct Alignment {
    pub horizontal: HorizontalAlignment,
    pub vertical: VerticalAlignment,
}

impl Alignment {
    pub open spec fn spec_top_left() -> Alignment {
        Alignment { horizontal: HorizontalAlignment::Left, vertical: VerticalAlignment::Top }
    }

    pub fn top_left() -> (a: Alignment)
        ensures
            a == Self::spec_top_left(),
    {
        Alignment { horizontal: HorizontalAlignment::Left, vertical: VerticalAlignment::Top }
    }

    pub open spec fn spec_top_center() -> Alignment {
        Alignment { horizontal: HorizontalAlignment::Center, vertical: VerticalAlignment::Top }
    }

    pub fn top_center() -> (a: Alignment)
        ensures
            a == Self::spec_top_center(),
    {
        Alignment { horizontal: HorizontalAlignment::Center, vertical: VerticalAlignment::Top }
    }

    pub open spec fn spec_top_right() -> Alignment {
        Alignment { horizontal: HorizontalAlignment::Right, vertical: VerticalAlignment::Top }
    }

    pub fn top_right() -> (a: Alignment)
        ensures
            a == Self::spec_top_right(),
    {
        Alignment { horizontal: HorizontalAlignment::Right, vertical: VerticalAlignment::Top }
    }

    pub open spec fn spec_middle_left() -> Alignment {
        Alignment { horizontal: HorizontalAlignment::Left, vertical: VerticalAlignment::Middle }
    }

    pub fn middle_left() -> (a: Alignment)
        ensures
            a == Self::spec_middle_left(),
    {
        Alignment { horizontal: HorizontalAlignment::Left, vertical: VerticalAlignment::Middle }
    }

    pub open spec fn spec_center() -> Alignment {
        Alignment { horizontal: HorizontalAlignment::Center, vertical: VerticalAlignment::Middle }
    }

    pub fn center() -> (a: Alignment)
        ensures
            a == Self::spec_center(),
    {
        Alignment { horizontal: HorizontalAlignment::Center, vertical: VerticalAlignment::Middle }
    }

    pub open spec fn spec_middle_right() -> Alignment {
        Alignment { horizontal: HorizontalAlignment::Right, vertical: VerticalAlignment::Middle }
    }

    pub fn middle_right() -> (a: Alignment)
        ensures
            a == Self::spec_middle_right(),
    {
        Alignment { horizontal: HorizontalAlignment::Right, vertical: VerticalAlignment::Middle }
    }

    pub open spec fn spec_bottom_left() -> Alignment {
        Alignment { horizontal: HorizontalAlignment::Left, vertical: VerticalAlignment::Bottom }
    }

    pub fn bottom_left() -> (a: Alignment)
        ensures
            a == Self::spec_bottom_left(),
    {
        Alignment { horizontal: HorizontalAlignment::Left, vertical: VerticalAlignment::Bottom }
    }

    pub open spec fn spec_bottom_center() -> Alignment {
        Alignment { horizontal: HorizontalAlignment::Center, vertical: VerticalAlignment::Bottom }
    }

    pub fn bottom_center() -> (a: Alignment)
        ensures
            a == Self::spec_bottom_center(),
    {
        Alignment { horizontal: HorizontalAlignment::Center, vertical: VerticalAlignment::Bottom }
    }

    pub open spec fn spec_bottom_right() -> Alignment {
        Alignment { horizontal: HorizontalAlignment::Right, vertical: VerticalAlignment::Bottom }
    }

    pub fn bottom_right() -> (a: Alignment)
        ensures
            a == Self::spec_bottom_right(),
    {
        Alignment { horizontal: HorizontalAlignment::Right, vertical: VerticalAlignment::Bottom }
    }

    pub fn new(horizontal: HorizontalAlignment, vertical: VerticalAlignment) -> (a: Alignment)
        ensures
            a.horizontal == horizontal,
            a.vertical == vertical,
    {
        Alignment { horizontal, vertical }
    }

    /// The offsets of a box of size `inner` inside one of size `outer`.
    pub fn offset(self, outer: Size, inner: Size) -> (r: (i32, i32))
        requires
            offset_defined(outer.width, inner.width),
            offset_defined(outer.height, inner.height),
        ensures
            r.0 == self.horizontal.spec_offset(u32_as_i32(outer.width), u32_as_i32(inner.width)),
            r.1 == self.vertical.spec_offset(u32_as_i32(outer.height), u32_as_i32(inner.height)),
    {
        (
            self.horizontal.offset(outer.width, inner.width),
            self.vertical.offset(outer.height, inner.height),
        )
    }
}

/// How characters get their cells: monospace uses the generated cell widths
/// and glyph offsets, proportional uses each glyph's bitmap width.
#[derive(Debug, Clone, Copy, PartialEq, Eq, Structural)]
pub enum TextLayout {
    Monospace { spacing: i32, line_spacing: i32 },
    Proportional { spacing: i32, line_spacing: i32 },
}

impl TextLayout {
    pub open spec fn spec_spacing(self) -> i32 {
        match self {
            TextLayout::Monospace { spacing, .. } => spacing,
            TextLayout::Proportional { spacing, .. } => spacing,
        }
    }

    pub open spec fn spec_line_spacing(self) -> i32 {
        match self {
            TextLayout::Monospace { line_spacing, .. } => line_spacing,
            TextLayout::Proportional { line_spacing, .. } => line_spacing,
        }
    }

    pub fn monospace() -> (l: TextLayout)
        ensures
            l == (TextLayout::Monospace { spacing: 0, line_spacing: 0 }),
    {
        TextLayout::Monospace { spacing: 0, line_spacing: 0 }
    }

    pub fn monospace_with_spacing(spacing: i32, line_spacing: i32) -> (l: TextLayout)
        ensures
            l == (TextLayout::Monospace { spacing, line_spacing }),
    {
        TextLayout::Monospace { spacing, line_spacing }
    }

    pub fn proportional(spacing: i32) -> (l: TextLayout)
        ensures
            l == (TextLayout::Proportional { spacing, line_spacing: 0 }),
    {
        TextLayout::Proportional { spacing, line_spacing: 0 }
    }

    pub fn proportional_with_line_spacing(spacing: i32, line_spacing: i32) -> (l: TextLayout)
        ensures
            l == (TextLayout::Proportional { spacing, line_spacing }),
    {
        TextLayout::Proportional { spacing, line_spacing }
    }
}

/// A color, a layout and an alignment for `DrawableText`.
#[derive(Debug, Clone, Copy, PartialEq, Eq)]
pub struct TextStyle<C> {
    pub color: C,
    pub layout: TextLayout,
    pub alignment: Alignment,
}

impl<C> TextStyle<C> {
    /// A proportional, unspaced, centered style.
    pub fn new(color: C) -> (s: TextStyle<C>)
        ensures
            s.color == color,
            s.layout == (TextLayout::Proportional { spacing: 0, line_spacing: 0 }),
            s.alignment == Alignment::spec_center(),
    {
        TextStyle {
            color,
            layout: TextLayout::Proportional { spacing: 0, line_spacing: 0 },
            alignment: Alignment::center(),
        }
    }

    pub fn monospace(self) -> (s: TextStyle<C>)
        ensures
            s == (TextStyle { layout: TextLayout::Monospace { spacing: 0, line_spacing: 0 }, ..self }),
    {
        TextStyle { layout: TextLayout::monospace(), ..self }
    }

    pub fn monospace_with_spacing(self, spacing: i32, line_spacing: i32) -> (s: TextStyle<C>)
        ensures
            s == (TextStyle { layout: TextLayout::Monospace { spacing, line_spacing }, ..self }),
    {
        TextStyle { layout: TextLayout::monospace_with_spacing(spacing, line_spacing), ..self }
    }

    pub fn proportional(self, spacing: i32) -> (s: TextStyle<C>)
        ensures
            s == (TextStyle { layout: TextLayout::Proportional { spacing, line_spacing: 0 }, ..self }),
    {
        TextStyle { layout: TextLayout::proportional(spacing), ..self }
    }

    pub fn proportional_with_line_spacing(self, spacing: i32, line_spacing: i32) -> (s: TextStyle<
        C,
    >)
        ensures
            s == (TextStyle { layout: TextLayout::Proportional { spacing, line_spacing }, ..self }),
    {
        TextStyle {
            layout: TextLayout::proportional_with_line_spacing(spacing, line_spacing),
            ..self
        }
    }

    pub fn align(self, alignment: Alignment) -> (s: TextStyle<C>)
        ensures
            s == (TextStyle { alignment, ..self }),
    {
        TextStyle { alignment, ..self }
    }
}

} // verus!
