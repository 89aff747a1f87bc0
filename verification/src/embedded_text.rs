//! A character style that renders single lines of glyph-cell text through
//! a baseline-based text renderer.

use vstd::prelude::*;

use crate::font::FontData;
use crate::geometry::{in_i32, max_int, str_chars, Point, Rectangle, Size};
use crate::layout::{
    advance_pen, cell_width_of, cell_widths, extent, extent_defined, fits_i32, glyph_origin_in_cell,
    near_edge, non_negative_u32, pen_before, pen_at, run_bounds, LineMetrics,
};
use crate::style::TextLayout;
use crate::text::{draw_glyph, glyph_drawable, glyph_fits, glyph_points};

verus! {

broadcast use vstd::seq_lib::group_seq_properties;

/// The vertical reference line that a text position refers to.
#[derive(Debug, Clone, Copy, PartialEq, Eq, Structural)]
pub enum Baseline {
    Top,
    Bottom,
    Middle,
    Alphabetic,
}

/// The box that a rendered string occupies and where the next string
/// continues.
#[derive(Debug, Clone, Copy, PartialEq, Eq, Structural)]
pub struct TextMetrics {
    pub bounding_box: Rectangle,
    pub next_position: Point,
}

/// A character style for single lines of text in a glyph-cell font, with an
/// optional text color (no color draws nothing).
#[derive(Debug, Clone, Copy, PartialEq, Eq)]
pub struct GlyphCellTextStyle<'a, C> {
    pub font_data: &'a FontData<'a>,
    pub text_color: Option<C>,
    pub layout: TextLayout,
}

/// The distance from the top of a line to the baseline: 0 for the top, the
/// last pixel row of the em box for the bottom and the alphabetic baseline,
/// half of it (rounded down) for the middle.
pub open spec fn spec_baseline_offset(size: u16, baseline: Baseline) -> int {
    let em_bottom = if size == 0 {
        0
    } else {
        size - 1
    };
    match baseline {
        Baseline::Top => 0,
        Baseline::Bottom => em_bottom,
        Baseline::Alphabetic => em_bottom,
        Baseline::Middle => em_bottom / 2,
    }
}

impl<'a, C> GlyphCellTextStyle<'a, C> {
    pub open spec fn mono(self) -> bool {
        self.layout is Monospace
    }

    pub open spec fn spacing(self) -> int {
        self.layout.spec_spacing() as int
    }

    /// The cell widths of the characters of `text`.
    pub open spec fn widths(self, text: Seq<char>) -> Seq<int> {
        cell_widths(*self.font_data, self.mono(), text)
    }

    /// The horizontal bounds of `text` as one line.
    pub open spec fn bounds(self, text: Seq<char>) -> (int, int, bool) {
        run_bounds(self.widths(text), self.spacing())
    }

    /// The top-left corner of a line whose baseline point is `position`.
    pub open spec fn spec_top_left(self, position: Point, baseline: Baseline) -> (int, int) {
        (position.x as int, position.y - spec_baseline_offset(self.font_data.size, baseline))
    }

    /// Whether measuring `text` at `position` stays within `i32`.
    pub open spec fn metrics_defined(self, text: Seq<char>, position: Point, baseline: Baseline) -> bool {
        &&& extent_defined(self.bounds(text))
        &&& in_i32(self.spec_top_left(position, baseline).1)
        &&& in_i32(position.x + extent(self.bounds(text)))
    }

    /// The top-left corner of the cell of character `k` of a line drawn at
    /// `top_left`.
    pub open spec fn cell_origin(self, text: Seq<char>, top_left: (int, int), k: int) -> (int, int) {
        (
            top_left.0 - near_edge(self.bounds(text)) + pen_before(0, self.widths(text), self.spacing(), k as nat),
            top_left.1,
        )
    }

    /// The drawn pixels of character `k` of a line drawn at `top_left`.
    pub open spec fn char_points(self, text: Seq<char>, top_left: (int, int), k: int) -> Seq<Point> {
        match self.font_data.spec_glyph(text[k]) {
            Some(g) => glyph_points(
                *self.font_data,
                g,
                crate::layout::point_of(
                    glyph_origin_in_cell(*self.font_data, g, self.cell_origin(text, top_left, k), self.mono()),
                ),
            ),
            None => Seq::empty(),
        }
    }

    /// The drawn pixels of a line drawn at `top_left`, character by
    /// character.
    pub open spec fn line_points(self, text: Seq<char>, top_left: (int, int)) -> Seq<Point> {
        Seq::new(text.len(), |k: int| self.char_points(text, top_left, k)).flatten()
    }

    /// Whether drawing character `k` of a line at `top_left` stays within
    /// `i32`.
    pub open spec fn char_drawable(self, text: Seq<char>, top_left: (int, int), k: int) -> bool {
        let co = self.cell_origin(text, top_left, k);
        &&& in_i32(co.0)
        &&& match self.font_data.spec_glyph(text[k]) {
            Some(g) => {
                let go = glyph_origin_in_cell(*self.font_data, g, co, self.mono());
                &&& in_i32(go.0)
                &&& in_i32(co.1 + self.font_data.size)
                &&& in_i32(go.1)
                &&& glyph_drawable(*self.font_data, g, crate::layout::point_of(go))
            },
            None => true,
        }
    }

    /// Whether drawing a line at `top_left` stays within `i32`.
    pub open spec fn line_drawable(self, text: Seq<char>, top_left: (int, int)) -> bool {
        &&& extent_defined(self.bounds(text))
        &&& in_i32(top_left.0 - near_edge(self.bounds(text)))
        &&& forall|k: int| 0 <= k < text.len() ==> #[trigger] self.char_drawable(text, top_left, k)
    }

    /// A proportional, unspaced style drawing in `text_color`.
    pub fn new(font_data: &'a FontData<'a>, text_color: C) -> (s: GlyphCellTextStyle<'a, C>)
        ensures
            s.font_data == font_data,
            s.text_color == Some(text_color),
            s.layout == (TextLayout::Proportional { spacing: 0, line_spacing: 0 }),
    {
        GlyphCellTextStyle {
            font_data,
            text_color: Some(text_color),
            layout: TextLayout::Proportional { spacing: 0, line_spacing: 0 },
        }
    }

    /// A proportional, unspaced style that draws nothing.
    pub fn transparent(font_data: &'a FontData<'a>) -> (s: GlyphCellTextStyle<'a, C>)
        ensures
            s.font_data == font_data,
            s.text_color is None,
            s.layout == (TextLayout::Proportional { spacing: 0, line_spacing: 0 }),
    {
        GlyphCellTextStyle {
            font_data,
            text_color: None,
            layout: TextLayout::Proportional { spacing: 0, line_spacing: 0 },
        }
    }

    pub fn layout(self, layout: TextLayout) -> (s: GlyphCellTextStyle<'a, C>)
        ensures
            s == (GlyphCellTextStyle { layout, ..self }),
    {
        GlyphCellTextStyle { layout, ..self }
    }

    pub fn monospace(self) -> (s: GlyphCellTextStyle<'a, C>)
        ensures
            s == (GlyphCellTextStyle { layout: TextLayout::Monospace { spacing: 0, line_spacing: 0 }, ..self }),
    {
        GlyphCellTextStyle { layout: TextLayout::monospace(), ..self }
    }

    pub fn monospace_with_spacing(self, spacing: i32, line_spacing: i32) -> (s: GlyphCellTextStyle<'a, C>)
        ensures
            s == (GlyphCellTextStyle { layout: TextLayout::Monospace { spacing, line_spacing }, ..self }),
    {
        GlyphCellTextStyle { layout: TextLayout::monospace_with_spacing(spacing, line_spacing), ..self }
    }

    pub fn proportional(self, spacing: i32) -> (s: GlyphCellTextStyle<'a, C>)
        ensures
            s == (GlyphCellTextStyle { layout: TextLayout::Proportional { spacing, line_spacing: 0 }, ..self }),
    {
        GlyphCellTextStyle { layout: TextLayout::proportional(spacing), ..self }
    }

    pub fn proportional_with_line_spacing(self, spacing: i32, line_spacing: i32) -> (s: GlyphCellTextStyle<'a, C>)
        ensures
            s == (GlyphCellTextStyle { layout: TextLayout::Proportional { spacing, line_spacing }, ..self }),
    {
        GlyphCellTextStyle {
            layout: TextLayout::proportional_with_line_spacing(spacing, line_spacing),
            ..self
        }
    }

    pub fn text_color(self, text_color: C) -> (s: GlyphCellTextStyle<'a, C>)
        ensures
            s == (GlyphCellTextStyle { text_color: Some(text_color), ..self }),
    {
        GlyphCellTextStyle { text_color: Some(text_color), ..self }
    }

    pub fn reset_text_color(self) -> (s: GlyphCellTextStyle<'a, C>)
        ensures
            s == (GlyphCellTextStyle { text_color: None, ..self }),
    {
        GlyphCellTextStyle { text_color: None, ..self }
    }

    /// Sets the text color; `None` makes the style draw nothing.
    pub fn set_text_color(&mut self, text_color: Option<C>)
        ensures
            *final(self) == (GlyphCellTextStyle { text_color, ..*old(self) }),
    {
        self.text_color = text_color;
    }

    fn top_left_for_baseline(&self, position: Point, baseline: Baseline) -> (r: Point)
        requires
            in_i32(self.spec_top_left(position, baseline).1),
        ensures
            (r.x as int, r.y as int) == self.spec_top_left(position, baseline),
    {
        let offset = self.baseline_offset(baseline);
        Point::new(position.x - 0, position.y - offset)
    }

    /// The distance from the top of a line to `baseline`.
    pub fn baseline_offset(&self, baseline: Baseline) -> (r: i32)
        ensures
            r == spec_baseline_offset(self.font_data.size, baseline),
    {
        let em_bottom = if self.font_data.size == 0 {
            0
        } else {
            (self.font_data.size - 1) as i32
        };
        match baseline {
            Baseline::Top => 0,
            Baseline::Bottom | Baseline::Alphabetic => em_bottom,
            Baseline::Middle => em_bottom / 2,
        }
    }

    /// The spacing between lines of the layout.
    pub fn line_spacing(&self) -> (r: i32)
        ensures
            r == self.layout.spec_line_spacing(),
    {
        match self.layout {
            TextLayout::Monospace { line_spacing, .. } | TextLayout::Proportional {
                line_spacing,
                ..
            } => line_spacing,
        }
    }

    /// The box that `text` occupies when its baseline point is `position`,
    /// and the position right after it.
    pub fn text_metrics(&self, text: &str, position: Point, baseline: Baseline) -> (r: TextMetrics)
        requires
            self.metrics_defined(text@, position, baseline),
        ensures
            (r.bounding_box.top_left.x as int, r.bounding_box.top_left.y as int)
                == self.spec_top_left(position, baseline),
            r.bounding_box.size.width == extent(self.bounds(text@)),
            r.bounding_box.size.height == (if self.bounds(text@).2 { self.font_data.size as int } else { 0 }),
            r.next_position.x == position.x + extent(self.bounds(text@)),
            r.next_position.y == position.y,
    {
        let top_left = self.top_left_for_baseline(position, baseline);
        let size = self.line_metrics(text).size();
        TextMetrics {
            bounding_box: Rectangle::new(top_left, size),
            next_position: Point::new(position.x + size.width as i32, position.y + 0),
        }
    }

    /// The horizontal metrics of `text` as one line.
    fn line_metrics(&self, text: &str) -> (m: LineMetrics)
        ensures
            m.bounds() == self.bounds(text@),
            m.height == self.font_data.size,
    {
        let chars = str_chars(text);
        let ghost ws = self.widths(text@);
        let (spacing, _) = self.horizontal_layout();
        let mut metrics = LineMetrics::new(self.font_data.size as u32);
        let mut pen_x = 0i32;
        let mut i: usize = 0;
        while i < chars.len()
            invariant
                chars@ == text@,
                i <= chars@.len(),
                spacing == self.spacing(),
                ws == self.widths(text@),
                metrics.bounds() == crate::layout::bounds_fold(ws, spacing as int, i as nat),
                metrics.height == self.font_data.size,
                pen_x == pen_at(0, ws, spacing as int, i as nat),
            decreases chars@.len() - i,
        {
            let cell_width = self.cell_width(chars[i]) as u32;
            metrics.take_in(pen_x, cell_width);
            pen_x = advance_pen(pen_x, cell_width as i32, spacing, i + 1 < chars.len());
            i = i + 1;
        }
        metrics
    }

    /// Whether measuring `text` with its baseline point at `position` stays
    /// within `i32`.
    pub fn can_measure_string(&self, text: &str, position: Point, baseline: Baseline) -> (r: bool)
        ensures
            r == self.metrics_defined(text@, position, baseline),
    {
        let metrics = self.line_metrics(text);
        if !metrics.extent_fits() {
            return false;
        }
        let width = metrics.size().width;
        fits_i32(position.y as i64 - self.baseline_offset(baseline) as i64) && fits_i32(
            position.x as i64 + width as i64,
        )
    }

    /// Whether drawing `text` as one line with its top-left corner at
    /// `top_left` stays within `i32`.
    pub fn can_draw_line(&self, text: &str, top_left: Point) -> (r: bool)
        ensures
            r == self.line_drawable(text@, (top_left.x as int, top_left.y as int)),
    {
        let ghost tl = (top_left.x as int, top_left.y as int);
        let metrics = self.line_metrics(text);
        if !metrics.extent_fits() {
            return false;
        }
        let line_left = top_left.x as i64 - metrics.min_x() as i64;
        if !fits_i32(line_left) {
            return false;
        }
        let chars = str_chars(text);
        let (spacing, mono) = self.horizontal_layout();
        let mut pen_x = 0i32;
        let mut i: usize = 0;
        while i < chars.len()
            invariant
                chars@ == text@,
                i <= chars@.len(),
                spacing == self.spacing(),
                mono == self.mono(),
                tl == (top_left.x as int, top_left.y as int),
                extent_defined(self.bounds(text@)),
                line_left == tl.0 - near_edge(self.bounds(text@)),
                in_i32(line_left as int),
                pen_x == pen_at(0, self.widths(text@), spacing as int, i as nat),
                forall|k: int| 0 <= k < i ==> #[trigger] self.char_drawable(text@, tl, k),
            decreases chars@.len() - i,
        {
            let ch = chars[i];
            let cell_width = self.cell_width(ch);
            let x = line_left + pen_x as i64;
            if !fits_i32(x) {
                assert(!self.char_drawable(text@, tl, i as int));
                return false;
            }
            let fits = match self.font_data.glyph(ch) {
                Some(glyph) => {
                    let gx = x + if mono {
                        glyph.x_offset as i64
                    } else {
                        0
                    };
                    let bottom = top_left.y as i64 + self.font_data.size as i64;
                    let gy = bottom - glyph.y_offset as i64;
                    fits_i32(gx) && fits_i32(bottom) && fits_i32(gy) && glyph_fits(
                        self.font_data,
                        glyph,
                        Point::new(gx as i32, gy as i32),
                    )
                },
                None => true,
            };
            if !fits {
                assert(!self.char_drawable(text@, tl, i as int));
                return false;
            }
            assert(self.char_drawable(text@, tl, i as int));
            pen_x = advance_pen(pen_x, cell_width as i32, spacing, i + 1 < chars.len());
            i = i + 1;
        }
        true
    }

    /// Whether rendering `text` with its baseline point at `position` stays
    /// within `i32`.
    pub fn can_draw_string(&self, text: &str, position: Point, baseline: Baseline) -> (r: bool)
        ensures
            r == (self.metrics_defined(text@, position, baseline) && (self.text_color is Some ==> self.line_drawable(
                text@,
                self.spec_top_left(position, baseline),
            ))),
    {
        if !self.can_measure_string(text, position, baseline) {
            return false;
        }
        if self.text_color.is_none() {
            return true;
        }
        let top_left = self.top_left_for_baseline(position, baseline);
        self.can_draw_line(text, top_left)
    }

    /// The pixels of `text` drawn as one line with its top-left corner at
    /// `top_left`.
    pub fn draw_line(&self, text: &str, top_left: Point) -> (r: Vec<Point>)
        requires
            self.line_drawable(text@, (top_left.x as int, top_left.y as int)),
        ensures
            r@ == self.line_points(text@, (top_left.x as int, top_left.y as int)),
    {
        let ghost tl = (top_left.x as int, top_left.y as int);
        let metrics = self.line_metrics(text);
        let chars = str_chars(text);
        let (spacing, use_generated_x_offset) = self.horizontal_layout();
        let line_left = top_left.x - metrics.min_x();
        let ghost parts = Seq::new(text@.len(), |k: int| self.char_points(text@, tl, k));
        let mut out: Vec<Point> = Vec::new();
        let mut pen_x = 0i32;
        let mut i: usize = 0;
        while i < chars.len()
            invariant
                chars@ == text@,
                i <= chars@.len(),
                spacing == self.spacing(),
                use_generated_x_offset == self.mono(),
                tl == (top_left.x as int, top_left.y as int),
                self.line_drawable(text@, tl),
                line_left == tl.0 - near_edge(self.bounds(text@)),
                pen_x == pen_at(0, self.widths(text@), spacing as int, i as nat),
                parts == Seq::new(text@.len(), |k: int| self.char_points(text@, tl, k)),
                out@ == parts.take(i as int).flatten(),
            decreases chars@.len() - i,
        {
            let ch = chars[i];
            let cell_width = self.cell_width(ch);
            assert(self.char_drawable(text@, tl, i as int));
            let cell_origin = Point::new(line_left + pen_x, top_left.y);
            match self.font_data.glyph(ch) {
                Some(glyph) => {
                    let glyph_origin = self.glyph_origin(glyph, cell_origin, use_generated_x_offset);
                    let mut pts = draw_glyph(self.font_data, glyph, glyph_origin);
                    out.append(&mut pts);
                },
                None => {},
            }
            proof {
                assert(parts.take(i + 1) =~= parts.take(i as int).push(parts[i as int]));
                parts.take(i as int).lemma_flatten_push(parts[i as int]);
            }
            pen_x = advance_pen(pen_x, cell_width as i32, spacing, i + 1 < chars.len());
            i = i + 1;
        }
        assert(parts.take(i as int) =~= parts);
        out
    }

    /// The spacing between characters, and whether the generated x offsets
    /// place glyphs in their cells.
    fn horizontal_layout(&self) -> (r: (i32, bool))
        ensures
            r.0 == self.spacing(),
            r.1 == self.mono(),
    {
        match self.layout {
            TextLayout::Monospace { spacing, .. } => (spacing, true),
            TextLayout::Proportional { spacing, .. } => (spacing, false),
        }
    }

    /// The cell width of `ch` in this style's layout.
    fn cell_width(&self, ch: char) -> (r: u16)
        ensures
            r == cell_width_of(*self.font_data, self.mono(), ch),
    {
        match self.layout {
            TextLayout::Monospace { .. } => self.font_data.cell_width(ch),
            TextLayout::Proportional { .. } => match self.font_data.glyph(ch) {
                Some(glyph) => glyph.width,
                None => self.font_data.cell_width(ch),
            },
        }
    }

    fn glyph_origin(&self, glyph: &crate::font::Glyph, cell_origin: Point, use_generated_x_offset: bool) -> (r: Point)
        requires
            in_i32(glyph_origin_in_cell(*self.font_data, *glyph, (cell_origin.x as int, cell_origin.y as int), use_generated_x_offset).0),
            in_i32(cell_origin.y + self.font_data.size),
            in_i32(glyph_origin_in_cell(*self.font_data, *glyph, (cell_origin.x as int, cell_origin.y as int), use_generated_x_offset).1),
        ensures
            r == crate::layout::point_of(glyph_origin_in_cell(*self.font_data, *glyph, (cell_origin.x as int, cell_origin.y as int), use_generated_x_offset)),
    {
        let x_offset = if use_generated_x_offset {
            glyph.x_offset as i32
        } else {
            0
        };
        Point::new(cell_origin.x + x_offset, cell_origin.y + self.font_data.size as i32 - glyph.y_offset as i32)
    }

    /// The pixels that rendering `text` with its baseline point at
    /// `position` sets (none without a text color), and the position right
    /// after the text.
    pub fn draw_string(&self, text: &str, position: Point, baseline: Baseline) -> (r: (Vec<Point>, Point))
        requires
            self.metrics_defined(text@, position, baseline),
            self.text_color is Some ==> self.line_drawable(text@, self.spec_top_left(position, baseline)),
        ensures
            r.0@ == (if self.text_color is Some {
                self.line_points(text@, self.spec_top_left(position, baseline))
            } else {
                Seq::empty()
            }),
            r.1.x == position.x + extent(self.bounds(text@)),
            r.1.y == position.y,
    {
        let metrics = self.text_metrics(text, position, baseline);
        let pixels = if self.text_color.is_some() {
            self.draw_line(text, metrics.bounding_box.top_left)
        } else {
            Vec::new()
        };
        (pixels, metrics.next_position)
    }

    /// The position after a gap of `width` pixels.
    pub fn draw_whitespace(&self, width: u32, position: Point) -> (r: Point)
        requires
            width <= i32::MAX,
            in_i32(position.x + width),
        ensures
            r.x == position.x + width,
            r.y == position.y,
    {
        Point::new(position.x + width as i32, position.y + 0)
    }

    /// The metrics of `text` with its baseline point at `position`.
    pub fn measure_string(&self, text: &str, position: Point, baseline: Baseline) -> (r: TextMetrics)
        requires
            self.metrics_defined(text@, position, baseline),
        ensures
            r == self.spec_measure_string(text@, position, baseline),
    {
        let m = self.text_metrics(text, position, baseline);
        proof {
            assert(m.bounding_box.top_left == Point { x: position.x, y: self.spec_top_left(position, baseline).1 as i32 });
        }
        m
    }

    pub open spec fn spec_measure_string(self, text: Seq<char>, position: Point, baseline: Baseline) -> TextMetrics {
        TextMetrics {
            bounding_box: Rectangle {
                top_left: Point { x: position.x, y: self.spec_top_left(position, baseline).1 as i32 },
                size: Size {
                    width: extent(self.bounds(text)) as u32,
                    height: (if self.bounds(text).2 { self.font_data.size as int } else { 0 }) as u32,
                },
            },
            next_position: Point { x: (position.x + extent(self.bounds(text))) as i32, y: position.y },
        }
    }

    /// The distance between the tops of consecutive lines: the font size plus
    /// the line spacing, never negative.
    pub fn line_height(&self) -> (r: u32)
        requires
            in_i32(self.font_data.size + self.layout.spec_line_spacing()),
        ensures
            r == max_int(0, self.font_data.size + self.layout.spec_line_spacing()),
    {
        non_negative_u32(self.font_data.size as i32 + self.line_spacing())
    }
}

} // verus!
