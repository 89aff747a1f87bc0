//! Cell layout of a text run: lines (or columns) split at `'\n'`, one cell
//! per character, pens that advance by the cell extent plus the spacing
//! with saturating arithmetic, and the alignment of each line inside the
//! measured box.

use vstd::prelude::*;

use crate::font::{FontData, Glyph};
use crate::geometry::{
    in_i32, max_i32, max_int, max_u32, min_i32, min_int, sat_i32, saturating_add_i32, str_chars,
    Point, Size,
};
use crate::style::{Alignment, TextLayout};

verus! {

broadcast use vstd::seq_lib::group_seq_properties;

/// The direction in which the characters of a line follow each other.
#[derive(Debug, Clone, Copy, PartialEq, Eq, Structural)]
pub enum TextFlow {
    Horizontal,
    Vertical,
}

// ---------------------------------------------------------------------------
// Pens and extents.
// ---------------------------------------------------------------------------

/// The pen after advancing over an item of extent `advance`; the spacing is
/// added only when another item follows. Both additions saturate.
pub open spec fn advance_pen_spec(pen: int, advance: int, spacing: int, has_next: bool) -> int {
    let step = if has_next {
        sat_i32(advance + spacing)
    } else {
        advance
    };
    sat_i32(pen + step)
}

/// The pen position in front of item `k` of a run of items of extents `ws`
/// that starts at `start`.
pub open spec fn pen_before(start: int, ws: Seq<int>, spacing: int, k: nat) -> int
    decreases k,
{
    if k == 0 {
        start
    } else {
        advance_pen_spec(pen_before(start, ws, spacing, (k - 1) as nat), ws[k - 1], spacing, true)
    }
}

/// The pen position after the last item, where no spacing is added.
pub open spec fn pen_end(start: int, ws: Seq<int>, spacing: int) -> int {
    if ws.len() == 0 {
        start
    } else {
        advance_pen_spec(
            pen_before(start, ws, spacing, (ws.len() - 1) as nat),
            ws[ws.len() - 1],
            spacing,
            false,
        )
    }
}

/// The pen value that a loop over the items holds after `k` items.
pub open spec fn pen_at(start: int, ws: Seq<int>, spacing: int, k: nat) -> int {
    if k < ws.len() {
        pen_before(start, ws, spacing, k)
    } else {
        pen_end(start, ws, spacing)
    }
}

/// Bounds `(lo, hi, has_items)` of the items seen so far, each item spanning
/// from its pen to its pen plus its extent (saturating).
pub open spec fn widen_bounds(b: (int, int, bool), pen: int, w: int) -> (int, int, bool) {
    let far = sat_i32(pen + w);
    if !b.2 {
        (pen, far, true)
    } else {
        (min_int(b.0, pen), max_int(b.1, far), true)
    }
}

/// The bounds of the first `k` items of a run starting at pen 0.
pub open spec fn bounds_fold(ws: Seq<int>, spacing: int, k: nat) -> (int, int, bool)
    decreases k,
{
    if k == 0 {
        (0, 0, false)
    } else {
        widen_bounds(
            bounds_fold(ws, spacing, (k - 1) as nat),
            pen_before(0, ws, spacing, (k - 1) as nat),
            ws[k - 1],
        )
    }
}

/// The bounds of a whole run starting at pen 0.
pub open spec fn run_bounds(ws: Seq<int>, spacing: int) -> (int, int, bool) {
    bounds_fold(ws, spacing, ws.len())
}

/// The extent that bounds cover, 0 for a run without items.
pub open spec fn extent(b: (int, int, bool)) -> int {
    if b.2 {
        max_int(0, b.1 - b.0)
    } else {
        0
    }
}

/// Whether the extent of the bounds can be computed in `i32`.
pub open spec fn extent_defined(b: (int, int, bool)) -> bool {
    b.2 ==> in_i32(b.1 - b.0)
}

/// The near edge of the bounds, 0 for a run without items.
pub open spec fn near_edge(b: (int, int, bool)) -> int {
    if b.2 {
        b.0
    } else {
        0
    }
}

/// The largest of 0 and the values in `ws`.
pub open spec fn max_fold(ws: Seq<int>) -> int
    decreases ws.len(),
{
    if ws.len() == 0 {
        0
    } else {
        max_int(max_fold(ws.drop_last()), ws.last())
    }
}

/// `n` copies of `v`.
pub open spec fn repeat(v: int, n: nat) -> Seq<int> {
    Seq::new(n, |i: int| v)
}

// ---------------------------------------------------------------------------
// Lines.
// ---------------------------------------------------------------------------

/// The lines of `s`: the pieces between `'\n'` characters, so there is one
/// more line than there are newlines.
pub open spec fn split_lines(s: Seq<char>) -> Seq<Seq<char>>
    decreases s.len(),
{
    if s.len() == 0 {
        seq![Seq::<char>::empty()]
    } else {
        let r = split_lines(s.drop_last());
        if s.last() == '\n' {
            r.push(Seq::<char>::empty())
        } else {
            r.update(r.len() - 1, r.last().push(s.last()))
        }
    }
}

pub proof fn lemma_split_lines_nonempty(s: Seq<char>)
    ensures
        split_lines(s).len() >= 1,
    decreases s.len(),
{
    if s.len() > 0 {
        lemma_split_lines_nonempty(s.drop_last());
    }
}

/// The lines of a character sequence.
pub fn split_lines_exec(chars: &Vec<char>) -> (r: Vec<Vec<char>>)
    ensures
        r@.len() == split_lines(chars@).len(),
        forall|j: int| 0 <= j < r@.len() ==> #[trigger] r@[j]@ == split_lines(chars@)[j],
{
    let mut lines: Vec<Vec<char>> = Vec::new();
    let mut cur: Vec<char> = Vec::new();
    let mut i: usize = 0;
    while i < chars.len()
        invariant
            i <= chars@.len(),
            lines@.len() + 1 == split_lines(chars@.take(i as int)).len(),
            forall|j: int|
                0 <= j < lines@.len() ==> #[trigger] lines@[j]@ == split_lines(
                    chars@.take(i as int),
                )[j],
            cur@ == split_lines(chars@.take(i as int)).last(),
        decreases chars@.len() - i,
    {
        let ghost prev = chars@.take(i as int);
        proof {
            lemma_split_lines_nonempty(prev);
            assert(chars@.take(i + 1).drop_last() =~= prev);
            assert(chars@.take(i + 1).last() == chars@[i as int]);
        }
        if chars[i] == '\n' {
            let done = cur;
            lines.push(done);
            cur = Vec::new();
        } else {
            cur.push(chars[i]);
        }
        i = i + 1;
    }
    proof {
        assert(chars@.take(i as int) =~= chars@);
        lemma_split_lines_nonempty(chars@);
    }
    lines.push(cur);
    lines
}

// ---------------------------------------------------------------------------
// Cells.
// ---------------------------------------------------------------------------

/// The width of the cell of `ch`: the generated cell width in monospace
/// layout, the glyph's bitmap width in proportional layout (the generated
/// cell width for a missing glyph).
pub open spec fn cell_width_of(font: FontData, mono: bool, ch: char) -> int {
    if mono {
        font.spec_cell_width(ch) as int
    } else {
        match font.spec_glyph(ch) {
            Some(g) => g.width as int,
            None => font.spec_cell_width(ch) as int,
        }
    }
}

/// The cell widths of the characters of a line.
pub open spec fn cell_widths(font: FontData, mono: bool, line: Seq<char>) -> Seq<int> {
    Seq::new(line.len(), |i: int| cell_width_of(font, mono, line[i]))
}

// ---------------------------------------------------------------------------
// Metrics.
// ---------------------------------------------------------------------------

/// The horizontal bounds of a line and the height of its cells.
#[derive(Debug, Clone, Copy, PartialEq, Eq, Structural)]
pub struct LineMetrics {
    pub min_x: i32,
    pub max_x: i32,
    pub height: u32,
    pub has_chars: bool,
}

impl LineMetrics {
    pub open spec fn bounds(self) -> (int, int, bool) {
        (self.min_x as int, self.max_x as int, self.has_chars)
    }

    pub fn new(height: u32) -> (m: LineMetrics)
        ensures
            m.bounds() == (0int, 0int, false),
            m.height == height,
    {
        LineMetrics { min_x: 0, max_x: 0, height, has_chars: false }
    }

    /// Takes in an item at `pen_x` of width `width`.
    pub fn take_in(&mut self, pen_x: i32, width: u32)
        requires
            width <= i32::MAX,
        ensures
            final(self).bounds() == widen_bounds(old(self).bounds(), pen_x as int, width as int),
            final(self).height == old(self).height,
    {
        let right = saturating_add_i32(pen_x, width as i32);
        if !self.has_chars {
            self.min_x = pen_x;
            self.max_x = right;
            self.has_chars = true;
        } else {
            self.min_x = min_i32(self.min_x, pen_x);
            self.max_x = max_i32(self.max_x, right);
        }
    }

    /// The width that the line covers.
    pub fn width(self) -> (r: u32)
        requires
            extent_defined(self.bounds()),
        ensures
            r == extent(self.bounds()),
    {
        if self.has_chars {
            non_negative_u32(self.max_x - self.min_x)
        } else {
            0
        }
    }

    /// Whether the width that the line covers fits in `i32`.
    pub fn extent_fits(self) -> (r: bool)
        ensures
            r == extent_defined(self.bounds()),
    {
        !self.has_chars || fits_i32(self.max_x as i64 - self.min_x as i64)
    }

    /// The size that the line covers: its width and cell height, zero for a
    /// line without characters.
    pub fn size(self) -> (r: Size)
        requires
            extent_defined(self.bounds()),
        ensures
            r.width == extent(self.bounds()),
            r.height == (if self.has_chars { self.height } else { 0 }),
    {
        if self.has_chars {
            Size::new(non_negative_u32(self.max_x - self.min_x), self.height)
        } else {
            Size::zero()
        }
    }

    /// The left edge of the line.
    pub fn min_x(self) -> (r: i32)
        ensures
            r == near_edge(self.bounds()),
    {
        if self.has_chars {
            self.min_x
        } else {
            0
        }
    }
}

/// The widest cell of a column and its vertical bounds.
#[derive(Debug, Clone, Copy, PartialEq, Eq, Structural)]
pub struct ColumnMetrics {
    pub width: u32,
    pub min_y: i32,
    pub max_y: i32,
    pub has_chars: bool,
}

impl ColumnMetrics {
    pub open spec fn bounds(self) -> (int, int, bool) {
        (self.min_y as int, self.max_y as int, self.has_chars)
    }

    pub fn new() -> (m: ColumnMetrics)
        ensures
            m.bounds() == (0int, 0int, false),
            m.width == 0,
    {
        ColumnMetrics { width: 0, min_y: 0, max_y: 0, has_chars: false }
    }

    /// Takes in a cell at `pen_y`.
    pub fn take_in(&mut self, pen_y: i32, cell: Size)
        requires
            cell.height <= i32::MAX,
        ensures
            final(self).bounds() == widen_bounds(old(self).bounds(), pen_y as int, cell.height as int),
            final(self).width == max_int(old(self).width as int, cell.width as int),
    {
        let bottom = saturating_add_i32(pen_y, cell.height as i32);
        if !self.has_chars {
            self.min_y = pen_y;
            self.max_y = bottom;
            self.has_chars = true;
        } else {
            self.min_y = min_i32(self.min_y, pen_y);
            self.max_y = max_i32(self.max_y, bottom);
        }
        self.width = max_u32(self.width, cell.width);
    }

    /// Whether the height that the column covers fits in `i32`.
    pub fn extent_fits(self) -> (r: bool)
        ensures
            r == extent_defined(self.bounds()),
    {
        !self.has_chars || fits_i32(self.max_y as i64 - self.min_y as i64)
    }

    /// The height that the column covers.
    pub fn height(self) -> (r: u32)
        requires
            extent_defined(self.bounds()),
        ensures
            r == extent(self.bounds()),
    {
        if self.has_chars {
            non_negative_u32(self.max_y - self.min_y)
        } else {
            0
        }
    }

    /// The top edge of the column.
    pub fn min_y(self) -> (r: i32)
        ensures
            r == near_edge(self.bounds()),
    {
        if self.has_chars {
            self.min_y
        } else {
            0
        }
    }
}

/// Advances a pen over an item of extent `advance`, adding `spacing` when
/// another item follows; both additions saturate.
pub fn advance_pen(pen: i32, advance: i32, spacing: i32, has_next: bool) -> (r: i32)
    ensures
        r == advance_pen_spec(pen as int, advance as int, spacing as int, has_next),
{
    let step = if has_next {
        saturating_add_i32(advance, spacing)
    } else {
        advance
    };
    saturating_add_i32(pen, step)
}

/// Whether `v` fits in an `i32`.
pub fn fits_i32(v: i64) -> (r: bool)
    ensures
        r == in_i32(v as int),
{
    i32::MIN as i64 <= v && v <= i32::MAX as i64
}

/// `value`, or 0 when it is negative.
pub fn non_negative_u32(value: i32) -> (r: u32)
    ensures
        r == max_int(0, value as int),
{
    if value <= 0 {
        0
    } else {
        value as u32
    }
}


/// The largest of 0 and a prefix of `ws` grows by one item at a time.
pub proof fn lemma_max_fold_take(ws: Seq<int>, j: int)
    requires
        0 <= j < ws.len(),
    ensures
        max_fold(ws.take(j + 1)) == max_int(max_fold(ws.take(j)), ws[j]),
{
    assert(ws.take(j + 1).drop_last() =~= ws.take(j));
}

/// `max_fold` stays within `0..=bound` when every value does.
pub proof fn lemma_max_fold_bound(ws: Seq<int>, bound: int)
    requires
        0 <= bound,
        forall|i: int| 0 <= i < ws.len() ==> #[trigger] ws[i] <= bound,
    ensures
        0 <= max_fold(ws) <= bound,
    decreases ws.len(),
{
    if ws.len() > 0 {
        lemma_max_fold_bound(ws.drop_last(), bound);
    }
}

/// Where one character of a run is placed: its cell and, when the font has
/// a glyph for it, the top-left corner of the glyph bitmap.
#[derive(Debug, Clone, Copy, PartialEq, Eq)]
pub struct PositionedGlyph {
    pub ch: char,
    pub glyph: Option<Glyph>,
    pub cell_origin: Point,
    pub cell_size: Size,
    pub glyph_origin: Option<Point>,
}

/// The top-left corner of the bitmap of `g` in a cell at `cell`: shifted
/// right by the generated x offset when `use_x_offset` holds, and placed so
/// that the glyph's top lies `y_offset` pixels above the cell's bottom.
pub open spec fn glyph_origin_in_cell(font: FontData, g: Glyph, cell: (int, int), use_x_offset: bool) -> (int, int) {
    (
        cell.0 + if use_x_offset {
            g.x_offset as int
        } else {
            0
        },
        cell.1 + font.size - g.y_offset,
    )
}

/// Whether placing the glyph of `ch` in a cell at `cell` stays within `i32`.
pub open spec fn glyph_origin_defined(font: FontData, ch: char, cell: (int, int), use_x_offset: bool) -> bool {
    match font.spec_glyph(ch) {
        Some(g) => {
            &&& in_i32(glyph_origin_in_cell(font, g, cell, use_x_offset).0)
            &&& in_i32(cell.1 + font.size)
            &&& in_i32(glyph_origin_in_cell(font, g, cell, use_x_offset).1)
        },
        None => true,
    }
}

pub open spec fn point_of(p: (int, int)) -> Point {
    Point { x: p.0 as i32, y: p.1 as i32 }
}

/// The placement of `ch` in a cell at `cell` of width `cell_width`.
pub open spec fn positioned_spec(font: FontData, ch: char, cell: (int, int), cell_width: int, use_x_offset: bool) -> PositionedGlyph {
    PositionedGlyph {
        ch,
        glyph: font.spec_glyph(ch),
        cell_origin: point_of(cell),
        cell_size: Size { width: cell_width as u32, height: font.size as u32 },
        glyph_origin: match font.spec_glyph(ch) {
            Some(g) => Some(point_of(glyph_origin_in_cell(font, g, cell, use_x_offset))),
            None => None,
        },
    }
}

/// A run of text: the characters, the font, where it is anchored and how it
/// is laid out.
#[derive(Debug, Clone, Copy)]
pub struct TextRun<'a> {
    pub font: &'a FontData<'a>,
    pub text: &'a str,
    pub start: Point,
    pub layout: TextLayout,
    pub alignment: Alignment,
    pub flow: TextFlow,
}

impl<'a> TextRun<'a> {
    pub open spec fn mono(self) -> bool {
        self.layout is Monospace
    }

    pub open spec fn spacing(self) -> int {
        self.layout.spec_spacing() as int
    }

    pub open spec fn line_spacing(self) -> int {
        self.layout.spec_line_spacing() as int
    }

    /// The lines of a horizontal run, or the columns of a vertical one.
    pub open spec fn lines(self) -> Seq<Seq<char>> {
        split_lines(self.text@)
    }

    /// The cell widths of line `j`.
    pub open spec fn widths(self, j: int) -> Seq<int> {
        cell_widths(*self.font, self.mono(), self.lines()[j])
    }

    /// The horizontal bounds of line `j` of a horizontal run.
    pub open spec fn line_bounds(self, j: int) -> (int, int, bool) {
        run_bounds(self.widths(j), self.spacing())
    }

    /// The cell heights of column `j` of a vertical run.
    pub open spec fn heights(self, j: int) -> Seq<int> {
        repeat(self.font.size as int, self.lines()[j].len())
    }

    /// The vertical bounds of column `j` of a vertical run.
    pub open spec fn column_bounds(self, j: int) -> (int, int, bool) {
        run_bounds(self.heights(j), self.spacing())
    }

    /// The width of column `j`: its widest cell.
    pub open spec fn column_width(self, j: int) -> int {
        max_fold(self.widths(j))
    }

    /// The extent of each line along the flow.
    pub open spec fn line_extents(self) -> Seq<int> {
        Seq::new(
            self.lines().len(),
            |j: int|
                if self.flow is Horizontal {
                    extent(self.line_bounds(j))
                } else {
                    extent(self.column_bounds(j))
                },
        )
    }

    /// The extent of each line across the flow: the font size for a line,
    /// the widest cell for a column.
    pub open spec fn line_thicknesses(self) -> Seq<int> {
        Seq::new(
            self.lines().len(),
            |j: int|
                if self.flow is Horizontal {
                    self.font.size as int
                } else {
                    self.column_width(j)
                },
        )
    }

    /// Whether the extent of line `j` along the flow can be computed in `i32`.
    pub open spec fn line_defined(self, j: int) -> bool {
        if self.flow is Horizontal {
            extent_defined(self.line_bounds(j))
        } else {
            extent_defined(self.column_bounds(j))
        }
    }

    /// Whether measuring the run stays within `i32`: the extent of every
    /// line along the flow must be computable.
    pub open spec fn measure_defined(self) -> bool {
        self.text@.len() > 0 ==> forall|j: int|
            0 <= j < self.lines().len() ==> #[trigger] self.line_defined(j)
    }

    /// The size of the run: along the flow the longest line, across it the
    /// lines stacked with the line spacing between them; empty text has
    /// size zero.
    pub open spec fn spec_measure(self) -> (int, int) {
        if self.text@.len() == 0 {
            (0, 0)
        } else {
            let along = max_fold(self.line_extents());
            let across = max_int(0, pen_end(0, self.line_thicknesses(), self.line_spacing()));
            if self.flow is Horizontal {
                (along, across)
            } else {
                (across, along)
            }
        }
    }

    pub fn new(
        font: &'a FontData<'a>,
        text: &'a str,
        start: Point,
        layout: TextLayout,
        alignment: Alignment,
        flow: TextFlow,
    ) -> (r: TextRun<'a>)
        ensures
            r.font == font,
            r.text == text,
            r.start == start,
            r.layout == layout,
            r.alignment == alignment,
            r.flow == flow,
    {
        TextRun { font, text, start, layout, alignment, flow }
    }

    fn spacing_exec(&self) -> (r: (i32, i32, bool))
        ensures
            r.0 == self.spacing(),
            r.1 == self.line_spacing(),
            r.2 == self.mono(),
    {
        match self.layout {
            TextLayout::Monospace { spacing, line_spacing } => (spacing, line_spacing, true),
            TextLayout::Proportional { spacing, line_spacing } => (spacing, line_spacing, false),
        }
    }

    /// The cell of `ch` in monospace layout: the generated cell width and the
    /// font size.
    pub fn monospace_cell(&self, ch: char) -> (r: Size)
        ensures
            r.width == cell_width_of(*self.font, true, ch),
            r.height == self.font.size,
    {
        Size::new(self.font.cell_width(ch) as u32, self.font.size as u32)
    }

    /// The cell of `ch` in proportional layout: the glyph's bitmap width (the
    /// generated cell width for a missing glyph) and the font size.
    pub fn proportional_cell(&self, ch: char) -> (r: Size)
        ensures
            r.width == cell_width_of(*self.font, false, ch),
            r.height == self.font.size,
    {
        let width = match self.font.glyph(ch) {
            Some(glyph) => glyph.width,
            None => self.font.cell_width(ch),
        };
        Size::new(width as u32, self.font.size as u32)
    }

    fn cell_for_char(&self, ch: char, mono: bool) -> (r: Size)
        ensures
            r.width == cell_width_of(*self.font, mono, ch),
            r.height == self.font.size,
            r.width <= u16::MAX,
    {
        if mono {
            self.monospace_cell(ch)
        } else {
            self.proportional_cell(ch)
        }
    }

    /// The horizontal metrics of one line.
    fn measure_line(&self, line: &Vec<char>, spacing: i32, mono: bool) -> (m: LineMetrics)
        ensures
            m.bounds() == run_bounds(cell_widths(*self.font, mono, line@), spacing as int),
            m.height == self.font.size,
    {
        let ghost ws = cell_widths(*self.font, mono, line@);
        let mut metrics = LineMetrics::new(self.font.size as u32);
        let mut pen_x = 0i32;
        let mut i: usize = 0;
        while i < line.len()
            invariant
                i <= line@.len(),
                ws == cell_widths(*self.font, mono, line@),
                metrics.bounds() == bounds_fold(ws, spacing as int, i as nat),
                metrics.height == self.font.size,
                pen_x == pen_at(0, ws, spacing as int, i as nat),
            decreases line@.len() - i,
        {
            let cell = self.cell_for_char(line[i], mono);
            metrics.take_in(pen_x, cell.width);
            pen_x = advance_pen(pen_x, cell.width as i32, spacing, i + 1 < line.len());
            i = i + 1;
        }
        metrics
    }

    /// The vertical metrics of one column.
    fn measure_column(&self, column: &Vec<char>, spacing: i32, mono: bool) -> (m: ColumnMetrics)
        ensures
            m.bounds() == run_bounds(repeat(self.font.size as int, column@.len()), spacing as int),
            m.width == max_fold(cell_widths(*self.font, mono, column@)),
    {
        let ghost ws = cell_widths(*self.font, mono, column@);
        let ghost hs = repeat(self.font.size as int, column@.len());
        let mut metrics = ColumnMetrics::new();
        let mut pen_y = 0i32;
        let mut i: usize = 0;
        while i < column.len()
            invariant
                i <= column@.len(),
                ws == cell_widths(*self.font, mono, column@),
                hs == repeat(self.font.size as int, column@.len()),
                metrics.bounds() == bounds_fold(hs, spacing as int, i as nat),
                metrics.width == max_fold(ws.take(i as int)),
                pen_y == pen_at(0, hs, spacing as int, i as nat),
            decreases column@.len() - i,
        {
            let cell = self.cell_for_char(column[i], mono);
            proof {
                lemma_max_fold_take(ws, i as int);
            }
            metrics.take_in(pen_y, cell);
            pen_y = advance_pen(pen_y, cell.height as i32, spacing, i + 1 < column.len());
            i = i + 1;
        }
        assert(ws.take(i as int) =~= ws);
        metrics
    }

    /// Whether `lines` holds the lines of the run.
    pub open spec fn holds_lines(self, lines: Seq<Vec<char>>) -> bool {
        &&& lines.len() == self.lines().len()
        &&& forall|j: int| 0 <= j < lines.len() ==> #[trigger] lines[j]@ == self.lines()[j]
    }

    /// The lines of the run's text.
    pub fn line_list(&self) -> (r: Vec<Vec<char>>)
        ensures
            self.holds_lines(r@),
            r@.len() >= 1,
    {
        let chars = str_chars(self.text);
        proof {
            lemma_split_lines_nonempty(self.text@);
        }
        split_lines_exec(&chars)
    }

    /// The size of a horizontal run of non-empty text.
    fn measure_horizontal(&self, lines: &Vec<Vec<char>>) -> (r: Size)
        requires
            self.holds_lines(lines@),
            self.flow is Horizontal,
            self.text@.len() > 0,
            self.measure_defined(),
        ensures
            (r.width as int, r.height as int) == self.spec_measure(),
    {
        let (spacing, line_spacing, mono) = self.spacing_exec();
        let ghost ext = self.line_extents();
        let ghost thick = self.line_thicknesses();
        let mut max_width = 0u32;
        let mut total_height = 0i32;
        let mut j: usize = 0;
        while j < lines.len()
            invariant
                j <= lines@.len(),
                self.holds_lines(lines@),
                self.flow is Horizontal,
                self.text@.len() > 0,
                self.measure_defined(),
                spacing == self.spacing(),
                line_spacing == self.line_spacing(),
                mono == self.mono(),
                ext == self.line_extents(),
                thick == self.line_thicknesses(),
                max_width == max_fold(ext.take(j as int)),
                total_height == pen_at(0, thick, line_spacing as int, j as nat),
            decreases lines@.len() - j,
        {
            let line = self.measure_line(&lines[j], spacing, mono);
            assert(line.bounds() == self.line_bounds(j as int));
            assert(self.line_defined(j as int));
            let w = line.width();
            proof {
                lemma_max_fold_take(ext, j as int);
            }
            max_width = max_u32(max_width, w);
            total_height = advance_pen(
                total_height,
                line.height as i32,
                line_spacing,
                j + 1 < lines.len(),
            );
            j = j + 1;
        }
        assert(ext.take(j as int) =~= ext);
        Size::new(max_width, non_negative_u32(total_height))
    }

    /// The size of a vertical run of non-empty text.
    fn measure_vertical(&self, lines: &Vec<Vec<char>>) -> (r: Size)
        requires
            self.holds_lines(lines@),
            self.flow is Vertical,
            self.text@.len() > 0,
            self.measure_defined(),
        ensures
            (r.width as int, r.height as int) == self.spec_measure(),
    {
        let (spacing, line_spacing, mono) = self.spacing_exec();
        let ghost ext = self.line_extents();
        let ghost thick = self.line_thicknesses();
        let mut total_width = 0i32;
        let mut max_height = 0u32;
        let mut j: usize = 0;
        while j < lines.len()
            invariant
                j <= lines@.len(),
                self.holds_lines(lines@),
                self.flow is Vertical,
                self.text@.len() > 0,
                self.measure_defined(),
                spacing == self.spacing(),
                line_spacing == self.line_spacing(),
                mono == self.mono(),
                ext == self.line_extents(),
                thick == self.line_thicknesses(),
                max_height == max_fold(ext.take(j as int)),
                total_width == pen_at(0, thick, line_spacing as int, j as nat),
            decreases lines@.len() - j,
        {
            let column = self.measure_column(&lines[j], spacing, mono);
            assert(column.bounds() == self.column_bounds(j as int));
            assert(self.line_defined(j as int));
            proof {
                lemma_max_fold_take(ext, j as int);
                lemma_max_fold_bound(self.widths(j as int), 65535);
            }
            let h = column.height();
            total_width = advance_pen(
                total_width,
                column.width as i32,
                line_spacing,
                j + 1 < lines.len(),
            );
            max_height = max_u32(max_height, h);
            j = j + 1;
        }
        assert(ext.take(j as int) =~= ext);
        Size::new(non_negative_u32(total_width), max_height)
    }

    /// The size of the run.
    pub fn measure(&self) -> (r: Size)
        requires
            self.measure_defined(),
        ensures
            (r.width as int, r.height as int) == self.spec_measure(),
    {
        if self.text.is_empty() {
            return Size::zero();
        }
        let lines = self.line_list();
        match self.flow {
            TextFlow::Horizontal => self.measure_horizontal(&lines),
            TextFlow::Vertical => self.measure_vertical(&lines),
        }
    }

    /// The alignment offsets of the measured box inside a zero-size anchor.
    pub open spec fn anchor_offset(self) -> (int, int) {
        let m = self.spec_measure();
        (self.alignment.horizontal.spec_offset(m.0, 0), self.alignment.vertical.spec_offset(m.1, 0))
    }

    /// The top-left corner of the measured box: the start point moved back by
    /// the alignment offsets, so that the start point is the aligned anchor.
    pub open spec fn spec_top_left(self) -> (int, int) {
        (self.start.x - self.anchor_offset().0, self.start.y - self.anchor_offset().1)
    }

    pub open spec fn top_left_defined(self) -> bool {
        &&& self.measure_defined()
        &&& in_i32(self.spec_top_left().0)
        &&& in_i32(self.spec_top_left().1)
    }

    /// Both sides of the measured size fit in `i32`.
    pub proof fn lemma_measure_bound(self)
        requires
            self.measure_defined(),
        ensures
            0 <= self.spec_measure().0 <= i32::MAX,
            0 <= self.spec_measure().1 <= i32::MAX,
    {
        lemma_split_lines_nonempty(self.text@);
        if self.text@.len() > 0 {
            let ext = self.line_extents();
            assert forall|i: int| 0 <= i < ext.len() implies #[trigger] ext[i] <= i32::MAX by {
                assert(self.line_defined(i));
            }
            lemma_max_fold_bound(ext, i32::MAX as int);
            let thick = self.line_thicknesses();
            assert(thick.len() >= 1);
        }
    }

    /// The top-left corner of the measured box.
    pub fn top_left(&self) -> (r: Point)
        requires
            self.top_left_defined(),
        ensures
            (r.x as int, r.y as int) == self.spec_top_left(),
    {
        let measure = self.measure();
        proof {
            self.lemma_measure_bound();
        }
        let (x, y) = self.alignment.offset(measure, Size::zero());
        Point::new(self.start.x - x, self.start.y - y)
    }

    /// The pen across the flow in front of line `j`: lines stack downward
    /// from the top edge, columns rightward from the left edge.
    pub open spec fn line_pen(self, j: int) -> int {
        let tl = self.spec_top_left();
        pen_before(
            if self.flow is Horizontal {
                tl.1
            } else {
                tl.0
            },
            self.line_thicknesses(),
            self.line_spacing(),
            j as nat,
        )
    }

    /// The bounds of line `j` along the flow.
    pub open spec fn along_bounds(self, j: int) -> (int, int, bool) {
        if self.flow is Horizontal {
            self.line_bounds(j)
        } else {
            self.column_bounds(j)
        }
    }

    /// The aligned start of line `j` along the flow, before its near edge is
    /// taken off.
    pub open spec fn line_shift(self, j: int) -> int {
        let tl = self.spec_top_left();
        let m = self.spec_measure();
        if self.flow is Horizontal {
            tl.0 + self.alignment.horizontal.spec_offset(m.0, extent(self.line_bounds(j)))
        } else {
            tl.1 + self.alignment.vertical.spec_offset(m.1, extent(self.column_bounds(j)))
        }
    }

    /// Where the pen of line `j` starts along the flow.
    pub open spec fn line_start(self, j: int) -> int {
        self.line_shift(j) - near_edge(self.along_bounds(j))
    }

    /// The extents of the cells of line `j` along the flow.
    pub open spec fn along_extents(self, j: int) -> Seq<int> {
        if self.flow is Horizontal {
            self.widths(j)
        } else {
            self.heights(j)
        }
    }

    /// The pen along the flow in front of character `k` of line `j`,
    /// relative to the line start.
    pub open spec fn char_pen(self, j: int, k: int) -> int {
        pen_before(0, self.along_extents(j), self.spacing(), k as nat)
    }

    /// The top-left corner of the cell of character `k` of line `j`. In a
    /// column, cells are aligned horizontally inside the column width.
    pub open spec fn spec_cell_origin(self, j: int, k: int) -> (int, int) {
        if self.flow is Horizontal {
            (self.line_start(j) + self.char_pen(j, k), self.line_pen(j))
        } else {
            (
                self.line_pen(j) + self.alignment.horizontal.spec_offset(
                    self.column_width(j),
                    self.widths(j)[k],
                ),
                self.line_start(j) + self.char_pen(j, k),
            )
        }
    }

    /// The placement of character `k` of line `j`.
    pub open spec fn spec_positioned(self, j: int, k: int) -> PositionedGlyph {
        positioned_spec(
            *self.font,
            self.lines()[j][k],
            self.spec_cell_origin(j, k),
            self.widths(j)[k],
            self.mono(),
        )
    }

    /// The placements of the characters of line `j`, in order.
    pub open spec fn line_positions(self, j: int) -> Seq<PositionedGlyph> {
        Seq::new(self.lines()[j].len(), |k: int| self.spec_positioned(j, k))
    }

    /// The placements of all characters, line after line.
    pub open spec fn spec_positions(self) -> Seq<PositionedGlyph> {
        if self.text@.len() == 0 {
            Seq::empty()
        } else {
            Seq::new(self.lines().len(), |j: int| self.line_positions(j)).flatten()
        }
    }

    /// Whether placing line `j` stays within `i32`.
    pub open spec fn line_start_defined(self, j: int) -> bool {
        in_i32(self.line_shift(j)) && in_i32(self.line_start(j))
    }

    /// Whether placing character `k` of line `j` stays within `i32`.
    pub open spec fn char_defined(self, j: int, k: int) -> bool {
        let co = self.spec_cell_origin(j, k);
        &&& in_i32(co.0)
        &&& in_i32(co.1)
        &&& glyph_origin_defined(*self.font, self.lines()[j][k], co, self.mono())
    }

    /// Whether placing every character of the run stays within `i32`.
    pub open spec fn positions_defined(self) -> bool {
        self.text@.len() > 0 ==> {
            &&& self.top_left_defined()
            &&& forall|j: int| 0 <= j < self.lines().len() ==> #[trigger] self.line_start_defined(j)
            &&& forall|j: int, k: int|
                0 <= j < self.lines().len() && 0 <= k < self.lines()[j].len()
                    ==> #[trigger] self.char_defined(j, k)
        }
    }

    /// Places `ch` in a cell at `cell_origin`.
    pub fn positioned_in_cell(&self, ch: char, cell_origin: Point, cell: Size, use_generated_x_offset: bool) -> (r: PositionedGlyph)
        requires
            glyph_origin_defined(*self.font, ch, (cell_origin.x as int, cell_origin.y as int), use_generated_x_offset),
            cell.height == self.font.size,
            cell.width <= u16::MAX,
        ensures
            r == positioned_spec(*self.font, ch, (cell_origin.x as int, cell_origin.y as int), cell.width as int, use_generated_x_offset),
    {
        let glyph = match self.font.glyph(ch) {
            Some(g) => Some(*g),
            None => None,
        };
        let glyph_origin = match glyph {
            Some(g) => {
                let x_offset = if use_generated_x_offset {
                    g.x_offset as i32
                } else {
                    0
                };
                Some(Point::new(cell_origin.x + x_offset, cell_origin.y + self.font.size as i32 - g.y_offset as i32))
            },
            None => None,
        };
        PositionedGlyph { ch, glyph, cell_origin, cell_size: cell, glyph_origin }
    }

    /// The placements of a horizontal run of non-empty text.
    #[verifier::loop_isolation(false)]
    fn positions_horizontal(&self, lines: &Vec<Vec<char>>) -> (r: Vec<PositionedGlyph>)
        requires
            self.holds_lines(lines@),
            self.flow is Horizontal,
            self.text@.len() > 0,
            self.positions_defined(),
        ensures
            r@ == self.spec_positions(),
    {
        let (spacing, line_spacing, mono) = self.spacing_exec();
        let measure = self.measure_horizontal(lines);
        let top_left = self.top_left();
        proof {
            self.lemma_measure_bound();
        }
        let ghost per_line = Seq::new(lines@.len(), |j: int| self.line_positions(j));
        let ghost thick = self.line_thicknesses();
        let mut pen_y = top_left.y;
        let mut out: Vec<PositionedGlyph> = Vec::new();
        let mut j: usize = 0;
        while j < lines.len()
            invariant
                j <= lines@.len(),
                pen_y == pen_at(top_left.y as int, thick, line_spacing as int, j as nat),
                out@ == per_line.take(j as int).flatten(),
            decreases lines@.len() - j,
        {
            let line = &lines[j];
            let metrics = self.measure_line(line, spacing, mono);
            assert(metrics.bounds() == self.line_bounds(j as int));
            assert(self.line_defined(j as int));
            assert(self.line_start_defined(j as int));
            let line_width = metrics.width();
            let offset = self.alignment.horizontal.offset(measure.width, line_width);
            let line_left = top_left.x + offset - metrics.min_x();
            assert(line_left == self.line_start(j as int));
            let mut pen_x = 0i32;
            let mut k: usize = 0;
            while k < line.len()
                invariant
                    k <= line@.len(),
                    pen_x == pen_at(0, self.widths(j as int), spacing as int, k as nat),
                    out@ == per_line.take(j as int).flatten() + self.line_positions(j as int).take(k as int),
                decreases line@.len() - k,
            {
                let ch = line[k];
                let cell = self.cell_for_char(ch, mono);
                assert(self.char_defined(j as int, k as int));
                let cell_origin = Point::new(line_left + pen_x, pen_y);
                let placed = self.positioned_in_cell(ch, cell_origin, cell, mono);
                assert(placed == self.spec_positioned(j as int, k as int));
                assert(self.line_positions(j as int).take(k + 1) =~= self.line_positions(j as int).take(k as int).push(placed));
                out.push(placed);
                pen_x = advance_pen(pen_x, cell.width as i32, spacing, k + 1 < line.len());
                k = k + 1;
            }
            proof {
                assert(self.line_positions(j as int).take(k as int) =~= self.line_positions(j as int));
                assert(per_line.take(j + 1) =~= per_line.take(j as int).push(per_line[j as int]));
                per_line.take(j as int).lemma_flatten_push(per_line[j as int]);
            }
            pen_y = advance_pen(pen_y, metrics.height as i32, line_spacing, j + 1 < lines.len());
            j = j + 1;
        }
        assert(per_line.take(j as int) =~= per_line);
        out
    }

    /// The placements of a vertical run of non-empty text.
    #[verifier::loop_isolation(false)]
    fn positions_vertical(&self, lines: &Vec<Vec<char>>) -> (r: Vec<PositionedGlyph>)
        requires
            self.holds_lines(lines@),
            self.flow is Vertical,
            self.text@.len() > 0,
            self.positions_defined(),
        ensures
            r@ == self.spec_positions(),
    {
        let (spacing, line_spacing, mono) = self.spacing_exec();
        let measure = self.measure_vertical(lines);
        let top_left = self.top_left();
        proof {
            self.lemma_measure_bound();
        }
        let ghost per_line = Seq::new(lines@.len(), |j: int| self.line_positions(j));
        let ghost thick = self.line_thicknesses();
        let mut pen_x = top_left.x;
        let mut out: Vec<PositionedGlyph> = Vec::new();
        let mut j: usize = 0;
        while j < lines.len()
            invariant
                j <= lines@.len(),
                pen_x == pen_at(top_left.x as int, thick, line_spacing as int, j as nat),
                out@ == per_line.take(j as int).flatten(),
            decreases lines@.len() - j,
        {
            let column = &lines[j];
            let metrics = self.measure_column(column, spacing, mono);
            assert(metrics.bounds() == self.column_bounds(j as int));
            assert(self.line_defined(j as int));
            assert(self.line_start_defined(j as int));
            proof {
                lemma_max_fold_bound(self.widths(j as int), 65535);
            }
            let column_height = metrics.height();
            let offset = self.alignment.vertical.offset(measure.height, column_height);
            let column_top = top_left.y + offset - metrics.min_y();
            assert(column_top == self.line_start(j as int));
            let mut pen_y = 0i32;
            let mut k: usize = 0;
            while k < column.len()
                invariant
                    k <= column@.len(),
                    pen_y == pen_at(0, self.heights(j as int), spacing as int, k as nat),
                    out@ == per_line.take(j as int).flatten() + self.line_positions(j as int).take(k as int),
                decreases column@.len() - k,
            {
                let ch = column[k];
                let cell = self.cell_for_char(ch, mono);
                assert(self.char_defined(j as int, k as int));
                let cell_x = pen_x + self.alignment.horizontal.offset(metrics.width, cell.width);
                let cell_origin = Point::new(cell_x, column_top + pen_y);
                let placed = self.positioned_in_cell(ch, cell_origin, cell, mono);
                assert(placed == self.spec_positioned(j as int, k as int));
                assert(self.line_positions(j as int).take(k + 1) =~= self.line_positions(j as int).take(k as int).push(placed));
                out.push(placed);
                pen_y = advance_pen(pen_y, cell.height as i32, spacing, k + 1 < column.len());
                k = k + 1;
            }
            proof {
                assert(self.line_positions(j as int).take(k as int) =~= self.line_positions(j as int));
                assert(per_line.take(j + 1) =~= per_line.take(j as int).push(per_line[j as int]));
                per_line.take(j as int).lemma_flatten_push(per_line[j as int]);
            }
            pen_x = advance_pen(pen_x, metrics.width as i32, line_spacing, j + 1 < lines.len());
            j = j + 1;
        }
        assert(per_line.take(j as int) =~= per_line);
        out
    }

    /// Whether measuring the run stays within `i32`.
    pub fn measure_fits(&self) -> (r: bool)
        ensures
            r == self.measure_defined(),
    {
        if self.text.is_empty() {
            return true;
        }
        let (spacing, _line_spacing, mono) = self.spacing_exec();
        let lines = self.line_list();
        let mut j: usize = 0;
        while j < lines.len()
            invariant
                j <= lines@.len(),
                self.holds_lines(lines@),
                self.text@.len() > 0,
                spacing == self.spacing(),
                mono == self.mono(),
                forall|i: int| 0 <= i < j ==> #[trigger] self.line_defined(i),
            decreases lines@.len() - j,
        {
            let fits = match self.flow {
                TextFlow::Horizontal => {
                    let m = self.measure_line(&lines[j], spacing, mono);
                    assert(m.bounds() == self.line_bounds(j as int));
                    m.extent_fits()
                },
                TextFlow::Vertical => {
                    let m = self.measure_column(&lines[j], spacing, mono);
                    assert(m.bounds() == self.column_bounds(j as int));
                    m.extent_fits()
                },
            };
            if !fits {
                assert(!self.line_defined(j as int));
                return false;
            }
            j = j + 1;
        }
        true
    }

    /// Whether the glyph of `ch` placed in a cell at `(x, y)` has its
    /// origin within `i32`.
    fn glyph_origin_fits(&self, ch: char, x: i64, y: i64, use_x_offset: bool) -> (r: bool)
        requires
            in_i32(x as int),
            in_i32(y as int),
        ensures
            r == glyph_origin_defined(*self.font, ch, (x as int, y as int), use_x_offset),
    {
        match self.font.glyph(ch) {
            Some(g) => {
                let gx = x + if use_x_offset {
                    g.x_offset as i64
                } else {
                    0
                };
                let bottom = y + self.font.size as i64;
                let gy = bottom - g.y_offset as i64;
                fits_i32(gx) && fits_i32(bottom) && fits_i32(gy)
            },
            None => true,
        }
    }

    /// Whether the placements of a horizontal run of non-empty text, whose
    /// measure and top-left corner are given, stay within `i32`.
    #[verifier::loop_isolation(false)]
    #[verifier::spinoff_prover]
    #[verifier::rlimit(40)]
    fn horizontal_positions_fit(&self, lines: &Vec<Vec<char>>, measure: Size, top_left: Point) -> (r: bool)
        requires
            self.holds_lines(lines@),
            self.flow is Horizontal,
            self.text@.len() > 0,
            self.top_left_defined(),
            (measure.width as int, measure.height as int) == self.spec_measure(),
            (top_left.x as int, top_left.y as int) == self.spec_top_left(),
        ensures
            r == self.positions_defined(),
    {
        proof {
            self.lemma_measure_bound();
        }
        let (spacing, line_spacing, mono) = self.spacing_exec();
        let ghost thick = self.line_thicknesses();
        let mut pen_y = top_left.y;
        let mut j: usize = 0;
        while j < lines.len()
            invariant
                j <= lines@.len(),
                pen_y == pen_at(top_left.y as int, thick, line_spacing as int, j as nat),
                forall|i: int| 0 <= i < j ==> #[trigger] self.line_start_defined(i),
                forall|i: int, k: int| 0 <= i < j && 0 <= k < self.lines()[i].len() ==> #[trigger] self.char_defined(i, k),
            decreases lines@.len() - j,
        {
            let line = &lines[j];
            let metrics = self.measure_line(line, spacing, mono);
            assert(metrics.bounds() == self.line_bounds(j as int));
            assert(self.line_defined(j as int));
            let line_width = metrics.width();
            let offset = self.alignment.horizontal.offset(measure.width, line_width);
            let shift = top_left.x as i64 + offset as i64;
            let start = shift - metrics.min_x() as i64;
            if !(fits_i32(shift) && fits_i32(start)) {
                assert(!self.line_start_defined(j as int));
                return false;
            }
            let line_left = start as i32;
            assert(line_left == self.line_start(j as int));
            let mut pen_x = 0i32;
            let mut k: usize = 0;
            while k < line.len()
                invariant
                    k <= line@.len(),
                    pen_x == pen_at(0, self.widths(j as int), spacing as int, k as nat),
                    forall|m: int| 0 <= m < k ==> #[trigger] self.char_defined(j as int, m),
                decreases line@.len() - k,
            {
                let ch = line[k];
                let cell = self.cell_for_char(ch, mono);
                let x = line_left as i64 + pen_x as i64;
                if !(fits_i32(x) && self.glyph_origin_fits(ch, x, pen_y as i64, mono)) {
                    assert(!self.char_defined(j as int, k as int));
                    return false;
                }
                assert(self.char_defined(j as int, k as int));
                pen_x = advance_pen(pen_x, cell.width as i32, spacing, k + 1 < line.len());
                k = k + 1;
            }
            assert forall|i: int, m: int| 0 <= i < j + 1 && 0 <= m < self.lines()[i].len() implies #[trigger] self.char_defined(i, m) by {
                if i == j {
                    assert(self.char_defined(j as int, m));
                }
            }
            pen_y = advance_pen(pen_y, metrics.height as i32, line_spacing, j + 1 < lines.len());
            j = j + 1;
        }
        true
    }

    /// Whether the placements of a vertical run of non-empty text, whose
    /// measure and top-left corner are given, stay within `i32`.
    #[verifier::loop_isolation(false)]
    #[verifier::spinoff_prover]
    #[verifier::rlimit(40)]
    fn vertical_positions_fit(&self, lines: &Vec<Vec<char>>, measure: Size, top_left: Point) -> (r: bool)
        requires
            self.holds_lines(lines@),
            self.flow is Vertical,
            self.text@.len() > 0,
            self.top_left_defined(),
            (measure.width as int, measure.height as int) == self.spec_measure(),
            (top_left.x as int, top_left.y as int) == self.spec_top_left(),
        ensures
            r == self.positions_defined(),
    {
        proof {
            self.lemma_measure_bound();
        }
        let (spacing, line_spacing, mono) = self.spacing_exec();
        let ghost thick = self.line_thicknesses();
        let mut pen_x = top_left.x;
        let mut j: usize = 0;
        while j < lines.len()
            invariant
                j <= lines@.len(),
                pen_x == pen_at(top_left.x as int, thick, line_spacing as int, j as nat),
                forall|i: int| 0 <= i < j ==> #[trigger] self.line_start_defined(i),
                forall|i: int, k: int| 0 <= i < j && 0 <= k < self.lines()[i].len() ==> #[trigger] self.char_defined(i, k),
            decreases lines@.len() - j,
        {
            let column = &lines[j];
            let metrics = self.measure_column(column, spacing, mono);
            assert(metrics.bounds() == self.column_bounds(j as int));
            assert(self.line_defined(j as int));
            proof {
                lemma_max_fold_bound(self.widths(j as int), 65535);
            }
            let column_height = metrics.height();
            let offset = self.alignment.vertical.offset(measure.height, column_height);
            let shift = top_left.y as i64 + offset as i64;
            let start = shift - metrics.min_y() as i64;
            if !(fits_i32(shift) && fits_i32(start)) {
                assert(!self.line_start_defined(j as int));
                return false;
            }
            let column_top = start as i32;
            assert(column_top == self.line_start(j as int));
            let mut pen_y = 0i32;
            let mut k: usize = 0;
            while k < column.len()
                invariant
                    k <= column@.len(),
                    pen_y == pen_at(0, self.heights(j as int), spacing as int, k as nat),
                    forall|m: int| 0 <= m < k ==> #[trigger] self.char_defined(j as int, m),
                decreases column@.len() - k,
            {
                let ch = column[k];
                let cell = self.cell_for_char(ch, mono);
                let x = pen_x as i64 + self.alignment.horizontal.offset(metrics.width, cell.width) as i64;
                let y = column_top as i64 + pen_y as i64;
                if !(fits_i32(x) && fits_i32(y) && self.glyph_origin_fits(ch, x, y, mono)) {
                    assert(!self.char_defined(j as int, k as int));
                    return false;
                }
                assert(self.char_defined(j as int, k as int));
                pen_y = advance_pen(pen_y, cell.height as i32, spacing, k + 1 < column.len());
                k = k + 1;
            }
            assert forall|i: int, m: int| 0 <= i < j + 1 && 0 <= m < self.lines()[i].len() implies #[trigger] self.char_defined(i, m) by {
                if i == j {
                    assert(self.char_defined(j as int, m));
                }
            }
            pen_x = advance_pen(pen_x, metrics.width as i32, line_spacing, j + 1 < lines.len());
            j = j + 1;
        }
        true
    }

    /// Whether the top-left corner of the measured box has `i32`
    /// coordinates.
    pub fn top_left_fits(&self) -> (r: bool)
        ensures
            r == self.top_left_defined(),
    {
        if !self.measure_fits() {
            return false;
        }
        let measure = self.measure();
        proof {
            self.lemma_measure_bound();
        }
        let (ax, ay) = self.alignment.offset(measure, Size::zero());
        fits_i32(self.start.x as i64 - ax as i64) && fits_i32(self.start.y as i64 - ay as i64)
    }

    /// Whether placing every character of the run stays within `i32`.
    pub fn positions_fit(&self) -> (r: bool)
        ensures
            r == self.positions_defined(),
    {
        if self.text.is_empty() {
            return true;
        }
        if !self.top_left_fits() {
            return false;
        }
        let measure = self.measure();
        let top_left = self.top_left();
        let lines = self.line_list();
        match self.flow {
            TextFlow::Horizontal => self.horizontal_positions_fit(&lines, measure, top_left),
            TextFlow::Vertical => self.vertical_positions_fit(&lines, measure, top_left),
        }
    }

    /// The placement of every character of the run, line after line (column
    /// after column), in text order.
    pub fn positioned_glyphs(&self) -> (r: Vec<PositionedGlyph>)
        requires
            self.positions_defined(),
        ensures
            r@ == self.spec_positions(),
    {
        if self.text.is_empty() {
            return Vec::new();
        }
        let lines = self.line_list();
        match self.flow {
            TextFlow::Horizontal => self.positions_horizontal(&lines),
            TextFlow::Vertical => self.positions_vertical(&lines),
        }
    }
}

} // verus!
