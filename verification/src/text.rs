//! Drawable text: a string, a font, a start point and a style, measured and
//! turned into the pixels that drawing it sets.

use vstd::prelude::*;

use crate::font::{FontData, Glyph};
use crate::geometry::{in_i32, Point, Rectangle, Size};
use crate::layout::{fits_i32, PositionedGlyph, TextFlow, TextRun};
use crate::style::TextStyle;

verus! {

broadcast use vstd::seq_lib::group_seq_properties;

/// The drawn pixels of the first `n` columns of row `y` of `glyph` placed at
/// `origin`, left to right.
pub open spec fn row_points(font: FontData, glyph: Glyph, origin: Point, y: int, n: nat) -> Seq<Point>
    decreases n,
{
    if n == 0 {
        Seq::empty()
    } else {
        let x = n - 1;
        let before = row_points(font, glyph, origin, y, (n - 1) as nat);
        if font.spec_glyph_pixel(glyph, x, y) {
            before.push(Point { x: (origin.x + x) as i32, y: (origin.y + y) as i32 })
        } else {
            before
        }
    }
}

/// The drawn pixels of `glyph` placed at `origin`, row by row.
pub open spec fn glyph_points(font: FontData, glyph: Glyph, origin: Point) -> Seq<Point> {
    Seq::new(glyph.height as nat, |y: int| row_points(font, glyph, origin, y, glyph.width as nat)).flatten()
}

/// The covered pixels of the first `n` columns of row `y`, with their
/// coverage, left to right.
pub open spec fn row_coverage(font: FontData, glyph: Glyph, origin: Point, y: int, n: nat) -> Seq<(Point, u8)>
    decreases n,
{
    if n == 0 {
        Seq::empty()
    } else {
        let x = n - 1;
        let before = row_coverage(font, glyph, origin, y, (n - 1) as nat);
        let c = font.spec_glyph_coverage(glyph, x, y);
        if c != 0 {
            before.push((Point { x: (origin.x + x) as i32, y: (origin.y + y) as i32 }, c as u8))
        } else {
            before
        }
    }
}

/// The covered pixels of `glyph` placed at `origin`, row by row.
pub open spec fn glyph_coverage_points(font: FontData, glyph: Glyph, origin: Point) -> Seq<(Point, u8)> {
    Seq::new(glyph.height as nat, |y: int| row_coverage(font, glyph, origin, y, glyph.width as nat)).flatten()
}

/// Whether every pixel of `glyph` can be sampled and every drawn pixel of it
/// placed at `origin` has coordinates in `i32`.
pub open spec fn glyph_drawable(font: FontData, glyph: Glyph, origin: Point) -> bool {
    forall|x: int, y: int|
        0 <= x < glyph.width && 0 <= y < glyph.height ==> {
            &&& #[trigger] font.sample_addressable(glyph, x, y)
            &&& font.spec_glyph_pixel(glyph, x, y) ==> in_i32(origin.x + x) && in_i32(origin.y + y)
        }
}

/// Whether every pixel of `glyph` can be sampled and every covered pixel of
/// it placed at `origin` has coordinates in `i32`.
pub open spec fn glyph_coverable(font: FontData, glyph: Glyph, origin: Point) -> bool {
    forall|x: int, y: int|
        0 <= x < glyph.width && 0 <= y < glyph.height ==> {
            &&& #[trigger] font.sample_addressable(glyph, x, y)
            &&& font.spec_glyph_coverage(glyph, x, y) != 0 ==> in_i32(origin.x + x) && in_i32(origin.y + y)
        }
}

/// The drawn pixels of `glyph` placed at `origin`, row by row and left to
/// right.
pub fn draw_glyph(font: &FontData, glyph: &Glyph, origin: Point) -> (r: Vec<Point>)
    requires
        glyph_drawable(*font, *glyph, origin),
    ensures
        r@ == glyph_points(*font, *glyph, origin),
{
    let ghost rows = Seq::new(glyph.height as nat, |y: int| row_points(*font, *glyph, origin, y, glyph.width as nat));
    let mut out: Vec<Point> = Vec::new();
    let mut y: u16 = 0;
    while y < glyph.height
        invariant
            y <= glyph.height,
            glyph_drawable(*font, *glyph, origin),
            rows == Seq::new(glyph.height as nat, |y: int| row_points(*font, *glyph, origin, y, glyph.width as nat)),
            out@ == rows.take(y as int).flatten(),
        decreases glyph.height - y,
    {
        let ghost before = out@;
        let mut x: u16 = 0;
        while x < glyph.width
            invariant
                x <= glyph.width,
                y < glyph.height,
                glyph_drawable(*font, *glyph, origin),
                out@ == before + row_points(*font, *glyph, origin, y as int, x as nat),
            decreases glyph.width - x,
        {
            assert(font.sample_addressable(*glyph, x as int, y as int));
            if font.glyph_pixel(glyph, x, y) {
                out.push(Point::new(origin.x + x as i32, origin.y + y as i32));
            }
            x = x + 1;
        }
        proof {
            assert(rows.take(y + 1) =~= rows.take(y as int).push(rows[y as int]));
            rows.take(y as int).lemma_flatten_push(rows[y as int]);
        }
        y = y + 1;
    }
    assert(rows.take(y as int) =~= rows);
    out
}

/// Whether the pixel `(x, y)` of `glyph` can be sampled and, when drawn,
/// placed at `origin` with coordinates in `i32`.
pub open spec fn drawn_pixel_fits(font: FontData, glyph: Glyph, origin: Point, x: int, y: int) -> bool {
    &&& font.sample_addressable(glyph, x, y)
    &&& font.spec_glyph_pixel(glyph, x, y) ==> in_i32(origin.x + x) && in_i32(origin.y + y)
}

/// Whether every pixel of `glyph` can be sampled and every drawn pixel of
/// it placed at `origin` has coordinates in `i32`.
pub fn glyph_fits(font: &FontData, glyph: &Glyph, origin: Point) -> (r: bool)
    ensures
        r == glyph_drawable(*font, *glyph, origin),
{
    let mut y: u16 = 0;
    while y < glyph.height
        invariant
            y <= glyph.height,
            forall|px: int, py: int|
                0 <= px < glyph.width && 0 <= py < y ==> #[trigger] drawn_pixel_fits(*font, *glyph, origin, px, py),
        decreases glyph.height - y,
    {
        let mut x: u16 = 0;
        while x < glyph.width
            invariant
                x <= glyph.width,
                y < glyph.height,
                forall|px: int, py: int|
                    0 <= px < glyph.width && 0 <= py < y ==> #[trigger] drawn_pixel_fits(*font, *glyph, origin, px, py),
                forall|px: int| 0 <= px < x ==> #[trigger] drawn_pixel_fits(*font, *glyph, origin, px, y as int),
            decreases glyph.width - x,
        {
            if !font.sample_fits(glyph, x, y) {
                return false;
            }
            let drawn = font.glyph_pixel(glyph, x, y);
            let placed = fits_i32(origin.x as i64 + x as i64) && fits_i32(origin.y as i64 + y as i64);
            if drawn && !placed {
                return false;
            }
            assert(drawn_pixel_fits(*font, *glyph, origin, x as int, y as int));
            x = x + 1;
        }
        y = y + 1;
    }
    assert forall|px: int, py: int| 0 <= px < glyph.width && 0 <= py < glyph.height implies {
        &&& #[trigger] font.sample_addressable(*glyph, px, py)
        &&& font.spec_glyph_pixel(*glyph, px, py) ==> in_i32(origin.x + px) && in_i32(origin.y + py)
    } by {
        assert(drawn_pixel_fits(*font, *glyph, origin, px, py));
    }
    true
}

/// Whether the pixel `(x, y)` of `glyph` can be sampled and, when covered,
/// placed at `origin` with coordinates in `i32`.
pub open spec fn covered_pixel_fits(font: FontData, glyph: Glyph, origin: Point, x: int, y: int) -> bool {
    &&& font.sample_addressable(glyph, x, y)
    &&& font.spec_glyph_coverage(glyph, x, y) != 0 ==> in_i32(origin.x + x) && in_i32(origin.y + y)
}

/// Whether every pixel of `glyph` can be sampled and every covered pixel of
/// it placed at `origin` has coordinates in `i32`.
pub fn glyph_coverage_fits(font: &FontData, glyph: &Glyph, origin: Point) -> (r: bool)
    ensures
        r == glyph_coverable(*font, *glyph, origin),
{
    let mut y: u16 = 0;
    while y < glyph.height
        invariant
            y <= glyph.height,
            forall|px: int, py: int|
                0 <= px < glyph.width && 0 <= py < y ==> #[trigger] covered_pixel_fits(*font, *glyph, origin, px, py),
        decreases glyph.height - y,
    {
        let mut x: u16 = 0;
        while x < glyph.width
            invariant
                x <= glyph.width,
                y < glyph.height,
                forall|px: int, py: int|
                    0 <= px < glyph.width && 0 <= py < y ==> #[trigger] covered_pixel_fits(*font, *glyph, origin, px, py),
                forall|px: int| 0 <= px < x ==> #[trigger] covered_pixel_fits(*font, *glyph, origin, px, y as int),
            decreases glyph.width - x,
        {
            if !font.sample_fits(glyph, x, y) {
                return false;
            }
            let coverage = font.glyph_coverage(glyph, x, y);
            let placed = fits_i32(origin.x as i64 + x as i64) && fits_i32(origin.y as i64 + y as i64);
            if coverage != 0 && !placed {
                return false;
            }
            assert(covered_pixel_fits(*font, *glyph, origin, x as int, y as int));
            x = x + 1;
        }
        y = y + 1;
    }
    assert forall|px: int, py: int| 0 <= px < glyph.width && 0 <= py < glyph.height implies {
        &&& #[trigger] font.sample_addressable(*glyph, px, py)
        &&& font.spec_glyph_coverage(*glyph, px, py) != 0 ==> in_i32(origin.x + px) && in_i32(origin.y + py)
    } by {
        assert(covered_pixel_fits(*font, *glyph, origin, px, py));
    }
    true
}

/// The covered pixels of `glyph` placed at `origin` and their coverage, row
/// by row and left to right.
pub fn for_each_glyph_coverage(font: &FontData, glyph: &Glyph, origin: Point) -> (r: Vec<(Point, u8)>)
    requires
        glyph_coverable(*font, *glyph, origin),
    ensures
        r@ == glyph_coverage_points(*font, *glyph, origin),
{
    let ghost rows = Seq::new(glyph.height as nat, |y: int| row_coverage(*font, *glyph, origin, y, glyph.width as nat));
    let mut out: Vec<(Point, u8)> = Vec::new();
    let mut y: u16 = 0;
    while y < glyph.height
        invariant
            y <= glyph.height,
            glyph_coverable(*font, *glyph, origin),
            rows == Seq::new(glyph.height as nat, |y: int| row_coverage(*font, *glyph, origin, y, glyph.width as nat)),
            out@ == rows.take(y as int).flatten(),
        decreases glyph.height - y,
    {
        let ghost before = out@;
        let mut x: u16 = 0;
        while x < glyph.width
            invariant
                x <= glyph.width,
                y < glyph.height,
                glyph_coverable(*font, *glyph, origin),
                out@ == before + row_coverage(*font, *glyph, origin, y as int, x as nat),
            decreases glyph.width - x,
        {
            assert(font.sample_addressable(*glyph, x as int, y as int));
            let coverage = font.glyph_coverage(glyph, x, y);
            if coverage != 0 {
                out.push((Point::new(origin.x + x as i32, origin.y + y as i32), coverage));
            }
            x = x + 1;
        }
        proof {
            assert(rows.take(y + 1) =~= rows.take(y as int).push(rows[y as int]));
            rows.take(y as int).lemma_flatten_push(rows[y as int]);
        }
        y = y + 1;
    }
    assert(rows.take(y as int) =~= rows);
    out
}


/// The drawn pixels of one placed character: those of its glyph at the
/// glyph origin, none for a character without a glyph.
pub open spec fn placed_points(font: FontData, p: PositionedGlyph) -> Seq<Point> {
    match (p.glyph, p.glyph_origin) {
        (Some(g), Some(o)) => glyph_points(font, g, o),
        _ => Seq::empty(),
    }
}

/// The covered pixels of one placed character.
pub open spec fn placed_coverage(font: FontData, p: PositionedGlyph) -> Seq<(Point, u8)> {
    match (p.glyph, p.glyph_origin) {
        (Some(g), Some(o)) => glyph_coverage_points(font, g, o),
        _ => Seq::empty(),
    }
}

pub open spec fn placed_drawable(font: FontData, p: PositionedGlyph) -> bool {
    match (p.glyph, p.glyph_origin) {
        (Some(g), Some(o)) => glyph_drawable(font, g, o),
        _ => true,
    }
}

pub open spec fn placed_coverable(font: FontData, p: PositionedGlyph) -> bool {
    match (p.glyph, p.glyph_origin) {
        (Some(g), Some(o)) => glyph_coverable(font, g, o),
        _ => true,
    }
}

/// The drawn pixels of a run: each placed character's pixels, in text
/// order.
pub open spec fn run_points(font: FontData, placed: Seq<PositionedGlyph>) -> Seq<Point> {
    Seq::new(placed.len(), |i: int| placed_points(font, placed[i])).flatten()
}

/// The covered pixels of a run, in text order.
pub open spec fn run_coverage(font: FontData, placed: Seq<PositionedGlyph>) -> Seq<(Point, u8)> {
    Seq::new(placed.len(), |i: int| placed_coverage(font, placed[i])).flatten()
}

/// Whether the run can be placed and every drawn pixel has `i32`
/// coordinates.
pub open spec fn run_drawable(run: TextRun) -> bool {
    &&& run.positions_defined()
    &&& forall|i: int|
        0 <= i < run.spec_positions().len() ==> #[trigger] placed_drawable(*run.font, run.spec_positions()[i])
}

/// Whether the run can be placed and every covered pixel has `i32`
/// coordinates.
pub open spec fn run_coverable(run: TextRun) -> bool {
    &&& run.positions_defined()
    &&& forall|i: int|
        0 <= i < run.spec_positions().len() ==> #[trigger] placed_coverable(*run.font, run.spec_positions()[i])
}

/// The pixels that drawing a run sets.
pub fn draw_text_run(font: &FontData, run: &TextRun) -> (r: Vec<Point>)
    requires
        run.font == font,
        run_drawable(*run),
    ensures
        r@ == run_points(*font, run.spec_positions()),
{
    let placed = run.positioned_glyphs();
    let ghost parts = Seq::new(placed@.len(), |i: int| placed_points(*font, placed@[i]));
    let mut out: Vec<Point> = Vec::new();
    let mut i: usize = 0;
    while i < placed.len()
        invariant
            i <= placed@.len(),
            placed@ == run.spec_positions(),
            run.font == font,
            run_drawable(*run),
            parts == Seq::new(placed@.len(), |i: int| placed_points(*font, placed@[i])),
            out@ == parts.take(i as int).flatten(),
        decreases placed@.len() - i,
    {
        let p = placed[i];
        assert(placed_drawable(*font, placed@[i as int]));
        match (p.glyph, p.glyph_origin) {
            (Some(glyph), Some(origin)) => {
                let mut pts = draw_glyph(font, &glyph, origin);
                out.append(&mut pts);
            },
            _ => {},
        }
        proof {
            assert(parts.take(i + 1) =~= parts.take(i as int).push(parts[i as int]));
            parts.take(i as int).lemma_flatten_push(parts[i as int]);
        }
        i = i + 1;
    }
    assert(parts.take(i as int) =~= parts);
    out
}

/// Whether drawing a run stays within `i32`: it can be placed, and every
/// drawn pixel of it has `i32` coordinates.
pub fn run_fits(font: &FontData, run: &TextRun) -> (r: bool)
    requires
        run.font == font,
    ensures
        r == run_drawable(*run),
{
    if !run.positions_fit() {
        return false;
    }
    let placed = run.positioned_glyphs();
    let mut i: usize = 0;
    while i < placed.len()
        invariant
            i <= placed@.len(),
            placed@ == run.spec_positions(),
            run.font == font,
            run.positions_defined(),
            forall|k: int| 0 <= k < i ==> #[trigger] placed_drawable(*font, placed@[k]),
        decreases placed@.len() - i,
    {
        let p = placed[i];
        let fits = match (p.glyph, p.glyph_origin) {
            (Some(glyph), Some(origin)) => glyph_fits(font, &glyph, origin),
            _ => true,
        };
        if !fits {
            assert(!placed_drawable(*font, run.spec_positions()[i as int]));
            return false;
        }
        i = i + 1;
    }
    true
}

/// Whether taking the coverage of a run stays within `i32`: it can be
/// placed, and every covered pixel of it has `i32` coordinates.
pub fn run_coverage_fits(font: &FontData, run: &TextRun) -> (r: bool)
    requires
        run.font == font,
    ensures
        r == run_coverable(*run),
{
    if !run.positions_fit() {
        return false;
    }
    let placed = run.positioned_glyphs();
    let mut i: usize = 0;
    while i < placed.len()
        invariant
            i <= placed@.len(),
            placed@ == run.spec_positions(),
            run.font == font,
            run.positions_defined(),
            forall|k: int| 0 <= k < i ==> #[trigger] placed_coverable(*font, placed@[k]),
        decreases placed@.len() - i,
    {
        let p = placed[i];
        let fits = match (p.glyph, p.glyph_origin) {
            (Some(glyph), Some(origin)) => glyph_coverage_fits(font, &glyph, origin),
            _ => true,
        };
        if !fits {
            assert(!placed_coverable(*font, run.spec_positions()[i as int]));
            return false;
        }
        i = i + 1;
    }
    true
}

/// The covered pixels of a run and their coverage.
pub fn for_each_text_coverage(font: &FontData, run: &TextRun) -> (r: Vec<(Point, u8)>)
    requires
        run.font == font,
        run_coverable(*run),
    ensures
        r@ == run_coverage(*font, run.spec_positions()),
{
    let placed = run.positioned_glyphs();
    let ghost parts = Seq::new(placed@.len(), |i: int| placed_coverage(*font, placed@[i]));
    let mut out: Vec<(Point, u8)> = Vec::new();
    let mut i: usize = 0;
    while i < placed.len()
        invariant
            i <= placed@.len(),
            placed@ == run.spec_positions(),
            run.font == font,
            run_coverable(*run),
            parts == Seq::new(placed@.len(), |i: int| placed_coverage(*font, placed@[i])),
            out@ == parts.take(i as int).flatten(),
        decreases placed@.len() - i,
    {
        let p = placed[i];
        assert(placed_coverable(*font, placed@[i as int]));
        match (p.glyph, p.glyph_origin) {
            (Some(glyph), Some(origin)) => {
                let mut pts = for_each_glyph_coverage(font, &glyph, origin);
                out.append(&mut pts);
            },
            _ => {},
        }
        proof {
            assert(parts.take(i + 1) =~= parts.take(i as int).push(parts[i as int]));
            parts.take(i as int).lemma_flatten_push(parts[i as int]);
        }
        i = i + 1;
    }
    assert(parts.take(i as int) =~= parts);
    out
}

/// Text to draw: a string in a font, anchored at a start point, with a
/// style, flowing horizontally or vertically.
#[derive(Debug, Clone, Copy, PartialEq, Eq)]
pub struct DrawableText<'a, C> {
    pub font_data: &'a FontData<'a>,
    pub text: &'a str,
    pub start_point: Point,
    pub style: TextStyle<C>,
    pub flow: TextFlow,
}

impl<'a, C> DrawableText<'a, C> {
    pub open spec fn spec_flow(self) -> TextFlow {
        self.flow
    }

    /// The run that the text lays out.
    pub open spec fn spec_run(self) -> TextRun<'a> {
        TextRun {
            font: self.font_data,
            text: self.text,
            start: self.start_point,
            layout: self.style.layout,
            alignment: self.style.alignment,
            flow: self.spec_flow(),
        }
    }

    /// Horizontal text at the origin.
    pub fn new(font_data: &'a FontData<'a>, text: &'a str, style: TextStyle<C>) -> (r: DrawableText<'a, C>)
        ensures
            r.font_data == font_data,
            r.text == text,
            r.start_point == Point::zero_spec(),
            r.style == style,
            r.spec_flow() is Horizontal,
    {
        DrawableText { font_data, text, start_point: Point::zero(), style, flow: TextFlow::Horizontal }
    }

    /// The same text anchored at `start_point`.
    pub fn at(self, start_point: Point) -> (r: DrawableText<'a, C>)
        ensures
            r.font_data == self.font_data,
            r.text == self.text,
            r.start_point == start_point,
            r.style == self.style,
            r.spec_flow() == self.spec_flow(),
    {
        DrawableText { start_point, ..self }
    }

    /// The same text flowing left to right, lines stacked downward.
    pub fn horizontal(self) -> (r: DrawableText<'a, C>)
        ensures
            r.font_data == self.font_data,
            r.text == self.text,
            r.start_point == self.start_point,
            r.style == self.style,
            r.spec_flow() is Horizontal,
    {
        DrawableText { flow: TextFlow::Horizontal, ..self }
    }

    /// The same text flowing top to bottom with upright characters, columns
    /// stacked rightward.
    pub fn vertical(self) -> (r: DrawableText<'a, C>)
        ensures
            r.font_data == self.font_data,
            r.text == self.text,
            r.start_point == self.start_point,
            r.style == self.style,
            r.spec_flow() is Vertical,
    {
        DrawableText { flow: TextFlow::Vertical, ..self }
    }

    /// The run that the text lays out.
    pub fn run(&self) -> (r: TextRun<'a>)
        ensures
            r == self.spec_run(),
    {
        TextRun::new(
            self.font_data,
            self.text,
            self.start_point,
            self.style.layout,
            self.style.alignment,
            self.flow,
        )
    }

    /// Whether measuring the text stays within `i32`.
    pub fn can_measure(&self) -> (r: bool)
        ensures
            r == self.spec_run().measure_defined(),
    {
        self.run().measure_fits()
    }

    /// Whether the box of the text has `i32` coordinates.
    pub fn can_bound(&self) -> (r: bool)
        ensures
            r == self.spec_run().top_left_defined(),
    {
        self.run().top_left_fits()
    }

    /// Whether drawing the text stays within `i32`.
    pub fn can_draw(&self) -> (r: bool)
        ensures
            r == run_drawable(self.spec_run()),
    {
        let run = self.run();
        run_fits(self.font_data, &run)
    }

    /// Whether taking the coverage of the text stays within `i32`.
    pub fn can_cover(&self) -> (r: bool)
        ensures
            r == run_coverable(self.spec_run()),
    {
        let run = self.run();
        run_coverage_fits(self.font_data, &run)
    }

    /// The size of the text.
    pub fn measure(&self) -> (r: Size)
        requires
            self.spec_run().measure_defined(),
        ensures
            (r.width as int, r.height as int) == self.spec_run().spec_measure(),
    {
        self.run().measure()
    }

    /// The box that the text occupies: its size, placed so that the start
    /// point is the aligned anchor.
    pub fn bounding_box(&self) -> (r: Rectangle)
        requires
            self.spec_run().top_left_defined(),
        ensures
            (r.top_left.x as int, r.top_left.y as int) == self.spec_run().spec_top_left(),
            (r.size.width as int, r.size.height as int) == self.spec_run().spec_measure(),
    {
        let run = self.run();
        Rectangle::new(run.top_left(), self.measure())
    }

    /// The pixels that drawing the text sets, glyph after glyph in text
    /// order, each glyph row by row.
    pub fn draw(&self) -> (r: Vec<Point>)
        requires
            run_drawable(self.spec_run()),
        ensures
            r@ == run_points(*self.font_data, self.spec_run().spec_positions()),
    {
        let run = self.run();
        draw_text_run(self.font_data, &run)
    }

    /// The covered pixels of the text and their coverage in `1..=255`, in the
    /// order in which they are visited: glyph after glyph in text order,
    /// each glyph row by row.
    pub fn for_each_coverage_pixel(&self) -> (r: Vec<(Point, u8)>)
        requires
            run_coverable(self.spec_run()),
        ensures
            r@ == run_coverage(*self.font_data, self.spec_run().spec_positions()),
    {
        let run = self.run();
        for_each_text_coverage(self.font_data, &run)
    }
}

} // verus!
