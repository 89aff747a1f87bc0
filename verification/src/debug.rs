//! Debug outlines: the one-pixel frame of every character cell or glyph
//! bitmap of a text.

use vstd::prelude::*;

use crate::geometry::{in_i32, Point, Size};
use crate::layout::{fits_i32, PositionedGlyph, TextRun};
use crate::style::u32_as_i32;
use crate::text::DrawableText;

verus! {

broadcast use vstd::seq_lib::group_seq_properties;

/// Which box of each character a debug outline frames.
#[derive(Debug, Clone, Copy, PartialEq, Eq, Structural)]
pub enum DebugBoxKind {
    Cell,
    Glyph,
}

/// The glyph box of a placed character: the glyph bitmap's bounds at the
/// glyph origin (the cell origin if there is none), for characters with a
/// glyph.
pub open spec fn spec_glyph_box_bounds(p: PositionedGlyph) -> Option<(Point, Size)> {
    match p.glyph {
        Some(g) => Some(
            (
                match p.glyph_origin {
                    Some(o) => o,
                    None => p.cell_origin,
                },
                Size { width: g.width as u32, height: g.height as u32 },
            ),
        ),
        None => None,
    }
}

/// The box of a placed character that a debug outline of `kind` frames.
pub open spec fn spec_box_bounds(p: PositionedGlyph, kind: DebugBoxKind) -> Option<(Point, Size)> {
    match kind {
        DebugBoxKind::Cell => Some((p.cell_origin, p.cell_size)),
        DebugBoxKind::Glyph => spec_glyph_box_bounds(p),
    }
}

pub fn glyph_box_bounds(positioned: PositionedGlyph) -> (r: Option<(Point, Size)>)
    ensures
        r == spec_glyph_box_bounds(positioned),
{
    match positioned.glyph {
        Some(glyph) => {
            let origin = match positioned.glyph_origin {
                Some(o) => o,
                None => positioned.cell_origin,
            };
            Some((origin, Size::new(glyph.width as u32, glyph.height as u32)))
        },
        None => None,
    }
}

fn box_bounds(positioned: PositionedGlyph, kind: DebugBoxKind) -> (r: Option<(Point, Size)>)
    ensures
        r == spec_box_bounds(positioned, kind),
{
    match kind {
        DebugBoxKind::Cell => Some((positioned.cell_origin, positioned.cell_size)),
        DebugBoxKind::Glyph => glyph_box_bounds(positioned),
    }
}

/// The right and bottom edges of a box.
pub open spec fn far_edges(origin: Point, size: Size) -> (int, int) {
    (origin.x + u32_as_i32(size.width) - 1, origin.y + u32_as_i32(size.height) - 1)
}

/// Whether framing the box stays within `i32`.
pub open spec fn outline_defined(origin: Point, size: Size) -> bool {
    size.width != 0 && size.height != 0 ==> {
        &&& in_i32(origin.x + u32_as_i32(size.width))
        &&& in_i32(far_edges(origin, size).0)
        &&& in_i32(origin.y + u32_as_i32(size.height))
        &&& in_i32(far_edges(origin, size).1)
        &&& in_i32(origin.y + 1)
    }
}

/// Whether framing the box stays within `i32`.
pub fn outline_fits(origin: Point, size: Size) -> (r: bool)
    ensures
        r == outline_defined(origin, size),
{
    if size.width == 0 || size.height == 0 {
        return true;
    }
    let w = size.width as i32 as i64;
    let h = size.height as i32 as i64;
    let x = origin.x as i64;
    let y = origin.y as i64;
    fits_i32(x + w) && fits_i32(x + w - 1) && fits_i32(y + h) && fits_i32(y + h - 1) && fits_i32(y + 1)
}

/// The pixels at column `x` of the top and bottom edges.
pub open spec fn top_bottom_pair(x: int, top: int, bottom: int) -> Seq<Point> {
    if bottom != top {
        seq![Point { x: x as i32, y: top as i32 }, Point { x: x as i32, y: bottom as i32 }]
    } else {
        seq![Point { x: x as i32, y: top as i32 }]
    }
}

/// The pixels at row `y` of the left and right edges.
pub open spec fn left_right_pair(y: int, left: int, right: int) -> Seq<Point> {
    if right != left {
        seq![Point { x: left as i32, y: y as i32 }, Point { x: right as i32, y: y as i32 }]
    } else {
        seq![Point { x: left as i32, y: y as i32 }]
    }
}

/// The frame of a box: the top and bottom edges column by column from left
/// to right, then the left and right edges row by row between them. An
/// empty box has no frame.
pub open spec fn outline_points(origin: Point, size: Size) -> Seq<Point> {
    if size.width == 0 || size.height == 0 {
        Seq::empty()
    } else {
        let (right, bottom) = far_edges(origin, size);
        let columns = if right >= origin.x {
            right - origin.x + 1
        } else {
            0
        };
        let rows = if bottom > origin.y + 1 {
            bottom - origin.y - 1
        } else {
            0
        };
        Seq::new(columns as nat, |i: int| top_bottom_pair(origin.x + i, origin.y as int, bottom)).flatten()
            + Seq::new(rows as nat, |i: int| left_right_pair(origin.y + 1 + i, origin.x as int, right)).flatten()
    }
}

/// The pixels of the one-pixel frame of a box.
pub fn draw_outline(origin: Point, size: Size) -> (r: Vec<Point>)
    requires
        outline_defined(origin, size),
    ensures
        r@ == outline_points(origin, size),
{
    let mut out: Vec<Point> = Vec::new();
    if size.width == 0 || size.height == 0 {
        return out;
    }
    let right = origin.x + size.width as i32 - 1;
    let bottom = origin.y + size.height as i32 - 1;
    let ghost columns = if right >= origin.x {
        right - origin.x + 1
    } else {
        0
    };
    let ghost top_bottom = Seq::new(columns as nat, |i: int| top_bottom_pair(origin.x + i, origin.y as int, bottom as int));
    let mut x: i64 = origin.x as i64;
    while x <= right as i64
        invariant
            origin.x <= x <= right + 1 || (x == origin.x && right < origin.x),
            columns == (if right >= origin.x { right - origin.x + 1 } else { 0 }),
            top_bottom == Seq::new(columns as nat, |i: int| top_bottom_pair(origin.x + i, origin.y as int, bottom as int)),
            out@ == top_bottom.take(x - origin.x).flatten(),
        decreases right + 1 - x,
    {
        let xi = x as i32;
        let ghost k = x - origin.x;
        proof {
            assert(top_bottom[k] == top_bottom_pair(x as int, origin.y as int, bottom as int));
        }
        out.push(Point::new(xi, origin.y));
        if bottom != origin.y {
            out.push(Point::new(xi, bottom));
        }
        proof {
            assert(top_bottom.take(k + 1) =~= top_bottom.take(k).push(top_bottom[k]));
            top_bottom.take(k).lemma_flatten_push(top_bottom[k]);
            assert(out@ =~= top_bottom.take(k).flatten() + top_bottom[k]);
        }
        x = x + 1;
    }
    assert(top_bottom.take(x - origin.x) =~= top_bottom);
    let ghost first = out@;
    let ghost rows = if bottom > origin.y + 1 {
        bottom - origin.y - 1
    } else {
        0
    };
    let ghost sides = Seq::new(rows as nat, |i: int| left_right_pair(origin.y + 1 + i, origin.x as int, right as int));
    let mut y: i32 = origin.y + 1;
    while y < bottom
        invariant
            origin.y + 1 <= y,
            y <= bottom || y == origin.y + 1,
            rows == (if bottom > origin.y + 1 { bottom - origin.y - 1 } else { 0 }),
            sides == Seq::new(rows as nat, |i: int| left_right_pair(origin.y + 1 + i, origin.x as int, right as int)),
            out@ == first + sides.take(y - origin.y - 1).flatten(),
        decreases bottom - y,
    {
        let ghost k = y - origin.y - 1;
        out.push(Point::new(origin.x, y));
        if right != origin.x {
            out.push(Point::new(right, y));
        }
        proof {
            assert(sides[k] == left_right_pair(y as int, origin.x as int, right as int));
            assert(sides.take(k + 1) =~= sides.take(k).push(sides[k]));
            sides.take(k).lemma_flatten_push(sides[k]);
            assert(out@ =~= first + sides.take(k).flatten() + sides[k]);
        }
        y = y + 1;
    }
    assert(sides.take(y - origin.y - 1) =~= sides);
    out
}

/// The frames of one kind of box of every placed character, in text order.
pub open spec fn boxes_points(placed: Seq<PositionedGlyph>, kind: DebugBoxKind) -> Seq<Point> {
    Seq::new(
        placed.len(),
        |i: int|
            match spec_box_bounds(placed[i], kind) {
                Some((o, s)) => outline_points(o, s),
                None => Seq::empty(),
            },
    ).flatten()
}

/// Whether framing one kind of box of every placed character stays within
/// `i32`.
pub open spec fn boxes_defined(run: TextRun, kind: DebugBoxKind) -> bool {
    &&& run.positions_defined()
    &&& forall|i: int|
        0 <= i < run.spec_positions().len() ==> match #[trigger] spec_box_bounds(run.spec_positions()[i], kind) {
            Some((o, s)) => outline_defined(o, s),
            None => true,
        }
}

fn draw_text_boxes(run: &TextRun, kind: DebugBoxKind) -> (r: Vec<Point>)
    requires
        boxes_defined(*run, kind),
    ensures
        r@ == boxes_points(run.spec_positions(), kind),
{
    let placed = run.positioned_glyphs();
    let ghost parts = Seq::new(
        placed@.len(),
        |i: int|
            match spec_box_bounds(placed@[i], kind) {
                Some((o, s)) => outline_points(o, s),
                None => Seq::empty(),
            },
    );
    let mut out: Vec<Point> = Vec::new();
    let mut i: usize = 0;
    while i < placed.len()
        invariant
            i <= placed@.len(),
            placed@ == run.spec_positions(),
            boxes_defined(*run, kind),
            parts == Seq::new(
                placed@.len(),
                |i: int|
                    match spec_box_bounds(placed@[i], kind) {
                        Some((o, s)) => outline_points(o, s),
                        None => Seq::empty(),
                    },
            ),
            out@ == parts.take(i as int).flatten(),
        decreases placed@.len() - i,
    {
        let b = box_bounds(placed[i], kind);
        assert(b == spec_box_bounds(run.spec_positions()[i as int], kind));
        match b {
            Some((origin, size)) => {
                let mut pts = draw_outline(origin, size);
                out.append(&mut pts);
            },
            None => {},
        }
        proof {
            assert(parts.take(i + 1) =~= parts.take(i as int).push(parts[i as int]));
            parts.take(i as int).lemma_flatten_push(parts[i as int]);
        }
        i = i + 1;
    }
    assert(parts.take(i as int) =~= parts);
    out
}

/// Whether framing one kind of box of every character of a run stays
/// within `i32`.
pub fn boxes_fit(run: &TextRun, kind: DebugBoxKind) -> (r: bool)
    ensures
        r == boxes_defined(*run, kind),
{
    if !run.positions_fit() {
        return false;
    }
    let placed = run.positioned_glyphs();
    let mut i: usize = 0;
    while i < placed.len()
        invariant
            i <= placed@.len(),
            placed@ == run.spec_positions(),
            run.positions_defined(),
            forall|k: int|
                0 <= k < i ==> match #[trigger] spec_box_bounds(placed@[k], kind) {
                    Some((o, s)) => outline_defined(o, s),
                    None => true,
                },
        decreases placed@.len() - i,
    {
        let fits = match box_bounds(placed[i], kind) {
            Some((origin, size)) => outline_fits(origin, size),
            None => true,
        };
        if !fits {
            assert(!boxes_defined(*run, kind)) by {
                assert(spec_box_bounds(run.spec_positions()[i as int], kind) == spec_box_bounds(placed@[i as int], kind));
            }
            return false;
        }
        i = i + 1;
    }
    true
}

impl<'a, C> DrawableText<'a, C> {
    /// Whether framing one kind of box of every character stays within
    /// `i32`.
    pub fn can_draw_debug_boxes(&self, kind: DebugBoxKind) -> (r: bool)
        ensures
            r == boxes_defined(self.spec_run(), kind),
    {
        let run = self.run();
        boxes_fit(&run, kind)
    }

    /// The pixels of the debug frames of one kind of box of every character,
    /// in text order.
    pub fn draw_debug_boxes(&self, kind: DebugBoxKind) -> (r: Vec<Point>)
        requires
            boxes_defined(self.spec_run(), kind),
        ensures
            r@ == boxes_points(self.spec_run().spec_positions(), kind),
    {
        let run = self.run();
        draw_text_boxes(&run, kind)
    }

    /// The pixels of the frames of every character cell.
    pub fn draw_cell_boxes(&self) -> (r: Vec<Point>)
        requires
            boxes_defined(self.spec_run(), DebugBoxKind::Cell),
        ensures
            r@ == boxes_points(self.spec_run().spec_positions(), DebugBoxKind::Cell),
    {
        self.draw_debug_boxes(DebugBoxKind::Cell)
    }

    /// The pixels of the frames of every glyph bitmap.
    pub fn draw_glyph_boxes(&self) -> (r: Vec<Point>)
        requires
            boxes_defined(self.spec_run(), DebugBoxKind::Glyph),
        ensures
            r@ == boxes_points(self.spec_run().spec_positions(), DebugBoxKind::Glyph),
    {
        self.draw_debug_boxes(DebugBoxKind::Glyph)
    }
}

} // verus!
