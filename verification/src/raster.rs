//! Post-processing of rasterized glyphs for font data: the shared vertical
//! adjustment of a font block, the cell placement of each glyph and the
//! clipping of its bitmap to the cell.

use vstd::prelude::*;

use crate::geometry::{
    char_is_ascii, clamp_i32, clamp_i32_to_i16, clamp_int, in_i32, is_ascii_char, max_i32,
    max_int, min_i32, min_int, offset_i16_i32, sat_i16,
};
use crate::style::half_toward_zero;

verus! {

broadcast use vstd::seq_lib::group_seq_properties;

/// A rasterized glyph before packing: its character, bitmap bounds, cell
/// placement, raw metrics and one byte of coverage per pixel, row by row.
#[derive(Debug, Clone, PartialEq, Eq)]
pub struct BitmapGlyph {
    pub codepoint: char,
    pub width: u16,
    pub height: u16,
    pub cell_width: u16,
    pub x_offset: i16,
    pub y_offset: i16,
    pub x_min: i16,
    pub y_min: i16,
    pub advance_width: u16,
    pub bitmap: Vec<u8>,
}

/// The x offset that centers a bitmap of width `inner` in a cell of width
/// `outer` (rounded toward zero, clamped to `i16`).
pub open spec fn spec_centered_offset(outer: int, inner: int) -> int {
    sat_i16(half_toward_zero(outer - inner))
}

/// Centers a bitmap of width `inner` in a cell of width `outer`.
pub fn centered_offset(outer: u16, inner: u16) -> (r: i16)
    ensures
        r == spec_centered_offset(outer as int, inner as int),
{
    clamp_i32_to_i16((outer as i32 - inner as i32) / 2)
}

/// The row of the glyph's top edge inside a cell of height `raster_height`:
/// `y_offset` counts rows above the cell's bottom.
pub open spec fn spec_glyph_top(raster_height: int, y_offset: int) -> int {
    raster_height - y_offset
}

/// The row just below the glyph's bottom edge.
pub open spec fn spec_glyph_bottom(raster_height: int, y_offset: int, height: int) -> int {
    spec_glyph_top(raster_height, y_offset) + height
}

pub fn glyph_top(raster_height: i32, glyph: &BitmapGlyph) -> (r: i32)
    requires
        0 <= raster_height <= u16::MAX,
    ensures
        r == spec_glyph_top(raster_height as int, glyph.y_offset as int),
{
    raster_height - glyph.y_offset as i32
}

pub fn glyph_bottom(raster_height: i32, glyph: &BitmapGlyph) -> (r: i32)
    requires
        0 <= raster_height <= u16::MAX,
    ensures
        r == spec_glyph_bottom(raster_height as int, glyph.y_offset as int, glyph.height as int),
{
    glyph_top(raster_height, glyph) + glyph.height as i32
}

/// Whether a glyph takes part in an adjustment that picks ASCII glyphs
/// (`Some(true)`), other glyphs (`Some(false)`) or all glyphs (`None`).
pub open spec fn picked(ascii: bool, which: Option<bool>) -> bool {
    match which {
        Some(a) => ascii == a,
        None => true,
    }
}

/// The vertical boxes of glyphs: whether the glyph is ASCII, its
/// `y_offset` and its height.
pub open spec fn vboxes(glyphs: Seq<BitmapGlyph>) -> Seq<(bool, i16, u16)> {
    Seq::new(glyphs.len(), |i: int| (is_ascii_char(glyphs[i].codepoint), glyphs[i].y_offset, glyphs[i].height))
}

/// The topmost top row and the lowest bottom row of the picked glyphs among
/// the first `k`, if any is picked.
pub open spec fn vertical_span(raster_height: int, boxes: Seq<(bool, i16, u16)>, which: Option<bool>, k: nat) -> Option<(int, int)>
    decreases k,
{
    if k == 0 {
        None
    } else {
        let prev = vertical_span(raster_height, boxes, which, (k - 1) as nat);
        let g = boxes[k - 1];
        let top = spec_glyph_top(raster_height, g.1 as int);
        let bottom = spec_glyph_bottom(raster_height, g.1 as int, g.2 as int);
        if picked(g.0, which) {
            match prev {
                None => Some((top, bottom)),
                Some((t, b)) => Some((min_int(t, top), max_int(b, bottom))),
            }
        } else {
            prev
        }
    }
}

/// The shared shift of a block's glyphs: 0 when they already fit the cell
/// height; otherwise the smallest shift that makes them fit; and when they
/// cannot fit, the shift that centers their span (rounded toward zero).
/// A block without glyphs is not shifted.
pub open spec fn delta_for_span(raster_height: int, span: Option<(int, int)>) -> int {
    match span {
        None => 0,
        Some((min_top, max_bottom)) => {
            let min_delta = max_bottom - raster_height;
            let max_delta = min_top;
            if min_delta <= max_delta {
                clamp_int(0, min_delta, max_delta)
            } else {
                half_toward_zero(min_top + max_bottom - raster_height)
            }
        },
    }
}

/// The shared vertical shift of the picked glyphs.
pub open spec fn spec_y_offset_delta(raster_height: int, boxes: Seq<(bool, i16, u16)>, which: Option<bool>) -> int {
    delta_for_span(raster_height, vertical_span(raster_height, boxes, which, boxes.len()))
}

/// The span of picked glyphs stays within the rows that `i16` offsets and
/// `u16` heights can reach.
pub proof fn lemma_span_bounds(raster_height: int, boxes: Seq<(bool, i16, u16)>, which: Option<bool>, k: nat)
    requires
        0 <= raster_height <= u16::MAX,
        k <= boxes.len(),
    ensures
        vertical_span(raster_height, boxes, which, k) matches Some((t, b)) ==> {
            &&& raster_height - 32767 <= t <= raster_height + 32768
            &&& t <= b <= raster_height + 32768 + 65535
        },
    decreases k,
{
    if k > 0 {
        lemma_span_bounds(raster_height, boxes, which, (k - 1) as nat);
    }
}

/// The shared shift never leaves a range that `i32` sums with `i16`
/// offsets can hold.
pub proof fn lemma_delta_bounds(raster_height: int, boxes: Seq<(bool, i16, u16)>, which: Option<bool>)
    requires
        0 <= raster_height <= u16::MAX,
    ensures
        -200000 <= spec_y_offset_delta(raster_height, boxes, which) <= 200000,
{
    lemma_span_bounds(raster_height, boxes, which, boxes.len());
}

/// The shared vertical shift of the picked glyphs of a block.
pub fn y_offset_delta_from_iter(raster_height: u16, glyphs: &[BitmapGlyph], which: Option<bool>) -> (r: i32)
    ensures
        r == spec_y_offset_delta(raster_height as int, vboxes(glyphs@), which),
{
    let h = raster_height as i32;
    let mut found = false;
    let mut min_top: i32 = 0;
    let mut max_bottom: i32 = 0;
    let mut i: usize = 0;
    while i < glyphs.len()
        invariant
            i <= glyphs@.len(),
            h == raster_height,
            found == (vertical_span(h as int, vboxes(glyphs@), which, i as nat) is Some),
            found ==> vertical_span(h as int, vboxes(glyphs@), which, i as nat) == Some((min_top as int, max_bottom as int)),
        decreases glyphs@.len() - i,
    {
        proof {
            lemma_span_bounds(h as int, vboxes(glyphs@), which, (i + 1) as nat);
        }
        let glyph = &glyphs[i];
        let take = match which {
            Some(ascii) => char_is_ascii(glyph.codepoint) == ascii,
            None => true,
        };
        if take {
            let top = glyph_top(h, glyph);
            let bottom = glyph_bottom(h, glyph);
            if !found {
                min_top = top;
                max_bottom = bottom;
                found = true;
            } else {
                min_top = min_i32(min_top, top);
                max_bottom = max_i32(max_bottom, bottom);
            }
        }
        i = i + 1;
    }
    if !found {
        return 0;
    }
    proof {
        lemma_span_bounds(h as int, vboxes(glyphs@), which, glyphs@.len());
    }
    let min_delta = max_bottom - h;
    let max_delta = min_top;
    if min_delta <= max_delta {
        clamp_i32(0, min_delta, max_delta)
    } else {
        (min_top + max_bottom - h) / 2
    }
}

/// The shared vertical shift of all glyphs of a block.
pub fn y_offset_delta(raster_height: u16, glyphs: &[BitmapGlyph]) -> (r: i32)
    ensures
        r == spec_y_offset_delta(raster_height as int, vboxes(glyphs@), None),
{
    y_offset_delta_from_iter(raster_height, glyphs, None)
}

/// The shared vertical shift of the ASCII (or the other) glyphs of a block.
pub fn y_offset_delta_for(raster_height: u16, glyphs: &[BitmapGlyph], ascii: bool) -> (r: i32)
    ensures
        r == spec_y_offset_delta(raster_height as int, vboxes(glyphs@), Some(ascii)),
{
    y_offset_delta_from_iter(raster_height, glyphs, Some(ascii))
}


/// The glyph with its vertical offset moved by `delta` (clamped to `i16`).
pub open spec fn shifted(g: BitmapGlyph, delta: int) -> BitmapGlyph {
    BitmapGlyph { y_offset: sat_i16(g.y_offset + delta) as i16, ..g }
}

/// Picked glyphs that agree in character, offset and height give the same
/// span.
proof fn lemma_span_congruent(h: int, a: Seq<(bool, i16, u16)>, b: Seq<(bool, i16, u16)>, which: Option<bool>, k: nat)
    requires
        k <= a.len(),
        k <= b.len(),
        forall|i: int| 0 <= i < k ==> #[trigger] a[i].0 == b[i].0,
        forall|i: int|
            0 <= i < k && picked(a[i].0, which) ==> #[trigger] a[i].1 == b[i].1 && a[i].2 == b[i].2,
    ensures
        vertical_span(h, a, which, k) == vertical_span(h, b, which, k),
    decreases k,
{
    if k > 0 {
        lemma_span_congruent(h, a, b, which, (k - 1) as nat);
        assert(a[k - 1].0 == b[k - 1].0);
    }
}

/// Moves the vertical offset of every ASCII (or every other) glyph by
/// `delta`.
fn shift_picked(glyphs: &mut [BitmapGlyph], ascii: bool, delta: i32)
    requires
        -200000 <= delta <= 200000,
    ensures
        final(glyphs)@.len() == old(glyphs)@.len(),
        forall|i: int|
            0 <= i < old(glyphs)@.len() ==> #[trigger] final(glyphs)@[i] == if is_ascii_char(
                old(glyphs)@[i].codepoint,
            ) == ascii {
                shifted(old(glyphs)@[i], delta as int)
            } else {
                old(glyphs)@[i]
            },
{
    let ghost start = glyphs@;
    let mut i: usize = 0;
    while i < glyphs.len()
        invariant
            i <= glyphs@.len(),
            glyphs@.len() == start.len(),
            -200000 <= delta <= 200000,
            forall|j: int|
                0 <= j < i ==> #[trigger] glyphs@[j] == if is_ascii_char(start[j].codepoint) == ascii {
                    shifted(start[j], delta as int)
                } else {
                    start[j]
                },
            forall|j: int| i <= j < glyphs@.len() ==> #[trigger] glyphs@[j] == start[j],
        decreases glyphs@.len() - i,
    {
        if char_is_ascii(glyphs[i].codepoint) == ascii {
            let moved = offset_i16_i32(glyphs[i].y_offset, delta);
            glyphs[i].y_offset = moved;
        }
        i = i + 1;
    }
}

/// The glyph after the block's automatic vertical adjustment: ASCII glyphs
/// move by the shared shift of the ASCII glyphs, other glyphs by the shared
/// shift of the other glyphs.
pub open spec fn auto_adjusted(raster_height: int, glyphs: Seq<BitmapGlyph>, i: int) -> BitmapGlyph {
    shifted(
        glyphs[i],
        spec_y_offset_delta(raster_height, vboxes(glyphs), Some(is_ascii_char(glyphs[i].codepoint))),
    )
}

/// Applies one shared vertical shift to the ASCII glyphs of a block and
/// another to its other glyphs, each fitting its group into the cell height
/// as well as it can.
pub fn apply_auto_y_offsets(raster_height: u16, glyphs: &mut [BitmapGlyph])
    ensures
        final(glyphs)@.len() == old(glyphs)@.len(),
        forall|i: int|
            0 <= i < old(glyphs)@.len() ==> #[trigger] final(glyphs)@[i] == auto_adjusted(
                raster_height as int,
                old(glyphs)@,
                i,
            ),
{
    let ghost start = glyphs@;
    proof {
        lemma_delta_bounds(raster_height as int, vboxes(glyphs@), Some(true));
        lemma_delta_bounds(raster_height as int, vboxes(glyphs@), Some(false));
    }
    let ascii_delta = y_offset_delta_for(raster_height, glyphs, true);
    shift_picked(glyphs, true, ascii_delta);
    proof {
        lemma_span_congruent(raster_height as int, vboxes(glyphs@), vboxes(start), Some(false), start.len());
    }
    let other_delta = y_offset_delta_for(raster_height, glyphs, false);
    shift_picked(glyphs, false, other_delta);
}


/// Whether the glyphs of a block fit the cell height together: the span
/// from the topmost top to the lowest bottom is at most the height. Only
/// vertical extents count; an empty block fits.
pub open spec fn spec_glyphs_fit_vertically(raster_height: int, boxes: Seq<(bool, i16, u16)>) -> bool {
    match vertical_span(raster_height, boxes, None, boxes.len()) {
        None => true,
        Some((t, b)) => b - t <= raster_height,
    }
}

pub fn glyphs_fit_vertically(raster_height: u16, glyphs: &[BitmapGlyph]) -> (r: bool)
    ensures
        r == spec_glyphs_fit_vertically(raster_height as int, vboxes(glyphs@)),
{
    if glyphs.len() == 0 {
        return true;
    }
    let h = raster_height as i32;
    proof {
        lemma_span_bounds(h as int, vboxes(glyphs@), None, 1);
        assert(vertical_span(h as int, vboxes(glyphs@), None, 0) is None);
    }
    let mut min_top = glyph_top(h, &glyphs[0]);
    let mut max_bottom = glyph_bottom(h, &glyphs[0]);
    let mut i: usize = 1;
    while i < glyphs.len()
        invariant
            1 <= i <= glyphs@.len(),
            h == raster_height,
            vertical_span(h as int, vboxes(glyphs@), None, i as nat) == Some((min_top as int, max_bottom as int)),
        decreases glyphs@.len() - i,
    {
        proof {
            lemma_span_bounds(h as int, vboxes(glyphs@), None, (i + 1) as nat);
        }
        min_top = min_i32(min_top, glyph_top(h, &glyphs[i]));
        max_bottom = max_i32(max_bottom, glyph_bottom(h, &glyphs[i]));
        i = i + 1;
    }
    proof {
        lemma_span_bounds(h as int, vboxes(glyphs@), None, i as nat);
    }
    max_bottom - min_top <= h
}

/// The visible part of a glyph bitmap inside its cell, as
/// `(visible_left, visible_top, visible_right, visible_bottom)`: the bitmap
/// rectangle clamped to `0..=cell_width` by `0..=cell_height`, never
/// inverted.
pub open spec fn clip_rect(cell_width: int, cell_height: int, x_offset: int, y_offset: int, width: int, height: int) -> (int, int, int, int) {
    let left = x_offset;
    let top = cell_height - y_offset;
    let right = left + width;
    let bottom = top + height;
    let vl = clamp_int(left, 0, cell_width);
    let vt = clamp_int(top, 0, cell_height);
    let vr = clamp_int(right, vl, cell_width);
    let vb = clamp_int(bottom, vt, cell_height);
    (vl, vt, vr, vb)
}

/// How a glyph is clipped to its cell: `(source_x, source_y, new_width,
/// new_height, cropped_bottom)`, where the source offsets are the first
/// visible column and row of the old bitmap.
pub open spec fn clip_plan(cell_width: int, cell_height: int, x_offset: int, y_offset: int, width: int, height: int) -> (int, int, int, int, int) {
    let (vl, vt, vr, vb) = clip_rect(cell_width, cell_height, x_offset, y_offset, width, height);
    let top = cell_height - y_offset;
    (
        max_int(0, vl - x_offset),
        max_int(0, vt - top),
        vr - vl,
        vb - vt,
        max_int(0, top + height - vb),
    )
}

/// Whether clipping leaves the glyph as it is.
pub open spec fn clip_is_identity(plan: (int, int, int, int, int), width: int, height: int) -> bool {
    plan.0 == 0 && plan.1 == 0 && plan.2 == width && plan.3 == height
}

/// The visible rows of an old bitmap of width `old_width`, each cut to the
/// visible columns, row by row.
pub open spec fn clipped_pixels(bitmap: Seq<u8>, old_width: int, sx: int, sy: int, new_width: int, new_height: int) -> Seq<u8> {
    Seq::new(
        new_height as nat,
        |y: int| Seq::new(new_width as nat, |x: int| bitmap[(sy + y) * old_width + sx + x]),
    ).flatten()
}

/// Whether every pixel that clipping copies lies inside the old bitmap.
pub open spec fn clip_reads_in_bounds(plan: (int, int, int, int, int), width: int, height: int, len: int) -> bool {
    !clip_is_identity(plan, width, height) && plan.2 > 0 && plan.3 > 0 ==> (plan.1 + plan.3 - 1)
        * width + plan.0 + plan.2 - 1 < len
}

/// The clip geometry of a glyph, computed in `i32`.
pub struct ClipGeometry {
    pub visible_left: i32,
    pub visible_top: i32,
    pub source_x: usize,
    pub source_y: usize,
    pub new_width: u16,
    pub new_height: u16,
    pub cropped_bottom: i32,
}

pub(crate) fn clip_geometry(raster_height: u16, cell_width: u16, x_offset: i16, y_offset: i16, width: u16, height: u16) -> (r: ClipGeometry)
    ensures
        ({
            let rect = clip_rect(cell_width as int, raster_height as int, x_offset as int, y_offset as int, width as int, height as int);
            let plan = clip_plan(cell_width as int, raster_height as int, x_offset as int, y_offset as int, width as int, height as int);
            &&& r.visible_left == rect.0
            &&& r.visible_top == rect.1
            &&& r.source_x == plan.0
            &&& r.source_y == plan.1
            &&& r.new_width == plan.2
            &&& r.new_height == plan.3
            &&& r.cropped_bottom == plan.4
        }),
        r.source_y <= 0x20000,
{
    let cell_width = cell_width as i32;
    let cell_height = raster_height as i32;
    let left = x_offset as i32;
    let top = cell_height - y_offset as i32;
    let right = left + width as i32;
    let bottom = top + height as i32;
    let visible_left = clamp_i32(left, 0, cell_width);
    let visible_top = clamp_i32(top, 0, cell_height);
    let visible_right = clamp_i32(right, visible_left, cell_width);
    let visible_bottom = clamp_i32(bottom, visible_top, cell_height);
    let new_width = (visible_right - visible_left) as u16;
    let new_height = (visible_bottom - visible_top) as u16;
    let source_x = max_i32(visible_left - left, 0) as usize;
    let source_y = max_i32(visible_top - top, 0) as usize;
    let cropped_bottom = max_i32(bottom - visible_bottom, 0);
    ClipGeometry { visible_left, visible_top, source_x, source_y, new_width, new_height, cropped_bottom }
}

/// `a * c <= b * c` for `0 <= a <= b` and `0 <= c`.
proof fn lemma_mul_le(a: int, b: int, c: int)
    requires
        0 <= a <= b,
        0 <= c,
    ensures
        a * c <= b * c,
        0 <= a * c,
{
    assert(a * c <= b * c) by (nonlinear_arith)
        requires
            0 <= a <= b,
            0 <= c,
    ;
    assert(0 <= a * c) by (nonlinear_arith)
        requires
            0 <= a,
            0 <= c,
    ;
}

/// Copies the visible rows and columns of a bitmap.
#[verifier::loop_isolation(false)]
pub(crate) fn clip_bitmap(bitmap: &Vec<u8>, old_width: usize, source_x: usize, source_y: usize, new_width: usize, new_height: usize) -> (r: Vec<u8>)
    requires
        source_y <= 0x20000,
        new_height <= u16::MAX,
        new_width > 0 && new_height > 0 ==> (source_y + new_height - 1) * old_width + source_x + new_width - 1
            < bitmap@.len(),
    ensures
        r@ == clipped_pixels(bitmap@, old_width as int, source_x as int, source_y as int, new_width as int, new_height as int),
{
    let ghost rows = Seq::new(
        new_height as nat,
        |y: int| Seq::new(new_width as nat, |x: int| bitmap@[(source_y + y) * old_width + source_x + x]),
    );
    let mut out: Vec<u8> = Vec::new();
    let len = bitmap.len();
    let mut y: usize = 0;
    while y < new_height
        invariant
            y <= new_height,
            new_width > 0 && new_height > 0 ==> (source_y + new_height - 1) * old_width + source_x + new_width - 1
                < bitmap@.len(),
            rows == Seq::new(
                new_height as nat,
                |y: int| Seq::new(new_width as nat, |x: int| bitmap@[(source_y + y) * old_width + source_x + x]),
            ),
            out@ == rows.take(y as int).flatten(),
        decreases new_height - y,
    {
        let ghost before = out@;
        let mut x: usize = 0;
        while x < new_width
            invariant
                x <= new_width,
                y < new_height,
                source_y <= 0x20000,
                new_width > 0 && new_height > 0 ==> (source_y + new_height - 1) * old_width + source_x + new_width - 1
                    < bitmap@.len(),
                rows[y as int].len() == new_width,
                out@ == before + rows[y as int].take(x as int),
            decreases new_width - x,
        {
            proof {
                lemma_mul_le(source_y + y, source_y + new_height - 1, old_width as int);
                assert(new_width > 0 && new_height > 0);
                assert((source_y + y) * old_width + source_x + x < bitmap@.len());
            }
            out.push(bitmap[(source_y + y) * old_width + source_x + x]);
            proof {
                assert(rows[y as int].take(x + 1) =~= rows[y as int].take(x as int).push(
                    bitmap@[(source_y + y) * old_width + source_x + x],
                ));
            }
            x = x + 1;
        }
        proof {
            assert(rows[y as int].take(x as int) =~= rows[y as int]);
            assert(rows.take(y + 1) =~= rows.take(y as int).push(rows[y as int]));
            rows.take(y as int).lemma_flatten_push(rows[y as int]);
        }
        y = y + 1;
    }
    assert(rows.take(y as int) =~= rows);
    out
}

/// The clip plan of a glyph in a cell of height `raster_height`.
pub open spec fn glyph_clip_plan(raster_height: int, g: BitmapGlyph) -> (int, int, int, int, int) {
    clip_plan(g.cell_width as int, raster_height, g.x_offset as int, g.y_offset as int, g.width as int, g.height as int)
}

/// Whether clipping `g` reads only pixels of its bitmap.
pub open spec fn fit_defined(raster_height: int, g: BitmapGlyph) -> bool {
    clip_reads_in_bounds(glyph_clip_plan(raster_height, g), g.width as int, g.height as int, g.bitmap@.len() as int)
}

/// The glyph clipped to its cell: unchanged when it already lies inside;
/// otherwise cut to the visible rectangle, with its offsets moved to the
/// visible corner and its raw minimums moved by what was cut off on the
/// left and at the bottom.
pub open spec fn spec_fitted(raster_height: int, old: BitmapGlyph, new: BitmapGlyph) -> bool {
    let plan = glyph_clip_plan(raster_height, old);
    let rect = clip_rect(old.cell_width as int, raster_height, old.x_offset as int, old.y_offset as int, old.width as int, old.height as int);
    if clip_is_identity(plan, old.width as int, old.height as int) {
        new == old
    } else {
        &&& new.codepoint == old.codepoint
        &&& new.cell_width == old.cell_width
        &&& new.advance_width == old.advance_width
        &&& new.width == plan.2
        &&& new.height == plan.3
        &&& new.x_offset == sat_i16(rect.0)
        &&& new.y_offset == sat_i16(raster_height - rect.1)
        &&& new.x_min == sat_i16(old.x_min + plan.0)
        &&& new.y_min == sat_i16(old.y_min + plan.4)
        &&& new.bitmap@ == clipped_pixels(old.bitmap@, old.width as int, plan.0, plan.1, plan.2, plan.3)
    }
}

/// Clips a glyph and its bitmap to its cell.
pub fn fit_glyph_to_cell(raster_height: u16, glyph: &mut BitmapGlyph)
    requires
        fit_defined(raster_height as int, *old(glyph)),
    ensures
        spec_fitted(raster_height as int, *old(glyph), *final(glyph)),
{
    let geometry = clip_geometry(raster_height, glyph.cell_width, glyph.x_offset, glyph.y_offset, glyph.width, glyph.height);
    let old_width = glyph.width as usize;
    let old_height = glyph.height as usize;
    if geometry.source_x == 0 && geometry.source_y == 0 && geometry.new_width as usize == old_width
        && geometry.new_height as usize == old_height {
        return;
    }
    let clipped = clip_bitmap(
        &glyph.bitmap,
        old_width,
        geometry.source_x,
        geometry.source_y,
        geometry.new_width as usize,
        geometry.new_height as usize,
    );
    glyph.width = geometry.new_width;
    glyph.height = geometry.new_height;
    glyph.x_offset = clamp_i32_to_i16(geometry.visible_left);
    glyph.y_offset = clamp_i32_to_i16(raster_height as i32 - geometry.visible_top);
    glyph.x_min = offset_i16_i32(glyph.x_min, geometry.source_x as i32);
    glyph.y_min = offset_i16_i32(glyph.y_min, geometry.cropped_bottom);
    glyph.bitmap = clipped;
}


/// The glyph placed in its cell before clipping: ASCII glyphs get
/// `ascii_width` as cell width and other glyphs the raster height, and the
/// bitmap is centered horizontally in the cell.
pub open spec fn placed_in_cell(raster_height: int, ascii_width: int, g: BitmapGlyph) -> BitmapGlyph {
    let cell_width = if is_ascii_char(g.codepoint) {
        ascii_width
    } else {
        raster_height
    };
    BitmapGlyph {
        cell_width: cell_width as u16,
        x_offset: spec_centered_offset(cell_width, g.width as int) as i16,
        ..g
    }
}

/// Whether placing and clipping every glyph reads only pixels of its
/// bitmap.
pub open spec fn cell_offsets_defined(raster_height: int, ascii_width: int, glyphs: Seq<BitmapGlyph>) -> bool {
    forall|i: int|
        0 <= i < glyphs.len() ==> #[trigger] fit_defined(
            raster_height,
            placed_in_cell(raster_height, ascii_width, glyphs[i]),
        )
}

/// Whether placing every glyph in its cell and clipping it there reads only
/// pixels of its bitmap.
pub fn cell_offsets_fit(raster_height: u16, ascii_width: u16, glyphs: &[BitmapGlyph]) -> (r: bool)
    ensures
        r == cell_offsets_defined(raster_height as int, ascii_width as int, glyphs@),
{
    let mut i: usize = 0;
    while i < glyphs.len()
        invariant
            i <= glyphs@.len(),
            forall|j: int|
                0 <= j < i ==> #[trigger] fit_defined(
                    raster_height as int,
                    placed_in_cell(raster_height as int, ascii_width as int, glyphs@[j]),
                ),
        decreases glyphs@.len() - i,
    {
        let g = &glyphs[i];
        let cell_width = if char_is_ascii(g.codepoint) {
            ascii_width
        } else {
            raster_height
        };
        let x_offset = centered_offset(cell_width, g.width);
        let geometry = clip_geometry(raster_height, cell_width, x_offset, g.y_offset, g.width, g.height);
        let identity = geometry.source_x == 0 && geometry.source_y == 0 && geometry.new_width == g.width
            && geometry.new_height == g.height;
        if !identity && geometry.new_width > 0 && geometry.new_height > 0 {
            assert(geometry.source_y + geometry.new_height <= 0x20000 + 65535);
            assert(geometry.source_x <= 65535) by {
                assert(geometry.source_x == glyph_clip_plan(
                    raster_height as int,
                    placed_in_cell(raster_height as int, ascii_width as int, glyphs@[i as int]),
                ).0);
            }
            let last_row = (geometry.source_y + geometry.new_height as usize - 1) as u64;
            assert(last_row * g.width <= 0x30000 * 65535) by (nonlinear_arith)
                requires
                    last_row <= 0x30000,
                    g.width <= 65535,
            ;
            let last = last_row * g.width as u64 + geometry.source_x as u64 + geometry.new_width as u64 - 1;
            if last >= g.bitmap.len() as u64 {
                assert(!fit_defined(
                    raster_height as int,
                    placed_in_cell(raster_height as int, ascii_width as int, glyphs@[i as int]),
                ));
                return false;
            }
        }
        assert(fit_defined(
            raster_height as int,
            placed_in_cell(raster_height as int, ascii_width as int, glyphs@[i as int]),
        ));
        i = i + 1;
    }
    true
}

/// Gives every glyph its cell width and centered x offset, then clips it
/// to its cell.
pub fn apply_cell_offsets(raster_height: u16, ascii_width: u16, glyphs: &mut [BitmapGlyph])
    requires
        cell_offsets_defined(raster_height as int, ascii_width as int, old(glyphs)@),
    ensures
        final(glyphs)@.len() == old(glyphs)@.len(),
        forall|i: int|
            0 <= i < old(glyphs)@.len() ==> #[trigger] spec_fitted(
                raster_height as int,
                placed_in_cell(raster_height as int, ascii_width as int, old(glyphs)@[i]),
                final(glyphs)@[i],
            ),
{
    let ghost start = glyphs@;
    let mut i: usize = 0;
    while i < glyphs.len()
        invariant
            i <= glyphs@.len(),
            glyphs@.len() == start.len(),
            cell_offsets_defined(raster_height as int, ascii_width as int, start),
            forall|j: int|
                0 <= j < i ==> #[trigger] spec_fitted(
                    raster_height as int,
                    placed_in_cell(raster_height as int, ascii_width as int, start[j]),
                    glyphs@[j],
                ),
            forall|j: int| i <= j < glyphs@.len() ==> #[trigger] glyphs@[j] == start[j],
        decreases glyphs@.len() - i,
    {
        let cell_width = if char_is_ascii(glyphs[i].codepoint) {
            ascii_width
        } else {
            raster_height
        };
        let x_offset = centered_offset(cell_width, glyphs[i].width);
        glyphs[i].cell_width = cell_width;
        glyphs[i].x_offset = x_offset;
        assert(glyphs@[i as int] == placed_in_cell(raster_height as int, ascii_width as int, start[i as int]));
        assert(fit_defined(raster_height as int, placed_in_cell(raster_height as int, ascii_width as int, start[i as int])));
        fit_glyph_to_cell(raster_height, &mut glyphs[i]);
        i = i + 1;
    }
}

/// A 16.16 fixed-point advance rounded up to whole pixels, clamped to
/// `0..=u16::MAX`.
pub open spec fn spec_advance_width_pixels(advance_width: int) -> int {
    if advance_width <= 0 {
        0
    } else {
        clamp_int((advance_width + 65535) / 65536, 0, u16::MAX as int)
    }
}

pub fn advance_width_pixels_16dot16(advance_width: i64) -> (r: u16)
    requires
        advance_width <= i64::MAX - 65535,
    ensures
        r == spec_advance_width_pixels(advance_width as int),
{
    if advance_width <= 0 {
        0
    } else {
        let pixels = (advance_width + 65535) / 65536;
        if pixels > u16::MAX as i64 {
            u16::MAX
        } else {
            pixels as u16
        }
    }
}

/// The FreeType load target for monochrome hinting.
pub fn ft_load_target_mono() -> (r: i32)
    ensures
        r == 0x20000,
{
    assert(2i32 << 16i32 == 0x20000) by (bit_vector);
    2 << 16
}

/// What to do after rasterizing a block's ASCII glyphs at one pixel size
/// while searching for the largest size whose glyphs fit the raster height.
#[derive(Debug, Clone, Copy, PartialEq, Eq, Structural)]
pub enum AsciiSizeStep {
    /// The glyphs fit: use this size.
    Fits(u16),
    /// They do not fit: rasterize at this smaller size next.
    TryNext(u16),
    /// Even size 1 does not fit: use size 1.
    GiveUp,
}

/// The next step of the search: sizes are tried from the raster height
/// downward, and the first size whose ASCII glyphs fit vertically wins.
pub fn fitting_ascii_size_step(raster_height: u16, glyph_size: u16, glyphs: &[BitmapGlyph]) -> (r: AsciiSizeStep)
    requires
        1 <= glyph_size,
    ensures
        spec_glyphs_fit_vertically(raster_height as int, vboxes(glyphs@)) ==> r == AsciiSizeStep::Fits(glyph_size),
        !spec_glyphs_fit_vertically(raster_height as int, vboxes(glyphs@)) && glyph_size > 1 ==> r
            == AsciiSizeStep::TryNext((glyph_size - 1) as u16),
        !spec_glyphs_fit_vertically(raster_height as int, vboxes(glyphs@)) && glyph_size == 1 ==> r
            == AsciiSizeStep::GiveUp,
{
    if glyphs_fit_vertically(raster_height, glyphs) {
        AsciiSizeStep::Fits(glyph_size)
    } else if glyph_size > 1 {
        AsciiSizeStep::TryNext(glyph_size - 1)
    } else {
        AsciiSizeStep::GiveUp
    }
}


/// How a rendered bitmap stores its pixels.
#[derive(Debug, Clone, Copy, PartialEq, Eq, Structural)]
pub enum PixelMode {
    /// One bit per pixel, most significant bit first.
    Mono,
    /// One byte of coverage per pixel.
    Gray,
    /// Any other format, read as empty.
    Other,
}

/// A rendered bitmap as the rasterizer hands it over: `rows` rows of
/// `width` pixels, `pitch` bytes apart (a negative pitch stores the rows
/// bottom-up); `buffer` is `None` when there is no pixel buffer.
pub struct RenderedBitmap<'a> {
    pub buffer: Option<&'a [u8]>,
    pub pitch: i32,
    pub rows: u32,
    pub width: u32,
    pub mode: PixelMode,
}

/// The number of bytes between rows.
pub open spec fn row_bytes(pitch: i32) -> int {
    if pitch >= 0 {
        pitch as int
    } else {
        -(pitch as int)
    }
}

/// Whether the rendered bitmap has any pixels to copy.
pub open spec fn has_pixels(b: RenderedBitmap) -> bool {
    b.buffer is Some && b.width != 0 && b.rows != 0
}

/// The byte that holds pixel `(x, y)` of the rendered bitmap, counting rows
/// from the top.
pub open spec fn source_index(b: RenderedBitmap, x: int, y: int) -> int {
    let source_y = if b.pitch >= 0 {
        y
    } else {
        b.rows - 1 - y
    };
    source_y * row_bytes(b.pitch) + if b.mode is Mono {
        x / 8
    } else {
        x
    }
}

/// Whether pixel `(x, y)` of a `width` by `height` copy comes from the
/// rendered bitmap.
pub open spec fn copied_pixel(b: RenderedBitmap, width: int, height: int, x: int, y: int) -> bool {
    has_pixels(b) && y < min_int(height, b.rows as int) && x < min_int(width, b.width as int) && !(b.mode is Other)
}

/// Whether every byte that the copy reads lies in the buffer.
pub open spec fn bitmap_reads_in_bounds(b: RenderedBitmap, width: int, height: int) -> bool {
    forall|x: int, y: int|
        0 <= x && 0 <= y && #[trigger] copied_pixel(b, width, height, x, y) ==> source_index(b, x, y)
            < b.buffer.unwrap()@.len()
}

/// The coverage of pixel `(x, y)` of the copy: 255 or 0 for a set or clear
/// bit of a 1-bit bitmap, the byte itself of a gray bitmap, 0 elsewhere.
pub open spec fn copied_value(b: RenderedBitmap, width: int, height: int, x: int, y: int) -> u8 {
    if copied_pixel(b, width, height, x, y) {
        let byte = b.buffer.unwrap()@[source_index(b, x, y)];
        if b.mode is Mono {
            if byte & (0x80u8 >> ((x % 8) as u8)) != 0 {
                255
            } else {
                0
            }
        } else {
            byte
        }
    } else {
        0
    }
}

/// The `width` by `height` copy of a rendered bitmap, row by row.
pub open spec fn copied_pixels(b: RenderedBitmap, width: int, height: int) -> Seq<u8> {
    Seq::new(height as nat, |y: int| Seq::new(width as nat, |x: int| copied_value(b, width, height, x, y))).flatten()
}

/// Copies a rendered bitmap into `width` by `height` bytes of coverage, row
/// by row, top row first; pixels outside the rendered bitmap are 0.
#[verifier::loop_isolation(false)]
pub fn bitmap_pixels(bitmap: &RenderedBitmap, width: u16, height: u16) -> (r: Vec<u8>)
    requires
        bitmap_reads_in_bounds(*bitmap, width as int, height as int),
    ensures
        r@ == copied_pixels(*bitmap, width as int, height as int),
{
    let row_bytes: usize = if bitmap.pitch >= 0 {
        bitmap.pitch as usize
    } else {
        (-(bitmap.pitch as i64)) as usize
    };
    let present = bitmap.buffer.is_some() && bitmap.width != 0 && bitmap.rows != 0;
    let ghost rows = Seq::new(
        height as nat,
        |y: int| Seq::new(width as nat, |x: int| copied_value(*bitmap, width as int, height as int, x, y)),
    );
    let mut out: Vec<u8> = Vec::new();
    let mut y: u16 = 0;
    while y < height
        invariant
            y <= height,
            out@ == rows.take(y as int).flatten(),
        decreases height - y,
    {
        let ghost before = out@;
        let mut x: u16 = 0;
        while x < width
            invariant
                x <= width,
                y < height,
                rows[y as int].len() == width,
                out@ == before + rows[y as int].take(x as int),
            decreases width - x,
        {
            let inside = present && (y as u32) < bitmap.rows && (x as u32) < bitmap.width;
            let value: u8 = match bitmap.buffer {
                Some(buffer) => if inside {
                    let source_y = if bitmap.pitch >= 0 {
                        y as usize
                    } else {
                        bitmap.rows as usize - 1 - y as usize
                    };
                    match bitmap.mode {
                        PixelMode::Mono => {
                            assert(copied_pixel(*bitmap, width as int, height as int, x as int, y as int));
                            let len = buffer.len();
                            assert(source_y * row_bytes + x / 8 < len);
                            let byte = buffer[source_y * row_bytes + x as usize / 8];
                            if byte & (0x80u8 >> ((x % 8) as u8)) != 0 {
                                255
                            } else {
                                0
                            }
                        },
                        PixelMode::Gray => {
                            assert(copied_pixel(*bitmap, width as int, height as int, x as int, y as int));
                            let len = buffer.len();
                            assert(source_y * row_bytes + x < len);
                            buffer[source_y * row_bytes + x as usize]
                        },
                        PixelMode::Other => 0,
                    }
                } else {
                    0
                },
                None => 0,
            };
            assert(value == copied_value(*bitmap, width as int, height as int, x as int, y as int));
            out.push(value);
            proof {
                assert(rows[y as int].take(x + 1) =~= rows[y as int].take(x as int).push(value));
            }
            x = x + 1;
        }
        proof {
            assert(rows[y as int].take(x as int) =~= rows[y as int]);
            assert(rows.take(y + 1) =~= rows.take(y as int).push(rows[y as int]));
            rows.take(y as int).lemma_flatten_push(rows[y as int]);
        }
        y = y + 1;
    }
    assert(rows.take(y as int) =~= rows);
    out
}


/// What the rasterizer reports for a rendered glyph: its bitmap, the
/// bitmap's left and top bearings, and its linear horizontal advance in
/// 16.16 fixed point.
pub struct GlyphSlot<'a> {
    pub bitmap: RenderedBitmap<'a>,
    pub bitmap_left: i32,
    pub bitmap_top: i32,
    pub linear_hori_advance: i64,
}

/// A bitmap side as the glyph stores it: at least 1, at most `u16::MAX`.
pub open spec fn stored_side(v: u32) -> int {
    clamp_int(v as int, 1, u16::MAX as int)
}

/// Whether a slot's numbers can be turned into a glyph: the bitmap's
/// reads stay in its buffer, its bottom edge fits in `i32` and its advance
/// can be rounded up.
pub open spec fn slot_convertible(slot: GlyphSlot) -> bool {
    &&& bitmap_reads_in_bounds(slot.bitmap, stored_side(slot.bitmap.width), stored_side(slot.bitmap.rows))
    &&& slot.bitmap.rows <= i32::MAX
    &&& in_i32(slot.bitmap_top - slot.bitmap.rows)
    &&& slot.linear_hori_advance <= i64::MAX - 65535
}

fn stored_side_of(v: u32) -> (r: u16)
    ensures
        r == stored_side(v),
{
    if v < 1 {
        1
    } else if v > u16::MAX as u32 {
        u16::MAX
    } else {
        v as u16
    }
}

/// The glyph of `codepoint` rendered into `slot`, in a cell `size` wide:
/// its bitmap copied at its stored size, its left bearing as `x_min`, its
/// top bearing as `y_offset`, its bottom edge as `y_min` (each saturated
/// to `i16`) and its advance rounded up to pixels.
pub fn rasterized_glyph(codepoint: char, size: u16, slot: &GlyphSlot) -> (g: BitmapGlyph)
    requires
        slot_convertible(*slot),
    ensures
        g.codepoint == codepoint,
        g.width == stored_side(slot.bitmap.width),
        g.height == stored_side(slot.bitmap.rows),
        g.cell_width == size,
        g.x_offset == 0,
        g.y_offset == sat_i16(slot.bitmap_top as int),
        g.x_min == sat_i16(slot.bitmap_left as int),
        g.y_min == sat_i16(slot.bitmap_top - slot.bitmap.rows),
        g.advance_width == spec_advance_width_pixels(slot.linear_hori_advance as int),
        g.bitmap@ == copied_pixels(slot.bitmap, g.width as int, g.height as int),
{
    let width = stored_side_of(slot.bitmap.width);
    let height = stored_side_of(slot.bitmap.rows);
    let pixels = bitmap_pixels(&slot.bitmap, width, height);
    BitmapGlyph {
        codepoint,
        width,
        height,
        cell_width: size,
        x_offset: 0,
        y_offset: clamp_i32_to_i16(slot.bitmap_top),
        x_min: clamp_i32_to_i16(slot.bitmap_left),
        y_min: clamp_i32_to_i16(slot.bitmap_top - slot.bitmap.rows as i32),
        advance_width: advance_width_pixels_16dot16(slot.linear_hori_advance),
        bitmap: pixels,
    }
}

/// Clipping a bitmap of `width` by `height` pixels, stored row by row in
/// exactly that many pixels, reads only pixels that exist.
pub proof fn lemma_clip_reads_full_bitmap(cell_width: int, cell_height: int, x_offset: int, y_offset: int, width: int, height: int)
    requires
        0 <= cell_width,
        0 <= cell_height,
        0 <= width,
        0 <= height,
    ensures
        clip_reads_in_bounds(
            clip_plan(cell_width, cell_height, x_offset, y_offset, width, height),
            width,
            height,
            width * height,
        ),
{
    let plan = clip_plan(cell_width, cell_height, x_offset, y_offset, width, height);
    if plan.2 > 0 && plan.3 > 0 {
        assert(plan.0 + plan.2 <= width);
        assert(plan.1 + plan.3 <= height);
        let row = plan.1 + plan.3 - 1;
        assert(row * width <= (height - 1) * width) by (nonlinear_arith)
            requires
                0 <= row <= height - 1,
                0 <= width,
        ;
        assert((height - 1) * width == height * width - width) by (nonlinear_arith);
        assert(height * width == width * height) by (nonlinear_arith);
    }
}

} // verus!
