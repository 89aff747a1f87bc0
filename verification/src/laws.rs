//! Properties that hold across the library's operations.

use vstd::prelude::*;

use crate::embedded_text::{Baseline, GlyphCellTextStyle};
use crate::emit::{sample_of, stream_bit};
use crate::font::{bit_of, bits_value, pixel_start_bit, sample_max, FontData, Glyph};
use crate::geometry::{sat_i32, Point};
use crate::layout::{extent, lemma_split_lines_nonempty, max_fold, pen_before, run_bounds, TextRun};
use crate::raster::{
    copied_pixels, delta_for_span, spec_fitted, spec_glyph_bottom, spec_glyph_top, BitmapGlyph, PixelMode,
    RenderedBitmap,
};
use crate::style::{half_toward_zero, Alignment};

verus! {

/// The size of a run depends on its text, font and layout only: moving its
/// start point or changing its alignment does not change it.
pub proof fn law_measure_ignores_anchor(run: TextRun, start: Point, alignment: Alignment)
    ensures
        (TextRun { start, alignment, ..run }).spec_measure() == run.spec_measure(),
{
    let moved = TextRun { start, alignment, ..run };
    assert(moved.line_extents() =~= run.line_extents());
    assert(moved.line_thicknesses() =~= run.line_thicknesses());
}

/// The alignment anchors the measured box at the start point: a left (top)
/// alignment puts the box's left (top) edge there, a right (bottom)
/// alignment its right (bottom) edge, and a centered one its middle
/// (rounded toward zero).
pub proof fn law_alignment_anchors_box(run: TextRun)
    ensures
        run.alignment.horizontal is Left ==> run.spec_top_left().0 == run.start.x,
        run.alignment.horizontal is Right ==> run.spec_top_left().0 + run.spec_measure().0 == run.start.x,
        run.alignment.horizontal is Center ==> run.spec_top_left().0 + half_toward_zero(run.spec_measure().0)
            == run.start.x,
        run.alignment.vertical is Top ==> run.spec_top_left().1 == run.start.y,
        run.alignment.vertical is Bottom ==> run.spec_top_left().1 + run.spec_measure().1 == run.start.y,
        run.alignment.vertical is Middle ==> run.spec_top_left().1 + half_toward_zero(run.spec_measure().1)
            == run.start.y,
{
}

/// Moving the start point moves the measured box by the same amount.
pub proof fn law_top_left_follows_start(run: TextRun, dx: int, dy: int)
    requires
        i32::MIN <= run.start.x + dx <= i32::MAX,
        i32::MIN <= run.start.y + dy <= i32::MAX,
    ensures
        ({
            let moved = TextRun {
                start: Point { x: (run.start.x + dx) as i32, y: (run.start.y + dy) as i32 },
                ..run
            };
            &&& moved.spec_top_left().0 == run.spec_top_left().0 + dx
            &&& moved.spec_top_left().1 == run.spec_top_left().1 + dy
        }),
{
    let moved = TextRun {
        start: Point { x: (run.start.x + dx) as i32, y: (run.start.y + dy) as i32 },
        ..run
    };
    law_measure_ignores_anchor(run, moved.start, run.alignment);
    assert(moved == (TextRun { start: moved.start, alignment: run.alignment, ..run }));
}

/// The sum of `n` items each followed by the spacing except the last.
pub open spec fn spaced_sum(ws: Seq<int>, spacing: int, k: nat) -> int
    decreases k,
{
    if k == 0 {
        0
    } else {
        spaced_sum(ws, spacing, (k - 1) as nat) + ws[k - 1] + spacing
    }
}

proof fn lemma_spaced_sum_mono(ws: Seq<int>, spacing: int, j: nat, k: nat)
    requires
        j <= k <= ws.len(),
        spacing >= 0,
        forall|i: int| 0 <= i < ws.len() ==> #[trigger] ws[i] >= 0,
    ensures
        spaced_sum(ws, spacing, j) <= spaced_sum(ws, spacing, k),
    decreases k,
{
    if j < k {
        lemma_spaced_sum_mono(ws, spacing, j, (k - 1) as nat);
    }
}

proof fn lemma_pen_is_sum(ws: Seq<int>, spacing: int, k: nat)
    requires
        k <= ws.len(),
        spacing >= 0,
        forall|i: int| 0 <= i < ws.len() ==> #[trigger] ws[i] >= 0,
        spaced_sum(ws, spacing, ws.len()) <= i32::MAX,
    ensures
        pen_before(0, ws, spacing, k) == spaced_sum(ws, spacing, k),
    decreases k,
{
    lemma_spaced_sum_mono(ws, spacing, k, ws.len());
    if k > 0 {
        lemma_pen_is_sum(ws, spacing, (k - 1) as nat);
        lemma_spaced_sum_mono(ws, spacing, (k - 1) as nat, ws.len());
        lemma_spaced_sum_mono(ws, spacing, 0, (k - 1) as nat);
    }
}

proof fn lemma_bounds_of_growing_run(ws: Seq<int>, spacing: int, k: nat)
    requires
        1 <= k <= ws.len(),
        spacing >= 0,
        forall|i: int| 0 <= i < ws.len() ==> #[trigger] ws[i] >= 0,
        spaced_sum(ws, spacing, ws.len()) <= i32::MAX,
    ensures
        crate::layout::bounds_fold(ws, spacing, k) == (0int, spaced_sum(ws, spacing, k) - spacing, true),
    decreases k,
{
    lemma_pen_is_sum(ws, spacing, (k - 1) as nat);
    lemma_spaced_sum_mono(ws, spacing, k, ws.len());
    lemma_spaced_sum_mono(ws, spacing, 0, (k - 1) as nat);
    let prev = crate::layout::bounds_fold(ws, spacing, (k - 1) as nat);
    let pen = pen_before(0, ws, spacing, (k - 1) as nat);
    assert(pen == spaced_sum(ws, spacing, (k - 1) as nat));
    assert(spaced_sum(ws, spacing, k) == pen + ws[k - 1] + spacing);
    if k > 1 {
        lemma_bounds_of_growing_run(ws, spacing, (k - 1) as nat);
        lemma_spaced_sum_mono(ws, spacing, (k - 1) as nat, k);
        assert(prev == (0int, pen - spacing, true));
    } else {
        assert(prev == (0int, 0int, false));
    }
}

/// With a non-negative spacing and no saturation, a line is as wide as the
/// sum of its cell widths plus one spacing between each two neighbours.
pub proof fn law_line_width_is_spaced_sum(ws: Seq<int>, spacing: int)
    requires
        ws.len() >= 1,
        spacing >= 0,
        forall|i: int| 0 <= i < ws.len() ==> #[trigger] ws[i] >= 0,
        spaced_sum(ws, spacing, ws.len()) <= i32::MAX,
    ensures
        extent(run_bounds(ws, spacing)) == spaced_sum(ws, spacing, ws.len()) - spacing,
{
    lemma_bounds_of_growing_run(ws, spacing, ws.len());
    lemma_spaced_sum_mono(ws, spacing, 0, ws.len());
    assert(spaced_sum(ws, spacing, ws.len()) - spacing >= 0) by {
        assert(spaced_sum(ws, spacing, ws.len()) == spaced_sum(ws, spacing, (ws.len() - 1) as nat)
            + ws[ws.len() - 1] + spacing);
        lemma_spaced_sum_mono(ws, spacing, 0, (ws.len() - 1) as nat);
    }
}

/// A drawn pixel is always a covered pixel: dithering only drops pixels.
pub proof fn law_drawn_pixels_are_covered(font: FontData, glyph: Glyph, x: int, y: int)
    ensures
        font.spec_glyph_pixel(glyph, x, y) ==> font.spec_glyph_coverage(glyph, x, y) != 0,
{
    let s = font.spec_sample(glyph, x, y);
    let max = sample_max(font.spec_bpp());
    if s != 0 {
        crate::font::lemma_sample_at_most_max(font, glyph, x, y);
        assert(s >= 1);
        assert(s * 255 + max / 2 >= max) by (nonlinear_arith)
            requires
                s >= 1,
                1 <= max <= 255,
        ;
        assert((s * 255 + max / 2) / max >= 1) by (nonlinear_arith)
            requires
                s * 255 + max / 2 >= max,
                1 <= max,
        ;
    }
}

/// At one bit per pixel a pixel is drawn exactly when it is covered, and it
/// is then fully covered.
pub proof fn law_one_bit_pixels_are_all_or_nothing(font: FontData, glyph: Glyph, x: int, y: int)
    requires
        font.spec_bpp() == 1,
    ensures
        font.spec_glyph_pixel(glyph, x, y) == (font.spec_glyph_coverage(glyph, x, y) != 0),
        font.spec_glyph_coverage(glyph, x, y) == 0 || font.spec_glyph_coverage(glyph, x, y) == 255,
{
    crate::font::lemma_sample_at_most_max(font, glyph, x, y);
}

/// If the picked glyphs of a block can fit the cell height at all, the
/// shared shift moves all of them inside the cell: no glyph top above row 0
/// and no glyph bottom below the last row. Glyphs already inside are not
/// moved.
pub proof fn law_delta_fits_block(raster_height: int, min_top: int, max_bottom: int)
    requires
        0 <= raster_height,
        min_top <= max_bottom,
        max_bottom - min_top <= raster_height,
    ensures
        min_top - delta_for_span(raster_height, Some((min_top, max_bottom))) >= 0,
        max_bottom - delta_for_span(raster_height, Some((min_top, max_bottom))) <= raster_height,
        0 <= min_top && max_bottom <= raster_height ==> delta_for_span(raster_height, Some((min_top, max_bottom)))
            == 0,
{
}

/// Moving a glyph's `y_offset` up by `delta` moves its top and bottom rows
/// up by `delta`.
pub proof fn law_shift_moves_rows(raster_height: int, y_offset: int, height: int, delta: int)
    ensures
        spec_glyph_top(raster_height, y_offset + delta) == spec_glyph_top(raster_height, y_offset) - delta,
        spec_glyph_bottom(raster_height, y_offset + delta, height) == spec_glyph_bottom(
            raster_height,
            y_offset,
            height,
        ) - delta,
{
}


proof fn lemma_shift_split(v: u8, k: u8)
    by (bit_vector)
    requires
        k < 8,
    ensures
        (v >> k) == 2 * (v >> ((k + 1) as u8)) + ((v >> k) & 1u8),
{
}

proof fn lemma_sample_top_clear(pixel: u8, b: u8)
    by (bit_vector)
    requires
        1 <= b <= 8,
    ensures
        (pixel >> ((8 - b) as u8)) >> b == 0,
{
}

/// Reading the first `n` of the `b` bits of a sample back, most significant
/// first, gives the sample's top `n` bits.
proof fn lemma_read_sample_bits(bitmap: Seq<u8>, start: int, pixel: u8, b: int, n: nat)
    requires
        1 <= b <= 8,
        n <= b,
        forall|j: int|
            0 <= j < b ==> #[trigger] bit_of(bitmap, start + j) == (sample_of(pixel, b) >> ((b - 1 - j) as u8)) & 1u8,
    ensures
        bits_value(bitmap, start, n) == sample_of(pixel, b) >> ((b - n) as u8),
    decreases n,
{
    let v = sample_of(pixel, b);
    if n == 0 {
        lemma_sample_top_clear(pixel, b as u8);
    } else {
        lemma_read_sample_bits(bitmap, start, pixel, b, (n - 1) as nat);
        assert(bit_of(bitmap, start + n - 1) == (v >> ((b - n) as u8)) & 1u8);
        lemma_shift_split(v, (b - n) as u8);
        assert(((b - n) as u8 + 1) as u8 == (b - (n - 1)) as u8);
    }
}

/// What packing writes, sampling reads back: when a glyph's bits in the
/// font bitmap are the packed samples of its pixels (as `pack_pixels`
/// writes them from the glyph's bitmap offset on), the sample of each pixel
/// is the top `bpp` bits of that pixel's coverage.
pub proof fn law_packed_samples_read_back(font: FontData, glyph: Glyph, pixels: Seq<u8>, x: int, y: int)
    requires
        font.bpp == 1 || font.bpp == 2 || font.bpp == 3 || font.bpp == 4 || font.bpp == 8,
        pixels.len() == glyph.width * glyph.height,
        forall|s: int|
            0 <= s < pixels.len() * font.bpp ==> #[trigger] bit_of(font.bitmap@, glyph.bitmap_offset * 8 + s)
                == stream_bit(pixels, font.bpp as int, s),
        0 <= x < glyph.width,
        0 <= y < glyph.height,
    ensures
        font.spec_sample(glyph, x, y) == sample_of(pixels[y * glyph.width + x], font.bpp as int),
{
    let b = font.bpp as int;
    let w = glyph.width as int;
    let h = glyph.height as int;
    let p = y * w + x;
    assert(p < w * h && 0 <= p) by (nonlinear_arith)
        requires
            0 <= x < w,
            0 <= y < h,
            p == y * w + x,
    {
        assert(y * w <= (h - 1) * w);
    }
    let start = pixel_start_bit(glyph, x, y, b);
    assert(start == glyph.bitmap_offset * 8 + p * b);
    assert forall|j: int| 0 <= j < b implies #[trigger] bit_of(font.bitmap@, start + j) == (sample_of(
        pixels[p],
        b,
    ) >> ((b - 1 - j) as u8)) & 1u8 by {
        assert(p * b + j < pixels.len() * b) by (nonlinear_arith)
            requires
                0 <= p < pixels.len(),
                0 <= j < b,
        {
            assert(p * b + j < (p + 1) * b);
            assert((p + 1) * b <= pixels.len() * b);
        }
        assert(0 <= p * b + j) by (nonlinear_arith)
            requires
                0 <= p,
                0 <= j,
                1 <= b,
        ;
        assert(bit_of(font.bitmap@, glyph.bitmap_offset * 8 + (p * b + j)) == stream_bit(pixels, b, p * b + j));
        vstd::arithmetic::div_mod::lemma_fundamental_div_mod_converse(p * b + j, b, p, j);
    }
    lemma_read_sample_bits(font.bitmap@, start, pixels[p], b, b as nat);
    let v = sample_of(pixels[p], b);
    assert(v >> 0u8 == v) by (bit_vector);
}

/// The preview draws what it packed: when a glyph's bits in a 1-bit font
/// bitmap are its pixels packed one bit each (as `pack_mono_pixels` writes
/// them from the glyph's bitmap offset on), a pixel is drawn exactly when
/// its coverage is not zero.
pub proof fn law_mono_pixels_draw_back(font: FontData, glyph: Glyph, pixels: Seq<u8>, x: int, y: int)
    requires
        font.bpp == 1,
        pixels.len() == glyph.width * glyph.height,
        forall|s: int|
            0 <= s < pixels.len() ==> #[trigger] bit_of(font.bitmap@, glyph.bitmap_offset * 8 + s) == if pixels[s]
                != 0 {
                1u8
            } else {
                0u8
            },
        0 <= x < glyph.width,
        0 <= y < glyph.height,
    ensures
        font.spec_glyph_pixel(glyph, x, y) == (pixels[y * glyph.width + x] != 0),
{
    let w = glyph.width as int;
    let h = glyph.height as int;
    let p = y * w + x;
    assert(p < w * h && 0 <= p) by (nonlinear_arith)
        requires
            0 <= x < w,
            0 <= y < h,
            p == y * w + x,
    {
        assert(y * w <= (h - 1) * w);
    }
    let start = pixel_start_bit(glyph, x, y, 1);
    assert(start == glyph.bitmap_offset * 8 + p);
    assert(bit_of(font.bitmap@, glyph.bitmap_offset * 8 + p) == if pixels[p] != 0 { 1u8 } else { 0u8 });
    assert(font.spec_sample(glyph, x, y) == bits_value(font.bitmap@, start, 1));
    assert(bits_value(font.bitmap@, start, 1) == 2 * bits_value(font.bitmap@, start, 0) + bit_of(font.bitmap@, start));
}

/// Clipping puts a glyph inside its cell: a glyph that keeps some pixels
/// starts at or right of the cell's left edge and ends at or left of its
/// right edge, and its rows lie between the cell's top and the raster
/// height.
pub proof fn law_fitted_glyph_lies_in_cell(raster_height: int, old: BitmapGlyph, new: BitmapGlyph)
    requires
        0 <= raster_height <= i16::MAX,
        old.cell_width <= i16::MAX,
        spec_fitted(raster_height, old, new),
        new.width > 0,
        new.height > 0,
    ensures
        new.cell_width == old.cell_width,
        0 <= new.x_offset,
        new.x_offset + new.width <= new.cell_width,
        0 <= raster_height - new.y_offset,
        raster_height - new.y_offset + new.height <= raster_height,
{
}

/// Rows of `n` items each, laid end to end, hold `rows.len() * n` items.
proof fn lemma_flatten_rows_len<A>(rows: Seq<Seq<A>>, n: int)
    requires
        0 <= n,
        forall|i: int| 0 <= i < rows.len() ==> #[trigger] rows[i].len() == n,
    ensures
        rows.flatten().len() == rows.len() * n,
    decreases rows.len(),
{
    if rows.len() > 0 {
        let front = rows.drop_last();
        assert(rows =~= front.push(rows.last()));
        front.lemma_flatten_push(rows.last());
        lemma_flatten_rows_len(front, n);
        assert(rows.len() * n == front.len() * n + n) by (nonlinear_arith)
            requires
                rows.len() == front.len() + 1,
        ;
    } else {
        assert(rows.flatten() =~= Seq::<A>::empty());
    }
}

/// Rows of `n` items each, laid end to end: item `x` of row `y` is item
/// `y * n + x` of the whole.
proof fn lemma_flatten_rows<A>(rows: Seq<Seq<A>>, n: int, y: int, x: int)
    requires
        0 <= n,
        forall|i: int| 0 <= i < rows.len() ==> #[trigger] rows[i].len() == n,
        0 <= y < rows.len(),
        0 <= x < n,
    ensures
        rows.flatten().len() == rows.len() * n,
        0 <= y * n + x < rows.len() * n,
        rows.flatten()[y * n + x] == rows[y][x],
    decreases rows.len(),
{
    lemma_flatten_rows_len(rows, n);
    let front = rows.drop_last();
    assert(rows =~= front.push(rows.last()));
    front.lemma_flatten_push(rows.last());
    lemma_flatten_rows_len(front, n);
    assert(rows.len() * n == front.len() * n + n) by (nonlinear_arith)
        requires
            rows.len() == front.len() + 1,
    ;
    assert(0 <= y * n) by (nonlinear_arith)
        requires
            0 <= y,
            0 <= n,
    ;
    if y < front.len() {
        lemma_flatten_rows(front, n, y, x);
        assert(y * n + x < front.len() * n) by (nonlinear_arith)
            requires
                y + 1 <= front.len(),
                x < n,
                0 <= n,
        ;
    } else {
        assert(y * n == front.len() * n) by (nonlinear_arith)
            requires
                y == front.len(),
        ;
    }
}

/// Whether the most significant bit first bit `k` (`0..8`) of `byte` is set.
pub open spec fn msb_first_bit(byte: u8, k: int) -> bool {
    (byte >> ((7 - k) as u8)) & 1u8 == 1u8
}

/// Copying a rendered bitmap reads each pixel from where the rasterizer
/// put it: for a pixel of both the copy and the rendered bitmap, in row `y`
/// of the image (stored bottom-up for a negative pitch, `|pitch|` bytes per
/// row), a monochrome pixel is 255 exactly when bit `x % 8` (most
/// significant first) of byte `x / 8` of its row is set and 0 otherwise,
/// and a gray pixel is byte `x` of its row. Pixels outside the rendered
/// bitmap, of an empty one, or of any other format are 0.
pub proof fn law_copied_pixels_read_rendered_rows(b: RenderedBitmap, width: int, height: int, x: int, y: int)
    requires
        0 <= x < width,
        0 <= y < height,
    ensures
        ({
            let row = if b.pitch >= 0 {
                y
            } else {
                b.rows - 1 - y
            };
            let start = row * if b.pitch >= 0 {
                b.pitch as int
            } else {
                -(b.pitch as int)
            };
            let inside = b.buffer is Some && y < b.rows && x < b.width;
            copied_pixels(b, width, height)[y * width + x] == if !inside {
                0u8
            } else if b.mode is Mono {
                if msb_first_bit(b.buffer.unwrap()@[start + x / 8], x % 8) {
                    255u8
                } else {
                    0u8
                }
            } else if b.mode is Gray {
                b.buffer.unwrap()@[start + x]
            } else {
                0u8
            }
        }),
{
    let rows = Seq::new(
        height as nat,
        |j: int| Seq::new(width as nat, |i: int| crate::raster::copied_value(b, width, height, i, j)),
    );
    lemma_flatten_rows(rows, width, y, x);
    if b.buffer is Some && b.mode is Mono {
        let byte = b.buffer.unwrap()@[crate::raster::source_index(b, x, y)];
        let k = (x % 8) as u8;
        assert(k < 8);
        assert((byte & (0x80u8 >> k) != 0) == ((byte >> (7u8 - k) as u8) & 1u8 == 1u8)) by (bit_vector)
            requires
                k < 8,
        ;
    }
}

/// Clipping a glyph to its cell keeps every visible pixel where it was in
/// the cell: pixel `(x, y)` of the clipped bitmap is the old pixel that lay
/// at the same place, `x + new.x_offset - old.x_offset` columns and
/// `y + old.y_offset - new.y_offset` rows into the old bitmap, and the
/// clipped bitmap holds exactly `width * height` pixels.
pub proof fn law_clipping_keeps_pixels_in_place(raster_height: int, old: BitmapGlyph, new: BitmapGlyph, x: int, y: int)
    requires
        spec_fitted(raster_height, old, new),
        0 <= raster_height <= i16::MAX,
        old.cell_width <= i16::MAX,
        old.bitmap@.len() == old.width * old.height,
        0 <= x < new.width,
        0 <= y < new.height,
    ensures
        new.bitmap@.len() == new.width * new.height,
        0 <= x + new.x_offset - old.x_offset < old.width,
        0 <= y + old.y_offset - new.y_offset < old.height,
        new.bitmap@[y * new.width + x] == old.bitmap@[(y + old.y_offset - new.y_offset) * old.width + (x
            + new.x_offset - old.x_offset)],
{
    let plan = crate::raster::glyph_clip_plan(raster_height, old);
    if !crate::raster::clip_is_identity(plan, old.width as int, old.height as int) {
        let ow = old.width as int;
        let rows = Seq::new(
            plan.3 as nat,
            |j: int| Seq::new(plan.2 as nat, |i: int| old.bitmap@[(plan.1 + j) * ow + plan.0 + i]),
        );
        assert(rows.flatten() == new.bitmap@);
        lemma_flatten_rows(rows, plan.2, y, x);
        assert(new.x_offset - old.x_offset == plan.0);
        assert(old.y_offset - new.y_offset == plan.1);
        assert(plan.0 + plan.2 <= ow);
        assert(plan.1 + plan.3 <= old.height);
    }
}

/// A baseline position places a line's em box: for the top baseline its
/// first row lies on the position; for the bottom and the alphabetic
/// baseline its last row (row `size - 1`) does; for the middle one row
/// `(size - 1) / 2` does. The line starts at the position's column.
pub proof fn law_baseline_places_em_box<C>(style: GlyphCellTextStyle<C>, position: Point, baseline: Baseline)
    requires
        style.font_data.size >= 1,
    ensures
        style.spec_top_left(position, baseline).0 == position.x,
        baseline is Top ==> style.spec_top_left(position, baseline).1 == position.y,
        baseline is Bottom ==> style.spec_top_left(position, baseline).1 + (style.font_data.size - 1) == position.y,
        baseline is Alphabetic ==> style.spec_top_left(position, baseline).1 + (style.font_data.size - 1)
            == position.y,
        baseline is Middle ==> style.spec_top_left(position, baseline).1 + (style.font_data.size - 1) / 2
            == position.y,
{
}

proof fn lemma_max_fold_is_largest(ws: Seq<int>)
    requires
        forall|i: int| 0 <= i < ws.len() ==> #[trigger] ws[i] >= 0,
    ensures
        forall|i: int| 0 <= i < ws.len() ==> #[trigger] ws[i] <= max_fold(ws),
        ws.len() > 0 ==> exists|i: int| 0 <= i < ws.len() && #[trigger] ws[i] == max_fold(ws),
        ws.len() == 0 ==> max_fold(ws) == 0,
    decreases ws.len(),
{
    if ws.len() > 0 {
        let front = ws.drop_last();
        lemma_max_fold_is_largest(front);
        assert forall|i: int| 0 <= i < ws.len() implies #[trigger] ws[i] <= max_fold(ws) by {
            if i < front.len() {
                assert(front[i] == ws[i]);
            }
        }
        if max_fold(ws) == ws.last() {
            assert(ws[ws.len() - 1] == max_fold(ws));
        } else if front.len() > 0 {
            let i = choose|i: int| 0 <= i < front.len() && #[trigger] front[i] == max_fold(front);
            assert(ws[i] == max_fold(ws));
        }
    }
}

/// The extent of line `j` of a run along its flow: the width that a line
/// of a horizontal run covers, the height that a column of a vertical run
/// covers.
pub open spec fn extent_along(run: TextRun, j: int) -> int {
    if run.flow is Horizontal {
        extent(run.line_bounds(j))
    } else {
        extent(run.column_bounds(j))
    }
}

/// The measured size along the flow of a run: its width for horizontal
/// text, its height for vertical text.
pub open spec fn measured_along(run: TextRun) -> int {
    if run.flow is Horizontal {
        run.spec_measure().0
    } else {
        run.spec_measure().1
    }
}

/// A run of text is as long as its longest line: every line fits in the
/// measured size along the flow, and some line fills it.
pub proof fn law_measure_is_longest_line(run: TextRun)
    requires
        run.text@.len() > 0,
    ensures
        forall|j: int| 0 <= j < run.lines().len() ==> #[trigger] extent_along(run, j) <= measured_along(run),
        exists|j: int| 0 <= j < run.lines().len() && #[trigger] extent_along(run, j) == measured_along(run),
{
    lemma_split_lines_nonempty(run.text@);
    let ext = run.line_extents();
    assert forall|i: int| 0 <= i < ext.len() implies #[trigger] ext[i] >= 0 by {}
    lemma_max_fold_is_largest(ext);
    assert forall|j: int| 0 <= j < run.lines().len() implies #[trigger] extent_along(run, j) <= measured_along(run) by {
        assert(ext[j] == extent_along(run, j));
    }
    let i = choose|i: int| 0 <= i < ext.len() && #[trigger] ext[i] == max_fold(ext);
    assert(extent_along(run, i) == ext[i]);
}

/// The row of the cells of character `k` of line `j` of a run.
pub open spec fn cell_row(run: TextRun, j: int, k: int) -> int {
    run.line_positions(j)[k].cell_origin.y as int
}

proof fn lemma_cell_row_is_line_pen(run: TextRun, j: int, k: int)
    requires
        run.flow is Horizontal,
        run.positions_defined(),
        run.text@.len() > 0,
        0 <= j < run.lines().len(),
        0 <= k < run.lines()[j].len(),
    ensures
        cell_row(run, j, k) == run.line_pen(j),
{
    assert(run.char_defined(j, k));
}

/// A pen that starts at `s` and passes `j` items of extent `c`, each
/// followed by `spacing`, without reaching the `i32` limits stands at
/// `s + j * (c + spacing)`.
proof fn lemma_pen_steps_evenly(s: int, ws: Seq<int>, spacing: int, c: int, j: nat)
    requires
        j <= ws.len(),
        forall|i: int| 0 <= i < ws.len() ==> #[trigger] ws[i] == c,
        0 <= c,
        0 <= spacing,
        c + spacing <= i32::MAX,
        i32::MIN <= s,
        s + j * (c + spacing) <= i32::MAX,
    ensures
        pen_before(s, ws, spacing, j) == s + j * (c + spacing),
    decreases j,
{
    if j > 0 {
        assert(j * (c + spacing) == (j - 1) * (c + spacing) + (c + spacing)) by (nonlinear_arith);
        assert(0 <= (j - 1) * (c + spacing)) by (nonlinear_arith)
            requires
                j >= 1,
                0 <= c + spacing,
        ;
        lemma_pen_steps_evenly(s, ws, spacing, c, (j - 1) as nat);
        let prev = pen_before(s, ws, spacing, (j - 1) as nat);
        assert(ws[j - 1] == c);
        assert(sat_i32(c + spacing) == c + spacing);
        assert(prev + (c + spacing) == s + j * (c + spacing));
        assert(pen_before(s, ws, spacing, j) == sat_i32(prev + sat_i32(ws[j - 1] + spacing)));
        assert(sat_i32(prev + (c + spacing)) == prev + (c + spacing));
    } else {
        assert(j * (c + spacing) == 0) by (nonlinear_arith)
            requires
                j == 0,
        ;
    }
}

/// The lines of a horizontal run stack downward by the font size and the
/// line spacing: all cells of a line lie in one row, and the row of the
/// next line is that row plus the font size plus the line spacing
/// (saturating at the `i32` limits).
pub proof fn law_lines_stack_downward(run: TextRun, j: int, k: int, k2: int, m: int)
    requires
        run.flow is Horizontal,
        run.positions_defined(),
        run.text@.len() > 0,
        0 <= j,
        j + 1 < run.lines().len(),
        0 <= k < run.lines()[j].len(),
        0 <= k2 < run.lines()[j].len(),
        0 <= m < run.lines()[j + 1].len(),
    ensures
        cell_row(run, j, k) == cell_row(run, j, k2),
        cell_row(run, j + 1, m) == sat_i32(cell_row(run, j, k) + sat_i32(run.font.size + run.line_spacing())),
{
    lemma_cell_row_is_line_pen(run, j, k);
    lemma_cell_row_is_line_pen(run, j, k2);
    lemma_cell_row_is_line_pen(run, j + 1, m);
    assert(run.line_thicknesses()[j] == run.font.size);
}

/// Without reaching the `i32` limits and with a non-negative line spacing,
/// line `j` of a horizontal run lies `j * (size + line_spacing)` rows below
/// the top of the measured box, and the measured height is exactly what
/// the lines fill: `size` rows for each line and the line spacing between
/// lines, so the cells of different lines never overlap and the last line
/// ends at the bottom of the box.
pub proof fn law_lines_fill_measured_height(run: TextRun, j: int, k: int)
    requires
        run.flow is Horizontal,
        run.positions_defined(),
        run.text@.len() > 0,
        0 <= j < run.lines().len(),
        0 <= k < run.lines()[j].len(),
        run.line_spacing() >= 0,
        run.font.size + run.line_spacing() <= i32::MAX,
        (run.lines().len() - 1) * (run.font.size + run.line_spacing()) + run.font.size <= i32::MAX,
        run.spec_top_left().1 + (run.lines().len() - 1) * (run.font.size + run.line_spacing()) + run.font.size
            <= i32::MAX,
    ensures
        cell_row(run, j, k) == run.spec_top_left().1 + j * (run.font.size + run.line_spacing()),
        run.spec_measure().1 == (run.lines().len() - 1) * (run.font.size + run.line_spacing()) + run.font.size,
{
    let n = run.lines().len();
    let c = run.font.size as int;
    let ls = run.line_spacing();
    let thick = run.line_thicknesses();
    assert forall|i: int| 0 <= i < thick.len() implies #[trigger] thick[i] == c by {}
    assert(0 <= j * (c + ls) <= (n - 1) * (c + ls)) by (nonlinear_arith)
        requires
            0 <= j <= n - 1,
            0 <= c + ls,
    ;
    lemma_cell_row_is_line_pen(run, j, k);
    lemma_pen_steps_evenly(run.spec_top_left().1, thick, ls, c, j as nat);
    lemma_pen_steps_evenly(0, thick, ls, c, (n - 1) as nat);
}

/// The column of the cell of character `k` of line `j` of a run.
pub open spec fn cell_column(run: TextRun, j: int, k: int) -> int {
    run.line_positions(j)[k].cell_origin.x as int
}

/// Where the cell of character `k` of line `j` starts along the flow: its
/// column in a horizontal run, its row in a vertical one.
pub open spec fn cell_along(run: TextRun, j: int, k: int) -> int {
    if run.flow is Horizontal {
        cell_column(run, j, k)
    } else {
        cell_row(run, j, k)
    }
}

/// The extent of the cell of character `k` of line `j` along the flow: its
/// width in a horizontal run, its height in a vertical one.
pub open spec fn cell_extent_along(run: TextRun, j: int, k: int) -> int {
    if run.flow is Horizontal {
        run.line_positions(j)[k].cell_size.width as int
    } else {
        run.line_positions(j)[k].cell_size.height as int
    }
}

proof fn lemma_cell_along_is_pen(run: TextRun, j: int, k: int)
    requires
        run.positions_defined(),
        run.text@.len() > 0,
        0 <= j < run.lines().len(),
        0 <= k < run.lines()[j].len(),
    ensures
        cell_along(run, j, k) == run.line_start(j) + run.char_pen(j, k),
        cell_extent_along(run, j, k) == run.along_extents(j)[k],
{
    assert(run.char_defined(j, k));
    crate::layout::lemma_max_fold_bound(run.widths(j), 65535);
}

/// Along the flow, each cell of a line follows the one before it by that
/// cell's extent plus the character spacing: when the step and the
/// distance from the line's first cell stay within `i32`, the next cell
/// starts at this cell's start plus its width (height, in a column) plus
/// the spacing.
pub proof fn law_cells_follow_in_line(run: TextRun, j: int, k: int)
    requires
        run.positions_defined(),
        run.text@.len() > 0,
        0 <= j < run.lines().len(),
        0 <= k,
        k + 1 < run.lines()[j].len(),
        i32::MIN <= cell_extent_along(run, j, k) + run.spacing() <= i32::MAX,
        i32::MIN <= cell_along(run, j, k) - cell_along(run, j, 0) + cell_extent_along(run, j, k) + run.spacing()
            <= i32::MAX,
    ensures
        cell_along(run, j, k + 1) == cell_along(run, j, k) + cell_extent_along(run, j, k) + run.spacing(),
{
    lemma_cell_along_is_pen(run, j, k);
    lemma_cell_along_is_pen(run, j, k + 1);
    lemma_cell_along_is_pen(run, j, 0);
}

/// In a vertical run with left-aligned cells, columns stack rightward: the
/// next column starts at this column plus its widest cell plus the line
/// spacing (saturating at the `i32` limits).
pub proof fn law_columns_stack_rightward(run: TextRun, j: int, k: int, m: int, widest: int)
    requires
        run.flow is Vertical,
        run.alignment.horizontal is Left,
        run.positions_defined(),
        run.text@.len() > 0,
        0 <= j,
        j + 1 < run.lines().len(),
        0 <= k < run.lines()[j].len(),
        0 <= m < run.lines()[j + 1].len(),
        forall|i: int| 0 <= i < run.lines()[j].len() ==> run.line_positions(j)[i].cell_size.width <= widest,
        exists|i: int| 0 <= i < run.lines()[j].len() && run.line_positions(j)[i].cell_size.width == widest,
    ensures
        cell_column(run, j + 1, m) == sat_i32(cell_column(run, j, k) + sat_i32(widest + run.line_spacing())),
{
    assert(run.char_defined(j, k));
    assert(run.char_defined(j + 1, m));
    let ws = run.widths(j);
    crate::layout::lemma_max_fold_bound(ws, 65535);
    assert forall|i: int| 0 <= i < ws.len() implies #[trigger] ws[i] >= 0 && ws[i] == run.line_positions(j)[i].cell_size.width by {}
    lemma_max_fold_is_largest(ws);
    let i = choose|i: int| 0 <= i < run.lines()[j].len() && run.line_positions(j)[i].cell_size.width == widest;
    assert(ws[i] <= max_fold(ws));
    let i2 = choose|i2: int| 0 <= i2 < ws.len() && #[trigger] ws[i2] == max_fold(ws);
    assert(run.line_positions(j)[i2].cell_size.width <= widest);
    assert(max_fold(ws) == widest);
    assert(run.line_thicknesses()[j] == widest);
}

} // verus!
