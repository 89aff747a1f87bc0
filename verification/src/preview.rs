//! Preview glyph processing: the same vertical adjustment, cell placement
//! and clipping as font data generation, on `Glyph`s paired with the
//! characters of a separate index.

use vstd::prelude::*;

use crate::font::Glyph;
use crate::geometry::{
    char_is_ascii, clamp_i32_to_i16, is_ascii_char, max_i32, min_i32, offset_i16_i32, sat_i16, str_chars,
};
use crate::raster::{
    centered_offset, clip_bitmap, clip_geometry, clip_is_identity, clip_plan, clip_rect, clip_reads_in_bounds,
    clipped_pixels, lemma_delta_bounds, lemma_span_bounds, spec_centered_offset, spec_glyph_bottom, spec_glyph_top,
    spec_glyphs_fit_vertically, spec_y_offset_delta, vertical_span,
};

verus! {

broadcast use vstd::seq_lib::group_seq_properties;

// ---------------------------------------------------------------------------
// Vertical adjustment of preview glyphs.
// ---------------------------------------------------------------------------

/// The vertical boxes of the glyphs that the index characters pair up
/// with, pairing stopping at the shorter of the two.
pub open spec fn preview_boxes(index: Seq<char>, glyphs: Seq<Glyph>) -> Seq<(bool, i16, u16)> {
    Seq::new(
        if index.len() <= glyphs.len() {
            index.len()
        } else {
            glyphs.len()
        },
        |i: int| (is_ascii_char(index[i]), glyphs[i].y_offset, glyphs[i].height),
    )
}

/// The vertical boxes of all glyphs.
pub open spec fn all_boxes(glyphs: Seq<Glyph>) -> Seq<(bool, i16, u16)> {
    Seq::new(glyphs.len(), |i: int| (true, glyphs[i].y_offset, glyphs[i].height))
}

pub fn glyph_top(raster_height: i32, glyph: &Glyph) -> (r: i32)
    requires
        0 <= raster_height <= u16::MAX,
    ensures
        r == spec_glyph_top(raster_height as int, glyph.y_offset as int),
{
    raster_height - glyph.y_offset as i32
}

pub fn glyph_bottom(raster_height: i32, glyph: &Glyph) -> (r: i32)
    requires
        0 <= raster_height <= u16::MAX,
    ensures
        r == spec_glyph_bottom(raster_height as int, glyph.y_offset as int, glyph.height as int),
{
    glyph_top(raster_height, glyph) + glyph.height as i32
}

/// The shared vertical shift of the preview glyphs whose index characters
/// are ASCII (or not).
pub fn y_offset_delta_for(raster_height: u16, index: &str, glyphs: &[Glyph], ascii: bool) -> (r: i32)
    ensures
        r == spec_y_offset_delta(raster_height as int, preview_boxes(index@, glyphs@), Some(ascii)),
{
    let chars = str_chars(index);
    let n = if chars.len() <= glyphs.len() {
        chars.len()
    } else {
        glyphs.len()
    };
    let ghost boxes = preview_boxes(index@, glyphs@);
    let h = raster_height as i32;
    let mut found = false;
    let mut min_top: i32 = 0;
    let mut max_bottom: i32 = 0;
    let mut i: usize = 0;
    while i < n
        invariant
            chars@ == index@,
            n == boxes.len(),
            boxes == preview_boxes(index@, glyphs@),
            i <= n,
            h == raster_height,
            found == (vertical_span(h as int, boxes, Some(ascii), i as nat) is Some),
            found ==> vertical_span(h as int, boxes, Some(ascii), i as nat) == Some((min_top as int, max_bottom as int)),
        decreases n - i,
    {
        proof {
            lemma_span_bounds(h as int, boxes, Some(ascii), (i + 1) as nat);
        }
        if char_is_ascii(chars[i]) == ascii {
            let top = glyph_top(h, &glyphs[i]);
            let bottom = glyph_bottom(h, &glyphs[i]);
            if !found {
                min_top = top;
                max_bottom = bottom;
                found = true;
            } else {
                min_top = min_i32(min_top, top);
                max_bottom = max_i32(max_bottom, bottom);
            }
        }
        i = i + 1;
    }
    if !found {
        return 0;
    }
    proof {
        lemma_span_bounds(h as int, boxes, Some(ascii), n as nat);
    }
    let min_delta = max_bottom - h;
    let max_delta = min_top;
    if min_delta <= max_delta {
        crate::geometry::clamp_i32(0, min_delta, max_delta)
    } else {
        (min_top + max_bottom - h) / 2
    }
}

/// The preview glyph after the automatic vertical adjustment: glyphs paired
/// with an ASCII character move by the shift of the ASCII glyphs, the
/// others by the shift of the other glyphs; unpaired glyphs stay.
pub open spec fn preview_auto_adjusted(raster_height: int, index: Seq<char>, glyphs: Seq<Glyph>, i: int) -> Glyph {
    if i < preview_boxes(index, glyphs).len() {
        Glyph {
            y_offset: sat_i16(
                glyphs[i].y_offset + spec_y_offset_delta(
                    raster_height,
                    preview_boxes(index, glyphs),
                    Some(is_ascii_char(index[i])),
                ),
            ) as i16,
            ..glyphs[i]
        }
    } else {
        glyphs[i]
    }
}

fn shift_paired(chars: &Vec<char>, glyphs: &mut [Glyph], ascii: bool, delta: i32)
    requires
        -200000 <= delta <= 200000,
    ensures
        final(glyphs)@.len() == old(glyphs)@.len(),
        forall|i: int|
            0 <= i < old(glyphs)@.len() ==> #[trigger] final(glyphs)@[i] == if i < chars@.len() && is_ascii_char(chars@[i]) == ascii {
                Glyph { y_offset: sat_i16(old(glyphs)@[i].y_offset + delta) as i16, ..old(glyphs)@[i] }
            } else {
                old(glyphs)@[i]
            },
{
    let ghost start = glyphs@;
    let mut i: usize = 0;
    while i < glyphs.len() && i < chars.len()
        invariant
            i <= glyphs@.len(),
            glyphs@.len() == start.len(),
            start == old(glyphs)@,
            -200000 <= delta <= 200000,
            forall|j: int|
                0 <= j < i ==> #[trigger] glyphs@[j] == if j < chars@.len() && is_ascii_char(chars@[j]) == ascii {
                    Glyph { y_offset: sat_i16(start[j].y_offset + delta) as i16, ..start[j] }
                } else {
                    start[j]
                },
            forall|j: int| i <= j < glyphs@.len() ==> #[trigger] glyphs@[j] == start[j],
        decreases glyphs@.len() - i,
    {
        if char_is_ascii(chars[i]) == ascii {
            let moved = offset_i16_i32(glyphs[i].y_offset, delta);
            glyphs[i].y_offset = moved;
        }
        i = i + 1;
    }
}

/// Applies the shared vertical shifts of the ASCII and the other glyphs.
pub fn apply_auto_y_offsets(raster_height: u16, index: &str, glyphs: &mut [Glyph])
    ensures
        final(glyphs)@.len() == old(glyphs)@.len(),
        forall|i: int|
            0 <= i < old(glyphs)@.len() ==> #[trigger] final(glyphs)@[i] == preview_auto_adjusted(
                raster_height as int,
                index@,
                old(glyphs)@,
                i,
            ),
{
    let ghost start = glyphs@;
    let chars = str_chars(index);
    proof {
        lemma_delta_bounds(raster_height as int, preview_boxes(index@, glyphs@), Some(true));
        lemma_delta_bounds(raster_height as int, preview_boxes(index@, glyphs@), Some(false));
    }
    let ascii_delta = y_offset_delta_for(raster_height, index, glyphs, true);
    shift_paired(&chars, glyphs, true, ascii_delta);
    proof {
        lemma_preview_span_congruent(
            raster_height as int,
            preview_boxes(index@, glyphs@),
            preview_boxes(index@, start),
            preview_boxes(index@, start).len() as nat,
        );
    }
    let other_delta = y_offset_delta_for(raster_height, index, glyphs, false);
    shift_paired(&chars, glyphs, false, other_delta);
}

proof fn lemma_preview_span_congruent(h: int, a: Seq<(bool, i16, u16)>, b: Seq<(bool, i16, u16)>, k: nat)
    requires
        k <= a.len(),
        k <= b.len(),
        forall|i: int| 0 <= i < k ==> #[trigger] a[i].0 == b[i].0,
        forall|i: int| 0 <= i < k && !a[i].0 ==> #[trigger] a[i].1 == b[i].1 && a[i].2 == b[i].2,
    ensures
        vertical_span(h, a, Some(false), k) == vertical_span(h, b, Some(false), k),
    decreases k,
{
    if k > 0 {
        lemma_preview_span_congruent(h, a, b, (k - 1) as nat);
        assert(a[k - 1].0 == b[k - 1].0);
    }
}

/// Whether the preview glyphs fit the raster height together.
pub fn glyphs_fit_vertically(raster_height: u16, glyphs: &[Glyph]) -> (r: bool)
    ensures
        r == spec_glyphs_fit_vertically(raster_height as int, all_boxes(glyphs@)),
{
    let ghost boxes = all_boxes(glyphs@);
    if glyphs.len() == 0 {
        return true;
    }
    let h = raster_height as i32;
    proof {
        lemma_span_bounds(h as int, boxes, None, 1);
        assert(vertical_span(h as int, boxes, None, 0) is None);
    }
    let mut min_top = glyph_top(h, &glyphs[0]);
    let mut max_bottom = glyph_bottom(h, &glyphs[0]);
    let mut i: usize = 1;
    while i < glyphs.len()
        invariant
            1 <= i <= glyphs@.len(),
            h == raster_height,
            boxes == all_boxes(glyphs@),
            vertical_span(h as int, boxes, None, i as nat) == Some((min_top as int, max_bottom as int)),
        decreases glyphs@.len() - i,
    {
        proof {
            lemma_span_bounds(h as int, boxes, None, (i + 1) as nat);
        }
        min_top = min_i32(min_top, glyph_top(h, &glyphs[i]));
        max_bottom = max_i32(max_bottom, glyph_bottom(h, &glyphs[i]));
        i = i + 1;
    }
    proof {
        lemma_span_bounds(h as int, boxes, None, i as nat);
    }
    max_bottom - min_top <= h
}

// ---------------------------------------------------------------------------
// Cells and clipping.
// ---------------------------------------------------------------------------

/// The preview glyph paired with `ch` placed in its cell: ASCII characters
/// get `ascii_width`, others the raster height, and the bitmap is centered.
pub open spec fn preview_placed(raster_height: int, ascii_width: int, ch: char, g: Glyph) -> Glyph {
    let cell_width = if is_ascii_char(ch) {
        ascii_width
    } else {
        raster_height
    };
    Glyph {
        cell_width: cell_width as u16,
        x_offset: spec_centered_offset(cell_width, g.width as int) as i16,
        ..g
    }
}

/// Gives every preview glyph paired with an index character its cell width
/// and centered x offset.
pub fn apply_cell_offsets(raster_height: u16, ascii_width: u16, index: &str, glyphs: &mut [Glyph])
    ensures
        final(glyphs)@.len() == old(glyphs)@.len(),
        forall|i: int|
            0 <= i < old(glyphs)@.len() ==> #[trigger] final(glyphs)@[i] == if i < index@.len() {
                preview_placed(raster_height as int, ascii_width as int, index@[i], old(glyphs)@[i])
            } else {
                old(glyphs)@[i]
            },
{
    let chars = str_chars(index);
    let ghost start = glyphs@;
    let mut i: usize = 0;
    while i < glyphs.len() && i < chars.len()
        invariant
            chars@ == index@,
            i <= glyphs@.len(),
            glyphs@.len() == start.len(),
            start == old(glyphs)@,
            forall|j: int|
                0 <= j < i ==> #[trigger] glyphs@[j] == if j < index@.len() {
                    preview_placed(raster_height as int, ascii_width as int, index@[j], start[j])
                } else {
                    start[j]
                },
            forall|j: int| i <= j < glyphs@.len() ==> #[trigger] glyphs@[j] == start[j],
        decreases glyphs@.len() - i,
    {
        let cell_width = if char_is_ascii(chars[i]) {
            ascii_width
        } else {
            raster_height
        };
        let x_offset = centered_offset(cell_width, glyphs[i].width);
        glyphs[i].cell_width = cell_width;
        glyphs[i].x_offset = x_offset;
        i = i + 1;
    }
}

/// The clip plan of a preview glyph.
pub open spec fn preview_clip_plan(raster_height: int, g: Glyph) -> (int, int, int, int, int) {
    clip_plan(g.cell_width as int, raster_height, g.x_offset as int, g.y_offset as int, g.width as int, g.height as int)
}

/// The preview glyph clipped to its cell, as font data generation clips
/// glyphs: unchanged when it lies inside already; otherwise cut to the
/// visible rectangle, with its offsets moved to the visible corner and its
/// raw minimums moved by what was cut off on the left and at the bottom.
/// The bitmap offset and the advance stay.
pub open spec fn preview_fit_glyph(raster_height: int, g: Glyph) -> Glyph {
    let plan = preview_clip_plan(raster_height, g);
    let rect = clip_rect(g.cell_width as int, raster_height, g.x_offset as int, g.y_offset as int, g.width as int, g.height as int);
    if clip_is_identity(plan, g.width as int, g.height as int) {
        g
    } else {
        Glyph {
            width: plan.2 as u16,
            height: plan.3 as u16,
            x_offset: sat_i16(rect.0) as i16,
            y_offset: sat_i16(raster_height - rect.1) as i16,
            x_min: sat_i16(g.x_min + plan.0) as i16,
            y_min: sat_i16(g.y_min + plan.4) as i16,
            ..g
        }
    }
}

/// The pixels of a preview glyph clipped to its cell.
pub open spec fn preview_fit_pixels(raster_height: int, g: Glyph, pixels: Seq<u8>) -> Seq<u8> {
    let plan = preview_clip_plan(raster_height, g);
    if clip_is_identity(plan, g.width as int, g.height as int) {
        pixels
    } else {
        clipped_pixels(pixels, g.width as int, plan.0, plan.1, plan.2, plan.3)
    }
}

/// Whether clipping a preview glyph to its cell cuts off rows.
pub open spec fn vertically_clipped(raster_height: int, g: Glyph) -> bool {
    let plan = preview_clip_plan(raster_height, g);
    plan.1 != 0 || plan.3 != g.height
}

/// The preview glyph and its pixels clipped to its cell.
pub open spec fn preview_fitted(raster_height: int, old: Glyph, old_pixels: Seq<u8>, new: Glyph, new_pixels: Seq<u8>) -> bool {
    new == preview_fit_glyph(raster_height, old) && new_pixels == preview_fit_pixels(raster_height, old, old_pixels)
}

/// Clips a preview glyph and its pixels to its cell; the result tells
/// whether rows were cut off.
pub fn fit_glyph_to_cell(raster_height: u16, glyph: &mut Glyph, pixels: &mut Vec<u8>) -> (r: bool)
    requires
        clip_reads_in_bounds(preview_clip_plan(raster_height as int, *old(glyph)), old(glyph).width as int, old(glyph).height as int, old(pixels)@.len() as int),
    ensures
        preview_fitted(raster_height as int, *old(glyph), old(pixels)@, *final(glyph), final(pixels)@),
        r == vertically_clipped(raster_height as int, *old(glyph)),
{
    let geometry = clip_geometry(raster_height, glyph.cell_width, glyph.x_offset, glyph.y_offset, glyph.width, glyph.height);
    let old_width = glyph.width as usize;
    let old_height = glyph.height as usize;
    let vertically_clipped = geometry.source_y != 0 || geometry.new_height as usize != old_height;
    if geometry.source_x == 0 && geometry.source_y == 0 && geometry.new_width as usize == old_width
        && geometry.new_height as usize == old_height {
        return false;
    }
    let clipped = clip_bitmap(
        pixels,
        old_width,
        geometry.source_x,
        geometry.source_y,
        geometry.new_width as usize,
        geometry.new_height as usize,
    );
    glyph.width = geometry.new_width;
    glyph.height = geometry.new_height;
    glyph.x_offset = clamp_i32_to_i16(geometry.visible_left);
    glyph.y_offset = clamp_i32_to_i16(raster_height as i32 - geometry.visible_top);
    glyph.x_min = offset_i16_i32(glyph.x_min, geometry.source_x as i32);
    glyph.y_min = offset_i16_i32(glyph.y_min, geometry.cropped_bottom);
    *pixels = clipped;
    vertically_clipped
}

} // verus!
