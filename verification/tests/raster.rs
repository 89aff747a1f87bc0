use glyph_cell::raster::{
    advance_width_pixels_16dot16, apply_auto_y_offsets, apply_cell_offsets, centered_offset,
    cell_offsets_fit, glyphs_fit_vertically, y_offset_delta, BitmapGlyph,
};

fn glyph(height: u16, y_offset: i16) -> BitmapGlyph {
    glyph_for_codepoint('A', 1, height, y_offset)
}

fn glyph_for_codepoint(codepoint: char, width: u16, height: u16, y_offset: i16) -> BitmapGlyph {
    BitmapGlyph {
        codepoint,
        width,
        height,
        cell_width: 1,
        x_offset: 0,
        y_offset,
        x_min: 0,
        y_min: y_offset - height as i16,
        advance_width: 1,
        bitmap: vec![255; width as usize * height as usize],
    }
}

#[test]
fn rounds_16dot16_advance_up_to_pixels() {
    assert_eq!(advance_width_pixels_16dot16(0), 0);
    assert_eq!(advance_width_pixels_16dot16(4 * 65536), 4);
    assert_eq!(advance_width_pixels_16dot16(4 * 65536 + 1), 5);
}

#[test]
fn centers_glyph_bitmap_in_cell() {
    assert_eq!(centered_offset(24, 10), 7);
    assert_eq!(centered_offset(24, 24), 0);
    assert_eq!(centered_offset(24, 28), -2);
}

#[test]
fn keeps_glyphs_that_already_fit_in_raster_height() {
    assert_eq!(y_offset_delta(12, &[glyph(5, 10), glyph(4, 8)]), 0);
}

#[test]
fn moves_font_block_down_until_top_fits() {
    assert_eq!(y_offset_delta(12, &[glyph(5, 14), glyph(4, 12)]), -2);
}

#[test]
fn moves_font_block_up_until_bottom_fits() {
    assert_eq!(y_offset_delta(12, &[glyph(5, 3), glyph(4, 4)]), 2);
}

#[test]
fn auto_adjusts_generated_y_offset_without_changing_raw_y_min() {
    let mut glyphs = [glyph(5, 14), glyph(4, 12)];
    let y_min = glyphs[0].y_min;

    apply_auto_y_offsets(12, &mut glyphs);

    assert_eq!(glyphs[0].y_offset, 12);
    assert_eq!(glyphs[0].y_min, y_min);
}

#[test]
fn auto_adjusts_ascii_and_other_y_offsets_independently() {
    let mut glyphs = [
        glyph_for_codepoint('A', 1, 5, 14),
        glyph_for_codepoint('你', 1, 5, 3),
    ];

    apply_auto_y_offsets(12, &mut glyphs);

    assert_eq!(glyphs[0].y_offset, 12);
    assert_eq!(glyphs[1].y_offset, 5);
}

#[test]
fn applies_ascii_and_other_cell_offsets_after_y_min_adjustment() {
    let mut glyphs = [
        glyph_for_codepoint('A', 3, 3, 3),
        glyph_for_codepoint('你', 6, 5, 5),
    ];

    apply_cell_offsets(12, 6, &mut glyphs);

    assert_eq!(glyphs[0].cell_width, 6);
    assert_eq!(glyphs[0].x_offset, 1);
    assert_eq!(glyphs[0].y_offset, 3);
    assert_eq!(glyphs[1].cell_width, 12);
    assert_eq!(glyphs[1].x_offset, 3);
    assert_eq!(glyphs[1].y_offset, 5);
}

#[test]
fn clips_glyph_bitmap_to_generated_cell() {
    let mut glyphs = [glyph_for_codepoint('A', 8, 8, 7)];
    glyphs[0].x_offset = -2;
    glyphs[0].bitmap = (0..64)
        .map(|index| if index % 2 == 0 { 255 } else { 0 })
        .collect();

    apply_cell_offsets(6, 4, &mut glyphs);

    assert_eq!(glyphs[0].width, 4);
    assert_eq!(glyphs[0].height, 6);
    assert_eq!(glyphs[0].x_offset, 0);
    assert_eq!(glyphs[0].y_offset, 6);
    assert_eq!(glyphs[0].bitmap.len(), 24);
}

#[test]
fn vertical_fit_detects_top_and_bottom_overflow() {
    assert!(!glyphs_fit_vertically(
        6,
        &[glyph_for_codepoint('A', 3, 8, 7)]
    ));
    assert!(!glyphs_fit_vertically(
        6,
        &[glyph_for_codepoint('A', 3, 8, 1)]
    ));
}

#[test]
fn vertical_fit_ignores_horizontal_overflow() {
    assert!(glyphs_fit_vertically(
        6,
        &[glyph_for_codepoint('A', 99, 4, 5)]
    ));
}

#[test]
fn cell_offsets_fit_only_bitmaps_that_hold_their_rows() {
    let mut short = glyph(3, 2);
    assert!(cell_offsets_fit(2, 1, &[short.clone()]));
    short.bitmap = vec![255];
    assert!(!cell_offsets_fit(2, 1, &[short.clone()]));
    // A glyph that lies inside its cell is not clipped, so nothing is read.
    let mut inside = glyph(1, 1);
    inside.bitmap = vec![];
    assert!(cell_offsets_fit(2, 1, &[inside]));
}
