use glyph_cell::emit::{pack_pixels, sort_by_codepoint, source, write_bitmap};
use glyph_cell::raster::{rasterized_glyph, BitmapGlyph, GlyphSlot, PixelMode, RenderedBitmap};
use glyph_cell::writer::{push_decimal, push_decimal_u64, push_string_literal};

fn text(chars: Vec<char>) -> String {
    chars.into_iter().collect()
}

fn bitmap_glyph(codepoint: char, width: u16, bitmap: Vec<u8>) -> BitmapGlyph {
    BitmapGlyph {
        codepoint,
        width,
        height: 1,
        cell_width: width,
        x_offset: 0,
        y_offset: 1,
        x_min: 0,
        y_min: 0,
        advance_width: width,
        bitmap,
    }
}

#[test]
fn packs_samples_at_each_bit_depth() {
    let mut out = Vec::new();
    pack_pixels(&[0xff, 0x00, 0x80], 1, &mut out);
    assert_eq!(out, vec![0b1010_0000]);

    let mut out = Vec::new();
    pack_pixels(&[0xf0, 0x3c, 0x99], 4, &mut out);
    assert_eq!(out, vec![0xf3, 0x90]);

    let mut out = vec![1];
    pack_pixels(&[0xc0, 0x40, 0x80, 0x00, 0xff], 2, &mut out);
    assert_eq!(out, vec![1, 0b1101_1000, 0b1100_0000]);
}

#[test]
fn sorts_glyphs_by_codepoint_keeping_equal_ones_in_order() {
    let glyphs = vec![
        bitmap_glyph('b', 1, vec![1]),
        bitmap_glyph('a', 1, vec![2]),
        bitmap_glyph('b', 1, vec![3]),
        bitmap_glyph('\u{4f60}', 1, vec![4]),
        bitmap_glyph('A', 1, vec![5]),
    ];
    let sorted = sort_by_codepoint(glyphs);
    let order: Vec<(char, u8)> = sorted.iter().map(|g| (g.codepoint, g.bitmap[0])).collect();
    assert_eq!(order, vec![('A', 5), ('a', 2), ('b', 1), ('b', 3), ('\u{4f60}', 4)]);
}

#[test]
fn writes_bitmap_bytes_in_binary() {
    let mut out = Vec::new();
    write_bitmap(&mut out, &[5, 0xff]);
    assert_eq!(text(out), "const BITMAP: [u8; 2] = [\n    0b00000101,\n    0b11111111,\n];\n\n");
}

#[test]
fn generates_font_source() {
    let glyphs = sort_by_codepoint(vec![bitmap_glyph('B', 2, vec![255, 0]), bitmap_glyph('A', 1, vec![255])]);
    let generated = text(source(1, 1, 1, &glyphs));
    let expected = r#"const GLYPHS: [glyph_cell::Glyph; 2] = [
    glyph_cell::Glyph {
        bitmap_offset: 0,
        width: 1,
        height: 1,
        cell_width: 1,
        x_offset: 0,
        y_offset: 1,
        x_min: 0,
        y_min: 0,
        advance_width: 1,
    },
    glyph_cell::Glyph {
        bitmap_offset: 1,
        width: 2,
        height: 1,
        cell_width: 2,
        x_offset: 0,
        y_offset: 1,
        x_min: 0,
        y_min: 0,
        advance_width: 2,
    },
];

const BITMAP: [u8; 2] = [
    0b10000000,
    0b10000000,
];

glyph_cell::FontData {
    index: "AB",
    size: 1,
    ascii_width: 1,
    bpp: 1,
    bitmap: &BITMAP,
    glyphs: &GLYPHS,
}
"#;
    assert_eq!(generated, expected);
}

#[test]
fn writes_decimals_and_literals() {
    let mut out = Vec::new();
    push_decimal(&mut out, -120);
    push_decimal(&mut out, 0);
    push_decimal(&mut out, i64::MIN);
    push_decimal_u64(&mut out, u64::MAX);
    assert_eq!(text(out), "-1200-922337203685477580818446744073709551615");

    let mut out = Vec::new();
    push_string_literal(&mut out, "a\"b\n");
    assert_eq!(text(out), "\"a\\\"b\\n\"");
}

#[test]
fn converts_rendered_slots_into_glyphs() {
    // A 3 by 2 monochrome bitmap with a 1-byte pitch: rows 101 and 010.
    let buffer = [0b1010_0000u8, 0b0100_0000];
    let slot = GlyphSlot {
        bitmap: RenderedBitmap { buffer: Some(&buffer), pitch: 1, rows: 2, width: 3, mode: PixelMode::Mono },
        bitmap_left: -1,
        bitmap_top: 40000,
        linear_hori_advance: 3 * 65536 + 1,
    };
    let g = rasterized_glyph('x', 9, &slot);
    assert_eq!((g.width, g.height, g.cell_width), (3, 2, 9));
    assert_eq!((g.x_min, g.y_offset, g.y_min), (-1, i16::MAX, i16::MAX));
    assert_eq!(g.advance_width, 4);
    assert_eq!(g.bitmap, vec![255, 0, 255, 0, 255, 0]);

    let empty = GlyphSlot {
        bitmap: RenderedBitmap { buffer: None, pitch: 0, rows: 0, width: 0, mode: PixelMode::Gray },
        bitmap_left: 0,
        bitmap_top: 5,
        linear_hori_advance: 0,
    };
    let g = rasterized_glyph(' ', 4, &empty);
    assert_eq!((g.width, g.height, g.y_min, g.advance_width), (1, 1, 5, 0));
    assert_eq!(g.bitmap, vec![0]);
}
