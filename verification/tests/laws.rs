use std::collections::BTreeMap;

use glyph_cell::blocks::{apply_y_offsets, indexed_blocks, unique_block_chars};
use glyph_cell::emit::pack_pixels;
use glyph_cell::preview::fit_glyph_to_cell;
use glyph_cell::raster::BitmapGlyph;
use glyph_cell::simulator::{
    apply_y_offset_tweaks, pack_mono_pixels, prepare_preview_font, FontBuildKey, FontCache, FontCacheAction,
    PreparedFont, SimulatorSettings,
};
use glyph_cell::{FontData, Glyph};

fn bitmap_glyph(codepoint: char, y_offset: i16) -> BitmapGlyph {
    BitmapGlyph {
        codepoint,
        width: 1,
        height: 1,
        cell_width: 1,
        x_offset: 0,
        y_offset,
        x_min: 0,
        y_min: 0,
        advance_width: 1,
        bitmap: vec![255],
    }
}

fn preview_glyph(y_offset: i16) -> Glyph {
    Glyph {
        bitmap_offset: 0,
        width: 1,
        height: 1,
        cell_width: 1,
        x_offset: 0,
        y_offset,
        x_min: 0,
        y_min: 0,
        advance_width: 1,
    }
}

fn key(index: &str) -> FontBuildKey {
    FontBuildKey {
        path: "font.ttf".to_owned(),
        collection_index: 0,
        size: 12,
        index: index.chars().collect(),
        y_offsets: String::new(),
    }
}

/// A prepared font of one glyph for `A`, three rows high at raster height
/// two, so that it loses a row to its cell.
fn tall_a() -> PreparedFont {
    let glyph = Glyph {
        bitmap_offset: 0,
        width: 1,
        height: 3,
        cell_width: 0,
        x_offset: 0,
        y_offset: 2,
        x_min: 0,
        y_min: 0,
        advance_width: 1,
    };
    prepare_preview_font(2, "A", "", vec![glyph], vec![vec![255, 255, 255]]).unwrap()
}

#[test]
fn blocks_keep_each_character_once_and_apart() {
    let blocks = indexed_blocks(&vec!["AABA", "\u{4f60}\u{597d}\u{4f60}", ""]).unwrap();
    assert_eq!(blocks, vec![vec!['A', 'B'], vec!['\u{4f60}', '\u{597d}'], vec![]]);

    assert_eq!(indexed_blocks(&vec!["AB", "CD", "DB"]), Err(('D', 1, 2)));

    let mut seen = BTreeMap::new();
    seen.insert('Z' as u32, 3);
    assert_eq!(unique_block_chars("xyzZ", 4, &mut seen), Err(('Z', 3)));
    let mut seen = BTreeMap::new();
    assert_eq!(unique_block_chars("abca", 0, &mut seen), Ok(vec!['a', 'b', 'c']));
    assert_eq!(seen.get(&('c' as u32)), Some(&0));
}

#[test]
fn preview_tweaks_move_glyphs_like_block_tweaks() {
    let mut block = vec![bitmap_glyph('A', 3), bitmap_glyph('g', i16::MIN + 1)];
    let mut preview = vec![preview_glyph(3), preview_glyph(i16::MIN + 1)];
    apply_y_offsets(&mut block, &[('g', -2), ('A', 4)]).unwrap();
    apply_y_offset_tweaks(&mut preview, "Ag", "g: -2\nA: 4").unwrap();
    assert_eq!(block[0].y_offset, preview[0].y_offset);
    assert_eq!(block[1].y_offset, preview[1].y_offset);
    assert_eq!((preview[0].y_offset, preview[1].y_offset), (7, i16::MIN));

    let mut unknown = vec![bitmap_glyph('A', 0)];
    assert_eq!(apply_y_offsets(&mut unknown, &[('B', 1)]), Err('B'));
}

#[test]
fn cache_builds_once_per_key() {
    let mut cache = FontCache::default();
    assert_eq!(cache.action(None), FontCacheAction::ReportNoPath);
    assert_eq!(cache.action(Some(&key("AB"))), FontCacheAction::Build);
    let (fallback, clipped) = cache.preview_data(10);
    assert_eq!((fallback.index.as_str(), fallback.ascii_width), ("A", 5));
    assert!(clipped.is_empty());

    cache.record_build(key("AB"), tall_a(), vec!['B']);
    assert_eq!(cache.action(Some(&key("AB"))), FontCacheAction::Keep);
    assert_eq!(cache.action(Some(&key("ABC"))), FontCacheAction::Build);
    assert!(cache.error.is_none());
    assert_eq!(cache.missing_chars, vec!['B']);
    let (data, clipped) = cache.preview_data(4);
    assert_eq!((data.size, data.ascii_width, data.glyphs[0].height), (2, 4, 2));
    assert_eq!(clipped, vec!['A']);

    cache.record_failure(key("ABC"), "broken".to_owned());
    assert_eq!(cache.action(Some(&key("ABC"))), FontCacheAction::Keep);
    assert_eq!(cache.error.as_deref(), Some("broken"));
    assert!(cache.missing_chars.is_empty());
    let (data, clipped) = cache.preview_data(4);
    assert_eq!(data.index, "A");
    assert!(clipped.is_empty());

    cache.record_no_path();
    assert_eq!(cache.error.as_deref(), Some("No font path selected"));
    cache.invalidate();
    assert_eq!(cache.action(Some(&key("ABC"))), FontCacheAction::Build);
}

#[test]
fn cell_width_keeps_the_rasterized_font() {
    let mut narrow = SimulatorSettings::default();
    narrow.text = "Hello, \u{4f60}!".to_owned();
    narrow.ascii_width = 6;
    let mut wide = SimulatorSettings::default();
    wide.text = narrow.text.clone();
    wide.ascii_width = 20;
    wide.spacing = 5;
    let k1 = FontBuildKey::for_settings(&narrow, "font.ttf".to_owned());
    let k2 = FontBuildKey::for_settings(&wide, "font.ttf".to_owned());
    assert_eq!(k1.index, vec!['H', 'e', 'l', 'o', ',', ' ', '\u{4f60}', '!']);
    let mut cache = FontCache::default();
    cache.record_build(k1, tall_a(), vec![]);
    assert_eq!(cache.action(Some(&k2)), FontCacheAction::Keep);

    wide.font_size = narrow.font_size + 1;
    let k3 = FontBuildKey::for_settings(&wide, "font.ttf".to_owned());
    assert_eq!(cache.action(Some(&k3)), FontCacheAction::Build);

    let font = tall_a();
    assert_eq!(cache.preview_data(1).1, cache.preview_data(30).1);
    assert_eq!(glyph_cell::simulator::place_font_data(&font, 1).1, vec!['A']);
}

#[test]
fn clipped_preview_glyph_lies_in_its_cell() {
    let mut glyph = Glyph {
        bitmap_offset: 0,
        width: 4,
        height: 4,
        cell_width: 3,
        x_offset: -1,
        y_offset: 5,
        x_min: 0,
        y_min: 0,
        advance_width: 4,
    };
    let mut pixels: Vec<u8> = (1..=16).collect();
    let clipped = fit_glyph_to_cell(4, &mut glyph, &mut pixels);
    assert!(clipped);
    assert!(glyph.x_offset >= 0);
    assert!(glyph.x_offset as i32 + glyph.width as i32 <= glyph.cell_width as i32);
    assert!(4 - glyph.y_offset as i32 >= 0);
    assert!(4 - glyph.y_offset as i32 + glyph.height as i32 <= 4);
    assert_eq!((glyph.width, glyph.height), (3, 3));
    assert_eq!(pixels, vec![6, 7, 8, 10, 11, 12, 14, 15, 16]);
}

#[test]
fn packed_preview_pixels_draw_back() {
    let pixels = [0, 9, 0, 255, 1, 0];
    let mut bitmap = vec![0xff];
    pack_mono_pixels(&pixels, &mut bitmap);
    let glyphs = [Glyph {
        bitmap_offset: 1,
        width: 3,
        height: 2,
        cell_width: 3,
        x_offset: 0,
        y_offset: 2,
        x_min: 0,
        y_min: 0,
        advance_width: 3,
    }];
    let font = FontData { index: "A", size: 2, ascii_width: 3, bpp: 1, bitmap: &bitmap, glyphs: &glyphs };
    for y in 0..2u16 {
        for x in 0..3u16 {
            let expected = pixels[(y * 3 + x) as usize] != 0;
            assert_eq!(font.glyph_pixel(&glyphs[0], x, y), expected);
        }
    }

    let mut packed = Vec::new();
    pack_pixels(&[0x10, 0xf0], 4, &mut packed);
    assert_eq!(packed, vec![0x1f]);
}
