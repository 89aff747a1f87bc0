use glyph_cell::simulator::{
    apply_y_offset_tweaks, debug_box_color, example_code, example_y_offsets, font_priority,
    glyph_from_rasterized, glyph_index_from_text, is_font_extension, pack_mono_pixels,
    parse_y_offset_tweaks, place_font_data, prepare_preview_font, drawable_text, AlignmentChoice,
    FontCache, FontCacheAction, FontSource, Color, DebugOverlays, FlowMode, FrameBuffer,
    IntErrorKind, LayoutMode, OwnedFontData, RasterizedGlyph, SimulatorSettings, TweakError,
};
use glyph_cell::{Alignment, DebugBoxKind, Glyph, Point};

fn text(chars: Vec<char>) -> String {
    chars.into_iter().collect()
}

fn glyph(y_offset: i16) -> Glyph {
    Glyph {
        bitmap_offset: 0,
        width: 1,
        height: 1,
        cell_width: 1,
        x_offset: 0,
        y_offset,
        x_min: 0,
        y_min: 0,
        advance_width: 1,
    }
}

#[test]
fn default_settings_match_the_preview_start() {
    let settings = SimulatorSettings::default();
    assert_eq!(settings.text, "AWi\nmg\u{4f60}\u{597d}");
    assert_eq!(settings.font_size, 18);
    assert_eq!(settings.ascii_width, 10);
    assert_eq!((settings.spacing, settings.line_spacing), (1, 0));
    assert_eq!((settings.origin_x, settings.origin_y), (4, 22));
    assert_eq!((settings.canvas_width, settings.canvas_height), (180, 96));
    assert_eq!(settings.glyph_color, Color::rgb(54, 187, 128));
    assert_eq!(settings.layout_mode, LayoutMode::Proportional);
    assert_eq!(settings.alignment, AlignmentChoice::TopLeft);
}

#[test]
fn sanitized_settings_are_clamped_into_range() {
    let mut settings = SimulatorSettings::default();
    settings.collection_index = 20;
    settings.font_size = 200;
    settings.ascii_width = 0;
    settings.spacing = -100;
    settings.line_spacing = 100;
    settings.origin_x = 1000;
    settings.origin_y = -1000;
    settings.canvas_width = 1;
    settings.canvas_height = 10_000;
    let s = settings.sanitized();
    assert_eq!(s.collection_index, 8);
    assert_eq!(s.font_size, 96);
    assert_eq!(s.ascii_width, 1);
    assert_eq!((s.spacing, s.line_spacing), (-16, 64));
    assert_eq!((s.origin_x, s.origin_y), (240, -80));
    assert_eq!((s.canvas_width, s.canvas_height), (32, 240));

    let mut small = SimulatorSettings::default();
    small.font_size = 1;
    assert_eq!(small.sanitized().font_size, 4);
    assert_eq!(SimulatorSettings::default().sanitized().font_size, 18);
}

#[test]
fn overlays_list_cell_boxes_before_glyph_boxes() {
    let both = DebugOverlays { cell: true, glyph: true };
    assert!(both.has_any());
    assert_eq!(both.kinds(), vec![DebugBoxKind::Cell, DebugBoxKind::Glyph]);
    let glyph_only = DebugOverlays { cell: false, glyph: true };
    assert_eq!(glyph_only.kinds(), vec![DebugBoxKind::Glyph]);
    let none = DebugOverlays::none();
    assert!(!none.has_any());
    assert!(none.kinds().is_empty());
    assert_eq!(debug_box_color(DebugBoxKind::Cell), Color::rgb(72, 166, 255));
    assert_eq!(debug_box_color(DebugBoxKind::Glyph), Color::rgb(233, 96, 154));
}

#[test]
fn alignment_choices_name_and_build_alignments() {
    assert_eq!(AlignmentChoice::BottomCenter.code_name(), "BOTTOM_CENTER");
    assert_eq!(AlignmentChoice::Center.code_name(), "CENTER");
    assert_eq!(AlignmentChoice::TopLeft.to_glyph_cell_alignment(), Alignment::top_left());
    assert_eq!(AlignmentChoice::MiddleRight.to_glyph_cell_alignment(), Alignment::middle_right());
}

#[test]
fn parses_typed_y_offset_tweaks() {
    let tweaks = parse_y_offset_tweaks("g: -1\n  'A' : +2,, \n\n , \r\n", "Ag").unwrap();
    assert_eq!(tweaks, vec![('g', -1), ('A', 2)]);
    assert_eq!(parse_y_offset_tweaks("", "A").unwrap(), vec![]);
    assert_eq!(parse_y_offset_tweaks("':': 1", "':"), Err(TweakError::BadValue(1, IntErrorKind::InvalidDigit)));
    assert_eq!(parse_y_offset_tweaks("''': 3", "'"), Ok(vec![('\'', 3)]));
}

#[test]
fn reports_each_tweak_problem() {
    assert_eq!(parse_y_offset_tweaks("A: 1\nB 2", "AB"), Err(TweakError::MissingColon(2)));
    assert_eq!(parse_y_offset_tweaks("'': 1", "A"), Err(TweakError::EmptyChar(1)));
    assert_eq!(parse_y_offset_tweaks("AB: 1", "AB"), Err(TweakError::ManyChars(1)));
    assert_eq!(parse_y_offset_tweaks("Z: 1", "AB"), Err(TweakError::NotInIndex('Z')));
    assert_eq!(parse_y_offset_tweaks("A: 1\nA: 2", "AB"), Err(TweakError::Duplicate('A')));
    assert_eq!(parse_y_offset_tweaks("A:", "A"), Err(TweakError::BadValue(1, IntErrorKind::Empty)));
    assert_eq!(parse_y_offset_tweaks("A: -", "A"), Err(TweakError::BadValue(1, IntErrorKind::InvalidDigit)));
    assert_eq!(parse_y_offset_tweaks("A: 1x", "A"), Err(TweakError::BadValue(1, IntErrorKind::InvalidDigit)));
    assert_eq!(parse_y_offset_tweaks("A: 32768", "A"), Err(TweakError::BadValue(1, IntErrorKind::PosOverflow)));
    assert_eq!(parse_y_offset_tweaks("A: -32769", "A"), Err(TweakError::BadValue(1, IntErrorKind::NegOverflow)));
    assert_eq!(parse_y_offset_tweaks("A: -32768", "A"), Ok(vec![('A', i16::MIN)]));
}

#[test]
fn applies_tweaks_to_first_occurrence_and_saturates() {
    let mut glyphs = vec![glyph(3), glyph(i16::MAX), glyph(5)];
    apply_y_offset_tweaks(&mut glyphs, "ABA", "A: -2\nB: 9").unwrap();
    assert_eq!(glyphs[0].y_offset, 1);
    assert_eq!(glyphs[1].y_offset, i16::MAX);
    assert_eq!(glyphs[2].y_offset, 5);

    let mut unchanged = vec![glyph(3)];
    assert_eq!(apply_y_offset_tweaks(&mut unchanged, "A", "A 1"), Err(TweakError::MissingColon(1)));
    assert_eq!(unchanged[0].y_offset, 3);
}

#[test]
fn preview_index_keeps_visible_characters_once() {
    assert_eq!(text(glyph_index_from_text("AWi\nmg\u{4f60}\u{597d}")), "AWimg\u{4f60}\u{597d}");
    assert_eq!(text(glyph_index_from_text("abcabc\t")), "abc");
    assert_eq!(text(glyph_index_from_text("")), "A");
    assert_eq!(text(glyph_index_from_text("\n\r\u{85}")), "A");
}

#[test]
fn system_fonts_rank_cjk_fonts_first() {
    assert_eq!(font_priority("NotoSansSC-Regular.otf"), 0);
    assert_eq!(font_priority("Noto Sans SC Bold.ttf"), 0);
    assert_eq!(font_priority("MSYH.TTC"), 1);
    assert_eq!(font_priority("simhei.ttf"), 1);
    assert_eq!(font_priority("Deng.ttf"), 2);
    assert_eq!(font_priority("NotoSerif.ttf"), 3);
    assert_eq!(font_priority("mingliu.ttc"), 3);
    assert_eq!(font_priority("Arial.ttf"), 10);
    assert!(is_font_extension("TTF"));
    assert!(is_font_extension("otf"));
    assert!(is_font_extension("tTc"));
    assert!(!is_font_extension("woff"));
    assert!(!is_font_extension(""));
}

#[test]
fn packs_non_zero_pixels_as_set_bits() {
    let mut out = vec![7];
    pack_mono_pixels(&[255, 0, 1, 0, 0, 0, 0, 0, 9], &mut out);
    assert_eq!(out, vec![7, 0b1010_0000, 0b1000_0000]);
    let mut empty = Vec::new();
    pack_mono_pixels(&[], &mut empty);
    assert!(empty.is_empty());
}

#[test]
fn rasterized_glyphs_become_unplaced_glyph_records() {
    let rasterized = RasterizedGlyph {
        width: 3,
        height: 4,
        x_min: -1,
        y_min: -2,
        y_offset: 2,
        advance_width: 5,
        bitmap: vec![0; 12],
    };
    let g = glyph_from_rasterized(&rasterized);
    assert_eq!(g.bitmap_offset, 0);
    assert_eq!((g.width, g.height, g.cell_width, g.x_offset), (3, 4, 0, 0));
    assert_eq!((g.y_offset, g.x_min, g.y_min, g.advance_width), (2, -1, -2, 5));
}

#[test]
fn fallback_font_holds_one_a() {
    let fallback = OwnedFontData::fallback();
    let font = fallback.as_font_data();
    assert_eq!(font.index, "A");
    assert_eq!(font.bpp, 1);
    assert_eq!(font.cell_width('A'), 5);
    assert_eq!(font.glyph('A').unwrap().advance_width, 6);
    assert_eq!(font.bitmap.len(), 5);
}

#[test]
fn frame_buffer_paints_inside_and_exports_rgba() {
    let mut frame = FrameBuffer::new(2, 2);
    assert_eq!(frame.pixel_index(Point::new(1, 1)), Some(3));
    assert_eq!(frame.pixel_index(Point::new(2, 0)), None);
    assert_eq!(frame.pixel_index(Point::new(-1, 0)), None);
    frame.set_pixel(Point::new(1, 0), Color::rgb(1, 2, 3));
    frame.draw_points(&vec![Point::new(0, 1), Point::new(5, 5)], Color::rgb(9, 9, 9));
    assert_eq!(frame.size().width, 2);
    assert_eq!(
        frame.into_rgba(),
        vec![0, 0, 0, 0, 1, 2, 3, 255, 9, 9, 9, 255, 0, 0, 0, 0]
    );
}

#[test]
fn example_code_shows_the_default_preview() {
    let settings = SimulatorSettings::default();
    let font = OwnedFontData::fallback();
    let code = text(example_code(&settings, &font, None));
    let expected = r#"use embedded_graphics_core::geometry::Point;
use embedded_graphics_core::pixelcolor::Rgb888;
use glyph_cell::{font_data, Alignment, DrawableText, FontData, TextStyle};

const FONT: FontData<'static> = font_data! {
    size: 18,
    ascii_width: 10,
    path: "path/to/font.ttf",
    index: "A",
};

let style = TextStyle::new(Rgb888::new(54, 187, 128))
    .proportional_with_line_spacing(1, 0)
    .align(Alignment::TOP_LEFT);

DrawableText::new(&FONT, "AWi\nmg你好", style)
    .at(Point::new(4, 22))
    .draw(&mut display)?;
"#;
    assert_eq!(code, expected);
}

#[test]
fn example_code_shows_path_tweaks_monospace_and_vertical_flow() {
    let mut settings = SimulatorSettings::default();
    settings.text = "Ag".to_owned();
    settings.layout_mode = LayoutMode::Monospace;
    settings.spacing = 0;
    settings.line_spacing = 0;
    settings.flow = FlowMode::Vertical;
    settings.alignment = AlignmentChoice::BottomRight;
    settings.glyph_y_offsets = "g: -1\nA: 2".to_owned();
    settings.origin_x = -3;
    let mut font = OwnedFontData::fallback();
    font.index = "Ag".to_owned();
    assert_eq!(
        text(example_y_offsets(&settings, "Ag")),
        "    y_offset: {\n        'g': -1,\n        'A': 2,\n    },\n"
    );
    let code = text(example_code(&settings, &font, Some("C:\\fonts\\a.ttf")));
    assert!(code.contains("    path: \"C:\\\\fonts\\\\a.ttf\",\n    index: \"Ag\",\n    y_offset: {\n"));
    assert!(code.contains("))\n    .monospace()\n    .align(Alignment::BOTTOM_RIGHT);"));
    assert!(code.contains("style)\n    .vertical()\n    .at(Point::new(-3, 22))"));

    settings.spacing = 2;
    settings.line_spacing = -1;
    let code = text(example_code(&settings, &font, None));
    assert!(code.contains("    .monospace_with_spacing(2, -1)\n"));

    settings.glyph_y_offsets = "bad".to_owned();
    assert!(example_y_offsets(&settings, "Ag").is_empty());
}

#[test]
fn prepares_and_places_preview_font_from_rasterized_glyphs() {
    let raw = |width: u16, height: u16, y_offset: i16| Glyph {
        bitmap_offset: 0,
        width,
        height,
        cell_width: 0,
        x_offset: 0,
        y_offset,
        x_min: 0,
        y_min: 0,
        advance_width: width,
    };
    let glyphs = vec![raw(2, 2, 3), raw(4, 4, 4)];
    let bitmaps = vec![vec![255, 0, 0, 255], vec![255; 16]];
    let prepared = prepare_preview_font(4, "A\u{4f60}", "A: 1", glyphs.clone(), bitmaps.clone()).unwrap();
    let (font, clipped) = place_font_data(&prepared, 3);
    assert_eq!(font.index, "A\u{4f60}");
    assert_eq!((font.size, font.ascii_width), (4, 3));
    assert_eq!(font.bitmap, vec![0b1001_0000, 0xff, 0xff]);
    assert_eq!((font.glyphs[0].cell_width, font.glyphs[0].x_offset, font.glyphs[0].y_offset), (3, 0, 4));
    assert_eq!((font.glyphs[1].cell_width, font.glyphs[1].bitmap_offset), (4, 1));
    assert!(clipped.is_empty());

    // A wider ASCII cell centers the same glyph; nothing is rasterized again.
    let (wide, clipped) = place_font_data(&prepared, 6);
    assert_eq!((wide.ascii_width, wide.glyphs[0].cell_width, wide.glyphs[0].x_offset), (6, 6, 2));
    assert_eq!(wide.bitmap, font.bitmap);
    assert!(clipped.is_empty());

    let prepared = prepare_preview_font(4, "A\u{4f60}", "A: 3", glyphs.clone(), bitmaps.clone()).unwrap();
    let (font, clipped) = place_font_data(&prepared, 3);
    assert_eq!(clipped, vec!['A']);
    assert_eq!(font.glyphs[0].height, 0);
    assert_eq!(font.glyphs[1].bitmap_offset, 0);
    assert_eq!(place_font_data(&prepared, 9).1, vec!['A']);

    assert_eq!(
        prepare_preview_font(4, "A\u{4f60}", "B: 1", glyphs, bitmaps).err(),
        Some(TweakError::NotInIndex('B'))
    );
}

#[test]
fn render_response_uses_fallback_when_no_font_path_is_selected() {
    let mut settings = SimulatorSettings::default();
    settings.font_source = FontSource::Custom;
    settings.custom_font_path = String::new();
    let mut cache = FontCache::default();

    // An empty custom path selects no font: the cache reports it and the
    // preview keeps drawing the fallback font.
    assert_eq!(settings.custom_font_path_chars(), None);
    assert_eq!(cache.action(None), FontCacheAction::ReportNoPath);
    cache.record_no_path();
    let (font, clipped) = cache.preview_data(settings.ascii_width as u16);
    let font_data = font.as_font_data();
    let text = drawable_text(&settings, &font_data, settings.glyph_color);
    assert!(text.can_draw());
    let mut frame = FrameBuffer::new(settings.canvas_width, settings.canvas_height);
    frame.draw_points(&text.draw(), settings.glyph_color);

    assert_eq!(frame.into_rgba().len(), (settings.canvas_width * settings.canvas_height * 4) as usize);
    assert_eq!(cache.error.as_deref(), Some("No font path selected"));
    assert_eq!(font.index, "A");
    assert!(clipped.is_empty());

    settings.custom_font_path = "  fonts/a.ttf \n".to_owned();
    assert_eq!(settings.custom_font_path_chars(), Some("fonts/a.ttf".chars().collect()));
}
