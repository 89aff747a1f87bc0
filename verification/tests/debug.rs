use embedded_graphics::draw_target::DrawTarget;
use embedded_graphics::geometry::Point as EgPoint;
use embedded_graphics::mock_display::MockDisplay;
use embedded_graphics::pixelcolor::BinaryColor;
use embedded_graphics::Pixel;
use glyph_cell::{Alignment, DrawableText, FontData, Glyph, Point, TextStyle};

const FONT: FontData<'static> = FontData {
    index: "ABg",
    size: 5,
    ascii_width: 4,
    bpp: 1,
    bitmap: &BITMAP,
    glyphs: &GLYPHS,
};

const GLYPHS: [Glyph; 3] = [
    Glyph {
        bitmap_offset: 0,
        width: 3,
        height: 5,
        cell_width: 4,
        x_offset: 1,
        y_offset: 5,
        x_min: 0,
        y_min: 0,
        advance_width: 4,
    },
    Glyph {
        bitmap_offset: 2,
        width: 3,
        height: 5,
        cell_width: 4,
        x_offset: 1,
        y_offset: 5,
        x_min: 0,
        y_min: 0,
        advance_width: 5,
    },
    Glyph {
        bitmap_offset: 4,
        width: 1,
        height: 1,
        cell_width: 4,
        x_offset: 2,
        y_offset: 1,
        x_min: 0,
        y_min: 0,
        advance_width: 2,
    },
];

const BITMAP: [u8; 5] = [0b01010111, 0b11011010, 0b11010111, 0b01011100, 0b10000000];

fn monospace() -> TextStyle<BinaryColor> {
    TextStyle::new(BinaryColor::On)
        .monospace()
        .align(Alignment::top_left())
}

fn proportional(spacing: i32) -> TextStyle<BinaryColor> {
    TextStyle::new(BinaryColor::On)
        .proportional(spacing)
        .align(Alignment::top_left())
}

fn show(points: &[Point], display: &mut MockDisplay<BinaryColor>) {
    display
        .draw_iter(
            points
                .iter()
                .map(|p| Pixel(EgPoint::new(p.x, p.y), BinaryColor::On)),
        )
        .unwrap();
}

#[test]
fn draws_monospace_cell_debug_box_from_generated_cell() {
    let mut display = MockDisplay::<BinaryColor>::new();
    display.set_allow_overdraw(true);
    let text = DrawableText::new(&FONT, "A", monospace());

    show(&text.draw_cell_boxes(), &mut display);

    display.assert_pattern(&["####", "#  #", "#  #", "#  #", "####"]);
}

#[test]
fn draws_proportional_cell_debug_boxes_from_actual_widths() {
    let mut display = MockDisplay::<BinaryColor>::new();
    display.set_allow_overdraw(true);
    let text = DrawableText::new(&FONT, "AB", proportional(1));

    show(&text.draw_cell_boxes(), &mut display);

    display.assert_pattern(&["### ###", "# # # #", "# # # #", "# # # #", "### ###"]);
}

#[test]
fn draws_proportional_glyph_debug_box() {
    let mut display = MockDisplay::<BinaryColor>::new();
    display.set_allow_overdraw(true);
    let text = DrawableText::new(&FONT, "A", proportional(0));

    show(&text.draw_glyph_boxes(), &mut display);

    display.assert_pattern(&["###", "# #", "# #", "# #", "###"]);
}

#[test]
fn draws_vertical_proportional_glyph_boxes_upright() {
    let mut display = MockDisplay::<BinaryColor>::new();
    display.set_allow_overdraw(true);
    let text = DrawableText::new(&FONT, "Ag", proportional(1)).vertical();

    show(&text.draw_glyph_boxes(), &mut display);

    display.assert_pattern(&[
        "###", "# #", "# #", "# #", "###", "   ", "   ", "   ", "   ", "   ", "#  ",
    ]);
}
