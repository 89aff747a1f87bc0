//! The preview simulator's model: its settings and how they are kept in
//! range, the choices it offers, the frame it renders into, and the
//! font index and vertical tweaks it derives from what the user typed.

use vstd::prelude::*;

use crate::blocks::{codepoints, tweak_fold};
use crate::debug::DebugBoxKind;
use crate::emit::{pack_pixels, packed_bytes, sample_of, stream_bit};
use crate::font::{bit_of, first_index_of, lemma_first_index_of, FontData, Glyph};
use crate::geometry::{max_int, min_int, offset_i16_i32, sat_i16, str_chars};
use crate::geometry::{Point, Size};
use crate::layout::{split_lines, split_lines_exec};
use crate::preview::{
    apply_auto_y_offsets, apply_cell_offsets, fit_glyph_to_cell, preview_auto_adjusted, preview_clip_plan,
    preview_fit_glyph, preview_fit_pixels, preview_placed, vertically_clipped,
};
use crate::raster::{
    clip_is_identity, copied_pixels, lemma_clip_reads_full_bitmap, rasterized_glyph, shifted, slot_convertible, spec_advance_width_pixels, stored_side, BitmapGlyph,
    GlyphSlot,
};
use crate::layout::TextFlow;
use crate::style::{Alignment, TextLayout, TextStyle};
use crate::text::DrawableText;
use crate::writer::{
    debug_char_literal, debug_str_literal, decimal, push_char_literal, push_chars, push_decimal, push_str,
    push_string_literal,
};

verus! {

/// An RGB color.
#[derive(Debug, Clone, Copy, PartialEq, Eq, Structural)]
pub struct Color {
    pub r: u8,
    pub g: u8,
    pub b: u8,
}

impl Color {
    pub fn rgb(r: u8, g: u8, b: u8) -> (c: Color)
        ensures
            c == (Color { r, g, b }),
    {
        Color { r, g, b }
    }
}

/// Where the preview font comes from.
#[derive(Debug, Clone, Copy, PartialEq, Eq, Structural)]
pub enum FontSource {
    System,
    Custom,
}

/// The layout the preview uses.
#[derive(Debug, Clone, Copy, PartialEq, Eq, Structural)]
pub enum LayoutMode {
    Monospace,
    Proportional,
}

/// The direction the preview text flows in.
#[derive(Debug, Clone, Copy, PartialEq, Eq, Structural)]
pub enum FlowMode {
    Horizontal,
    Vertical,
}

/// Which debug boxes the preview draws over the text.
#[derive(Debug, Clone, Copy, PartialEq, Eq, Structural)]
pub struct DebugOverlays {
    pub cell: bool,
    pub glyph: bool,
}

impl DebugOverlays {
    pub fn none() -> (d: DebugOverlays)
        ensures
            !d.cell && !d.glyph,
    {
        DebugOverlays { cell: false, glyph: false }
    }

    /// Whether any box is drawn.
    pub fn has_any(self) -> (r: bool)
        ensures
            r == (self.cell || self.glyph),
    {
        self.cell || self.glyph
    }

    /// The model of [`DebugOverlays::kinds`].
    pub open spec fn spec_kinds(self) -> Seq<DebugBoxKind> {
        let cells = if self.cell { seq![DebugBoxKind::Cell] } else { Seq::empty() };
        let glyphs = if self.glyph { seq![DebugBoxKind::Glyph] } else { Seq::empty() };
        cells + glyphs
    }

    /// The kinds of box drawn, cell boxes first.
    pub fn kinds(self) -> (r: Vec<DebugBoxKind>)
        ensures
            r@ == self.spec_kinds(),
    {
        let mut kinds: Vec<DebugBoxKind> = Vec::new();
        if self.cell {
            kinds.push(DebugBoxKind::Cell);
        }
        if self.glyph {
            kinds.push(DebugBoxKind::Glyph);
        }
        assert(kinds@ =~= self.spec_kinds());
        kinds
    }
}

/// The color a debug box is drawn in.
pub open spec fn spec_debug_box_color(kind: DebugBoxKind) -> Color {
    match kind {
        DebugBoxKind::Cell => Color { r: 72, g: 166, b: 255 },
        DebugBoxKind::Glyph => Color { r: 233, g: 96, b: 154 },
    }
}

/// The color a debug box is drawn in.
pub fn debug_box_color(kind: DebugBoxKind) -> (c: Color)
    ensures
        c == spec_debug_box_color(kind),
{
    match kind {
        DebugBoxKind::Cell => Color::rgb(72, 166, 255),
        DebugBoxKind::Glyph => Color::rgb(233, 96, 154),
    }
}

/// The nine alignments the preview offers.
#[derive(Debug, Clone, Copy, PartialEq, Eq, Structural)]
pub enum AlignmentChoice {
    TopLeft,
    TopCenter,
    TopRight,
    MiddleLeft,
    Center,
    MiddleRight,
    BottomLeft,
    BottomCenter,
    BottomRight,
}

impl AlignmentChoice {
    /// The name of the alignment constant that code uses for this choice.
    pub open spec fn spec_code_name(self) -> Seq<char> {
        match self {
            AlignmentChoice::TopLeft => "TOP_LEFT"@,
            AlignmentChoice::TopCenter => "TOP_CENTER"@,
            AlignmentChoice::TopRight => "TOP_RIGHT"@,
            AlignmentChoice::MiddleLeft => "MIDDLE_LEFT"@,
            AlignmentChoice::Center => "CENTER"@,
            AlignmentChoice::MiddleRight => "MIDDLE_RIGHT"@,
            AlignmentChoice::BottomLeft => "BOTTOM_LEFT"@,
            AlignmentChoice::BottomCenter => "BOTTOM_CENTER"@,
            AlignmentChoice::BottomRight => "BOTTOM_RIGHT"@,
        }
    }

    /// The name of the alignment constant that code uses for this choice.
    pub fn code_name(self) -> (r: &'static str)
        ensures
            r@ == self.spec_code_name(),
    {
        match self {
            AlignmentChoice::TopLeft => "TOP_LEFT",
            AlignmentChoice::TopCenter => "TOP_CENTER",
            AlignmentChoice::TopRight => "TOP_RIGHT",
            AlignmentChoice::MiddleLeft => "MIDDLE_LEFT",
            AlignmentChoice::Center => "CENTER",
            AlignmentChoice::MiddleRight => "MIDDLE_RIGHT",
            AlignmentChoice::BottomLeft => "BOTTOM_LEFT",
            AlignmentChoice::BottomCenter => "BOTTOM_CENTER",
            AlignmentChoice::BottomRight => "BOTTOM_RIGHT",
        }
    }

    /// The alignment this choice stands for.
    pub open spec fn spec_alignment(self) -> Alignment {
        match self {
            AlignmentChoice::TopLeft => Alignment::spec_top_left(),
            AlignmentChoice::TopCenter => Alignment::spec_top_center(),
            AlignmentChoice::TopRight => Alignment::spec_top_right(),
            AlignmentChoice::MiddleLeft => Alignment::spec_middle_left(),
            AlignmentChoice::Center => Alignment::spec_center(),
            AlignmentChoice::MiddleRight => Alignment::spec_middle_right(),
            AlignmentChoice::BottomLeft => Alignment::spec_bottom_left(),
            AlignmentChoice::BottomCenter => Alignment::spec_bottom_center(),
            AlignmentChoice::BottomRight => Alignment::spec_bottom_right(),
        }
    }

    /// The alignment this choice stands for.
    pub fn to_glyph_cell_alignment(self) -> (a: Alignment)
        ensures
            a == self.spec_alignment(),
    {
        match self {
            AlignmentChoice::TopLeft => Alignment::top_left(),
            AlignmentChoice::TopCenter => Alignment::top_center(),
            AlignmentChoice::TopRight => Alignment::top_right(),
            AlignmentChoice::MiddleLeft => Alignment::middle_left(),
            AlignmentChoice::Center => Alignment::center(),
            AlignmentChoice::MiddleRight => Alignment::middle_right(),
            AlignmentChoice::BottomLeft => Alignment::bottom_left(),
            AlignmentChoice::BottomCenter => Alignment::bottom_center(),
            AlignmentChoice::BottomRight => Alignment::bottom_right(),
        }
    }
}

/// The preview's settings (the zoom factor, a float, is the front end's).
pub struct SimulatorSettings {
    pub text: String,
    pub layout_mode: LayoutMode,
    pub flow: FlowMode,
    pub alignment: AlignmentChoice,
    pub debug_overlays: DebugOverlays,
    pub font_source: FontSource,
    pub selected_system_font: usize,
    pub custom_font_path: String,
    pub collection_index: u32,
    pub font_size: u16,
    pub ascii_width: u32,
    pub spacing: i32,
    pub line_spacing: i32,
    pub glyph_y_offsets: String,
    pub origin_x: i32,
    pub origin_y: i32,
    pub canvas_width: u32,
    pub canvas_height: u32,
    pub glyph_color: Color,
}

/// `v` clamped to `lo..=hi`.
pub open spec fn clamp_to(v: int, lo: int, hi: int) -> int {
    max_int(lo, min_int(v, hi))
}

fn clamp_u32(v: u32, lo: u32, hi: u32) -> (r: u32)
    requires
        lo <= hi,
    ensures
        r == clamp_to(v as int, lo as int, hi as int),
{
    if v < lo {
        lo
    } else if v > hi {
        hi
    } else {
        v
    }
}

fn clamp_i32(v: i32, lo: i32, hi: i32) -> (r: i32)
    requires
        lo <= hi,
    ensures
        r == clamp_to(v as int, lo as int, hi as int),
{
    if v < lo {
        lo
    } else if v > hi {
        hi
    } else {
        v
    }
}

impl Default for SimulatorSettings {
    /// The settings the preview starts with.
    fn default() -> (s: SimulatorSettings)
        ensures
            s.text@ == "AWi\nmg\u{4f60}\u{597d}"@,
            s.layout_mode == LayoutMode::Proportional,
            s.flow == FlowMode::Horizontal,
            s.alignment == AlignmentChoice::TopLeft,
            !s.debug_overlays.cell && !s.debug_overlays.glyph,
            s.font_source == FontSource::System,
            s.selected_system_font == 0,
            s.custom_font_path@ == Seq::<char>::empty(),
            s.collection_index == 0,
            s.font_size == 18,
            s.ascii_width == 10,
            s.spacing == 1,
            s.line_spacing == 0,
            s.glyph_y_offsets@ == Seq::<char>::empty(),
            s.origin_x == 4,
            s.origin_y == 22,
            s.canvas_width == 180,
            s.canvas_height == 96,
            s.glyph_color == (Color { r: 54, g: 187, b: 128 }),
    {
        SimulatorSettings {
            text: "AWi\nmg\u{4f60}\u{597d}".to_owned(),
            layout_mode: LayoutMode::Proportional,
            flow: FlowMode::Horizontal,
            alignment: AlignmentChoice::TopLeft,
            debug_overlays: DebugOverlays::none(),
            font_source: FontSource::System,
            selected_system_font: 0,
            custom_font_path: String::new(),
            collection_index: 0,
            font_size: 18,
            ascii_width: 10,
            spacing: 1,
            line_spacing: 0,
            glyph_y_offsets: String::new(),
            origin_x: 4,
            origin_y: 22,
            canvas_width: 180,
            canvas_height: 96,
            glyph_color: Color::rgb(54, 187, 128),
        }
    }
}

impl SimulatorSettings {
    /// The typed font file path without surrounding whitespace; none when
    /// nothing but whitespace was typed.
    pub fn custom_font_path_chars(&self) -> (r: Option<Vec<char>>)
        ensures
            match r {
                Some(p) => p@ == trim(self.custom_font_path@) && p@.len() > 0,
                None => trim(self.custom_font_path@).len() == 0,
            },
    {
        let trimmed = trim_chars(&str_chars(self.custom_font_path.as_str()));
        if trimmed.len() == 0 {
            None
        } else {
            Some(trimmed)
        }
    }

    /// Whether the numeric settings lie in the ranges the preview keeps
    /// them in.
    pub open spec fn in_range(&self) -> bool {
        &&& self.collection_index <= 8
        &&& 4 <= self.font_size <= 96
        &&& 1 <= self.ascii_width <= 128
        &&& -16 <= self.spacing <= 48
        &&& -16 <= self.line_spacing <= 64
        &&& -80 <= self.origin_x <= 240
        &&& -80 <= self.origin_y <= 180
        &&& 32 <= self.canvas_width <= 360
        &&& 24 <= self.canvas_height <= 240
    }

    /// The settings with each number clamped into its range: the
    /// collection index to at most 8, the font size to 4..=96, the ASCII
    /// width to 1..=128, the spacing to -16..=48, the line spacing to
    /// -16..=64, the origin to -80..=240 by -80..=180 and the canvas to
    /// 32..=360 by 24..=240. Everything else is kept.
    pub fn sanitized(self) -> (s: SimulatorSettings)
        ensures
            s.collection_index == min_int(self.collection_index as int, 8),
            s.font_size == clamp_to(self.font_size as int, 4, 96),
            s.ascii_width == clamp_to(self.ascii_width as int, 1, 128),
            s.spacing == clamp_to(self.spacing as int, -16, 48),
            s.line_spacing == clamp_to(self.line_spacing as int, -16, 64),
            s.origin_x == clamp_to(self.origin_x as int, -80, 240),
            s.origin_y == clamp_to(self.origin_y as int, -80, 180),
            s.canvas_width == clamp_to(self.canvas_width as int, 32, 360),
            s.canvas_height == clamp_to(self.canvas_height as int, 24, 240),
            s.text == self.text,
            s.layout_mode == self.layout_mode,
            s.flow == self.flow,
            s.alignment == self.alignment,
            s.debug_overlays == self.debug_overlays,
            s.font_source == self.font_source,
            s.selected_system_font == self.selected_system_font,
            s.custom_font_path == self.custom_font_path,
            s.glyph_y_offsets == self.glyph_y_offsets,
            s.glyph_color == self.glyph_color,
            s.in_range(),
    {
        let mut s = self;
        s.collection_index = if s.collection_index < 8 { s.collection_index } else { 8 };
        s.font_size = clamp_u32(s.font_size as u32, 4, 96) as u16;
        s.ascii_width = clamp_u32(s.ascii_width, 1, 128);
        s.spacing = clamp_i32(s.spacing, -16, 48);
        s.line_spacing = clamp_i32(s.line_spacing, -16, 64);
        s.origin_x = clamp_i32(s.origin_x, -80, 240);
        s.origin_y = clamp_i32(s.origin_y, -80, 180);
        s.canvas_width = clamp_u32(s.canvas_width, 32, 360);
        s.canvas_height = clamp_u32(s.canvas_height, 24, 240);
        s
    }
}

// ---------------------------------------------------------------------------
// Text helpers.
// ---------------------------------------------------------------------------

/// Whether `c` has the Unicode `White_Space` property.
pub open spec fn is_whitespace(c: char) -> bool {
    ||| '\u{9}' <= c <= '\u{d}'
    ||| c == ' '
    ||| c == '\u{85}'
    ||| c == '\u{a0}'
    ||| c == '\u{1680}'
    ||| '\u{2000}' <= c <= '\u{200a}'
    ||| c == '\u{2028}'
    ||| c == '\u{2029}'
    ||| c == '\u{202f}'
    ||| c == '\u{205f}'
    ||| c == '\u{3000}'
}

/// Whether `c` has the Unicode `White_Space` property.
pub fn char_is_whitespace(c: char) -> (r: bool)
    ensures
        r == is_whitespace(c),
{
    (c >= '\u{9}' && c <= '\u{d}') || c == ' ' || c == '\u{85}' || c == '\u{a0}' || c == '\u{1680}'
        || (c >= '\u{2000}' && c <= '\u{200a}') || c == '\u{2028}' || c == '\u{2029}' || c
        == '\u{202f}' || c == '\u{205f}' || c == '\u{3000}'
}

/// `s` without its leading whitespace.
pub open spec fn trim_start(s: Seq<char>) -> Seq<char>
    decreases s.len(),
{
    if s.len() > 0 && is_whitespace(s[0]) {
        trim_start(s.drop_first())
    } else {
        s
    }
}

/// `s` without its trailing whitespace.
pub open spec fn trim_end(s: Seq<char>) -> Seq<char>
    decreases s.len(),
{
    if s.len() > 0 && is_whitespace(s.last()) {
        trim_end(s.drop_last())
    } else {
        s
    }
}

/// `s` without leading and trailing whitespace.
pub open spec fn trim(s: Seq<char>) -> Seq<char> {
    trim_end(trim_start(s))
}

/// `s` without its trailing commas.
pub open spec fn trim_end_commas(s: Seq<char>) -> Seq<char>
    decreases s.len(),
{
    if s.len() > 0 && s.last() == ',' {
        trim_end_commas(s.drop_last())
    } else {
        s
    }
}

fn slice_chars(s: &Vec<char>, from: usize, to: usize) -> (r: Vec<char>)
    requires
        from <= to <= s@.len(),
    ensures
        r@ == s@.subrange(from as int, to as int),
{
    let mut out: Vec<char> = Vec::new();
    let mut i = from;
    while i < to
        invariant
            from <= i <= to <= s@.len(),
            out@ == s@.subrange(from as int, i as int),
        decreases to - i,
    {
        out.push(s[i]);
        i = i + 1;
        assert(out@ =~= s@.subrange(from as int, i as int));
    }
    out
}

/// `s` without leading and trailing whitespace.
pub fn trim_chars(s: &Vec<char>) -> (r: Vec<char>)
    ensures
        r@ == trim(s@),
{
    let mut a: usize = 0;
    assert(s@.skip(0) =~= s@);
    while a < s.len() && char_is_whitespace(s[a])
        invariant
            a <= s@.len(),
            trim_start(s@) == trim_start(s@.skip(a as int)),
        decreases s@.len() - a,
    {
        assert(s@.skip(a as int).drop_first() =~= s@.skip(a as int + 1));
        a = a + 1;
    }
    let mut b: usize = s.len();
    assert(s@.skip(a as int) =~= s@.subrange(a as int, b as int));
    assert(trim_start(s@.skip(a as int)) == s@.skip(a as int));
    while b > a && char_is_whitespace(s[b - 1])
        invariant
            a <= b <= s@.len(),
            trim_start(s@) == s@.subrange(a as int, s@.len() as int),
            trim(s@) == trim_end(s@.subrange(a as int, b as int)),
        decreases b - a,
    {
        assert(s@.subrange(a as int, b as int).drop_last() =~= s@.subrange(a as int, b - 1));
        b = b - 1;
    }
    slice_chars(s, a, b)
}

/// `s` without its trailing commas.
pub fn trim_end_commas_chars(s: &Vec<char>) -> (r: Vec<char>)
    ensures
        r@ == trim_end_commas(s@),
{
    let mut b: usize = s.len();
    assert(s@ =~= s@.take(b as int));
    while b > 0 && s[b - 1] == ','
        invariant
            b <= s@.len(),
            trim_end_commas(s@) == trim_end_commas(s@.take(b as int)),
        decreases b,
    {
        assert(s@.take(b as int).drop_last() =~= s@.take(b - 1));
        b = b - 1;
    }
    slice_chars(s, 0, b)
}

// ---------------------------------------------------------------------------
// Vertical tweaks typed into the preview.
// ---------------------------------------------------------------------------

/// Why an integer does not parse.
#[derive(Debug, Clone, Copy, PartialEq, Eq, Structural)]
pub enum IntErrorKind {
    /// Nothing to parse.
    Empty,
    /// A character that is not a digit (or a sign alone).
    InvalidDigit,
    /// Above the largest value.
    PosOverflow,
    /// Below the smallest value.
    NegOverflow,
}

/// A problem with the vertical tweaks typed into the preview; line
/// numbers start at 1.
#[derive(Debug, Clone, Copy, PartialEq, Eq, Structural)]
pub enum TweakError {
    /// A non-empty line without a colon.
    MissingColon(usize),
    /// No character before the colon.
    EmptyChar(usize),
    /// More than one character before the colon.
    ManyChars(usize),
    /// The character is not in the preview index.
    NotInIndex(char),
    /// The character was tweaked on an earlier line.
    Duplicate(char),
    /// The value does not parse as an `i16`.
    BadValue(usize, IntErrorKind),
}

/// Whether `c` is an ASCII digit.
pub open spec fn is_digit(c: char) -> bool {
    '0' <= c <= '9'
}

/// Reading the first `k` digits of `d`, accumulating away from zero in
/// the direction of the sign; the first bad digit or overflow stops it.
pub open spec fn digit_fold(d: Seq<char>, negative: bool, k: nat) -> Result<int, IntErrorKind>
    decreases k,
{
    if k == 0 {
        Ok(0)
    } else {
        match digit_fold(d, negative, (k - 1) as nat) {
            Err(e) => Err(e),
            Ok(v) => if !is_digit(d[k - 1]) {
                Err(IntErrorKind::InvalidDigit)
            } else {
                let digit = d[k - 1] as int - '0' as int;
                let w = if negative { v * 10 - digit } else { v * 10 + digit };
                if w > i16::MAX {
                    Err(IntErrorKind::PosOverflow)
                } else if w < i16::MIN {
                    Err(IntErrorKind::NegOverflow)
                } else {
                    Ok(w)
                }
            },
        }
    }
}

/// An `i16` written in base 10 with an optional sign.
pub open spec fn spec_parse_i16(s: Seq<char>) -> Result<i16, IntErrorKind> {
    if s.len() == 0 {
        Err(IntErrorKind::Empty)
    } else {
        let negative = s[0] == '-';
        let signed = negative || s[0] == '+';
        let digits = if signed { s.drop_first() } else { s };
        if signed && digits.len() == 0 {
            Err(IntErrorKind::InvalidDigit)
        } else {
            match digit_fold(digits, negative, digits.len()) {
                Err(e) => Err(e),
                Ok(v) => Ok(v as i16),
            }
        }
    }
}

proof fn lemma_digit_fold_err_stays(d: Seq<char>, negative: bool, j: nat, k: nat)
    requires
        j <= k <= d.len(),
        digit_fold(d, negative, j) is Err,
    ensures
        digit_fold(d, negative, k) == digit_fold(d, negative, j),
    decreases k,
{
    if j < k {
        lemma_digit_fold_err_stays(d, negative, j, (k - 1) as nat);
    }
}

proof fn lemma_digit_fold_range(d: Seq<char>, negative: bool, k: nat)
    requires
        k <= d.len(),
    ensures
        digit_fold(d, negative, k) matches Ok(v) ==> i16::MIN <= v <= i16::MAX,
    decreases k,
{
    if k > 0 {
        lemma_digit_fold_range(d, negative, (k - 1) as nat);
    }
}

/// An `i16` written in base 10 with an optional sign.
pub fn parse_i16_text(s: &Vec<char>) -> (r: Result<i16, IntErrorKind>)
    ensures
        r == spec_parse_i16(s@),
{
    if s.len() == 0 {
        return Err(IntErrorKind::Empty);
    }
    let negative = s[0] == '-';
    let signed = negative || s[0] == '+';
    let start: usize = if signed { 1 } else { 0 };
    if signed && s.len() == 1 {
        return Err(IntErrorKind::InvalidDigit);
    }
    let ghost digits = if signed { s@.drop_first() } else { s@ };
    let mut value: i32 = 0;
    let mut i = start;
    while i < s.len()
        invariant
            start <= i <= s@.len(),
            start == (if signed { 1usize } else { 0usize }),
            s@.len() > 0,
            negative == (s@[0] == '-'),
            signed == (negative || s@[0] == '+'),
            digits == (if signed { s@.drop_first() } else { s@ }),
            digits.len() > 0,
            digits == s@.skip(start as int),
            digit_fold(digits, negative, (i - start) as nat) == Ok::<int, IntErrorKind>(value as int),
            i16::MIN <= value <= i16::MAX,
        decreases s@.len() - i,
    {
        let c = s[i];
        assert(digits[i - start] == c);
        if c < '0' || c > '9' {
            proof {
                lemma_digit_fold_err_stays(digits, negative, (i - start + 1) as nat, digits.len());
            }
            return Err(IntErrorKind::InvalidDigit);
        }
        let digit = (c as u32 - '0' as u32) as i32;
        let w = if negative { value * 10 - digit } else { value * 10 + digit };
        if w > i16::MAX as i32 {
            proof {
                lemma_digit_fold_err_stays(digits, negative, (i - start + 1) as nat, digits.len());
            }
            return Err(IntErrorKind::PosOverflow);
        }
        if w < i16::MIN as i32 {
            proof {
                lemma_digit_fold_err_stays(digits, negative, (i - start + 1) as nat, digits.len());
            }
            return Err(IntErrorKind::NegOverflow);
        }
        value = w;
        i = i + 1;
    }
    assert(digits.len() == s@.len() - start);
    Ok(value as i16)
}

/// The character of a tweak line: the text before the colon, trimmed and
/// with one pair of enclosing single quotes removed; it must be exactly
/// one character.
pub open spec fn spec_parse_y_offset_char(input: Seq<char>, line: usize) -> Result<char, TweakError> {
    let text = trim(input);
    let stripped = if text.len() >= 2 && text[0] == '\'' && text.last() == '\'' {
        text.subrange(1, text.len() - 1)
    } else {
        text
    };
    if stripped.len() == 0 {
        Err(TweakError::EmptyChar(line))
    } else if stripped.len() > 1 {
        Err(TweakError::ManyChars(line))
    } else {
        Ok(stripped[0])
    }
}

/// The character of a tweak line.
pub fn parse_y_offset_char(input: &Vec<char>, line: usize) -> (r: Result<char, TweakError>)
    ensures
        r == spec_parse_y_offset_char(input@, line),
{
    let text = trim_chars(input);
    let stripped = if text.len() >= 2 && text[0] == '\'' && text[text.len() - 1] == '\'' {
        slice_chars(&text, 1, text.len() - 1)
    } else {
        text
    };
    if stripped.len() == 0 {
        Err(TweakError::EmptyChar(line))
    } else if stripped.len() > 1 {
        Err(TweakError::ManyChars(line))
    } else {
        Ok(stripped[0])
    }
}

/// Whether `c` is among the characters tweaked already.
pub open spec fn tweak_seen(acc: Seq<(char, i16)>, c: char) -> bool {
    exists|i: int| 0 <= i < acc.len() && acc[i].0 == c
}

/// Reading tweak line number `n` (`raw`, before trimming) with `acc` read
/// already. Blank lines and lines of commas are skipped; otherwise the
/// line must hold a colon, a character of the index not tweaked yet before
/// it and an `i16` after it.
pub open spec fn tweak_line(raw: Seq<char>, n: usize, index: Seq<char>, acc: Seq<(char, i16)>) -> Result<Seq<(char, i16)>, TweakError> {
    let line = trim_end_commas(trim(raw));
    if line.len() == 0 {
        Ok(acc)
    } else {
        match first_index_of(line, ':') {
            None => Err(TweakError::MissingColon(n)),
            Some(i) => match spec_parse_y_offset_char(trim(line.take(i)), n) {
                Err(e) => Err(e),
                Ok(c) => if !index.contains(c) {
                    Err(TweakError::NotInIndex(c))
                } else if tweak_seen(acc, c) {
                    Err(TweakError::Duplicate(c))
                } else {
                    match spec_parse_i16(trim_end_commas(trim(line.skip(i + 1)))) {
                        Err(kind) => Err(TweakError::BadValue(n, kind)),
                        Ok(v) => Ok(acc.push((c, v))),
                    }
                },
            },
        }
    }
}

/// Reading the first `k` lines.
pub open spec fn tweak_lines(lines: Seq<Seq<char>>, index: Seq<char>, k: nat) -> Result<Seq<(char, i16)>, TweakError>
    decreases k,
{
    if k == 0 {
        Ok(Seq::empty())
    } else {
        match tweak_lines(lines, index, (k - 1) as nat) {
            Err(e) => Err(e),
            Ok(acc) => tweak_line(lines[k - 1], k as usize, index, acc),
        }
    }
}

/// The vertical tweaks typed into the preview, one `char: pixels` per
/// line, checked against the preview index.
pub open spec fn spec_parse_y_offset_tweaks(input: Seq<char>, index: Seq<char>) -> Result<Seq<(char, i16)>, TweakError> {
    tweak_lines(split_lines(input), index, split_lines(input).len())
}

fn find_char(v: &Vec<char>, c: char) -> (r: Option<usize>)
    ensures
        match r {
            Some(i) => first_index_of(v@, c) == Some(i as int) && i < v@.len() && v@[i as int] == c,
            None => first_index_of(v@, c) is None,
        },
{
    proof {
        lemma_first_index_of(v@, c);
    }
    let ghost found = first_index_of(v@, c);
    let mut i: usize = 0;
    while i < v.len()
        invariant
            i <= v@.len(),
            forall|m: int| 0 <= m < i ==> v@[m] != c,
            found == first_index_of(v@, c),
            match found {
                Some(j) => 0 <= j < v@.len() && v@[j] == c && forall|m: int| 0 <= m < j ==> v@[m] != c,
                None => forall|m: int| 0 <= m < v@.len() ==> v@[m] != c,
            },
        decreases v@.len() - i,
    {
        if v[i] == c {
            return Some(i);
        }
        i = i + 1;
    }
    None
}

fn chars_contain(v: &Vec<char>, c: char) -> (r: bool)
    ensures
        r == v@.contains(c),
{
    proof {
        lemma_first_index_of(v@, c);
    }
    find_char(v, c).is_some()
}

fn tweak_listed(acc: &Vec<(char, i16)>, c: char) -> (r: bool)
    ensures
        r == tweak_seen(acc@, c),
{
    let mut i: usize = 0;
    while i < acc.len()
        invariant
            i <= acc@.len(),
            forall|m: int| 0 <= m < i ==> acc@[m].0 != c,
        decreases acc@.len() - i,
    {
        if acc[i].0 == c {
            return true;
        }
        i = i + 1;
    }
    false
}

proof fn lemma_tweak_lines_err_stays(lines: Seq<Seq<char>>, index: Seq<char>, j: nat, k: nat)
    requires
        j <= k <= lines.len(),
        tweak_lines(lines, index, j) is Err,
    ensures
        tweak_lines(lines, index, k) == tweak_lines(lines, index, j),
    decreases k,
{
    if j < k {
        lemma_tweak_lines_err_stays(lines, index, j, (k - 1) as nat);
    }
}

/// The vertical tweaks typed into the preview, checked against the
/// preview index.
pub fn parse_y_offset_tweaks(input: &str, index: &str) -> (r: Result<Vec<(char, i16)>, TweakError>)
    ensures
        r is Ok ==> spec_parse_y_offset_tweaks(input@, index@) == Ok::<Seq<(char, i16)>, TweakError>(r->Ok_0@),
        r is Err ==> spec_parse_y_offset_tweaks(input@, index@) == Err::<Seq<(char, i16)>, TweakError>(r->Err_0),
{
    let chars = str_chars(input);
    let index_chars = str_chars(index);
    let lines = split_lines_exec(&chars);
    let ghost ls = split_lines(input@);
    let mut offsets: Vec<(char, i16)> = Vec::new();
    let mut k: usize = 0;
    while k < lines.len()
        invariant
            chars@ == input@,
            index_chars@ == index@,
            ls == split_lines(input@),
            lines@.len() == ls.len(),
            forall|j: int| 0 <= j < lines@.len() ==> #[trigger] lines@[j]@ == ls[j],
            k <= lines@.len(),
            tweak_lines(ls, index@, k as nat) == Ok::<Seq<(char, i16)>, TweakError>(offsets@),
        decreases lines@.len() - k,
    {
        let n = k + 1;
        let trimmed = trim_chars(&lines[k]);
        let line = trim_end_commas_chars(&trimmed);
        assert(tweak_lines(ls, index@, n as nat) == tweak_line(ls[k as int], n, index@, offsets@));
        if line.len() > 0 {
            let colon = match find_char(&line, ':') {
                Some(i) => i,
                None => {
                    proof {
                        lemma_tweak_lines_err_stays(ls, index@, n as nat, ls.len());
                    }
                    return Err(TweakError::MissingColon(n));
                },
            };
            let before = slice_chars(&line, 0, colon);
            let trimmed_before = trim_chars(&before);
            assert(before@ =~= line@.take(colon as int));
            let c = match parse_y_offset_char(&trimmed_before, n) {
                Ok(c) => c,
                Err(e) => {
                    proof {
                        lemma_tweak_lines_err_stays(ls, index@, n as nat, ls.len());
                    }
                    return Err(e);
                },
            };
            if !chars_contain(&index_chars, c) {
                proof {
                    lemma_tweak_lines_err_stays(ls, index@, n as nat, ls.len());
                }
                return Err(TweakError::NotInIndex(c));
            }
            if tweak_listed(&offsets, c) {
                proof {
                    lemma_tweak_lines_err_stays(ls, index@, n as nat, ls.len());
                }
                return Err(TweakError::Duplicate(c));
            }
            let after = slice_chars(&line, colon + 1, line.len());
            assert(after@ =~= line@.skip(colon as int + 1));
            let value_text = trim_end_commas_chars(&trim_chars(&after));
            let delta = match parse_i16_text(&value_text) {
                Ok(v) => v,
                Err(kind) => {
                    proof {
                        lemma_tweak_lines_err_stays(ls, index@, n as nat, ls.len());
                    }
                    return Err(TweakError::BadValue(n, kind));
                },
            };
            offsets.push((c, delta));
        }
        k = n;
    }
    Ok(offsets)
}

proof fn lemma_tweak_lines_checked(lines: Seq<Seq<char>>, index: Seq<char>, k: nat)
    requires
        k <= lines.len(),
    ensures
        tweak_lines(lines, index, k) matches Ok(tweaks) ==> (forall|i: int| 0 <= i < tweaks.len() ==> index.contains(#[trigger] tweaks[i].0))
            && (forall|i: int, j: int| 0 <= i < j < tweaks.len() ==> tweaks[i].0 != tweaks[j].0),
    decreases k,
{
    if k > 0 {
        lemma_tweak_lines_checked(lines, index, (k - 1) as nat);
        if let Ok(acc) = tweak_lines(lines, index, (k - 1) as nat) {
            if let Ok(tweaks) = tweak_lines(lines, index, k) {
                if tweaks.len() > acc.len() {
                    assert forall|i: int, j: int| 0 <= i < j < tweaks.len() implies tweaks[i].0 != tweaks[j].0 by {
                        if j == acc.len() {
                            assert(tweaks[i] == acc[i]);
                        }
                    }
                }
            }
        }
    }
}

/// Tweaks that parse name characters of the index, each once.
pub proof fn law_parsed_tweaks_are_checked(input: Seq<char>, index: Seq<char>)
    requires
        spec_parse_y_offset_tweaks(input, index) is Ok,
    ensures
        forall|i: int| 0 <= i < spec_parse_y_offset_tweaks(input, index)->Ok_0.len()
            ==> index.contains(#[trigger] spec_parse_y_offset_tweaks(input, index)->Ok_0[i].0),
        forall|i: int, j: int| 0 <= i < j < spec_parse_y_offset_tweaks(input, index)->Ok_0.len()
            ==> spec_parse_y_offset_tweaks(input, index)->Ok_0[i].0 != spec_parse_y_offset_tweaks(input, index)->Ok_0[j].0,
{
    lemma_tweak_lines_checked(split_lines(input), index, split_lines(input).len());
}

/// Moving the glyph of the first occurrence of `t.0` in `index` (if it has
/// a glyph) by `t.1` rows, saturating.
pub open spec fn apply_tweak(glyphs: Seq<Glyph>, index: Seq<char>, t: (char, i16)) -> Seq<Glyph> {
    match first_index_of(index, t.0) {
        Some(p) => if p < glyphs.len() {
            glyphs.update(p, Glyph { y_offset: sat_i16(glyphs[p].y_offset + t.1) as i16, ..glyphs[p] })
        } else {
            glyphs
        },
        None => glyphs,
    }
}

/// Applying the first `k` tweaks in order.
pub open spec fn apply_tweaks(glyphs: Seq<Glyph>, index: Seq<char>, tweaks: Seq<(char, i16)>, k: nat) -> Seq<Glyph>
    decreases k,
{
    if k == 0 {
        glyphs
    } else {
        apply_tweak(apply_tweaks(glyphs, index, tweaks, (k - 1) as nat), index, tweaks[k - 1])
    }
}

/// Applies the vertical tweaks typed into the preview to the glyphs of the
/// preview index: each tweak moves the glyph of its character's first
/// occurrence. When the tweaks do not parse, nothing moves.
pub fn apply_y_offset_tweaks(glyphs: &mut [Glyph], index: &str, tweaks: &str) -> (r: Result<(), TweakError>)
    ensures
        match spec_parse_y_offset_tweaks(tweaks@, index@) {
            Ok(ts) => r is Ok && final(glyphs)@ == apply_tweaks(old(glyphs)@, index@, ts, ts.len()),
            Err(e) => r == Err::<(), TweakError>(e) && final(glyphs)@ == old(glyphs)@,
        },
{
    let parsed = parse_y_offset_tweaks(tweaks, index);
    let offsets = match parsed {
        Ok(offsets) => offsets,
        Err(e) => {
            return Err(e);
        },
    };
    proof {
        law_parsed_tweaks_are_checked(tweaks@, index@);
        let ts = spec_parse_y_offset_tweaks(tweaks@, index@)->Ok_0;
        assert(offsets@ == ts);
        assert forall|i: int| 0 <= i < offsets@.len() implies index@.contains(#[trigger] offsets@[i].0) by {
            assert(index@.contains(ts[i].0));
        }
    }
    let index_chars = str_chars(index);
    let ghost start = glyphs@;
    let mut t: usize = 0;
    while t < offsets.len()
        invariant
            index_chars@ == index@,
            t <= offsets@.len(),
            forall|i: int| 0 <= i < offsets@.len() ==> index@.contains(#[trigger] offsets@[i].0),
            glyphs@ == apply_tweaks(start, index@, offsets@, t as nat),
            glyphs@.len() == start.len(),
        decreases offsets@.len() - t,
    {
        let (codepoint, delta) = offsets[t];
        let position = match find_char(&index_chars, codepoint) {
            Some(p) => p,
            None => {
                proof {
                    lemma_first_index_of(index@, codepoint);
                    assert(index@.contains(offsets@[t as int].0));
                }
                return Err(TweakError::NotInIndex(codepoint));
            },
        };
        if position < glyphs.len() {
            let moved = offset_i16_i32(glyphs[position].y_offset, delta as i32);
            glyphs[position].y_offset = moved;
        }
        t = t + 1;
    }
    Ok(())
}

// ---------------------------------------------------------------------------
// The preview index and fonts.
// ---------------------------------------------------------------------------

/// Whether `c` is a control character (general category `Cc`).
pub open spec fn is_control(c: char) -> bool {
    (c as u32) <= 0x1f || (0x7f <= (c as u32) && (c as u32) <= 0x9f)
}

/// The characters among the first `k` of `text` that are not control
/// characters, each once, in first-occurrence order.
pub open spec fn visible_unique(text: Seq<char>, k: nat) -> Seq<char>
    decreases k,
{
    if k == 0 {
        Seq::empty()
    } else {
        let acc = visible_unique(text, (k - 1) as nat);
        let c = text[k - 1];
        if is_control(c) || acc.contains(c) {
            acc
        } else {
            acc.push(c)
        }
    }
}

/// The glyph index the preview builds for `text`: its non-control
/// characters, each once, in first-occurrence order; `A` when there are
/// none.
pub open spec fn spec_glyph_index(text: Seq<char>) -> Seq<char> {
    let u = visible_unique(text, text.len());
    if u.len() == 0 {
        seq!['A']
    } else {
        u
    }
}

/// The glyph index the preview builds for `text`.
pub fn glyph_index_from_text(text: &str) -> (r: Vec<char>)
    ensures
        r@ == spec_glyph_index(text@),
{
    let chars = str_chars(text);
    let mut index: Vec<char> = Vec::new();
    let mut i: usize = 0;
    while i < chars.len()
        invariant
            chars@ == text@,
            i <= chars@.len(),
            index@ == visible_unique(text@, i as nat),
        decreases chars@.len() - i,
    {
        let ch = chars[i];
        let code = ch as u32;
        let control = code <= 0x1f || (code >= 0x7f && code <= 0x9f);
        if !control && !chars_contain(&index, ch) {
            index.push(ch);
        }
        i = i + 1;
    }
    if index.len() == 0 {
        index.push('A');
        assert(index@ =~= seq!['A']);
    }
    index
}

/// The ASCII lowercase of a character.
pub open spec fn ascii_lower(c: char) -> char {
    if 'A' <= c <= 'Z' {
        ((c as u32) + 32) as char
    } else {
        c
    }
}

/// The ASCII lowercase of a text.
pub open spec fn ascii_lowercase(s: Seq<char>) -> Seq<char> {
    Seq::new(s.len(), |i: int| ascii_lower(s[i]))
}

fn lowercase_chars(s: &str) -> (r: Vec<char>)
    ensures
        r@ == ascii_lowercase(s@),
{
    let chars = str_chars(s);
    let mut out: Vec<char> = Vec::new();
    let mut i: usize = 0;
    while i < chars.len()
        invariant
            chars@ == s@,
            i <= chars@.len(),
            out@ == ascii_lowercase(s@).take(i as int),
        decreases chars@.len() - i,
    {
        let c = chars[i];
        let lower = if c >= 'A' && c <= 'Z' {
            let code: u8 = (c as u32 + 32) as u8;
            code as char
        } else {
            c
        };
        out.push(lower);
        i = i + 1;
        assert(out@ =~= ascii_lowercase(s@).take(i as int));
    }
    assert(ascii_lowercase(s@).take(i as int) =~= ascii_lowercase(s@));
    out
}

/// Whether `needle` occurs in `hay`.
pub open spec fn contains_text(hay: Seq<char>, needle: Seq<char>) -> bool {
    exists|i: int| 0 <= i && i + needle.len() <= hay.len() && #[trigger] hay.subrange(i, i + needle.len()) == needle
}

fn find_text(hay: &Vec<char>, needle: &str) -> (r: bool)
    ensures
        r == contains_text(hay@, needle@),
{
    let n = str_chars(needle);
    if n.len() > hay.len() {
        return false;
    }
    let mut i: usize = 0;
    let hay_len = hay.len();
    let last = hay_len - n.len();
    while i <= last
        invariant
            n@ == needle@,
            n@.len() <= hay@.len(),
            hay_len == hay@.len(),
            last == hay@.len() - n@.len(),
            i <= last,
            forall|k: int| 0 <= k < i ==> #[trigger] hay@.subrange(k, k + n@.len()) != n@,
        decreases hay@.len() - i,
    {
        let mut j: usize = 0;
        let mut same = true;
        while j < n.len()
            invariant
                i <= last,
                hay_len == hay@.len(),
                n@.len() <= hay@.len(),
                last == hay@.len() - n@.len(),
                j <= n@.len(),
                same == forall|m: int| 0 <= m < j ==> hay@[i + m] == n@[m],
            decreases n@.len() - j,
        {
            let at = i + j;
            if hay[at] != n[j] {
                same = false;
            }
            assert(same == forall|m: int| 0 <= m < j + 1 ==> hay@[i + m] == n@[m]);
            j = j + 1;
        }
        if same {
            assert(hay@.subrange(i as int, i + n@.len()) =~= n@);
            return true;
        }
        assert(hay@.subrange(i as int, i + n@.len()) != n@) by {
            let m = choose|m: int| 0 <= m < n@.len() && hay@[i + m] != n@[m];
            assert(hay@.subrange(i as int, i + n@.len())[m] != n@[m]);
        }
        if i == last {
            return false;
        }
        i = i + 1;
    }
    false
}

/// The rank of a system font in the preview's font list, lowest first, by
/// its lowercased file name: Noto Sans SC first, then the Microsoft Ya Hei
/// and Sim- families, then the Deng and other Sim- families, then other
/// Noto and MingLiU fonts, then the rest.
pub open spec fn spec_font_priority(name: Seq<char>) -> u8 {
    let n = ascii_lowercase(name);
    if contains_text(n, "notosanssc"@) || contains_text(n, "noto sans sc"@) {
        0
    } else if contains_text(n, "msyh"@) || contains_text(n, "simsun"@) || contains_text(n, "simhei"@) {
        1
    } else if contains_text(n, "deng"@) || contains_text(n, "simkai"@) || contains_text(n, "simfang"@) {
        2
    } else if contains_text(n, "noto"@) || contains_text(n, "mingliu"@) {
        3
    } else {
        10
    }
}

/// The rank of a system font in the preview's font list.
pub fn font_priority(name: &str) -> (r: u8)
    ensures
        r == spec_font_priority(name@),
{
    let n = lowercase_chars(name);
    if find_text(&n, "notosanssc") || find_text(&n, "noto sans sc") {
        0
    } else if find_text(&n, "msyh") || find_text(&n, "simsun") || find_text(&n, "simhei") {
        1
    } else if find_text(&n, "deng") || find_text(&n, "simkai") || find_text(&n, "simfang") {
        2
    } else if find_text(&n, "noto") || find_text(&n, "mingliu") {
        3
    } else {
        10
    }
}

/// Whether a file extension, in any ASCII case, names a font file
/// (`ttf`, `otf` or `ttc`).
pub fn is_font_extension(extension: &str) -> (r: bool)
    ensures
        r == (ascii_lowercase(extension@) == "ttf"@ || ascii_lowercase(extension@) == "otf"@
            || ascii_lowercase(extension@) == "ttc"@),
{
    let lower = lowercase_chars(extension);
    let ttf = str_chars("ttf");
    let otf = str_chars("otf");
    let ttc = str_chars("ttc");
    same_chars(&lower, &ttf) || same_chars(&lower, &otf) || same_chars(&lower, &ttc)
}

fn same_chars(a: &Vec<char>, b: &Vec<char>) -> (r: bool)
    ensures
        r == (a@ == b@),
{
    if a.len() != b.len() {
        return false;
    }
    let mut i: usize = 0;
    while i < a.len()
        invariant
            a@.len() == b@.len(),
            i <= a@.len(),
            forall|m: int| 0 <= m < i ==> a@[m] == b@[m],
        decreases a@.len() - i,
    {
        if a[i] != b[i] {
            return false;
        }
        i = i + 1;
    }
    assert(a@ =~= b@);
    true
}

// ---------------------------------------------------------------------------
// Preview glyphs and bitmaps.
// ---------------------------------------------------------------------------

/// The coverage levels that a one-bit packing reads: full for every
/// non-zero pixel.
pub open spec fn mono_levels(pixels: Seq<u8>) -> Seq<u8> {
    Seq::new(pixels.len(), |i: int| if pixels[i] != 0 { 255u8 } else { 0u8 })
}

/// Packs pixels one bit each, most significant bit first, a set bit for
/// every non-zero pixel, onto the end of `out`; a partly used last byte is
/// padded with clear bits.
pub fn pack_mono_pixels(pixels: &[u8], out: &mut Vec<u8>)
    requires
        old(out)@.len() + pixels@.len() <= usize::MAX,
    ensures
        final(out)@.len() == old(out)@.len() + (pixels@.len() + 7) / 8,
        final(out)@.take(old(out)@.len() as int) == old(out)@,
        forall|s: int|
            0 <= s < pixels@.len() ==> #[trigger] bit_of(final(out)@, old(out)@.len() * 8 + s) == if pixels@[s] != 0 {
                1u8
            } else {
                0u8
            },
        forall|s: int|
            pixels@.len() <= s < (final(out)@.len() - old(out)@.len()) * 8 ==> #[trigger] bit_of(
                final(out)@,
                old(out)@.len() * 8 + s,
            ) == 0,
        final(out)@ == old(out)@ + packed_bytes(mono_levels(pixels@), 1),
{
    let mut levels: Vec<u8> = Vec::new();
    let mut i: usize = 0;
    while i < pixels.len()
        invariant
            i <= pixels@.len(),
            levels@.len() == i,
            forall|m: int| 0 <= m < i ==> #[trigger] levels@[m] == if pixels@[m] != 0 { 255u8 } else { 0u8 },
        decreases pixels@.len() - i,
    {
        levels.push(if pixels[i] != 0 { 255 } else { 0 });
        i = i + 1;
    }
    let ghost base = old(out)@.len() as int;
    let packed = levels.as_slice();
    assert(packed@ == levels@);
    assert(levels@ =~= mono_levels(pixels@));
    assert(packed@.len() * 1 == packed@.len());
    pack_pixels(packed, 1, out);
    assert forall|s: int| 0 <= s < pixels@.len() implies #[trigger] bit_of(out@, old(out)@.len() * 8 + s) == if pixels@[s] != 0 {
        1u8
    } else {
        0u8
    } by {
        assert(s / 1 == s);
        assert(s % 1 == 0);
        assert(levels@[s] == if pixels@[s] != 0 { 255u8 } else { 0u8 });
        assert((255u8 >> 7u8) >> 0u8 & 1u8 == 1u8) by (bit_vector);
        assert((0u8 >> 7u8) >> 0u8 & 1u8 == 0u8) by (bit_vector);
        assert(stream_bit(levels@, 1, s) == (sample_of(levels@[s], 1) >> 0u8) & 1u8);
        assert(stream_bit(levels@, 1, s) == if pixels@[s] != 0 { 1u8 } else { 0u8 });
        assert(s < packed@.len() * 1);
        assert(bit_of(out@, old(out)@.len() * 8 + s) == stream_bit(packed@, 1, s));
    }
}

/// A glyph as the preview rasterizes it.
pub struct RasterizedGlyph {
    pub width: u16,
    pub height: u16,
    pub x_min: i16,
    pub y_min: i16,
    pub y_offset: i16,
    pub advance_width: u16,
    pub bitmap: Vec<u8>,
}

/// The preview glyph rendered into `slot`: its bitmap copied at its stored
/// size, its bearings saturated to `i16` and its advance rounded up.
pub fn rasterized_from_slot(slot: &GlyphSlot) -> (g: RasterizedGlyph)
    requires
        slot_convertible(*slot),
    ensures
        g.width == stored_side(slot.bitmap.width),
        g.height == stored_side(slot.bitmap.rows),
        g.x_min == sat_i16(slot.bitmap_left as int),
        g.y_min == sat_i16(slot.bitmap_top - slot.bitmap.rows),
        g.y_offset == sat_i16(slot.bitmap_top as int),
        g.advance_width == spec_advance_width_pixels(slot.linear_hori_advance as int),
        g.bitmap@ == copied_pixels(slot.bitmap, g.width as int, g.height as int),
{
    let b = rasterized_glyph('\0', 0, slot);
    RasterizedGlyph {
        width: b.width,
        height: b.height,
        x_min: b.x_min,
        y_min: b.y_min,
        y_offset: b.y_offset,
        advance_width: b.advance_width,
        bitmap: b.bitmap,
    }
}

/// The glyph record of a rasterized preview glyph, before it is placed in
/// a cell: no bitmap offset, cell width or horizontal offset yet.
pub fn glyph_from_rasterized(rasterized: &RasterizedGlyph) -> (g: Glyph)
    ensures
        g == (Glyph {
            bitmap_offset: 0,
            width: rasterized.width,
            height: rasterized.height,
            cell_width: 0,
            x_offset: 0,
            y_offset: rasterized.y_offset,
            x_min: rasterized.x_min,
            y_min: rasterized.y_min,
            advance_width: rasterized.advance_width,
        }),
{
    Glyph {
        bitmap_offset: 0,
        width: rasterized.width,
        height: rasterized.height,
        cell_width: 0,
        x_offset: 0,
        y_offset: rasterized.y_offset,
        x_min: rasterized.x_min,
        y_min: rasterized.y_min,
        advance_width: rasterized.advance_width,
    }
}

/// Font data the preview owns: built from a font file, or the fallback.
pub struct OwnedFontData {
    pub index: String,
    pub size: u16,
    pub ascii_width: u16,
    pub bitmap: Vec<u8>,
    pub glyphs: Vec<Glyph>,
}

/// Whether `f` is the font the preview shows before one is loaded: a 5 by
/// 7 `A`.
pub open spec fn fallback_font(f: OwnedFontData) -> bool {
    &&& f.index@ == "A"@
    &&& f.size == 7
    &&& f.ascii_width == 5
    &&& f.bitmap@ == seq![0b01110100u8, 0b01100011u8, 0b11111000u8, 0b11000110u8, 0b00100000u8]
    &&& f.glyphs@ == seq![
        Glyph {
            bitmap_offset: 0,
            width: 5,
            height: 7,
            cell_width: 5,
            x_offset: 0,
            y_offset: 7,
            x_min: 0,
            y_min: 0,
            advance_width: 6,
        },
    ]
}

impl OwnedFontData {
    /// The font data borrowed from this, at one bit per pixel.
    pub fn as_font_data(&self) -> (f: FontData<'_>)
        ensures
            f.index@ == self.index@,
            f.size == self.size,
            f.ascii_width == self.ascii_width,
            f.bpp == 1,
            f.bitmap@ == self.bitmap@,
            f.glyphs@ == self.glyphs@,
    {
        FontData {
            index: self.index.as_str(),
            size: self.size,
            ascii_width: self.ascii_width,
            bpp: 1,
            bitmap: self.bitmap.as_slice(),
            glyphs: self.glyphs.as_slice(),
        }
    }

    /// The font the preview shows before one is loaded: a 5 by 7 `A`.
    pub fn fallback() -> (f: OwnedFontData)
        ensures
            fallback_font(f),
    {
        let bitmap: Vec<u8> = vec![0b01110100, 0b01100011, 0b11111000, 0b11000110, 0b00100000];
        let glyphs: Vec<Glyph> = vec![
            Glyph {
                bitmap_offset: 0,
                width: 5,
                height: 7,
                cell_width: 5,
                x_offset: 0,
                y_offset: 7,
                x_min: 0,
                y_min: 0,
                advance_width: 6,
            },
        ];
        let f = OwnedFontData { index: "A".to_owned(), size: 7, ascii_width: 5, bitmap, glyphs };
        assert(f.bitmap@ =~= seq![0b01110100u8, 0b01100011u8, 0b11111000u8, 0b11000110u8, 0b00100000u8]);
        assert(f.glyphs@ =~= seq![
            Glyph {
                bitmap_offset: 0,
                width: 5,
                height: 7,
                cell_width: 5,
                x_offset: 0,
                y_offset: 7,
                x_min: 0,
                y_min: 0,
                advance_width: 6,
            },
        ]);
        f
    }
}

// ---------------------------------------------------------------------------
// The frame.
// ---------------------------------------------------------------------------

/// The preview's frame: `width` by `height` pixels, row by row, each
/// unset or a color.
pub struct FrameBuffer {
    pub width: u32,
    pub height: u32,
    pub pixels: Vec<Option<Color>>,
}

/// The index of pixel `p` in a `width` by `height` frame, if it lies in it.
pub open spec fn spec_pixel_index(width: int, height: int, p: Point) -> Option<int> {
    if p.x < 0 || p.y < 0 || p.x >= width || p.y >= height {
        None
    } else {
        Some(p.y * width + p.x)
    }
}

/// The pixels of a frame after painting `points` in `color`; points
/// outside the frame are ignored.
pub open spec fn painted(pixels: Seq<Option<Color>>, width: int, height: int, points: Seq<Point>, color: Color) -> Seq<Option<Color>>
    decreases points.len(),
{
    if points.len() == 0 {
        pixels
    } else {
        let before = painted(pixels, width, height, points.drop_last(), color);
        match spec_pixel_index(width, height, points.last()) {
            Some(i) => before.update(i, Some(color)),
            None => before,
        }
    }
}

/// The RGBA bytes of a frame's pixels: a color opaque, an unset pixel
/// transparent black.
pub open spec fn rgba_of(pixels: Seq<Option<Color>>) -> Seq<u8> {
    Seq::new(pixels.len() * 4, |k: int| {
        let p = pixels[k / 4];
        match p {
            Some(c) => if k % 4 == 0 {
                c.r
            } else if k % 4 == 1 {
                c.g
            } else if k % 4 == 2 {
                c.b
            } else {
                255u8
            },
            None => 0u8,
        }
    })
}

impl FrameBuffer {
    /// Whether the pixel vector holds exactly the frame's pixels.
    pub open spec fn wf(&self) -> bool {
        self.pixels@.len() == self.width * self.height
    }

    /// An empty `width` by `height` frame.
    pub fn new(width: u32, height: u32) -> (f: FrameBuffer)
        requires
            width * height <= usize::MAX,
        ensures
            f.wf(),
            f.width == width,
            f.height == height,
            forall|i: int| 0 <= i < f.pixels@.len() ==> #[trigger] f.pixels@[i] is None,
    {
        let n = width as usize * height as usize;
        let mut pixels: Vec<Option<Color>> = Vec::new();
        let mut i: usize = 0;
        while i < n
            invariant
                i <= n,
                pixels@.len() == i,
                forall|m: int| 0 <= m < i ==> #[trigger] pixels@[m] is None,
            decreases n - i,
        {
            pixels.push(None);
            i = i + 1;
        }
        FrameBuffer { width, height, pixels }
    }

    /// The frame's size.
    pub fn size(&self) -> (s: Size)
        ensures
            s == (Size { width: self.width, height: self.height }),
    {
        Size { width: self.width, height: self.height }
    }

    /// The index of pixel `point`, if it lies in the frame.
    pub fn pixel_index(&self, point: Point) -> (r: Option<usize>)
        requires
            self.wf(),
        ensures
            match r {
                Some(k) => spec_pixel_index(self.width as int, self.height as int, point) == Some(k as int)
                    && k < self.pixels@.len(),
                None => spec_pixel_index(self.width as int, self.height as int, point) is None,
            },
    {
        if point.x < 0 || point.y < 0 {
            return None;
        }
        let x = point.x as u32;
        let y = point.y as u32;
        if x >= self.width || y >= self.height {
            return None;
        }
        let n = self.pixels.len();
        let ghost w = self.width as int;
        let ghost h = self.height as int;
        assert(0 <= (y as int) * w + (x as int) < w * h) by (nonlinear_arith)
            requires
                0 <= (y as int) < h,
                0 <= (x as int) < w,
        ;
        assert((y as int) * w <= (y as int) * w + (x as int));
        Some(y as usize * self.width as usize + x as usize)
    }

    /// Sets pixel `point` to `color`; a point outside the frame changes
    /// nothing.
    pub fn set_pixel(&mut self, point: Point, color: Color)
        requires
            old(self).wf(),
        ensures
            final(self).wf(),
            final(self).width == old(self).width,
            final(self).height == old(self).height,
            final(self).pixels@ == painted(old(self).pixels@, old(self).width as int, old(self).height as int, seq![point], color),
    {
        assert(seq![point].drop_last() =~= Seq::<Point>::empty());
        assert(seq![point].last() == point);
        assert(painted(old(self).pixels@, self.width as int, self.height as int, Seq::<Point>::empty(), color)
            == old(self).pixels@);
        let ghost expected = painted(old(self).pixels@, self.width as int, self.height as int, seq![point], color);
        let at = self.pixel_index(point);
        match at {
            Some(i) => {
                assert(spec_pixel_index(self.width as int, self.height as int, point) == Some(i as int));
                assert(seq![point].len() == 1);
                assert(expected == old(self).pixels@.update(i as int, Some(color)));
                self.pixels.set(i, Some(color));
            },
            None => {
                assert(expected == old(self).pixels@);
            },
        }
    }

    /// Paints `points` in `color`, in order; points outside the frame
    /// change nothing.
    pub fn draw_points(&mut self, points: &Vec<Point>, color: Color)
        requires
            old(self).wf(),
        ensures
            final(self).wf(),
            final(self).width == old(self).width,
            final(self).height == old(self).height,
            final(self).pixels@ == painted(old(self).pixels@, old(self).width as int, old(self).height as int, points@, color),
    {
        let ghost start = self.pixels@;
        let mut i: usize = 0;
        while i < points.len()
            invariant
                self.wf(),
                self.width == old(self).width,
                self.height == old(self).height,
                start == old(self).pixels@,
                i <= points@.len(),
                self.pixels@ == painted(start, self.width as int, self.height as int, points@.take(i as int), color),
            decreases points@.len() - i,
        {
            let ghost before = self.pixels@;
            self.set_pixel(points[i], color);
            proof {
                assert(points@.take(i + 1).drop_last() =~= points@.take(i as int));
                assert(points@.take(i + 1).last() == points@[i as int]);
                assert(seq![points@[i as int]].drop_last() =~= Seq::<Point>::empty());
                assert(seq![points@[i as int]].last() == points@[i as int]);
                assert(painted(before, self.width as int, self.height as int, Seq::<Point>::empty(), color) == before);
            }
            i = i + 1;
        }
        assert(points@.take(i as int) =~= points@);
    }

    /// The frame as RGBA bytes, row by row: a color opaque, an unset
    /// pixel transparent black.
    pub fn into_rgba(self) -> (r: Vec<u8>)
        requires
            self.pixels@.len() * 4 <= usize::MAX,
        ensures
            r@ == rgba_of(self.pixels@),
    {
        let mut rgba: Vec<u8> = Vec::new();
        let mut i: usize = 0;
        while i < self.pixels.len()
            invariant
                i <= self.pixels@.len(),
                self.pixels@.len() * 4 <= usize::MAX,
                rgba@ == rgba_of(self.pixels@).take(i * 4),
            decreases self.pixels@.len() - i,
        {
            let quad: [u8; 4] = match self.pixels[i] {
                Some(color) => [color.r, color.g, color.b, 255],
                None => [0, 0, 0, 0],
            };
            rgba.push(quad[0]);
            rgba.push(quad[1]);
            rgba.push(quad[2]);
            rgba.push(quad[3]);
            proof {
                let full = rgba_of(self.pixels@);
                assert forall|k: int| i * 4 <= k < i * 4 + 4 implies #[trigger] full[k] == rgba@[k] by {
                    assert(k / 4 == i);
                }
                assert(rgba@ =~= full.take(i * 4 + 4));
            }
            i = i + 1;
        }
        assert(rgba_of(self.pixels@).take(i * 4) =~= rgba_of(self.pixels@));
        rgba
    }
}

// ---------------------------------------------------------------------------
// The preview text.
// ---------------------------------------------------------------------------

/// The layout the settings ask for.
pub open spec fn settings_layout(settings: &SimulatorSettings) -> TextLayout {
    match settings.layout_mode {
        LayoutMode::Monospace => TextLayout::Monospace { spacing: settings.spacing, line_spacing: settings.line_spacing },
        LayoutMode::Proportional => TextLayout::Proportional {
            spacing: settings.spacing,
            line_spacing: settings.line_spacing,
        },
    }
}

/// The style the preview draws in: `color`, the settings' layout, centered.
pub fn text_style(settings: &SimulatorSettings, color: Color) -> (s: TextStyle<Color>)
    ensures
        s.color == color,
        s.layout == settings_layout(settings),
        s.alignment == Alignment::spec_center(),
{
    let style = TextStyle::new(color);
    match settings.layout_mode {
        LayoutMode::Monospace => style.monospace_with_spacing(settings.spacing, settings.line_spacing),
        LayoutMode::Proportional => style.proportional_with_line_spacing(settings.spacing, settings.line_spacing),
    }
}

/// The text the preview draws: the settings' text in `font_data`, in
/// `color` and the settings' layout and alignment, anchored at the
/// settings' origin and flowing in their direction.
pub fn drawable_text<'a>(settings: &'a SimulatorSettings, font_data: &'a FontData<'a>, color: Color) -> (t: DrawableText<'a, Color>)
    ensures
        t.font_data == font_data,
        t.text@ == settings.text@,
        t.start_point == (Point { x: settings.origin_x, y: settings.origin_y }),
        t.style == (TextStyle { color, layout: settings_layout(settings), alignment: settings.alignment.spec_alignment() }),
        t.spec_flow() == (match settings.flow {
            FlowMode::Horizontal => TextFlow::Horizontal,
            FlowMode::Vertical => TextFlow::Vertical,
        }),
{
    let style = text_style(settings, color).align(settings.alignment.to_glyph_cell_alignment());
    let text = DrawableText::new(font_data, settings.text.as_str(), style).at(Point::new(settings.origin_x, settings.origin_y));
    match settings.flow {
        FlowMode::Horizontal => text.horizontal(),
        FlowMode::Vertical => text.vertical(),
    }
}

// ---------------------------------------------------------------------------
// The example code the preview shows.
// ---------------------------------------------------------------------------

/// The entries of the first `k` tweaks in the example code.
pub open spec fn offset_entries(tweaks: Seq<(char, i16)>, k: nat) -> Seq<char>
    decreases k,
{
    if k == 0 {
        Seq::empty()
    } else {
        offset_entries(tweaks, (k - 1) as nat) + "        "@ + debug_char_literal(tweaks[k - 1].0) + ": "@
            + decimal(tweaks[k - 1].1 as int) + ",\n"@
    }
}

/// The `y_offset` list of the example code: empty when the typed tweaks
/// do not parse or are none.
pub open spec fn spec_example_y_offsets(tweaks: Seq<char>, index: Seq<char>) -> Seq<char> {
    match spec_parse_y_offset_tweaks(tweaks, index) {
        Err(_) => Seq::empty(),
        Ok(ts) => if ts.len() == 0 {
            Seq::empty()
        } else {
            "    y_offset: {\n"@ + offset_entries(ts, ts.len()) + "    },\n"@
        },
    }
}

/// The `y_offset` list of the example code.
pub fn example_y_offsets(settings: &SimulatorSettings, index: &str) -> (r: Vec<char>)
    ensures
        r@ == spec_example_y_offsets(settings.glyph_y_offsets@, index@),
{
    let offsets = match parse_y_offset_tweaks(settings.glyph_y_offsets.as_str(), index) {
        Ok(offsets) => offsets,
        Err(_) => {
            return Vec::new();
        },
    };
    if offsets.len() == 0 {
        return Vec::new();
    }
    let mut out: Vec<char> = Vec::new();
    push_str(&mut out, "    y_offset: {\n");
    let ghost head = out@;
    let mut k: usize = 0;
    while k < offsets.len()
        invariant
            k <= offsets@.len(),
            out@ == head + offset_entries(offsets@, k as nat),
        decreases offsets@.len() - k,
    {
        let (codepoint, delta) = offsets[k];
        push_str(&mut out, "        ");
        push_char_literal(&mut out, codepoint);
        push_str(&mut out, ": ");
        push_decimal(&mut out, delta as i64);
        push_str(&mut out, ",\n");
        proof {
            assert(out@ =~= head + offset_entries(offsets@, (k + 1) as nat));
        }
        k = k + 1;
    }
    push_str(&mut out, "    },\n");
    out
}

/// The layout call of the example code.
pub open spec fn example_layout(settings: &SimulatorSettings) -> Seq<char> {
    match settings.layout_mode {
        LayoutMode::Monospace => if settings.spacing == 0 && settings.line_spacing == 0 {
            "    .monospace()"@
        } else {
            "    .monospace_with_spacing("@ + decimal(settings.spacing as int) + ", "@ + decimal(
                settings.line_spacing as int,
            ) + ")"@
        },
        LayoutMode::Proportional => "    .proportional_with_line_spacing("@ + decimal(settings.spacing as int) + ", "@
            + decimal(settings.line_spacing as int) + ")"@,
    }
}

/// The example code the preview shows for its settings and font index: a
/// `font_data!` call for the font file (or a placeholder path), the style
/// and the drawing call.
pub open spec fn spec_example_code(settings: &SimulatorSettings, index: Seq<char>, path: Option<Seq<char>>) -> Seq<char> {
    let path_literal = match path {
        Some(p) => debug_str_literal(p),
        None => "\"path/to/font.ttf\""@,
    };
    let flow = match settings.flow {
        FlowMode::Horizontal => Seq::empty(),
        FlowMode::Vertical => "    .vertical()\n"@,
    };
    "use embedded_graphics_core::geometry::Point;\nuse embedded_graphics_core::pixelcolor::Rgb888;\nuse glyph_cell::{font_data, Alignment, DrawableText, FontData, TextStyle};\n\nconst FONT: FontData<'static> = font_data! {\n    size: "@
        + decimal(settings.font_size as int) + ",\n    ascii_width: "@ + decimal(settings.ascii_width as int)
        + ",\n    path: "@ + path_literal + ",\n    index: "@ + debug_str_literal(index) + ",\n"@
        + spec_example_y_offsets(settings.glyph_y_offsets@, index) + "};\n\nlet style = TextStyle::new(Rgb888::new("@
        + decimal(settings.glyph_color.r as int) + ", "@ + decimal(settings.glyph_color.g as int) + ", "@
        + decimal(settings.glyph_color.b as int) + "))\n"@ + example_layout(settings)
        + "\n    .align(Alignment::"@ + settings.alignment.spec_code_name() + ");\n\nDrawableText::new(&FONT, "@
        + debug_str_literal(settings.text@) + ", style)\n"@ + flow + "    .at(Point::new("@ + decimal(
        settings.origin_x as int,
    ) + ", "@ + decimal(settings.origin_y as int) + "))\n    .draw(&mut display)?;\n"@
}

/// The layout call of the example code.
fn example_layout_text(settings: &SimulatorSettings) -> (r: Vec<char>)
    ensures
        r@ == example_layout(settings),
{
    let mut out: Vec<char> = Vec::new();
    match settings.layout_mode {
        LayoutMode::Monospace => {
            if settings.spacing == 0 && settings.line_spacing == 0 {
                push_str(&mut out, "    .monospace()");
            } else {
                push_str(&mut out, "    .monospace_with_spacing(");
                push_decimal(&mut out, settings.spacing as i64);
                push_str(&mut out, ", ");
                push_decimal(&mut out, settings.line_spacing as i64);
                push_str(&mut out, ")");
            }
        },
        LayoutMode::Proportional => {
            push_str(&mut out, "    .proportional_with_line_spacing(");
            push_decimal(&mut out, settings.spacing as i64);
            push_str(&mut out, ", ");
            push_decimal(&mut out, settings.line_spacing as i64);
            push_str(&mut out, ")");
        },
    }
    assert(out@ =~= example_layout(settings));
    out
}

/// The example code the preview shows for its settings, font and font
/// path.
pub fn example_code(settings: &SimulatorSettings, font_data: &OwnedFontData, current_font_path: Option<&str>) -> (r: Vec<char>)
    ensures
        r@ == spec_example_code(
            settings,
            font_data.index@,
            match current_font_path {
                Some(p) => Some(p@),
                None => None,
            },
        ),
{
    let head = "use embedded_graphics_core::geometry::Point;\nuse embedded_graphics_core::pixelcolor::Rgb888;\nuse glyph_cell::{font_data, Alignment, DrawableText, FontData, TextStyle};\n\nconst FONT: FontData<'static> = font_data! {\n    size: ";
    let mut out: Vec<char> = Vec::new();
    push_str(&mut out, head);
    assert(out@ =~= head@);
    push_decimal(&mut out, settings.font_size as i64);
    push_str(&mut out, ",\n    ascii_width: ");
    push_decimal(&mut out, settings.ascii_width as i64);
    push_str(&mut out, ",\n    path: ");
    match current_font_path {
        Some(p) => push_string_literal(&mut out, p),
        None => push_str(&mut out, "\"path/to/font.ttf\""),
    }
    push_str(&mut out, ",\n    index: ");
    push_string_literal(&mut out, font_data.index.as_str());
    push_str(&mut out, ",\n");
    let y_offsets = example_y_offsets(settings, font_data.index.as_str());
    push_chars(&mut out, &y_offsets);
    push_str(&mut out, "};\n\nlet style = TextStyle::new(Rgb888::new(");
    push_decimal(&mut out, settings.glyph_color.r as i64);
    push_str(&mut out, ", ");
    push_decimal(&mut out, settings.glyph_color.g as i64);
    push_str(&mut out, ", ");
    push_decimal(&mut out, settings.glyph_color.b as i64);
    push_str(&mut out, "))\n");
    let layout = example_layout_text(settings);
    push_chars(&mut out, &layout);
    push_str(&mut out, "\n    .align(Alignment::");
    push_str(&mut out, settings.alignment.code_name());
    push_str(&mut out, ");\n\nDrawableText::new(&FONT, ");
    push_string_literal(&mut out, settings.text.as_str());
    push_str(&mut out, ", style)\n");
    match settings.flow {
        FlowMode::Horizontal => {
            assert(out@ + Seq::<char>::empty() =~= out@);
        },
        FlowMode::Vertical => push_str(&mut out, "    .vertical()\n"),
    }
    push_str(&mut out, "    .at(Point::new(");
    push_decimal(&mut out, settings.origin_x as i64);
    push_str(&mut out, ", ");
    push_decimal(&mut out, settings.origin_y as i64);
    push_str(&mut out, "))\n    .draw(&mut display)?;\n");
    out
}

// ---------------------------------------------------------------------------
// The font cache.
// ---------------------------------------------------------------------------

/// What a preview font is rasterized from; a cached font is reused while
/// its key stays the same. The ASCII cell width is no part of it: it only
/// places the glyphs in their cells, when the preview is drawn.
pub struct FontBuildKey {
    pub path: String,
    pub collection_index: u32,
    pub size: u16,
    pub index: Vec<char>,
    pub y_offsets: String,
}

/// Whether two keys name the same build.
pub open spec fn same_build(a: &FontBuildKey, b: &FontBuildKey) -> bool {
    &&& a.path@ == b.path@
    &&& a.collection_index == b.collection_index
    &&& a.size == b.size
    &&& a.index@ == b.index@
    &&& a.y_offsets@ == b.y_offsets@
}

/// Whether `key` is the key of `settings` with the font file at `path`.
pub open spec fn key_for(key: &FontBuildKey, settings: &SimulatorSettings, path: Seq<char>) -> bool {
    &&& key.path@ == path
    &&& key.collection_index == settings.collection_index
    &&& key.size == settings.font_size
    &&& key.index@ == spec_glyph_index(settings.text@)
    &&& key.y_offsets@ == settings.glyph_y_offsets@
}

impl FontBuildKey {
    /// The key of `settings` with the font file at `path`: the file, the
    /// face in it, the raster height, the glyph index of the text and the
    /// typed tweaks.
    pub fn for_settings(settings: &SimulatorSettings, path: String) -> (k: FontBuildKey)
        ensures
            key_for(&k, settings, path@),
    {
        FontBuildKey {
            path,
            collection_index: settings.collection_index,
            size: settings.font_size,
            index: glyph_index_from_text(settings.text.as_str()),
            y_offsets: settings.glyph_y_offsets.clone(),
        }
    }
}

/// A rasterized preview font, shifted into its raster height and tweaked,
/// before its glyphs are placed in cells: what the font cache keeps. Glyph
/// `i` belongs to character `i` of the index, and its bitmap holds one
/// coverage value for each of its `width * height` pixels; only
/// `prepare_preview_font` makes one.
pub struct PreparedFont {
    index: String,
    size: u16,
    glyphs: Vec<Glyph>,
    bitmaps: Vec<Vec<u8>>,
}

impl PreparedFont {
    /// The characters of the index.
    pub closed spec fn index_chars(&self) -> Seq<char> {
        self.index@
    }

    /// The raster height.
    pub closed spec fn raster_height(&self) -> u16 {
        self.size
    }

    /// The glyphs, one for each character of the index.
    pub closed spec fn glyph_seq(&self) -> Seq<Glyph> {
        self.glyphs@
    }

    /// The coverage values of each glyph, row by row.
    pub closed spec fn pixel_seqs(&self) -> Seq<Seq<u8>> {
        bitmaps_view(self.bitmaps@)
    }

    /// One glyph and one bitmap of the right size for each character, and
    /// all pixels addressable.
    #[verifier::type_invariant]
    closed spec fn well_formed(self) -> bool {
        &&& self.glyphs@.len() == self.index@.len()
        &&& self.bitmaps@.len() == self.index@.len()
        &&& forall|i: int| 0 <= i < self.bitmaps@.len() ==> #[trigger] self.bitmaps@[i]@.len()
            == self.glyphs@[i].width * self.glyphs@[i].height
        &&& total_pixels(bitmaps_view(self.bitmaps@), self.bitmaps@.len()) <= usize::MAX
    }
}

/// The preview's font: the key it was last rasterized for, the prepared
/// font (none: the fallback font is shown), the characters the font lacks,
/// and the last error.
pub struct FontCache {
    pub key: Option<FontBuildKey>,
    pub font: Option<PreparedFont>,
    pub missing_chars: Vec<char>,
    pub error: Option<String>,
}

/// What the preview does with its font for `key` (none when no path is
/// selected) when the cache was built for `cached`.
pub open spec fn spec_cache_action(cached: Option<FontBuildKey>, key: Option<FontBuildKey>) -> FontCacheAction {
    match key {
        None => FontCacheAction::ReportNoPath,
        Some(k) => match cached {
            Some(c) => if same_build(&c, &k) {
                FontCacheAction::Keep
            } else {
                FontCacheAction::Build
            },
            None => FontCacheAction::Build,
        },
    }
}

/// What the preview does with its font before it renders.
#[derive(Debug, Clone, Copy, PartialEq, Eq, Structural)]
pub enum FontCacheAction {
    /// No font path is selected: report it and keep the current font.
    ReportNoPath,
    /// The font was rasterized for this key already.
    Keep,
    /// Rasterize the font for this key.
    Build,
}

impl Default for FontCache {
    /// A cache holding the fallback font, built for no key.
    fn default() -> (c: FontCache)
        ensures
            c.key is None,
            c.font is None,
            c.missing_chars@.len() == 0,
            c.error is None,
    {
        FontCache { key: None, font: None, missing_chars: Vec::new(), error: None }
    }
}

impl FontCache {
    /// Forgets the key, so that the next render rasterizes the font again.
    pub fn invalidate(&mut self)
        ensures
            final(self).key is None,
            final(self).font == old(self).font,
            final(self).missing_chars == old(self).missing_chars,
            final(self).error == old(self).error,
    {
        self.key = None;
    }

    /// What to do for the font that `key` describes (none when no path
    /// is selected): rasterize it unless that was done for the same key.
    pub fn action(&self, key: Option<&FontBuildKey>) -> (r: FontCacheAction)
        ensures
            r == spec_cache_action(
                self.key,
                match key {
                    Some(k) => Some(*k),
                    None => None,
                },
            ),
    {
        match key {
            None => FontCacheAction::ReportNoPath,
            Some(k) => match &self.key {
                Some(cached) => {
                    if cached.path == k.path && cached.collection_index == k.collection_index && cached.size == k.size
                        && same_chars(&cached.index, &k.index) && cached.y_offsets == k.y_offsets {
                        FontCacheAction::Keep
                    } else {
                        FontCacheAction::Build
                    }
                },
                None => FontCacheAction::Build,
            },
        }
    }

    /// Records that no font path is selected: the error says so and no
    /// characters are reported missing; the font and key stay.
    pub fn record_no_path(&mut self)
        ensures
            final(self).error matches Some(e) && e@ == "No font path selected"@,
            final(self).missing_chars@.len() == 0,
            final(self).key == old(self).key,
            final(self).font == old(self).font,
    {
        self.error = Some("No font path selected".to_owned());
        self.missing_chars = Vec::new();
    }

    /// Records a font rasterized for `key`, clearing the error.
    pub fn record_build(&mut self, key: FontBuildKey, font: PreparedFont, missing_chars: Vec<char>)
        ensures
            final(self).key == Some(key),
            final(self).font == Some(font),
            final(self).missing_chars == missing_chars,
            final(self).error is None,
    {
        self.key = Some(key);
        self.font = Some(font);
        self.missing_chars = missing_chars;
        self.error = None;
    }

    /// Records that building the font for `key` failed: the key is kept
    /// so that the same settings are not retried, the font stays, and the
    /// error is reported instead of missing characters.
    pub fn record_failure(&mut self, key: FontBuildKey, error: String)
        ensures
            final(self).key == Some(key),
            final(self).error == Some(error),
            final(self).missing_chars@.len() == 0,
            final(self).font == old(self).font,
    {
        self.key = Some(key);
        self.error = Some(error);
        self.missing_chars = Vec::new();
    }

    /// The font data the preview draws with cells `ascii_width` wide for
    /// ASCII characters, and the characters whose glyphs lose rows to
    /// their cells: the fallback font and none without a prepared font;
    /// the prepared font placed in its cells otherwise, its clipped
    /// characters reported only while there is no error.
    pub fn preview_data(&self, ascii_width: u16) -> (r: (OwnedFontData, Vec<char>))
        ensures
            match self.font {
                None => fallback_font(r.0) && r.1@.len() == 0,
                Some(f) => placed_font(&f, ascii_width, r.0) && r.1@ == if self.error is None {
                    preview_clipped(&f, ascii_width)
                } else {
                    Seq::empty()
                },
            },
    {
        match &self.font {
            None => (OwnedFontData::fallback(), Vec::new()),
            Some(font) => {
                let (data, clipped) = place_font_data(font, ascii_width);
                if self.error.is_some() {
                    (data, Vec::new())
                } else {
                    (data, clipped)
                }
            },
        }
    }
}

// ---------------------------------------------------------------------------
// Preview tweaks and block tweaks.
// ---------------------------------------------------------------------------

proof fn lemma_tweaks_agree(index: Seq<char>, preview: Seq<Glyph>, block: Seq<BitmapGlyph>, tweaks: Seq<(char, i16)>, k: nat)
    requires
        k <= tweaks.len(),
        codepoints(block) == index,
        preview.len() == block.len(),
        forall|i: int| 0 <= i < block.len() ==> preview[i].y_offset == #[trigger] block[i].y_offset,
        forall|t: int| 0 <= t < tweaks.len() ==> index.contains(#[trigger] tweaks[t].0),
    ensures
        tweak_fold(block, tweaks, k) is Ok,
        codepoints(tweak_fold(block, tweaks, k)->Ok_0) == index,
        apply_tweaks(preview, index, tweaks, k).len() == block.len(),
        forall|i: int| 0 <= i < block.len() ==> apply_tweaks(preview, index, tweaks, k)[i].y_offset
            == #[trigger] tweak_fold(block, tweaks, k)->Ok_0[i].y_offset,
    decreases k,
{
    if k > 0 {
        lemma_tweaks_agree(index, preview, block, tweaks, (k - 1) as nat);
        let cur = tweak_fold(block, tweaks, (k - 1) as nat)->Ok_0;
        let pv = apply_tweaks(preview, index, tweaks, (k - 1) as nat);
        let t = tweaks[k - 1];
        assert(index.contains(t.0));
        lemma_first_index_of(index, t.0);
        let p = first_index_of(index, t.0)->Some_0;
        assert(cur.len() == codepoints(cur).len());
        let next = cur.update(p, shifted(cur[p], t.1 as int));
        assert(codepoints(next) =~= index) by {
            assert forall|i: int| 0 <= i < next.len() implies next[i].codepoint == codepoints(cur)[i] by {}
        }
        assert forall|i: int| 0 <= i < block.len() implies apply_tweaks(preview, index, tweaks, k)[i].y_offset
            == #[trigger] tweak_fold(block, tweaks, k)->Ok_0[i].y_offset by {
            assert(pv[i].y_offset == cur[i].y_offset);
        }
    }
}

/// The preview's typed tweaks move glyphs as a font block's `y_offset` map
/// does: when the preview glyphs stand for the characters of a block's
/// glyphs, in order and at the same vertical offsets, the same tweaks (each
/// for a character of the index) leave both at the same vertical offsets.
pub proof fn law_preview_tweaks_match_block_tweaks(index: Seq<char>, preview: Seq<Glyph>, block: Seq<BitmapGlyph>, tweaks: Seq<(char, i16)>)
    requires
        codepoints(block) == index,
        preview.len() == block.len(),
        forall|i: int| 0 <= i < block.len() ==> preview[i].y_offset == #[trigger] block[i].y_offset,
        forall|t: int| 0 <= t < tweaks.len() ==> index.contains(#[trigger] tweaks[t].0),
    ensures
        tweak_fold(block, tweaks, tweaks.len()) is Ok,
        forall|i: int| 0 <= i < block.len() ==> apply_tweaks(preview, index, tweaks, tweaks.len())[i].y_offset
            == #[trigger] tweak_fold(block, tweaks, tweaks.len())->Ok_0[i].y_offset,
{
    lemma_tweaks_agree(index, preview, block, tweaks, tweaks.len());
}

/// A font built, or failed to build, for some settings is not built again
/// for the same settings: the cache keeps it until it is invalidated.
pub proof fn law_cache_reuses_its_build(cached: FontBuildKey, key: FontBuildKey)
    requires
        same_build(&cached, &key),
    ensures
        spec_cache_action(Some(cached), Some(key)) == FontCacheAction::Keep,
        spec_cache_action(None, Some(key)) == FontCacheAction::Build,
        spec_cache_action(Some(cached), None) == FontCacheAction::ReportNoPath,
{
}

/// The ASCII cell width, like every other layout setting, never makes the
/// preview rasterize its font again: two settings with the same text, face,
/// raster height and tweaks give the same key for the same font file, so a
/// font rasterized for the one is kept for the other.
pub proof fn law_cell_width_keeps_the_font(
    k1: FontBuildKey,
    s1: SimulatorSettings,
    k2: FontBuildKey,
    s2: SimulatorSettings,
    path: Seq<char>,
)
    requires
        key_for(&k1, &s1, path),
        key_for(&k2, &s2, path),
        s1.text@ == s2.text@,
        s1.collection_index == s2.collection_index,
        s1.font_size == s2.font_size,
        s1.glyph_y_offsets@ == s2.glyph_y_offsets@,
    ensures
        same_build(&k1, &k2),
        spec_cache_action(Some(k1), Some(k2)) == FontCacheAction::Keep,
{
}

proof fn lemma_clipped_ignores_cell_width(h: int, a1: int, a2: int, index: Seq<char>, glyphs: Seq<Glyph>, k: nat)
    requires
        k <= glyphs.len(),
    ensures
        clipped_chars(h, index, placed_glyphs(h, a1, index, glyphs), k) == clipped_chars(
            h,
            index,
            placed_glyphs(h, a2, index, glyphs),
            k,
        ),
    decreases k,
{
    if k > 0 {
        lemma_clipped_ignores_cell_width(h, a1, a2, index, glyphs, (k - 1) as nat);
        let p1 = placed_glyphs(h, a1, index, glyphs);
        let p2 = placed_glyphs(h, a2, index, glyphs);
        let g1 = p1[k - 1];
        let g2 = p2[k - 1];
        assert(g1.y_offset == g2.y_offset && g1.height == g2.height);
        assert(vertically_clipped(h, g1) == vertically_clipped(h, g2));
    }
}

/// Which characters the preview reports clipped does not depend on the
/// ASCII cell width: a glyph loses rows only to the raster height, and
/// cells differ only in width.
pub proof fn law_clipping_ignores_cell_width(f: PreparedFont, a1: u16, a2: u16)
    ensures
        preview_clipped(&f, a1) == preview_clipped(&f, a2),
{
    lemma_clipped_ignores_cell_width(
        f.raster_height() as int,
        a1 as int,
        a2 as int,
        f.index_chars(),
        f.glyph_seq(),
        f.glyph_seq().len(),
    );
}

// ---------------------------------------------------------------------------
// Building the preview font.
// ---------------------------------------------------------------------------

/// The preview glyphs after the automatic vertical adjustment.
pub open spec fn auto_adjusted_glyphs(raster_height: int, index: Seq<char>, glyphs: Seq<Glyph>) -> Seq<Glyph> {
    Seq::new(glyphs.len(), |i: int| preview_auto_adjusted(raster_height, index, glyphs, i))
}

/// The preview glyphs placed in their cells.
pub open spec fn placed_glyphs(raster_height: int, ascii_width: int, index: Seq<char>, glyphs: Seq<Glyph>) -> Seq<Glyph> {
    Seq::new(
        glyphs.len(),
        |i: int| if i < index.len() {
            preview_placed(raster_height, ascii_width, index[i], glyphs[i])
        } else {
            glyphs[i]
        },
    )
}

/// The packed one-bit bitmap of the first `k` placed glyphs, each clipped
/// to its cell.
pub open spec fn preview_bitmap(raster_height: int, placed: Seq<Glyph>, bitmaps: Seq<Seq<u8>>, k: nat) -> Seq<u8>
    decreases k,
{
    if k == 0 {
        Seq::empty()
    } else {
        preview_bitmap(raster_height, placed, bitmaps, (k - 1) as nat) + packed_bytes(
            mono_levels(preview_fit_pixels(raster_height, placed[k - 1], bitmaps[k - 1])),
            1,
        )
    }
}

/// The characters among the first `k` whose glyphs lose rows to clipping.
pub open spec fn clipped_chars(raster_height: int, index: Seq<char>, placed: Seq<Glyph>, k: nat) -> Seq<char>
    decreases k,
{
    if k == 0 {
        Seq::empty()
    } else {
        let before = clipped_chars(raster_height, index, placed, (k - 1) as nat);
        if vertically_clipped(raster_height, placed[k - 1]) {
            before.push(index[k - 1])
        } else {
            before
        }
    }
}

/// Glyph `i` of the built font: clipped to its cell, its bitmap starting
/// after those of the glyphs before it.
pub open spec fn assembled_glyph(raster_height: int, placed: Seq<Glyph>, bitmaps: Seq<Seq<u8>>, i: int) -> Glyph {
    Glyph {
        bitmap_offset: preview_bitmap(raster_height, placed, bitmaps, i as nat).len() as u32,
        ..preview_fit_glyph(raster_height, placed[i])
    }
}

/// The number of pixels in the first `k` bitmaps.
pub open spec fn total_pixels(bitmaps: Seq<Seq<u8>>, k: nat) -> int
    decreases k,
{
    if k == 0 {
        0
    } else {
        total_pixels(bitmaps, (k - 1) as nat) + bitmaps[k - 1].len()
    }
}

proof fn lemma_tweaks_keep_sizes(glyphs: Seq<Glyph>, index: Seq<char>, tweaks: Seq<(char, i16)>, k: nat)
    requires
        k <= tweaks.len(),
    ensures
        apply_tweaks(glyphs, index, tweaks, k).len() == glyphs.len(),
        forall|i: int| 0 <= i < glyphs.len() ==> #[trigger] apply_tweaks(glyphs, index, tweaks, k)[i].width == glyphs[i].width
            && apply_tweaks(glyphs, index, tweaks, k)[i].height == glyphs[i].height,
    decreases k,
{
    if k > 0 {
        lemma_tweaks_keep_sizes(glyphs, index, tweaks, (k - 1) as nat);
        let prev = apply_tweaks(glyphs, index, tweaks, (k - 1) as nat);
        let next = apply_tweak(prev, index, tweaks[k - 1]);
        lemma_first_index_of(index, tweaks[k - 1].0);
        assert(next.len() == prev.len());
        assert forall|i: int| 0 <= i < glyphs.len() implies #[trigger] next[i].width == prev[i].width && next[i].height
            == prev[i].height by {}
    }
}

proof fn lemma_fit_pixels_fewer(raster_height: int, g: Glyph, pixels: Seq<u8>)
    requires
        0 <= raster_height,
        pixels.len() == g.width * g.height,
    ensures
        preview_fit_pixels(raster_height, g, pixels).len() <= pixels.len(),
{
    let plan = preview_clip_plan(raster_height, g);
    if !clip_is_identity(plan, g.width as int, g.height as int) {
        let w = g.width as int;
        let h = g.height as int;
        let nw = plan.2;
        let nh = plan.3;
        let rows = Seq::new(
            nh as nat,
            |y: int| Seq::new(nw as nat, |x: int| pixels[(plan.1 + y) * w + plan.0 + x]),
        );
        assert(0 <= nw && 0 <= nh);
        if nw > 0 && nh > 0 {
            assert(plan.0 + nw <= w);
            assert(plan.1 + nh <= h);
        }
        lemma_flatten_len(rows, nw as nat);
        assert(nw * nh <= w * h) by (nonlinear_arith)
            requires
                0 <= nw,
                0 <= nh,
                nw > 0 && nh > 0 ==> nw <= w && nh <= h,
                0 <= w,
                0 <= h,
        ;
        assert(nh * nw == nw * nh) by (nonlinear_arith);
    }
}

proof fn lemma_flatten_len(rows: Seq<Seq<u8>>, n: nat)
    requires
        forall|i: int| 0 <= i < rows.len() ==> #[trigger] rows[i].len() == n,
    ensures
        rows.flatten().len() == rows.len() * n,
    decreases rows.len(),
{
    if rows.len() > 0 {
        let front = rows.drop_last();
        lemma_flatten_len(front, n);
        assert(rows =~= front.push(rows.last()));
        front.lemma_flatten_push(rows.last());
        assert(rows.len() * n == front.len() * n + n) by (nonlinear_arith)
            requires
                rows.len() == front.len() + 1,
        ;
    }
}

proof fn lemma_preview_bitmap_bound(raster_height: int, placed: Seq<Glyph>, bitmaps: Seq<Seq<u8>>, k: nat)
    requires
        0 <= raster_height,
        k <= placed.len(),
        k <= bitmaps.len(),
        forall|i: int| 0 <= i < k ==> #[trigger] bitmaps[i].len() == placed[i].width * placed[i].height,
    ensures
        preview_bitmap(raster_height, placed, bitmaps, k).len() <= total_pixels(bitmaps, k),
    decreases k,
{
    if k > 0 {
        lemma_preview_bitmap_bound(raster_height, placed, bitmaps, (k - 1) as nat);
        let px = preview_fit_pixels(raster_height, placed[k - 1], bitmaps[k - 1]);
        lemma_fit_pixels_fewer(raster_height, placed[k - 1], bitmaps[k - 1]);
        assert((px.len() * 1 + 7) / 8 <= px.len());
    }
}

proof fn lemma_total_pixels_grows(bitmaps: Seq<Seq<u8>>, j: nat, k: nat)
    requires
        j <= k <= bitmaps.len(),
    ensures
        total_pixels(bitmaps, j) <= total_pixels(bitmaps, k),
    decreases k,
{
    if j < k {
        lemma_total_pixels_grows(bitmaps, j, (k - 1) as nat);
    }
}

/// The bitmaps as sequences of pixels.
pub open spec fn bitmaps_view(bitmaps: Seq<Vec<u8>>) -> Seq<Seq<u8>> {
    Seq::new(bitmaps.len(), |i: int| bitmaps[i]@)
}

/// Prepares the preview font from the glyphs rasterized for the characters
/// of `index` (in order, each with its bitmap of `width * height` coverage
/// values): shifts the ASCII and the other glyphs into the raster height
/// and applies the typed tweaks. Returns the prepared font, or the problem
/// with the tweaks.
pub fn prepare_preview_font(
    size: u16,
    index: &str,
    y_offset_tweaks: &str,
    glyphs: Vec<Glyph>,
    bitmaps: Vec<Vec<u8>>,
) -> (r: Result<PreparedFont, TweakError>)
    requires
        glyphs@.len() == index@.len(),
        bitmaps@.len() == index@.len(),
        forall|i: int| 0 <= i < bitmaps@.len() ==> #[trigger] bitmaps@[i]@.len() == glyphs@[i].width * glyphs@[i].height,
        total_pixels(bitmaps_view(bitmaps@), bitmaps@.len()) <= usize::MAX,
    ensures
        match spec_parse_y_offset_tweaks(y_offset_tweaks@, index@) {
            Err(e) => r == Err::<PreparedFont, TweakError>(e),
            Ok(ts) => r matches Ok(f) && {
                &&& f.index_chars() == index@
                &&& f.raster_height() == size
                &&& f.glyph_seq() == apply_tweaks(auto_adjusted_glyphs(size as int, index@, glyphs@), index@, ts, ts.len())
                &&& f.pixel_seqs() == bitmaps_view(bitmaps@)
            },
        },
{
    let mut glyphs = glyphs;
    let ghost g0 = glyphs@;
    apply_auto_y_offsets(size, index, glyphs.as_mut_slice());
    let ghost g1 = glyphs@;
    assert(g1 =~= auto_adjusted_glyphs(size as int, index@, g0));
    match apply_y_offset_tweaks(glyphs.as_mut_slice(), index, y_offset_tweaks) {
        Ok(()) => {},
        Err(e) => {
            return Err(e);
        },
    }
    let ghost ts = spec_parse_y_offset_tweaks(y_offset_tweaks@, index@)->Ok_0;
    proof {
        lemma_tweaks_keep_sizes(g1, index@, ts, ts.len());
    }
    Ok(PreparedFont { index: index.to_owned(), size, glyphs, bitmaps })
}

/// The glyphs of `f` placed in cells `ascii_width` wide for ASCII
/// characters and the raster height for the others.
pub open spec fn preview_placed_glyphs(f: &PreparedFont, ascii_width: u16) -> Seq<Glyph> {
    placed_glyphs(f.raster_height() as int, ascii_width as int, f.index_chars(), f.glyph_seq())
}

/// The characters of `f` whose glyphs lose rows to their cells when placed
/// with `ascii_width`.
pub open spec fn preview_clipped(f: &PreparedFont, ascii_width: u16) -> Seq<char> {
    clipped_chars(f.raster_height() as int, f.index_chars(), preview_placed_glyphs(f, ascii_width), f.glyph_seq().len())
}

/// Whether `data` is the prepared font `f` placed in cells `ascii_width`
/// wide for ASCII characters: each glyph placed in its cell, clipped to it,
/// and its pixels packed one bit each after those of the glyphs before it.
pub open spec fn placed_font(f: &PreparedFont, ascii_width: u16, data: OwnedFontData) -> bool {
    let placed = preview_placed_glyphs(f, ascii_width);
    let h = f.raster_height() as int;
    let n = f.glyph_seq().len();
    &&& data.index@ == f.index_chars()
    &&& data.size == f.raster_height()
    &&& data.ascii_width == ascii_width
    &&& data.glyphs@ == Seq::new(n, |i: int| assembled_glyph(h, placed, f.pixel_seqs(), i))
    &&& data.bitmap@ == preview_bitmap(h, placed, f.pixel_seqs(), n)
}

/// Places the glyphs of a prepared font in cells `ascii_width` wide for
/// ASCII characters and the raster height for the others, clips each to
/// its cell and packs its pixels one bit each after those of the glyphs
/// before it. Returns the font data and the characters whose glyphs lost
/// rows.
pub fn place_font_data(font: &PreparedFont, ascii_width: u16) -> (r: (OwnedFontData, Vec<char>))
    ensures
        placed_font(font, ascii_width, r.0),
        r.1@ == preview_clipped(font, ascii_width),
{
    proof {
        use_type_invariant(font);
    }
    let size = font.size;
    let ghost pixels0 = bitmaps_view(font.bitmaps@);
    let ghost n = font.glyphs@.len();
    let mut glyphs: Vec<Glyph> = Vec::new();
    let mut j: usize = 0;
    while j < font.glyphs.len()
        invariant
            j <= font.glyphs@.len(),
            glyphs@ == font.glyphs@.subrange(0, j as int),
        decreases font.glyphs@.len() - j,
    {
        glyphs.push(font.glyphs[j]);
        j = j + 1;
        assert(glyphs@ =~= font.glyphs@.subrange(0, j as int));
    }
    assert(glyphs@ =~= font.glyphs@);
    apply_cell_offsets(size, ascii_width, font.index.as_str(), glyphs.as_mut_slice());
    let ghost placed = glyphs@;
    assert(placed =~= placed_glyphs(size as int, ascii_width as int, font.index@, font.glyphs@));
    let chars = str_chars(font.index.as_str());
    let mut out_glyphs: Vec<Glyph> = Vec::new();
    let mut bitmap: Vec<u8> = Vec::new();
    let mut clipped: Vec<char> = Vec::new();
    let mut i: usize = 0;
    while i < glyphs.len()
        invariant
            size == font.size,
            pixels0 == bitmaps_view(font.bitmaps@),
            font.bitmaps@.len() == n,
            chars@ == font.index@,
            n == font.index@.len(),
            glyphs@ == placed,
            placed.len() == n,
            pixels0.len() == n,
            forall|k: int| 0 <= k < n ==> #[trigger] pixels0[k].len() == placed[k].width * placed[k].height,
            total_pixels(pixels0, n as nat) <= usize::MAX,
            i <= n,
            out_glyphs@ == Seq::new(i as nat, |k: int| assembled_glyph(size as int, placed, pixels0, k)),
            bitmap@ == preview_bitmap(size as int, placed, pixels0, i as nat),
            clipped@ == clipped_chars(size as int, font.index@, placed, i as nat),
        decreases n - i,
    {
        let mut pixels = font.bitmaps[i].clone();
        assert(pixels@ =~= pixels0[i as int]) by {
            assert forall|k: int| 0 <= k < pixels@.len() implies pixels@[k] == pixels0[i as int][k] by {
                assert(cloned::<u8>(font.bitmaps@[i as int]@[k], pixels@[k]));
            }
        }
        let mut g = glyphs[i];
        proof {
            lemma_clip_reads_full_bitmap(
                g.cell_width as int,
                size as int,
                g.x_offset as int,
                g.y_offset as int,
                g.width as int,
                g.height as int,
            );
            lemma_preview_bitmap_bound(size as int, placed, pixels0, i as nat);
            lemma_total_pixels_grows(pixels0, (i + 1) as nat, n as nat);
            lemma_fit_pixels_fewer(size as int, g, pixels@);
        }
        if fit_glyph_to_cell(size, &mut g, &mut pixels) {
            clipped.push(chars[i]);
        }
        let offset = bitmap.len() as u32;
        g.bitmap_offset = offset;
        pack_mono_pixels(pixels.as_slice(), &mut bitmap);
        out_glyphs.push(g);
        proof {
            assert(out_glyphs@ =~= Seq::new((i + 1) as nat, |k: int| assembled_glyph(size as int, placed, pixels0, k)));
        }
        i = i + 1;
    }
    let data = OwnedFontData { index: font.index.clone(), size, ascii_width, bitmap, glyphs: out_glyphs };
    (data, clipped)
}

} // verus!
