//! Font data produced by rasterization: a glyph index string, per-glyph
//! metrics and a packed bitmap of 1 to 8 bits per pixel.

use vstd::prelude::*;

use crate::geometry::{char_is_ascii, is_ascii_char, str_chars};

verus! {

/// One bitmap glyph: its bitmap bounds and offset into the packed bitmap,
/// the generated cell placement and the raw font metrics.
#[derive(Debug, Clone, Copy, PartialEq, Eq, Structural)]
pub struct Glyph {
    pub bitmap_offset: u32,
    pub width: u16,
    pub height: u16,
    pub cell_width: u16,
    pub x_offset: i16,
    pub y_offset: i16,
    pub x_min: i16,
    pub y_min: i16,
    pub advance_width: u16,
}

/// A rasterized font: `glyphs[i]` belongs to the `i`-th character of `index`.
#[derive(Debug, Clone, Copy, PartialEq, Eq)]
pub struct FontData<'a> {
    pub index: &'a str,
    pub size: u16,
    pub ascii_width: u16,
    pub bpp: u8,
    pub bitmap: &'a [u8],
    pub glyphs: &'a [Glyph],
}

/// The position of the first occurrence of `c` in `s`.
pub open spec fn first_index_of(s: Seq<char>, c: char) -> Option<int>
    decreases s.len(),
{
    if s.len() == 0 {
        None
    } else if s[0] == c {
        Some(0)
    } else {
        match first_index_of(s.drop_first(), c) {
            Some(i) => Some(i + 1),
            None => None,
        }
    }
}

/// What `first_index_of` finds: the first position holding `c`, or
/// nothing when no position does.
pub proof fn lemma_first_index_of(s: Seq<char>, c: char)
    ensures
        match first_index_of(s, c) {
            Some(i) => 0 <= i < s.len() && s[i] == c && forall|j: int| 0 <= j < i ==> s[j] != c,
            None => forall|j: int| 0 <= j < s.len() ==> s[j] != c,
        },
    decreases s.len(),
{
    if s.len() > 0 {
        lemma_first_index_of(s.drop_first(), c);
        if s[0] != c {
            assert forall|j: int| 1 <= j < s.len() implies s[j] == s.drop_first()[j - 1] by {}
        }
    }
}

/// An index shifted by `k`.
pub open spec fn shift_index(o: Option<int>, k: int) -> Option<int> {
    match o {
        Some(j) => Some(j + k),
        None => None,
    }
}

/// The glyph that a font with this index and these glyphs holds for `ch`.
pub open spec fn glyph_for(index: Seq<char>, glyphs: Seq<Glyph>, ch: char) -> Option<Glyph> {
    match first_index_of(index, ch) {
        Some(i) => if i < glyphs.len() {
            Some(glyphs[i])
        } else {
            None
        },
        None => None,
    }
}

/// The bits per pixel that a `bpp` field stands for: 1, 2, 3, 4 and 8 are
/// themselves, every other value reads as 1.
pub open spec fn normalized_bpp_of(bpp: u8) -> int {
    if bpp == 1 || bpp == 2 || bpp == 3 || bpp == 4 || bpp == 8 {
        bpp as int
    } else {
        1
    }
}

/// The largest sample value at `bpp` bits per pixel, `2^bpp - 1`.
pub open spec fn sample_max(bpp: int) -> int {
    if bpp == 1 {
        1
    } else if bpp == 2 {
        3
    } else if bpp == 3 {
        7
    } else if bpp == 4 {
        15
    } else {
        255
    }
}

/// Bit `i` of a packed bitmap, most significant bit of each byte first;
/// bits past the end read as 0.
pub open spec fn bit_of(bitmap: Seq<u8>, i: int) -> u8 {
    if 0 <= i && i / 8 < bitmap.len() {
        (bitmap[i / 8] >> ((7 - i % 8) as u8)) & 1u8
    } else {
        0
    }
}

/// The `n`-bit big-endian number read from `bitmap` at bit `start`.
pub open spec fn bits_value(bitmap: Seq<u8>, start: int, n: nat) -> int
    decreases n,
{
    if n == 0 {
        0
    } else {
        2 * bits_value(bitmap, start, (n - 1) as nat) + bit_of(bitmap, start + n - 1)
    }
}

/// The 4x4 ordered-dither thresholds used to show partial coverage on a
/// 1-bit display.
pub const BAYER_4X4: [u8; 16] = [0, 8, 2, 10, 12, 4, 14, 6, 3, 11, 1, 9, 15, 7, 13, 5];

/// The first bit of the pixel `(x, y)` of `glyph`.
pub open spec fn pixel_start_bit(glyph: Glyph, x: int, y: int, bpp: int) -> int {
    glyph.bitmap_offset * 8 + (y * glyph.width + x) * bpp
}

impl<'a> FontData<'a> {
    /// The glyph that the font holds for `ch`.
    pub open spec fn spec_glyph(&self, ch: char) -> Option<Glyph> {
        glyph_for(self.index@, self.glyphs@, ch)
    }

    /// The cell width of `ch`: the glyph's generated cell width, or for a
    /// missing glyph `ascii_width` for ASCII characters and `size` for others.
    pub open spec fn spec_cell_width(&self, ch: char) -> u16 {
        match self.spec_glyph(ch) {
            Some(g) => g.cell_width,
            None => if is_ascii_char(ch) {
                self.ascii_width
            } else {
                self.size
            },
        }
    }

    pub open spec fn spec_bpp(&self) -> int {
        normalized_bpp_of(self.bpp)
    }

    /// Whether every bit index that sampling the pixel `(x, y)` computes fits
    /// in a `usize`.
    pub open spec fn sample_addressable(&self, glyph: Glyph, x: int, y: int) -> bool {
        (x < glyph.width && y < glyph.height) ==> pixel_start_bit(glyph, x, y, self.spec_bpp())
            + self.spec_bpp() - 1 <= usize::MAX
    }

    /// The raw sample of the pixel `(x, y)` of `glyph`; pixels outside the
    /// glyph read as 0.
    pub open spec fn spec_sample(&self, glyph: Glyph, x: int, y: int) -> int {
        if x >= glyph.width || y >= glyph.height {
            0
        } else {
            bits_value(
                self.bitmap@,
                pixel_start_bit(glyph, x, y, self.spec_bpp()),
                self.spec_bpp() as nat,
            )
        }
    }

    /// Whether the pixel `(x, y)` of `glyph` is drawn on a 1-bit display:
    /// never for a zero sample, always for a full one, and otherwise where
    /// the sample beats the ordered-dither threshold of the pixel.
    pub open spec fn spec_glyph_pixel(&self, glyph: Glyph, x: int, y: int) -> bool {
        let s = self.spec_sample(glyph, x, y);
        let max = sample_max(self.spec_bpp());
        if s == 0 {
            false
        } else if s >= max {
            true
        } else {
            s * 16 > BAYER_4X4@[(y % 4) * 4 + x % 4] * max
        }
    }

    /// The coverage of the pixel `(x, y)` of `glyph` scaled to `0..=255`,
    /// rounded to nearest.
    pub open spec fn spec_glyph_coverage(&self, glyph: Glyph, x: int, y: int) -> int {
        let s = self.spec_sample(glyph, x, y);
        let max = sample_max(self.spec_bpp());
        if s == 0 {
            0
        } else {
            (s * 255 + max / 2) / max
        }
    }

    /// The glyph for `ch`: the glyph at the position of the first occurrence
    /// of `ch` in `index`, if there is one.
    pub fn glyph(&self, ch: char) -> (r: Option<&Glyph>)
        ensures
            match r {
                Some(g) => self.spec_glyph(ch) == Some(*g),
                None => self.spec_glyph(ch) is None,
            },
    {
        let chars = str_chars(self.index);
        let mut i: usize = 0;
        assert(chars@.skip(0) =~= chars@);
        while i < chars.len()
            invariant
                chars@ == self.index@,
                i <= chars@.len(),
                first_index_of(chars@, ch) == shift_index(
                    first_index_of(chars@.skip(i as int), ch),
                    i as int,
                ),
            decreases chars@.len() - i,
        {
            if chars[i] == ch {
                assert(first_index_of(chars@.skip(i as int), ch) == Some(0int));
                if i < self.glyphs.len() {
                    return Some(&self.glyphs[i]);
                } else {
                    return None;
                }
            }
            assert(chars@.skip(i as int).drop_first() =~= chars@.skip(i + 1));
            i = i + 1;
        }
        assert(chars@.skip(i as int).len() == 0);
        None
    }

    /// The cell width of `ch`.
    pub fn cell_width(&self, ch: char) -> (r: u16)
        ensures
            r == self.spec_cell_width(ch),
    {
        match self.glyph(ch) {
            Some(glyph) => glyph.cell_width,
            None => if char_is_ascii(ch) {
                self.ascii_width
            } else {
                self.size
            },
        }
    }

    /// Whether the pixel `(x, y)` of `glyph` is drawn on a 1-bit display.
    pub fn glyph_pixel(&self, glyph: &Glyph, x: u16, y: u16) -> (r: bool)
        requires
            self.sample_addressable(*glyph, x as int, y as int),
        ensures
            r == self.spec_glyph_pixel(*glyph, x as int, y as int),
    {
        let sample = self.glyph_sample(glyph, x, y);
        if sample == 0 {
            return false;
        }
        let bpp = self.normalized_bpp();
        let max = max_sample_value(bpp);
        if sample as u16 >= max {
            return true;
        }
        let threshold = BAYER_4X4[(y as usize % 4) * 4 + x as usize % 4] as u16;
        sample as u16 * 16 > threshold * max
    }

    /// Whether sampling the pixel `(x, y)` of `glyph` stays within `usize`.
    pub fn sample_fits(&self, glyph: &Glyph, x: u16, y: u16) -> (r: bool)
        ensures
            r == self.sample_addressable(*glyph, x as int, y as int),
    {
        if x >= glyph.width || y >= glyph.height {
            return true;
        }
        let bpp = self.normalized_bpp() as u64;
        proof {
            lemma_pixel_index_bound(x as int, y as int, glyph.width as int, glyph.height as int);
        }
        let index = y as u64 * glyph.width as u64 + x as u64;
        assert(index * bpp <= 0x1_0000_0000 * 8) by (nonlinear_arith)
            requires
                index < 0x1_0000_0000,
                bpp <= 8,
        ;
        let last = glyph.bitmap_offset as u64 * 8 + index * bpp + bpp - 1;
        last <= usize::MAX as u64
    }

    /// The coverage of the pixel `(x, y)` of `glyph`, scaled to `0..=255`.
    pub fn glyph_coverage(&self, glyph: &Glyph, x: u16, y: u16) -> (r: u8)
        requires
            self.sample_addressable(*glyph, x as int, y as int),
        ensures
            r == self.spec_glyph_coverage(*glyph, x as int, y as int),
    {
        let sample = self.glyph_sample(glyph, x, y) as u16;
        if sample == 0 {
            return 0;
        }
        let max = max_sample_value(self.normalized_bpp());
        proof {
            lemma_sample_at_most_max(*self, *glyph, x as int, y as int);
            assert(sample * 255 + max / 2 <= 255 * 255 + 127);
            assert((sample * 255 + max / 2) / (max as int) <= 255) by (nonlinear_arith)
                requires
                    sample <= max,
                    1 <= max <= 255,
            {
                assert(sample * 255 + max / 2 <= max * 255 + max / 2);
                assert(max * 255 + max / 2 < max * 256);
            }
        }
        ((sample * 255 + max / 2) / max) as u8
    }

    /// The raw sample of the pixel `(x, y)` of `glyph`.
    fn glyph_sample(&self, glyph: &Glyph, x: u16, y: u16) -> (r: u8)
        requires
            self.sample_addressable(*glyph, x as int, y as int),
        ensures
            r == self.spec_sample(*glyph, x as int, y as int),
    {
        if x >= glyph.width || y >= glyph.height {
            return 0;
        }
        let bpp = self.normalized_bpp() as usize;
        let w = glyph.width as usize;
        let h = glyph.height as usize;
        proof {
            lemma_pixel_index_bound(x as int, y as int, w as int, h as int);
        }
        let pixel_index = y as usize * w + x as usize;
        let start_bit = glyph.bitmap_offset as usize * 8 + pixel_index * bpp;
        let mut sample = 0u8;
        for offset in 0..bpp
            invariant
                bpp == self.spec_bpp(),
                1 <= bpp <= 8,
                start_bit + bpp - 1 <= usize::MAX,
                start_bit == pixel_start_bit(*glyph, x as int, y as int, bpp as int),
                sample == bits_value(self.bitmap@, start_bit as int, offset as nat),
        {
            proof {
                lemma_bits_value_bound(self.bitmap@, start_bit as int, offset as nat);
            }
            let bit_index = start_bit + offset;
            let bit = (7 - (bit_index % 8)) as u8;
            let b: u8 = if bit_index / 8 < self.bitmap.len() {
                let byte = self.bitmap[bit_index / 8];
                let v = (byte >> bit) & 1;
                proof {
                    assert(v <= 1) by (bit_vector)
                        requires
                            v == (byte >> bit) & 1u8,
                    ;
                }
                v
            } else {
                0
            };
            proof {
                assert(b == bit_of(self.bitmap@, bit_index as int));
                lemma_pow2_small(offset as nat);
                assert(sample < 128);
                assert((sample << 1u8) | b == sample * 2 + b) by (bit_vector)
                    requires
                        sample < 128,
                        b <= 1,
                ;
            }
            sample = (sample << 1) | b;
        }
        sample
    }

    /// The bits per pixel of the bitmap: `bpp` when it is 1, 2, 3, 4 or 8,
    /// and 1 otherwise.
    fn normalized_bpp(&self) -> (r: u8)
        ensures
            r == self.spec_bpp(),
    {
        match self.bpp {
            1 | 2 | 3 | 4 | 8 => self.bpp,
            _ => 1,
        }
    }
}


/// `2^n`.
pub open spec fn pow2_nat(n: nat) -> int
    decreases n,
{
    if n == 0 {
        1
    } else {
        2 * pow2_nat((n - 1) as nat)
    }
}

/// Small powers of two.
proof fn lemma_pow2_small(n: nat)
    requires
        n <= 8,
    ensures
        n <= 7 ==> pow2_nat(n) <= 128,
        pow2_nat(n) <= 256,
{
    assert(pow2_nat(0) == 1);
    assert(pow2_nat(1) == 2);
    assert(pow2_nat(2) == 4);
    assert(pow2_nat(3) == 8);
    assert(pow2_nat(4) == 16);
    assert(pow2_nat(5) == 32);
    assert(pow2_nat(6) == 64);
    assert(pow2_nat(7) == 128);
    assert(pow2_nat(8) == 256);
}

/// An `n`-bit value lies in `0..2^n`.
proof fn lemma_bits_value_bound(bitmap: Seq<u8>, start: int, n: nat)
    ensures
        0 <= bits_value(bitmap, start, n) < pow2_nat(n),
    decreases n,
{
    if n > 0 {
        lemma_bits_value_bound(bitmap, start, (n - 1) as nat);
        let i = start + n - 1;
        if 0 <= i && i / 8 < bitmap.len() {
            let byte = bitmap[i / 8];
            let sh = (7 - i % 8) as u8;
            assert((byte >> sh) & 1u8 <= 1) by (bit_vector);
        }
    }
}

/// A sample never exceeds the largest value at the font's bit depth.
pub proof fn lemma_sample_at_most_max(font: FontData, glyph: Glyph, x: int, y: int)
    ensures
        0 <= font.spec_sample(glyph, x, y) <= sample_max(font.spec_bpp()),
{
    let b = font.spec_bpp();
    if !(x >= glyph.width || y >= glyph.height) {
        lemma_bits_value_bound(font.bitmap@, pixel_start_bit(glyph, x, y, b), b as nat);
        assert(pow2_nat(0) == 1);
        assert(pow2_nat(1) == 2);
        assert(pow2_nat(2) == 4);
        assert(pow2_nat(3) == 8);
        assert(pow2_nat(4) == 16);
        assert(pow2_nat(5) == 32);
        assert(pow2_nat(6) == 64);
        assert(pow2_nat(7) == 128);
        assert(pow2_nat(8) == 256);
    }
}

/// The linear index of a pixel inside a `w` by `h` glyph fits in 32 bits.
proof fn lemma_pixel_index_bound(x: int, y: int, w: int, h: int)
    requires
        0 <= x < w <= 65535,
        0 <= y < h <= 65535,
    ensures
        0 <= y * w,
        y * w + x < w * h,
        w * h < 0x1_0000_0000,
{
    assert(y * w <= (h - 1) * w) by (nonlinear_arith)
        requires
            0 <= y < h,
            0 <= w,
    ;
    assert((h - 1) * w == h * w - w) by (nonlinear_arith);
    assert(w * h <= 65535 * 65535) by (nonlinear_arith)
        requires
            0 <= w <= 65535,
            0 <= h <= 65535,
    ;
    assert(0 <= y * w) by (nonlinear_arith)
        requires
            0 <= y,
            0 <= w,
    ;
}

/// `2^bpp - 1` for a normalized bit depth.
fn max_sample_value(bpp: u8) -> (r: u16)
    requires
        bpp == 1 || bpp == 2 || bpp == 3 || bpp == 4 || bpp == 8,
    ensures
        r == sample_max(bpp as int),
        1 <= r <= 255,
{
    let shift = bpp as u16;
    proof {
        assert(1u16 << 1u16 == 2) by (bit_vector);
        assert(1u16 << 2u16 == 4) by (bit_vector);
        assert(1u16 << 3u16 == 8) by (bit_vector);
        assert(1u16 << 4u16 == 16) by (bit_vector);
        assert(1u16 << 8u16 == 256) by (bit_vector);
    }
    (1u16 << shift) - 1
}

} // verus!
