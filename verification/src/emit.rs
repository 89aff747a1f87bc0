//! Packing rasterized coverage into the font bitmap.

use vstd::prelude::*;

use crate::blocks::codepoints;
use crate::font::bit_of;
use crate::raster::BitmapGlyph;
use crate::writer::{
    debug_str_literal, decimal, push_chars, push_chars_literal, push_decimal, push_decimal_u64, push_str,
};

verus! {

/// The sample that a pixel contributes at `bpp` bits per pixel: its top
/// `bpp` bits.
pub open spec fn sample_of(pixel: u8, bpp: int) -> u8 {
    pixel >> ((8 - bpp) as u8)
}

/// Bit `m` of a byte, most significant bit first.
pub open spec fn byte_bit(byte: u8, m: int) -> u8 {
    (byte >> ((7 - m) as u8)) & 1u8
}

/// Bit `t` of the packed stream: the samples of the pixels one after the
/// other, each most significant bit first.
pub open spec fn stream_bit(pixels: Seq<u8>, bpp: int, t: int) -> u8 {
    (sample_of(pixels[t / bpp], bpp) >> ((bpp - 1 - t % bpp) as u8)) & 1u8
}

proof fn lemma_stream_index(i: int, k: int, bpp: int)
    requires
        0 <= k < bpp,
        0 <= i,
    ensures
        (i * bpp + k) / bpp == i,
        (i * bpp + k) % bpp == k,
{
    vstd::arithmetic::div_mod::lemma_fundamental_div_mod_converse(i * bpp + k, bpp, i, k);
}

/// Setting bit `used` of a byte whose bits from `used` on are clear keeps
/// the bits before it and leaves the bits after it clear.
proof fn lemma_set_bit(byte: u8, bit: u8, used: u8, m: u8)
    by (bit_vector)
    requires
        bit <= 1,
        used < 8,
        m < 8,
        m >= used ==> (byte >> ((7 - m) as u8)) & 1 == 0,
    ensures
        m < used ==> ((byte | (bit << ((7 - used) as u8))) >> ((7 - m) as u8)) & 1 == (byte >> ((7
            - m) as u8)) & 1,
        m == used ==> ((byte | (bit << ((7 - used) as u8))) >> ((7 - m) as u8)) & 1 == bit,
        m > used ==> ((byte | (bit << ((7 - used) as u8))) >> ((7 - m) as u8)) & 1 == 0,
{
}

/// Pushing a byte keeps the bits before it.
proof fn lemma_bit_of_push(bm: Seq<u8>, v: u8, k: int)
    requires
        0 <= k < bm.len() * 8,
    ensures
        bit_of(bm.push(v), k) == bit_of(bm, k),
{
    vstd::arithmetic::div_mod::lemma_fundamental_div_mod_converse(k, 8, k / 8, k % 8);
    assert(k / 8 < bm.len());
    assert(bm.push(v)[k / 8] == bm[k / 8]);
}

/// The bits after the old end are those of the pushed byte.
proof fn lemma_bit_of_pushed(bm: Seq<u8>, v: u8, m: int)
    requires
        0 <= m < 8,
    ensures
        bit_of(bm.push(v), bm.len() * 8 + m) == byte_bit(v, m),
{
    vstd::arithmetic::div_mod::lemma_fundamental_div_mod_converse(bm.len() * 8 + m, 8, bm.len() as int, m);
}

proof fn lemma_zero_byte(m: u8)
    by (bit_vector)
    requires
        m < 8,
    ensures
        (0u8 >> ((7 - m) as u8)) & 1 == 0,
{
}

proof fn lemma_one_bit(v: u8, s: u8)
    by (bit_vector)
    requires
        s < 8,
    ensures
        (v >> s) & 1 <= 1,
{
}

/// Appends the samples of `pixels` at `bpp` bits per pixel to `out` as one
/// bit stream, most significant bit first, padding the last byte with
/// zero bits.
pub fn pack_pixels(pixels: &[u8], bpp: u8, out: &mut Vec<u8>)
    requires
        1 <= bpp <= 8,
        old(out)@.len() + pixels@.len() <= usize::MAX,
    ensures
        final(out)@.len() == old(out)@.len() + (pixels@.len() * bpp + 7) / 8,
        final(out)@.take(old(out)@.len() as int) == old(out)@,
        forall|s: int|
            0 <= s < pixels@.len() * bpp ==> #[trigger] bit_of(final(out)@, old(out)@.len() * 8 + s)
                == stream_bit(pixels@, bpp as int, s),
        forall|s: int|
            pixels@.len() * bpp <= s < (final(out)@.len() - old(out)@.len()) * 8 ==> #[trigger] bit_of(
                final(out)@,
                old(out)@.len() * 8 + s,
            ) == 0,
        final(out)@ == old(out)@ + packed_bytes(pixels@, bpp as int),
{
    let ghost base = old(out)@.len() as int;
    let ghost start = old(out)@;
    let ghost b = bpp as int;
    let mut byte = 0u8;
    let mut used = 0u8;
    let ghost mut t: int = 0;
    let mut i: usize = 0;
    proof {
        assert forall|m: int| 0 <= m < 8 implies byte_bit(byte, m) == 0 by {
            lemma_zero_byte(m as u8);
        }
    }
    while i < pixels.len()
        invariant
            1 <= bpp <= 8,
            b == bpp,
            base + pixels@.len() <= usize::MAX,
            base >= 0,
            i <= pixels@.len(),
            t == i * b,
            used < 8,
            out@.len() * 8 + used == base * 8 + t,
            out@.len() >= base,
            out@.take(base) == start,
            forall|s: int| 0 <= s < t - used ==> #[trigger] bit_of(out@, base * 8 + s) == stream_bit(pixels@, b, s),
            forall|m: int| 0 <= m < used ==> #[trigger] byte_bit(byte, m) == stream_bit(pixels@, b, t - used + m),
            forall|m: int| used <= m < 8 ==> #[trigger] byte_bit(byte, m) == 0,
        decreases pixels@.len() - i,
    {
        let sample = pixels[i] >> (8 - bpp);
        let mut k: u8 = 0;
        while k < bpp
            invariant
                1 <= bpp <= 8,
                b == bpp,
                base + pixels@.len() <= usize::MAX,
                base >= 0,
            base >= 0,
                i < pixels@.len(),
                k <= bpp,
                sample == sample_of(pixels@[i as int], b),
                t == i * b + k,
                used < 8,
                out@.len() * 8 + used == base * 8 + t,
                out@.len() >= base,
                out@.take(base) == start,
                forall|s: int| 0 <= s < t - used ==> #[trigger] bit_of(out@, base * 8 + s) == stream_bit(pixels@, b, s),
                forall|m: int| 0 <= m < used ==> #[trigger] byte_bit(byte, m) == stream_bit(pixels@, b, t - used + m),
                forall|m: int| used <= m < 8 ==> #[trigger] byte_bit(byte, m) == 0,
            decreases bpp - k,
        {
            let bit_offset = bpp - 1 - k;
            let bit = (sample >> bit_offset) & 1;
            proof {
                lemma_one_bit(sample, bit_offset);
                lemma_stream_index(i as int, k as int, b);
                assert(bit == stream_bit(pixels@, b, t));
            }
            let ghost old_byte = byte;
            byte = byte | (bit << (7 - used));
            proof {
                assert forall|m: int| 0 <= m < 8 implies #[trigger] byte_bit(byte, m) == if m < used {
                    byte_bit(old_byte, m)
                } else if m == used {
                    bit
                } else {
                    0
                } by {
                    assert((m as u8) as int == m);
                    if m >= used {
                        assert(byte_bit(old_byte, m) == 0);
                    }
                    lemma_set_bit(old_byte, bit, used, m as u8);
                }
            }
            used = used + 1;
            proof {
                t = t + 1;
            }
            if used == 8 {
                let ghost before = out@;
                out.push(byte);
                proof {
                    assert(before.len() * 8 + 8 == base * 8 + t);
                    assert forall|s: int| 0 <= s < t implies #[trigger] bit_of(out@, base * 8 + s) == stream_bit(pixels@, b, s) by {
                        if s < t - 8 {
                            lemma_bit_of_push(before, byte, base * 8 + s);
                        } else {
                            let m = s - (t - 8);
                            assert(base * 8 + s == before.len() * 8 + m);
                            lemma_bit_of_pushed(before, byte, m);
                            assert(byte_bit(byte, m) == stream_bit(pixels@, b, t - 8 + m));
                        }
                    }
                    assert(out@.take(base) =~= before.take(base));
                }
                byte = 0;
                used = 0;
                proof {
                    assert forall|m: int| 0 <= m < 8 implies #[trigger] byte_bit(byte, m) == 0 by {
                        lemma_zero_byte(m as u8);
                    }
                }
            }
            k = k + 1;
        }
        proof {
            assert((i + 1) * b == i * b + b) by (nonlinear_arith);
        }
        i = i + 1;
    }
    let ghost before = out@;
    assert(t == pixels@.len() * b);
    if used != 0 {
        out.push(byte);
        proof {
            assert(out@.take(base) =~= before.take(base));
        }
    }
    proof {
        let n = (out@.len() - base) as int;
        assert(n == (t + 7) / 8);
        assert forall|s: int| 0 <= s < n * 8 implies #[trigger] bit_of(out@, base * 8 + s) == if s < t {
            stream_bit(pixels@, b, s)
        } else {
            0u8
        } by {
            if used != 0 {
                if s < t - used {
                    lemma_bit_of_push(before, byte, base * 8 + s);
                } else {
                    let m = s - (t - used);
                    assert(base * 8 + s == before.len() * 8 + m);
                    lemma_bit_of_pushed(before, byte, m);
                }
            }
        }
    }
    proof {
        lemma_packed_bytes(old(out)@, out@, pixels@, b);
    }
}


/// Byte `j` of the packed stream: its eight bits, most significant first;
/// bits past the end of the stream are 0.
pub open spec fn stream_byte(pixels: Seq<u8>, bpp: int, j: int) -> u8 {
    let bit = |m: int| if j * 8 + m < pixels.len() * bpp {
        stream_bit(pixels, bpp, j * 8 + m)
    } else {
        0u8
    };
    (bit(0) << 7u8) | (bit(1) << 6u8) | (bit(2) << 5u8) | (bit(3) << 4u8) | (bit(4) << 3u8) | (bit(5) << 2u8)
        | (bit(6) << 1u8) | bit(7)
}

/// The bytes that `pixels` pack into at `bpp` bits per pixel.
pub open spec fn packed_bytes(pixels: Seq<u8>, bpp: int) -> Seq<u8> {
    Seq::new(((pixels.len() * bpp + 7) / 8) as nat, |j: int| stream_byte(pixels, bpp, j))
}

proof fn lemma_byte_from_bits(x: u8)
    by (bit_vector)
    ensures
        x == (byte_bit(x, 0) << 7u8) | (byte_bit(x, 1) << 6u8) | (byte_bit(x, 2) << 5u8) | (byte_bit(x, 3) << 4u8)
            | (byte_bit(x, 4) << 3u8) | (byte_bit(x, 5) << 2u8) | (byte_bit(x, 6) << 1u8) | byte_bit(x, 7),
{
}

proof fn lemma_bit_of_byte(bm: Seq<u8>, k: int, m: int)
    requires
        0 <= k < bm.len(),
        0 <= m < 8,
    ensures
        bit_of(bm, k * 8 + m) == byte_bit(bm[k], m),
{
    vstd::arithmetic::div_mod::lemma_fundamental_div_mod_converse(k * 8 + m, 8, k, m);
}

proof fn lemma_packed_bytes(start: Seq<u8>, out: Seq<u8>, pixels: Seq<u8>, bpp: int)
    requires
        1 <= bpp <= 8,
        out.len() == start.len() + (pixels.len() * bpp + 7) / 8,
        out.take(start.len() as int) == start,
        forall|s: int| 0 <= s < pixels.len() * bpp ==> #[trigger] bit_of(out, start.len() * 8 + s) == stream_bit(pixels, bpp, s),
        forall|s: int|
            pixels.len() * bpp <= s < (out.len() - start.len()) * 8 ==> #[trigger] bit_of(out, start.len() * 8 + s) == 0,
    ensures
        out == start + packed_bytes(pixels, bpp),
{
    let packed = packed_bytes(pixels, bpp);
    let base = start.len() as int;
    assert forall|j: int| 0 <= j < packed.len() implies out[base + j] == #[trigger] packed[j] by {
        let x = out[base + j];
        assert forall|m: int| 0 <= m < 8 implies #[trigger] byte_bit(x, m) == if j * 8 + m < pixels.len() * bpp {
            stream_bit(pixels, bpp, j * 8 + m)
        } else {
            0u8
        } by {
            lemma_bit_of_byte(out, base + j, m);
            assert((base + j) * 8 + m == base * 8 + (j * 8 + m));
            let s = j * 8 + m;
            assert(s < (out.len() - start.len()) * 8);
            if s < pixels.len() * bpp {
                assert(bit_of(out, start.len() * 8 + s) == stream_bit(pixels, bpp, s));
            } else {
                assert(bit_of(out, start.len() * 8 + s) == 0);
            }
        }
        lemma_byte_from_bits(x);
        assert(byte_bit(x, 0) == (if j * 8 + 0 < pixels.len() * bpp { stream_bit(pixels, bpp, j * 8 + 0) } else { 0u8 }));
        assert(byte_bit(x, 1) == (if j * 8 + 1 < pixels.len() * bpp { stream_bit(pixels, bpp, j * 8 + 1) } else { 0u8 }));
        assert(byte_bit(x, 2) == (if j * 8 + 2 < pixels.len() * bpp { stream_bit(pixels, bpp, j * 8 + 2) } else { 0u8 }));
        assert(byte_bit(x, 3) == (if j * 8 + 3 < pixels.len() * bpp { stream_bit(pixels, bpp, j * 8 + 3) } else { 0u8 }));
        assert(byte_bit(x, 4) == (if j * 8 + 4 < pixels.len() * bpp { stream_bit(pixels, bpp, j * 8 + 4) } else { 0u8 }));
        assert(byte_bit(x, 5) == (if j * 8 + 5 < pixels.len() * bpp { stream_bit(pixels, bpp, j * 8 + 5) } else { 0u8 }));
        assert(byte_bit(x, 6) == (if j * 8 + 6 < pixels.len() * bpp { stream_bit(pixels, bpp, j * 8 + 6) } else { 0u8 }));
        assert(byte_bit(x, 7) == (if j * 8 + 7 < pixels.len() * bpp { stream_bit(pixels, bpp, j * 8 + 7) } else { 0u8 }));
    }
    assert forall|i: int| 0 <= i < base implies out[i] == start[i] by {
        assert(out.take(base)[i] == out[i]);
    }
    assert(out =~= start + packed);
}

// ---------------------------------------------------------------------------
// Glyph order.
// ---------------------------------------------------------------------------

/// Where a glyph with codepoint `c` goes in `sorted`: after every glyph
/// whose codepoint is at most `c`, counting from the end.
pub open spec fn insertion_point(sorted: Seq<BitmapGlyph>, c: char) -> int
    decreases sorted.len(),
{
    if sorted.len() == 0 {
        0
    } else if sorted.last().codepoint <= c {
        sorted.len() as int
    } else {
        insertion_point(sorted.drop_last(), c)
    }
}

/// The first `k` glyphs in codepoint order; glyphs with equal codepoints
/// keep their order.
pub open spec fn sorted_glyphs(glyphs: Seq<BitmapGlyph>, k: nat) -> Seq<BitmapGlyph>
    decreases k,
{
    if k == 0 {
        Seq::empty()
    } else {
        let s = sorted_glyphs(glyphs, (k - 1) as nat);
        s.insert(insertion_point(s, glyphs[k - 1].codepoint), glyphs[k - 1])
    }
}

/// Whether the glyphs' codepoints never decrease.
pub open spec fn codepoint_sorted(glyphs: Seq<BitmapGlyph>) -> bool {
    forall|i: int, j: int| 0 <= i < j < glyphs.len() ==> glyphs[i].codepoint <= glyphs[j].codepoint
}

proof fn lemma_insertion_point(sorted: Seq<BitmapGlyph>, c: char)
    requires
        codepoint_sorted(sorted),
    ensures
        0 <= insertion_point(sorted, c) <= sorted.len(),
        forall|i: int| 0 <= i < insertion_point(sorted, c) ==> sorted[i].codepoint <= c,
        forall|i: int| insertion_point(sorted, c) <= i < sorted.len() ==> sorted[i].codepoint > c,
    decreases sorted.len(),
{
    if sorted.len() > 0 {
        let n = sorted.len() - 1;
        if sorted.last().codepoint > c {
            let d = sorted.drop_last();
            assert(codepoint_sorted(d));
            lemma_insertion_point(d, c);
            assert forall|i: int| insertion_point(sorted, c) <= i < sorted.len() implies sorted[i].codepoint > c by {
                if i < n {
                    assert(d[i] == sorted[i]);
                }
            }
            assert forall|i: int| 0 <= i < insertion_point(sorted, c) implies sorted[i].codepoint <= c by {
                assert(d[i] == sorted[i]);
            }
        } else {
            assert forall|i: int| 0 <= i < insertion_point(sorted, c) implies sorted[i].codepoint <= c by {
                if i < n {
                    assert(sorted[i].codepoint <= sorted[n].codepoint);
                }
            }
        }
    }
}

/// The glyphs sorted by codepoint stay sorted as more are inserted.
pub proof fn lemma_sorted_glyphs_sorted(glyphs: Seq<BitmapGlyph>, k: nat)
    requires
        k <= glyphs.len(),
    ensures
        codepoint_sorted(sorted_glyphs(glyphs, k)),
        sorted_glyphs(glyphs, k).len() == k,
    decreases k,
{
    if k > 0 {
        let s = sorted_glyphs(glyphs, (k - 1) as nat);
        lemma_sorted_glyphs_sorted(glyphs, (k - 1) as nat);
        let g = glyphs[k - 1];
        lemma_insertion_point(s, g.codepoint);
        let p = insertion_point(s, g.codepoint);
        let t = s.insert(p, g);
        assert forall|i: int, j: int| 0 <= i < j < t.len() implies t[i].codepoint <= t[j].codepoint by {
            if j < p {
            } else if j == p {
            } else if i < p {
                assert(t[j] == s[j - 1]);
            } else if i == p {
                assert(t[j] == s[j - 1]);
            } else {
                assert(t[i] == s[i - 1]);
                assert(t[j] == s[j - 1]);
            }
        }
    }
}

/// Sorts glyphs by codepoint, keeping the order of glyphs with equal
/// codepoints.
pub fn sort_by_codepoint(glyphs: Vec<BitmapGlyph>) -> (r: Vec<BitmapGlyph>)
    ensures
        r@ == sorted_glyphs(glyphs@, glyphs@.len()),
        codepoint_sorted(r@),
{
    let ghost all = glyphs@;
    let total = glyphs.len();
    let mut rest = glyphs;
    let mut sorted: Vec<BitmapGlyph> = Vec::new();
    let mut k: usize = 0;
    proof {
        assert(rest@ =~= all.skip(0));
    }
    while rest.len() > 0
        invariant
            total == all.len(),
            k <= all.len(),
            rest@ == all.skip(k as int),
            sorted@ == sorted_glyphs(all, k as nat),
            codepoint_sorted(sorted@),
        decreases rest@.len(),
    {
        let g = rest.remove(0);
        assert(g == all[k as int]);
        assert(rest@ =~= all.skip(k + 1));
        proof {
            lemma_sorted_glyphs_sorted(all, (k + 1) as nat);
        }
        let c = g.codepoint;
        let mut pos: usize = sorted.len();
        assert(sorted@.take(pos as int) =~= sorted@);
        while pos > 0 && sorted[pos - 1].codepoint > c
            invariant
                pos <= sorted@.len(),
                insertion_point(sorted@, c) == insertion_point(sorted@.take(pos as int), c),
            decreases pos,
        {
            assert(sorted@.take(pos as int).drop_last() =~= sorted@.take(pos - 1));
            pos = pos - 1;
        }
        assert(insertion_point(sorted@.take(pos as int), c) == pos);
        sorted.insert(pos, g);
        k = k + 1;
    }
    proof {
        assert(all.skip(k as int).len() == 0);
    }
    sorted
}

// ---------------------------------------------------------------------------
// The generated source.
// ---------------------------------------------------------------------------

/// The packed bitmaps of the first `k` glyphs, one after the other.
pub open spec fn glyphs_bitmap(glyphs: Seq<BitmapGlyph>, bpp: int, k: nat) -> Seq<u8>
    decreases k,
{
    if k == 0 {
        Seq::empty()
    } else {
        glyphs_bitmap(glyphs, bpp, (k - 1) as nat) + packed_bytes(glyphs[k - 1].bitmap@, bpp)
    }
}

/// Where each glyph's bitmap starts in the packed bitmap (as `u32`).
pub open spec fn glyph_offsets(glyphs: Seq<BitmapGlyph>, bpp: int) -> Seq<u32> {
    Seq::new(glyphs.len(), |k: int| glyphs_bitmap(glyphs, bpp, k as nat).len() as u32)
}

/// The number of pixels of the first `k` glyphs.
pub open spec fn pixel_total(glyphs: Seq<BitmapGlyph>, k: nat) -> int
    decreases k,
{
    if k == 0 {
        0
    } else {
        pixel_total(glyphs, (k - 1) as nat) + glyphs[k - 1].bitmap@.len()
    }
}

/// The source of one glyph record.
pub open spec fn glyph_entry(g: BitmapGlyph, offset: u32) -> Seq<char> {
    "    glyph_cell::Glyph {\n        bitmap_offset: "@ + decimal(offset as int) + ",\n        width: "@ + decimal(
        g.width as int,
    ) + ",\n        height: "@ + decimal(g.height as int) + ",\n        cell_width: "@ + decimal(g.cell_width as int)
        + ",\n        x_offset: "@ + decimal(g.x_offset as int) + ",\n        y_offset: "@ + decimal(g.y_offset as int)
        + ",\n        x_min: "@ + decimal(g.x_min as int) + ",\n        y_min: "@ + decimal(g.y_min as int)
        + ",\n        advance_width: "@ + decimal(g.advance_width as int) + ",\n    },\n"@
}

/// The records of the first `k` glyphs.
pub open spec fn glyph_entries(glyphs: Seq<BitmapGlyph>, offsets: Seq<u32>, k: nat) -> Seq<char>
    decreases k,
{
    if k == 0 {
        Seq::empty()
    } else {
        glyph_entries(glyphs, offsets, (k - 1) as nat) + glyph_entry(glyphs[k - 1], offsets[k - 1])
    }
}

/// The source of the glyph table.
pub open spec fn glyphs_text(glyphs: Seq<BitmapGlyph>, offsets: Seq<u32>) -> Seq<char> {
    "const GLYPHS: [glyph_cell::Glyph; "@ + decimal(glyphs.len() as int) + "] = [\n"@ + glyph_entries(
        glyphs,
        offsets,
        glyphs.len(),
    ) + "];\n\n"@
}

/// A byte as eight binary digits, most significant first.
pub open spec fn binary8(b: u8) -> Seq<char> {
    Seq::new(8, |m: int| if byte_bit(b, m) == 1 { '1' } else { '0' })
}

/// The lines of the first `k` bytes of the bitmap table.
pub open spec fn byte_lines(bitmap: Seq<u8>, k: nat) -> Seq<char>
    decreases k,
{
    if k == 0 {
        Seq::empty()
    } else {
        byte_lines(bitmap, (k - 1) as nat) + "    0b"@ + binary8(bitmap[k - 1]) + ",\n"@
    }
}

/// The source of the bitmap table.
pub open spec fn bitmap_text(bitmap: Seq<u8>) -> Seq<char> {
    "const BITMAP: [u8; "@ + decimal(bitmap.len() as int) + "] = [\n"@ + byte_lines(bitmap, bitmap.len()) + "];\n\n"@
}

/// The source of the font value.
pub open spec fn font_text(size: u16, ascii_width: u16, bpp: u8, glyphs: Seq<BitmapGlyph>) -> Seq<char> {
    "glyph_cell::FontData {\n    index: "@ + debug_str_literal(codepoints(glyphs)) + ",\n    size: "@ + decimal(size as int)
        + ",\n    ascii_width: "@ + decimal(ascii_width as int) + ",\n    bpp: "@ + decimal(bpp as int)
        + ",\n    bitmap: &BITMAP,\n    glyphs: &GLYPHS,\n}\n"@
}

/// The generated source of a font: the glyph table, the packed bitmap and
/// the font value.
pub open spec fn spec_source(size: u16, ascii_width: u16, bpp: u8, glyphs: Seq<BitmapGlyph>) -> Seq<char> {
    glyphs_text(glyphs, glyph_offsets(glyphs, bpp as int)) + bitmap_text(glyphs_bitmap(glyphs, bpp as int, glyphs.len()))
        + font_text(size, ascii_width, bpp, glyphs)
}

fn glyph_entry_text(g: &BitmapGlyph, offset: u32) -> (r: Vec<char>)
    ensures
        r@ == glyph_entry(*g, offset),
{
    let mut out: Vec<char> = Vec::new();
    let first = "    glyph_cell::Glyph {\n        bitmap_offset: ";
    push_str(&mut out, first);
    assert(out@ =~= first@);
    push_decimal(&mut out, offset as i64);
    push_str(&mut out, ",\n        width: ");
    push_decimal(&mut out, g.width as i64);
    push_str(&mut out, ",\n        height: ");
    push_decimal(&mut out, g.height as i64);
    push_str(&mut out, ",\n        cell_width: ");
    push_decimal(&mut out, g.cell_width as i64);
    push_str(&mut out, ",\n        x_offset: ");
    push_decimal(&mut out, g.x_offset as i64);
    push_str(&mut out, ",\n        y_offset: ");
    push_decimal(&mut out, g.y_offset as i64);
    push_str(&mut out, ",\n        x_min: ");
    push_decimal(&mut out, g.x_min as i64);
    push_str(&mut out, ",\n        y_min: ");
    push_decimal(&mut out, g.y_min as i64);
    push_str(&mut out, ",\n        advance_width: ");
    push_decimal(&mut out, g.advance_width as i64);
    push_str(&mut out, ",\n    },\n");
    out
}

/// Writes the glyph table.
pub fn write_glyphs(out: &mut Vec<char>, glyphs: &[BitmapGlyph], offsets: &[u32])
    requires
        glyphs@.len() == offsets@.len(),
    ensures
        final(out)@ == old(out)@ + glyphs_text(glyphs@, offsets@),
{
    let ghost start = out@;
    push_str(out, "const GLYPHS: [glyph_cell::Glyph; ");
    push_decimal_u64(out, glyphs.len() as u64);
    push_str(out, "] = [\n");
    let ghost head = out@;
    let mut k: usize = 0;
    while k < glyphs.len()
        invariant
            glyphs@.len() == offsets@.len(),
            k <= glyphs@.len(),
            out@ == head + glyph_entries(glyphs@, offsets@, k as nat),
        decreases glyphs@.len() - k,
    {
        let entry = glyph_entry_text(&glyphs[k], offsets[k]);
        let ghost before = out@;
        push_chars(out, &entry);
        proof {
            assert(out@ =~= head + glyph_entries(glyphs@, offsets@, (k + 1) as nat));
        }
        k = k + 1;
    }
    push_str(out, "];\n\n");
    assert(out@ =~= start + glyphs_text(glyphs@, offsets@));
}

/// Writes the bitmap table, one byte per line in binary.
pub fn write_bitmap(out: &mut Vec<char>, bitmap: &[u8])
    ensures
        final(out)@ == old(out)@ + bitmap_text(bitmap@),
{
    let ghost start = out@;
    push_str(out, "const BITMAP: [u8; ");
    push_decimal_u64(out, bitmap.len() as u64);
    push_str(out, "] = [\n");
    let ghost head = out@;
    let mut k: usize = 0;
    while k < bitmap.len()
        invariant
            k <= bitmap@.len(),
            out@ == head + byte_lines(bitmap@, k as nat),
        decreases bitmap@.len() - k,
    {
        let byte = bitmap[k];
        let ghost before = out@;
        push_str(out, "    0b");
        let mut m: u8 = 0;
        while m < 8
            invariant
                m <= 8,
                out@ == before + "    0b"@ + binary8(byte).take(m as int),
            decreases 8 - m,
        {
            let bit = (byte >> (7 - m)) & 1;
            out.push(if bit == 1 { '1' } else { '0' });
            proof {
                assert(bit == byte_bit(byte, m as int));
                assert(out@ =~= before + "    0b"@ + binary8(byte).take(m + 1));
            }
            m = m + 1;
        }
        assert(binary8(byte).take(8) =~= binary8(byte));
        push_str(out, ",\n");
        proof {
            assert(out@ =~= head + byte_lines(bitmap@, (k + 1) as nat));
        }
        k = k + 1;
    }
    push_str(out, "];\n\n");
    assert(out@ =~= start + bitmap_text(bitmap@));
}

/// Writes the font value.
pub fn write_font(out: &mut Vec<char>, size: u16, ascii_width: u16, bpp: u8, glyphs: &[BitmapGlyph])
    ensures
        final(out)@ == old(out)@ + font_text(size, ascii_width, bpp, glyphs@),
{
    let ghost start = out@;
    let mut index: Vec<char> = Vec::new();
    let mut k: usize = 0;
    while k < glyphs.len()
        invariant
            k <= glyphs@.len(),
            index@ == codepoints(glyphs@).take(k as int),
        decreases glyphs@.len() - k,
    {
        index.push(glyphs[k].codepoint);
        k = k + 1;
        assert(index@ =~= codepoints(glyphs@).take(k as int));
    }
    assert(codepoints(glyphs@).take(k as int) =~= codepoints(glyphs@));
    push_str(out, "glyph_cell::FontData {\n    index: ");
    push_chars_literal(out, &index);
    push_str(out, ",\n    size: ");
    push_decimal(out, size as i64);
    push_str(out, ",\n    ascii_width: ");
    push_decimal(out, ascii_width as i64);
    push_str(out, ",\n    bpp: ");
    push_decimal(out, bpp as i64);
    push_str(out, ",\n    bitmap: &BITMAP,\n    glyphs: &GLYPHS,\n}\n");
    assert(out@ =~= start + font_text(size, ascii_width, bpp, glyphs@));
}

proof fn lemma_packed_at_most_pixels(n: int, bpp: int)
    requires
        0 <= n,
        1 <= bpp <= 8,
    ensures
        (n * bpp + 7) / 8 <= n,
{
    assert(n * bpp <= n * 8) by (nonlinear_arith)
        requires
            0 <= n,
            bpp <= 8,
    ;
}

proof fn lemma_bitmap_within_pixels(glyphs: Seq<BitmapGlyph>, bpp: int, k: nat)
    requires
        k <= glyphs.len(),
        1 <= bpp <= 8,
    ensures
        glyphs_bitmap(glyphs, bpp, k).len() <= pixel_total(glyphs, k),
        0 <= pixel_total(glyphs, k),
    decreases k,
{
    if k > 0 {
        lemma_bitmap_within_pixels(glyphs, bpp, (k - 1) as nat);
        lemma_packed_at_most_pixels(glyphs[k - 1].bitmap@.len() as int, bpp);
    }
}

proof fn lemma_pixel_total_grows(glyphs: Seq<BitmapGlyph>, j: nat, k: nat)
    requires
        j <= k <= glyphs.len(),
    ensures
        pixel_total(glyphs, j) <= pixel_total(glyphs, k),
    decreases k,
{
    if j < k {
        lemma_pixel_total_grows(glyphs, j, (k - 1) as nat);
    }
}

/// The generated source of a font whose glyphs are in their final order:
/// each glyph's bitmap is packed at `bpp` bits per pixel after the one
/// before it.
pub fn source(size: u16, ascii_width: u16, bpp: u8, glyphs: &[BitmapGlyph]) -> (r: Vec<char>)
    requires
        1 <= bpp <= 8,
        pixel_total(glyphs@, glyphs@.len()) <= usize::MAX,
    ensures
        r@ == spec_source(size, ascii_width, bpp, glyphs@),
{
    let mut bitmap: Vec<u8> = Vec::new();
    let mut offsets: Vec<u32> = Vec::new();
    let mut k: usize = 0;
    while k < glyphs.len()
        invariant
            1 <= bpp <= 8,
            k <= glyphs@.len(),
            pixel_total(glyphs@, glyphs@.len()) <= usize::MAX,
            bitmap@ == glyphs_bitmap(glyphs@, bpp as int, k as nat),
            offsets@ == glyph_offsets(glyphs@, bpp as int).take(k as int),
        decreases glyphs@.len() - k,
    {
        proof {
            lemma_bitmap_within_pixels(glyphs@, bpp as int, k as nat);
            lemma_pixel_total_grows(glyphs@, (k + 1) as nat, glyphs@.len());
        }
        offsets.push(bitmap.len() as u32);
        pack_pixels(glyphs[k].bitmap.as_slice(), bpp, &mut bitmap);
        proof {
            assert(offsets@ =~= glyph_offsets(glyphs@, bpp as int).take(k + 1));
        }
        k = k + 1;
    }
    assert(glyph_offsets(glyphs@, bpp as int).take(k as int) =~= glyph_offsets(glyphs@, bpp as int));
    let mut out: Vec<char> = Vec::new();
    write_glyphs(&mut out, glyphs, offsets.as_slice());
    write_bitmap(&mut out, bitmap.as_slice());
    write_font(&mut out, size, ascii_width, bpp, glyphs);
    assert(out@ =~= spec_source(size, ascii_width, bpp, glyphs@));
    out
}

} // verus!
