//! The font blocks of a font-data request: their characters, deduplicated
//! inside a block and unique across blocks, and the per-glyph vertical
//! tweaks applied after rasterization.

use vstd::prelude::*;
use std::collections::BTreeMap;

use crate::font::first_index_of;
use crate::geometry::offset_i16;
use crate::raster::{shifted, BitmapGlyph};

verus! {

broadcast use {
    vstd::std_specs::btree::group_btree_axioms,
    vstd::laws_cmp::group_laws_cmp,
};

/// The state of deduplicating a block's characters: the characters kept so
/// far and, for every character of this and earlier blocks, the block that
/// first had it; or the first character that an earlier block already had,
/// with that block.
pub open spec fn unique_step(
    state: Result<(Seq<char>, Map<u32, usize>), (char, usize)>,
    ch: char,
    block: usize,
) -> Result<(Seq<char>, Map<u32, usize>), (char, usize)> {
    match state {
        Err(e) => Err(e),
        Ok((chars, seen)) => if chars.contains(ch) {
            Ok((chars, seen))
        } else if seen.contains_key(ch as u32) {
            Err((ch, seen[ch as u32]))
        } else {
            Ok((chars.push(ch), seen.insert(ch as u32, block)))
        },
    }
}

/// Deduplicating the first `k` characters of a block's index.
pub open spec fn unique_fold(index: Seq<char>, seen: Map<u32, usize>, block: usize, k: nat) -> Result<(Seq<char>, Map<u32, usize>), (char, usize)>
    decreases k,
{
    if k == 0 {
        Ok((Seq::empty(), seen))
    } else {
        unique_step(unique_fold(index, seen, block, (k - 1) as nat), index[k - 1], block)
    }
}

proof fn lemma_unique_fold_err_stays(index: Seq<char>, seen: Map<u32, usize>, block: usize, j: nat, k: nat)
    requires
        j <= k <= index.len(),
        unique_fold(index, seen, block, j) is Err,
    ensures
        unique_fold(index, seen, block, k) == unique_fold(index, seen, block, j),
    decreases k,
{
    if j < k {
        lemma_unique_fold_err_stays(index, seen, block, j, (k - 1) as nat);
    }
}

/// The characters of block `block`'s index in first-occurrence order
/// without repeats, recording each in `seen`; an error names the first
/// character that an earlier block (the one given) already holds.
pub fn unique_block_chars(index: &str, block: usize, seen: &mut BTreeMap<u32, usize>) -> (r: Result<Vec<char>, (char, usize)>)
    ensures
        r is Ok ==> unique_fold(index@, old(seen)@, block, index@.len()) == Ok::<
            (Seq<char>, Map<u32, usize>),
            (char, usize),
        >((r->Ok_0@, final(seen)@)),
        r is Err ==> unique_fold(index@, old(seen)@, block, index@.len()) == Err::<
            (Seq<char>, Map<u32, usize>),
            (char, usize),
        >(r->Err_0),
{
    let text = crate::geometry::str_chars(index);
    let ghost seen0 = seen@;
    let mut chars: Vec<char> = Vec::new();
    let mut i: usize = 0;
    while i < text.len()
        invariant
            text@ == index@,
            seen0 == old(seen)@,
            i <= text@.len(),
            unique_fold(index@, seen0, block, i as nat) == Ok::<(Seq<char>, Map<u32, usize>), (char, usize)>((chars@, seen@)),
        decreases text@.len() - i,
    {
        let ch = text[i];
        let mut present = false;
        let mut j: usize = 0;
        while j < chars.len()
            invariant
                j <= chars@.len(),
                present == exists|m: int| 0 <= m < j && chars@[m] == ch,
            decreases chars@.len() - j,
        {
            if chars[j] == ch {
                present = true;
            }
            j = j + 1;
        }
        assert(present == chars@.contains(ch));
        if !present {
            match seen.get(&(ch as u32)) {
                Some(first) => {
                    proof {
                        assert(seen@.contains_key(ch as u32) && seen@[ch as u32] == *first);
                        assert(index@[i as int] == ch);
                        assert(unique_fold(index@, seen0, block, (i + 1) as nat) == unique_step(
                            unique_fold(index@, seen0, block, i as nat),
                            ch,
                            block,
                        ));
                        lemma_unique_fold_err_stays(index@, seen0, block, (i + 1) as nat, index@.len());
                    }
                    let e = (ch, *first);
                    assert(unique_fold(index@, seen0, block, index@.len()) == Err::<(Seq<char>, Map<u32, usize>), (char, usize)>(e));
                    return Err(e);
                },
                None => {},
            }
            seen.insert(ch as u32, block);
            chars.push(ch);
        }
        i = i + 1;
    }
    Ok(chars)
}

/// The indexes of the blocks as character sequences.
pub open spec fn index_chars(indexes: Seq<&str>) -> Seq<Seq<char>> {
    Seq::new(indexes.len(), |i: int| indexes[i]@)
}

/// Deduplicating the first `k` blocks, each against the characters of the
/// blocks before it.
pub open spec fn blocks_fold(indexes: Seq<Seq<char>>, k: nat) -> Result<(Seq<Seq<char>>, Map<u32, usize>), (char, usize, usize)>
    decreases k,
{
    if k == 0 {
        Ok((Seq::empty(), Map::empty()))
    } else {
        match blocks_fold(indexes, (k - 1) as nat) {
            Err(e) => Err(e),
            Ok((done, seen)) => match unique_fold(indexes[k - 1], seen, (k - 1) as usize, indexes[k - 1].len()) {
                Ok((chars, seen2)) => Ok((done.push(chars), seen2)),
                Err((c, first)) => Err((c, first, (k - 1) as usize)),
            },
        }
    }
}

/// The characters of every block, each block deduplicated, with no
/// character in two blocks; an error names the character, the block that
/// first held it and the block that repeated it.
pub fn indexed_blocks(indexes: &Vec<&str>) -> (r: Result<Vec<Vec<char>>, (char, usize, usize)>)
    ensures
        r is Ok ==> blocks_fold(index_chars(indexes@), indexes@.len()) is Ok && r->Ok_0@.len()
            == indexes@.len() && forall|i: int|
            0 <= i < indexes@.len() ==> #[trigger] r->Ok_0@[i]@ == blocks_fold(
                index_chars(indexes@),
                indexes@.len(),
            )->Ok_0.0[i],
        r is Err ==> blocks_fold(index_chars(indexes@), indexes@.len()) == Err::<
            (Seq<Seq<char>>, Map<u32, usize>),
            (char, usize, usize),
        >(r->Err_0),
{
    let ghost idx = index_chars(indexes@);
    let mut seen: BTreeMap<u32, usize> = BTreeMap::new();
    let mut out: Vec<Vec<char>> = Vec::new();
    let mut b: usize = 0;
    while b < indexes.len()
        invariant
            b <= indexes@.len(),
            idx == index_chars(indexes@),
            blocks_fold(idx, b as nat) is Ok,
            out@.len() == b,
            seen@ == blocks_fold(idx, b as nat)->Ok_0.1,
            forall|i: int| 0 <= i < b ==> #[trigger] out@[i]@ == blocks_fold(idx, b as nat)->Ok_0.0[i],
            blocks_fold(idx, b as nat)->Ok_0.0.len() == b,
        decreases indexes@.len() - b,
    {
        assert(idx[b as int] == indexes@[b as int]@);
        match unique_block_chars(indexes[b], b, &mut seen) {
            Ok(chars) => {
                out.push(chars);
            },
            Err((ch, first)) => {
                proof {
                    lemma_blocks_fold_err_stays(idx, (b + 1) as nat, indexes@.len());
                }
                return Err((ch, first, b));
            },
        }
        b = b + 1;
    }
    Ok(out)
}

proof fn lemma_blocks_fold_err_stays(indexes: Seq<Seq<char>>, j: nat, k: nat)
    requires
        j <= k <= indexes.len(),
        blocks_fold(indexes, j) is Err,
    ensures
        blocks_fold(indexes, k) == blocks_fold(indexes, j),
    decreases k,
{
    if j < k {
        lemma_blocks_fold_err_stays(indexes, j, (k - 1) as nat);
    }
}

/// The characters of a block's glyphs, in order.
pub open spec fn codepoints(glyphs: Seq<BitmapGlyph>) -> Seq<char> {
    Seq::new(glyphs.len(), |i: int| glyphs[i].codepoint)
}

/// Applying the first `k` tweaks one after the other: each moves the first
/// glyph of its character by its delta; a tweak for a character without a
/// glyph stops with that character and the glyphs as they were then.
pub open spec fn tweak_fold(glyphs: Seq<BitmapGlyph>, tweaks: Seq<(char, i16)>, k: nat) -> Result<Seq<BitmapGlyph>, (char, Seq<BitmapGlyph>)>
    decreases k,
{
    if k == 0 {
        Ok(glyphs)
    } else {
        match tweak_fold(glyphs, tweaks, (k - 1) as nat) {
            Err(e) => Err(e),
            Ok(cur) => match first_index_of(codepoints(cur), tweaks[k - 1].0) {
                Some(i) => Ok(cur.update(i, shifted(cur[i], tweaks[k - 1].1 as int))),
                None => Err((tweaks[k - 1].0, cur)),
            },
        }
    }
}

proof fn lemma_tweak_fold_err_stays(glyphs: Seq<BitmapGlyph>, tweaks: Seq<(char, i16)>, j: nat, k: nat)
    requires
        j <= k <= tweaks.len(),
        tweak_fold(glyphs, tweaks, j) is Err,
    ensures
        tweak_fold(glyphs, tweaks, k) == tweak_fold(glyphs, tweaks, j),
    decreases k,
{
    if j < k {
        lemma_tweak_fold_err_stays(glyphs, tweaks, j, (k - 1) as nat);
    }
}

/// The position of the first glyph of `codepoint`.
fn find_glyph(glyphs: &[BitmapGlyph], codepoint: char) -> (r: Option<usize>)
    ensures
        match r {
            Some(i) => first_index_of(codepoints(glyphs@), codepoint) == Some(i as int),
            None => first_index_of(codepoints(glyphs@), codepoint) is None,
        },
{
    let ghost cps = codepoints(glyphs@);
    let mut i: usize = 0;
    assert(cps.skip(0) =~= cps);
    while i < glyphs.len()
        invariant
            i <= glyphs@.len(),
            cps == codepoints(glyphs@),
            first_index_of(cps, codepoint) == crate::font::shift_index(
                first_index_of(cps.skip(i as int), codepoint),
                i as int,
            ),
        decreases glyphs@.len() - i,
    {
        if glyphs[i].codepoint == codepoint {
            assert(first_index_of(cps.skip(i as int), codepoint) == Some(0int));
            return Some(i);
        }
        assert(cps.skip(i as int).drop_first() =~= cps.skip(i + 1));
        i = i + 1;
    }
    assert(cps.skip(i as int).len() == 0);
    None
}

/// Applies a block's per-glyph vertical tweaks in order; a tweak for a
/// character that has no glyph is an error naming the character.
pub fn apply_y_offsets(glyphs: &mut [BitmapGlyph], tweaks: &[(char, i16)]) -> (r: Result<(), char>)
    ensures
        r is Ok ==> tweak_fold(old(glyphs)@, tweaks@, tweaks@.len()) == Ok::<
            Seq<BitmapGlyph>,
            (char, Seq<BitmapGlyph>),
        >(final(glyphs)@),
        r is Err ==> tweak_fold(old(glyphs)@, tweaks@, tweaks@.len()) == Err::<
            Seq<BitmapGlyph>,
            (char, Seq<BitmapGlyph>),
        >((r->Err_0, final(glyphs)@)),
{
    let ghost start = glyphs@;
    let mut t: usize = 0;
    while t < tweaks.len()
        invariant
            t <= tweaks@.len(),
            start == old(glyphs)@,
            tweak_fold(start, tweaks@, t as nat) == Ok::<Seq<BitmapGlyph>, (char, Seq<BitmapGlyph>)>(glyphs@),
        decreases tweaks@.len() - t,
    {
        let (codepoint, delta) = tweaks[t];
        let i = match find_glyph(glyphs, codepoint) {
            Some(i) => i,
            None => {
                proof {
                    lemma_tweak_fold_err_stays(start, tweaks@, (t + 1) as nat, tweaks@.len());
                }
                return Err(codepoint);
            },
        };
        proof {
            crate::font::lemma_first_index_of(codepoints(glyphs@), codepoint);
        }
        let moved = offset_i16(glyphs[i].y_offset, delta);
        glyphs[i].y_offset = moved;
        t = t + 1;
    }
    Ok(())
}


/// Two characters have the same key exactly when they are the same.
proof fn lemma_char_key(c: char, d: char)
    ensures
        (c as u32 == d as u32) == (c == d),
{
}

/// Whether no character occurs twice in `s`.
pub open spec fn no_repeats(s: Seq<char>) -> bool {
    forall|i: int, j: int| 0 <= i < j < s.len() ==> s[i] != s[j]
}

/// What deduplicating a block's first `k` characters against `seen`
/// gives: its characters without repeats, none seen before, each
/// recorded as first held by `block`; or a character seen before.
proof fn lemma_unique_fold_props(index: Seq<char>, seen: Map<u32, usize>, block: usize, k: nat)
    requires
        k <= index.len(),
    ensures
        match unique_fold(index, seen, block, k) {
            Ok((chars, seen2)) => {
                &&& no_repeats(chars)
                &&& forall|i: int| 0 <= i < chars.len() ==> !seen.contains_key(#[trigger] chars[i] as u32)
                &&& forall|c: char| #[trigger] chars.contains(c) <==> index.take(k as int).contains(c)
                &&& forall|x: u32| #[trigger] seen2.contains_key(x) <==> (seen.contains_key(x) || exists|i: int|
                    0 <= i < chars.len() && chars[i] as u32 == x)
                &&& forall|x: u32| seen.contains_key(x) ==> #[trigger] seen2[x] == seen[x]
                &&& forall|i: int| 0 <= i < chars.len() ==> #[trigger] seen2[chars[i] as u32] == block
            },
            Err((c, first)) => index.take(k as int).contains(c) && seen.contains_key(c as u32) && seen[c as u32] == first,
        },
    decreases k,
{
    if k > 0 {
        let prev = unique_fold(index, seen, block, (k - 1) as nat);
        lemma_unique_fold_props(index, seen, block, (k - 1) as nat);
        let c = index[k - 1];
        assert(index.take(k as int) =~= index.take(k - 1).push(c));
        match prev {
            Ok((chars, seen1)) => {
                if chars.contains(c) {
                } else if seen1.contains_key(c as u32) {
                    assert(index.take(k as int)[k - 1] == c);
                    if !seen.contains_key(c as u32) {
                        let i = choose|i: int| 0 <= i < chars.len() && chars[i] as u32 == c as u32;
                        lemma_char_key(chars[i], c);
                        assert(chars[i] == c);
                    }
                } else {
                    let chars2 = chars.push(c);
                    assert forall|i: int, j: int| 0 <= i < j < chars2.len() implies chars2[i] != chars2[j] by {
                        if j == chars.len() {
                            assert(chars.contains(chars2[i]));
                        }
                    }
                    assert forall|d: char| #[trigger] chars2.contains(d) <==> index.take(k as int).contains(d) by {
                        if chars2.contains(d) && d != c {
                            let i = choose|i: int| 0 <= i < chars2.len() && chars2[i] == d;
                            assert(chars.contains(d));
                        }
                        if index.take(k as int).contains(d) && d != c {
                            let i = choose|i: int| 0 <= i < index.take(k as int).len() && index.take(k as int)[i] == d;
                            assert(index.take(k - 1).contains(d)) by {
                                assert(index.take(k - 1)[i] == d);
                            }
                            assert(chars.contains(d));
                            let m = choose|m: int| 0 <= m < chars.len() && chars[m] == d;
                            assert(chars2[m] == d);
                        }
                        if d == c {
                            assert(chars2[chars.len() as int] == c);
                            assert(index.take(k as int)[k - 1] == c);
                        }
                    }
                    let seen2 = seen1.insert(c as u32, block);
                    assert forall|x: u32| #[trigger] seen2.contains_key(x) <==> (seen.contains_key(x) || exists|i: int|
                        0 <= i < chars2.len() && chars2[i] as u32 == x) by {
                        if seen2.contains_key(x) && !seen.contains_key(x) {
                            if x == c as u32 {
                                assert(chars2[chars.len() as int] as u32 == x);
                            } else {
                                let i = choose|i: int| 0 <= i < chars.len() && chars[i] as u32 == x;
                                assert(chars2[i] as u32 == x);
                            }
                        }
                        if exists|i: int| 0 <= i < chars2.len() && chars2[i] as u32 == x {
                            let i = choose|i: int| 0 <= i < chars2.len() && chars2[i] as u32 == x;
                            if i < chars.len() {
                                assert(chars[i] as u32 == x);
                            }
                        }
                    }
                    assert forall|i: int| 0 <= i < chars2.len() implies #[trigger] seen2[chars2[i] as u32] == block by {
                        if i < chars.len() {
                            assert(chars[i] != c);
                        }
                    }
                }
            },
            Err((e, _)) => {
                let prefix = index.take(k - 1);
                let i = choose|i: int| 0 <= i < prefix.len() && #[trigger] prefix[i] == e;
                assert(index.take(k as int)[i] == e);
            },
        }
    }
}

/// Deduplicating the first `k` blocks: each block's characters without
/// repeats, the same characters as its index, and no character in two
/// blocks, with every character recorded as first held by its block; or
/// a character of block `b` that block `first < b` held already.
proof fn lemma_blocks_fold_props(indexes: Seq<Seq<char>>, k: nat)
    requires
        k <= indexes.len() <= usize::MAX,
    ensures
        match blocks_fold(indexes, k) {
            Ok((done, seen)) => {
                &&& done.len() == k
                &&& forall|b: int| 0 <= b < k ==> no_repeats(#[trigger] done[b])
                &&& forall|b: int, c: char| 0 <= b < k ==> (#[trigger] done[b].contains(c) <==> indexes[b].contains(c))
                &&& forall|x: u32| #[trigger] seen.contains_key(x) ==> seen[x] < k
                &&& forall|b: int, i: int| 0 <= b < k && 0 <= i < done[b].len() ==> #[trigger] seen.contains_key(done[b][i] as u32)
                    && seen[done[b][i] as u32] == b
                &&& forall|x: u32| #[trigger] seen.contains_key(x) ==> exists|b: int, i: int|
                    0 <= b < k && 0 <= i < done[b].len() && done[b][i] as u32 == x
            },
            Err((c, first, b)) => first < b < k && indexes[b as int].contains(c) && indexes[first as int].contains(c),
        },
    decreases k,
{
    if k > 0 {
        lemma_blocks_fold_props(indexes, (k - 1) as nat);
        if let Ok((done, seen)) = blocks_fold(indexes, (k - 1) as nat) {
            let index = indexes[k - 1];
            lemma_unique_fold_props(index, seen, (k - 1) as usize, index.len());
            assert(index.take(index.len() as int) =~= index);
            match unique_fold(index, seen, (k - 1) as usize, index.len()) {
                Ok((chars, seen2)) => {
                    let done2 = done.push(chars);
                    assert forall|b: int, i: int| 0 <= b < k && 0 <= i < done2[b].len() implies #[trigger] seen2.contains_key(done2[b][i] as u32)
                        && seen2[done2[b][i] as u32] == b by {
                        if b < k - 1 {
                            assert(seen.contains_key(done[b][i] as u32));
                        } else {
                            assert(seen2.contains_key(chars[i] as u32));
                        }
                    }
                    assert forall|x: u32| #[trigger] seen2.contains_key(x) implies seen2[x] < k && exists|b: int, i: int|
                        0 <= b < k && 0 <= i < done2[b].len() && done2[b][i] as u32 == x by {
                        if !seen.contains_key(x) {
                            let i = choose|i: int| 0 <= i < chars.len() && chars[i] as u32 == x;
                            assert(seen2[chars[i] as u32] == k - 1);
                            assert(done2[k - 1][i] as u32 == x);
                        } else {
                            let (b, i) = choose|b: int, i: int| 0 <= b < k - 1 && 0 <= i < done[b].len() && done[b][i] as u32 == x;
                            assert(done2[b][i] as u32 == x);
                        }
                    }
                    assert forall|b: int, c: char| 0 <= b < k implies (#[trigger] done2[b].contains(c) <==> indexes[b].contains(c)) by {
                        if b < k - 1 {
                            assert(done2[b] == done[b]);
                        }
                    }
                    assert forall|b: int| 0 <= b < k implies no_repeats(#[trigger] done2[b]) by {
                        if b < k - 1 {
                            assert(done2[b] == done[b]);
                        }
                    }
                },
                Err((c, first)) => {
                    let x = c as u32;
                    assert(seen.contains_key(x));
                    let (b, i) = choose|b: int, i: int| 0 <= b < k - 1 && 0 <= i < done[b].len() && done[b][i] as u32 == x;
                    lemma_char_key(done[b][i], c);
                    assert(done[b][i] == c);
                    assert(seen.contains_key(done[b][i] as u32));
                    assert(seen[done[b][i] as u32] == b);
                    assert(done[b].contains(c));
                    assert(indexes[b].contains(c));
                    assert(index.take(index.len() as int).contains(c));
                },
            }
        }
    }
}

/// Every block keeps each character of its index once, and no character
/// is in two blocks: the blocks are accepted exactly when no two of their
/// indexes share a character, and a rejection names a character of the
/// repeating block that an earlier block holds.
pub proof fn law_blocks_are_deduplicated_and_disjoint(indexes: Seq<Seq<char>>)
    requires
        indexes.len() <= usize::MAX,
    ensures
        match blocks_fold(indexes, indexes.len()) {
            Ok((done, _)) => {
                &&& done.len() == indexes.len()
                &&& forall|b: int| 0 <= b < done.len() ==> no_repeats(#[trigger] done[b])
                &&& forall|b: int, c: char| 0 <= b < done.len() ==> (#[trigger] done[b].contains(c) <==> indexes[b].contains(c))
                &&& forall|b1: int, b2: int, c: char| 0 <= b1 < b2 < done.len() ==> !(#[trigger] done[b1].contains(c) && #[trigger] done[b2].contains(c))
            },
            Err((c, first, b)) => first < b < indexes.len() && indexes[b as int].contains(c) && indexes[first as int].contains(c),
        },
{
    lemma_blocks_fold_props(indexes, indexes.len());
    if let Ok((done, seen)) = blocks_fold(indexes, indexes.len()) {
        assert forall|b1: int, b2: int, c: char| 0 <= b1 < b2 < done.len() implies !(#[trigger] done[b1].contains(c) && #[trigger] done[b2].contains(c)) by {
            if done[b1].contains(c) && done[b2].contains(c) {
                let i1 = choose|i: int| 0 <= i < done[b1].len() && done[b1][i] == c;
                let i2 = choose|i: int| 0 <= i < done[b2].len() && done[b2][i] == c;
                assert(seen.contains_key(done[b1][i1] as u32));
                assert(seen.contains_key(done[b2][i2] as u32));
                assert(seen[done[b1][i1] as u32] == b1);
                assert(seen[done[b2][i2] as u32] == b2);
            }
        }
    }
}

} // verus!
