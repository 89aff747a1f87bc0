//! The grammar of a font-data request.
//!
//! A request is a list of `key: value` items, each optionally followed by a
//! comma. `size` (or `height`), `ascii_width` and `bpp` take integer
//! literals; `path` starts a font block and takes a string literal; `index`
//! and `y_offset` (also `y_offsets`, `yoffset`) belong to the block opened by
//! the last `path`: the first takes a string literal, the second a braced
//! list of `'c': delta` entries. The parser works on the tokens of the
//! request and reports every problem with the position of the token it
//! concerns.

use vstd::prelude::*;

use crate::geometry::{in_i16, str_chars};

verus! {

/// One token of a font-data request. Brace groups are flattened into an
/// opening token, their contents and a closing token.
#[derive(Debug, Clone)]
pub enum MacroToken {
    /// An identifier that is not a keyword.
    Ident(String),
    /// A punctuation character.
    Punct(char),
    /// An integer literal, by its base-10 digits.
    Int(String),
    /// A string literal, by its value.
    Str(String),
    /// A character literal, by its value.
    Char(char),
    /// The start of a brace group.
    OpenBrace,
    /// The end of a brace group.
    CloseBrace,
    /// Any other token.
    Other,
}

/// What the parser expected where it found something else.
#[derive(Debug, Clone, Copy, PartialEq, Eq, Structural)]
pub enum Expected {
    Ident,
    Colon,
    Int,
    Str,
    Char,
    Braces,
}

/// The keys of a request.
#[derive(Debug, Clone, Copy, PartialEq, Eq, Structural)]
pub enum Key {
    Size,
    AsciiWidth,
    Bpp,
    Path,
    Index,
    YOffset,
}

/// A problem with a request; a position is that of the token concerned.
#[derive(Debug, Clone, Copy, PartialEq, Eq, Structural)]
pub enum RequestError {
    /// The token at this position (or the end of input) is not what the
    /// grammar asks for there.
    Expected(usize, Expected),
    /// The key at this position is none of the known keys.
    UnknownKey(usize),
    /// A second `size`/`height` key.
    DuplicateSize(usize),
    /// An `index` key before any `path`.
    IndexBeforePath(usize),
    /// A second non-empty `index` for one block.
    DuplicateIndex(usize),
    /// A `y_offset` key before any `path`.
    YOffsetBeforePath(usize),
    /// A second non-empty `y_offset` list for one block.
    DuplicateYOffsets(usize),
    /// A character listed twice in one `y_offset` list.
    DuplicateYOffsetChar(usize, char),
    /// An integer literal too large for its target type.
    NumberTooLarge(usize),
    /// A `y_offset` value outside the `i16` range.
    YOffsetOutOfRange(usize),
    /// No `path` was given.
    MissingFontBlock,
    /// The block whose path is at this position has no index.
    MissingIndex(usize),
    /// A `y_offset` entry for a character that is not in its block's index.
    YOffsetNotInIndex(usize, char),
    /// No `size` was given.
    MissingSize,
    /// `bpp` is not one of 1, 2, 3, 4, 8.
    UnsupportedBpp(usize),
}

/// The key named `name`, if it is one.
pub open spec fn key_of(name: Seq<char>) -> Option<Key> {
    if name == "size"@ || name == "height"@ {
        Some(Key::Size)
    } else if name == "ascii_width"@ {
        Some(Key::AsciiWidth)
    } else if name == "bpp"@ {
        Some(Key::Bpp)
    } else if name == "path"@ {
        Some(Key::Path)
    } else if name == "index"@ {
        Some(Key::Index)
    } else if name == "y_offset"@ || name == "y_offsets"@ || name == "yoffset"@ {
        Some(Key::YOffset)
    } else {
        None
    }
}

fn same_chars(a: &Vec<char>, b: &Vec<char>) -> (r: bool)
    ensures
        r == (a@ == b@),
{
    if a.len() != b.len() {
        return false;
    }
    let mut i: usize = 0;
    while i < a.len()
        invariant
            a@.len() == b@.len(),
            i <= a@.len(),
            forall|m: int| 0 <= m < i ==> a@[m] == b@[m],
        decreases a@.len() - i,
    {
        if a[i] != b[i] {
            return false;
        }
        i = i + 1;
    }
    assert(a@ =~= b@);
    true
}

fn is_word(name: &Vec<char>, word: &str) -> (r: bool)
    ensures
        r == (name@ == word@),
{
    let w = str_chars(word);
    same_chars(name, &w)
}

/// The key named `name`, if it is one.
pub fn key_of_name(name: &str) -> (r: Option<Key>)
    ensures
        r == key_of(name@),
{
    let n = str_chars(name);
    if is_word(&n, "size") || is_word(&n, "height") {
        Some(Key::Size)
    } else if is_word(&n, "ascii_width") {
        Some(Key::AsciiWidth)
    } else if is_word(&n, "bpp") {
        Some(Key::Bpp)
    } else if is_word(&n, "path") {
        Some(Key::Path)
    } else if is_word(&n, "index") {
        Some(Key::Index)
    } else if is_word(&n, "y_offset") || is_word(&n, "y_offsets") || is_word(&n, "yoffset") {
        Some(Key::YOffset)
    } else {
        None
    }
}

/// Whether every character is an ASCII digit.
pub open spec fn all_digits(d: Seq<char>) -> bool {
    forall|i: int| 0 <= i < d.len() ==> '0' <= #[trigger] d[i] <= '9'
}

/// The number that a string of decimal digits writes.
pub open spec fn digits_value(d: Seq<char>) -> int
    decreases d.len(),
{
    if d.len() == 0 {
        0
    } else {
        digits_value(d.drop_last()) * 10 + (d.last() as int - '0' as int)
    }
}

/// Whether `d` is a base-10 number that is at most `max`.
pub open spec fn decimal_fits(d: Seq<char>, max: int) -> bool {
    d.len() > 0 && all_digits(d) && digits_value(d) <= max
}

proof fn lemma_digits_nonneg(d: Seq<char>)
    requires
        all_digits(d),
    ensures
        digits_value(d) >= 0,
    decreases d.len(),
{
    if d.len() > 0 {
        assert(all_digits(d.drop_last()));
        lemma_digits_nonneg(d.drop_last());
    }
}

proof fn lemma_digits_prefix_grows(d: Seq<char>, i: int)
    requires
        all_digits(d),
        0 <= i <= d.len(),
    ensures
        digits_value(d.take(i)) <= digits_value(d),
    decreases d.len() - i,
{
    if i < d.len() {
        let t = d.take(i + 1);
        assert(t.drop_last() =~= d.take(i));
        assert(all_digits(d.take(i)));
        lemma_digits_nonneg(d.take(i));
        lemma_digits_prefix_grows(d, i + 1);
    } else {
        assert(d.take(i) =~= d);
    }
}

/// The value of the base-10 number `digits` when it is at most `max`.
pub fn parse_decimal(digits: &str, max: u32) -> (r: Option<u32>)
    ensures
        r is Some <==> decimal_fits(digits@, max as int),
        r is Some ==> r->0 == digits_value(digits@),
{
    let d = str_chars(digits);
    if d.len() == 0 {
        return None;
    }
    let mut value: u64 = 0;
    let mut i: usize = 0;
    while i < d.len()
        invariant
            d@ == digits@,
            i <= d@.len(),
            all_digits(d@.take(i as int)),
            value == digits_value(d@.take(i as int)),
            value <= max,
        decreases d@.len() - i,
    {
        let c = d[i];
        assert(d@.take(i as int + 1).drop_last() =~= d@.take(i as int));
        if c < '0' || c > '9' {
            proof {
                assert(!all_digits(d@));
            }
            return None;
        }
        let digit = (c as u32 - '0' as u32) as u64;
        value = value * 10 + digit;
        assert(all_digits(d@.take(i as int + 1)));
        if value > max as u64 {
            proof {
                if all_digits(d@) {
                    lemma_digits_prefix_grows(d@, i as int + 1);
                }
            }
            return None;
        }
        i = i + 1;
    }
    assert(d@.take(d@.len() as int) =~= d@);
    Some(value as u32)
}


/// A font block of a request: the positions of its path and index
/// literals, and its vertical tweaks as (position of the character literal,
/// character, value).
pub struct BlockTokens {
    pub path: usize,
    pub index: Option<usize>,
    pub y_offsets: Vec<(usize, char, i16)>,
}

/// The model of a [`BlockTokens`].
pub struct BlockTokensView {
    pub path: usize,
    pub index: Option<usize>,
    pub y_offsets: Seq<(usize, char, i16)>,
}

impl View for BlockTokens {
    type V = BlockTokensView;

    open spec fn view(&self) -> BlockTokensView {
        BlockTokensView { path: self.path, index: self.index, y_offsets: self.y_offsets@ }
    }
}

/// A parsed request: the positions of the `size`, `ascii_width` and `bpp`
/// literals, and its blocks in order.
pub struct RequestTokens {
    pub size: usize,
    pub ascii_width: Option<usize>,
    pub bpp: Option<usize>,
    pub blocks: Vec<BlockTokens>,
}

/// The model of a [`RequestTokens`].
pub struct RequestTokensView {
    pub size: usize,
    pub ascii_width: Option<usize>,
    pub bpp: Option<usize>,
    pub blocks: Seq<BlockTokensView>,
}

/// The models of a sequence of blocks.
pub open spec fn blocks_view(blocks: Seq<BlockTokens>) -> Seq<BlockTokensView> {
    Seq::new(blocks.len(), |i: int| blocks[i]@)
}

impl View for RequestTokens {
    type V = RequestTokensView;

    open spec fn view(&self) -> RequestTokensView {
        RequestTokensView {
            size: self.size,
            ascii_width: self.ascii_width,
            bpp: self.bpp,
            blocks: blocks_view(self.blocks@),
        }
    }
}

/// What the parser has read so far: the settings seen, the finished
/// blocks and the block being read.
pub struct ParseState {
    pub size: Option<usize>,
    pub ascii_width: Option<usize>,
    pub bpp: Option<usize>,
    pub blocks: Seq<BlockTokensView>,
    pub current: Option<BlockTokensView>,
}

/// Whether the token at `p` is the punctuation character `c`.
pub open spec fn punct_at(tokens: Seq<MacroToken>, p: int, c: char) -> bool {
    0 <= p < tokens.len() && (tokens[p] matches MacroToken::Punct(d) && d == c)
}

/// Whether the token at `p` is an integer literal.
pub open spec fn int_at(tokens: Seq<MacroToken>, p: int) -> bool {
    0 <= p < tokens.len() && tokens[p] is Int
}

/// Whether the token at `p` is a string literal.
pub open spec fn str_at(tokens: Seq<MacroToken>, p: int) -> bool {
    0 <= p < tokens.len() && tokens[p] is Str
}

/// The position after an optional comma at `q`.
pub open spec fn after_comma(tokens: Seq<MacroToken>, q: int) -> int {
    if punct_at(tokens, q, ',') {
        q + 1
    } else {
        q
    }
}

/// The characters of the string literal at `index`, or none.
pub open spec fn index_text(tokens: Seq<MacroToken>, index: Option<usize>) -> Seq<char> {
    match index {
        Some(p) => if str_at(tokens, p as int) {
            tokens[p as int]->Str_0@
        } else {
            Seq::empty()
        },
        None => Seq::empty(),
    }
}

/// Whether `c` is already among the tweaks.
pub open spec fn tweaked(offsets: Seq<(usize, char, i16)>, c: char) -> bool {
    exists|i: int| 0 <= i < offsets.len() && offsets[i].1 == c
}

/// The signed integer at `p`: an optional minus sign and an integer
/// literal whose value fits in `i32`, negated after the sign, which must
/// then fit in `i16`; with the position of the literal.
pub open spec fn signed_value_at(tokens: Seq<MacroToken>, p: int) -> Result<(i16, int), RequestError> {
    let negative = punct_at(tokens, p, '-');
    let q = if negative { p + 1 } else { p };
    if !int_at(tokens, q) {
        Err(RequestError::Expected(q as usize, Expected::Int))
    } else {
        let d = tokens[q]->Int_0@;
        let signed = if negative { -digits_value(d) } else { digits_value(d) };
        if !decimal_fits(d, i32::MAX as int) {
            Err(RequestError::NumberTooLarge(q as usize))
        } else if !in_i16(signed) {
            Err(RequestError::YOffsetOutOfRange(q as usize))
        } else {
            Ok((signed as i16, q))
        }
    }
}

/// Reading the entries of a `y_offset` list from `p` on, with `acc` read
/// already: up to and past the closing brace.
pub open spec fn parse_offsets(tokens: Seq<MacroToken>, p: int, acc: Seq<(usize, char, i16)>) -> Result<(int, Seq<(usize, char, i16)>), RequestError>
    decreases tokens.len() - p,
{
    if p < 0 || p >= tokens.len() {
        Err(RequestError::Expected(p as usize, Expected::Char))
    } else if tokens[p] is CloseBrace {
        Ok((p + 1, acc))
    } else if !(tokens[p] is Char) {
        Err(RequestError::Expected(p as usize, Expected::Char))
    } else if !punct_at(tokens, p + 1, ':') {
        Err(RequestError::Expected((p + 1) as usize, Expected::Colon))
    } else {
        match signed_value_at(tokens, p + 2) {
            Err(e) => Err(e),
            Ok((delta, q)) => {
                let c = tokens[p]->Char_0;
                if tweaked(acc, c) {
                    Err(RequestError::DuplicateYOffsetChar(p as usize, c))
                } else {
                    parse_offsets(tokens, after_comma(tokens, q + 1), acc.push((p as usize, c, delta)))
                }
            },
        }
    }
}

/// One `key: value` item read at `p`: the position after it and the new
/// state.
pub open spec fn item_step(tokens: Seq<MacroToken>, p: int, st: ParseState) -> Result<(int, ParseState), RequestError> {
    if !(0 <= p < tokens.len() && tokens[p] is Ident) {
        Err(RequestError::Expected(p as usize, Expected::Ident))
    } else if !punct_at(tokens, p + 1, ':') {
        Err(RequestError::Expected((p + 1) as usize, Expected::Colon))
    } else {
        let v = p + 2;
        let next = after_comma(tokens, v + 1);
        match key_of(tokens[p]->Ident_0@) {
            None => Err(RequestError::UnknownKey(p as usize)),
            Some(Key::Size) => if st.size is Some {
                Err(RequestError::DuplicateSize(p as usize))
            } else if !int_at(tokens, v) {
                Err(RequestError::Expected(v as usize, Expected::Int))
            } else {
                Ok((next, ParseState { size: Some(v as usize), ..st }))
            },
            Some(Key::AsciiWidth) => if !int_at(tokens, v) {
                Err(RequestError::Expected(v as usize, Expected::Int))
            } else {
                Ok((next, ParseState { ascii_width: Some(v as usize), ..st }))
            },
            Some(Key::Bpp) => if !int_at(tokens, v) {
                Err(RequestError::Expected(v as usize, Expected::Int))
            } else {
                Ok((next, ParseState { bpp: Some(v as usize), ..st }))
            },
            Some(Key::Path) => if !str_at(tokens, v) {
                Err(RequestError::Expected(v as usize, Expected::Str))
            } else {
                Ok((next, ParseState {
                    blocks: finished(st),
                    current: Some(BlockTokensView { path: v as usize, index: None, y_offsets: Seq::empty() }),
                    ..st
                }))
            },
            Some(Key::Index) => match st.current {
                None => Err(RequestError::IndexBeforePath(p as usize)),
                Some(b) => if index_text(tokens, b.index).len() > 0 {
                    Err(RequestError::DuplicateIndex(p as usize))
                } else if !str_at(tokens, v) {
                    Err(RequestError::Expected(v as usize, Expected::Str))
                } else {
                    Ok((next, ParseState {
                        current: Some(BlockTokensView { index: Some(v as usize), ..b }),
                        ..st
                    }))
                },
            },
            Some(Key::YOffset) => match st.current {
                None => Err(RequestError::YOffsetBeforePath(p as usize)),
                Some(b) => if b.y_offsets.len() > 0 {
                    Err(RequestError::DuplicateYOffsets(p as usize))
                } else if !(0 <= v < tokens.len() && tokens[v] is OpenBrace) {
                    Err(RequestError::Expected(v as usize, Expected::Braces))
                } else {
                    match parse_offsets(tokens, v + 1, Seq::empty()) {
                        Err(e) => Err(e),
                        Ok((q, offsets)) => Ok((after_comma(tokens, q), ParseState {
                            current: Some(BlockTokensView { y_offsets: offsets, ..b }),
                            ..st
                        })),
                    }
                },
            },
        }
    }
}

/// The finished blocks once the current one is closed.
pub open spec fn finished(st: ParseState) -> Seq<BlockTokensView> {
    match st.current {
        Some(b) => st.blocks.push(b),
        None => st.blocks,
    }
}

/// Reading a `y_offset` list ends past where it starts and within the
/// tokens.
pub proof fn lemma_offsets_advance(tokens: Seq<MacroToken>, p: int, acc: Seq<(usize, char, i16)>)
    ensures
        parse_offsets(tokens, p, acc) matches Ok((q, _)) ==> p < q <= tokens.len(),
    decreases tokens.len() - p,
{
    if 0 <= p < tokens.len() && tokens[p] is Char && punct_at(tokens, p + 1, ':') {
        if let Ok((delta, q)) = signed_value_at(tokens, p + 2) {
            let c = tokens[p]->Char_0;
            lemma_offsets_advance(tokens, after_comma(tokens, q + 1), acc.push((p as usize, c, delta)));
        }
    }
}

/// Reading an item ends past where it starts and within the tokens.
pub proof fn lemma_item_advances(tokens: Seq<MacroToken>, p: int, st: ParseState)
    ensures
        item_step(tokens, p, st) matches Ok((q, _)) ==> p < q <= tokens.len(),
{
    lemma_offsets_advance(tokens, p + 3, Seq::empty());
}

/// Reading the items from `p` on, starting in state `st`.
pub open spec fn parse_items(tokens: Seq<MacroToken>, p: int, st: ParseState) -> Result<ParseState, RequestError>
    decreases tokens.len() - p,
{
    if p < 0 || p >= tokens.len() {
        Ok(st)
    } else {
        match item_step(tokens, p, st) {
            Err(e) => Err(e),
            Ok((q, next)) => {
                proof {
                    lemma_item_advances(tokens, p, st);
                }
                parse_items(tokens, q, next)
            },
        }
    }
}

/// The first tweak among the first `k` whose character is not in `index`.
pub open spec fn stray_offset(index: Seq<char>, offsets: Seq<(usize, char, i16)>, k: nat) -> Option<(usize, char)>
    decreases k,
{
    if k == 0 {
        None
    } else {
        match stray_offset(index, offsets, (k - 1) as nat) {
            Some(s) => Some(s),
            None => if index.contains(offsets[k - 1].1) {
                None
            } else {
                Some((offsets[k - 1].0, offsets[k - 1].1))
            },
        }
    }
}

/// The problem of a block, if it has one: an empty index first, then the
/// first tweak for a character outside the index.
pub open spec fn block_problem(tokens: Seq<MacroToken>, b: BlockTokensView) -> Option<RequestError> {
    let index = index_text(tokens, b.index);
    if index.len() == 0 {
        Some(RequestError::MissingIndex(b.path))
    } else {
        match stray_offset(index, b.y_offsets, b.y_offsets.len()) {
            Some((p, c)) => Some(RequestError::YOffsetNotInIndex(p, c)),
            None => None,
        }
    }
}

/// The first problem among the first `k` blocks.
pub open spec fn first_block_problem(tokens: Seq<MacroToken>, blocks: Seq<BlockTokensView>, k: nat) -> Option<RequestError>
    decreases k,
{
    if k == 0 {
        None
    } else {
        match first_block_problem(tokens, blocks, (k - 1) as nat) {
            Some(e) => Some(e),
            None => block_problem(tokens, blocks[k - 1]),
        }
    }
}

/// The verdict on what was read: there must be a block, every block
/// needs a non-empty index that holds the characters of its tweaks, and a
/// size must be given; the first problem in that order is reported.
pub open spec fn spec_validate(
    tokens: Seq<MacroToken>,
    size: Option<usize>,
    ascii_width: Option<usize>,
    bpp: Option<usize>,
    blocks: Seq<BlockTokensView>,
) -> Result<RequestTokensView, RequestError> {
    if blocks.len() == 0 {
        Err(RequestError::MissingFontBlock)
    } else {
        match first_block_problem(tokens, blocks, blocks.len()) {
            Some(e) => Err(e),
            None => match size {
                None => Err(RequestError::MissingSize),
                Some(size) => Ok(RequestTokensView { size, ascii_width, bpp, blocks }),
            },
        }
    }
}

/// The state before the first item.
pub open spec fn start_state() -> ParseState {
    ParseState { size: None, ascii_width: None, bpp: None, blocks: Seq::empty(), current: None }
}

/// What a request's tokens parse to.
pub open spec fn spec_parse_request(tokens: Seq<MacroToken>) -> Result<RequestTokensView, RequestError> {
    match parse_items(tokens, 0, start_state()) {
        Err(e) => Err(e),
        Ok(st) => spec_validate(tokens, st.size, st.ascii_width, st.bpp, finished(st)),
    }
}

/// The parser's state while it reads a request.
pub struct ParseProgress {
    pub size: Option<usize>,
    pub ascii_width: Option<usize>,
    pub bpp: Option<usize>,
    pub blocks: Vec<BlockTokens>,
    pub current: Option<BlockTokens>,
}

impl View for ParseProgress {
    type V = ParseState;

    open spec fn view(&self) -> ParseState {
        ParseState {
            size: self.size,
            ascii_width: self.ascii_width,
            bpp: self.bpp,
            blocks: blocks_view(self.blocks@),
            current: match self.current {
                Some(b) => Some(b@),
                None => None,
            },
        }
    }
}

fn token_is_punct(tokens: &Vec<MacroToken>, p: usize, c: char) -> (r: bool)
    ensures
        r == punct_at(tokens@, p as int, c),
{
    if p >= tokens.len() {
        return false;
    }
    match &tokens[p] {
        MacroToken::Punct(d) => *d == c,
        _ => false,
    }
}

fn token_is_int(tokens: &Vec<MacroToken>, p: usize) -> (r: bool)
    ensures
        r == int_at(tokens@, p as int),
{
    p < tokens.len() && matches!(tokens[p], MacroToken::Int(_))
}

fn token_is_str(tokens: &Vec<MacroToken>, p: usize) -> (r: bool)
    ensures
        r == str_at(tokens@, p as int),
{
    p < tokens.len() && matches!(tokens[p], MacroToken::Str(_))
}

fn skip_comma(tokens: &Vec<MacroToken>, q: usize) -> (r: usize)
    requires
        q <= tokens.len(),
    ensures
        r == after_comma(tokens@, q as int),
        r <= tokens.len(),
{
    if token_is_punct(tokens, q, ',') {
        q + 1
    } else {
        q
    }
}

/// Whether the string literal at `index` (if any) is non-empty.
fn index_given(tokens: &Vec<MacroToken>, index: Option<usize>) -> (r: bool)
    ensures
        r == (index_text(tokens@, index).len() > 0),
{
    match index {
        None => false,
        Some(p) => {
            if p >= tokens.len() {
                return false;
            }
            match &tokens[p] {
                MacroToken::Str(s) => {
                    let chars = str_chars(s.as_str());
                    chars.len() > 0
                },
                _ => false,
            }
        },
    }
}

fn tweak_listed(offsets: &Vec<(usize, char, i16)>, c: char) -> (r: bool)
    ensures
        r == tweaked(offsets@, c),
{
    let mut i: usize = 0;
    while i < offsets.len()
        invariant
            i <= offsets@.len(),
            forall|m: int| 0 <= m < i ==> offsets@[m].1 != c,
        decreases offsets@.len() - i,
    {
        if offsets[i].1 == c {
            return true;
        }
        i = i + 1;
    }
    false
}

/// Reads the signed integer of a `y_offset` entry at `p`.
fn parse_i16(tokens: &Vec<MacroToken>, p: usize) -> (r: Result<(i16, usize), RequestError>)
    requires
        p <= tokens.len(),
    ensures
        r is Ok ==> signed_value_at(tokens@, p as int) == Ok::<(i16, int), RequestError>((r->Ok_0.0, r->Ok_0.1 as int)),
        r is Err ==> signed_value_at(tokens@, p as int) == Err::<(i16, int), RequestError>(r->Err_0),
{
    let negative = token_is_punct(tokens, p, '-');
    let q = if negative { p + 1 } else { p };
    if q >= tokens.len() {
        return Err(RequestError::Expected(q, Expected::Int));
    }
    let digits = match &tokens[q] {
        MacroToken::Int(d) => d,
        _ => return Err(RequestError::Expected(q, Expected::Int)),
    };
    let magnitude = match parse_decimal(digits.as_str(), i32::MAX as u32) {
        Some(m) => m as i32,
        None => return Err(RequestError::NumberTooLarge(q)),
    };
    let signed = if negative { -magnitude } else { magnitude };
    if signed < i16::MIN as i32 || signed > i16::MAX as i32 {
        return Err(RequestError::YOffsetOutOfRange(q));
    }
    Ok((signed as i16, q))
}

/// Reads a `y_offset` list from just after its opening brace.
fn parse_y_offsets(tokens: &Vec<MacroToken>, start: usize) -> (r: Result<(usize, Vec<(usize, char, i16)>), RequestError>)
    requires
        start <= tokens.len(),
    ensures
        r is Ok ==> parse_offsets(tokens@, start as int, Seq::empty()) == Ok::<
            (int, Seq<(usize, char, i16)>),
            RequestError,
        >((r->Ok_0.0 as int, r->Ok_0.1@)),
        r is Err ==> parse_offsets(tokens@, start as int, Seq::empty()) == Err::<
            (int, Seq<(usize, char, i16)>),
            RequestError,
        >(r->Err_0),
{
    let mut offsets: Vec<(usize, char, i16)> = Vec::new();
    let mut p = start;
    loop
        invariant
            p <= tokens@.len(),
            parse_offsets(tokens@, start as int, Seq::empty()) == parse_offsets(tokens@, p as int, offsets@),
        decreases tokens@.len() - p,
    {
        if p >= tokens.len() {
            return Err(RequestError::Expected(p, Expected::Char));
        }
        let c = match &tokens[p] {
            MacroToken::CloseBrace => {
                return Ok((p + 1, offsets));
            },
            MacroToken::Char(c) => *c,
            _ => {
                return Err(RequestError::Expected(p, Expected::Char));
            },
        };
        if !token_is_punct(tokens, p + 1, ':') {
            return Err(RequestError::Expected(p + 1, Expected::Colon));
        }
        let (delta, q) = match parse_i16(tokens, p + 2) {
            Ok(v) => v,
            Err(e) => {
                return Err(e);
            },
        };
        if tweak_listed(&offsets, c) {
            return Err(RequestError::DuplicateYOffsetChar(p, c));
        }
        offsets.push((p, c, delta));
        p = skip_comma(tokens, q + 1);
    }
}

/// Closes the block being read, if there is one.
fn finish_block(blocks: &mut Vec<BlockTokens>, block: Option<BlockTokens>)
    ensures
        blocks_view(final(blocks)@) == match block {
            Some(b) => blocks_view(old(blocks)@).push(b@),
            None => blocks_view(old(blocks)@),
        },
{
    if let Some(block) = block {
        blocks.push(block);
        assert(blocks_view(blocks@) =~= blocks_view(old(blocks)@).push(block@));
    }
}

/// Reads the value of a `size`/`height` key at `p`.
fn parse_size(tokens: &Vec<MacroToken>, p: usize, st: &mut ParseProgress) -> (r: Result<usize, RequestError>)
    requires
        p + 2 <= tokens.len(),
    ensures
        r is Ok ==> !(old(st).size is Some) && int_at(tokens@, p + 2) && r->Ok_0 == after_comma(tokens@, p + 3)
            && final(st)@ == (ParseState { size: Some((p + 2) as usize), ..old(st)@ }),
        r is Err ==> (old(st).size is Some && r->Err_0 == RequestError::DuplicateSize(p))
            || (!(old(st).size is Some) && !int_at(tokens@, p + 2) && r->Err_0 == RequestError::Expected((p + 2) as usize, Expected::Int)),
{
    if st.size.is_some() {
        return Err(RequestError::DuplicateSize(p));
    }
    let v = p + 2;
    if !token_is_int(tokens, v) {
        return Err(RequestError::Expected(v, Expected::Int));
    }
    st.size = Some(v);
    Ok(skip_comma(tokens, v + 1))
}

/// Reads the value of an `index` key at `p` into the block being read.
fn parse_index(tokens: &Vec<MacroToken>, p: usize, st: &mut ParseProgress) -> (r: Result<usize, RequestError>)
    requires
        p + 2 <= tokens.len(),
    ensures
        ({
            let v = p + 2;
            match old(st)@.current {
                None => r == Err::<usize, RequestError>(RequestError::IndexBeforePath(p)),
                Some(b) => if index_text(tokens@, b.index).len() > 0 {
                    r == Err::<usize, RequestError>(RequestError::DuplicateIndex(p))
                } else if !str_at(tokens@, v) {
                    r == Err::<usize, RequestError>(RequestError::Expected(v as usize, Expected::Str))
                } else {
                    r == Ok::<usize, RequestError>(after_comma(tokens@, v + 1) as usize)
                        && final(st)@ == (ParseState {
                        current: Some(BlockTokensView { index: Some(v as usize), ..b }),
                        ..old(st)@
                    })
                },
            }
        }),
{
    let v = p + 2;
    let current = st.current.take();
    match current {
        None => Err(RequestError::IndexBeforePath(p)),
        Some(mut block) => {
            if index_given(tokens, block.index) {
                return Err(RequestError::DuplicateIndex(p));
            }
            if !token_is_str(tokens, v) {
                return Err(RequestError::Expected(v, Expected::Str));
            }
            block.index = Some(v);
            st.current = Some(block);
            Ok(skip_comma(tokens, v + 1))
        },
    }
}

/// Reads the `y_offset` list of a key at `p` into the block being read.
fn parse_block_offsets(tokens: &Vec<MacroToken>, p: usize, st: &mut ParseProgress) -> (r: Result<usize, RequestError>)
    requires
        p + 2 <= tokens.len(),
    ensures
        ({
            let v = p + 2;
            match old(st)@.current {
                None => r == Err::<usize, RequestError>(RequestError::YOffsetBeforePath(p)),
                Some(b) => if b.y_offsets.len() > 0 {
                    r == Err::<usize, RequestError>(RequestError::DuplicateYOffsets(p))
                } else if !(v < tokens@.len() && tokens@[v as int] is OpenBrace) {
                    r == Err::<usize, RequestError>(RequestError::Expected(v as usize, Expected::Braces))
                } else {
                    match parse_offsets(tokens@, v + 1, Seq::empty()) {
                        Err(e) => r == Err::<usize, RequestError>(e),
                        Ok((q, offsets)) => r == Ok::<usize, RequestError>(after_comma(tokens@, q) as usize)
                            && final(st)@ == (ParseState {
                            current: Some(BlockTokensView { y_offsets: offsets, ..b }),
                            ..old(st)@
                        }),
                    }
                },
            }
        }),
{
    let v = p + 2;
    let current = st.current.take();
    match current {
        None => Err(RequestError::YOffsetBeforePath(p)),
        Some(mut block) => {
            if block.y_offsets.len() > 0 {
                return Err(RequestError::DuplicateYOffsets(p));
            }
            if v >= tokens.len() || !matches!(tokens[v], MacroToken::OpenBrace) {
                return Err(RequestError::Expected(v, Expected::Braces));
            }
            proof {
                lemma_offsets_advance(tokens@, v + 1, Seq::empty());
            }
            let (q, offsets) = match parse_y_offsets(tokens, v + 1) {
                Ok(found) => found,
                Err(e) => {
                    return Err(e);
                },
            };
            block.y_offsets = offsets;
            st.current = Some(block);
            Ok(skip_comma(tokens, q))
        },
    }
}

/// Reads the `key: value` item at `p`.
fn parse_item(tokens: &Vec<MacroToken>, p: usize, st: &mut ParseProgress) -> (r: Result<usize, RequestError>)
    requires
        p < tokens.len(),
    ensures
        r is Ok ==> item_step(tokens@, p as int, old(st)@) == Ok::<(int, ParseState), RequestError>((r->Ok_0 as int, final(st)@)),
        r is Err ==> item_step(tokens@, p as int, old(st)@) == Err::<(int, ParseState), RequestError>(r->Err_0),
{
    let name = match &tokens[p] {
        MacroToken::Ident(name) => name,
        _ => {
            return Err(RequestError::Expected(p, Expected::Ident));
        },
    };
    if !token_is_punct(tokens, p + 1, ':') {
        return Err(RequestError::Expected(p + 1, Expected::Colon));
    }
    let v = p + 2;
    proof {
        lemma_offsets_advance(tokens@, v + 1, Seq::empty());
    }
    match key_of_name(name.as_str()) {
        None => Err(RequestError::UnknownKey(p)),
        Some(Key::Size) => parse_size(tokens, p, st),
        Some(Key::AsciiWidth) => {
            if !token_is_int(tokens, v) {
                return Err(RequestError::Expected(v, Expected::Int));
            }
            st.ascii_width = Some(v);
            Ok(skip_comma(tokens, v + 1))
        },
        Some(Key::Bpp) => {
            if !token_is_int(tokens, v) {
                return Err(RequestError::Expected(v, Expected::Int));
            }
            st.bpp = Some(v);
            Ok(skip_comma(tokens, v + 1))
        },
        Some(Key::Path) => {
            if !token_is_str(tokens, v) {
                return Err(RequestError::Expected(v, Expected::Str));
            }
            let previous = st.current.take();
            finish_block(&mut st.blocks, previous);
            st.current = Some(BlockTokens { path: v, index: None, y_offsets: Vec::new() });
            assert(st@.blocks == finished(old(st)@));
            assert(st@.current == Some(BlockTokensView { path: v, index: None, y_offsets: Seq::empty() }));
            Ok(skip_comma(tokens, v + 1))
        },
        Some(Key::Index) => parse_index(tokens, p, st),
        Some(Key::YOffset) => parse_block_offsets(tokens, p, st),
    }
}

fn index_chars(tokens: &Vec<MacroToken>, index: Option<usize>) -> (r: Vec<char>)
    ensures
        r@ == index_text(tokens@, index),
{
    match index {
        Some(p) => {
            if p < tokens.len() {
                if let MacroToken::Str(s) = &tokens[p] {
                    return str_chars(s.as_str());
                }
            }
            Vec::new()
        },
        None => Vec::new(),
    }
}

fn char_in(chars: &Vec<char>, c: char) -> (r: bool)
    ensures
        r == chars@.contains(c),
{
    let mut i: usize = 0;
    while i < chars.len()
        invariant
            i <= chars@.len(),
            forall|m: int| 0 <= m < i ==> chars@[m] != c,
        decreases chars@.len() - i,
    {
        if chars[i] == c {
            return true;
        }
        i = i + 1;
    }
    false
}

proof fn lemma_stray_stays(index: Seq<char>, offsets: Seq<(usize, char, i16)>, j: nat, k: nat)
    requires
        j <= k <= offsets.len(),
        stray_offset(index, offsets, j) is Some,
    ensures
        stray_offset(index, offsets, k) == stray_offset(index, offsets, j),
    decreases k,
{
    if j < k {
        lemma_stray_stays(index, offsets, j, (k - 1) as nat);
    }
}

proof fn lemma_problem_stays(tokens: Seq<MacroToken>, blocks: Seq<BlockTokensView>, j: nat, k: nat)
    requires
        j <= k <= blocks.len(),
        first_block_problem(tokens, blocks, j) is Some,
    ensures
        first_block_problem(tokens, blocks, k) == first_block_problem(tokens, blocks, j),
    decreases k,
{
    if j < k {
        lemma_problem_stays(tokens, blocks, j, (k - 1) as nat);
    }
}

/// Checks what was read and assembles the request.
fn validate(
    tokens: &Vec<MacroToken>,
    size: Option<usize>,
    ascii_width: Option<usize>,
    bpp: Option<usize>,
    blocks: Vec<BlockTokens>,
) -> (r: Result<RequestTokens, RequestError>)
    ensures
        r is Ok ==> spec_validate(tokens@, size, ascii_width, bpp, blocks_view(blocks@)) == Ok::<RequestTokensView, RequestError>(r->Ok_0@),
        r is Err ==> spec_validate(tokens@, size, ascii_width, bpp, blocks_view(blocks@)) == Err::<RequestTokensView, RequestError>(r->Err_0),
{
    let ghost bv = blocks_view(blocks@);
    if blocks.len() == 0 {
        return Err(RequestError::MissingFontBlock);
    }
    let mut b: usize = 0;
    while b < blocks.len()
        invariant
            b <= blocks@.len(),
            bv == blocks_view(blocks@),
            first_block_problem(tokens@, bv, b as nat) is None,
        decreases blocks@.len() - b,
    {
        let block = &blocks[b];
        assert(bv[b as int] == block@);
        let chars = index_chars(tokens, block.index);
        if chars.len() == 0 {
            proof {
                lemma_problem_stays(tokens@, bv, (b + 1) as nat, bv.len());
            }
            return Err(RequestError::MissingIndex(block.path));
        }
        let mut t: usize = 0;
        while t < block.y_offsets.len()
            invariant
                b < blocks@.len(),
                bv == blocks_view(blocks@),
                bv[b as int] == block@,
                first_block_problem(tokens@, bv, b as nat) is None,
                chars@.len() > 0,
                t <= block.y_offsets@.len(),
                chars@ == index_text(tokens@, block.index),
                stray_offset(chars@, block.y_offsets@, t as nat) is None,
            decreases block.y_offsets@.len() - t,
        {
            let (at, c, _) = block.y_offsets[t];
            if !char_in(&chars, c) {
                proof {
                    lemma_stray_stays(chars@, block.y_offsets@, (t + 1) as nat, block.y_offsets@.len());
                    lemma_problem_stays(tokens@, bv, (b + 1) as nat, bv.len());
                }
                return Err(RequestError::YOffsetNotInIndex(at, c));
            }
            t = t + 1;
        }
        b = b + 1;
    }
    match size {
        None => Err(RequestError::MissingSize),
        Some(size) => Ok(RequestTokens { size, ascii_width, bpp, blocks }),
    }
}

/// Parses the tokens of a font-data request: reads its items in order
/// and checks the result.
pub fn parse_request(tokens: &Vec<MacroToken>) -> (r: Result<RequestTokens, RequestError>)
    ensures
        r is Ok ==> spec_parse_request(tokens@) == Ok::<RequestTokensView, RequestError>(r->Ok_0@),
        r is Err ==> spec_parse_request(tokens@) == Err::<RequestTokensView, RequestError>(r->Err_0),
{
    let mut st = ParseProgress { size: None, ascii_width: None, bpp: None, blocks: Vec::new(), current: None };
    assert(blocks_view(st.blocks@) =~= Seq::empty());
    assert(st@ == start_state());
    let mut p: usize = 0;
    while p < tokens.len()
        invariant
            p <= tokens@.len(),
            parse_items(tokens@, 0, start_state()) == parse_items(tokens@, p as int, st@),
        decreases tokens@.len() - p,
    {
        proof {
            lemma_item_advances(tokens@, p as int, st@);
        }
        p = match parse_item(tokens, p, &mut st) {
            Ok(q) => q,
            Err(e) => {
                return Err(e);
            },
        };
    }
    let ghost last = st@;
    let current = st.current.take();
    finish_block(&mut st.blocks, current);
    assert(blocks_view(st.blocks@) == finished(last));
    validate(tokens, st.size, st.ascii_width, st.bpp, st.blocks)
}

/// The settings of a request: its glyph size, the cell width of its ASCII
/// glyphs and its bits per pixel.
#[derive(Debug, Clone, Copy, PartialEq, Eq, Structural)]
pub struct FontSettings {
    pub size: u16,
    pub ascii_width: u16,
    pub bpp: u8,
}

/// The digits of the integer literal at `p`, or none.
pub open spec fn int_text(tokens: Seq<MacroToken>, p: int) -> Seq<char> {
    if int_at(tokens, p) {
        tokens[p]->Int_0@
    } else {
        Seq::empty()
    }
}

/// Whether `bpp` is a supported bit depth.
pub open spec fn supported_bpp(bpp: int) -> bool {
    bpp == 1 || bpp == 2 || bpp == 3 || bpp == 4 || bpp == 8
}

/// The settings of a parsed request: the size must fit in `u16`; the
/// ASCII width, the size unless given, too; the bit depth, 1 unless given,
/// must fit in `u8` and be 1, 2, 3, 4 or 8. The first problem in that
/// order is reported.
pub open spec fn spec_settings(tokens: Seq<MacroToken>, req: RequestTokensView) -> Result<FontSettings, RequestError> {
    let size = int_text(tokens, req.size as int);
    if !decimal_fits(size, u16::MAX as int) {
        Err(RequestError::NumberTooLarge(req.size))
    } else {
        let ascii_ok = match req.ascii_width {
            Some(p) => decimal_fits(int_text(tokens, p as int), u16::MAX as int),
            None => true,
        };
        let ascii_width = match req.ascii_width {
            Some(p) => digits_value(int_text(tokens, p as int)),
            None => digits_value(size),
        };
        let bpp_ok = match req.bpp {
            Some(p) => decimal_fits(int_text(tokens, p as int), u8::MAX as int),
            None => true,
        };
        let bpp = match req.bpp {
            Some(p) => digits_value(int_text(tokens, p as int)),
            None => 1,
        };
        if !ascii_ok {
            Err(RequestError::NumberTooLarge(req.ascii_width->0))
        } else if !bpp_ok {
            Err(RequestError::NumberTooLarge(req.bpp->0))
        } else if !supported_bpp(bpp) {
            Err(RequestError::UnsupportedBpp(req.bpp->0))
        } else {
            Ok(FontSettings { size: digits_value(size) as u16, ascii_width: ascii_width as u16, bpp: bpp as u8 })
        }
    }
}

fn int_digits(tokens: &Vec<MacroToken>, p: usize) -> (r: &str)
    ensures
        r@ == int_text(tokens@, p as int),
{
    proof {
        reveal_strlit("");
    }
    if p < tokens.len() {
        if let MacroToken::Int(d) = &tokens[p] {
            return d.as_str();
        }
    }
    ""
}

/// The settings of a parsed request.
pub fn resolve_settings(tokens: &Vec<MacroToken>, req: &RequestTokens) -> (r: Result<FontSettings, RequestError>)
    ensures
        r == spec_settings(tokens@, req@),
{
    proof {
        reveal_strlit("");
    }
    let size = match parse_decimal(int_digits(tokens, req.size), u16::MAX as u32) {
        Some(v) => v as u16,
        None => {
            return Err(RequestError::NumberTooLarge(req.size));
        },
    };
    let ascii_width = match req.ascii_width {
        Some(p) => match parse_decimal(int_digits(tokens, p), u16::MAX as u32) {
            Some(v) => v as u16,
            None => {
                return Err(RequestError::NumberTooLarge(p));
            },
        },
        None => size,
    };
    let bpp = match req.bpp {
        Some(p) => match parse_decimal(int_digits(tokens, p), u8::MAX as u32) {
            Some(v) => v as u8,
            None => {
                return Err(RequestError::NumberTooLarge(p));
            },
        },
        None => 1,
    };
    if !(bpp == 1 || bpp == 2 || bpp == 3 || bpp == 4 || bpp == 8) {
        return Err(RequestError::UnsupportedBpp(req.bpp.unwrap_or(0)));
    }
    Ok(FontSettings { size, ascii_width, bpp })
}

/// The index of a block of a parsed request.
pub fn block_index<'a>(tokens: &'a Vec<MacroToken>, block: &BlockTokens) -> (r: &'a str)
    ensures
        r@ == index_text(tokens@, block.index),
{
    proof {
        reveal_strlit("");
    }
    match block.index {
        Some(p) => {
            if p < tokens.len() {
                if let MacroToken::Str(s) = &tokens[p] {
                    return s.as_str();
                }
            }
            ""
        },
        None => "",
    }
}

/// Whether no character is tweaked twice.
pub open spec fn distinct_tweaks(offsets: Seq<(usize, char, i16)>) -> bool {
    forall|i: int, j: int| 0 <= i < j < offsets.len() ==> offsets[i].1 != offsets[j].1
}

/// Whether a block has a non-empty index that holds the characters of its
/// tweaks, each tweaked once.
pub open spec fn block_well_formed(tokens: Seq<MacroToken>, b: BlockTokensView) -> bool {
    &&& index_text(tokens, b.index).len() > 0
    &&& forall|i: int| 0 <= i < b.y_offsets.len() ==> index_text(tokens, b.index).contains(#[trigger] b.y_offsets[i].1)
    &&& distinct_tweaks(b.y_offsets)
}

proof fn lemma_offsets_distinct(tokens: Seq<MacroToken>, p: int, acc: Seq<(usize, char, i16)>)
    requires
        distinct_tweaks(acc),
    ensures
        parse_offsets(tokens, p, acc) matches Ok((_, offsets)) ==> distinct_tweaks(offsets),
    decreases tokens.len() - p,
{
    if 0 <= p < tokens.len() && tokens[p] is Char && punct_at(tokens, p + 1, ':') {
        if let Ok((delta, q)) = signed_value_at(tokens, p + 2) {
            let c = tokens[p]->Char_0;
            if !tweaked(acc, c) {
                let next = acc.push((p as usize, c, delta));
                assert forall|i: int, j: int| 0 <= i < j < next.len() implies next[i].1 != next[j].1 by {
                    if j == acc.len() {
                        assert(!(0 <= i < acc.len() && acc[i].1 == c));
                    }
                }
                lemma_offsets_distinct(tokens, after_comma(tokens, q + 1), next);
            }
        }
    }
}

/// Whether every block read so far tweaks each character once.
pub open spec fn state_distinct(st: ParseState) -> bool {
    &&& forall|b: int| 0 <= b < st.blocks.len() ==> distinct_tweaks(#[trigger] st.blocks[b].y_offsets)
    &&& (st.current matches Some(c) ==> distinct_tweaks(c.y_offsets))
}

proof fn lemma_items_distinct(tokens: Seq<MacroToken>, p: int, st: ParseState)
    requires
        state_distinct(st),
    ensures
        parse_items(tokens, p, st) matches Ok(last) ==> state_distinct(last) && (forall|b: int|
            0 <= b < finished(last).len() ==> distinct_tweaks(#[trigger] finished(last)[b].y_offsets)),
    decreases tokens.len() - p,
{
    if 0 <= p < tokens.len() {
        if let Ok((q, next)) = item_step(tokens, p, st) {
            lemma_item_advances(tokens, p, st);
            lemma_offsets_distinct(tokens, p + 3, Seq::empty());
            assert(state_distinct(next));
            lemma_items_distinct(tokens, q, next);
        }
    }
}

proof fn lemma_no_stray(index: Seq<char>, offsets: Seq<(usize, char, i16)>, k: nat)
    requires
        k <= offsets.len(),
        stray_offset(index, offsets, k) is None,
    ensures
        forall|i: int| 0 <= i < k ==> index.contains(#[trigger] offsets[i].1),
    decreases k,
{
    if k > 0 {
        lemma_no_stray(index, offsets, (k - 1) as nat);
    }
}

proof fn lemma_no_problem(tokens: Seq<MacroToken>, blocks: Seq<BlockTokensView>, k: nat)
    requires
        k <= blocks.len(),
        first_block_problem(tokens, blocks, k) is None,
    ensures
        forall|b: int| 0 <= b < k ==> #[trigger] block_problem(tokens, blocks[b]) is None,
    decreases k,
{
    if k > 0 {
        lemma_no_problem(tokens, blocks, (k - 1) as nat);
    }
}

/// A request that parses has a block, and each of its blocks has a
/// non-empty index that holds the characters of its tweaks, each tweaked
/// once.
pub proof fn law_parsed_request_well_formed(tokens: Seq<MacroToken>)
    requires
        spec_parse_request(tokens) is Ok,
    ensures
        spec_parse_request(tokens)->Ok_0.blocks.len() > 0,
        forall|b: int| 0 <= b < spec_parse_request(tokens)->Ok_0.blocks.len()
            ==> block_well_formed(tokens, #[trigger] spec_parse_request(tokens)->Ok_0.blocks[b]),
{
    let st = parse_items(tokens, 0, start_state())->Ok_0;
    lemma_items_distinct(tokens, 0, start_state());
    let blocks = finished(st);
    lemma_no_problem(tokens, blocks, blocks.len());
    assert forall|b: int| 0 <= b < blocks.len() implies block_well_formed(tokens, #[trigger] blocks[b]) by {
        assert(block_problem(tokens, blocks[b]) is None);
        let index = index_text(tokens, blocks[b].index);
        lemma_no_stray(index, blocks[b].y_offsets, blocks[b].y_offsets.len());
    }
}

/// Whether two tokens are the same, or are identifiers naming the same
/// key (or both no key).
pub open spec fn same_token_up_to_key_name(x: MacroToken, y: MacroToken) -> bool {
    x == y || (x is Ident && y is Ident && key_of(x->Ident_0@) == key_of(y->Ident_0@))
}

/// Whether two token sequences differ at most in which name they use for
/// a key.
pub open spec fn same_up_to_key_names(a: Seq<MacroToken>, b: Seq<MacroToken>) -> bool {
    a.len() == b.len() && forall|i: int| 0 <= i < a.len() ==> same_token_up_to_key_name(#[trigger] a[i], b[i])
}

proof fn lemma_offsets_renamed(a: Seq<MacroToken>, b: Seq<MacroToken>, p: int, acc: Seq<(usize, char, i16)>)
    requires
        same_up_to_key_names(a, b),
    ensures
        parse_offsets(a, p, acc) == parse_offsets(b, p, acc),
    decreases a.len() - p,
{
    if 0 <= p < a.len() {
        assert(same_token_up_to_key_name(a[p], b[p]));
        assert(p + 1 < a.len() ==> same_token_up_to_key_name(a[p + 1], b[p + 1]));
        assert(p + 2 < a.len() ==> same_token_up_to_key_name(a[p + 2], b[p + 2]));
        assert(p + 3 < a.len() ==> same_token_up_to_key_name(a[p + 3], b[p + 3]));
        assert(signed_value_at(a, p + 2) == signed_value_at(b, p + 2));
        if a[p] is Char && punct_at(a, p + 1, ':') {
            if let Ok((delta, q)) = signed_value_at(a, p + 2) {
                assert(q + 1 < a.len() ==> same_token_up_to_key_name(a[q + 1], b[q + 1]));
                let c = a[p]->Char_0;
                lemma_offsets_renamed(a, b, after_comma(a, q + 1), acc.push((p as usize, c, delta)));
            }
        }
    }
}

proof fn lemma_index_text_renamed(a: Seq<MacroToken>, b: Seq<MacroToken>, index: Option<usize>)
    requires
        same_up_to_key_names(a, b),
    ensures
        index_text(a, index) == index_text(b, index),
{
    if let Some(p) = index {
        if 0 <= p < a.len() {
            assert(same_token_up_to_key_name(a[p as int], b[p as int]));
        }
    }
}

proof fn lemma_items_renamed(a: Seq<MacroToken>, b: Seq<MacroToken>, p: int, st: ParseState)
    requires
        same_up_to_key_names(a, b),
    ensures
        parse_items(a, p, st) == parse_items(b, p, st),
    decreases a.len() - p,
{
    if 0 <= p < a.len() {
        assert(same_token_up_to_key_name(a[p], b[p]));
        assert(p + 1 < a.len() ==> same_token_up_to_key_name(a[p + 1], b[p + 1]));
        assert(p + 2 < a.len() ==> same_token_up_to_key_name(a[p + 2], b[p + 2]));
        assert(p + 3 < a.len() ==> same_token_up_to_key_name(a[p + 3], b[p + 3]));
        lemma_offsets_renamed(a, b, p + 3, Seq::empty());
        if let Some(c) = st.current {
            lemma_index_text_renamed(a, b, c.index);
        }
        if let Ok((q, _)) = parse_offsets(a, p + 3, Seq::empty()) {
            lemma_offsets_advance(a, p + 3, Seq::empty());
            assert(q < a.len() ==> same_token_up_to_key_name(a[q], b[q]));
        }
        assert(item_step(a, p, st) == item_step(b, p, st));
        if let Ok((q, next)) = item_step(a, p, st) {
            lemma_item_advances(a, p, st);
            lemma_items_renamed(a, b, q, next);
        }
    }
}

proof fn lemma_problems_renamed(a: Seq<MacroToken>, b: Seq<MacroToken>, blocks: Seq<BlockTokensView>, k: nat)
    requires
        same_up_to_key_names(a, b),
        k <= blocks.len(),
    ensures
        first_block_problem(a, blocks, k) == first_block_problem(b, blocks, k),
    decreases k,
{
    if k > 0 {
        lemma_problems_renamed(a, b, blocks, (k - 1) as nat);
        lemma_index_text_renamed(a, b, blocks[k - 1].index);
    }
}

/// Keys are read by what they name: a request reads the same when a key
/// is written under another of its names, such as `height` for `size`.
pub proof fn law_key_names_are_aliases(a: Seq<MacroToken>, b: Seq<MacroToken>)
    requires
        same_up_to_key_names(a, b),
    ensures
        spec_parse_request(a) == spec_parse_request(b),
        key_of("height"@) == key_of("size"@),
{
    reveal_strlit("height");
    reveal_strlit("size");
    lemma_items_renamed(a, b, 0, start_state());
    if let Ok(st) = parse_items(a, 0, start_state()) {
        lemma_problems_renamed(a, b, finished(st), finished(st).len());
    }
}

} // verus!
