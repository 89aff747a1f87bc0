use glyph_cell::request::{
    block_index, key_of_name, parse_decimal, parse_request, resolve_settings, Expected, Key,
    MacroToken, RequestError,
};

fn ident(name: &str) -> MacroToken {
    MacroToken::Ident(name.to_owned())
}

fn int_lit(digits: &str) -> MacroToken {
    MacroToken::Int(digits.to_owned())
}

fn string(value: &str) -> MacroToken {
    MacroToken::Str(value.to_owned())
}

fn colon() -> MacroToken {
    MacroToken::Punct(':')
}

fn comma() -> MacroToken {
    MacroToken::Punct(',')
}

/// `key: value,`
fn item(key: &str, value: MacroToken) -> Vec<MacroToken> {
    vec![ident(key), colon(), value, comma()]
}

fn block(path: &str, index: &str) -> Vec<MacroToken> {
    let mut tokens = item("path", string(path));
    tokens.extend(item("index", string(index)));
    tokens
}

#[test]
fn parses_y_offset_tweaks_inside_font_block() {
    // size: 18, ascii_width: 9, bpp: 4, path: "font.ttf", index: "Ag",
    // y_offset: { 'g': -1, },
    let mut tokens = item("size", int_lit("18"));
    tokens.extend(item("ascii_width", int_lit("9")));
    tokens.extend(item("bpp", int_lit("4")));
    tokens.extend(block("font.ttf", "Ag"));
    tokens.extend(vec![
        ident("y_offset"),
        colon(),
        MacroToken::OpenBrace,
        MacroToken::Char('g'),
        colon(),
        MacroToken::Punct('-'),
        int_lit("1"),
        comma(),
        MacroToken::CloseBrace,
        comma(),
    ]);

    let input = parse_request(&tokens).unwrap();
    let settings = resolve_settings(&tokens, &input).unwrap();

    assert_eq!(settings.ascii_width, 9);
    assert_eq!(settings.bpp, 4);
    assert_eq!(input.blocks.len(), 1);
    assert_eq!(input.blocks[0].y_offsets.len(), 1);
    assert_eq!(input.blocks[0].y_offsets[0].1, 'g');
    assert_eq!(input.blocks[0].y_offsets[0].2, -1);
}

#[test]
fn parses_height_as_size_alias() {
    // height: 18, path: "font.ttf", index: "A",
    let mut tokens = item("height", int_lit("18"));
    tokens.extend(block("font.ttf", "A"));

    let input = parse_request(&tokens).unwrap();
    let settings = resolve_settings(&tokens, &input).unwrap();

    assert_eq!(settings.size, 18);
}

#[test]
fn rejects_duplicate_size_and_height() {
    // size: 18, height: 18, path: "font.ttf", index: "A",
    let mut tokens = item("size", int_lit("18"));
    tokens.extend(item("height", int_lit("18")));
    tokens.extend(block("font.ttf", "A"));

    let err = match parse_request(&tokens) {
        Ok(_) => panic!("expected duplicate size/height error"),
        Err(err) => err,
    };

    assert_eq!(err, RequestError::DuplicateSize(4));
}

#[test]
fn settings_default_ascii_width_to_size_and_bpp_to_one() {
    let mut tokens = item("size", int_lit("12"));
    tokens.extend(block("font.ttf", "A"));
    let input = parse_request(&tokens).unwrap();
    let settings = resolve_settings(&tokens, &input).unwrap();
    assert_eq!((settings.size, settings.ascii_width, settings.bpp), (12, 12, 1));
}

#[test]
fn settings_reject_unsupported_bpp_and_large_numbers() {
    let mut tokens = item("size", int_lit("12"));
    tokens.extend(item("bpp", int_lit("5")));
    tokens.extend(block("font.ttf", "A"));
    let input = parse_request(&tokens).unwrap();
    assert_eq!(resolve_settings(&tokens, &input), Err(RequestError::UnsupportedBpp(6)));

    let mut tokens = item("size", int_lit("70000"));
    tokens.extend(block("font.ttf", "A"));
    let input = parse_request(&tokens).unwrap();
    assert_eq!(resolve_settings(&tokens, &input), Err(RequestError::NumberTooLarge(2)));
}

#[test]
fn blocks_keep_their_order_and_indexes() {
    let mut tokens = item("size", int_lit("12"));
    tokens.extend(block("a.ttf", "AB"));
    tokens.extend(block("b.ttf", "\u{4f60}"));
    let input = parse_request(&tokens).unwrap();
    assert_eq!(input.blocks.len(), 2);
    assert_eq!(block_index(&tokens, &input.blocks[0]), "AB");
    assert_eq!(block_index(&tokens, &input.blocks[1]), "\u{4f60}");
    assert_eq!(input.blocks[0].path, 6);
    assert_eq!(input.blocks[1].path, 14);
}

#[test]
fn commas_between_items_are_optional() {
    let tokens = vec![
        ident("size"),
        colon(),
        int_lit("8"),
        ident("path"),
        colon(),
        string("f.ttf"),
        ident("index"),
        colon(),
        string("A"),
    ];
    let input = parse_request(&tokens).unwrap();
    assert_eq!(input.size, 2);
    assert_eq!(input.blocks.len(), 1);
}

#[test]
fn reports_each_problem_with_its_position() {
    // Missing colon.
    let tokens = vec![ident("size"), int_lit("8")];
    assert_eq!(parse_request(&tokens).err(), Some(RequestError::Expected(1, Expected::Colon)));

    // A key must be an identifier.
    let tokens = vec![int_lit("8")];
    assert_eq!(parse_request(&tokens).err(), Some(RequestError::Expected(0, Expected::Ident)));

    // Unknown key.
    let tokens = item("weight", int_lit("8"));
    assert_eq!(parse_request(&tokens).err(), Some(RequestError::UnknownKey(0)));

    // Wrong value kinds.
    let tokens = item("size", string("8"));
    assert_eq!(parse_request(&tokens).err(), Some(RequestError::Expected(2, Expected::Int)));
    let tokens = item("path", int_lit("8"));
    assert_eq!(parse_request(&tokens).err(), Some(RequestError::Expected(2, Expected::Str)));
    let mut tokens = item("path", string("f.ttf"));
    tokens.extend(item("y_offset", int_lit("1")));
    assert_eq!(parse_request(&tokens).err(), Some(RequestError::Expected(6, Expected::Braces)));

    // Block keys before a path.
    let tokens = item("index", string("A"));
    assert_eq!(parse_request(&tokens).err(), Some(RequestError::IndexBeforePath(0)));
    let tokens = vec![ident("yoffset"), colon(), MacroToken::OpenBrace, MacroToken::CloseBrace];
    assert_eq!(parse_request(&tokens).err(), Some(RequestError::YOffsetBeforePath(0)));

    // A second index for one block.
    let mut tokens = block("f.ttf", "A");
    tokens.extend(item("index", string("B")));
    assert_eq!(parse_request(&tokens).err(), Some(RequestError::DuplicateIndex(8)));

    // No block, no index, no size.
    let tokens = item("size", int_lit("8"));
    assert_eq!(parse_request(&tokens).err(), Some(RequestError::MissingFontBlock));
    let mut tokens = item("size", int_lit("8"));
    tokens.extend(item("path", string("f.ttf")));
    assert_eq!(parse_request(&tokens).err(), Some(RequestError::MissingIndex(6)));
    let tokens = block("f.ttf", "A");
    assert_eq!(parse_request(&tokens).err(), Some(RequestError::MissingSize));
}

fn offsets(entries: Vec<MacroToken>) -> Vec<MacroToken> {
    let mut tokens = item("size", int_lit("8"));
    tokens.extend(block("f.ttf", "Ag"));
    tokens.push(ident("y_offsets"));
    tokens.push(colon());
    tokens.push(MacroToken::OpenBrace);
    tokens.extend(entries);
    tokens.push(MacroToken::CloseBrace);
    tokens
}

#[test]
fn reports_y_offset_problems() {
    let entry = |c: char, digits: &str| vec![MacroToken::Char(c), colon(), int_lit(digits), comma()];

    // Position of the first entry: 4 + 8 + 3.
    let tokens = offsets(entry('Z', "1"));
    assert_eq!(parse_request(&tokens).err(), Some(RequestError::YOffsetNotInIndex(15, 'Z')));

    let mut twice = entry('g', "1");
    twice.extend(entry('g', "2"));
    let tokens = offsets(twice);
    assert_eq!(parse_request(&tokens).err(), Some(RequestError::DuplicateYOffsetChar(19, 'g')));

    let tokens = offsets(entry('g', "40000"));
    assert_eq!(parse_request(&tokens).err(), Some(RequestError::YOffsetOutOfRange(17)));

    let tokens = offsets(entry('g', "3000000000"));
    assert_eq!(parse_request(&tokens).err(), Some(RequestError::NumberTooLarge(17)));

    let tokens = offsets(vec![int_lit("1")]);
    assert_eq!(parse_request(&tokens).err(), Some(RequestError::Expected(15, Expected::Char)));

    let mut tokens = offsets(entry('g', "1"));
    tokens.extend(vec![ident("y_offset"), colon(), MacroToken::OpenBrace, MacroToken::CloseBrace]);
    assert_eq!(parse_request(&tokens).err(), Some(RequestError::DuplicateYOffsets(20)));

    // The lowest i16 is accepted.
    let tokens = offsets(vec![MacroToken::Char('A'), colon(), MacroToken::Punct('-'), int_lit("32768")]);
    let input = parse_request(&tokens).unwrap();
    assert_eq!(input.blocks[0].y_offsets, vec![(15, 'A', i16::MIN)]);
}

#[test]
fn keys_and_numbers_are_read_exactly() {
    assert_eq!(key_of_name("height"), Some(Key::Size));
    assert_eq!(key_of_name("yoffset"), Some(Key::YOffset));
    assert_eq!(key_of_name("Size"), None);
    assert_eq!(parse_decimal("65535", 65535), Some(65535));
    assert_eq!(parse_decimal("65536", 65535), None);
    assert_eq!(parse_decimal("", 10), None);
    assert_eq!(parse_decimal("1x", 10), None);
}
