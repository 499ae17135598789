use microface::fonts::args::{ArgsError, IncludeFontArgs};

fn parse(s: &str) -> Result<(String, u32, u8), ArgsError> {
    IncludeFontArgs::parse(s.as_bytes()).map(|a| (String::from_utf8(a.path).unwrap(), a.size, a.bpp))
}

#[test]
fn plain_arguments_parse() {
    assert_eq!(parse("\"fonts/Inter.ttf\", size = 12, bpp = 2"), Ok(("fonts/Inter.ttf".to_string(), 12, 2)));
    assert_eq!(parse("\"fonts/din.otf\", bpp = 4, size = 16"), Ok(("fonts/din.otf".to_string(), 16, 4)));
}

#[test]
fn spacing_and_commas_are_flexible() {
    assert_eq!(parse("  \"a\"\n,\tsize=1 bpp=8 ,"), Ok(("a".to_string(), 1, 8)));
    assert_eq!(parse("\"a\",size=1,bpp=1,"), Ok(("a".to_string(), 1, 1)));
}

#[test]
fn escapes_in_the_path_are_resolved() {
    assert_eq!(parse(r#""a\"b\\c\n", size = 1, bpp = 2"#), Ok(("a\"b\\c\n".to_string(), 1, 2)));
    assert_eq!(parse(r#""\q", size = 1, bpp = 2"#), Err(ArgsError::ExpectedPath));
}

#[test]
fn later_values_replace_earlier_ones_and_underscores_are_skipped() {
    assert_eq!(parse("\"a\", size = 1, size = 1_000, bpp = 8, bpp = 2"), Ok(("a".to_string(), 1000, 2)));
}

#[test]
fn each_refusal_has_its_reason() {
    assert_eq!(parse("size = 1, bpp = 2"), Err(ArgsError::ExpectedPath));
    assert_eq!(parse("\"abc, size = 1, bpp = 2"), Err(ArgsError::ExpectedPath));
    assert_eq!(parse("\"a\" size = 1, bpp = 2"), Err(ArgsError::ExpectedComma));
    assert_eq!(parse("\"a\""), Err(ArgsError::ExpectedComma));
    assert_eq!(parse("\"a\", 12"), Err(ArgsError::ExpectedKey));
    assert_eq!(parse("\"a\", , size = 1"), Err(ArgsError::ExpectedKey));
    assert_eq!(parse("\"a\", size 12"), Err(ArgsError::ExpectedEquals));
    assert_eq!(parse("\"a\", size = x"), Err(ArgsError::ExpectedInteger));
    assert_eq!(parse("\"a\", size = 4294967296, bpp = 1"), Err(ArgsError::IntegerTooLarge));
    assert_eq!(parse("\"a\", size = 99999999999999999999999, bpp = 1"), Err(ArgsError::IntegerTooLarge));
    assert_eq!(parse("\"a\", size = 1, bpp = 300"), Err(ArgsError::IntegerTooLarge));
    assert_eq!(parse("\"a\", size = 1, bpp = 3"), Err(ArgsError::BadBpp));
    assert_eq!(parse("\"a\", depth = 4"), Err(ArgsError::UnknownKey));
    assert_eq!(parse("\"a\", bpp = 4"), Err(ArgsError::MissingSize));
    assert_eq!(parse("\"a\", size = 4"), Err(ArgsError::MissingBpp));
}

#[test]
fn a_value_is_read_before_its_key_is_judged() {
    assert_eq!(parse("\"a\", foo = x"), Err(ArgsError::ExpectedInteger));
    assert_eq!(parse("\"a\", foo = 1"), Err(ArgsError::UnknownKey));
}

#[test]
fn the_largest_values_fit() {
    assert_eq!(parse("\"a\", size = 4294967295, bpp = 8"), Ok(("a".to_string(), u32::MAX, 8)));
}

#[test]
fn integers_take_every_base_and_suffix() {
    assert_eq!(parse("\"a\", size = 0x0C, bpp = 0b10"), Ok(("a".to_string(), 12, 2)));
    assert_eq!(parse("\"a\", size = 0o17, bpp = 0x8"), Ok(("a".to_string(), 15, 8)));
    assert_eq!(parse("\"a\", size = 12u32, bpp = 4u8"), Ok(("a".to_string(), 12, 4)));
    assert_eq!(parse("\"a\", size = 0xFF_FF, bpp = 1_u8"), Ok(("a".to_string(), 65535, 1)));
    // `0X10` is the integer 0 with the suffix `X10`
    assert_eq!(parse("\"a\", size = 0X10, bpp = 1"), Ok(("a".to_string(), 0, 1)));
    assert_eq!(parse("\"a\", size = 0x100000000, bpp = 1"), Err(ArgsError::IntegerTooLarge));
    assert_eq!(parse("\"a\", size = 1, bpp = 0x100"), Err(ArgsError::IntegerTooLarge));
}

#[test]
fn floats_and_malformed_integers_are_refused() {
    assert_eq!(parse("\"a\", size = 12.5, bpp = 1"), Err(ArgsError::ExpectedInteger));
    assert_eq!(parse("\"a\", size = 1e3, bpp = 1"), Err(ArgsError::ExpectedInteger));
    assert_eq!(parse("\"a\", size = 12f32, bpp = 1"), Err(ArgsError::ExpectedInteger));
    assert_eq!(parse("\"a\", size = 0x, bpp = 1"), Err(ArgsError::ExpectedInteger));
    assert_eq!(parse("\"a\", size = 0b12, bpp = 1"), Err(ArgsError::ExpectedInteger));
    assert_eq!(parse("\"a\", size = 0o8, bpp = 1"), Err(ArgsError::ExpectedInteger));
}

#[test]
fn raw_strings_keep_their_bytes() {
    assert_eq!(parse(r#"r"C:\fonts\a.ttf", size = 1, bpp = 2"#), Ok((r"C:\fonts\a.ttf".to_string(), 1, 2)));
    assert_eq!(parse("r#\"a\"b\"#, size = 1, bpp = 2"), Ok(("a\"b".to_string(), 1, 2)));
    assert_eq!(parse("r##\"x\"#y\"##, size = 1, bpp = 2"), Ok(("x\"#y".to_string(), 1, 2)));
    assert_eq!(parse("r#\"a\", size = 1, bpp = 2"), Err(ArgsError::ExpectedPath));
    assert_eq!(parse("r\"a\"#, size = 1, bpp = 2"), Err(ArgsError::ExpectedComma));
    assert_eq!(parse("ra\", size = 1, bpp = 2"), Err(ArgsError::ExpectedPath));
}

#[test]
fn hex_escapes_give_ascii_bytes() {
    assert_eq!(parse(r#""a\x41\x7e", size = 1, bpp = 2"#), Ok(("aA~".to_string(), 1, 2)));
    assert_eq!(parse(r#""\x80", size = 1, bpp = 2"#), Err(ArgsError::ExpectedPath));
    assert_eq!(parse(r#""\x4", size = 1, bpp = 2"#), Err(ArgsError::ExpectedPath));
}

#[test]
fn unicode_escapes_and_line_breaks_in_paths() {
    assert_eq!(parse(r#""a\u{41}\u{e9}\u{1_F600}", size = 1, bpp = 2"#), Ok(("aAé😀".to_string(), 1, 2)));
    assert_eq!(parse(r#""\u{D800}", size = 1, bpp = 2"#), Err(ArgsError::ExpectedPath));
    assert_eq!(parse(r#""\u{}", size = 1, bpp = 2"#), Err(ArgsError::ExpectedPath));
    assert_eq!(parse(r#""\u{_1}", size = 1, bpp = 2"#), Err(ArgsError::ExpectedPath));
    assert_eq!(parse(r#""\u{1234567}", size = 1, bpp = 2"#), Err(ArgsError::ExpectedPath));
    assert_eq!(parse(r#""\u{110000}", size = 1, bpp = 2"#), Err(ArgsError::ExpectedPath));
    assert_eq!(parse("\"fonts/\\\n    din.otf\", size = 1, bpp = 2"), Ok(("fonts/din.otf".to_string(), 1, 2)));
    assert_eq!(parse("\"a\r\nb\", size = 1, bpp = 2"), Ok(("a\nb".to_string(), 1, 2)));
    assert_eq!(parse("\"a\rb\", size = 1, bpp = 2"), Err(ArgsError::ExpectedPath));
}

#[test]
fn keywords_are_no_keys() {
    assert_eq!(parse("\"a\", fn = 1, size = 1, bpp = 2"), Err(ArgsError::ExpectedKey));
    assert_eq!(parse("\"a\", _ = 1"), Err(ArgsError::ExpectedKey));
    assert_eq!(parse("\"a\", self = 1"), Err(ArgsError::ExpectedKey));
    assert_eq!(parse("\"a\", Self = 1"), Err(ArgsError::ExpectedKey));
    assert_eq!(parse("\"a\", sizes = 1"), Err(ArgsError::UnknownKey));
    assert_eq!(parse("\"a\", _size = 1"), Err(ArgsError::UnknownKey));
}
