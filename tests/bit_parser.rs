use float_bits::bit_parser::{binary_string, parse, strip_spaces, ParseError};

#[test]
fn parse_test() {
    assert_eq!(parse("10110000111111110101010110101010").unwrap(), 0b10110000111111110101010110101010);
}

#[test]
fn parse_rejects_short_input() {
    assert_eq!(parse("1010"), Err(ParseError::WrongLength));
    assert_eq!(parse(""), Err(ParseError::WrongLength));
    assert_eq!(parse("101100001111111101010101101010101"), Err(ParseError::WrongLength));
}

#[test]
fn parse_rejects_invalid_character() {
    assert_eq!(parse("10100000000020000000000000000000"), Err(ParseError::InvalidCharacter('2')));
}

#[test]
fn parse_reports_first_invalid_character() {
    assert_eq!(parse("1010x000000020000000000000000000"), Err(ParseError::InvalidCharacter('x')));
    assert_eq!(parse("1010 00000000000000000000000000 "), Err(ParseError::InvalidCharacter(' ')));
}

#[test]
fn parse_counts_characters_not_bytes() {
    let s = "é0000000000000000000000000000000";
    assert_eq!(s.chars().count(), 32);
    assert_eq!(parse(s), Err(ParseError::InvalidCharacter('é')));
}

#[test]
fn parse_extremes() {
    assert_eq!(parse("00000000000000000000000000000000"), Ok(0));
    assert_eq!(parse("11111111111111111111111111111111"), Ok(u32::MAX));
    assert_eq!(parse("10000000000000000000000000000000"), Ok(0x8000_0000));
    assert_eq!(parse("00000000000000000000000000000001"), Ok(1));
}

#[test]
fn binary_string_renders_all_digits() {
    assert_eq!(binary_string(0), "00000000000000000000000000000000");
    assert_eq!(binary_string(5), "00000000000000000000000000000101");
    assert_eq!(binary_string(0b10110000111111110101010110101010), "10110000111111110101010110101010");
    assert_eq!(binary_string(u32::MAX), "11111111111111111111111111111111");
}

#[test]
fn binary_string_parses_back() {
    for bits in [0u32, 1, 2, 0x8000_0000, 0x7f80_0000, 0xdead_beef, u32::MAX] {
        assert_eq!(parse(&binary_string(bits)), Ok(bits));
    }
    let s = "01000000010010010000111111011011";
    assert_eq!(binary_string(parse(s).unwrap()), s);
}

#[test]
fn strip_spaces_removes_only_spaces() {
    assert_eq!(strip_spaces("1100 0000 1110 1000"), "1100000011101000");
    assert_eq!(strip_spaces("  a b\tc  "), "ab\tc");
    assert_eq!(strip_spaces(""), "");
    assert_eq!(strip_spaces("   "), "");
    assert_eq!(strip_spaces("é é"), "éé");
}

#[test]
fn stripped_grouped_input_parses() {
    let arg = "1 10000001 11010000000000000000000";
    assert_eq!(parse(&strip_spaces(arg)), Ok(0b11000000111010000000000000000000));
}
