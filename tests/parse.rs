use sfl_font::{BMCharacter, BMFont, Field, ParseError};

fn doc(lines: &[&str]) -> String {
    let mut s = String::new();
    for l in lines {
        s.push_str(l);
        s.push('\n');
    }
    s
}

#[test]
fn round_trip_well_formed() {
    let text = doc(&["Arial", "32 40", "arial.png", "2", "65 0 0 10 12 1 1 11", "66 10 0 9 12 0 1 10"]);
    let font = BMFont::parse(&text).unwrap();
    assert_eq!(font.font_name, "Arial");
    assert_eq!(font.size, 32);
    assert_eq!(font.line_height, 40);
    assert_eq!(font.chars.len(), 2);
    assert_eq!(font.chars[&65].xadvance, 11);
    assert_eq!(font.chars[&66].x, 10);
    assert_eq!(
        font.chars[&65],
        BMCharacter { id: 65, x: 0, y: 0, width: 10, height: 12, xoffset: 1, yoffset: 1, xadvance: 11 }
    );
}

#[test]
fn fewer_than_five_lines_fail() {
    assert_eq!(BMFont::parse(""), Err(ParseError::TooFewLines { lines: 0 }));
    assert_eq!(BMFont::parse("Arial"), Err(ParseError::TooFewLines { lines: 1 }));
    assert_eq!(BMFont::parse("Arial\n32 40\n"), Err(ParseError::TooFewLines { lines: 2 }));
    assert_eq!(BMFont::parse("Arial\n32 40\nimg\n0\n"), Err(ParseError::TooFewLines { lines: 4 }));
    assert_eq!(BMFont::parse("Arial\n32 40\nimg\n0"), Err(ParseError::TooFewLines { lines: 4 }));
}

#[test]
fn five_lines_with_no_glyphs() {
    let font = BMFont::parse("Arial\n32 40\nimg\n0\n\n").unwrap();
    assert!(font.chars.is_empty());
    assert_eq!(font.size, 32);
    assert_eq!(font.line_height, 40);
    let font = BMFont::parse("Arial\n32 40\nimg\n0\nanything").unwrap();
    assert!(font.chars.is_empty());
}

#[test]
fn header_with_one_token() {
    let text = doc(&["Arial", "32", "img", "0", ""]);
    assert_eq!(BMFont::parse(&text), Err(ParseError::MalformedHeader { tokens: 1 }));
}

#[test]
fn header_with_three_tokens() {
    let text = doc(&["Arial", "32 40 1", "img", "0", ""]);
    assert_eq!(BMFont::parse(&text), Err(ParseError::MalformedHeader { tokens: 3 }));
}

#[test]
fn header_with_non_numeric_tokens() {
    let text = doc(&["Arial", "big tall", "img", "0", ""]);
    assert_eq!(
        BMFont::parse(&text),
        Err(ParseError::InvalidNumber { line: 2, field: Field::Size, text: "big".to_string() })
    );
    let text = doc(&["Arial", "32 tall", "img", "0", ""]);
    assert_eq!(
        BMFont::parse(&text),
        Err(ParseError::InvalidNumber { line: 2, field: Field::LineHeight, text: "tall".to_string() })
    );
}

#[test]
fn header_order_is_size_then_line_height() {
    let font = BMFont::parse(&doc(&["F", "12 17", "img", "0", ""])).unwrap();
    assert_eq!(font.size, 12);
    assert_eq!(font.line_height, 17);
}

#[test]
fn header_with_two_spaces_has_three_tokens() {
    let text = doc(&["Arial", "32  40", "img", "0", ""]);
    assert_eq!(BMFont::parse(&text), Err(ParseError::MalformedHeader { tokens: 3 }));
}

#[test]
fn count_line_not_a_number() {
    let text = doc(&["Arial", "32 40", "img", "two", ""]);
    assert_eq!(
        BMFont::parse(&text),
        Err(ParseError::InvalidNumber { line: 4, field: Field::CharacterCount, text: "two".to_string() })
    );
}

#[test]
fn count_larger_than_lines_present() {
    let text = doc(&["Arial", "32 40", "img", "3", "65 0 0 10 12 1 1 11"]);
    assert_eq!(BMFont::parse(&text), Err(ParseError::CharacterCountMismatch { actual: 1, expected: 3 }));
}

#[test]
fn extra_lines_after_glyphs_are_ignored() {
    let text = doc(&[
        "Arial",
        "32 40",
        "img",
        "1",
        "65 0 0 10 12 1 1 11",
        "66 10 0 9 12 0 1 10",
        "not a glyph line",
    ]);
    let font = BMFont::parse(&text).unwrap();
    assert_eq!(font.chars.len(), 1);
    assert!(font.chars.contains_key(&65));
}

#[test]
fn duplicate_id_keeps_the_later_line() {
    let text = doc(&["Arial", "32 40", "img", "2", "65 0 0 10 12 1 1 11", "65 5 6 7 8 2 3 9"]);
    let font = BMFont::parse(&text).unwrap();
    assert_eq!(font.chars.len(), 1);
    assert_eq!(
        font.chars[&65],
        BMCharacter { id: 65, x: 5, y: 6, width: 7, height: 8, xoffset: 2, yoffset: 3, xadvance: 9 }
    );
}

#[test]
fn glyph_line_with_seven_tokens() {
    let text = doc(&["Arial", "32 40", "img", "2", "65 0 0 10 12 1 1 11", "66 10 0 9 12 0 1"]);
    assert_eq!(BMFont::parse(&text), Err(ParseError::MalformedGlyphLine { line: 6, tokens: 7 }));
}

#[test]
fn glyph_line_with_bad_fourth_token() {
    let text = doc(&["Arial", "32 40", "img", "2", "65 0 0 10 12 1 1 11", "66 10 0 abc 12 0 1 10"]);
    assert_eq!(
        BMFont::parse(&text),
        Err(ParseError::InvalidNumber { line: 6, field: Field::Width, text: "abc".to_string() })
    );
}

#[test]
fn parsing_twice_gives_equal_fonts() {
    let text = doc(&["Arial", "32 40", "img", "2", "65 0 0 10 12 1 1 11", "66 10 0 9 12 0 1 10"]);
    let a = BMFont::parse(&text).unwrap();
    let b = BMFont::parse(&text).unwrap();
    assert_eq!(a, b);
}

#[test]
fn crlf_line_endings() {
    let text = "My Font\r\n32 40\r\nimg.png\r\n1\r\n65 0 0 10 12 1 1 11\r\n";
    let font = BMFont::parse(text).unwrap();
    assert_eq!(font.font_name, "My Font");
    assert_eq!(font.line_height, 40);
    assert_eq!(font.chars[&65].xadvance, 11);
}

#[test]
fn font_name_kept_verbatim() {
    let font = BMFont::parse(&doc(&["  Fira Sans  Bold ", "8 9", "img", "0", ""])).unwrap();
    assert_eq!(font.font_name, "  Fira Sans  Bold ");
}

#[test]
fn read_character_fields_in_order() {
    assert_eq!(
        BMFont::read_character("1 2 3 4 5 6 7 8", 5),
        Ok(BMCharacter { id: 1, x: 2, y: 3, width: 4, height: 5, xoffset: 6, yoffset: 7, xadvance: 8 })
    );
}

#[test]
fn read_character_ignores_extra_tokens() {
    assert_eq!(
        BMFont::read_character("1 2 3 4 5 6 7 8 9 junk", 5),
        Ok(BMCharacter { id: 1, x: 2, y: 3, width: 4, height: 5, xoffset: 6, yoffset: 7, xadvance: 8 })
    );
}

#[test]
fn read_character_number_limits() {
    assert_eq!(BMFont::read_character("4294967295 0 0 0 0 0 0 +7", 9).unwrap().id, 4294967295);
    assert_eq!(BMFont::read_character("4294967295 0 0 0 0 0 0 +7", 9).unwrap().xadvance, 7);
    assert_eq!(
        BMFont::read_character("4294967296 0 0 0 0 0 0 0", 9),
        Err(ParseError::InvalidNumber { line: 9, field: Field::Id, text: "4294967296".to_string() })
    );
    assert_eq!(
        BMFont::read_character("1 2 3 4 5 6 -7 8", 9),
        Err(ParseError::InvalidNumber { line: 9, field: Field::YOffset, text: "-7".to_string() })
    );
    assert_eq!(
        BMFont::read_character("1 2 3 4 5 6 7 +", 9),
        Err(ParseError::InvalidNumber { line: 9, field: Field::XAdvance, text: "+".to_string() })
    );
}

#[test]
fn read_character_empty_token_from_double_space() {
    assert_eq!(
        BMFont::read_character("1  2 3 4 5 6 7 8", 3),
        Err(ParseError::InvalidNumber { line: 3, field: Field::X, text: String::new() })
    );
}

#[test]
fn read_character_too_few_tokens() {
    assert_eq!(BMFont::read_character("", 7), Err(ParseError::MalformedGlyphLine { line: 7, tokens: 1 }));
    assert_eq!(
        BMFont::read_character("1 2 3 4 5 6 7", 7),
        Err(ParseError::MalformedGlyphLine { line: 7, tokens: 7 })
    );
}
