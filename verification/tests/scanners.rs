use json_parser::chars::{char_is_digit, char_is_whitespace};
use json_parser::{
    parse_json_literal, parse_json_number, parse_json_string, skip_whitespace, ParseJSONError,
};

fn number(text: &str, from: usize) -> Result<(usize, f64), ParseJSONError> {
    parse_json_number(&text.chars().collect(), from)
        .map(|(end, literal)| (end, literal.parse().unwrap()))
}

fn literal(text: &str, from: usize) -> Result<(usize, String), ParseJSONError> {
    parse_json_number(&text.chars().collect(), from)
}

fn failure(message: &str) -> ParseJSONError {
    ParseJSONError(message.to_string())
}

#[test]
fn parse_json_string_simple_string() {
    assert_eq!(
        parse_json_string(&r#"   "hello, world!""#.chars().collect(), 3),
        Ok((17, "hello, world!".to_string()))
    );
}

#[test]
fn parse_json_string_with_escapes() {
    assert_eq!(
        parse_json_string(&r#""hello\", world!""#.chars().collect(), 0),
        Ok((16, r#"hello\", world!"#.to_string()))
    );
}

#[test]
fn parse_json_string_incomplete_string_err() {
    assert_eq!(
        parse_json_string(&r#""hello, world!"#.chars().collect(), 0),
        Err(ParseJSONError("Missing end quotes for string".to_string()))
    );
}

#[test]
fn parse_json_number_1() {
    assert_eq!(number(r#"-1.2e+3"#, 0), Ok((6, -1200f64)));
}

#[test]
fn parse_json_number_2() {
    assert_eq!(number(r#"-1.2E-3,"#, 0), Ok((6, -0.0012f64)));
}

#[test]
fn string_escapes_are_kept_as_written() {
    assert_eq!(
        parse_json_string(&r#""a\nbन\\c""#.chars().collect(), 0),
        Ok((9, r#"a\nbन\\c"#.to_string()))
    );
}

#[test]
fn string_ends_at_the_first_quote_without_a_backslash_before_it() {
    assert_eq!(
        parse_json_string(&r#""ab"cd""#.chars().collect(), 0),
        Ok((3, "ab".to_string()))
    );
    assert_eq!(parse_json_string(&r#""""#.chars().collect(), 0), Ok((1, String::new())));
    // Only the one character before a quote counts: an escaped backslash
    // before the closing quote hides it.
    assert_eq!(
        parse_json_string(&r#""ab\\""#.chars().collect(), 0),
        Err(failure("Missing end quotes for string"))
    );
    assert_eq!(
        parse_json_string(&r#""ab\\" "c""#.chars().collect(), 0),
        Ok((7, r#"ab\\" "#.to_string()))
    );
}

#[test]
fn string_counts_scalar_values() {
    assert_eq!(
        parse_json_string(&"\u{2003}\"h\u{e9}llo \u{1f600}\" ".chars().collect(), 1),
        Ok((9, "h\u{e9}llo \u{1f600}".to_string()))
    );
}

#[test]
fn string_from_an_offset_at_or_behind_the_end() {
    assert_eq!(
        parse_json_string(&"\"".chars().collect(), 0),
        Err(failure("Missing end quotes for string"))
    );
    assert_eq!(
        parse_json_string(&"\"a\"".chars().collect(), 3),
        Err(failure("Missing end quotes for string"))
    );
    assert_eq!(
        parse_json_string(&"\"a\"".chars().collect(), usize::MAX),
        Err(failure("Missing end quotes for string"))
    );
    assert_eq!(
        parse_json_string(&"\"a\"".chars().collect(), 2),
        Err(failure("Missing end quotes for string"))
    );
}

#[test]
fn skip_whitespace_stops_at_the_first_other_character() {
    let chars: Vec<char> = "  \t\r\n x  y".chars().collect();
    assert_eq!(skip_whitespace(&chars, 0), 6);
    assert_eq!(skip_whitespace(&chars, 3), 6);
    assert_eq!(skip_whitespace(&chars, 6), 6);
    assert_eq!(skip_whitespace(&chars, 7), 9);
    assert_eq!(skip_whitespace(&chars, 9), 9);
    assert_eq!(skip_whitespace(&chars, 10), 10);
    assert_eq!(skip_whitespace(&chars, 25), 25);
    assert_eq!(skip_whitespace(&"   ".chars().collect(), 0), 3);
    assert_eq!(skip_whitespace(&Vec::new(), 0), 0);
    assert_eq!(skip_whitespace(&"\u{a0}\u{1680}\u{2028}\u{3000}!".chars().collect(), 0), 4);
    assert_eq!(skip_whitespace(&"\u{200b}".chars().collect(), 0), 0);
}

#[test]
fn whitespace_is_what_unicode_classes_as_white_space() {
    let mut code: u32 = 0;
    while code <= 0x10ffff {
        if let Some(c) = char::from_u32(code) {
            assert_eq!(char_is_whitespace(c), c.is_whitespace(), "U+{code:04X}");
        }
        code += 1;
    }
}

#[test]
fn digits_are_the_ten_decimal_digits() {
    let mut code: u32 = 0;
    while code <= 0x10ffff {
        if let Some(c) = char::from_u32(code) {
            assert_eq!(char_is_digit(c), c.is_ascii_digit(), "U+{code:04X}");
        }
        code += 1;
    }
}

#[test]
fn literal_matches_the_whole_keyword() {
    let chars: Vec<char> = "[true, false,null]".chars().collect();
    assert_eq!(parse_json_literal(&chars, 1, "true"), Ok(4));
    assert_eq!(parse_json_literal(&chars, 7, "false"), Ok(11));
    assert_eq!(parse_json_literal(&chars, 13, "null"), Ok(16));
}

#[test]
fn literal_mismatch_names_what_was_found() {
    let chars: Vec<char> = "[true, false,null]".chars().collect();
    assert_eq!(
        parse_json_literal(&chars, 1, "false"),
        Err(failure("Expected false but got true,"))
    );
    assert_eq!(
        parse_json_literal(&chars, 13, "true"),
        Err(failure("Expected true but got null"))
    );
}

#[test]
fn literal_cut_short_by_the_end_of_the_input() {
    assert_eq!(
        parse_json_literal(&"tru".chars().collect(), 0, "true"),
        Err(failure("Expected true but got tru"))
    );
    assert_eq!(
        parse_json_literal(&"a nul".chars().collect(), 2, "null"),
        Err(failure("Expected null but got nul"))
    );
    assert_eq!(
        parse_json_literal(&"null".chars().collect(), 4, "null"),
        Err(failure("Expected null but got "))
    );
    assert_eq!(
        parse_json_literal(&"null".chars().collect(), 7, "null"),
        Err(failure("Expected null but got "))
    );
    assert_eq!(
        parse_json_literal(&"null".chars().collect(), usize::MAX, "null"),
        Err(failure("Expected null but got "))
    );
}

#[test]
fn number_literal_is_what_was_consumed() {
    assert_eq!(literal("-1.2e+3", 0), Ok((6, "-1.2e+3".to_string())));
    assert_eq!(literal("[12, 3]", 1), Ok((2, "12".to_string())));
    assert_eq!(literal("[12, 3]", 5), Ok((5, "3".to_string())));
    assert_eq!(literal("0.25E-7]", 0), Ok((6, "0.25E-7".to_string())));
}

#[test]
fn number_values() {
    assert_eq!(number("0", 0), Ok((0, 0.0)));
    assert_eq!(number("-0", 0), Ok((1, -0.0)));
    assert_eq!(number("42", 0), Ok((1, 42.0)));
    assert_eq!(number("3.25", 0), Ok((3, 3.25)));
    assert_eq!(number("1.2e+3", 0), Ok((5, 1200.0)));
    assert_eq!(number("1.2E-3", 0), Ok((5, 0.0012)));
    assert_eq!(number("2.0e10", 0), Ok((5, 20000000000.0)));
    assert_eq!(number("1e2", 0), Ok((2, 100.0)));
    assert_eq!(number("007", 0), Ok((2, 7.0)));
    assert_eq!(number("-.5", 0), Ok((2, -0.5)));
    assert_eq!(number(".5", 0), Ok((1, 0.5)));
}

#[test]
fn number_stops_at_the_first_character_that_does_not_fit() {
    assert_eq!(number("12,", 0), Ok((1, 12.0)));
    assert_eq!(number("12 ", 0), Ok((1, 12.0)));
    assert_eq!(number("1.5.2", 0), Ok((2, 1.5)));
    assert_eq!(number("1e5e3", 0), Ok((2, 100000.0)));
    assert_eq!(number("1e5.3", 0), Ok((2, 100000.0)));
    assert_eq!(number("1e+5-3", 0), Ok((3, 100000.0)));
    assert_eq!(number("1+2", 0), Ok((0, 1.0)));
    assert_eq!(number("1-2", 0), Ok((0, 1.0)));
    assert_eq!(number("--1", 1), Ok((2, -1.0)));
    assert_eq!(number("1\u{663}", 0), Ok((0, 1.0)));
}

#[test]
fn number_without_digits_is_invalid() {
    let invalid: [&str; 16] = [
        "", "-", ".", "-.", "e5", "-e5", "1e", "1e+", "1e-", "1.5e", "--1", "+1", "1.", "-1.",
        "1.e2", "1.,",
    ];
    for text in invalid {
        assert_eq!(number(text, 0), Err(failure("Invalid number")), "{text}");
    }
    assert_eq!(number("12", 2), Err(failure("Invalid number")));
    assert_eq!(number("1e+x", 0), Err(failure("Invalid number")));
    assert_eq!(number("\u{663}", 0), Err(failure("Invalid number")));
}

fn has_point_without_digit_behind(text: &str) -> bool {
    let chars: Vec<char> = text.chars().collect();
    (0..chars.len()).any(|i| chars[i] == '.' && !chars.get(i + 1).is_some_and(char::is_ascii_digit))
}

/// Every text of up to six characters over `-`, `+`, `.`, `e`, `E`, `0` and
/// `7`. What the scanner accepts has a floating-point value, by the standard
/// parse, and no point without a digit behind it. Where it accepts nothing,
/// the standard parse accepts nothing either, unless the text starts with `+`
/// or has a point without a digit behind it.
#[test]
fn number_validity_is_that_of_the_standard_parse() {
    let alphabet: [char; 7] = ['-', '+', '.', 'e', 'E', '0', '7'];
    let mut texts: Vec<String> = vec![String::new()];
    let mut first: usize = 0;
    for _ in 0..6 {
        let last: usize = texts.len();
        for i in first..last {
            for c in alphabet {
                let mut longer = texts[i].clone();
                longer.push(c);
                texts.push(longer);
            }
        }
        first = last;
    }
    let mut whole: usize = 0;
    for text in &texts {
        let chars: Vec<char> = text.chars().collect();
        match parse_json_number(&chars, 0) {
            Ok((end, literal)) => {
                assert!(text.starts_with(&literal), "{text}");
                assert_eq!(end + 1, literal.chars().count(), "{text}");
                assert!(literal.parse::<f64>().is_ok(), "{text}");
                assert!(!has_point_without_digit_behind(&literal), "{text}");
                assert!(literal.ends_with(|c: char| c.is_ascii_digit()), "{text}");
                if literal.len() == text.len() {
                    whole += 1;
                }
            }
            Err(error) => {
                assert_eq!(error, failure("Invalid number"));
                let standard = text.parse::<f64>();
                assert!(
                    standard.is_err()
                        || text.starts_with('+')
                        || has_point_without_digit_behind(text),
                    "{text}"
                );
            }
        }
    }
    assert!(whole > 100);
}
