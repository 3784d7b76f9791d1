use json_parser::{
    parse_json, parse_json_array, parse_json_object, parse_json_value, JSONValue, ParseJSONError,
};

/// A value tree whose numbers are floating-point values.
#[derive(Debug, Clone, PartialEq)]
enum Json {
    String(String),
    Number(f64),
    Object(Vec<(String, Json)>),
    Array(Vec<Json>),
    True,
    False,
    Null,
}

fn with_floats(value: JSONValue) -> Json {
    match value {
        JSONValue::String(text) => Json::String(text),
        JSONValue::Number(literal) => Json::Number(literal.parse().unwrap()),
        JSONValue::Object(pairs) => {
            Json::Object(pairs.into_iter().map(|(key, value)| (key, with_floats(value))).collect())
        }
        JSONValue::Array(items) => Json::Array(items.into_iter().map(with_floats).collect()),
        JSONValue::True => Json::True,
        JSONValue::False => Json::False,
        JSONValue::Null => Json::Null,
    }
}

fn parse(text: &str) -> Result<Json, ParseJSONError> {
    parse_json(text).map(with_floats)
}

fn parse_array(text: &str, from: usize) -> Result<(usize, Vec<Json>), ParseJSONError> {
    parse_json_array(&text.chars().collect(), from)
        .map(|(end, items)| (end, items.into_iter().map(with_floats).collect()))
}

fn parse_object(text: &str, from: usize) -> Result<(usize, Vec<(String, Json)>), ParseJSONError> {
    parse_json_object(&text.chars().collect(), from).map(|(end, pairs)| {
        (end, pairs.into_iter().map(|(key, value)| (key, with_floats(value))).collect())
    })
}

fn parse_value(text: &str, from: usize) -> Result<(usize, Json), ParseJSONError> {
    parse_json_value(&text.chars().collect(), from).map(|(end, value)| (end, with_floats(value)))
}

fn failure(message: &str) -> ParseJSONError {
    ParseJSONError(message.to_string())
}

#[test]
fn parse_json_just_string() {
    assert_eq!(
        parse_json(r#""hello, world!""#),
        Ok(JSONValue::String("hello, world!".to_string()))
    );
}

#[test]
fn parse_json_just_number() {
    assert_eq!(parse(&r#"-1.2e+3"#), Ok(Json::Number(-1200f64)));
}

#[test]
fn parse_json_null() {
    assert_eq!(parse_json("null"), Ok(JSONValue::Null));
}

#[test]
fn parse_json_true() {
    assert_eq!(parse_json("true"), Ok(JSONValue::True));
}

#[test]
fn parse_json_false() {
    assert_eq!(parse_json("false"), Ok(JSONValue::False));
}

#[test]
fn parse_json_array_empty_array() {
    assert_eq!(
        parse_json_array(&"[]".chars().collect(), 0),
        Ok((1, vec![]))
    )
}

#[test]
fn parse_json_array_numbers_array() {
    assert_eq!(
        parse_array("[ 1 , 2 , 3 ]", 0),
        Ok((
            12,
            vec![
                Json::Number(1f64),
                Json::Number(2f64),
                Json::Number(3f64),
            ]
        ))
    )
}

#[test]
fn parse_json_array_trailing_comma() {
    assert_eq!(
        parse_json_array(&"[1, 2,]".chars().collect(), 0),
        Err(ParseJSONError("No JSON value found".to_string()))
    )
}

#[test]
fn parse_json_array_double_comma() {
    assert_eq!(
        parse_json_array(&"[1, 2,,]".chars().collect(), 0),
        Err(ParseJSONError("Unexpected comma".to_string()))
    )
}

#[test]
fn parse_json_array_missing_comma() {
    assert_eq!(
        parse_json_array(&"[1, 2  3]".chars().collect(), 0),
        Err(ParseJSONError("Expected ']' to end array".to_string()))
    )
}

#[test]
fn parse_json_array_nested_array() {
    assert_eq!(
        parse_array("[1, [2, [3]]]", 0),
        Ok((
            12,
            vec![
                Json::Number(1.0),
                Json::Array(vec![
                    Json::Number(2.0),
                    Json::Array(vec![Json::Number(3.0),])
                ])
            ]
        ))
    )
}

#[test]
fn parse_json_just_empty_array() {
    assert_eq!(parse_json("[]"), Ok(JSONValue::Array(vec![])))
}

#[test]
fn parse_json_just_empty_array_with_space() {
    assert_eq!(parse_json("   [    ]   "), Ok(JSONValue::Array(vec![])))
}

#[test]
fn parse_json_empty_object() {
    assert_eq!(parse_json("{}"), Ok(JSONValue::Object(vec![])))
}

#[test]
fn parse_json_simple_object() {
    assert_eq!(
        parse_json(r#"{ "message": "hello!" }"#),
        Ok(JSONValue::Object(vec![(
            "message".to_string(),
            JSONValue::String("hello!".to_string())
        )]))
    )
}

#[test]
fn parse_json_simple_object_multiple_keys() {
    assert_eq!(
        parse_json(r#"{ "message": "things are broken", "success": false}"#),
        Ok(JSONValue::Object(vec![
            (
                "message".to_string(),
                JSONValue::String("things are broken".to_string())
            ),
            ("success".to_string(), JSONValue::False)
        ]))
    )
}

#[test]
fn parse_json_nested_object() {
    assert_eq!(
        parse(
            r#"{
    "data": {
        "number": 1
    }
}"#
        ),
        Ok(Json::Object(vec![(
            "data".to_string(),
            Json::Object(vec![("number".to_string(), Json::Number(1.0))])
        )]))
    )
}

#[test]
fn parse_json_complex_object_kitchen_sink() {
    assert_eq!(
        parse(
            r#"{
    "object": {
        "thing": 1,
        "another": 2.0e10,
        "true": false,
        "exists": null,
        "items": [
            {
                "type": "item thingo"
            },
            true,
            "hey!",
            [
                false,
                true
            ]
        ]
    }
}"#
        ),
        Ok(Json::Object(vec![(
            "object".to_string(),
            Json::Object(vec![
                ("thing".to_string(), Json::Number(1.0)),
                ("another".to_string(), Json::Number(20000000000.0)),
                ("true".to_string(), Json::False),
                ("exists".to_string(), Json::Null),
                (
                    "items".to_string(),
                    Json::Array(vec![
                        Json::Object(vec![(
                            "type".to_string(),
                            Json::String("item thingo".to_string())
                        )]),
                        Json::True,
                        Json::String("hey!".to_string()),
                        Json::Array(vec![Json::False, Json::True])
                    ])
                )
            ])
        )]))
    )
}

#[test]
fn parse_json_empty_object_with_space() {
    assert_eq!(parse_json("   {    }   "), Ok(JSONValue::Object(vec![])))
}

#[test]
fn numbers_keep_their_literal() {
    assert_eq!(
        parse_json("[1, 2.0e10, -0.5]"),
        Ok(JSONValue::Array(vec![
            JSONValue::Number("1".to_string()),
            JSONValue::Number("2.0e10".to_string()),
            JSONValue::Number("-0.5".to_string()),
        ]))
    );
}

#[test]
fn numbers_array_through_the_entry_point() {
    assert_eq!(
        parse("[ 1 , 2 , 3 ]"),
        Ok(Json::Array(vec![Json::Number(1.0), Json::Number(2.0), Json::Number(3.0)]))
    );
}

#[test]
fn nested_arrays_through_the_entry_point() {
    assert_eq!(
        parse("[1, [2, [3]]]"),
        Ok(Json::Array(vec![
            Json::Number(1.0),
            Json::Array(vec![Json::Number(2.0), Json::Array(vec![Json::Number(3.0)])])
        ]))
    );
}

#[test]
fn exponent_forms() {
    assert_eq!(parse("-1.2e+3"), Ok(Json::Number(-1200.0)));
    assert_eq!(parse("-1.2E-3"), Ok(Json::Number(-0.0012)));
    assert_eq!(parse("1.2e+3"), Ok(Json::Number(1200.0)));
    assert_eq!(parse("1.2E-3"), Ok(Json::Number(0.0012)));
}

#[test]
fn array_failures_through_the_entry_point() {
    assert_eq!(parse_json("[1, 2,]"), Err(failure("No JSON value found")));
    assert_eq!(parse_json("[1, 2,,]"), Err(failure("Unexpected comma")));
    assert_eq!(parse_json("[1, 2  3]"), Err(failure("Expected ']' to end array")));
    assert_eq!(parse_json("[,]"), Err(failure("Unexpected comma")));
    assert_eq!(parse_json("[,1]"), Err(failure("Unexpected comma")));
    assert_eq!(parse_json("[1,,2]"), Err(failure("Unexpected comma")));
    assert_eq!(parse_json("[1 2]"), Err(failure("Expected ']' to end array")));
    assert_eq!(parse_json("[1 ,]"), Err(failure("No JSON value found")));
}

#[test]
fn object_failures() {
    assert_eq!(parse_json(r#"{"a": 1,}"#), Err(failure("Expected '\"' for object key")));
    assert_eq!(parse_json(r#"{a: 1}"#), Err(failure("Expected '\"' for object key")));
    assert_eq!(parse_json(r#"{1: 1}"#), Err(failure("Expected '\"' for object key")));
    assert_eq!(parse_json(r#"{"a" 1}"#), Err(failure("Expected ':' after object key")));
    assert_eq!(parse_json(r#"{"a""#), Err(failure("Expected ':' after object key")));
    assert_eq!(parse_json(r#"{"a": 1 "b": 2}"#), Err(failure("Expected '}' to end object")));
    assert_eq!(parse_json(r#"{"a": 1 2}"#), Err(failure("Expected '}' to end object")));
    assert_eq!(parse_json(r#"{,}"#), Err(failure("Unexpected comma")));
    assert_eq!(parse_json(r#"{"a": 1,, "b": 2}"#), Err(failure("Unexpected comma")));
    assert_eq!(parse_json(r#"{"a": }"#), Err(failure("No JSON value found")));
    assert_eq!(parse_json(r#"{"a"#), Err(failure("Missing end quotes for string")));
    assert_eq!(parse_json(r#"{"a": tru}"#), Err(failure("Expected true but got tru}")));
}

#[test]
fn object_offsets() {
    assert_eq!(parse_object("{}", 0), Ok((1, vec![])));
    assert_eq!(
        parse_object(r#"x{ "a" : 1 , "b" : [ ] }y"#, 1),
        Ok((23, vec![("a".to_string(), Json::Number(1.0)), ("b".to_string(), Json::Array(vec![]))]))
    );
}

#[test]
fn object_keeps_order_and_duplicate_keys() {
    assert_eq!(
        parse(r#"{"b": 1, "a": 2, "b": 3}"#),
        Ok(Json::Object(vec![
            ("b".to_string(), Json::Number(1.0)),
            ("a".to_string(), Json::Number(2.0)),
            ("b".to_string(), Json::Number(3.0)),
        ]))
    );
}

#[test]
fn object_keys_are_not_decoded() {
    assert_eq!(
        parse_json(r#"{"a\nb": "cA"}"#),
        Ok(JSONValue::Object(vec![(
            r#"a\nb"#.to_string(),
            JSONValue::String(r#"cA"#.to_string())
        )]))
    );
}

#[test]
fn unterminated_string_fails() {
    assert_eq!(parse_json("\"abc"), Err(failure("Missing end quotes for string")));
    assert_eq!(parse_json("[\"abc]"), Err(failure("Missing end quotes for string")));
}

#[test]
fn no_value_found() {
    assert_eq!(parse_json(""), Err(failure("No JSON value found")));
    assert_eq!(parse_json("   \n\t "), Err(failure("No JSON value found")));
    assert_eq!(parse_json("]"), Err(failure("No JSON value found")));
    assert_eq!(parse_json("x"), Err(failure("No JSON value found")));
    assert_eq!(parse_json("+1"), Err(failure("No JSON value found")));
    assert_eq!(parse_json(".5"), Err(failure("No JSON value found")));
    assert_eq!(parse_value("null", 4), Err(failure("No JSON value found")));
    assert_eq!(parse_value("null", 9), Err(failure("No JSON value found")));
}

#[test]
fn keyword_mismatch() {
    assert_eq!(parse_json("nul"), Err(failure("Expected null but got nul")));
    assert_eq!(parse_json("nope"), Err(failure("Expected null but got nope")));
    assert_eq!(parse_json("trUe"), Err(failure("Expected true but got trUe")));
    assert_eq!(parse_json("f"), Err(failure("Expected false but got f")));
    assert_eq!(parse_json("falsy!"), Err(failure("Expected false but got falsy")));
    assert_eq!(parse_json("[true, fals]"), Err(failure("Expected false but got fals]")));
}

#[test]
fn invalid_numbers() {
    assert_eq!(parse_json("-"), Err(failure("Invalid number")));
    assert_eq!(parse_json("-."), Err(failure("Invalid number")));
    assert_eq!(parse_json("1e"), Err(failure("Invalid number")));
    assert_eq!(parse_json("[1, 2e+]"), Err(failure("Invalid number")));
    assert_eq!(parse_json("-x"), Err(failure("Invalid number")));
    assert_eq!(parse_json("1."), Err(failure("Invalid number")));
    assert_eq!(parse_json("[1., 2]"), Err(failure("Invalid number")));
    assert_eq!(parse_json("1.e2"), Err(failure("Invalid number")));
}

#[test]
fn text_after_the_first_value_is_ignored() {
    assert_eq!(parse_json("null true"), Ok(JSONValue::Null));
    assert_eq!(parse_json("[] ]"), Ok(JSONValue::Array(vec![])));
    assert_eq!(parse("12abc"), Ok(Json::Number(12.0)));
    assert_eq!(parse("1e5e3"), Ok(Json::Number(100000.0)));
    assert_eq!(parse("1.5.2"), Ok(Json::Number(1.5)));
    assert_eq!(parse("\"a\" \"b\""), Ok(Json::String("a".to_string())));
}

#[test]
fn value_offsets() {
    assert_eq!(parse_value("  null  ,", 0), Ok((5, Json::Null)));
    assert_eq!(parse_value("  null  ,", 1), Ok((5, Json::Null)));
    assert_eq!(parse_value("[true]", 1), Ok((4, Json::True)));
    assert_eq!(parse_value("x 12 ", 1), Ok((3, Json::Number(12.0))));
    assert_eq!(parse_value(" \"ab\" ", 0), Ok((4, Json::String("ab".to_string()))));
    assert_eq!(parse_value("[[1], 2]", 1), Ok((3, Json::Array(vec![Json::Number(1.0)]))));
    assert_eq!(parse_value("{\"a\": {}}", 6), Ok((7, Json::Object(vec![]))));
}

#[test]
fn input_that_ends_inside_an_array_is_a_failure() {
    assert_eq!(parse_array("[", 0), Err(failure("No JSON value found")));
    assert_eq!(parse_array("[  ", 0), Err(failure("No JSON value found")));
    assert_eq!(parse_array("[1", 0), Err(failure("Expected ']' to end array")));
    assert_eq!(parse_array("[1  ", 0), Err(failure("Expected ']' to end array")));
    assert_eq!(parse_array("[1,", 0), Err(failure("No JSON value found")));
    assert_eq!(parse_array("[1 , ", 0), Err(failure("No JSON value found")));
    assert_eq!(parse_array("[[1", 0), Err(failure("Expected ']' to end array")));
    assert_eq!(parse_array("[[1]", 0), Err(failure("Expected ']' to end array")));
    assert_eq!(parse_array("[[1],", 0), Err(failure("No JSON value found")));
    assert_eq!(parse_array("[[[1", 0), Err(failure("Expected ']' to end array")));
    assert_eq!(parse_json("["), Err(failure("No JSON value found")));
    assert_eq!(parse_json("[1"), Err(failure("Expected ']' to end array")));
    assert_eq!(parse_json("[1,"), Err(failure("No JSON value found")));
    assert_eq!(parse_json("[1, [2"), Err(failure("Expected ']' to end array")));
    assert_eq!(parse_json("[1, [2]"), Err(failure("Expected ']' to end array")));
    assert_eq!(parse_json("[{\"a\": 1"), Err(failure("Expected '}' to end object")));
}

#[test]
fn input_that_ends_inside_an_object_is_a_failure() {
    assert_eq!(parse_object("{", 0), Err(failure("Expected '\"' for object key")));
    assert_eq!(parse_object("{ ", 0), Err(failure("Expected '\"' for object key")));
    assert_eq!(parse_object("{\"a\":1", 0), Err(failure("Expected '}' to end object")));
    assert_eq!(parse_object("{\"a\":1 ", 0), Err(failure("Expected '}' to end object")));
    assert_eq!(parse_object("{\"a\":1,", 0), Err(failure("Expected '\"' for object key")));
    assert_eq!(parse_object("{\"a\":", 0), Err(failure("No JSON value found")));
    assert_eq!(parse_object("{\"a\"", 0), Err(failure("Expected ':' after object key")));
    assert_eq!(parse_object("{\"a\": [1", 0), Err(failure("Expected ']' to end array")));
    assert_eq!(parse_object("{\"a\": {\"b\": 1}", 0), Err(failure("Expected '}' to end object")));
    assert_eq!(parse_json("{"), Err(failure("Expected '\"' for object key")));
    assert_eq!(parse_json("{\"a\":1"), Err(failure("Expected '}' to end object")));
    assert_eq!(parse_json("{\"a\":1,"), Err(failure("Expected '\"' for object key")));
}

#[test]
fn success_ends_at_the_closing_bracket() {
    let texts: [&str; 6] =
        ["[]", "[ 1 , 2 ]", "[[], [[]]]  ", "x[\"]\", 1]]", "[{\"a\": []}] ]", " [true]"];
    for text in texts {
        let chars: Vec<char> = text.chars().collect();
        let from: usize = chars.iter().position(|c| *c == '[').unwrap();
        let (end, _) = parse_json_array(&chars, from).unwrap();
        assert!(from < end && end < chars.len(), "{text}");
        assert_eq!(chars[end], ']', "{text}");
    }
    let chars: Vec<char> = " { \"}\" : {} } }".chars().collect();
    let (end, _) = parse_json_object(&chars, 1).unwrap();
    assert_eq!(end, 12);
    assert_eq!(chars[end], '}');
}

#[test]
fn offsets_at_or_behind_the_end_hold_nothing() {
    assert_eq!(parse_array("[]", 2), Err(failure("No JSON value found")));
    assert_eq!(parse_array("[]", usize::MAX), Err(failure("No JSON value found")));
    assert_eq!(parse_object("{}", 2), Err(failure("Expected '\"' for object key")));
    assert_eq!(parse_object("{}", usize::MAX), Err(failure("Expected '\"' for object key")));
    assert_eq!(parse_value("1", usize::MAX), Err(failure("No JSON value found")));
}

#[test]
fn whitespace_around_a_text_changes_nothing() {
    let texts: [&str; 8] = [
        "null",
        "true",
        "-1.2e+3",
        "\"a b\"",
        "[1, [2, [3]]]",
        "{ \"message\": \"things are broken\", \"success\": false}",
        "[1, [2]]",
        "{\"a\": {\"b\": [null, 1.5]}}",
    ];
    let pads: [&str; 5] = ["", " ", "\n\t", "\r\n  ", "\u{a0}\u{2003}\u{3000}"];
    for text in texts {
        let plain = parse_json(text);
        assert!(plain.is_ok());
        for lead in pads {
            for trail in pads {
                let padded = format!("{lead}{text}{trail}");
                assert_eq!(parse_json(&padded), plain);
            }
        }
    }
}

#[test]
fn leading_whitespace_changes_no_failure() {
    let texts: [&str; 9] =
        ["", "nul", "[1, 2,]", "{\"a\" 1}", "\"abc", "-", "[1, [2", "{", "1."];
    for text in texts {
        let plain = parse_json(text);
        assert!(plain.is_err());
        let padded = format!(" \n\u{2028}{text}");
        assert_eq!(parse_json(&padded), plain);
    }
}

#[test]
fn clone_is_a_deep_copy() {
    let value = parse_json(r#"{"a": [1, "two", {"three": null}], "b": true}"#).unwrap();
    let copy = value.clone();
    assert_eq!(copy, value);
    assert_eq!(with_floats(copy), with_floats(value));
}
