//! The parsers for values, arrays and objects, and the entry point.
//!
//! `parse_json_value` reads one value and hands arrays and objects to
//! `parse_json_array` and `parse_json_object`, which call it again for each
//! element. Every function is defined on every input and offset: an offset
//! at or behind the end of the input holds nothing.
use crate::chars::{char_is_digit, is_whitespace};
use crate::error::{ParseFailure, ParseJSONError};
use crate::grammar::{
    after_item, array_at, array_items, document, extend, lemma_after_item, lemma_array_items,
    lemma_array_items_next, lemma_document_well_formed, lemma_extend, lemma_object_members,
    lemma_object_members_next, lemma_value_at, lemma_value_at_well_formed, object_at,
    object_members, value_at, ItemState,
};
use crate::scan::{
    lemma_closing_quote, lemma_whitespace_end, parse_json_literal, parse_json_number,
    parse_json_string, skip_whitespace,
};
use crate::value::{
    lemma_array_view, lemma_members_of_push, lemma_models_of_nothing, lemma_object_view,
    lemma_trees_of_push, members_of, trees_of, JSONValue, JsonTree,
};
use vstd::prelude::*;

verus! {

/// Moves past the item that ends at `end`, and past the comma behind it if
/// there is one.
fn next_item(chars: &Vec<char>, end: usize) -> (r: (usize, ItemState))
    requires
        end < chars.len(),
    ensures
        r.0 == after_item(chars@, end as int).0,
        r.1 == after_item(chars@, end as int).1,
        end < r.0 <= chars.len(),
{
    proof {
        lemma_after_item(chars@, end as int);
    }
    let at = skip_whitespace(chars, end + 1);
    if at < chars.len() && chars[at] == ',' {
        (skip_whitespace(chars, at + 1), ItemState::Separated)
    } else {
        (at, ItemState::Completed)
    }
}

/// Reads the elements of the array whose opening bracket is at `from`, up to
/// its closing bracket.
///
/// Success means that the closing bracket was found: `end` is its offset.
/// Trailing commas, doubled commas, elements without a comma between them
/// and an input that ends before the closing bracket are failures.
pub fn parse_json_array(chars: &Vec<char>, from: usize) -> (r: Result<
    (usize, Vec<JSONValue>),
    ParseJSONError,
>)
    ensures
        match r {
            Ok((end, items)) => array_at(chars@, from as int) == Ok::<
                (int, Seq<JsonTree>),
                ParseFailure,
            >((end as int, trees_of(items@))) && from < end < chars.len() && chars@[end as int]
                == ']',
            Err(error) => array_at(chars@, from as int) matches Err(failure) && error@
                == failure.message(),
        },
    decreases chars.len() - from, 0int,
{
    if from >= chars.len() {
        return Err(ParseJSONError::no_value_found());
    }
    let mut output: Vec<JSONValue> = Vec::new();
    let mut state = ItemState::Opened;
    let mut i: usize = skip_whitespace(chars, from + 1);
    proof {
        lemma_array_items(chars@, i as int, state);
        lemma_models_of_nothing();
        lemma_extend(trees_of(output@), JsonTree::Null, array_at(chars@, from as int), 0);
    }
    while i < chars.len()
        invariant
            from < i <= chars.len(),
            array_at(chars@, from as int) == extend(
                trees_of(output@),
                array_items(chars@, i as int, state),
            ),
        decreases chars.len() - i,
    {
        let ch = chars[i];
        if ch == ']' && state != ItemState::Separated {
            proof {
                lemma_extend(trees_of(output@), JsonTree::Null, Ok((0, Seq::empty())), i as int);
            }
            return Ok((i, output));
        } else if state == ItemState::Completed {
            return Err(ParseJSONError::expected_closing_bracket());
        } else if ch == ',' {
            return Err(ParseJSONError::unexpected_comma());
        }
        proof {
            lemma_array_items_next(chars@, i as int, state);
        }
        match parse_json_value(chars, i) {
            Ok((end, element)) => {
                proof {
                    let (next, expect) = after_item(chars@, end as int);
                    lemma_extend(
                        trees_of(output@),
                        element@,
                        array_items(chars@, next, expect),
                        next,
                    );
                    lemma_trees_of_push(output@, element);
                }
                output.push(element);
                let (next, expect) = next_item(chars, end);
                i = next;
                state = expect;
            },
            Err(error) => {
                return Err(error);
            },
        }
    }
    if state == ItemState::Completed {
        Err(ParseJSONError::expected_closing_bracket())
    } else {
        Err(ParseJSONError::no_value_found())
    }
}

/// Reads the members of the object whose opening brace is at `from`, up to
/// its closing brace.
///
/// Success means that the closing brace was found: `end` is its offset. The
/// members are returned in the order in which they are written, with their
/// keys as written; a key that occurs twice is returned twice.
pub fn parse_json_object(chars: &Vec<char>, from: usize) -> (r: Result<
    (usize, Vec<(String, JSONValue)>),
    ParseJSONError,
>)
    ensures
        match r {
            Ok((end, pairs)) => object_at(chars@, from as int) == Ok::<
                (int, Seq<(Seq<char>, JsonTree)>),
                ParseFailure,
            >((end as int, members_of(pairs@))) && from < end < chars.len() && chars@[end as int]
                == '}',
            Err(error) => object_at(chars@, from as int) matches Err(failure) && error@
                == failure.message(),
        },
    decreases chars.len() - from, 0int,
{
    if from >= chars.len() {
        return Err(ParseJSONError::expected_quote_for_key());
    }
    let mut output: Vec<(String, JSONValue)> = Vec::new();
    let mut state = ItemState::Opened;
    let mut i: usize = skip_whitespace(chars, from + 1);
    let ghost nothing = (Seq::<char>::empty(), JsonTree::Null);
    proof {
        lemma_object_members(chars@, i as int, state);
        lemma_models_of_nothing();
        lemma_extend(members_of(output@), nothing, object_at(chars@, from as int), 0);
    }
    while i < chars.len()
        invariant
            from < i <= chars.len(),
            object_at(chars@, from as int) == extend(
                members_of(output@),
                object_members(chars@, i as int, state),
            ),
        decreases chars.len() - i,
    {
        let ch = chars[i];
        if ch == '}' && state != ItemState::Separated {
            proof {
                lemma_extend(members_of(output@), nothing, Ok((0, Seq::empty())), i as int);
            }
            return Ok((i, output));
        } else if state == ItemState::Completed {
            return Err(ParseJSONError::expected_closing_brace());
        } else if ch == ',' {
            return Err(ParseJSONError::unexpected_comma());
        } else if ch != '"' {
            return Err(ParseJSONError::expected_quote_for_key());
        }
        let (key_end, key) = match parse_json_string(chars, i) {
            Ok(found) => found,
            Err(error) => {
                return Err(error);
            },
        };
        proof {
            lemma_closing_quote(chars@, i + 1);
        }
        let colon = skip_whitespace(chars, key_end + 1);
        if !(colon < chars.len() && chars[colon] == ':') {
            return Err(ParseJSONError::expected_colon_after_key());
        }
        proof {
            lemma_object_members_next(chars@, i as int, state);
        }
        match parse_json_value(chars, colon + 1) {
            Ok((end, value)) => {
                proof {
                    let (next, expect) = after_item(chars@, end as int);
                    lemma_extend(
                        members_of(output@),
                        (key@, value@),
                        object_members(chars@, next, expect),
                        next,
                    );
                    lemma_members_of_push(output@, (key, value));
                }
                output.push((key, value));
                let (next, expect) = next_item(chars, end);
                i = next;
                state = expect;
            },
            Err(error) => {
                return Err(error);
            },
        }
    }
    if state == ItemState::Completed {
        Err(ParseJSONError::expected_closing_brace())
    } else {
        Err(ParseJSONError::expected_quote_for_key())
    }
}

/// Reads the value that starts at `from`, after whitespace.
///
/// The first character that is no whitespace decides which kind of value is
/// read; where it starts none, or the input has ended, no value is found.
/// `end` is the offset of the value's last character.
pub fn parse_json_value(chars: &Vec<char>, from: usize) -> (r: Result<
    (usize, JSONValue),
    ParseJSONError,
>)
    ensures
        match r {
            Ok((end, value)) => value_at(chars@, from as int) == Ok::<
                (int, JsonTree),
                ParseFailure,
            >((end as int, value@)) && value@.well_formed() && from <= end < chars.len()
                && !is_whitespace(chars@[end as int]),
            Err(error) => value_at(chars@, from as int) matches Err(failure) && error@
                == failure.message(),
        },
    decreases chars.len() - from, 1int,
{
    proof {
        lemma_value_at_well_formed(chars@, from as int);
        lemma_value_at(chars@, from as int);
        lemma_whitespace_end(chars@, from as int);
    }
    let i = skip_whitespace(chars, from);
    if i >= chars.len() {
        return Err(ParseJSONError::no_value_found());
    }
    let ch = chars[i];
    proof {
        reveal_strlit("null");
        reveal_strlit("true");
        reveal_strlit("false");
    }
    if ch == '"' {
        match parse_json_string(chars, i) {
            Ok((end, text)) => Ok((skip_whitespace(chars, end), JSONValue::String(text))),
            Err(error) => Err(error),
        }
    } else if ch == 'n' {
        match parse_json_literal(chars, i, "null") {
            Ok(end) => Ok((skip_whitespace(chars, end), JSONValue::Null)),
            Err(error) => Err(error),
        }
    } else if ch == 't' {
        match parse_json_literal(chars, i, "true") {
            Ok(end) => Ok((skip_whitespace(chars, end), JSONValue::True)),
            Err(error) => Err(error),
        }
    } else if ch == 'f' {
        match parse_json_literal(chars, i, "false") {
            Ok(end) => Ok((skip_whitespace(chars, end), JSONValue::False)),
            Err(error) => Err(error),
        }
    } else if char_is_digit(ch) || ch == '-' {
        match parse_json_number(chars, i) {
            Ok((end, literal)) => Ok((skip_whitespace(chars, end), JSONValue::Number(literal))),
            Err(error) => Err(error),
        }
    } else if ch == '[' {
        match parse_json_array(chars, i) {
            Ok((end, items)) => {
                proof {
                    lemma_array_view(items);
                }
                Ok((skip_whitespace(chars, end), JSONValue::Array(items)))
            },
            Err(error) => Err(error),
        }
    } else if ch == '{' {
        match parse_json_object(chars, i) {
            Ok((end, pairs)) => {
                proof {
                    lemma_object_view(pairs);
                }
                Ok((skip_whitespace(chars, end), JSONValue::Object(pairs)))
            },
            Err(error) => Err(error),
        }
    } else {
        Err(ParseJSONError::no_value_found())
    }
}

/// The characters of `string`, one scalar value per element.
fn chars_of(string: &str) -> (chars: Vec<char>)
    ensures
        chars@ == string@,
{
    let mut chars: Vec<char> = Vec::new();
    for c in it: string.chars()
        invariant
            chars@ == it.seq().take(it.index()),
            it.seq() == string@,
    {
        chars.push(c);
    }
    chars
}

/// Parses the first value in `string`. What follows that value is not looked
/// at.
pub fn parse_json(string: &str) -> (r: Result<JSONValue, ParseJSONError>)
    ensures
        match r {
            Ok(value) => document(string@) == Ok::<JsonTree, ParseFailure>(value@)
                && value@.well_formed(),
            Err(error) => document(string@) matches Err(failure) && error@ == failure.message(),
        },
{
    proof {
        lemma_document_well_formed(string@);
    }
    let chars = chars_of(string);
    match parse_json_value(&chars, 0) {
        Ok((end, value)) => Ok(value),
        Err(error) => Err(error),
    }
}

} // verus!
