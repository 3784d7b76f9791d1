//! Whitespace around a text does not change what the text denotes.
//!
//! The first half of this file moves a text to the right: with any
//! characters put before it, every scanner returns from the moved offset
//! what it returned before, moved by as much. The second half puts
//! whitespace behind a text: what was read with success is read again, and
//! ends where it ended.
use crate::chars::{all_whitespace, is_digit, is_whitespace};
use crate::error::ParseFailure;
use crate::grammar::{
    after_item, array_items, document, lemma_array_items, lemma_object_members,
    lemma_value_at, object_members, value_at, ItemState,
};
use crate::scan::{
    closing_quote, digits_end, holds, is_closing_quote, lemma_closing_quote, lemma_digits_end,
    lemma_number_scan, lemma_whitespace_end, literal_scan, number_parts, number_scan,
    string_scan, whitespace_end, window,
};
use vstd::prelude::*;

verus! {

/// `found` with its offset moved to the right by `by`.
pub open spec fn moved<T>(found: Result<(int, T), ParseFailure>, by: int) -> Result<
    (int, T),
    ParseFailure,
> {
    match found {
        Ok((end, what)) => Ok((end + by, what)),
        Err(failure) => Err(failure),
    }
}

proof fn lemma_whitespace_end_moved(before: Seq<char>, s: Seq<char>, from: int)
    requires
        0 <= from,
    ensures
        whitespace_end(before + s, before.len() + from) == before.len() + whitespace_end(s, from),
    decreases s.len() - from,
{
    if from < s.len() {
        assert((before + s)[before.len() + from] == s[from]);
        if is_whitespace(s[from]) {
            lemma_whitespace_end_moved(before, s, from + 1);
        }
    }
}

proof fn lemma_digits_end_moved(before: Seq<char>, s: Seq<char>, from: int)
    requires
        0 <= from,
    ensures
        digits_end(before + s, before.len() + from) == before.len() + digits_end(s, from),
    decreases s.len() - from,
{
    if from < s.len() {
        assert((before + s)[before.len() + from] == s[from]);
        if is_digit(s[from]) {
            lemma_digits_end_moved(before, s, from + 1);
        }
    }
}

proof fn lemma_closing_quote_moved(before: Seq<char>, s: Seq<char>, from: int)
    requires
        1 <= from,
    ensures
        closing_quote(before + s, before.len() + from) == match closing_quote(s, from) {
            Some(end) => Some(before.len() + end),
            None => None,
        },
    decreases s.len() - from,
{
    if from < s.len() {
        assert((before + s)[before.len() + from] == s[from]);
        assert((before + s)[before.len() + from - 1] == s[from - 1]);
        if !is_closing_quote(s, from) {
            lemma_closing_quote_moved(before, s, from + 1);
        }
    }
}

proof fn lemma_string_scan_moved(before: Seq<char>, s: Seq<char>, from: int)
    requires
        0 <= from,
    ensures
        string_scan(before + s, before.len() + from) == moved(
            string_scan(s, from),
            before.len() as int,
        ),
{
    lemma_closing_quote_moved(before, s, from + 1);
    lemma_closing_quote(s, from + 1);
    if let Some(end) = closing_quote(s, from + 1) {
        assert((before + s).subrange(before.len() + from + 1, before.len() + end) =~= s.subrange(
            from + 1,
            end,
        ));
    }
}

proof fn lemma_literal_scan_moved(before: Seq<char>, s: Seq<char>, from: int, literal: Seq<char>)
    requires
        0 <= from,
    ensures
        literal_scan(before + s, before.len() + from, literal) == match literal_scan(
            s,
            from,
            literal,
        ) {
            Ok(end) => Ok(end + before.len()),
            Err(failure) => Err(failure),
        },
{
    assert(window(before + s, before.len() + from, literal.len() as int) =~= window(
        s,
        from,
        literal.len() as int,
    ));
}

proof fn lemma_holds_moved(before: Seq<char>, s: Seq<char>, at: int, c: char)
    requires
        0 <= at,
    ensures
        holds(before + s, before.len() + at, c) == holds(s, at, c),
{
    if at < s.len() {
        assert((before + s)[before.len() + at] == s[at]);
    }
}

proof fn lemma_number_scan_moved(before: Seq<char>, s: Seq<char>, from: int)
    requires
        0 <= from <= s.len(),
    ensures
        number_scan(before + s, before.len() + from) == moved(
            number_scan(s, from),
            before.len() as int,
        ),
{
    let t = before + s;
    let d = before.len() as int;
    let parts = number_parts(s, from);
    lemma_holds_moved(before, s, from, '-');
    lemma_digits_end_moved(before, s, parts.integer_start);
    lemma_digits_end(s, parts.integer_start);
    lemma_holds_moved(before, s, parts.integer_end, '.');
    lemma_digits_end_moved(before, s, parts.integer_end + 1);
    lemma_digits_end(s, parts.integer_end + 1);
    lemma_holds_moved(before, s, parts.fraction_end, 'e');
    lemma_holds_moved(before, s, parts.fraction_end, 'E');
    lemma_holds_moved(before, s, parts.fraction_end + 1, '+');
    lemma_holds_moved(before, s, parts.fraction_end + 1, '-');
    lemma_digits_end_moved(before, s, parts.exponent_start);
    lemma_digits_end(s, parts.exponent_start);
    let moved_parts = number_parts(t, d + from);
    assert(moved_parts.integer_start == d + parts.integer_start);
    assert(moved_parts.integer_end == d + parts.integer_end);
    assert(moved_parts.has_fraction == parts.has_fraction);
    assert(moved_parts.fraction_end == d + parts.fraction_end);
    assert(moved_parts.has_exponent == parts.has_exponent);
    assert(moved_parts.exponent_start == d + parts.exponent_start);
    assert(moved_parts.end == d + parts.end);
    if parts.is_literal() {
        assert(t.subrange(d + from, d + parts.end) =~= s.subrange(from, parts.end));
    }
}

proof fn lemma_after_item_moved(before: Seq<char>, s: Seq<char>, end: int)
    requires
        0 <= end,
    ensures
        after_item(before + s, before.len() + end) == (
            before.len() + after_item(s, end).0,
            after_item(s, end).1,
        ),
{
    let at = whitespace_end(s, end + 1);
    lemma_whitespace_end(s, end + 1);
    lemma_whitespace_end_moved(before, s, end + 1);
    lemma_holds_moved(before, s, at, ',');
    lemma_whitespace_end_moved(before, s, at + 1);
}

/// With characters put before the input, the value that starts at the moved
/// offset is the same value, or the same failure.
pub proof fn lemma_value_at_moved(before: Seq<char>, s: Seq<char>, from: int)
    requires
        0 <= from,
    ensures
        value_at(before + s, before.len() + from) == moved(
            value_at(s, from),
            before.len() as int,
        ),
    decreases s.len() - from, 0int,
{
    let t = before + s;
    let d = before.len() as int;
    let at = whitespace_end(s, from);
    lemma_whitespace_end(s, from);
    lemma_whitespace_end_moved(before, s, from);
    if at < s.len() {
        assert(t[d + at] == s[at]);
        if s[at] == '"' {
            lemma_string_scan_moved(before, s, at);
            lemma_closing_quote(s, at + 1);
            if let Ok((end, text)) = string_scan(s, at) {
                lemma_whitespace_end_moved(before, s, end);
            }
        } else if s[at] == 'n' {
            lemma_literal_scan_moved(before, s, at, "null"@);
            if let Ok(end) = literal_scan(s, at, "null"@) {
                reveal_strlit("null");
                lemma_whitespace_end_moved(before, s, end);
            }
        } else if s[at] == 't' {
            lemma_literal_scan_moved(before, s, at, "true"@);
            if let Ok(end) = literal_scan(s, at, "true"@) {
                reveal_strlit("true");
                lemma_whitespace_end_moved(before, s, end);
            }
        } else if s[at] == 'f' {
            lemma_literal_scan_moved(before, s, at, "false"@);
            if let Ok(end) = literal_scan(s, at, "false"@) {
                reveal_strlit("false");
                lemma_whitespace_end_moved(before, s, end);
            }
        } else if is_digit(s[at]) || s[at] == '-' {
            lemma_number_scan_moved(before, s, at);
            lemma_number_scan(s, at);
            if let Ok((end, literal)) = number_scan(s, at) {
                lemma_whitespace_end_moved(before, s, end);
            }
        } else if s[at] == '[' {
            let first = whitespace_end(s, at + 1);
            lemma_whitespace_end(s, at + 1);
            lemma_whitespace_end_moved(before, s, at + 1);
            lemma_array_items_moved(before, s, first, ItemState::Opened);
            lemma_array_items(s, first, ItemState::Opened);
            if let Ok((end, items)) = array_items(s, first, ItemState::Opened) {
                lemma_whitespace_end_moved(before, s, end);
            }
        } else if s[at] == '{' {
            let first = whitespace_end(s, at + 1);
            lemma_whitespace_end(s, at + 1);
            lemma_whitespace_end_moved(before, s, at + 1);
            lemma_object_members_moved(before, s, first, ItemState::Opened);
            lemma_object_members(s, first, ItemState::Opened);
            if let Ok((end, members)) = object_members(s, first, ItemState::Opened) {
                lemma_whitespace_end_moved(before, s, end);
            }
        }
    }
}

/// With characters put before the input, the elements from the moved offset
/// on are the same elements.
pub proof fn lemma_array_items_moved(
    before: Seq<char>,
    s: Seq<char>,
    at: int,
    state: ItemState,
)
    requires
        0 <= at,
    ensures
        array_items(before + s, before.len() + at, state) == moved(
            array_items(s, at, state),
            before.len() as int,
        ),
    decreases s.len() - at, 1int,
{
    let t = before + s;
    let d = before.len() as int;
    if at < s.len() {
        assert(t[d + at] == s[at]);
        lemma_value_at_moved(before, s, at);
        if let Ok((end, element)) = value_at(s, at) {
            lemma_value_at(s, at);
            lemma_whitespace_end(s, at);
            lemma_after_item_moved(before, s, end);
            let (next, expect) = after_item(s, end);
            if at < next < s.len() {
                lemma_array_items_moved(before, s, next, expect);
            }
        }
    }
}

/// With characters put before the input, the members from the moved offset
/// on are the same members.
pub proof fn lemma_object_members_moved(
    before: Seq<char>,
    s: Seq<char>,
    at: int,
    state: ItemState,
)
    requires
        0 <= at,
    ensures
        object_members(before + s, before.len() + at, state) == moved(
            object_members(s, at, state),
            before.len() as int,
        ),
    decreases s.len() - at, 1int,
{
    let t = before + s;
    let d = before.len() as int;
    if at < s.len() {
        assert(t[d + at] == s[at]);
        lemma_string_scan_moved(before, s, at);
        lemma_closing_quote(s, at + 1);
        if let Ok((key_end, key)) = string_scan(s, at) {
            let colon = whitespace_end(s, key_end + 1);
            lemma_whitespace_end(s, key_end + 1);
            lemma_whitespace_end_moved(before, s, key_end + 1);
            lemma_holds_moved(before, s, colon, ':');
            if holds(s, colon, ':') {
                lemma_value_at_moved(before, s, colon + 1);
                if let Ok((end, value)) = value_at(s, colon + 1) {
                    lemma_value_at(s, colon + 1);
                    lemma_whitespace_end(s, colon + 1);
                    lemma_after_item_moved(before, s, end);
                    let (next, expect) = after_item(s, end);
                    if at < next < s.len() {
                        lemma_object_members_moved(before, s, next, expect);
                    }
                }
            }
        }
    }
}

/// Whitespace is passed over from wherever in it the scan starts.
proof fn lemma_whitespace_end_within(s: Seq<char>, from: int, to: int)
    requires
        0 <= from <= to <= s.len(),
        forall|k: int| from <= k < to ==> is_whitespace(s[k]),
    ensures
        whitespace_end(s, from) == whitespace_end(s, to),
    decreases to - from,
{
    if from < to {
        lemma_whitespace_end_within(s, from + 1, to);
    }
}

/// Whitespace before a text changes neither the value that the text denotes
/// nor the failure that it ends in.
pub proof fn lemma_leading_whitespace(before: Seq<char>, text: Seq<char>)
    requires
        all_whitespace(before),
    ensures
        document(before + text) == document(text),
{
    let t = before + text;
    let d = before.len() as int;
    assert forall|k: int| 0 <= k < d implies is_whitespace(t[k]) by {
        assert(t[k] == before[k]);
    }
    lemma_whitespace_end_within(t, 0, d);
    lemma_whitespace_end_moved(before, text, 0);
    lemma_value_at_moved(before, text, 0);
    assert(value_at(t, 0) == value_at(t, d));
}

/// Characters added at the end are not reached by a scan for whitespace
/// that stops inside the input.
proof fn lemma_whitespace_end_added(s: Seq<char>, after: Seq<char>, from: int)
    requires
        0 <= from,
        whitespace_end(s, from) < s.len(),
    ensures
        whitespace_end(s + after, from) == whitespace_end(s, from),
    decreases s.len() - from,
{
    lemma_whitespace_end(s, from);
    assert((s + after)[from] == s[from]);
    if is_whitespace(s[from]) {
        lemma_whitespace_end_added(s, after, from + 1);
    }
}

/// No character that a number is made of is whitespace.
proof fn lemma_holds_added(s: Seq<char>, after: Seq<char>, at: int, c: char)
    requires
        all_whitespace(after),
        0 <= at,
        !is_whitespace(c),
    ensures
        holds(s + after, at, c) == holds(s, at, c),
{
    let t = s + after;
    if at < s.len() {
        assert(t[at] == s[at]);
    } else if at < t.len() {
        assert(t[at] == after[at - s.len()]);
    }
}

proof fn lemma_digits_end_added(s: Seq<char>, after: Seq<char>, from: int)
    requires
        all_whitespace(after),
        0 <= from <= s.len(),
    ensures
        digits_end(s + after, from) == digits_end(s, from),
    decreases s.len() - from,
{
    let t = s + after;
    if from < s.len() {
        assert(t[from] == s[from]);
        if is_digit(s[from]) {
            lemma_digits_end_added(s, after, from + 1);
        }
    } else if from < t.len() {
        assert(t[from] == after[from - s.len()]);
    }
}

proof fn lemma_number_scan_added(s: Seq<char>, after: Seq<char>, from: int)
    requires
        all_whitespace(after),
        0 <= from <= s.len(),
    ensures
        number_scan(s + after, from) == number_scan(s, from),
{
    let t = s + after;
    let parts = number_parts(s, from);
    lemma_holds_added(s, after, from, '-');
    lemma_digits_end(s, parts.integer_start);
    lemma_digits_end_added(s, after, parts.integer_start);
    lemma_holds_added(s, after, parts.integer_end, '.');
    if parts.has_fraction {
        lemma_digits_end(s, parts.integer_end + 1);
        lemma_digits_end_added(s, after, parts.integer_end + 1);
    }
    lemma_holds_added(s, after, parts.fraction_end, 'e');
    lemma_holds_added(s, after, parts.fraction_end, 'E');
    lemma_holds_added(s, after, parts.fraction_end + 1, '+');
    lemma_holds_added(s, after, parts.fraction_end + 1, '-');
    if parts.has_exponent {
        lemma_digits_end(s, parts.exponent_start);
        lemma_digits_end_added(s, after, parts.exponent_start);
    }
    let added_parts = number_parts(t, from);
    assert(added_parts.integer_start == parts.integer_start);
    assert(added_parts.integer_end == parts.integer_end);
    assert(added_parts.has_fraction == parts.has_fraction);
    assert(added_parts.fraction_end == parts.fraction_end);
    assert(added_parts.has_exponent == parts.has_exponent);
    assert(added_parts.end == parts.end);
    if parts.is_literal() {
        assert(t.subrange(from, parts.end) =~= s.subrange(from, parts.end));
    }
}

proof fn lemma_closing_quote_added(s: Seq<char>, after: Seq<char>, from: int)
    requires
        1 <= from,
        closing_quote(s, from) is Some,
    ensures
        closing_quote(s + after, from) == closing_quote(s, from),
    decreases s.len() - from,
{
    let t = s + after;
    assert(t[from] == s[from]);
    assert(t[from - 1] == s[from - 1]);
    if !is_closing_quote(s, from) {
        lemma_closing_quote_added(s, after, from + 1);
    }
}

proof fn lemma_string_scan_added(s: Seq<char>, after: Seq<char>, from: int)
    requires
        0 <= from,
        string_scan(s, from) is Ok,
    ensures
        string_scan(s + after, from) == string_scan(s, from),
{
    lemma_closing_quote_added(s, after, from + 1);
    lemma_closing_quote(s, from + 1);
    let end = closing_quote(s, from + 1)->Some_0;
    assert((s + after).subrange(from + 1, end) =~= s.subrange(from + 1, end));
}

proof fn lemma_literal_scan_added(s: Seq<char>, after: Seq<char>, from: int, literal: Seq<char>)
    requires
        0 <= from,
        literal.len() > 0,
        literal_scan(s, from, literal) is Ok,
    ensures
        literal_scan(s + after, from, literal) == literal_scan(s, from, literal),
{
    assert(window(s + after, from, literal.len() as int) =~= window(
        s,
        from,
        literal.len() as int,
    ));
}

proof fn lemma_after_item_added(s: Seq<char>, after: Seq<char>, end: int)
    requires
        0 <= end,
        after_item(s, end).0 < s.len(),
    ensures
        after_item(s + after, end) == after_item(s, end),
{
    let at = whitespace_end(s, end + 1);
    lemma_whitespace_end(s, end + 1);
    lemma_whitespace_end(s, at + 1);
    lemma_whitespace_end_added(s, after, end + 1);
    assert((s + after)[at] == s[at]);
    if holds(s, at, ',') {
        lemma_whitespace_end_added(s, after, at + 1);
    }
}

/// With whitespace added at the end of the input, a value that was read is
/// read again, and ends where it ended.
pub proof fn lemma_value_at_added(s: Seq<char>, after: Seq<char>, from: int)
    requires
        all_whitespace(after),
        0 <= from,
        value_at(s, from) is Ok,
    ensures
        value_at(s + after, from) == value_at(s, from),
    decreases s.len() - from, 0int,
{
    let t = s + after;
    let at = whitespace_end(s, from);
    lemma_whitespace_end(s, from);
    lemma_whitespace_end_added(s, after, from);
    lemma_value_at(s, from);
    let end = value_at(s, from)->Ok_0.0;
    assert(t[at] == s[at]);
    if s[at] == '"' {
        lemma_string_scan_added(s, after, at);
        lemma_closing_quote(s, at + 1);
        lemma_whitespace_end_added(s, after, string_scan(s, at)->Ok_0.0);
    } else if s[at] == 'n' {
        reveal_strlit("null");
        lemma_literal_scan_added(s, after, at, "null"@);
        lemma_whitespace_end_added(s, after, literal_scan(s, at, "null"@)->Ok_0);
    } else if s[at] == 't' {
        reveal_strlit("true");
        lemma_literal_scan_added(s, after, at, "true"@);
        lemma_whitespace_end_added(s, after, literal_scan(s, at, "true"@)->Ok_0);
    } else if s[at] == 'f' {
        reveal_strlit("false");
        lemma_literal_scan_added(s, after, at, "false"@);
        lemma_whitespace_end_added(s, after, literal_scan(s, at, "false"@)->Ok_0);
    } else if is_digit(s[at]) || s[at] == '-' {
        lemma_number_scan_added(s, after, at);
        lemma_number_scan(s, at);
        lemma_whitespace_end_added(s, after, number_scan(s, at)->Ok_0.0);
    } else if s[at] == '[' {
        let first = whitespace_end(s, at + 1);
        lemma_whitespace_end(s, at + 1);
        lemma_array_items(s, first, ItemState::Opened);
        lemma_whitespace_end_added(s, after, at + 1);
        lemma_array_items_added(s, after, first, ItemState::Opened);
        lemma_whitespace_end_added(s, after, array_items(s, first, ItemState::Opened)->Ok_0.0);
    } else if s[at] == '{' {
        let first = whitespace_end(s, at + 1);
        lemma_whitespace_end(s, at + 1);
        lemma_object_members(s, first, ItemState::Opened);
        lemma_whitespace_end_added(s, after, at + 1);
        lemma_object_members_added(s, after, first, ItemState::Opened);
        lemma_whitespace_end_added(
            s,
            after,
            object_members(s, first, ItemState::Opened)->Ok_0.0,
        );
    }
}

/// With whitespace added at the end of the input, the elements that were
/// read are read again, and end where they ended.
pub proof fn lemma_array_items_added(s: Seq<char>, after: Seq<char>, at: int, state: ItemState)
    requires
        all_whitespace(after),
        0 <= at,
        array_items(s, at, state) is Ok,
    ensures
        array_items(s + after, at, state) == array_items(s, at, state),
    decreases s.len() - at, 1int,
{
    let t = s + after;
    assert(t[at] == s[at]);
    if !(s[at] == ']' && state != ItemState::Separated) {
        lemma_value_at_added(s, after, at);
        let end = value_at(s, at)->Ok_0.0;
        let (next, expect) = after_item(s, end);
        lemma_value_at(s, at);
        lemma_after_item_added(s, after, end);
        lemma_array_items_added(s, after, next, expect);
    }
}

/// With whitespace added at the end of the input, the members that were read
/// are read again, and end where they ended.
pub proof fn lemma_object_members_added(
    s: Seq<char>,
    after: Seq<char>,
    at: int,
    state: ItemState,
)
    requires
        all_whitespace(after),
        0 <= at,
        object_members(s, at, state) is Ok,
    ensures
        object_members(s + after, at, state) == object_members(s, at, state),
    decreases s.len() - at, 1int,
{
    let t = s + after;
    assert(t[at] == s[at]);
    if !(s[at] == '}' && state != ItemState::Separated) {
        lemma_string_scan_added(s, after, at);
        lemma_closing_quote(s, at + 1);
        let key_end = string_scan(s, at)->Ok_0.0;
        let colon = whitespace_end(s, key_end + 1);
        lemma_whitespace_end(s, key_end + 1);
        lemma_whitespace_end_added(s, after, key_end + 1);
        assert(t[colon] == s[colon]);
        lemma_value_at_added(s, after, colon + 1);
        let end = value_at(s, colon + 1)->Ok_0.0;
        let (next, expect) = after_item(s, end);
        lemma_value_at(s, colon + 1);
        lemma_after_item_added(s, after, end);
        lemma_object_members_added(s, after, next, expect);
    }
}

/// Whitespace behind a text that denotes a value does not change the value.
pub proof fn lemma_trailing_whitespace(text: Seq<char>, after: Seq<char>)
    requires
        all_whitespace(after),
        document(text) is Ok,
    ensures
        document(text + after) == document(text),
{
    lemma_whitespace_end_added(text, after, 0);
    lemma_value_at_added(text, after, 0);
}

/// Whitespace around a text that denotes a value does not change the value:
/// a text and the same text with whitespace before and behind it denote
/// equal trees.
pub proof fn lemma_whitespace_padding(before: Seq<char>, text: Seq<char>, after: Seq<char>)
    requires
        all_whitespace(before),
        all_whitespace(after),
        document(text) is Ok,
    ensures
        document(before + text + after) == document(text),
{
    lemma_trailing_whitespace(text, after);
    lemma_leading_whitespace(before, text + after);
    assert(before + text + after =~= before + (text + after));
}

} // verus!
