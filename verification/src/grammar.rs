//! What a text denotes: the value that starts at an offset, and the elements
//! of an array and the members of an object from an offset on.
//!
//! A value is returned with the offset of its last character, an array or an
//! object with the offset of its closing bracket. An input that ends inside
//! an array or an object is a failure.
use crate::chars::{is_digit, is_whitespace};
use crate::error::ParseFailure;
use crate::scan::{
    holds, lemma_closing_quote, lemma_number_scan, lemma_number_scan_literal,
    lemma_whitespace_end, literal_scan, number_scan, string_scan, whitespace_end, window,
};
use crate::value::JsonTree;
use vstd::prelude::*;

verus! {

/// What may come next between the brackets of an array or an object.
#[derive(Clone, Copy, PartialEq, Eq, Structural, Debug)]
pub enum ItemState {
    /// Nothing was read yet: an item, or the closing bracket.
    Opened,
    /// A comma was read: an item.
    Separated,
    /// An item was read and no comma after it: the closing bracket.
    Completed,
}

/// The outcome of reading items: the offset where reading stopped, and the
/// items in the order in which they were read.
pub type Items<T> = Result<(int, Seq<T>), ParseFailure>;

/// `rest` with `first` put before its items.
pub open spec fn prepend<T>(first: T, rest: Items<T>) -> Items<T> {
    match rest {
        Ok((end, items)) => Ok((end, seq![first] + items)),
        Err(failure) => Err(failure),
    }
}

/// `rest` with `before` put before its items.
pub open spec fn extend<T>(before: Seq<T>, rest: Items<T>) -> Items<T> {
    match rest {
        Ok((end, items)) => Ok((end, before + items)),
        Err(failure) => Err(failure),
    }
}

/// How the items read so far and the outcome of reading on make up the
/// outcome of the whole: nothing read so far adds nothing, one item more read
/// so far is one item less to read, and with no items left or one item left
/// the whole ends where reading on ends.
pub proof fn lemma_extend<T>(before: Seq<T>, item: T, rest: Items<T>, end: int)
    ensures
        extend(Seq::empty(), rest) == rest,
        extend(before, prepend(item, rest)) == extend(before.push(item), rest),
        extend(before, Ok((end, Seq::empty()))) == Ok::<(int, Seq<T>), ParseFailure>(
            (end, before),
        ),
        extend(before, Ok((end, seq![item]))) == Ok::<(int, Seq<T>), ParseFailure>(
            (end, before.push(item)),
        ),
{
    if let Ok((stop, items)) = rest {
        assert(Seq::<T>::empty() + items =~= items);
        assert(before + (seq![item] + items) =~= before.push(item) + items);
    }
    assert(before + Seq::<T>::empty() =~= before);
    assert(before + seq![item] =~= before.push(item));
}

/// Where the next item starts after an item whose last character is at
/// `end`, and what may stand there: behind a comma another item, else the
/// closing bracket. Whitespace around the comma is passed over.
pub open spec fn after_item(s: Seq<char>, end: int) -> (int, ItemState) {
    let at = whitespace_end(s, end + 1);
    if holds(s, at, ',') {
        (whitespace_end(s, at + 1), ItemState::Separated)
    } else {
        (at, ItemState::Completed)
    }
}

/// The value that starts at `from`, after whitespace, with the offset where
/// it ends, after whitespace from its last character on. The first character
/// decides which kind of value is read.
pub open spec fn value_at(s: Seq<char>, from: int) -> Result<(int, JsonTree), ParseFailure>
    decreases s.len() - from, 0int,
    via value_at_decreases
{
    let at = whitespace_end(s, from);
    if !(0 <= at < s.len()) {
        Err(ParseFailure::NoValueFound)
    } else if s[at] == '"' {
        match string_scan(s, at) {
            Ok((end, text)) => Ok((whitespace_end(s, end), JsonTree::String(text))),
            Err(failure) => Err(failure),
        }
    } else if s[at] == 'n' {
        match literal_scan(s, at, "null"@) {
            Ok(end) => Ok((whitespace_end(s, end), JsonTree::Null)),
            Err(failure) => Err(failure),
        }
    } else if s[at] == 't' {
        match literal_scan(s, at, "true"@) {
            Ok(end) => Ok((whitespace_end(s, end), JsonTree::True)),
            Err(failure) => Err(failure),
        }
    } else if s[at] == 'f' {
        match literal_scan(s, at, "false"@) {
            Ok(end) => Ok((whitespace_end(s, end), JsonTree::False)),
            Err(failure) => Err(failure),
        }
    } else if is_digit(s[at]) || s[at] == '-' {
        match number_scan(s, at) {
            Ok((end, literal)) => Ok((whitespace_end(s, end), JsonTree::Number(literal))),
            Err(failure) => Err(failure),
        }
    } else if s[at] == '[' {
        match array_items(s, whitespace_end(s, at + 1), ItemState::Opened) {
            Ok((end, items)) => Ok((whitespace_end(s, end), JsonTree::Array(items))),
            Err(failure) => Err(failure),
        }
    } else if s[at] == '{' {
        match object_members(s, whitespace_end(s, at + 1), ItemState::Opened) {
            Ok((end, members)) => Ok((whitespace_end(s, end), JsonTree::Object(members))),
            Err(failure) => Err(failure),
        }
    } else {
        Err(ParseFailure::NoValueFound)
    }
}

#[via_fn]
proof fn value_at_decreases(s: Seq<char>, from: int) {
    lemma_whitespace_end(s, from);
    lemma_whitespace_end(s, whitespace_end(s, from) + 1);
}

/// The failure of an array in which the input ends: the closing bracket is
/// missing after an element, and no value is found where an element has to
/// start.
pub open spec fn array_cut_short(state: ItemState) -> ParseFailure {
    if state == ItemState::Completed {
        ParseFailure::ExpectedClosingBracket
    } else {
        ParseFailure::NoValueFound
    }
}

/// The failure of an object in which the input ends: the closing brace is
/// missing after a member, and no quote is found where a key has to start.
pub open spec fn object_cut_short(state: ItemState) -> ParseFailure {
    if state == ItemState::Completed {
        ParseFailure::ExpectedClosingBrace
    } else {
        ParseFailure::ExpectedQuoteForKey
    }
}

/// The elements of an array from `at` on, where `at` is the offset of an
/// element, of a comma or of the closing bracket, or the end of the input.
/// They are returned with the offset of the closing bracket.
///
/// The closing bracket ends the array unless a comma was just read. After an
/// element without a comma anything else is a failure, and a comma where an
/// element has to start is one too. So is the end of the input: only the
/// closing bracket ends an array.
///
/// After an element the elements from the next item on follow, as
/// `lemma_array_items_next` states without a condition. The condition here
/// shows that the elements come to an end; where it fails the input has
/// ended, since the next item starts behind the element that was read.
pub open spec fn array_items(s: Seq<char>, at: int, state: ItemState) -> Items<JsonTree>
    decreases s.len() - at, 1int,
{
    if !(0 <= at < s.len()) {
        Err(array_cut_short(state))
    } else if s[at] == ']' && state != ItemState::Separated {
        Ok((at, Seq::empty()))
    } else if state == ItemState::Completed {
        Err(ParseFailure::ExpectedClosingBracket)
    } else if s[at] == ',' {
        Err(ParseFailure::UnexpectedComma)
    } else {
        match value_at(s, at) {
            Ok((end, element)) => {
                let (next, expect) = after_item(s, end);
                if at < next < s.len() {
                    prepend(element, array_items(s, next, expect))
                } else {
                    Err(array_cut_short(expect))
                }
            },
            Err(failure) => Err(failure),
        }
    }
}

/// The members of an object from `at` on, where `at` is the offset of a key's
/// opening quote, of a comma or of the closing brace, or the end of the
/// input. They are returned with the offset of the closing brace.
///
/// A member is a key, a colon and a value, with whitespace between them as
/// it may be. The closing brace ends an object as the closing bracket ends an
/// array, and nothing else does. The condition after a member is that of
/// `array_items`; `lemma_object_members_next` states the same without it.
pub open spec fn object_members(s: Seq<char>, at: int, state: ItemState) -> Items<
    (Seq<char>, JsonTree),
>
    decreases s.len() - at, 1int,
    via object_members_decreases
{
    if !(0 <= at < s.len()) {
        Err(object_cut_short(state))
    } else if s[at] == '}' && state != ItemState::Separated {
        Ok((at, Seq::empty()))
    } else if state == ItemState::Completed {
        Err(ParseFailure::ExpectedClosingBrace)
    } else if s[at] == ',' {
        Err(ParseFailure::UnexpectedComma)
    } else if s[at] != '"' {
        Err(ParseFailure::ExpectedQuoteForKey)
    } else {
        match string_scan(s, at) {
            Ok((key_end, key)) => {
                let colon = whitespace_end(s, key_end + 1);
                if !holds(s, colon, ':') {
                    Err(ParseFailure::ExpectedColonAfterKey)
                } else {
                    match value_at(s, colon + 1) {
                        Ok((end, value)) => {
                            let (next, expect) = after_item(s, end);
                            if at < next < s.len() {
                                prepend((key, value), object_members(s, next, expect))
                            } else {
                                Err(object_cut_short(expect))
                            }
                        },
                        Err(failure) => Err(failure),
                    }
                }
            },
            Err(failure) => Err(failure),
        }
    }
}

#[via_fn]
proof fn object_members_decreases(s: Seq<char>, at: int, state: ItemState) {
    lemma_closing_quote(s, at + 1);
    if let Ok((key_end, key)) = string_scan(s, at) {
        lemma_whitespace_end(s, key_end + 1);
    }
}

/// The elements of the array whose opening bracket is at `from`, with the
/// offset of its closing bracket: the elements from the first offset behind
/// the opening bracket on that holds no whitespace.
pub open spec fn array_at(s: Seq<char>, from: int) -> Items<JsonTree> {
    array_items(s, whitespace_end(s, from + 1), ItemState::Opened)
}

/// The members of the object whose opening brace is at `from`, with the
/// offset of its closing brace: the members from the first offset behind the
/// opening brace on that holds no whitespace.
pub open spec fn object_at(s: Seq<char>, from: int) -> Items<(Seq<char>, JsonTree)> {
    object_members(s, whitespace_end(s, from + 1), ItemState::Opened)
}

/// The value that a text denotes: the first value in it. What follows that
/// value is not looked at.
pub open spec fn document(s: Seq<char>) -> Result<JsonTree, ParseFailure> {
    if whitespace_end(s, 0) >= s.len() {
        Err(ParseFailure::EmptyInput)
    } else {
        match value_at(s, 0) {
            Ok((end, value)) => Ok(value),
            Err(failure) => Err(failure),
        }
    }
}

/// A value ends inside the input, at or after its first character, and its
/// last character is no whitespace: the offset that is returned is the
/// offset of that character.
pub proof fn lemma_value_at(s: Seq<char>, from: int)
    requires
        0 <= from,
    ensures
        value_at(s, from) matches Ok((end, value)) ==> whitespace_end(s, from) <= end < s.len()
            && !is_whitespace(s[end]),
    decreases s.len() - from, 0int,
{
    let at = whitespace_end(s, from);
    lemma_whitespace_end(s, from);
    if 0 <= at < s.len() {
        if s[at] == '"' {
            lemma_closing_quote(s, at + 1);
        } else if s[at] == 'n' {
            reveal_strlit("null");
            lemma_keyword_end(s, at, "null"@);
        } else if s[at] == 't' {
            reveal_strlit("true");
            lemma_keyword_end(s, at, "true"@);
        } else if s[at] == 'f' {
            reveal_strlit("false");
            lemma_keyword_end(s, at, "false"@);
        } else if is_digit(s[at]) || s[at] == '-' {
            lemma_number_scan(s, at);
        } else if s[at] == '[' {
            lemma_whitespace_end(s, at + 1);
            lemma_array_items(s, whitespace_end(s, at + 1), ItemState::Opened);
        } else if s[at] == '{' {
            lemma_whitespace_end(s, at + 1);
            lemma_object_members(s, whitespace_end(s, at + 1), ItemState::Opened);
        }
    }
}

/// A keyword that was matched ends inside the input, with its own last
/// character.
proof fn lemma_keyword_end(s: Seq<char>, from: int, literal: Seq<char>)
    requires
        0 <= from,
        literal.len() > 0,
    ensures
        literal_scan(s, from, literal) matches Ok(end) ==> from <= end < s.len() && s[end]
            == literal.last(),
{
    if let Ok(end) = literal_scan(s, from, literal) {
        let found = window(s, from, literal.len() as int);
        assert(found.len() == literal.len());
        assert(found[literal.len() - 1] == s[from + literal.len() - 1]);
    }
}

/// The next item starts behind the item that was read, and not behind the
/// end of the input.
pub proof fn lemma_after_item(s: Seq<char>, end: int)
    requires
        0 <= end < s.len(),
    ensures
        end < after_item(s, end).0 <= s.len(),
{
    let at = whitespace_end(s, end + 1);
    lemma_whitespace_end(s, end + 1);
    lemma_whitespace_end(s, at + 1);
}

/// After an element the elements from the next item on follow.
pub proof fn lemma_array_items_next(s: Seq<char>, at: int, state: ItemState)
    requires
        0 <= at < s.len(),
        !(s[at] == ']' && state != ItemState::Separated),
        state != ItemState::Completed,
        s[at] != ',',
    ensures
        array_items(s, at, state) == match value_at(s, at) {
            Ok((end, element)) => prepend(
                element,
                array_items(s, after_item(s, end).0, after_item(s, end).1),
            ),
            Err(failure) => Err(failure),
        },
{
    if let Ok((end, element)) = value_at(s, at) {
        lemma_value_at(s, at);
        lemma_whitespace_end(s, at);
        lemma_after_item(s, end);
    }
}

/// After a member the members from the next item on follow.
pub proof fn lemma_object_members_next(s: Seq<char>, at: int, state: ItemState)
    requires
        0 <= at < s.len(),
        !(s[at] == '}' && state != ItemState::Separated),
        state != ItemState::Completed,
        string_scan(s, at) is Ok,
        holds(s, whitespace_end(s, string_scan(s, at)->Ok_0.0 + 1), ':'),
        s[at] == '"',
    ensures
        object_members(s, at, state) == ({
            let (key_end, key) = string_scan(s, at)->Ok_0;
            let colon = whitespace_end(s, key_end + 1);
            match value_at(s, colon + 1) {
                Ok((end, value)) => prepend(
                    (key, value),
                    object_members(s, after_item(s, end).0, after_item(s, end).1),
                ),
                Err(failure) => Err(failure),
            }
        }),
{
    lemma_closing_quote(s, at + 1);
    let (key_end, key) = string_scan(s, at)->Ok_0;
    let colon = whitespace_end(s, key_end + 1);
    lemma_whitespace_end(s, key_end + 1);
    if let Ok((end, value)) = value_at(s, colon + 1) {
        lemma_value_at(s, colon + 1);
        lemma_whitespace_end(s, colon + 1);
        lemma_after_item(s, end);
    }
}

/// Elements that were read end at a closing bracket, inside the input and at
/// or after the offset where they start.
pub proof fn lemma_array_items(s: Seq<char>, at: int, state: ItemState)
    requires
        0 <= at,
    ensures
        array_items(s, at, state) matches Ok((end, items)) ==> at <= end < s.len() && s[end]
            == ']',
    decreases s.len() - at, 1int,
{
    if at < s.len() {
        if let Ok((end, element)) = value_at(s, at) {
            let (next, expect) = after_item(s, end);
            if at < next < s.len() {
                lemma_array_items(s, next, expect);
            }
        }
    }
}

/// Members that were read end at a closing brace, inside the input and at or
/// after the offset where they start.
pub proof fn lemma_object_members(s: Seq<char>, at: int, state: ItemState)
    requires
        0 <= at,
    ensures
        object_members(s, at, state) matches Ok((end, members)) ==> at <= end < s.len() && s[end]
            == '}',
    decreases s.len() - at, 1int,
{
    if at < s.len() {
        if let Ok((key_end, key)) = string_scan(s, at) {
            let colon = whitespace_end(s, key_end + 1);
            if holds(s, colon, ':') {
                if let Ok((end, value)) = value_at(s, colon + 1) {
                    let (next, expect) = after_item(s, end);
                    if at < next < s.len() {
                        lemma_object_members(s, next, expect);
                    }
                }
            }
        }
    }
}

/// Every number in a value that was read is a number literal.
pub proof fn lemma_value_at_well_formed(s: Seq<char>, from: int)
    requires
        0 <= from,
    ensures
        value_at(s, from) matches Ok((end, value)) ==> value.well_formed(),
    decreases s.len() - from, 0int,
{
    let at = whitespace_end(s, from);
    lemma_whitespace_end(s, from);
    if 0 <= at < s.len() {
        lemma_whitespace_end(s, at + 1);
        if is_digit(s[at]) || s[at] == '-' {
            lemma_number_scan_literal(s, at);
        } else if s[at] == '[' {
            lemma_array_items_well_formed(s, whitespace_end(s, at + 1), ItemState::Opened);
        } else if s[at] == '{' {
            lemma_object_members_well_formed(s, whitespace_end(s, at + 1), ItemState::Opened);
        }
    }
}

/// Every number in the elements that were read is a number literal.
pub proof fn lemma_array_items_well_formed(s: Seq<char>, at: int, state: ItemState)
    requires
        0 <= at,
    ensures
        array_items(s, at, state) matches Ok((end, items)) ==> forall|i: int|
            0 <= i < items.len() ==> (#[trigger] items[i]).well_formed(),
    decreases s.len() - at, 1int,
{
    if at < s.len() {
        if let Ok((end, element)) = value_at(s, at) {
            lemma_value_at_well_formed(s, at);
            let (next, expect) = after_item(s, end);
            if at < next < s.len() {
                lemma_array_items_well_formed(s, next, expect);
                if let Ok((stop, rest)) = array_items(s, next, expect) {
                    let items = seq![element] + rest;
                    assert forall|i: int| 0 <= i < items.len() implies (
                    #[trigger] items[i]).well_formed() by {
                        if i > 0 {
                            assert(items[i] == rest[i - 1]);
                        }
                    }
                }
            }
        }
    }
}

/// Every number in the members that were read is a number literal.
pub proof fn lemma_object_members_well_formed(s: Seq<char>, at: int, state: ItemState)
    requires
        0 <= at,
    ensures
        object_members(s, at, state) matches Ok((end, members)) ==> forall|i: int|
            0 <= i < members.len() ==> (#[trigger] members[i]).1.well_formed(),
    decreases s.len() - at, 1int,
{
    if at < s.len() {
        lemma_closing_quote(s, at + 1);
        if let Ok((key_end, key)) = string_scan(s, at) {
            let colon = whitespace_end(s, key_end + 1);
            lemma_whitespace_end(s, key_end + 1);
            if holds(s, colon, ':') {
                if let Ok((end, value)) = value_at(s, colon + 1) {
                    lemma_value_at_well_formed(s, colon + 1);
                    let (next, expect) = after_item(s, end);
                    if at < next < s.len() {
                        lemma_object_members_well_formed(s, next, expect);
                        if let Ok((stop, rest)) = object_members(s, next, expect) {
                            let members = seq![(key, value)] + rest;
                            assert forall|i: int| 0 <= i < members.len() implies (
                            #[trigger] members[i]).1.well_formed() by {
                                if i > 0 {
                                    assert(members[i] == rest[i - 1]);
                                }
                            }
                        }
                    }
                }
            }
        }
    }
}

/// Every number in the value that a text denotes is a number literal.
pub proof fn lemma_document_well_formed(s: Seq<char>)
    ensures
        document(s) matches Ok(value) ==> value.well_formed(),
{
    lemma_value_at_well_formed(s, 0);
}

} // verus!
