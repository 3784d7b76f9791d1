//! The scanners for whitespace, keywords, strings and numbers.
//!
//! Each scanner is given the input and the offset where its token starts.
//! What it returns is stated by a spec function over `Seq<char>`; the lemma
//! that follows the spec function says the same without recursion.
use crate::chars::{char_is_digit, char_is_whitespace, is_digit, is_whitespace};
use crate::error::{ParseFailure, ParseJSONError};
use vstd::prelude::*;
use vstd::string::*;

verus! {

/// Taken on trust from the documentation of `String::push` in std: the call
/// appends the character to the end of the string, and the characters that
/// the string held stay as they were.
pub assume_specification[ std::string::String::push ](
    text: &mut std::string::String,
    ch: char,
)
    ensures
        final(text)@ == old(text)@.push(ch),
;

/// The characters `chars[from..to]` as a string.
fn text_between(chars: &Vec<char>, from: usize, to: usize) -> (text: String)
    requires
        from <= to <= chars.len(),
    ensures
        text@ == chars@.subrange(from as int, to as int),
{
    let mut text = String::new();
    let mut i: usize = from;
    while i < to
        invariant
            from <= i <= to <= chars.len(),
            text@ == chars@.subrange(from as int, i as int),
        decreases to - i,
    {
        text.push(chars[i]);
        i += 1;
    }
    text
}

/// Whether the input holds the character `c` at offset `at`.
pub open spec fn holds(s: Seq<char>, at: int, c: char) -> bool {
    0 <= at < s.len() && s[at] == c
}

/// The first offset from `from` on that holds no whitespace: the offset of a
/// character that is not whitespace, or the end of the input. An offset
/// beyond the input is returned as it is.
pub open spec fn whitespace_end(s: Seq<char>, from: int) -> int
    decreases s.len() - from,
{
    if 0 <= from < s.len() && is_whitespace(s[from]) {
        whitespace_end(s, from + 1)
    } else {
        from
    }
}

/// Between `from` and `whitespace_end` there is only whitespace, and none at
/// `whitespace_end` itself.
pub proof fn lemma_whitespace_end(s: Seq<char>, from: int)
    ensures
        from <= whitespace_end(s, from),
        from <= s.len() ==> whitespace_end(s, from) <= s.len(),
        forall|k: int|
            from <= k < whitespace_end(s, from) ==> 0 <= k < s.len() && is_whitespace(s[k]),
        0 <= whitespace_end(s, from) < s.len() ==> !is_whitespace(s[whitespace_end(s, from)]),
    decreases s.len() - from,
{
    if 0 <= from < s.len() && is_whitespace(s[from]) {
        lemma_whitespace_end(s, from + 1);
    }
}

/// Advances past the whitespace that starts at `from`.
pub fn skip_whitespace(chars: &Vec<char>, from: usize) -> (end: usize)
    ensures
        end == whitespace_end(chars@, from as int),
        from <= end,
        from <= chars.len() ==> end <= chars.len(),
        forall|k: int| from <= k < end ==> 0 <= k < chars.len() && is_whitespace(chars@[k]),
        end < chars.len() ==> !is_whitespace(chars@[end as int]),
{
    proof {
        lemma_whitespace_end(chars@, from as int);
    }
    let mut i: usize = from;
    while i < chars.len() && char_is_whitespace(chars[i])
        invariant
            from <= i,
            whitespace_end(chars@, i as int) == whitespace_end(chars@, from as int),
        decreases chars.len() - i,
    {
        i += 1;
    }
    i
}

/// The characters that stand where a keyword of `n` characters is expected
/// at `from`: `n` of them, or as many as the input still holds.
pub open spec fn window(s: Seq<char>, from: int, n: int) -> Seq<char> {
    let start = if from < s.len() {
        from
    } else {
        s.len() as int
    };
    let stop = if from + n <= s.len() {
        from + n
    } else {
        s.len() as int
    };
    s.subrange(start, stop)
}

/// Matching the keyword `literal` at `from`: the offset of the keyword's last
/// character where the input continues with the whole keyword, else a
/// mismatch that names the keyword and what was found in its place. An input
/// that ends inside the keyword is a mismatch.
pub open spec fn literal_scan(s: Seq<char>, from: int, literal: Seq<char>) -> Result<
    int,
    ParseFailure,
> {
    let found = window(s, from, literal.len() as int);
    if found == literal {
        Ok(from + literal.len() - 1)
    } else {
        Err(ParseFailure::LiteralMismatch { expected: literal, found })
    }
}

/// A keyword matches exactly where the input holds all of its characters.
pub proof fn lemma_literal_scan(s: Seq<char>, from: int, literal: Seq<char>)
    requires
        0 <= from,
        literal.len() > 0,
    ensures
        literal_scan(s, from, literal) is Ok <==> from + literal.len() <= s.len() && s.subrange(
            from,
            from + literal.len(),
        ) == literal,
{
}

/// Confirms that the input continues at `from` with the keyword `literal`.
pub fn parse_json_literal(chars: &Vec<char>, from: usize, literal: &str) -> (r: Result<
    usize,
    ParseJSONError,
>)
    requires
        literal@.len() > 0,
    ensures
        match r {
            Ok(end) => literal_scan(chars@, from as int, literal@) == Ok::<int, ParseFailure>(
                end as int,
            ),
            Err(error) => literal_scan(chars@, from as int, literal@) matches Err(failure)
                && error@ == failure.message(),
        },
{
    let n = literal.unicode_len();
    let len = chars.len();
    let start = if from < len {
        from
    } else {
        len
    };
    let stop = if n <= len - start {
        start + n
    } else {
        len
    };
    let found = text_between(chars, start, stop);
    let expected = String::from_str(literal);
    if found == expected {
        Ok(from + n - 1)
    } else {
        Err(ParseJSONError::literal_mismatch(literal, &found))
    }
}

/// Whether the character at `at` ends a string: a quote that no backslash
/// stands directly before. Only the one character before the quote counts.
pub open spec fn is_closing_quote(s: Seq<char>, at: int) -> bool {
    1 <= at < s.len() && s[at] == '"' && s[at - 1] != '\\'
}

/// The first closing quote at or after `from`, if there is one.
pub open spec fn closing_quote(s: Seq<char>, from: int) -> Option<int>
    decreases s.len() - from,
{
    if from >= s.len() {
        None
    } else if is_closing_quote(s, from) {
        Some(from)
    } else {
        closing_quote(s, from + 1)
    }
}

/// `closing_quote` finds the first closing quote, and finds none only where
/// there is none.
pub proof fn lemma_closing_quote(s: Seq<char>, from: int)
    ensures
        match closing_quote(s, from) {
            Some(end) => from <= end < s.len() && is_closing_quote(s, end) && forall|k: int|
                from <= k < end ==> !is_closing_quote(s, k),
            None => forall|k: int| from <= k ==> !is_closing_quote(s, k),
        },
    decreases s.len() - from,
{
    if from < s.len() && !is_closing_quote(s, from) {
        lemma_closing_quote(s, from + 1);
    }
}

/// Scanning the string whose opening quote is at `from`: the offset of its
/// closing quote and the text between the two quotes, exactly as written.
pub open spec fn string_scan(s: Seq<char>, from: int) -> Result<(int, Seq<char>), ParseFailure> {
    match closing_quote(s, from + 1) {
        Some(end) => Ok((end, s.subrange(from + 1, end))),
        None => Err(ParseFailure::MissingEndQuote),
    }
}

/// Finds the end of the string whose opening quote is at `from`.
pub fn parse_json_string(chars: &Vec<char>, from: usize) -> (r: Result<
    (usize, String),
    ParseJSONError,
>)
    ensures
        match r {
            Ok((end, text)) => string_scan(chars@, from as int) == Ok::<
                (int, Seq<char>),
                ParseFailure,
            >((end as int, text@)),
            Err(error) => string_scan(chars@, from as int) matches Err(failure) && error@
                == failure.message(),
        },
{
    if from >= chars.len() {
        return Err(ParseJSONError::missing_end_quote());
    }
    let mut i: usize = from + 1;
    while i < chars.len()
        invariant
            from < i <= chars.len(),
            closing_quote(chars@, i as int) == closing_quote(chars@, from + 1),
        decreases chars.len() - i,
    {
        if chars[i] == '"' && chars[i - 1] != '\\' {
            let text = text_between(chars, from + 1, i);
            return Ok((i, text));
        }
        i += 1;
    }
    Err(ParseJSONError::missing_end_quote())
}

/// The first offset from `from` on that holds no decimal digit.
pub open spec fn digits_end(s: Seq<char>, from: int) -> int
    decreases s.len() - from,
{
    if 0 <= from < s.len() && is_digit(s[from]) {
        digits_end(s, from + 1)
    } else {
        from
    }
}

/// Between `from` and `digits_end` there are only digits, and none at
/// `digits_end` itself.
pub proof fn lemma_digits_end(s: Seq<char>, from: int)
    ensures
        from <= digits_end(s, from),
        from <= s.len() ==> digits_end(s, from) <= s.len(),
        forall|k: int| from <= k < digits_end(s, from) ==> 0 <= k < s.len() && is_digit(s[k]),
        0 <= digits_end(s, from) < s.len() ==> !is_digit(s[digits_end(s, from)]),
    decreases s.len() - from,
{
    if 0 <= from < s.len() && is_digit(s[from]) {
        lemma_digits_end(s, from + 1);
    }
}

fn skip_digits(chars: &Vec<char>, from: usize) -> (end: usize)
    requires
        from <= chars.len(),
    ensures
        end == digits_end(chars@, from as int),
        from <= end <= chars.len(),
{
    proof {
        lemma_digits_end(chars@, from as int);
    }
    let mut i: usize = from;
    while i < chars.len() && char_is_digit(chars[i])
        invariant
            from <= i <= chars.len(),
            digits_end(chars@, i as int) == digits_end(chars@, from as int),
        decreases chars.len() - i,
    {
        i += 1;
    }
    i
}

/// The parts of the number that starts at `from`, in the order in which they
/// are consumed: an optional `-`; digits; optionally `.` and digits;
/// optionally `e` or `E`, an optional sign, and digits. Each part ends at the
/// first character that does not belong to it, and what follows the last part
/// is not consumed. The digits of a part may be none: `is_literal` says which
/// parts need one.
pub struct NumberParts {
    /// The offset after the optional `-`.
    pub integer_start: int,
    /// The offset after the digits before the point.
    pub integer_end: int,
    /// Whether a `.` follows those digits.
    pub has_fraction: bool,
    /// The offset after the digits behind the point.
    pub fraction_end: int,
    /// Whether `e` or `E` follows the mantissa.
    pub has_exponent: bool,
    /// The offset after the exponent's marker and optional sign.
    pub exponent_start: int,
    /// The offset after the last consumed character.
    pub end: int,
}

pub open spec fn number_parts(s: Seq<char>, from: int) -> NumberParts {
    let integer_start = if holds(s, from, '-') {
        from + 1
    } else {
        from
    };
    let integer_end = digits_end(s, integer_start);
    let has_fraction = holds(s, integer_end, '.');
    let fraction_end = if has_fraction {
        digits_end(s, integer_end + 1)
    } else {
        integer_end
    };
    let has_exponent = holds(s, fraction_end, 'e') || holds(s, fraction_end, 'E');
    let exponent_start = if holds(s, fraction_end + 1, '+') || holds(s, fraction_end + 1, '-') {
        fraction_end + 2
    } else {
        fraction_end + 1
    };
    let end = if has_exponent {
        digits_end(s, exponent_start)
    } else {
        fraction_end
    };
    NumberParts {
        integer_start,
        integer_end,
        has_fraction,
        fraction_end,
        has_exponent,
        exponent_start,
        end,
    }
}

impl NumberParts {
    /// Whether the consumed characters are a number: the mantissa has a
    /// digit, a point that was consumed has a digit behind it, and an
    /// exponent that was begun has a digit. So `1.5`, `.5` and `1e-2` are
    /// numbers, and `-`, `.`, `1.`, `1.e2` and `1e+` are not.
    pub open spec fn is_literal(self) -> bool {
        &&& self.integer_end > self.integer_start || self.has_fraction
        &&& self.has_fraction ==> self.fraction_end > self.integer_end + 1
        &&& self.has_exponent ==> self.end > self.exponent_start
    }
}

/// Scanning the number that starts at `from`: the offset of the last consumed
/// character and the consumed characters, where these are a number.
pub open spec fn number_scan(s: Seq<char>, from: int) -> Result<(int, Seq<char>), ParseFailure> {
    let parts = number_parts(s, from);
    if parts.is_literal() {
        Ok((parts.end - 1, s.subrange(from, parts.end)))
    } else {
        Err(ParseFailure::InvalidNumber)
    }
}

/// A number ends inside the input, at or after the offset where it starts,
/// and its last character is a digit.
pub proof fn lemma_number_scan(s: Seq<char>, from: int)
    requires
        0 <= from <= s.len(),
    ensures
        number_scan(s, from) matches Ok((end, literal)) ==> from <= end < s.len() && is_digit(
            s[end],
        ) && literal.len() == end + 1 - from,
{
    let parts = number_parts(s, from);
    lemma_digits_end(s, parts.integer_start);
    lemma_digits_end(s, parts.integer_end + 1);
    lemma_digits_end(s, parts.exponent_start);
}

/// Whether `text` is, from its first character to its last, a number as the
/// scanner accepts it: an optional `-`; digits, or digits that may be none, a
/// point and at least one digit; and optionally an exponent of `e` or `E`, an
/// optional sign and at least one digit.
pub open spec fn is_number_literal(text: Seq<char>) -> bool {
    number_parts(text, 0).is_literal() && number_parts(text, 0).end == text.len()
}

proof fn lemma_digits_end_cut(s: Seq<char>, start: int, stop: int, from: int)
    requires
        0 <= start <= from <= stop <= s.len(),
        digits_end(s, from) <= stop,
    ensures
        digits_end(s.subrange(start, stop), from - start) == digits_end(s, from) - start,
    decreases stop - from,
{
    lemma_digits_end(s, from);
    if from < stop {
        assert(s.subrange(start, stop)[from - start] == s[from]);
        if is_digit(s[from]) {
            lemma_digits_end_cut(s, start, stop, from + 1);
        }
    }
}

proof fn lemma_holds_cut(s: Seq<char>, start: int, stop: int, at: int, c: char)
    requires
        0 <= start <= at,
        start <= stop <= s.len(),
        at >= stop ==> !holds(s, at, c),
    ensures
        holds(s.subrange(start, stop), at - start, c) == holds(s, at, c),
{
    if at < stop {
        assert(s.subrange(start, stop)[at - start] == s[at]);
    }
}

/// The literal of a scanned number is a number from its first character to
/// its last.
pub proof fn lemma_number_scan_literal(s: Seq<char>, from: int)
    requires
        0 <= from <= s.len(),
    ensures
        number_scan(s, from) matches Ok((end, literal)) ==> is_number_literal(literal),
{
    let parts = number_parts(s, from);
    if parts.is_literal() {
        let stop = parts.end;
        let literal = s.subrange(from, stop);
        lemma_digits_end(s, parts.integer_start);
        lemma_digits_end(s, parts.integer_end + 1);
        lemma_digits_end(s, parts.exponent_start);
        lemma_holds_cut(s, from, stop, from, '-');
        lemma_digits_end_cut(s, from, stop, parts.integer_start);
        lemma_holds_cut(s, from, stop, parts.integer_end, '.');
        if parts.has_fraction {
            lemma_digits_end_cut(s, from, stop, parts.integer_end + 1);
        }
        lemma_holds_cut(s, from, stop, parts.fraction_end, 'e');
        lemma_holds_cut(s, from, stop, parts.fraction_end, 'E');
        if parts.has_exponent {
            lemma_holds_cut(s, from, stop, parts.fraction_end + 1, '+');
            lemma_holds_cut(s, from, stop, parts.fraction_end + 1, '-');
            lemma_digits_end_cut(s, from, stop, parts.exponent_start);
        }
        let cut = number_parts(literal, 0);
        assert(cut.integer_start == parts.integer_start - from);
        assert(cut.integer_end == parts.integer_end - from);
        assert(cut.has_fraction == parts.has_fraction);
        assert(cut.fraction_end == parts.fraction_end - from);
        assert(cut.has_exponent == parts.has_exponent);
        assert(cut.has_exponent ==> cut.exponent_start == parts.exponent_start - from);
        assert(cut.end == parts.end - from);
    }
}

/// Consumes the number that starts at `from` and returns its literal.
pub fn parse_json_number(chars: &Vec<char>, from: usize) -> (r: Result<
    (usize, String),
    ParseJSONError,
>)
    requires
        from <= chars.len(),
    ensures
        match r {
            Ok((end, literal)) => number_scan(chars@, from as int) == Ok::<
                (int, Seq<char>),
                ParseFailure,
            >((end as int, literal@)) && is_number_literal(literal@),
            Err(error) => number_scan(chars@, from as int) matches Err(failure) && error@
                == failure.message(),
        },
{
    proof {
        lemma_number_scan_literal(chars@, from as int);
    }
    let len = chars.len();
    let integer_start = if from < len && chars[from] == '-' {
        from + 1
    } else {
        from
    };
    let integer_end = skip_digits(chars, integer_start);
    let has_fraction = integer_end < len && chars[integer_end] == '.';
    let fraction_end = if has_fraction {
        skip_digits(chars, integer_end + 1)
    } else {
        integer_end
    };
    let has_mantissa = if has_fraction {
        fraction_end > integer_end + 1
    } else {
        integer_end > integer_start
    };
    let has_exponent = fraction_end < len && (chars[fraction_end] == 'e' || chars[fraction_end]
        == 'E');
    let mut end = fraction_end;
    let mut has_exponent_digits = true;
    if has_exponent {
        let after_marker = fraction_end + 1;
        let exponent_start = if after_marker < len && (chars[after_marker] == '+'
            || chars[after_marker] == '-') {
            after_marker + 1
        } else {
            after_marker
        };
        end = skip_digits(chars, exponent_start);
        has_exponent_digits = end > exponent_start;
    }
    if has_mantissa && has_exponent_digits {
        let literal = text_between(chars, from, end);
        Ok((end - 1, literal))
    } else {
        Err(ParseJSONError::invalid_number())
    }
}

} // verus!
