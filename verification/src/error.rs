//! Why a parse fails, and the message that reports it.
use vstd::prelude::*;
use vstd::string::*;

verus! {

/// The reasons for which a parse fails. A parse stops at the first failure
/// and reports it unchanged.
pub enum ParseFailure {
    /// A string has no closing quote.
    MissingEndQuote,
    /// The characters consumed for a number are no floating-point literal.
    InvalidNumber,
    /// The input does not continue with the keyword that its first letter
    /// announced. `found` is what stands in the keyword's place, cut off at
    /// the end of the input.
    LiteralMismatch { expected: Seq<char>, found: Seq<char> },
    /// A comma stands where an element has to start.
    UnexpectedComma,
    /// An array element is followed by neither `,` nor `]`: by something
    /// else, or by the end of the input.
    ExpectedClosingBracket,
    /// An object member is followed by neither `,` nor `}`: by something
    /// else, or by the end of the input.
    ExpectedClosingBrace,
    /// An object key is not followed by `:`.
    ExpectedColonAfterKey,
    /// No `"` stands where an object member has to start.
    ExpectedQuoteForKey,
    /// No value starts at the offset: another character stands there, or
    /// the input has ended.
    NoValueFound,
    /// The whole input is empty or whitespace.
    EmptyInput,
}

impl ParseFailure {
    /// The text that reports the failure. An empty input is reported in the
    /// words of a missing value.
    pub open spec fn message(self) -> Seq<char> {
        match self {
            ParseFailure::MissingEndQuote => "Missing end quotes for string"@,
            ParseFailure::InvalidNumber => "Invalid number"@,
            ParseFailure::LiteralMismatch { expected, found } => "Expected "@ + expected
                + " but got "@ + found,
            ParseFailure::UnexpectedComma => "Unexpected comma"@,
            ParseFailure::ExpectedClosingBracket => "Expected ']' to end array"@,
            ParseFailure::ExpectedClosingBrace => "Expected '}' to end object"@,
            ParseFailure::ExpectedColonAfterKey => "Expected ':' after object key"@,
            ParseFailure::ExpectedQuoteForKey => "Expected '\"' for object key"@,
            ParseFailure::NoValueFound => "No JSON value found"@,
            ParseFailure::EmptyInput => "No JSON value found"@,
        }
    }
}

/// A failed parse: a message for a person to read, and nothing else.
#[derive(Debug, PartialEq, Eq)]
pub struct ParseJSONError(pub String);

impl Clone for ParseJSONError {
    fn clone(&self) -> (copy: Self)
        ensures
            copy@ == self@,
    {
        ParseJSONError(self.0.clone())
    }
}

impl View for ParseJSONError {
    type V = Seq<char>;

    open spec fn view(&self) -> Seq<char> {
        self.0@
    }
}

impl ParseJSONError {
    pub(crate) fn missing_end_quote() -> (error: Self)
        ensures
            error@ == ParseFailure::MissingEndQuote.message(),
    {
        ParseJSONError(String::from_str("Missing end quotes for string"))
    }

    pub(crate) fn invalid_number() -> (error: Self)
        ensures
            error@ == ParseFailure::InvalidNumber.message(),
    {
        ParseJSONError(String::from_str("Invalid number"))
    }

    pub(crate) fn literal_mismatch(expected: &str, found: &String) -> (error: Self)
        ensures
            error@ == (ParseFailure::LiteralMismatch {
                expected: expected@,
                found: found@,
            }).message(),
    {
        let mut message = String::from_str("Expected ");
        message.append(expected);
        message.append(" but got ");
        message.append(found.as_str());
        ParseJSONError(message)
    }

    pub(crate) fn unexpected_comma() -> (error: Self)
        ensures
            error@ == ParseFailure::UnexpectedComma.message(),
    {
        ParseJSONError(String::from_str("Unexpected comma"))
    }

    pub(crate) fn expected_closing_bracket() -> (error: Self)
        ensures
            error@ == ParseFailure::ExpectedClosingBracket.message(),
    {
        ParseJSONError(String::from_str("Expected ']' to end array"))
    }

    pub(crate) fn expected_closing_brace() -> (error: Self)
        ensures
            error@ == ParseFailure::ExpectedClosingBrace.message(),
    {
        ParseJSONError(String::from_str("Expected '}' to end object"))
    }

    pub(crate) fn expected_colon_after_key() -> (error: Self)
        ensures
            error@ == ParseFailure::ExpectedColonAfterKey.message(),
    {
        ParseJSONError(String::from_str("Expected ':' after object key"))
    }

    pub(crate) fn expected_quote_for_key() -> (error: Self)
        ensures
            error@ == ParseFailure::ExpectedQuoteForKey.message(),
    {
        ParseJSONError(String::from_str("Expected '\"' for object key"))
    }

    pub(crate) fn no_value_found() -> (error: Self)
        ensures
            error@ == ParseFailure::NoValueFound.message(),
    {
        ParseJSONError(String::from_str("No JSON value found"))
    }
}

} // verus!
