//! A single-pass, recursive-descent JSON parser.
//!
//! The input is a sequence of Unicode scalar values together with an offset
//! into it. Every scanner takes the sequence and the offset where its token
//! starts, and returns the offset of the token's last character together with
//! what it read. What each scanner returns is stated over `Seq<char>` by the
//! spec functions of `scan` and `grammar`; the executable functions of `scan`
//! and `parse` are proved to compute exactly that.
//!
//! Strings and numbers are kept as they are written: a string keeps its
//! escape sequences, a number keeps its literal. `padding` proves that
//! whitespace before and behind a text does not change the value it denotes.
pub mod chars;
pub mod error;
pub mod grammar;
pub mod padding;
pub mod parse;
pub mod scan;
pub mod value;

pub use error::ParseFailure;
pub use error::ParseJSONError;
pub use parse::parse_json;
pub use parse::parse_json_array;
pub use parse::parse_json_object;
pub use parse::parse_json_value;
pub use scan::parse_json_literal;
pub use scan::parse_json_number;
pub use scan::parse_json_string;
pub use scan::skip_whitespace;
pub use value::JSONBuilder;
pub use value::JSONValue;
pub use value::JsonTree;
