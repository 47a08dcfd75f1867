use vstd::prelude::*;
use vstd::string::StringExecFns;

verus! {

/// Errors raised while scanning or reading JSON text.
///
/// Loading a value never fails; these errors arise when an accessor
/// scans a region of text or converts it to another representation.
#[derive(Copy, Clone, Debug, PartialEq, Eq, Structural)]
pub enum JSONParsingError {
    /// Attempt to read a value that is not an array as an array
    CannotParseArray,
    /// Attempt to read a value that is not a float as a float
    CannotParseFloat,
    /// Attempt to read a value that is not an integer as an integer
    CannotParseInteger,
    /// Attempt to read a value that is not an object as an object
    CannotParseObject,
    /// Attempt to read a value that is not a string as a string
    CannotParseString,
    /// Attempt to read a value that is not a boolean as a boolean
    CannotParseBoolean,
    /// The key is not present in the object
    KeyNotFound,
    /// There was an unexpected token in the input stream
    UnexpectedToken,
    /// The input stream terminated while scanning a value
    EndOfStream,
    /// Escape sequence too short (unicode escapes take four hex digits)
    TooShortEscapeSequence,
    /// Escape sequence does not map to a character
    InvalidUnicodeEscapeSequence,
    /// The escape pattern (a backslash and this character) is meaningless
    InvalidEscapeSequence(char),
}

/// The exact text of the description each error kind carries.
pub open spec fn spec_message(e: JSONParsingError) -> Seq<char> {
    match e {
        JSONParsingError::CannotParseArray => "error parsing array"@,
        JSONParsingError::CannotParseFloat => "error parsing float"@,
        JSONParsingError::CannotParseInteger => "error parsing integer"@,
        JSONParsingError::CannotParseObject => "error parsing object"@,
        JSONParsingError::CannotParseString => "error parsing string"@,
        JSONParsingError::CannotParseBoolean => "error parsing boolean"@,
        JSONParsingError::KeyNotFound => "key not found"@,
        JSONParsingError::UnexpectedToken => "unexpected token"@,
        JSONParsingError::EndOfStream => "stream ended while parsing JSON"@,
        JSONParsingError::TooShortEscapeSequence => "escape sequence fewer than four digits"@,
        JSONParsingError::InvalidUnicodeEscapeSequence => "escape sequence doesn't map to a character"@,
        JSONParsingError::InvalidEscapeSequence(c) => "invalid escape sequence \"\\"@ + seq![c] + "\""@,
    }
}

/// Relies on `String::push` from std: appends the one character `c` at
/// the end of the string, leaving everything before it unchanged.
#[verifier::external_body]
fn push_char(s: &mut String, c: char)
    ensures
        final(s)@ == old(s)@.push(c),
{
    s.push(c);
}

impl JSONParsingError {
    /// A short human-readable description of the error.
    pub fn message(&self) -> (r: String)
        ensures
            r@ == spec_message(*self),
    {
        match *self {
            JSONParsingError::CannotParseArray => String::from_str("error parsing array"),
            JSONParsingError::CannotParseFloat => String::from_str("error parsing float"),
            JSONParsingError::CannotParseInteger => String::from_str("error parsing integer"),
            JSONParsingError::CannotParseObject => String::from_str("error parsing object"),
            JSONParsingError::CannotParseString => String::from_str("error parsing string"),
            JSONParsingError::CannotParseBoolean => String::from_str("error parsing boolean"),
            JSONParsingError::KeyNotFound => String::from_str("key not found"),
            JSONParsingError::UnexpectedToken => String::from_str("unexpected token"),
            JSONParsingError::EndOfStream => String::from_str("stream ended while parsing JSON"),
            JSONParsingError::TooShortEscapeSequence => String::from_str(
                "escape sequence fewer than four digits",
            ),
            JSONParsingError::InvalidUnicodeEscapeSequence => String::from_str(
                "escape sequence doesn't map to a character",
            ),
            JSONParsingError::InvalidEscapeSequence(c) => {
                let mut s = String::from_str("invalid escape sequence \"\\");
                push_char(&mut s, c);
                s.append("\"");
                proof {
                    assert(s@ =~= spec_message(JSONParsingError::InvalidEscapeSequence(c)));
                }
                s
            },
        }
    }
}

} // verus!
