//! What can go wrong while parsing, and where.

use vstd::prelude::*;

verus! {

/// The kinds of failure.
#[derive(Debug, Clone, Copy, PartialEq, Eq, Structural)]
pub enum ErrorKind {
    /// The leading token of one production did not match. The scanner and the
    /// single rules report it; a whole parse never ends with it.
    NoMatch,
    /// No production of a value starts at this position.
    UnexpectedToken,
    /// The input ended inside a string.
    UnterminatedString,
    /// A backslash in a string is not followed by a well-formed escape.
    InvalidEscape,
    /// A number's text does not fit the numeric type that a caller converts
    /// it to. The parser keeps the text and never reports this kind itself;
    /// it is here for the conversions that are built on the parser.
    NumberOutOfRange,
    /// After an element neither a comma nor the closing bracket follows.
    ExpectedCommaOrBracket,
    /// A comma stands directly before a closing bracket.
    TrailingComma,
    /// An object member does not start with a string.
    NonStringKey,
    /// After an object key no colon follows.
    ExpectedColon,
    /// Something other than whitespace follows the document.
    TrailingContent,
    /// Arrays and objects are nested deeper than the limit.
    NestingTooDeep,
}

/// A failure, with the character offset at which it was found.
#[derive(Debug, Clone, Copy, PartialEq, Eq, Structural)]
pub struct ParseError {
    pub kind: ErrorKind,
    pub offset: usize,
}

/// The error of the given kind at the given position.
pub open spec fn error_at(kind: ErrorKind, pos: int) -> ParseError {
    ParseError { kind, offset: pos as usize }
}

/// The sentence that describes a kind of failure.
pub open spec fn reason_text(kind: ErrorKind) -> Seq<char> {
    match kind {
        ErrorKind::NoMatch => "the expected token is not here"@,
        ErrorKind::UnexpectedToken => "no value starts here"@,
        ErrorKind::UnterminatedString => "the input ends inside a string"@,
        ErrorKind::InvalidEscape => "malformed escape sequence"@,
        ErrorKind::NumberOutOfRange => "the number is out of range"@,
        ErrorKind::ExpectedCommaOrBracket => "expected a comma or a closing bracket"@,
        ErrorKind::TrailingComma => "a comma stands before the closing bracket"@,
        ErrorKind::NonStringKey => "an object key must be a string"@,
        ErrorKind::ExpectedColon => "expected a colon after the object key"@,
        ErrorKind::TrailingContent => "unexpected input after the document"@,
        ErrorKind::NestingTooDeep => "arrays and objects are nested too deeply"@,
    }
}

impl ParseError {
    /// A human-readable description of the failure.
    pub fn reason(&self) -> (text: &'static str)
        ensures
            text@ == reason_text(self.kind),
    {
        match self.kind {
            ErrorKind::NoMatch => "the expected token is not here",
            ErrorKind::UnexpectedToken => "no value starts here",
            ErrorKind::UnterminatedString => "the input ends inside a string",
            ErrorKind::InvalidEscape => "malformed escape sequence",
            ErrorKind::NumberOutOfRange => "the number is out of range",
            ErrorKind::ExpectedCommaOrBracket => "expected a comma or a closing bracket",
            ErrorKind::TrailingComma => "a comma stands before the closing bracket",
            ErrorKind::NonStringKey => "an object key must be a string",
            ErrorKind::ExpectedColon => "expected a colon after the object key",
            ErrorKind::TrailingContent => "unexpected input after the document",
            ErrorKind::NestingTooDeep => "arrays and objects are nested too deeply",
        }
    }
}

} // verus!
