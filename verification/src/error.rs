//! Lexical errors.

use vstd::prelude::*;
use vstd::string::*;

verus! {

/// Why no token could be made of a piece of the source.
#[derive(Debug, Copy, Clone, PartialEq, Eq, Structural)]
pub enum LexError {
    /// A character with which no token begins.
    UnexpectedCharacter(char),
    /// An opening quote with no closing quote behind it.
    UnterminatedString,
}

/// The text of an error's message.
pub open spec fn message_text(error: LexError) -> Seq<char> {
    match error {
        LexError::UnexpectedCharacter(c) => "Unexpected character '"@.push(c) + "'"@,
        LexError::UnterminatedString => "Unterminated string"@,
    }
}

/// `String::push` appends the character to the end of the string.
pub assume_specification[ std::string::String::push ](s: &mut std::string::String, ch: char)
    ensures
        final(s)@ == old(s)@.push(ch),
;

impl LexError {
    /// The message that describes this error.
    pub fn message(&self) -> (text: String)
        ensures
            text@ == message_text(*self),
    {
        match self {
            LexError::UnexpectedCharacter(c) => {
                let mut text = String::from_str("Unexpected character '");
                text.push(*c);
                text.append("'");
                text
            },
            LexError::UnterminatedString => String::from_str("Unterminated string"),
        }
    }
}

} // verus!
