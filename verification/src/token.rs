//! Tokens, their kinds, and the errors a scan can end in.

use vstd::prelude::*;
use vstd::string::StringExecFns;

verus! {

/// The classification of a token.
#[derive(Clone, Copy, Debug, PartialEq, Eq, Hash, Structural)]
pub enum TokenKind {
    EndOfInput,
    Newline,
    Number,
    String,
    Identifier,
    // Keywords.
    Label,
    Goto,
    Print,
    Input,
    Let,
    If,
    Then,
    EndIf,
    While,
    Repeat,
    EndWhile,
    // Operators.
    Assign,
    Plus,
    Minus,
    Asterisk,
    Slash,
    Equals,
    NotEquals,
    Less,
    LessEquals,
    Greater,
    GreaterEquals,
}

/// The abstract value of a token: its text and its kind.
pub struct TokenView {
    pub lexeme: Seq<char>,
    pub kind: TokenKind,
}

/// One lexical token: the text it carries and how it was classified.
///
/// For a string literal the text is the escaped body without the quotes; for
/// every other kind it is the span of source characters the token was read
/// from. The end of the input carries a single NUL.
#[derive(Clone, Debug, PartialEq, Eq, Hash)]
pub struct Token {
    pub lexeme: String,
    pub kind: TokenKind,
}

impl View for Token {
    type V = TokenView;

    open spec fn view(&self) -> TokenView {
        TokenView { lexeme: self.lexeme@, kind: self.kind }
    }
}

impl Token {
    pub fn new(lexeme: String, kind: TokenKind) -> (token: Token)
        ensures
            token@ == (TokenView { lexeme: lexeme@, kind }),
    {
        Token { lexeme, kind }
    }
}

/// Why a scan stopped without a token. Scanning does not recover from any of
/// these.
#[derive(Clone, Copy, Debug, PartialEq, Eq, Hash, Structural)]
pub enum LexError {
    /// The character begins no token.
    UnexpectedCharacter(char),
    /// A `!` was followed by this character instead of `=`.
    MalformedOperator(char),
    /// A string literal was still open when the input ended.
    UnterminatedString,
}

impl LexError {
    /// The text of the diagnostic for this error.
    pub open spec fn message_text(self) -> Seq<char> {
        match self {
            LexError::UnexpectedCharacter(c) => "unknown token: "@.push(c),
            LexError::MalformedOperator(c) => "Expected !=, got !"@.push(c),
            LexError::UnterminatedString => "unterminated string literal"@,
        }
    }

    /// A human-readable description that names the offending character.
    pub fn message(&self) -> (text: String)
        ensures
            text@ == self.message_text(),
    {
        match *self {
            LexError::UnexpectedCharacter(c) => {
                let mut text = String::from_str("unknown token: ");
                text.push(c);
                text
            },
            LexError::MalformedOperator(c) => {
                let mut text = String::from_str("Expected !=, got !");
                text.push(c);
                text
            },
            LexError::UnterminatedString => String::from_str("unterminated string literal"),
        }
    }
}

} // verus!
