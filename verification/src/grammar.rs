//! The mathematical model of scanning: what one step reads from a buffer of
//! characters at a given position, and what a whole run yields.
//!
//! Positions are indices into the buffer. Reading at or beyond its end gives
//! the NUL sentinel.

use vstd::prelude::*;
use crate::chars::{alphanumeric, is_blank, is_digit, is_number_start, is_word_start};
use crate::token::{LexError, TokenKind, TokenView};

verus! {

/// The character at index `i`, or NUL where the buffer has none.
pub open spec fn char_at(buf: Seq<char>, i: int) -> char {
    if 0 <= i < buf.len() {
        buf[i]
    } else {
        '\0'
    }
}

/// The first index at or after `from` whose character is not in `class`, or
/// the length of the buffer if every character from there on is.
pub open spec fn run_end(buf: Seq<char>, from: int, class: spec_fn(char) -> bool) -> int
    decreases buf.len() - from,
{
    if 0 <= from < buf.len() && class(buf[from]) {
        run_end(buf, from + 1, class)
    } else {
        from
    }
}

/// Where the run of blanks beginning at `from` ends.
pub open spec fn blanks_end(buf: Seq<char>, from: int) -> int {
    run_end(buf, from, |c: char| is_blank(c))
}

/// The index of the first newline at or after `from`, or the length of the
/// buffer if there is none.
pub open spec fn line_end(buf: Seq<char>, from: int) -> int {
    run_end(buf, from, |c: char| c != '\n')
}

/// Where the run of digits beginning at `from` ends.
pub open spec fn digits_end(buf: Seq<char>, from: int) -> int {
    run_end(buf, from, |c: char| is_digit(c))
}

/// Where the run of letters and digits beginning at `from` ends.
pub open spec fn word_end(buf: Seq<char>, from: int) -> int {
    run_end(buf, from, |c: char| alphanumeric(c))
}

/// The index of the first double quote at or after `from`, or the length of
/// the buffer if there is none.
pub open spec fn quote_at(buf: Seq<char>, from: int) -> int {
    run_end(buf, from, |c: char| c != '"')
}

/// A comment runs from a `#` up to, and not including, the next newline.
pub open spec fn comment_end(buf: Seq<char>, from: int) -> int {
    if char_at(buf, from) == '#' {
        line_end(buf, from)
    } else {
        from
    }
}

/// Where the next token begins: after blanks, then after a comment if one
/// follows them.
pub open spec fn token_start(buf: Seq<char>, pos: int) -> int {
    comment_end(buf, blanks_end(buf, pos))
}

/// Where the rest of a numeric literal ends, given whether its decimal point
/// has already been read. Digits continue the literal; so does one point, as
/// long as none came before.
pub open spec fn fraction_end(buf: Seq<char>, from: int, seen_point: bool) -> int {
    let whole = digits_end(buf, from);
    if !seen_point && char_at(buf, whole) == '.' {
        digits_end(buf, whole + 1)
    } else {
        whole
    }
}

/// Where the numeric literal that begins at `start` ends.
pub open spec fn number_end(buf: Seq<char>, start: int) -> int {
    fraction_end(buf, start + 1, char_at(buf, start) == '.')
}

/// How one character of a string literal is written into the lexeme: `%` and
/// `\` gain a backslash in front, every other character stands for itself.
pub open spec fn escape_char(c: char) -> Seq<char> {
    if c == '%' {
        seq!['\\', '%']
    } else if c == '\\' {
        seq!['\\', '\\']
    } else {
        seq![c]
    }
}

/// The escaped form of a string literal's body.
pub open spec fn escape(body: Seq<char>) -> Seq<char>
    decreases body.len(),
{
    if body.len() == 0 {
        Seq::empty()
    } else {
        escape(body.drop_last()) + escape_char(body.last())
    }
}

/// The keyword table: the kind of a word that is a keyword, spelled in upper
/// case, and nothing for any other word.
pub open spec fn keyword(word: Seq<char>) -> Option<TokenKind> {
    if word == "LABEL"@ {
        Some(TokenKind::Label)
    } else if word == "GOTO"@ {
        Some(TokenKind::Goto)
    } else if word == "PRINT"@ {
        Some(TokenKind::Print)
    } else if word == "INPUT"@ {
        Some(TokenKind::Input)
    } else if word == "LET"@ {
        Some(TokenKind::Let)
    } else if word == "IF"@ {
        Some(TokenKind::If)
    } else if word == "THEN"@ {
        Some(TokenKind::Then)
    } else if word == "ENDIF"@ {
        Some(TokenKind::EndIf)
    } else if word == "WHILE"@ {
        Some(TokenKind::While)
    } else if word == "REPEAT"@ {
        Some(TokenKind::Repeat)
    } else if word == "ENDWHILE"@ {
        Some(TokenKind::EndWhile)
    } else {
        None
    }
}

/// The kind of a scanned word: its keyword, or an identifier.
pub open spec fn word_kind(word: Seq<char>) -> TokenKind {
    match keyword(word) {
        Some(kind) => kind,
        None => TokenKind::Identifier,
    }
}

/// The result of one scanning step.
pub struct Scan {
    /// Where the token, or the character at fault, begins.
    pub start: int,
    /// Where the cursor rests afterwards.
    pub next: int,
    /// The token read, or the reason none was.
    pub outcome: Result<TokenView, LexError>,
}

/// A token whose lexeme is the span of the buffer from `start` to `next`.
pub open spec fn spanned(buf: Seq<char>, start: int, next: int, kind: TokenKind) -> Scan {
    Scan { start, next, outcome: Ok(TokenView { lexeme: buf.subrange(start, next), kind }) }
}

/// A failed step that leaves the cursor at `next`.
pub open spec fn failed(start: int, next: int, error: LexError) -> Scan {
    Scan { start, next, outcome: Err(error) }
}

/// One of `=`, `<`, `>` at `start`: with a `=` after it the two characters
/// form `long`, otherwise the one character is `short`.
pub open spec fn comparison(buf: Seq<char>, start: int, short: TokenKind, long: TokenKind) -> Scan {
    if char_at(buf, start + 1) == '=' {
        spanned(buf, start, start + 2, long)
    } else {
        spanned(buf, start, start + 1, short)
    }
}

/// The end of the input, met at `start`: the lexeme is a single NUL. A NUL
/// that stands in the buffer is consumed; the sentinel past the buffer is
/// not, and the cursor stays where it is.
pub open spec fn end_of_input(buf: Seq<char>, start: int) -> Scan {
    Scan {
        start,
        next: if 0 <= start < buf.len() { start + 1 } else { start },
        outcome: Ok(TokenView { lexeme: seq!['\0'], kind: TokenKind::EndOfInput }),
    }
}

/// A string literal whose opening quote is at `start`. Its lexeme is the
/// escaped text between the quotes. Without a closing quote the step fails
/// and the cursor rests at the end of the buffer.
pub open spec fn string_literal(buf: Seq<char>, start: int) -> Scan {
    let close = quote_at(buf, start + 1);
    if close < buf.len() {
        Scan {
            start,
            next: close + 1,
            outcome: Ok(
                TokenView { lexeme: escape(buf.subrange(start + 1, close)), kind: TokenKind::String },
            ),
        }
    } else {
        failed(start, close, LexError::UnterminatedString)
    }
}

/// An identifier or keyword that begins at `start`.
pub open spec fn word(buf: Seq<char>, start: int) -> Scan {
    let next = word_end(buf, start + 1);
    spanned(buf, start, next, word_kind(buf.subrange(start, next)))
}

/// The token that begins at `start`, decided by the character there.
pub open spec fn token_at(buf: Seq<char>, start: int) -> Scan {
    let c = char_at(buf, start);
    if c == '+' {
        spanned(buf, start, start + 1, TokenKind::Plus)
    } else if c == '-' {
        spanned(buf, start, start + 1, TokenKind::Minus)
    } else if c == '*' {
        spanned(buf, start, start + 1, TokenKind::Asterisk)
    } else if c == '/' {
        spanned(buf, start, start + 1, TokenKind::Slash)
    } else if c == '\n' {
        spanned(buf, start, start + 1, TokenKind::Newline)
    } else if c == '\0' {
        end_of_input(buf, start)
    } else if c == '=' {
        comparison(buf, start, TokenKind::Assign, TokenKind::Equals)
    } else if c == '>' {
        comparison(buf, start, TokenKind::Greater, TokenKind::GreaterEquals)
    } else if c == '<' {
        comparison(buf, start, TokenKind::Less, TokenKind::LessEquals)
    } else if c == '!' {
        if char_at(buf, start + 1) == '=' {
            spanned(buf, start, start + 2, TokenKind::NotEquals)
        } else {
            failed(start, start, LexError::MalformedOperator(char_at(buf, start + 1)))
        }
    } else if c == '"' {
        string_literal(buf, start)
    } else if is_number_start(c) {
        spanned(buf, start, number_end(buf, start), TokenKind::Number)
    } else if is_word_start(c) {
        word(buf, start)
    } else {
        failed(start, start, LexError::UnexpectedCharacter(c))
    }
}

/// One step of scanning from `pos`: skip what carries no meaning, then read
/// the token that follows.
pub open spec fn scan(buf: Seq<char>, pos: int) -> Scan {
    token_at(buf, token_start(buf, pos))
}

/// What scanning to the end yields: the tokens read, the error that stopped
/// the run if one did, where the cursor rests at last, and how many
/// characters were passed over as blanks and comments on the way.
pub struct TokenStream {
    pub tokens: Seq<TokenView>,
    pub error: Option<LexError>,
    pub end: int,
    pub skipped: int,
}

/// The run of scanning steps from `pos` that stops after the first token
/// that marks the end of the input, or at the first error.
pub open spec fn token_stream(buf: Seq<char>, pos: int) -> TokenStream
    decreases buf.len() - pos,
    via token_stream_terminates
{
    let step = scan(buf, pos);
    let skipped = step.start - pos;
    match step.outcome {
        Err(error) => TokenStream {
            tokens: Seq::empty(),
            error: Some(error),
            end: step.next,
            skipped,
        },
        Ok(token) => if token.kind is EndOfInput {
            TokenStream { tokens: seq![token], error: None, end: step.next, skipped }
        } else {
            let rest = token_stream(buf, step.next);
            TokenStream {
                tokens: seq![token] + rest.tokens,
                error: rest.error,
                end: rest.end,
                skipped: skipped + rest.skipped,
            }
        },
    }
}

#[via_fn]
proof fn token_stream_terminates(buf: Seq<char>, pos: int) {
    lemma_scan_bounds(buf, pos);
}

/// A run never moves backwards, ends within the buffer if it began there,
/// holds only characters of the class, and stops at the first character
/// outside it. Begun outside the buffer, it ends where it began.
pub proof fn lemma_run_end(buf: Seq<char>, from: int, class: spec_fn(char) -> bool)
    ensures
        from <= run_end(buf, from, class),
        run_end(buf, from, class) <= buf.len() || run_end(buf, from, class) == from,
        forall|i: int| from <= i < run_end(buf, from, class) ==> class(#[trigger] buf[i]),
        0 <= run_end(buf, from, class) < buf.len() ==> !class(buf[run_end(buf, from, class)]),
    decreases buf.len() - from,
{
    if 0 <= from < buf.len() && class(buf[from]) {
        lemma_run_end(buf, from + 1, class);
    }
}

/// Skipping never moves backwards, and it ends within the buffer unless the
/// cursor was past the end already, where nothing is skipped.
pub proof fn lemma_token_start_bounds(buf: Seq<char>, pos: int)
    ensures
        pos <= blanks_end(buf, pos) <= token_start(buf, pos),
        token_start(buf, pos) <= buf.len() || token_start(buf, pos) == pos,
{
    lemma_run_end(buf, pos, |c: char| is_blank(c));
    lemma_run_end(buf, blanks_end(buf, pos), |c: char| c != '\n');
}

/// The runs that a token beginning at a character of the buffer may be made
/// of end after that character and within the buffer.
pub proof fn lemma_token_runs(buf: Seq<char>, start: int)
    requires
        0 <= start < buf.len(),
    ensures
        start < quote_at(buf, start + 1) <= buf.len(),
        start < number_end(buf, start) <= buf.len(),
        start < word_end(buf, start + 1) <= buf.len(),
{
    lemma_run_end(buf, start + 1, |c: char| c != '"');
    lemma_run_end(buf, start + 1, |c: char| alphanumeric(c));
    lemma_run_end(buf, start + 1, |c: char| is_digit(c));
    lemma_run_end(buf, digits_end(buf, start + 1) + 1, |c: char| is_digit(c));
}

/// A token that begins within the buffer ends within it; past the end of the
/// buffer only the end of the input is met, and the cursor stays. Every token
/// but the end of the input moves the cursor forward.
pub proof fn lemma_token_at_bounds(buf: Seq<char>, start: int)
    ensures
        token_at(buf, start).start == start,
        start <= token_at(buf, start).next,
        token_at(buf, start).next <= buf.len() || token_at(buf, start).next == start,
        token_at(buf, start).outcome matches Ok(token) ==> (token.kind is EndOfInput <==> char_at(
            buf,
            start,
        ) == '\0'),
        token_at(buf, start).outcome matches Ok(token) && !(token.kind is EndOfInput) ==> start
            < token_at(buf, start).next,
{
    if 0 <= start < buf.len() {
        lemma_token_runs(buf, start);
    }
}

/// A step never moves the cursor backwards, and it ends within the buffer
/// unless the cursor was past the end already, where it stays. Every token
/// but the end of the input moves the cursor forward.
pub proof fn lemma_scan_bounds(buf: Seq<char>, pos: int)
    ensures
        pos <= scan(buf, pos).start <= scan(buf, pos).next,
        scan(buf, pos).next <= buf.len() || scan(buf, pos).next == pos,
        scan(buf, pos).start == token_start(buf, pos),
        scan(buf, pos).outcome matches Ok(token) ==> (token.kind is EndOfInput <==> char_at(
            buf,
            scan(buf, pos).start,
        ) == '\0'),
        scan(buf, pos).outcome matches Ok(token) && !(token.kind is EndOfInput) ==> pos < scan(
            buf,
            pos,
        ).next,
{
    lemma_token_start_bounds(buf, pos);
    lemma_token_at_bounds(buf, token_start(buf, pos));
}

} // verus!
