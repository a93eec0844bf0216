//! The scanner: a cursor over a buffer of characters that hands out one token
//! per call.

use vstd::prelude::*;
use vstd::std_specs::iter::IteratorSpec;
use vstd::string::StrSliceExecFns;
use crate::chars::{blank, digit, is_number_start, is_word_start, number_start, word_start};
use crate::grammar::{
    blanks_end, char_at, comment_end, comparison, escape, escape_char, fraction_end, keyword,
    lemma_scan_bounds, lemma_token_at_bounds, lemma_token_start_bounds, line_end, number_end,
    quote_at, scan, spanned, string_literal, token_stream, word, word_end, word_kind, Scan,
    TokenStream,
};
use crate::laws::{lemma_end_of_input_once_and_last, lemma_run_consumes_buffer};
use crate::token::{LexError, Token, TokenKind, TokenView};

verus! {

/// The abstract state of a scanner: the buffer it reads, which never changes,
/// and the index of its current character.
pub struct LexerState {
    pub buffer: Seq<char>,
    pub position: int,
}

impl LexerState {
    /// The state a scanner starts in: the source with one newline appended,
    /// and the cursor on its first character.
    pub open spec fn initial(source: Seq<char>) -> LexerState {
        LexerState { buffer: source.push('\n'), position: 0 }
    }

    /// The buffer is the text of a source with its closing newline, no
    /// longer than the machine can index, and the cursor is on one of its
    /// characters or anywhere past its end.
    pub open spec fn well_formed(self) -> bool {
        &&& 0 < self.buffer.len() <= usize::MAX
        &&& self.buffer.last() == '\n'
        &&& 0 <= self.position
    }

    /// The current character: the one under the cursor, or NUL past the end
    /// of the buffer.
    pub open spec fn current(self) -> char {
        char_at(self.buffer, self.position)
    }

    /// The character one position ahead of the cursor, or NUL.
    pub open spec fn ahead(self) -> char {
        char_at(self.buffer, self.position + 1)
    }

    /// The same buffer with the cursor at `position`.
    pub open spec fn at(self, position: int) -> LexerState {
        LexerState { buffer: self.buffer, position }
    }

    /// The state after one advance: the cursor moves on by one position,
    /// within the buffer and past its end alike.
    pub open spec fn advanced(self) -> LexerState {
        self.at(self.position + 1)
    }

    /// No character from the cursor on is NUL.
    pub open spec fn nul_free(self) -> bool {
        forall|i: int| self.position <= i < self.buffer.len() ==> self.buffer[i] != '\0'
    }

    /// What the next scanning step reads in this state.
    pub open spec fn scan(self) -> Scan {
        scan(self.buffer, self.position)
    }

    /// What scanning from this state to the end of the input yields.
    pub open spec fn stream(self) -> TokenStream {
        token_stream(self.buffer, self.position)
    }
}

/// The views of a vector of tokens, in order.
pub open spec fn views(tokens: Seq<Token>) -> Seq<TokenView> {
    tokens.map_values(|token: Token| token@)
}

/// The step `step` was taken from `before`: the cursor rests where the step
/// says, the buffer is untouched, and `result` is the step's outcome.
pub open spec fn took_step(
    before: LexerState,
    after: LexerState,
    result: Result<Token, LexError>,
    step: Scan,
) -> bool {
    &&& after == before.at(step.next)
    &&& match result {
        Ok(token) => step.outcome == Ok::<TokenView, LexError>(token@),
        Err(error) => step.outcome == Err::<TokenView, LexError>(error),
    }
}

/// The cursor: an index into the buffer, with the character found there.
struct Cursor {
    pos: usize,
    current: char,
}

/// A scanner over one source text.
pub struct Lexer {
    source: Vec<char>,
    cursor: Cursor,
}

impl View for Lexer {
    type V = LexerState;

    closed spec fn view(&self) -> LexerState {
        LexerState { buffer: self.source@, position: self.cursor.pos as int }
    }
}

/// Whether `text`, which is `len` characters long, spells `word`.
fn spells(text: &str, len: usize, word: &str) -> (same: bool)
    requires
        len == text@.len(),
    ensures
        same == (text@ == word@),
{
    if len != word.unicode_len() {
        return false;
    }
    let mut i: usize = 0;
    while i < len
        invariant
            len == text@.len(),
            len == word@.len(),
            i <= len,
            forall|j: int| 0 <= j < i ==> text@[j] == word@[j],
        decreases len - i,
    {
        if text.get_char(i) != word.get_char(i) {
            return false;
        }
        i += 1;
    }
    assert(text@ =~= word@);
    true
}

impl Lexer {
    #[verifier::type_invariant]
    spec fn inv(self) -> bool {
        &&& self@.well_formed()
        &&& self.cursor.current == self@.current()
    }

    /// Takes the source text, appends a newline to it, and puts the cursor on
    /// the first character.
    pub fn new(source: String) -> (lexer: Lexer)
        ensures
            lexer@ == LexerState::initial(source@),
            lexer@.well_formed(),
    {
        let mut buffer: Vec<char> = Vec::new();
        for c in it: source.as_str().chars()
            invariant
                it.seq() == source@,
                buffer@ == source@.take(it.index()),
        {
            buffer.push(c);
        }
        assert(source@.take(source@.len() as int) == source@);
        buffer.push('\n');
        assert(buffer@.len() == buffer.len());
        let current = buffer[0];
        Lexer { source: buffer, cursor: Cursor { pos: 0, current } }
    }

    /// The index of the current character.
    pub fn position(&self) -> (position: usize)
        ensures
            position == self@.position,
            self@.well_formed(),
    {
        proof {
            use_type_invariant(self);
        }
        self.cursor.pos
    }

    /// The current character, NUL once the buffer is exhausted.
    pub fn current_char(&self) -> (c: char)
        ensures
            c == self@.current(),
    {
        proof {
            use_type_invariant(self);
        }
        self.cursor.current
    }

    /// Moves the cursor on by one position. Once the new position is at or
    /// past the end of the buffer the current character is NUL, and further
    /// calls keep counting. Only at the largest index the machine can hold
    /// does the cursor stay where it is.
    pub fn next_char(&mut self)
        ensures
            old(self)@.position < usize::MAX ==> final(self)@ == old(self)@.advanced(),
            old(self)@.position >= usize::MAX ==> final(self)@ == old(self)@,
            final(self)@.well_formed(),
    {
        proof {
            use_type_invariant(&*self);
        }
        let mut pos: usize = self.cursor.pos;
        if pos < usize::MAX {
            pos += 1;
        }
        let current = if pos >= self.source.len() {
            '\0'
        } else {
            self.source[pos]
        };
        self.cursor = Cursor { pos, current };
    }

    /// The character one position ahead of the cursor, or NUL if there is
    /// none. The cursor does not move.
    pub fn peek(&self) -> (c: char)
        ensures
            c == self@.ahead(),
    {
        proof {
            use_type_invariant(self);
        }
        if self.cursor.pos >= self.source.len() - 1 {
            '\0'
        } else {
            self.source[self.cursor.pos + 1]
        }
    }

    /// Moves the cursor past the blanks in front of it.
    fn skip_whitespace(&mut self)
        ensures
            final(self)@ == old(self)@.at(blanks_end(old(self)@.buffer, old(self)@.position)),
            final(self)@.well_formed(),
    {
        proof {
            use_type_invariant(&*self);
        }
        while blank(self.cursor.current)
            invariant
                self@.well_formed(),
                self@.buffer == old(self)@.buffer,
                self.cursor.current == self@.current(),
                blanks_end(self@.buffer, self@.position) == blanks_end(
                    old(self)@.buffer,
                    old(self)@.position,
                ),
            decreases self@.buffer.len() - self@.position,
        {
            self.next_char();
            proof {
                use_type_invariant(&*self);
            }
        }
    }

    /// If the cursor is on a `#`, moves it to the newline that ends the
    /// comment; the newline itself is left to be read as a token.
    fn skip_comment(&mut self)
        ensures
            final(self)@ == old(self)@.at(comment_end(old(self)@.buffer, old(self)@.position)),
            final(self)@.well_formed(),
    {
        proof {
            use_type_invariant(&*self);
        }
        if self.cursor.current == '#' {
            while self.cursor.current != '\n'
                invariant
                    self@.well_formed(),
                    self@.buffer == old(self)@.buffer,
                    self.cursor.current == self@.current(),
                    self@.position < self@.buffer.len(),
                    line_end(self@.buffer, self@.position) == line_end(
                        old(self)@.buffer,
                        old(self)@.position,
                    ),
                decreases self@.buffer.len() - self@.position,
            {
                self.next_char();
                proof {
                    use_type_invariant(&*self);
                }
            }
        }
    }

    /// Reads the current character as a token of its own.
    fn single(&mut self, kind: TokenKind) -> (token: Token)
        requires
            old(self)@.position < old(self)@.buffer.len(),
        ensures
            took_step(
                old(self)@,
                final(self)@,
                Ok(token),
                spanned(old(self)@.buffer, old(self)@.position, old(self)@.position + 1, kind),
            ),
    {
        proof {
            use_type_invariant(&*self);
        }
        let mut text = String::new();
        text.push(self.cursor.current);
        self.next_char();
        assert(text@ =~= old(self)@.buffer.subrange(
            old(self)@.position,
            old(self)@.position + 1,
        ));
        Token::new(text, kind)
    }

    /// Reads the current character and the one after it as one token.
    fn double(&mut self, kind: TokenKind) -> (token: Token)
        requires
            old(self)@.position + 1 < old(self)@.buffer.len(),
        ensures
            took_step(
                old(self)@,
                final(self)@,
                Ok(token),
                spanned(old(self)@.buffer, old(self)@.position, old(self)@.position + 2, kind),
            ),
    {
        proof {
            use_type_invariant(&*self);
        }
        let mut text = String::new();
        text.push(self.cursor.current);
        self.next_char();
        proof {
            use_type_invariant(&*self);
        }
        text.push(self.cursor.current);
        self.next_char();
        assert(text@ =~= old(self)@.buffer.subrange(
            old(self)@.position,
            old(self)@.position + 2,
        ));
        Token::new(text, kind)
    }

    /// Reads `=`, `<` or `>`, alone or with a `=` after it.
    fn comparison(&mut self, short: TokenKind, long: TokenKind) -> (token: Token)
        requires
            old(self)@.position < old(self)@.buffer.len(),
        ensures
            took_step(
                old(self)@,
                final(self)@,
                Ok(token),
                comparison(old(self)@.buffer, old(self)@.position, short, long),
            ),
    {
        if self.peek() == '=' {
            self.double(long)
        } else {
            self.single(short)
        }
    }

    /// Reads a string literal whose opening quote is under the cursor.
    fn string_literal(&mut self) -> (result: Result<Token, LexError>)
        requires
            old(self)@.current() == '"',
        ensures
            took_step(
                old(self)@,
                final(self)@,
                result,
                string_literal(old(self)@.buffer, old(self)@.position),
            ),
    {
        let ghost buf = self@.buffer;
        let ghost start = self@.position;
        self.next_char();
        proof {
            use_type_invariant(&*self);
        }
        let mut text = String::new();
        while self.cursor.pos < self.source.len() && self.cursor.current != '"'
            invariant
                self@.well_formed(),
                self@.buffer == buf,
                self.cursor.current == self@.current(),
                0 <= start < self@.position <= buf.len(),
                quote_at(buf, self@.position) == quote_at(buf, start + 1),
                text@ == escape(buf.subrange(start + 1, self@.position)),
            decreases self@.buffer.len() - self@.position,
        {
            let c = self.cursor.current;
            if c == '%' {
                text.push('\\');
                text.push('%');
            } else if c == '\\' {
                text.push('\\');
                text.push('\\');
            } else {
                text.push(c);
            }
            proof {
                let body = buf.subrange(start + 1, self@.position + 1);
                assert(body.drop_last() =~= buf.subrange(start + 1, self@.position));
                assert(body.last() == c);
                assert(text@ =~= escape(body.drop_last()) + escape_char(c));
            }
            self.next_char();
            proof {
                use_type_invariant(&*self);
            }
        }
        if self.cursor.pos >= self.source.len() {
            Err(LexError::UnterminatedString)
        } else {
            self.next_char();
            Ok(Token::new(text, TokenKind::String))
        }
    }

    /// Reads a numeric literal: digits with at most one decimal point.
    fn number(&mut self) -> (token: Token)
        requires
            is_number_start(old(self)@.current()),
        ensures
            took_step(
                old(self)@,
                final(self)@,
                Ok(token),
                spanned(
                    old(self)@.buffer,
                    old(self)@.position,
                    number_end(old(self)@.buffer, old(self)@.position),
                    TokenKind::Number,
                ),
            ),
    {
        proof {
            use_type_invariant(&*self);
        }
        let ghost buf = self@.buffer;
        let ghost start = self@.position;
        let mut text = String::new();
        let mut seen_point = self.cursor.current == '.';
        text.push(self.cursor.current);
        assert(text@ =~= buf.subrange(start, start + 1));
        while digit(self.peek()) || (self.peek() == '.' && !seen_point)
            invariant
                self@.well_formed(),
                self@.buffer == buf,
                0 <= start <= self@.position < buf.len(),
                text@ == buf.subrange(start, self@.position + 1),
                fraction_end(buf, self@.position + 1, seen_point) == number_end(buf, start),
            decreases self@.buffer.len() - self@.position,
        {
            self.next_char();
            proof {
                use_type_invariant(&*self);
            }
            text.push(self.cursor.current);
            if self.cursor.current == '.' {
                seen_point = true;
            }
            assert(text@ =~= buf.subrange(start, self@.position + 1));
        }
        self.next_char();
        Token::new(text, TokenKind::Number)
    }

    /// Reads an identifier or keyword: a letter or underscore, then letters
    /// and digits for as long as they last.
    fn word(&mut self) -> (token: Token)
        requires
            is_word_start(old(self)@.current()),
        ensures
            took_step(
                old(self)@,
                final(self)@,
                Ok(token),
                word(old(self)@.buffer, old(self)@.position),
            ),
    {
        proof {
            use_type_invariant(&*self);
        }
        let ghost buf = self@.buffer;
        let ghost start = self@.position;
        let mut text = String::new();
        text.push(self.cursor.current);
        assert(text@ =~= buf.subrange(start, start + 1));
        while self.cursor.pos < self.source.len() - 1 && self.peek().is_alphanumeric()
            invariant
                self@.well_formed(),
                self@.buffer == buf,
                0 <= start <= self@.position < buf.len(),
                text@ == buf.subrange(start, self@.position + 1),
                word_end(buf, self@.position + 1) == word_end(buf, start + 1),
            decreases self@.buffer.len() - self@.position,
        {
            self.next_char();
            proof {
                use_type_invariant(&*self);
            }
            text.push(self.cursor.current);
            assert(text@ =~= buf.subrange(start, self@.position + 1));
        }
        self.next_char();
        Self::word_token(text)
    }

    /// The token for a word that has been read: its keyword if the word is
    /// one, an identifier with the word as written otherwise.
    pub fn word_token(text: String) -> (token: Token)
        ensures
            token@ == (TokenView { lexeme: text@, kind: word_kind(text@) }),
    {
        let kind = match Self::is_keyword(text.as_str()) {
            Some(kind) => kind,
            None => TokenKind::Identifier,
        };
        Token::new(text, kind)
    }

    /// Reads the next token: skips blanks and a comment, then classifies what
    /// follows by its first character and consumes it whole.
    ///
    /// On success the cursor rests on the first character after the token. At
    /// or past the end of the buffer the token is the end of the input, and
    /// the cursor stays where it is. A malformed operator or an unexpected
    /// character leaves the cursor on the character at fault; an unterminated
    /// string leaves it at the end of the buffer.
    pub fn get_token(&mut self) -> (result: Result<Token, LexError>)
        ensures
            took_step(old(self)@, final(self)@, result, old(self)@.scan()),
            final(self)@.well_formed(),
    {
        self.skip_whitespace();
        self.skip_comment();
        proof {
            use_type_invariant(&*self);
            lemma_token_start_bounds(old(self)@.buffer, old(self)@.position);
            lemma_token_at_bounds(self@.buffer, self@.position);
        }
        let c = self.cursor.current;
        if c == '+' {
            Ok(self.single(TokenKind::Plus))
        } else if c == '-' {
            Ok(self.single(TokenKind::Minus))
        } else if c == '*' {
            Ok(self.single(TokenKind::Asterisk))
        } else if c == '/' {
            Ok(self.single(TokenKind::Slash))
        } else if c == '\n' {
            Ok(self.single(TokenKind::Newline))
        } else if c == '\0' {
            let mut text = String::new();
            text.push(c);
            if self.cursor.pos < self.source.len() {
                self.next_char();
            }
            assert(text@ =~= seq!['\0']);
            Ok(Token::new(text, TokenKind::EndOfInput))
        } else if c == '=' {
            Ok(self.comparison(TokenKind::Assign, TokenKind::Equals))
        } else if c == '>' {
            Ok(self.comparison(TokenKind::Greater, TokenKind::GreaterEquals))
        } else if c == '<' {
            Ok(self.comparison(TokenKind::Less, TokenKind::LessEquals))
        } else if c == '!' {
            let ahead = self.peek();
            if ahead == '=' {
                Ok(self.double(TokenKind::NotEquals))
            } else {
                Err(LexError::MalformedOperator(ahead))
            }
        } else if c == '"' {
            self.string_literal()
        } else if number_start(c) {
            Ok(self.number())
        } else if word_start(c) {
            Ok(self.word())
        } else {
            Err(LexError::UnexpectedCharacter(c))
        }
    }

    /// Reads tokens until the one that marks the end of the input, which is
    /// the last of those returned, or until the first error, which is returned
    /// in place of the tokens.
    pub fn drain(&mut self) -> (result: Result<Vec<Token>, LexError>)
        ensures
            final(self)@ == old(self)@.at(old(self)@.stream().end),
            final(self)@.well_formed(),
            match result {
                Ok(tokens) => {
                    &&& old(self)@.stream().error is None
                    &&& views(tokens@) == old(self)@.stream().tokens
                },
                Err(error) => old(self)@.stream().error == Some(error),
            },
            result matches Ok(tokens) ==> {
                &&& tokens@.len() > 0
                &&& tokens@.last().kind is EndOfInput
                &&& forall|i: int| 0 <= i < tokens@.len() - 1 ==> !(tokens@[i].kind is EndOfInput)
            },
            result is Ok && old(self)@.position <= old(self)@.buffer.len() ==> {
                ||| final(self)@.position == old(self)@.buffer.len()
                ||| old(self)@.buffer[final(self)@.position - 1] == '\0'
            },
    {
        proof {
            use_type_invariant(&*self);
        }
        let ghost whole = self@.stream();
        let mut tokens: Vec<Token> = Vec::new();
        loop
            invariant
                self@.well_formed(),
                old(self)@.well_formed(),
                self@.buffer == old(self)@.buffer,
                whole == old(self)@.stream(),
                whole.tokens == views(tokens@) + self@.stream().tokens,
                whole.error == self@.stream().error,
                whole.end == self@.stream().end,
            decreases self@.buffer.len() - self@.position,
        {
            let ghost before = self@;
            let ghost read = views(tokens@);
            proof {
                lemma_scan_bounds(before.buffer, before.position);
            }
            match self.get_token() {
                Err(error) => {
                    return Err(error);
                },
                Ok(token) => {
                    let last = token.kind == TokenKind::EndOfInput;
                    let ghost view = token@;
                    tokens.push(token);
                    proof {
                        assert(views(tokens@) =~= read.push(view));
                        if last {
                            assert(read.push(view) =~= read + seq![view]);
                        } else {
                            assert(read.push(view) + self@.stream().tokens =~= read + (seq![view]
                                + self@.stream().tokens));
                        }
                    }
                    if last {
                        proof {
                            lemma_end_of_input_once_and_last(
                                old(self)@.buffer,
                                old(self)@.position,
                            );
                            assert forall|i: int| 0 <= i < tokens@.len() - 1 implies !(
                            tokens@[i].kind is EndOfInput) by {
                                assert(whole.tokens[i] == tokens@[i]@);
                            }
                            lemma_run_consumes_buffer(old(self)@);
                        }
                        return Ok(tokens);
                    }
                },
            }
        }
    }

    /// Looks a word up in the keyword table.
    pub fn is_keyword(token_text: &str) -> (kind: Option<TokenKind>)
        ensures
            kind == keyword(token_text@),
    {
        let len = token_text.unicode_len();
        if spells(token_text, len, "LABEL") {
            Some(TokenKind::Label)
        } else if spells(token_text, len, "GOTO") {
            Some(TokenKind::Goto)
        } else if spells(token_text, len, "PRINT") {
            Some(TokenKind::Print)
        } else if spells(token_text, len, "INPUT") {
            Some(TokenKind::Input)
        } else if spells(token_text, len, "LET") {
            Some(TokenKind::Let)
        } else if spells(token_text, len, "IF") {
            Some(TokenKind::If)
        } else if spells(token_text, len, "THEN") {
            Some(TokenKind::Then)
        } else if spells(token_text, len, "ENDIF") {
            Some(TokenKind::EndIf)
        } else if spells(token_text, len, "WHILE") {
            Some(TokenKind::While)
        } else if spells(token_text, len, "REPEAT") {
            Some(TokenKind::Repeat)
        } else if spells(token_text, len, "ENDWHILE") {
            Some(TokenKind::EndWhile)
        } else {
            None
        }
    }
}

} // verus!
