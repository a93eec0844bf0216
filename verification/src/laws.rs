//! Properties of whole scanning runs, proved from the model in
//! [`crate::grammar`].

use vstd::prelude::*;
use crate::grammar::{
    escape, escape_char, lemma_scan_bounds, lemma_token_runs, quote_at, scan, token_at,
    token_stream,
};
use crate::lexer::{Lexer, LexerState};
use crate::token::{TokenKind, TokenView};

verus! {

/// The number of characters that an escaped text stands for: a backslash and
/// the character it protects count as one.
pub open spec fn unescaped_len(text: Seq<char>) -> nat
    decreases text.len(),
{
    if text.len() == 0 {
        0
    } else if text.len() >= 2 && (text.last() == '%' || text.last() == '\\') {
        1 + unescaped_len(text.subrange(0, text.len() - 2))
    } else {
        1 + unescaped_len(text.drop_last())
    }
}

/// The number of buffer characters that a token stands for. A string literal
/// stands for its body and its two quotes; the end of the input, met past
/// the buffer, for none; any other token for its lexeme.
pub open spec fn source_width(token: TokenView) -> nat {
    match token.kind {
        TokenKind::EndOfInput => 0,
        TokenKind::String => unescaped_len(token.lexeme) + 2,
        _ => token.lexeme.len(),
    }
}

/// The number of buffer characters that a sequence of tokens stands for.
pub open spec fn total_width(tokens: Seq<TokenView>) -> nat
    decreases tokens.len(),
{
    if tokens.len() == 0 {
        0
    } else {
        source_width(tokens.first()) + total_width(tokens.drop_first())
    }
}

/// Escaping loses nothing: the escaped form of a text stands for as many
/// characters as the text has.
pub proof fn lemma_unescaped_len(body: Seq<char>)
    ensures
        unescaped_len(escape(body)) == body.len(),
    decreases body.len(),
{
    if body.len() > 0 {
        let front = body.drop_last();
        let c = body.last();
        let text = escape(body);
        lemma_unescaped_len(front);
        assert(text == escape(front) + escape_char(c));
        if c == '%' || c == '\\' {
            assert(text.last() == c);
            assert(text.subrange(0, text.len() - 2) =~= escape(front));
        } else {
            assert(text.last() == c);
            assert(text.drop_last() =~= escape(front));
        }
    }
}

/// A token read from a character of the buffer stands for exactly the
/// characters that reading it consumed.
pub proof fn lemma_token_width(buf: Seq<char>, start: int)
    requires
        0 <= start < buf.len(),
        buf[start] != '\0',
        token_at(buf, start).outcome is Ok,
    ensures
        token_at(buf, start).next - start == source_width(token_at(buf, start).outcome->Ok_0),
{
    lemma_token_runs(buf, start);
    if buf[start] == '"' {
        let close = quote_at(buf, start + 1);
        lemma_unescaped_len(buf.subrange(start + 1, close));
    }
}

/// The end of the input is reported once, and last: a run that ends without
/// an error ends in the one token of that kind, and a run that ends in an
/// error holds none.
pub proof fn lemma_end_of_input_once_and_last(buf: Seq<char>, pos: int)
    ensures
        ({
            let run = token_stream(buf, pos);
            &&& run.error is None ==> run.tokens.len() > 0 && run.tokens.last().kind is EndOfInput
            &&& forall|i: int|
                0 <= i < run.tokens.len() && (#[trigger] run.tokens[i]).kind is EndOfInput ==> {
                    &&& run.error is None
                    &&& i == run.tokens.len() - 1
                }
        }),
    decreases buf.len() - pos,
{
    lemma_scan_bounds(buf, pos);
    let step = scan(buf, pos);
    if let Ok(token) = step.outcome {
        if !(token.kind is EndOfInput) {
            lemma_end_of_input_once_and_last(buf, step.next);
        }
    }
}

/// Scanning to the end consumes the whole buffer, with nothing skipped and
/// nothing read twice.
///
/// A run that begins within the buffer and ends without an error stops at
/// the end of the buffer, unless a NUL that stands in the buffer was read as
/// the end of the input, in which case it stops just after that NUL. When it
/// stops at the end of the buffer, the characters that its tokens stand for,
/// together with those passed over as blanks and comments, are as many as
/// the buffer holds from the cursor on. A run that begins past the end of the
/// buffer has nothing to consume, and the cursor stays where it was.
pub proof fn lemma_run_consumes_buffer(state: LexerState)
    requires
        state.well_formed(),
        state.stream().error is None,
    ensures
        state.position <= state.stream().end,
        state.position <= state.buffer.len() ==> {
            ||| state.stream().end == state.buffer.len()
            ||| 0 < state.stream().end < state.buffer.len() && state.buffer[state.stream().end
                - 1] == '\0'
        },
        state.position <= state.buffer.len() && state.nul_free() ==> state.stream().end
            == state.buffer.len(),
        state.position > state.buffer.len() ==> state.stream().end == state.position,
        state.stream().end == state.buffer.len() ==> state.stream().skipped + total_width(
            state.stream().tokens,
        ) == state.buffer.len() - state.position,
    decreases state.buffer.len() - state.position,
{
    let buf = state.buffer;
    let pos = state.position;
    lemma_scan_bounds(buf, pos);
    let step = scan(buf, pos);
    let run = token_stream(buf, pos);
    let token = step.outcome->Ok_0;
    if token.kind is EndOfInput {
        assert(run.tokens.drop_first() =~= Seq::<TokenView>::empty());
        assert(total_width(Seq::<TokenView>::empty()) == 0);
        assert(total_width(run.tokens) == 0);
    } else {
        let rest = token_stream(buf, step.next);
        lemma_run_consumes_buffer(state.at(step.next));
        lemma_token_width(buf, step.start);
        assert(run.tokens.drop_first() =~= rest.tokens);
        assert(run.tokens.first() == token);
        assert(total_width(run.tokens) == source_width(token) + total_width(rest.tokens));
    }
}

/// Scanning depends on the source alone: two scanners built from the same
/// text and drained yield the same tokens, or stop on the same error.
pub proof fn lemma_same_source_same_tokens(a: Lexer, b: Lexer, source: Seq<char>)
    requires
        a@ == LexerState::initial(source),
        b@ == LexerState::initial(source),
    ensures
        a@.stream() == b@.stream(),
{
}

} // verus!
