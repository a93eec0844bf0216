use teeny_lexer::{LexError, Lexer, Token, TokenKind};

fn token(lexeme: &str, kind: TokenKind) -> Token {
    Token::new(lexeme.to_string(), kind)
}

fn scan_all(source: &str) -> Result<Vec<Token>, LexError> {
    Lexer::new(source.to_string()).drain()
}

fn first(source: &str) -> Result<Token, LexError> {
    Lexer::new(source.to_string()).get_token()
}

#[test]
fn let_statement() {
    assert_eq!(
        scan_all("LET x = 5"),
        Ok(vec![
            token("LET", TokenKind::Let),
            token("x", TokenKind::Identifier),
            token("=", TokenKind::Assign),
            token("5", TokenKind::Number),
            token("\n", TokenKind::Newline),
            token("\0", TokenKind::EndOfInput),
        ])
    );
}

#[test]
fn let_statement_with_its_own_newline() {
    // The newline of the source is read first, then the one the scanner appends.
    assert_eq!(
        scan_all("LET x = 5\n"),
        Ok(vec![
            token("LET", TokenKind::Let),
            token("x", TokenKind::Identifier),
            token("=", TokenKind::Assign),
            token("5", TokenKind::Number),
            token("\n", TokenKind::Newline),
            token("\n", TokenKind::Newline),
            token("\0", TokenKind::EndOfInput),
        ])
    );
}

#[test]
fn let_statement_token_by_token() {
    let mut lexer = Lexer::new("LET x = 5".to_string());
    assert_eq!(lexer.get_token(), Ok(token("LET", TokenKind::Let)));
    assert_eq!(lexer.position(), 3);
    assert_eq!(lexer.get_token(), Ok(token("x", TokenKind::Identifier)));
    assert_eq!(lexer.position(), 5);
    assert_eq!(lexer.get_token(), Ok(token("=", TokenKind::Assign)));
    assert_eq!(lexer.position(), 7);
    assert_eq!(lexer.get_token(), Ok(token("5", TokenKind::Number)));
    assert_eq!(lexer.position(), 9);
    assert_eq!(lexer.get_token(), Ok(token("\n", TokenKind::Newline)));
    assert_eq!(lexer.position(), 10);
    assert_eq!(lexer.get_token(), Ok(token("\0", TokenKind::EndOfInput)));
    assert_eq!(lexer.position(), 10);
}

#[test]
fn greater_equals_is_one_token() {
    assert_eq!(
        scan_all(">="),
        Ok(vec![
            token(">=", TokenKind::GreaterEquals),
            token("\n", TokenKind::Newline),
            token("\0", TokenKind::EndOfInput),
        ])
    );
}

#[test]
fn second_point_starts_a_new_number() {
    assert_eq!(
        scan_all("3.14.5"),
        Ok(vec![
            token("3.14", TokenKind::Number),
            token(".5", TokenKind::Number),
            token("\n", TokenKind::Newline),
            token("\0", TokenKind::EndOfInput),
        ])
    );
}

#[test]
fn comment_is_suppressed() {
    assert_eq!(
        scan_all("# comment\nPRINT 1"),
        Ok(vec![
            token("\n", TokenKind::Newline),
            token("PRINT", TokenKind::Print),
            token("1", TokenKind::Number),
            token("\n", TokenKind::Newline),
            token("\0", TokenKind::EndOfInput),
        ])
    );
}

#[test]
fn comment_is_suppressed_in_a_source_with_its_own_newline() {
    assert_eq!(
        scan_all("# comment\nPRINT 1\n"),
        Ok(vec![
            token("\n", TokenKind::Newline),
            token("PRINT", TokenKind::Print),
            token("1", TokenKind::Number),
            token("\n", TokenKind::Newline),
            token("\n", TokenKind::Newline),
            token("\0", TokenKind::EndOfInput),
        ])
    );
}

#[test]
fn comment_after_code_and_blanks() {
    assert_eq!(
        scan_all("GOTO top \t# jump back # again\nx"),
        Ok(vec![
            token("GOTO", TokenKind::Goto),
            token("top", TokenKind::Identifier),
            token("\n", TokenKind::Newline),
            token("x", TokenKind::Identifier),
            token("\n", TokenKind::Newline),
            token("\0", TokenKind::EndOfInput),
        ])
    );
}

#[test]
fn comment_on_the_last_line() {
    assert_eq!(
        scan_all("#"),
        Ok(vec![token("\n", TokenKind::Newline), token("\0", TokenKind::EndOfInput)])
    );
}

#[test]
fn percent_in_string_is_escaped() {
    assert_eq!(first("\"100%\""), Ok(token("100\\%", TokenKind::String)));
}

#[test]
fn backslash_in_string_is_escaped() {
    assert_eq!(first("\"a\\b\""), Ok(token("a\\\\b", TokenKind::String)));
    assert_eq!(first("\"\\n\""), Ok(token("\\\\n", TokenKind::String)));
    assert_eq!(first("\"\\%\""), Ok(token("\\\\\\%", TokenKind::String)));
}

#[test]
fn string_keeps_everything_else_verbatim() {
    assert_eq!(first("\"\""), Ok(token("", TokenKind::String)));
    assert_eq!(
        first("\"LET x = 5 # no comment\ttab\""),
        Ok(token("LET x = 5 # no comment\ttab", TokenKind::String))
    );
    assert_eq!(first("\"two\nlines\""), Ok(token("two\nlines", TokenKind::String)));
    assert_eq!(first("\"nul\0inside\""), Ok(token("nul\0inside", TokenKind::String)));
}

#[test]
fn string_consumes_both_quotes() {
    let mut lexer = Lexer::new("\"ab\"+".to_string());
    assert_eq!(lexer.get_token(), Ok(token("ab", TokenKind::String)));
    assert_eq!(lexer.position(), 4);
    assert_eq!(lexer.current_char(), '+');
    assert_eq!(lexer.get_token(), Ok(token("+", TokenKind::Plus)));
}

#[test]
fn bare_bang_is_malformed() {
    assert_eq!(first("!"), Err(LexError::MalformedOperator('\n')));
    assert_eq!(first("!x"), Err(LexError::MalformedOperator('x')));
    assert_eq!(first("! ="), Err(LexError::MalformedOperator(' ')));
    assert_eq!(scan_all("1 ! 2"), Err(LexError::MalformedOperator(' ')));
}

#[test]
fn not_equals() {
    assert_eq!(first("!="), Ok(token("!=", TokenKind::NotEquals)));
    assert_eq!(
        scan_all("a!=b"),
        Ok(vec![
            token("a", TokenKind::Identifier),
            token("!=", TokenKind::NotEquals),
            token("b", TokenKind::Identifier),
            token("\n", TokenKind::Newline),
            token("\0", TokenKind::EndOfInput),
        ])
    );
}

#[test]
fn unexpected_character() {
    assert_eq!(first("@"), Err(LexError::UnexpectedCharacter('@')));
    assert_eq!(first("  $x"), Err(LexError::UnexpectedCharacter('$')));
    assert_eq!(first("\u{e9}t\u{e9}"), Err(LexError::UnexpectedCharacter('\u{e9}')));
    assert_eq!(scan_all("LET x = 5;"), Err(LexError::UnexpectedCharacter(';')));
    assert_eq!(first("%"), Err(LexError::UnexpectedCharacter('%')));
    assert_eq!(first("\\"), Err(LexError::UnexpectedCharacter('\\')));
}

#[test]
fn unterminated_string() {
    assert_eq!(first("\"abc"), Err(LexError::UnterminatedString));
    assert_eq!(first("\""), Err(LexError::UnterminatedString));
    assert_eq!(scan_all("PRINT \"hello"), Err(LexError::UnterminatedString));
}

#[test]
fn cursor_rests_on_the_character_at_fault() {
    let mut lexer = Lexer::new("  @".to_string());
    assert_eq!(lexer.get_token(), Err(LexError::UnexpectedCharacter('@')));
    assert_eq!(lexer.position(), 2);
    assert_eq!(lexer.get_token(), Err(LexError::UnexpectedCharacter('@')));

    let mut lexer = Lexer::new("!a".to_string());
    assert_eq!(lexer.get_token(), Err(LexError::MalformedOperator('a')));
    assert_eq!(lexer.position(), 0);

    let mut lexer = Lexer::new("\"abc".to_string());
    assert_eq!(lexer.get_token(), Err(LexError::UnterminatedString));
    assert_eq!(lexer.position(), 5);
    assert_eq!(lexer.get_token(), Ok(token("\0", TokenKind::EndOfInput)));
}

#[test]
fn single_character_operators() {
    assert_eq!(
        scan_all("+-*/"),
        Ok(vec![
            token("+", TokenKind::Plus),
            token("-", TokenKind::Minus),
            token("*", TokenKind::Asterisk),
            token("/", TokenKind::Slash),
            token("\n", TokenKind::Newline),
            token("\0", TokenKind::EndOfInput),
        ])
    );
}

#[test]
fn comparison_operators() {
    assert_eq!(
        scan_all("= == < <= > >="),
        Ok(vec![
            token("=", TokenKind::Assign),
            token("==", TokenKind::Equals),
            token("<", TokenKind::Less),
            token("<=", TokenKind::LessEquals),
            token(">", TokenKind::Greater),
            token(">=", TokenKind::GreaterEquals),
            token("\n", TokenKind::Newline),
            token("\0", TokenKind::EndOfInput),
        ])
    );
}

#[test]
fn operators_take_at_most_two_characters() {
    assert_eq!(
        scan_all("===>=<"),
        Ok(vec![
            token("==", TokenKind::Equals),
            token("=", TokenKind::Assign),
            token(">=", TokenKind::GreaterEquals),
            token("<", TokenKind::Less),
            token("\n", TokenKind::Newline),
            token("\0", TokenKind::EndOfInput),
        ])
    );
}

#[test]
fn numbers() {
    assert_eq!(first("0"), Ok(token("0", TokenKind::Number)));
    assert_eq!(first("123"), Ok(token("123", TokenKind::Number)));
    assert_eq!(first("3.14"), Ok(token("3.14", TokenKind::Number)));
    assert_eq!(first("7."), Ok(token("7.", TokenKind::Number)));
    assert_eq!(first(".5"), Ok(token(".5", TokenKind::Number)));
    assert_eq!(first("."), Ok(token(".", TokenKind::Number)));
    assert_eq!(first("12abc"), Ok(token("12", TokenKind::Number)));
}

#[test]
fn a_number_holds_one_point() {
    assert_eq!(
        scan_all("1..2"),
        Ok(vec![
            token("1.", TokenKind::Number),
            token(".2", TokenKind::Number),
            token("\n", TokenKind::Newline),
            token("\0", TokenKind::EndOfInput),
        ])
    );
    assert_eq!(
        scan_all("..."),
        Ok(vec![
            token(".", TokenKind::Number),
            token(".", TokenKind::Number),
            token(".", TokenKind::Number),
            token("\n", TokenKind::Newline),
            token("\0", TokenKind::EndOfInput),
        ])
    );
}

#[test]
fn only_ascii_digits_make_a_number() {
    // An Arabic-Indic digit is numeric, but it neither starts nor continues a number.
    assert_eq!(first("\u{663}"), Err(LexError::UnexpectedCharacter('\u{663}')));
    assert_eq!(first("1\u{663}"), Ok(token("1", TokenKind::Number)));
}

#[test]
fn every_keyword() {
    assert_eq!(first("LABEL"), Ok(token("LABEL", TokenKind::Label)));
    assert_eq!(first("GOTO"), Ok(token("GOTO", TokenKind::Goto)));
    assert_eq!(first("PRINT"), Ok(token("PRINT", TokenKind::Print)));
    assert_eq!(first("INPUT"), Ok(token("INPUT", TokenKind::Input)));
    assert_eq!(first("LET"), Ok(token("LET", TokenKind::Let)));
    assert_eq!(first("IF"), Ok(token("IF", TokenKind::If)));
    assert_eq!(first("THEN"), Ok(token("THEN", TokenKind::Then)));
    assert_eq!(first("ENDIF"), Ok(token("ENDIF", TokenKind::EndIf)));
    assert_eq!(first("WHILE"), Ok(token("WHILE", TokenKind::While)));
    assert_eq!(first("REPEAT"), Ok(token("REPEAT", TokenKind::Repeat)));
    assert_eq!(first("ENDWHILE"), Ok(token("ENDWHILE", TokenKind::EndWhile)));
}

#[test]
fn keywords_are_upper_case_and_whole_words() {
    assert_eq!(first("let"), Ok(token("let", TokenKind::Identifier)));
    assert_eq!(first("Let"), Ok(token("Let", TokenKind::Identifier)));
    assert_eq!(first("LETTER"), Ok(token("LETTER", TokenKind::Identifier)));
    assert_eq!(first("END"), Ok(token("END", TokenKind::Identifier)));
    assert_eq!(first("IF1"), Ok(token("IF1", TokenKind::Identifier)));
    assert_eq!(first("ENDWHILEX"), Ok(token("ENDWHILEX", TokenKind::Identifier)));
}

#[test]
fn identifiers() {
    assert_eq!(first("x"), Ok(token("x", TokenKind::Identifier)));
    assert_eq!(first("fooBar42"), Ok(token("fooBar42", TokenKind::Identifier)));
    assert_eq!(first("_"), Ok(token("_", TokenKind::Identifier)));
    assert_eq!(first("_tmp1"), Ok(token("_tmp1", TokenKind::Identifier)));
    assert_eq!(first("a1b2 c"), Ok(token("a1b2", TokenKind::Identifier)));
}

#[test]
fn underscore_starts_a_word_and_does_not_continue_one() {
    assert_eq!(
        scan_all("foo_bar"),
        Ok(vec![
            token("foo", TokenKind::Identifier),
            token("_bar", TokenKind::Identifier),
            token("\n", TokenKind::Newline),
            token("\0", TokenKind::EndOfInput),
        ])
    );
}

#[test]
fn a_word_goes_on_with_any_letter_or_digit() {
    assert_eq!(first("caf\u{e9}"), Ok(token("caf\u{e9}", TokenKind::Identifier)));
    assert_eq!(first("x\u{663}y"), Ok(token("x\u{663}y", TokenKind::Identifier)));
    assert_eq!(first("n\u{85cf} "), Ok(token("n\u{85cf}", TokenKind::Identifier)));
    assert_eq!(first("a\u{2014}b"), Ok(token("a", TokenKind::Identifier)));
    assert_eq!(first("LET\u{e9}"), Ok(token("LET\u{e9}", TokenKind::Identifier)));
}

#[test]
fn blanks_are_skipped_and_newlines_are_not() {
    assert_eq!(
        scan_all(" \t\r+ \r\n\t-"),
        Ok(vec![
            token("+", TokenKind::Plus),
            token("\n", TokenKind::Newline),
            token("-", TokenKind::Minus),
            token("\n", TokenKind::Newline),
            token("\0", TokenKind::EndOfInput),
        ])
    );
}

#[test]
fn empty_source() {
    assert_eq!(
        scan_all(""),
        Ok(vec![token("\n", TokenKind::Newline), token("\0", TokenKind::EndOfInput)])
    );
    assert_eq!(
        scan_all("   "),
        Ok(vec![token("\n", TokenKind::Newline), token("\0", TokenKind::EndOfInput)])
    );
}

#[test]
fn a_nul_in_the_source_ends_the_input() {
    let mut lexer = Lexer::new("a\0b".to_string());
    assert_eq!(lexer.get_token(), Ok(token("a", TokenKind::Identifier)));
    assert_eq!(lexer.get_token(), Ok(token("\0", TokenKind::EndOfInput)));
    assert_eq!(lexer.position(), 2);
    assert_eq!(lexer.get_token(), Ok(token("b", TokenKind::Identifier)));
    assert_eq!(
        scan_all("a\0b"),
        Ok(vec![token("a", TokenKind::Identifier), token("\0", TokenKind::EndOfInput)])
    );
}

#[test]
fn a_small_program() {
    let source = "PRINT \"How many?\"\nINPUT n\nWHILE n > 0 REPEAT\n  LET n = n - 1\nENDWHILE";
    let kinds: Vec<TokenKind> = scan_all(source).unwrap().iter().map(|t| t.kind).collect();
    assert_eq!(
        kinds,
        vec![
            TokenKind::Print,
            TokenKind::String,
            TokenKind::Newline,
            TokenKind::Input,
            TokenKind::Identifier,
            TokenKind::Newline,
            TokenKind::While,
            TokenKind::Identifier,
            TokenKind::Greater,
            TokenKind::Number,
            TokenKind::Repeat,
            TokenKind::Newline,
            TokenKind::Let,
            TokenKind::Identifier,
            TokenKind::Assign,
            TokenKind::Identifier,
            TokenKind::Minus,
            TokenKind::Number,
            TokenKind::Newline,
            TokenKind::EndWhile,
            TokenKind::Newline,
            TokenKind::EndOfInput,
        ]
    );
}

#[test]
fn keyword_table() {
    assert_eq!(Lexer::is_keyword("LABEL"), Some(TokenKind::Label));
    assert_eq!(Lexer::is_keyword("GOTO"), Some(TokenKind::Goto));
    assert_eq!(Lexer::is_keyword("PRINT"), Some(TokenKind::Print));
    assert_eq!(Lexer::is_keyword("INPUT"), Some(TokenKind::Input));
    assert_eq!(Lexer::is_keyword("LET"), Some(TokenKind::Let));
    assert_eq!(Lexer::is_keyword("IF"), Some(TokenKind::If));
    assert_eq!(Lexer::is_keyword("THEN"), Some(TokenKind::Then));
    assert_eq!(Lexer::is_keyword("ENDIF"), Some(TokenKind::EndIf));
    assert_eq!(Lexer::is_keyword("WHILE"), Some(TokenKind::While));
    assert_eq!(Lexer::is_keyword("REPEAT"), Some(TokenKind::Repeat));
    assert_eq!(Lexer::is_keyword("ENDWHILE"), Some(TokenKind::EndWhile));
    assert_eq!(Lexer::is_keyword(""), None);
    assert_eq!(Lexer::is_keyword("label"), None);
    assert_eq!(Lexer::is_keyword("LABEL "), None);
    assert_eq!(Lexer::is_keyword("LABE"), None);
    assert_eq!(Lexer::is_keyword("x"), None);
}

#[test]
fn word_tokens() {
    assert_eq!(Lexer::word_token("WHILE".to_string()), token("WHILE", TokenKind::While));
    assert_eq!(Lexer::word_token("while".to_string()), token("while", TokenKind::Identifier));
    assert_eq!(Lexer::word_token("n".to_string()), token("n", TokenKind::Identifier));
}

#[test]
fn error_messages() {
    assert_eq!(LexError::UnexpectedCharacter('@').message(), "unknown token: @");
    assert_eq!(LexError::MalformedOperator('x').message(), "Expected !=, got !x");
    assert_eq!(LexError::UnterminatedString.message(), "unterminated string literal");
}
