use moonscript::lex;
use moonscript::lex::{LexError, LexState, Token, TokenKind};

fn start(text: &str) -> LexState {
    lex::init(text.to_string()).unwrap()
}

fn kinds_and_lexemes(text: &str) -> Vec<(TokenKind, String)> {
    let mut state = start(text);
    let mut out = Vec::new();
    while let Ok(token) = lex::lex(&mut state) {
        out.push((token.kind, token.lexeme));
    }
    out
}

#[test]
fn shebang() {
    let state = lex::init("#!/usr/bin/env moon".to_string()).unwrap();
    assert_eq!(state.position, 19);
}

#[test]
fn empty_file() {
    let state = lex::init("".to_string());
    assert!(state.is_none());
}

#[test]
fn open_bracket() {
    let mut state = lex::init("[[hello]]".to_string()).unwrap();
    let token = lex::lex(&mut state).unwrap();
    assert_eq!(token.kind, lex::TokenKind::String);
    assert_eq!(token.lexeme, "hello");
}

#[test]
fn open_bracket_with_separators() {
    let mut state = lex::init("[=[hello]=]".to_string()).unwrap();
    let token = lex::lex(&mut state).unwrap();
    assert_eq!(token.kind, lex::TokenKind::String);
    assert_eq!(token.lexeme, "hello");
}

#[test]
fn open_bracket_with_separators_and_newlines() {
    let mut state = lex::init("[=[hello\nworld]=]".to_string()).unwrap();
    let token = lex::lex(&mut state).unwrap();
    assert_eq!(token.kind, lex::TokenKind::String);
    assert_eq!(token.lexeme, "hello\nworld");
}

#[test]
fn test_and_or_not_arithmetic() {
    let mut state = lex::init("and or not + - * / %".to_string()).unwrap();
    let token = lex::lex(&mut state).unwrap();
    assert_eq!(token.kind, lex::TokenKind::Arithmetic);
    let token = lex::lex(&mut state).unwrap();
    assert_eq!(token.kind, lex::TokenKind::Arithmetic);
    let token = lex::lex(&mut state).unwrap();
    assert_eq!(token.kind, lex::TokenKind::Arithmetic);
    let token = lex::lex(&mut state).unwrap();
    assert_eq!(token.kind, lex::TokenKind::Arithmetic);
    let token = lex::lex(&mut state).unwrap();
    assert_eq!(token.kind, lex::TokenKind::Arithmetic);
    let token = lex::lex(&mut state).unwrap();
    assert_eq!(token.kind, lex::TokenKind::Arithmetic);
    let token = lex::lex(&mut state).unwrap();
    assert_eq!(token.kind, lex::TokenKind::Arithmetic);
    let token = lex::lex(&mut state).unwrap();
    assert_eq!(token.kind, lex::TokenKind::Arithmetic);
}

#[test]
fn test_strings() {
    let mut state = lex::init("\"hello\"".to_string()).unwrap();
    let token = lex::lex(&mut state).unwrap();
    assert_eq!(token.kind, lex::TokenKind::String);
    assert_eq!(token.lexeme, "hello");
}

#[test]
fn test_strings_with_escapes() {
    let mut state = lex::init("\"hello\\nworld\"".to_string()).unwrap();
    let token = lex::lex(&mut state).unwrap();
    assert_eq!(token.kind, lex::TokenKind::String);
    assert_eq!(token.lexeme, "hello\nworld");
}

#[test]
fn whitespace_and_comments_end_the_stream() {
    let mut state = start("  \t\r\n-- a line comment\n--[[ a long\n comment ]] \n--[==[ x ]] ]==]\n");
    assert_eq!(lex::lex(&mut state).unwrap_err(), LexError::EndOfStream);
    assert_eq!(state.position, state.input.len());
    assert_eq!(state.line, 5);
}

#[test]
fn shebang_then_end_of_stream() {
    let mut state = start("#!/usr/bin/env moon");
    assert_eq!(lex::lex(&mut state).unwrap_err(), LexError::EndOfStream);
}

#[test]
fn shebang_keeps_following_lines() {
    let mut state = start("#!/usr/bin/env moon\nx");
    assert_eq!(state.position, 19);
    let token = lex::lex(&mut state).unwrap();
    assert_eq!(token.kind, TokenKind::Identifier);
    assert_eq!(token.lexeme, "x");
    assert_eq!(token.line, 1);
}

#[test]
fn hash_without_bang_is_not_skipped() {
    let state = start("#x");
    assert_eq!(state.position, 0);
}

#[test]
fn bracket_without_level_is_punctuation() {
    let tokens = kinds_and_lexemes("[1,2]");
    let expected = vec![
        (TokenKind::LeftBracket, String::new()),
        (TokenKind::Number, "1".to_string()),
        (TokenKind::Comma, String::new()),
        (TokenKind::Number, "2".to_string()),
        (TokenKind::RightBracket, String::new()),
    ];
    assert_eq!(tokens, expected);
}

#[test]
fn failed_long_bracket_rewinds_to_the_equals() {
    let mut state = start("[==x");
    let token = lex::lex(&mut state).unwrap();
    assert_eq!(token.kind, TokenKind::LeftBracket);
    assert_eq!(state.position, 1);
    let token = lex::lex(&mut state).unwrap();
    assert_eq!((token.kind, token.lexeme), (TokenKind::Comparison, "==".to_string()));
    let token = lex::lex(&mut state).unwrap();
    assert_eq!((token.kind, token.lexeme), (TokenKind::Identifier, "x".to_string()));
}

#[test]
fn operators_and_punctuation() {
    let tokens = kinds_and_lexemes("- -= -> = == => < > <= >= / // /= ~ ~= + += * *= % %= . .. ... , ! != { } ( ) ]");
    let expected: Vec<(TokenKind, &str)> = vec![
        (TokenKind::Arithmetic, "-"),
        (TokenKind::Infix, "-="),
        (TokenKind::Arrow, "->"),
        (TokenKind::Equal, "="),
        (TokenKind::Comparison, "=="),
        (TokenKind::Arrow, "=>"),
        (TokenKind::Comparison, "<"),
        (TokenKind::Comparison, ">"),
        (TokenKind::Comparison, "<="),
        (TokenKind::Comparison, ">="),
        (TokenKind::Arithmetic, "/"),
        (TokenKind::Arithmetic, "//"),
        (TokenKind::Infix, "/="),
        (TokenKind::Arithmetic, "~"),
        (TokenKind::Comparison, "~="),
        (TokenKind::Arithmetic, "+"),
        (TokenKind::Infix, "+="),
        (TokenKind::Arithmetic, "*"),
        (TokenKind::Infix, "*="),
        (TokenKind::Arithmetic, "%"),
        (TokenKind::Infix, "%="),
        (TokenKind::Period, "."),
        (TokenKind::Arithmetic, ".."),
        (TokenKind::Dots, "..."),
        (TokenKind::Comma, ""),
        (TokenKind::Bang, ""),
        (TokenKind::Comparison, "~="),
        (TokenKind::LeftBrace, ""),
        (TokenKind::RightBrace, ""),
        (TokenKind::LeftParen, ""),
        (TokenKind::RightParen, ""),
        (TokenKind::RightBracket, ""),
    ];
    let expected: Vec<(TokenKind, String)> =
        expected.into_iter().map(|(k, t)| (k, t.to_string())).collect();
    assert_eq!(tokens, expected);
}

#[test]
fn tokens_report_their_starting_line() {
    let mut state = start("a\nb\n[[x\ny]] c\n\"s\"");
    let lines: Vec<usize> = (0..5).map(|_| lex::lex(&mut state).unwrap().line).collect();
    assert_eq!(lines, vec![0, 1, 2, 3, 4]);
    assert_eq!(state.line, 4);
}

#[test]
fn unterminated_long_string() {
    let mut state = start("[[abc");
    assert_eq!(lex::lex(&mut state).unwrap_err(), LexError::UnterminatedLongBracket);
    assert_eq!(state.position, 5);
}

#[test]
fn long_string_with_other_level_inside() {
    let mut state = start("[=[a]]b]==]c]=]");
    let token = lex::lex(&mut state).unwrap();
    assert_eq!(token.lexeme, "a]]b]==]c");
}

#[test]
fn unterminated_quoted_string() {
    let mut state = start("\"abc");
    assert_eq!(lex::lex(&mut state).unwrap_err(), LexError::UnterminatedQuotedString);
    let mut state = start("\"ab\ncd\"");
    assert_eq!(lex::lex(&mut state).unwrap_err(), LexError::UnterminatedQuotedString);
    assert_eq!(state.position, 3);
}

#[test]
fn quoted_string_escapes() {
    let mut state = start("\"a\\tb\\\\c\\\"d\\q\"");
    let token = lex::lex(&mut state).unwrap();
    assert_eq!(token.kind, TokenKind::String);
    assert_eq!(token.lexeme, "a\tb\\c\"d\\q");
}

#[test]
fn numbers() {
    let tokens = kinds_and_lexemes("3.14 42 1..2");
    let expected = vec![
        (TokenKind::Number, "3.14".to_string()),
        (TokenKind::Number, "42".to_string()),
        (TokenKind::Number, "1".to_string()),
        (TokenKind::Arithmetic, "..".to_string()),
        (TokenKind::Number, "2".to_string()),
    ];
    assert_eq!(tokens, expected);
}

#[test]
fn words_and_infix_quirk() {
    let tokens = kinds_and_lexemes("and= android x= nothing");
    let expected = vec![
        (TokenKind::Infix, "and=".to_string()),
        (TokenKind::Identifier, "android".to_string()),
        (TokenKind::Identifier, "x".to_string()),
        (TokenKind::Equal, "=".to_string()),
        (TokenKind::Identifier, "nothing".to_string()),
    ];
    assert_eq!(tokens, expected);
}

#[test]
fn identifiers_continue_with_unicode_alphanumerics() {
    let tokens = kinds_and_lexemes("caf\u{e9}_2 x");
    assert_eq!(tokens[0], (TokenKind::Identifier, "caf\u{e9}_2".to_string()));
    assert_eq!(tokens[1], (TokenKind::Identifier, "x".to_string()));
}

#[test]
fn unknown_character_ends_the_stream_in_place() {
    let mut state = start("  @ x");
    assert_eq!(lex::lex(&mut state).unwrap_err(), LexError::EndOfStream);
    assert_eq!(state.position, 2);
    assert_eq!(lex::lex(&mut state).unwrap_err(), LexError::EndOfStream);
    assert_eq!(state.position, 2);
}

#[test]
fn end_of_stream_stays() {
    let mut state = start("x");
    assert!(lex::lex(&mut state).is_ok());
    assert_eq!(lex::lex(&mut state).unwrap_err(), LexError::EndOfStream);
    assert_eq!(lex::lex(&mut state).unwrap_err(), LexError::EndOfStream);
}

#[test]
fn failed_long_comment_is_a_line_comment() {
    let mut state = start("--[=x\ny");
    let token = lex::lex(&mut state).unwrap();
    assert_eq!((token.kind, token.lexeme, token.line), (TokenKind::Identifier, "y".to_string(), 1));
}

#[test]
fn new_state_and_token() {
    let state = LexState::new("ab\u{e9}".to_string());
    assert_eq!(state.input, vec!['a', 'b', '\u{e9}']);
    assert_eq!((state.position, state.line, state.current), (0, 0, 'a'));
    let token = Token::new(TokenKind::Comma, 7);
    assert_eq!((token.kind, token.lexeme, token.line), (TokenKind::Comma, String::new(), 7));
}
