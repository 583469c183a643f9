//! Properties of the scanner as a whole, stated over the model and proved.
use vstd::prelude::*;

use crate::lex::TokenKind;
use crate::model::{
    char_at, comment_end, is_blank, is_ident_start, lemma_newlines_monotone, lemma_quoted_bounds, lemma_scan_bounds,
    lex_from, newlines_before, scan_at, Lexed, Scan,
};

verus! {

/// From `p` on, the input holds only blanks and comments.
pub open spec fn trivia_from(s: Seq<char>, p: int) -> bool
    decreases s.len() - p,
{
    if p < 0 || p >= s.len() {
        true
    } else if is_blank(s[p]) {
        trivia_from(s, p + 1)
    } else if s[p] == '-' && char_at(s, p + 1) == '-' {
        let e = comment_end(s, p + 2);
        p < e <= s.len() && trivia_from(s, e)
    } else {
        false
    }
}

/// Input made only of whitespace and comments yields no token: the pull ends the
/// stream, with the cursor at the end of the input.
pub proof fn lemma_trivia_ends_stream(s: Seq<char>, p: int)
    requires
        0 <= p <= s.len(),
        trivia_from(s, p),
    ensures
        lex_from(s, p) == (Lexed::End { at: s.len() as int }),
    decreases s.len() - p,
{
    if p < s.len() {
        lemma_scan_bounds(s, p);
        let e = if is_blank(s[p]) {
            p + 1
        } else {
            comment_end(s, p + 2)
        };
        assert(scan_at(s, p) == (Scan::Skip { end: e }));
        lemma_trivia_ends_stream(s, e);
    }
}

/// The spellings of the operators and punctuation of the language, by kind.
/// Punctuation carries an empty lexeme.
pub open spec fn operator_spelling(kind: TokenKind, w: Seq<char>) -> bool {
    match kind {
        TokenKind::Arithmetic => w == seq!['-'] || w == seq!['/'] || w == seq!['/', '/'] || w
            == seq!['~'] || w == seq!['+'] || w == seq!['*'] || w == seq!['%'] || w == seq![
            '.',
            '.',
        ],
        TokenKind::Infix => w == seq!['-', '='] || w == seq!['/', '='] || w == seq!['+', '=']
            || w == seq!['*', '='] || w == seq!['%', '='],
        TokenKind::Arrow => w == seq!['-', '>'] || w == seq!['=', '>'],
        TokenKind::Equal => w == seq!['='],
        TokenKind::Comparison => w == seq!['=', '='] || w == seq!['<'] || w == seq!['>'] || w
            == seq!['<', '='] || w == seq!['>', '='] || w == seq!['~', '='],
        TokenKind::Period => w == seq!['.'],
        TokenKind::Dots => w == seq!['.', '.', '.'],
        TokenKind::LeftBrace | TokenKind::RightBrace | TokenKind::LeftBracket
        | TokenKind::RightBracket | TokenKind::LeftParen | TokenKind::RightParen
        | TokenKind::Comma | TokenKind::Bang => w.len() == 0,
        _ => false,
    }
}

/// Every token that does not start with a letter or underscore and is not a
/// number or a string is an operator or punctuation token, and its lexeme is
/// exactly one of the spellings of that kind.
pub proof fn lemma_operator_lexemes(s: Seq<char>, p: int)
    requires
        0 <= p <= s.len(),
    ensures
        match lex_from(s, p) {
            Lexed::Token { start, kind, lexeme, .. } => is_ident_start(char_at(s, start)) || kind
                == TokenKind::String || kind == TokenKind::Number || operator_spelling(
                kind,
                lexeme,
            ),
            _ => true,
        },
    decreases s.len() - p,
{
    if p < s.len() {
        lemma_scan_bounds(s, p);
        match scan_at(s, p) {
            Scan::Skip { end } => {
                lemma_operator_lexemes(s, end);
            },
            Scan::Emit { .. } => {
                if s[p] == '"' {
                    lemma_quoted_bounds(s, p + 1, seq![]);
                }
            },
            _ => {},
        }
    }
}

/// Tokens come in source order and report the line on which they start: a pull
/// from `p` yields a token that starts at or after `p` and ends after its start,
/// so its line is at least the line at `p`, and the line after it is at least
/// its own. A failed or ended pull leaves the cursor inside the input, at or
/// after `p`.
pub proof fn lemma_token_order(s: Seq<char>, p: int)
    requires
        0 <= p <= s.len(),
    ensures
        match lex_from(s, p) {
            Lexed::Token { start, end, .. } => {
                &&& p <= start < end <= s.len()
                &&& newlines_before(s, p) <= newlines_before(s, start) <= newlines_before(s, end)
            },
            Lexed::Failed { end, .. } => p < end <= s.len(),
            Lexed::End { at } => p <= at <= s.len(),
        },
    decreases s.len() - p,
{
    if p < s.len() {
        lemma_scan_bounds(s, p);
        match scan_at(s, p) {
            Scan::Skip { end } => {
                lemma_token_order(s, end);
                if let Lexed::Token { start, .. } = lex_from(s, end) {
                    lemma_newlines_monotone(s, p, start);
                }
            },
            Scan::Emit { end, .. } => {
                lemma_newlines_monotone(s, p, end);
            },
            _ => {},
        }
    }
}

/// Once a pull ends the stream, every later pull ends it again, at the same place.
pub proof fn lemma_end_stays(s: Seq<char>, p: int)
    requires
        0 <= p <= s.len(),
    ensures
        lex_from(s, p) matches Lexed::End { at } ==> lex_from(s, at) == (Lexed::End { at }),
    decreases s.len() - p,
{
    if p < s.len() {
        lemma_scan_bounds(s, p);
        if let Scan::Skip { end } = scan_at(s, p) {
            lemma_end_stays(s, end);
        }
    }
}

} // verus!
