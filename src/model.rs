//! The mathematical description of the scanner: what one scanning step does at a
//! position of the input, and what a pull of the next token returns.
use vstd::prelude::*;

use crate::lex::{LexError, TokenKind};

verus! {

/// The character at index `i`, or the end marker `'\0'` outside the input.
pub open spec fn char_at(s: Seq<char>, i: int) -> char {
    if 0 <= i < s.len() {
        s[i]
    } else {
        '\0'
    }
}

/// The number of newline characters among the first `n` characters of `s`.
pub open spec fn newlines_before(s: Seq<char>, n: int) -> nat
    decreases n,
{
    if n <= 0 {
        0
    } else {
        newlines_before(s, n - 1) + if char_at(s, n - 1) == '\n' {
            1nat
        } else {
            0nat
        }
    }
}

pub proof fn lemma_newlines_bounded(s: Seq<char>, n: int)
    requires
        0 <= n,
    ensures
        newlines_before(s, n) <= n,
    decreases n,
{
    if n > 0 {
        lemma_newlines_bounded(s, n - 1);
    }
}

/// What `char::is_alphanumeric` says of a character.
pub uninterp spec fn alphanumeric(c: char) -> bool;

pub open spec fn is_blank(c: char) -> bool {
    c == ' ' || c == '\t' || c == '\r' || c == '\n'
}

pub open spec fn is_digit(c: char) -> bool {
    '0' <= c <= '9'
}

/// A character that may begin a plain identifier.
pub open spec fn is_ident_start(c: char) -> bool {
    ('a' <= c <= 'z') || ('A' <= c <= 'Z') || c == '_'
}

/// A character that may continue an identifier.
pub open spec fn is_ident_char(c: char) -> bool {
    alphanumeric(c) || c == '_'
}

/// The end of the run of identifier characters that starts at `q`.
pub open spec fn ident_end(s: Seq<char>, q: int) -> int
    decreases s.len() - q,
{
    if 0 <= q < s.len() && is_ident_char(s[q]) {
        ident_end(s, q + 1)
    } else {
        q
    }
}

/// The end of the run of decimal digits that starts at `q`.
pub open spec fn digit_end(s: Seq<char>, q: int) -> int
    decreases s.len() - q,
{
    if 0 <= q < s.len() && is_digit(s[q]) {
        digit_end(s, q + 1)
    } else {
        q
    }
}

pub proof fn lemma_digit_end_bounds(s: Seq<char>, q: int)
    requires
        0 <= q <= s.len(),
    ensures
        q <= digit_end(s, q) <= s.len(),
    decreases s.len() - q,
{
    if q < s.len() && is_digit(s[q]) {
        lemma_digit_end_bounds(s, q + 1);
    }
}

pub proof fn lemma_ident_end_bounds(s: Seq<char>, q: int)
    requires
        0 <= q <= s.len(),
    ensures
        q <= ident_end(s, q) <= s.len(),
    decreases s.len() - q,
{
    if q < s.len() && is_ident_char(s[q]) {
        lemma_ident_end_bounds(s, q + 1);
    }
}

pub proof fn lemma_line_end_bounds(s: Seq<char>, q: int)
    requires
        0 <= q <= s.len(),
    ensures
        q <= line_end(s, q) <= s.len(),
    decreases s.len() - q,
{
    if q < s.len() && s[q] != '\n' {
        lemma_line_end_bounds(s, q + 1);
    }
}

/// The end of a numeric literal that starts at `p`: digits, then optionally a
/// point and further digits (the point is taken only where a digit follows it).
pub open spec fn number_end(s: Seq<char>, p: int) -> int {
    let e = digit_end(s, p);
    if char_at(s, e) == '.' && is_digit(char_at(s, e + 1)) {
        digit_end(s, e + 1)
    } else {
        e
    }
}

/// The number of `=` characters in the run that starts at `q`.
pub open spec fn eq_run(s: Seq<char>, q: int) -> nat
    decreases s.len() - q,
{
    if 0 <= q < s.len() && s[q] == '=' {
        1 + eq_run(s, q + 1)
    } else {
        0
    }
}

/// The first newline at or after `q`, or the end of the input.
pub open spec fn line_end(s: Seq<char>, q: int) -> int
    decreases s.len() - q,
{
    if 0 <= q < s.len() && s[q] != '\n' {
        line_end(s, q + 1)
    } else {
        q
    }
}

/// A long bracket opens at `q`: `[`, some `=`, `[`.
pub open spec fn opens_long(s: Seq<char>, q: int) -> bool {
    char_at(s, q) == '[' && char_at(s, q + 1 + eq_run(s, q + 1)) == '['
}

/// A closing long bracket of level `k` stands at `j`: `]`, `k` times `=`, `]`.
pub open spec fn closes_at(s: Seq<char>, j: int, k: int) -> bool {
    &&& char_at(s, j) == ']'
    &&& forall|i: int| 0 <= i < k ==> #[trigger] char_at(s, j + 1 + i) == '='
    &&& char_at(s, j + 1 + k) == ']'
}

/// The first closing long bracket of level `k` at or after `j`.
pub open spec fn find_close(s: Seq<char>, j: int, k: int) -> Option<int>
    decreases s.len() - j,
{
    if j < 0 || j >= s.len() {
        None
    } else if closes_at(s, j, k) {
        Some(j)
    } else {
        find_close(s, j + 1, k)
    }
}

pub proof fn lemma_find_close_bounds(s: Seq<char>, j: int, k: int)
    requires
        0 <= j,
        0 <= k,
    ensures
        find_close(s, j, k) matches Some(c) ==> j <= c && c + k + 2 <= s.len(),
    decreases s.len() - j,
{
    if j < s.len() && !closes_at(s, j, k) {
        lemma_find_close_bounds(s, j + 1, k);
    }
}

/// Where a comment whose text starts at `q` (just after `--`) ends. A long
/// bracket there makes a long comment, which runs to its matching close or to
/// the end of the input; anything else makes a comment that runs to the end of
/// the line.
pub open spec fn comment_end(s: Seq<char>, q: int) -> int {
    if opens_long(s, q) {
        let k = eq_run(s, q + 1) as int;
        match find_close(s, q + 2 + k, k) {
            Some(j) => j + k + 2,
            None => s.len() as int,
        }
    } else {
        line_end(s, q)
    }
}

/// What one scanning step does at a position of the input.
pub enum Scan {
    /// Whitespace or a comment was passed over, up to `end`.
    Skip { end: int },
    /// A token was recognized, ending at `end`.
    Emit { kind: TokenKind, lexeme: Seq<char>, end: int },
    /// The text at the position cannot be completed; the cursor goes to `end`.
    Fail { err: LexError, end: int },
    /// No scanner applies here.
    Stop,
}

pub open spec fn emit(kind: TokenKind, lexeme: Seq<char>, end: int) -> Scan {
    Scan::Emit { kind, lexeme, end }
}

/// The long-bracket string or the left bracket at `p`.
pub open spec fn scan_bracket(s: Seq<char>, p: int) -> Scan {
    if opens_long(s, p) {
        let k = eq_run(s, p + 1) as int;
        match find_close(s, p + 2 + k, k) {
            Some(j) => emit(TokenKind::String, s.subrange(p + 2 + k, j), j + k + 2),
            None => Scan::Fail { err: LexError::UnterminatedLongBracket, end: s.len() as int },
        }
    } else {
        emit(TokenKind::LeftBracket, seq![], p + 1)
    }
}

/// One of the operator words `and`, `or`, `not`.
pub open spec fn is_operator_word(w: Seq<char>) -> bool {
    w == seq!['a', 'n', 'd'] || w == seq!['o', 'r'] || w == seq!['n', 'o', 't']
}

/// An identifier that starts with `a`, `o` or `n`: an operator word becomes
/// Arithmetic, and a directly following `=` makes the whole an Infix token.
pub open spec fn scan_word(s: Seq<char>, p: int) -> Scan {
    let e = ident_end(s, p + 1);
    let w = s.subrange(p, e);
    if char_at(s, e) == '=' {
        emit(TokenKind::Infix, w.push('='), e + 1)
    } else if is_operator_word(w) {
        emit(TokenKind::Arithmetic, w, e)
    } else {
        emit(TokenKind::Identifier, w, e)
    }
}

/// The rest of a quoted string from `j`, with `acc` decoded so far.
pub open spec fn scan_quoted(s: Seq<char>, j: int, acc: Seq<char>) -> Scan
    decreases s.len() - j,
{
    if j < 0 || j >= s.len() {
        Scan::Fail { err: LexError::UnterminatedQuotedString, end: s.len() as int }
    } else if s[j] == '\n' {
        Scan::Fail { err: LexError::UnterminatedQuotedString, end: j }
    } else if s[j] == '"' {
        emit(TokenKind::String, acc, j + 1)
    } else if s[j] == '\\' {
        if j + 1 >= s.len() {
            Scan::Fail { err: LexError::UnterminatedQuotedString, end: s.len() as int }
        } else if s[j + 1] == '\n' {
            Scan::Fail { err: LexError::UnterminatedQuotedString, end: j + 1 }
        } else {
            let d = s[j + 1];
            scan_quoted(
                s,
                j + 2,
                if d == 'n' {
                    acc.push('\n')
                } else if d == 't' {
                    acc.push('\t')
                } else if d == '\\' || d == '"' {
                    acc.push(d)
                } else {
                    acc.push('\\').push(d)
                },
            )
        }
    } else {
        scan_quoted(s, j + 1, acc.push(s[j]))
    }
}

pub proof fn lemma_quoted_bounds(s: Seq<char>, j: int, acc: Seq<char>)
    requires
        0 <= j <= s.len(),
    ensures
        match scan_quoted(s, j, acc) {
            Scan::Emit { kind, end, .. } => kind == TokenKind::String && j < end <= s.len(),
            Scan::Fail { end, .. } => j <= end <= s.len(),
            _ => false,
        },
    decreases s.len() - j,
{
    if j < s.len() && s[j] != '\n' && s[j] != '"' {
        if s[j] == '\\' {
            if j + 1 < s.len() && s[j + 1] != '\n' {
                let d = s[j + 1];
                let next = if d == 'n' {
                    acc.push('\n')
                } else if d == 't' {
                    acc.push('\t')
                } else if d == '\\' || d == '"' {
                    acc.push(d)
                } else {
                    acc.push('\\').push(d)
                };
                lemma_quoted_bounds(s, j + 2, next);
            }
        } else {
            lemma_quoted_bounds(s, j + 1, acc.push(s[j]));
        }
    }
}

/// What the scanner for the character at `p` does there.
pub open spec fn scan_at(s: Seq<char>, p: int) -> Scan {
    let c = char_at(s, p);
    let d = char_at(s, p + 1);
    if p < 0 || p >= s.len() {
        Scan::Stop
    } else if is_blank(c) {
        Scan::Skip { end: p + 1 }
    } else if c == '-' {
        if d == '-' {
            Scan::Skip { end: comment_end(s, p + 2) }
        } else if d == '=' {
            emit(TokenKind::Infix, seq!['-', '='], p + 2)
        } else if d == '>' {
            emit(TokenKind::Arrow, seq!['-', '>'], p + 2)
        } else {
            emit(TokenKind::Arithmetic, seq!['-'], p + 1)
        }
    } else if c == '[' {
        scan_bracket(s, p)
    } else if c == '=' {
        if d == '=' {
            emit(TokenKind::Comparison, seq!['=', '='], p + 2)
        } else if d == '>' {
            emit(TokenKind::Arrow, seq!['=', '>'], p + 2)
        } else {
            emit(TokenKind::Equal, seq!['='], p + 1)
        }
    } else if c == '<' || c == '>' {
        if d == '=' {
            emit(TokenKind::Comparison, seq![c, '='], p + 2)
        } else {
            emit(TokenKind::Comparison, seq![c], p + 1)
        }
    } else if c == '/' {
        if d == '/' {
            emit(TokenKind::Arithmetic, seq!['/', '/'], p + 2)
        } else if d == '=' {
            emit(TokenKind::Infix, seq!['/', '='], p + 2)
        } else {
            emit(TokenKind::Arithmetic, seq!['/'], p + 1)
        }
    } else if c == '~' {
        if d == '=' {
            emit(TokenKind::Comparison, seq!['~', '='], p + 2)
        } else {
            emit(TokenKind::Arithmetic, seq!['~'], p + 1)
        }
    } else if c == '+' || c == '*' || c == '%' {
        if d == '=' {
            emit(TokenKind::Infix, seq![c, '='], p + 2)
        } else {
            emit(TokenKind::Arithmetic, seq![c], p + 1)
        }
    } else if c == 'a' || c == 'o' || c == 'n' {
        scan_word(s, p)
    } else if c == '.' {
        if d == '.' && char_at(s, p + 2) == '.' {
            emit(TokenKind::Dots, seq!['.', '.', '.'], p + 3)
        } else if d == '.' {
            emit(TokenKind::Arithmetic, seq!['.', '.'], p + 2)
        } else {
            emit(TokenKind::Period, seq!['.'], p + 1)
        }
    } else if c == ',' {
        emit(TokenKind::Comma, seq![], p + 1)
    } else if c == '!' {
        if d == '=' {
            emit(TokenKind::Comparison, seq!['~', '='], p + 2)
        } else {
            emit(TokenKind::Bang, seq![], p + 1)
        }
    } else if c == '{' {
        emit(TokenKind::LeftBrace, seq![], p + 1)
    } else if c == '}' {
        emit(TokenKind::RightBrace, seq![], p + 1)
    } else if c == '(' {
        emit(TokenKind::LeftParen, seq![], p + 1)
    } else if c == ')' {
        emit(TokenKind::RightParen, seq![], p + 1)
    } else if c == ']' {
        emit(TokenKind::RightBracket, seq![], p + 1)
    } else if is_ident_start(c) {
        emit(TokenKind::Identifier, s.subrange(p, ident_end(s, p + 1)), ident_end(s, p + 1))
    } else if is_digit(c) {
        emit(TokenKind::Number, s.subrange(p, number_end(s, p)), number_end(s, p))
    } else if c == '"' {
        scan_quoted(s, p + 1, seq![])
    } else {
        Scan::Stop
    }
}

/// A scanning step at a position inside the input moves strictly forward and
/// stays inside the input.
pub proof fn lemma_scan_bounds(s: Seq<char>, p: int)
    requires
        0 <= p < s.len(),
    ensures
        match scan_at(s, p) {
            Scan::Skip { end } => p < end <= s.len(),
            Scan::Emit { end, .. } => p < end <= s.len(),
            Scan::Fail { end, .. } => p < end <= s.len(),
            Scan::Stop => true,
        },
{
    let c = s[p];
    if c == '-' && char_at(s, p + 1) == '-' {
        let q = p + 2;
        let k = eq_run(s, q + 1) as int;
        lemma_find_close_bounds(s, q + 2 + k, k);
        lemma_line_end_bounds(s, q);
    } else if c == '[' {
        let k = eq_run(s, p + 1) as int;
        lemma_find_close_bounds(s, p + 2 + k, k);
    } else if c == 'a' || c == 'o' || c == 'n' || is_ident_start(c) {
        lemma_ident_end_bounds(s, p + 1);
    } else if is_digit(c) {
        lemma_digit_end_bounds(s, p + 1);
        let e = digit_end(s, p);
        if char_at(s, e) == '.' && is_digit(char_at(s, e + 1)) {
            lemma_digit_end_bounds(s, e + 1);
        }
    } else if c == '"' {
        lemma_quoted_bounds(s, p + 1, seq![]);
    }
}

pub proof fn lemma_newlines_monotone(s: Seq<char>, a: int, b: int)
    requires
        0 <= a <= b,
    ensures
        newlines_before(s, a) <= newlines_before(s, b),
    decreases b - a,
{
    if a < b {
        lemma_newlines_monotone(s, a, b - 1);
    }
}

/// What a pull of the next token from position `p` returns.
pub enum Lexed {
    /// A token that starts at `start` and ends at `end`.
    Token { start: int, kind: TokenKind, lexeme: Seq<char>, end: int },
    /// A malformed literal; the cursor goes to `end`.
    Failed { err: LexError, end: int },
    /// No further token; the cursor stays at `at`.
    End { at: int },
}

/// Pulls the next token from `p`: whitespace and comments are passed over until
/// a scanner yields a token or fails, or none applies.
pub open spec fn lex_from(s: Seq<char>, p: int) -> Lexed
    decreases s.len() - p,
{
    match scan_at(s, p) {
        Scan::Skip { end } => if 0 <= p < end <= s.len() {
            lex_from(s, end)
        } else {
            Lexed::End { at: p }
        },
        Scan::Emit { kind, lexeme, end } => Lexed::Token { start: p, kind, lexeme, end },
        Scan::Fail { err, end } => Lexed::Failed { err, end },
        Scan::Stop => Lexed::End { at: p },
    }
}

/// The end of a leading `#!` line: the first newline, or the end of the input.
pub open spec fn shebang_end(s: Seq<char>) -> int {
    if s.len() > 1 && s[0] == '#' && s[1] == '!' {
        line_end(s, 0)
    } else {
        0
    }
}

} // verus!
