//! The scan session and the scanner itself.
use vstd::prelude::*;

use crate::model::{
    alphanumeric, char_at, closes_at, comment_end, digit_end, eq_run, find_close, ident_end, is_digit,
    is_operator_word, lemma_digit_end_bounds, lemma_newlines_bounded, lex_from, line_end,
    newlines_before, scan_at, scan_quoted, shebang_end, Lexed, Scan,
};

verus! {

/// The kinds of token that a pull can return.
#[derive(Debug, Clone, Copy, PartialEq, Eq, Structural)]
pub enum TokenKind {
    Identifier,
    Number,
    String,
    Equal,
    Arithmetic,
    Comparison,
    Infix,
    LeftBrace,
    RightBrace,
    LeftBracket,
    RightBracket,
    LeftParen,
    RightParen,
    Period,
    Comma,
    Dots,
    Bang,
    Arrow,
}

/// Why a pull returned no token.
#[derive(Debug, Clone, Copy, PartialEq, Eq, Structural)]
pub enum LexError {
    /// No scanner applies at the cursor: either the input is exhausted or the
    /// character there is not part of the language.
    EndOfStream,
    /// A long-bracket string never reached its closing bracket.
    UnterminatedLongBracket,
    /// A quoted string met a raw newline or the end of input before its closing quote.
    UnterminatedQuotedString,
}

/// A token: its kind, its text (empty for punctuation), and the line on which it starts.
#[derive(Debug)]
pub struct Token {
    pub kind: TokenKind,
    pub lexeme: String,
    pub line: usize,
}

impl Token {
    /// A token with an empty lexeme.
    pub fn new(kind: TokenKind, line: usize) -> (r: Token)
        ensures
            r.kind == kind,
            r.lexeme@ == Seq::<char>::empty(),
            r.line == line,
    {
        Token { kind, lexeme: String::new(), line }
    }
}

/// The cursor over the source text of one scan session.
#[derive(Debug)]
pub struct LexState {
    pub input: Vec<char>,
    pub position: usize,
    pub line: usize,
    pub current: char,
}

impl LexState {
    /// The cursor is inside the input (or just past it), `current` is the
    /// character under it, and `line` counts the newlines before it.
    pub open spec fn wf(&self) -> bool {
        &&& self.position <= self.input@.len()
        &&& self.current == char_at(self.input@, self.position as int)
        &&& self.line == newlines_before(self.input@, self.position as int)
    }

    /// A cursor on the first character of `input`.
    pub fn new(input: String) -> (r: LexState)
        ensures
            r.input@ == input@,
            r.position == 0,
            r.line == 0,
            r.wf(),
    {
        let mut chars: Vec<char> = Vec::new();
        for c in it: input.as_str().chars()
            invariant
                chars@ == it.seq().take(it.index() as int),
        {
            chars.push(c);
        }
        assert(chars@ == input@);
        let current = if chars.len() > 0 {
            chars[0]
        } else {
            '\0'
        };
        LexState { input: chars, position: 0, line: 0, current }
    }

    /// Moves the cursor one character on, counting a newline that it moves past.
    /// At the end of the input it stays where it is.
    fn next(&mut self)
        requires
            old(self).wf(),
        ensures
            final(self).wf(),
            final(self).input@ == old(self).input@,
            final(self).position == if old(self).position < old(self).input@.len() {
                old(self).position + 1
            } else {
                old(self).position as int
            },
    {
        if self.position < self.input.len() {
            proof {
                lemma_newlines_bounded(self.input@, self.position as int);
            }
            if self.current == '\n' {
                self.line = self.line + 1;
            }
            self.position = self.position + 1;
            self.current = if self.position < self.input.len() {
                self.input[self.position]
            } else {
                '\0'
            };
        }
    }

    /// The character `off` places after the cursor, or `'\0'` past the end.
    fn char_ahead(&self, off: usize) -> (c: char)
        requires
            self.wf(),
        ensures
            c == char_at(self.input@, self.position + off),
    {
        if self.position < self.input.len() && off < self.input.len() - self.position {
            self.input[self.position + off]
        } else {
            '\0'
        }
    }

    /// Moves the cursor `n` characters on.
    fn advance_by(&mut self, n: usize)
        requires
            old(self).wf(),
            old(self).position + n <= old(self).input@.len(),
        ensures
            final(self).wf(),
            final(self).input@ == old(self).input@,
            final(self).position == old(self).position + n,
    {
        let mut i: usize = 0;
        while i < n
            invariant
                self.wf(),
                self.input@ == old(self).input@,
                i <= n,
                self.position == old(self).position + i,
                old(self).position + n <= old(self).input@.len(),
            decreases n - i,
        {
            self.next();
            i = i + 1;
        }
    }
}

/// What one scanning step produced.
enum Step {
    Skipped,
    Produced(TokenKind, String),
    Failed(LexError),
    Stopped,
}

/// The step `r` is the one that `sc` describes, and the cursor went to `after`.
spec fn realizes(r: Step, sc: Scan, after: int) -> bool {
    match sc {
        Scan::Skip { end } => r is Skipped && after == end,
        Scan::Emit { kind, lexeme, end } => match r {
            Step::Produced(k, t) => k == kind && t@ == lexeme && after == end,
            _ => false,
        },
        Scan::Fail { err, end } => match r {
            Step::Failed(e) => e == err && after == end,
            _ => false,
        },
        Scan::Stop => r is Stopped,
    }
}

/// A scanner moved the cursor from `pre` to `post` as `scan_at` describes and returned `r`.
spec fn scanned(pre: LexState, post: LexState, r: Step) -> bool {
    &&& post.wf()
    &&& post.input@ == pre.input@
    &&& realizes(r, scan_at(pre.input@, pre.position as int), post.position as int)
    &&& (r is Stopped ==> post.position == pre.position)
    &&& (!(r is Stopped) ==> post.position > pre.position)
}

/// Relies on `String::push`: appends the character.
#[verifier::external_body]
fn push_char(s: &mut String, c: char)
    ensures
        final(s)@ == old(s)@.push(c),
{
    s.push(c)
}

/// Relies on `char::is_alphanumeric`; the result depends on the character alone.
#[verifier::external_body]
fn is_alnum(c: char) -> (r: bool)
    ensures
        r == alphanumeric(c),
{
    c.is_alphanumeric()
}

fn text1(a: char) -> (r: String)
    ensures
        r@ == seq![a],
{
    let mut t = String::new();
    push_char(&mut t, a);
    t
}

fn text2(a: char, b: char) -> (r: String)
    ensures
        r@ == seq![a, b],
{
    let mut t = String::new();
    push_char(&mut t, a);
    push_char(&mut t, b);
    t
}

fn text3(a: char, b: char, c: char) -> (r: String)
    ensures
        r@ == seq![a, b, c],
{
    let mut t = String::new();
    push_char(&mut t, a);
    push_char(&mut t, b);
    push_char(&mut t, c);
    t
}

/// Passes over a run of `=` and returns its length.
fn skip_equals(state: &mut LexState) -> (k: usize)
    requires
        old(state).wf(),
    ensures
        final(state).wf(),
        final(state).input@ == old(state).input@,
        k == eq_run(old(state).input@, old(state).position as int),
        final(state).position == old(state).position + k,
{
    let ghost s = state.input@;
    let ghost q = state.position as int;
    let mut k: usize = 0;
    while state.current == '='
        invariant
            state.wf(),
            state.input@ == s,
            s == old(state).input@,
            q == old(state).position,
            state.position == q + k,
            eq_run(s, q) == k + eq_run(s, state.position as int),
        decreases s.len() - state.position,
    {
        state.next();
        k = k + 1;
    }
    k
}

/// A closing long bracket of level `k` stands at the cursor.
fn closes_here(state: &LexState, k: usize) -> (r: bool)
    requires
        state.wf(),
    ensures
        r == closes_at(state.input@, state.position as int, k as int),
{
    let ghost s = state.input@;
    let ghost j = state.position as int;
    if state.current != ']' || k >= state.input.len() {
        return false;
    }
    let mut i: usize = 0;
    while i < k
        invariant
            state.wf(),
            s == state.input@,
            j == state.position,
            k < s.len(),
            i <= k,
            forall|t: int| 0 <= t < i ==> #[trigger] char_at(s, j + 1 + t) == '=',
        decreases k - i,
    {
        let c = state.char_ahead(i + 1);
        assert(c == char_at(s, j + 1 + i));
        if c != '=' {
            return false;
        }
        i = i + 1;
    }
    state.char_ahead(k + 1) == ']'
}

/// Reads the body of a long bracket of level `k` that starts at the cursor, up to
/// and past its first matching close. `None` where the input ends first; the
/// cursor is then at the end.
fn read_long_body(state: &mut LexState, k: usize) -> (r: Option<String>)
    requires
        old(state).wf(),
    ensures
        final(state).wf(),
        final(state).input@ == old(state).input@,
        final(state).position >= old(state).position,
        match find_close(old(state).input@, old(state).position as int, k as int) {
            Some(j) => r matches Some(t) && t@ == old(state).input@.subrange(
                old(state).position as int,
                j,
            ) && final(state).position == j + k + 2,
            None => r is None && final(state).position == old(state).input@.len(),
        },
{
    let ghost s = state.input@;
    let ghost b = state.position as int;
    let mut text = String::new();
    loop
        invariant
            state.wf(),
            state.input@ == s,
            s == old(state).input@,
            b == old(state).position,
            b <= state.position <= s.len(),
            text@ == s.subrange(b, state.position as int),
            find_close(s, state.position as int, k as int) == find_close(s, b, k as int),
        decreases s.len() - state.position,
    {
        if state.position >= state.input.len() {
            return None;
        }
        if closes_here(state, k) {
            state.advance_by(k + 2);
            return Some(text);
        }
        let ghost pos = state.position as int;
        push_char(&mut text, state.current);
        state.next();
        assert(s.subrange(b, pos + 1) =~= s.subrange(b, pos).push(s[pos]));
    }
}

/// Passes over a comment whose text starts at the cursor (just after `--`).
fn read_comment(state: &mut LexState)
    requires
        old(state).wf(),
    ensures
        final(state).wf(),
        final(state).input@ == old(state).input@,
        final(state).position >= old(state).position,
        final(state).position == comment_end(
            old(state).input@,
            old(state).position as int,
        ),
{
    let ghost s = state.input@;
    let ghost q = state.position as int;
    if state.current == '[' {
        let saved_position = state.position;
        let saved_line = state.line;
        let saved_current = state.current;
        state.next();
        let k = skip_equals(state);
        if state.current == '[' {
            state.next();
            let _ = read_long_body(state, k);
            return;
        }
        state.position = saved_position;
        state.line = saved_line;
        state.current = saved_current;
    }
    while state.position < state.input.len() && state.current != '\n'
        invariant
            state.wf(),
            state.input@ == s,
            s == old(state).input@,
            q == old(state).position,
            q <= state.position,
            line_end(s, state.position as int) == line_end(s, q),
        decreases s.len() - state.position,
    {
        state.next();
    }
}

/// `-`, `-=`, `->`, or a comment after `--`.
fn read_dash(state: &mut LexState) -> (r: Step)
    requires
        old(state).wf(),
        old(state).current == '-',
    ensures
        scanned(*old(state), *final(state), r),
{
    state.next();
    if state.current == '-' {
        state.next();
        read_comment(state);
        Step::Skipped
    } else if state.current == '=' {
        state.next();
        Step::Produced(TokenKind::Infix, text2('-', '='))
    } else if state.current == '>' {
        state.next();
        Step::Produced(TokenKind::Arrow, text2('-', '>'))
    } else {
        Step::Produced(TokenKind::Arithmetic, text1('-'))
    }
}

/// A long-bracket string, or a plain left bracket: where no second `[` follows
/// the run of `=`, the cursor goes back to just after the first `[`, so that the
/// `=` are scanned again as tokens of their own.
fn read_open_bracket(state: &mut LexState) -> (r: Step)
    requires
        old(state).wf(),
        old(state).current == '[',
    ensures
        scanned(*old(state), *final(state), r),
{
    state.next();
    let saved_position = state.position;
    let saved_line = state.line;
    let saved_current = state.current;
    let k = skip_equals(state);
    if state.current == '[' {
        state.next();
        match read_long_body(state, k) {
            Some(t) => Step::Produced(TokenKind::String, t),
            None => Step::Failed(LexError::UnterminatedLongBracket),
        }
    } else {
        state.position = saved_position;
        state.line = saved_line;
        state.current = saved_current;
        Step::Produced(TokenKind::LeftBracket, String::new())
    }
}

/// `=`, `==` or `=>`.
fn read_equal(state: &mut LexState) -> (r: Step)
    requires
        old(state).wf(),
        old(state).current == '=',
    ensures
        scanned(*old(state), *final(state), r),
{
    state.next();
    if state.current == '=' {
        state.next();
        Step::Produced(TokenKind::Comparison, text2('=', '='))
    } else if state.current == '>' {
        state.next();
        Step::Produced(TokenKind::Arrow, text2('=', '>'))
    } else {
        Step::Produced(TokenKind::Equal, text1('='))
    }
}

/// `<`, `>`, `<=` or `>=`.
fn read_comparison(state: &mut LexState) -> (r: Step)
    requires
        old(state).wf(),
        old(state).current == '<' || old(state).current == '>',
    ensures
        scanned(*old(state), *final(state), r),
{
    let c = state.current;
    state.next();
    if state.current == '=' {
        state.next();
        Step::Produced(TokenKind::Comparison, text2(c, '='))
    } else {
        Step::Produced(TokenKind::Comparison, text1(c))
    }
}

/// `/`, `//` or `/=`.
fn read_slash(state: &mut LexState) -> (r: Step)
    requires
        old(state).wf(),
        old(state).current == '/',
    ensures
        scanned(*old(state), *final(state), r),
{
    state.next();
    if state.current == '/' {
        state.next();
        Step::Produced(TokenKind::Arithmetic, text2('/', '/'))
    } else if state.current == '=' {
        state.next();
        Step::Produced(TokenKind::Infix, text2('/', '='))
    } else {
        Step::Produced(TokenKind::Arithmetic, text1('/'))
    }
}

/// `~` or `~=`.
fn read_not_equal(state: &mut LexState) -> (r: Step)
    requires
        old(state).wf(),
        old(state).current == '~',
    ensures
        scanned(*old(state), *final(state), r),
{
    state.next();
    if state.current == '=' {
        state.next();
        Step::Produced(TokenKind::Comparison, text2('~', '='))
    } else {
        Step::Produced(TokenKind::Arithmetic, text1('~'))
    }
}

/// `+`, `*` or `%`, each optionally followed by `=`.
fn read_arithmetic(state: &mut LexState) -> (r: Step)
    requires
        old(state).wf(),
        old(state).current == '+' || old(state).current == '*' || old(state).current == '%',
    ensures
        scanned(*old(state), *final(state), r),
{
    let c = state.current;
    state.next();
    if state.current == '=' {
        state.next();
        Step::Produced(TokenKind::Infix, text2(c, '='))
    } else {
        Step::Produced(TokenKind::Arithmetic, text1(c))
    }
}

/// `.`, `..` or `...`.
fn read_dot(state: &mut LexState) -> (r: Step)
    requires
        old(state).wf(),
        old(state).current == '.',
    ensures
        scanned(*old(state), *final(state), r),
{
    state.next();
    if state.current == '.' {
        state.next();
        if state.current == '.' {
            state.next();
            Step::Produced(TokenKind::Dots, text3('.', '.', '.'))
        } else {
            Step::Produced(TokenKind::Arithmetic, text2('.', '.'))
        }
    } else {
        Step::Produced(TokenKind::Period, text1('.'))
    }
}

/// `!`, or `!=`, which is read as the comparison `~=`.
fn read_bang(state: &mut LexState) -> (r: Step)
    requires
        old(state).wf(),
        old(state).current == '!',
    ensures
        scanned(*old(state), *final(state), r),
{
    state.next();
    if state.current == '=' {
        state.next();
        Step::Produced(TokenKind::Comparison, text2('~', '='))
    } else {
        Step::Produced(TokenKind::Bang, String::new())
    }
}

/// A single-character punctuation token of the given kind.
fn read_brace(state: &mut LexState, kind: TokenKind) -> (r: Step)
    requires
        old(state).wf(),
        old(state).position < old(state).input@.len(),
    ensures
        final(state).wf(),
        final(state).input@ == old(state).input@,
        final(state).position == old(state).position + 1,
        r matches Step::Produced(k, t) && k == kind && t@ == Seq::<char>::empty(),
{
    state.next();
    Step::Produced(kind, String::new())
}

/// The run of identifier characters that starts at the cursor.
fn read_identifier(state: &mut LexState) -> (r: String)
    requires
        old(state).wf(),
        old(state).position < old(state).input@.len(),
    ensures
        final(state).wf(),
        final(state).input@ == old(state).input@,
        final(state).position > old(state).position,
        final(state).position == ident_end(old(state).input@, old(state).position + 1),
        r@ == old(state).input@.subrange(
            old(state).position as int,
            final(state).position as int,
        ),
{
    let ghost s = state.input@;
    let ghost p = state.position as int;
    let mut text = String::new();
    push_char(&mut text, state.current);
    state.next();
    assert(s.subrange(p, p + 1) =~= seq![s[p]]);
    while state.position < state.input.len() && (is_alnum(state.current) || state.current == '_')
        invariant
            state.wf(),
            state.input@ == s,
            s == old(state).input@,
            p == old(state).position,
            p + 1 <= state.position <= s.len(),
            text@ == s.subrange(p, state.position as int),
            ident_end(s, state.position as int) == ident_end(s, p + 1),
        decreases s.len() - state.position,
    {
        let ghost pos = state.position as int;
        push_char(&mut text, state.current);
        state.next();
        assert(s.subrange(p, pos + 1) =~= s.subrange(p, pos).push(s[pos]));
    }
    text
}

/// The characters `input[p..e]` spell `and`, `or` or `not`.
fn word_is_operator(input: &Vec<char>, p: usize, e: usize) -> (r: bool)
    requires
        p <= e <= input@.len(),
    ensures
        r == is_operator_word(input@.subrange(p as int, e as int)),
{
    let ghost w = input@.subrange(p as int, e as int);
    let n = e - p;
    if n == 3 {
        let r = (input[p] == 'a' && input[p + 1] == 'n' && input[p + 2] == 'd') || (input[p] == 'n'
            && input[p + 1] == 'o' && input[p + 2] == 't');
        assert(w[0] == input@[p as int] && w[1] == input@[p + 1] && w[2] == input@[p + 2]);
        if r {
            assert(w =~= seq!['a', 'n', 'd'] || w =~= seq!['n', 'o', 't']);
        } else {
            assert(seq!['a', 'n', 'd'][0] == 'a' && seq!['a', 'n', 'd'][1] == 'n' && seq!['a', 'n', 'd'][2] == 'd');
            assert(seq!['n', 'o', 't'][0] == 'n' && seq!['n', 'o', 't'][1] == 'o' && seq!['n', 'o', 't'][2] == 't');
            assert(seq!['o', 'r'].len() == 2);
        }
        r
    } else if n == 2 {
        let r = input[p] == 'o' && input[p + 1] == 'r';
        assert(w[0] == input@[p as int] && w[1] == input@[p + 1]);
        if r {
            assert(w =~= seq!['o', 'r']);
        } else {
            assert(seq!['o', 'r'][0] == 'o' && seq!['o', 'r'][1] == 'r');
            assert(seq!['a', 'n', 'd'].len() == 3 && seq!['n', 'o', 't'].len() == 3);
        }
        r
    } else {
        assert(seq!['a', 'n', 'd'].len() == 3 && seq!['n', 'o', 't'].len() == 3);
        assert(seq!['o', 'r'].len() == 2);
        false
    }
}

/// An identifier that starts with `a`, `o` or `n`: `and`, `or` and `not` are
/// Arithmetic, and a directly following `=` makes an Infix token.
fn read_arithmetic_word(state: &mut LexState) -> (r: Step)
    requires
        old(state).wf(),
        old(state).current == 'a' || old(state).current == 'o' || old(state).current == 'n',
    ensures
        scanned(*old(state), *final(state), r),
{
    let p = state.position;
    let mut text = read_identifier(state);
    let e = state.position;
    let is_op = word_is_operator(&state.input, p, e);
    if state.current == '=' {
        push_char(&mut text, '=');
        state.next();
        Step::Produced(TokenKind::Infix, text)
    } else if is_op {
        Step::Produced(TokenKind::Arithmetic, text)
    } else {
        Step::Produced(TokenKind::Identifier, text)
    }
}

/// Passes over a run of decimal digits, collecting them.
fn read_digits(state: &mut LexState, text: &mut String)
    requires
        old(state).wf(),
    ensures
        final(state).wf(),
        final(state).input@ == old(state).input@,
        final(state).position >= old(state).position,
        final(state).position == digit_end(old(state).input@, old(state).position as int),
        final(text)@ == old(text)@ + old(state).input@.subrange(
            old(state).position as int,
            final(state).position as int,
        ),
{
    let ghost s = state.input@;
    let ghost q = state.position as int;
    while '0' <= state.current && state.current <= '9'
        invariant
            state.wf(),
            state.input@ == s,
            s == old(state).input@,
            q == old(state).position,
            q <= state.position <= s.len(),
            text@ == old(text)@ + s.subrange(q, state.position as int),
            digit_end(s, state.position as int) == digit_end(s, q),
        decreases s.len() - state.position,
    {
        let ghost pos = state.position as int;
        push_char(text, state.current);
        state.next();
        assert(s.subrange(q, pos + 1) =~= s.subrange(q, pos).push(s[pos]));
        assert(old(text)@ + s.subrange(q, pos + 1) =~= (old(text)@ + s.subrange(q, pos)).push(s[pos]));
    }
    assert(s.subrange(q, state.position as int) =~= s.subrange(q, state.position as int));
}

/// A numeric literal: digits, then optionally a point and further digits.
fn read_number(state: &mut LexState) -> (r: Step)
    requires
        old(state).wf(),
        is_digit(old(state).current),
    ensures
        scanned(*old(state), *final(state), r),
{
    let ghost s = state.input@;
    let ghost p = state.position as int;
    let mut text = String::new();
    proof {
        lemma_digit_end_bounds(s, p + 1);
    }
    read_digits(state, &mut text);
    assert(text@ =~= s.subrange(p, state.position as int));
    if state.current == '.' {
        let d = state.char_ahead(1);
        if '0' <= d && d <= '9' {
            let ghost e = state.position as int;
            push_char(&mut text, '.');
            state.next();
            assert(s.subrange(p, e + 1) =~= s.subrange(p, e).push(s[e]));
            assert(text@ =~= s.subrange(p, e + 1));
            read_digits(state, &mut text);
            assert(text@ =~= s.subrange(p, state.position as int));
        }
    }
    Step::Produced(TokenKind::Number, text)
}

/// A quoted string, with its escapes decoded.
fn read_quoted(state: &mut LexState) -> (r: Step)
    requires
        old(state).wf(),
        old(state).current == '"',
    ensures
        scanned(*old(state), *final(state), r),
{
    let ghost s = state.input@;
    let ghost p = state.position as int;
    assert(scan_at(s, p) == scan_quoted(s, p + 1, seq![]));
    state.next();
    let mut text = String::new();
    loop
        invariant
            state.wf(),
            state.input@ == s,
            s == old(state).input@,
            p == old(state).position,
            p < s.len(),
            p + 1 <= state.position <= s.len(),
            scan_at(s, p) == scan_quoted(s, p + 1, seq![]),
            scan_quoted(s, state.position as int, text@) == scan_quoted(s, p + 1, seq![]),
        decreases s.len() - state.position,
    {
        if state.position >= state.input.len() {
            return Step::Failed(LexError::UnterminatedQuotedString);
        }
        let c = state.current;
        if c == '\n' {
            return Step::Failed(LexError::UnterminatedQuotedString);
        }
        if c == '"' {
            state.next();
            return Step::Produced(TokenKind::String, text);
        }
        if c == '\\' {
            state.next();
            if state.position >= state.input.len() {
                return Step::Failed(LexError::UnterminatedQuotedString);
            }
            let d = state.current;
            if d == '\n' {
                return Step::Failed(LexError::UnterminatedQuotedString);
            }
            if d == 'n' {
                push_char(&mut text, '\n');
            } else if d == 't' {
                push_char(&mut text, '\t');
            } else if d == '\\' || d == '"' {
                push_char(&mut text, d);
            } else {
                push_char(&mut text, '\\');
                push_char(&mut text, d);
            }
            state.next();
        } else {
            push_char(&mut text, c);
            state.next();
        }
    }
}

/// Runs the scanner that the character under the cursor selects.
fn scan(state: &mut LexState) -> (r: Step)
    requires
        old(state).wf(),
    ensures
        scanned(*old(state), *final(state), r),
{
    let c = state.current;
    if state.position >= state.input.len() {
        Step::Stopped
    } else if c == '\n' || c == '\r' || c == ' ' || c == '\t' {
        state.next();
        Step::Skipped
    } else if c == '-' {
        read_dash(state)
    } else if c == '[' {
        read_open_bracket(state)
    } else if c == '=' {
        read_equal(state)
    } else if c == '<' || c == '>' {
        read_comparison(state)
    } else if c == '/' {
        read_slash(state)
    } else if c == '~' {
        read_not_equal(state)
    } else if c == '+' || c == '*' || c == '%' {
        read_arithmetic(state)
    } else if c == 'a' || c == 'o' || c == 'n' {
        read_arithmetic_word(state)
    } else if c == '.' {
        read_dot(state)
    } else if c == ',' {
        read_brace(state, TokenKind::Comma)
    } else if c == '!' {
        read_bang(state)
    } else if c == '{' {
        read_brace(state, TokenKind::LeftBrace)
    } else if c == '}' {
        read_brace(state, TokenKind::RightBrace)
    } else if c == '(' {
        read_brace(state, TokenKind::LeftParen)
    } else if c == ')' {
        read_brace(state, TokenKind::RightParen)
    } else if c == ']' {
        read_brace(state, TokenKind::RightBracket)
    } else if ('a' <= c && c <= 'z') || ('A' <= c && c <= 'Z') || c == '_' {
        let text = read_identifier(state);
        Step::Produced(TokenKind::Identifier, text)
    } else if '0' <= c && c <= '9' {
        read_number(state)
    } else if c == '"' {
        read_quoted(state)
    } else {
        Step::Stopped
    }
}

/// The token pull `r` and the cursor position `after` are what `l` describes,
/// with line numbers counted in `s`.
pub open spec fn pulled(l: Lexed, r: Result<Token, LexError>, s: Seq<char>, after: int) -> bool {
    match l {
        Lexed::Token { start, kind, lexeme, end } => match r {
            Ok(t) => t.kind == kind && t.lexeme@ == lexeme && t.line == newlines_before(s, start)
                && after == end,
            Err(_) => false,
        },
        Lexed::Failed { err, end } => match r {
            Ok(_) => false,
            Err(e) => e == err && after == end,
        },
        Lexed::End { at } => match r {
            Ok(_) => false,
            Err(e) => e == LexError::EndOfStream && after == at,
        },
    }
}

/// Returns the next token, passing over whitespace and comments; or why there is
/// none: the end of the stream (also at a character outside the language), or an
/// unterminated string.
pub fn lex(state: &mut LexState) -> (r: Result<Token, LexError>)
    requires
        old(state).wf(),
    ensures
        final(state).wf(),
        final(state).input@ == old(state).input@,
        final(state).position >= old(state).position,
        pulled(
            lex_from(old(state).input@, old(state).position as int),
            r,
            old(state).input@,
            final(state).position as int,
        ),
{
    let ghost s = state.input@;
    let ghost p = state.position as int;
    loop
        invariant
            state.wf(),
            state.input@ == s,
            s == old(state).input@,
            p == old(state).position,
            p <= state.position,
            lex_from(s, state.position as int) == lex_from(s, p),
        decreases s.len() - state.position,
    {
        let start_line = state.line;
        let ghost start = state.position as int;
        let step = scan(state);
        match step {
            Step::Skipped => {},
            Step::Produced(kind, lexeme) => {
                return Ok(Token { kind, lexeme, line: start_line });
            },
            Step::Failed(e) => {
                return Err(e);
            },
            Step::Stopped => {
                return Err(LexError::EndOfStream);
            },
        }
    }
}

/// Passes over a leading `#!` line, up to its newline.
fn read_shebang(state: &mut LexState)
    requires
        old(state).wf(),
        old(state).position == 0,
    ensures
        final(state).wf(),
        final(state).input@ == old(state).input@,
        final(state).position == shebang_end(old(state).input@),
{
    let ghost s = state.input@;
    if state.input.len() > 1 && state.current == '#' && state.char_ahead(1) == '!' {
        while state.position < state.input.len() && state.current != '\n'
            invariant
                state.wf(),
                state.input@ == s,
                line_end(s, state.position as int) == line_end(s, 0),
            decreases s.len() - state.position,
        {
            state.next();
        }
    }
}

/// Starts a scan session on `input`, past a leading `#!` line; `None` where the
/// input is empty.
pub fn init(input: String) -> (r: Option<LexState>)
    ensures
        r is None <==> input@.len() == 0,
        r matches Some(st) ==> st.wf() && st.input@ == input@ && st.position == shebang_end(
            input@,
        ),
{
    let mut state = LexState::new(input);
    if state.input.len() == 0 {
        return None;
    }
    read_shebang(&mut state);
    Some(state)
}

} // verus!
