//! The lexical scanner: source text to tokens.
//!
//! The meaning of scanning is fixed by the spec functions below, which map a
//! character sequence and a cursor position to the next token and the cursor
//! position after it. The executable `Lexer` is proved to return exactly
//! those tokens.

use vstd::prelude::*;
use crate::chars::{is_space, is_alpha, is_numeric, is_digit, digit_of, char_is_digit,
    string_from_chars, str_eq_str};

verus! {

/// One lexical unit. `Error` doubles as the end-of-input sentinel: the
/// scanner has no distinct end-of-stream signal.
///
/// A float literal carries its source text (digits with one `.`); turning
/// that text into a binary floating-point value is left to the caller.
#[derive(Debug, PartialEq)]
pub enum Token {
    Comment(String),
    Identifier(String),
    Integer(i64),
    Float(String),
    StrLit(String),
    Boolean(bool),
    Import,
    If,
    Else,
    Print,
    Error,
}

/// The mathematical form of a token: texts as character sequences and the
/// integer value unbounded.
pub enum TokenV {
    Comment(Seq<char>),
    Identifier(Seq<char>),
    Integer(int),
    Float(Seq<char>),
    StrLit(Seq<char>),
    Boolean(bool),
    Import,
    If,
    Else,
    Print,
    Error,
}

impl View for Token {
    type V = TokenV;

    open spec fn view(&self) -> TokenV {
        match self {
            Token::Comment(t) => TokenV::Comment(t@),
            Token::Identifier(t) => TokenV::Identifier(t@),
            Token::Integer(v) => TokenV::Integer(*v as int),
            Token::Float(t) => TokenV::Float(t@),
            Token::StrLit(t) => TokenV::StrLit(t@),
            Token::Boolean(b) => TokenV::Boolean(*b),
            Token::Import => TokenV::Import,
            Token::If => TokenV::If,
            Token::Else => TokenV::Else,
            Token::Print => TokenV::Print,
            Token::Error => TokenV::Error,
        }
    }
}

/// The cursor after skipping whitespace from `p`.
pub open spec fn skip_ws(s: Seq<char>, p: int) -> int
    decreases s.len() - p,
{
    if 0 <= p && p < s.len() && is_space(s[p]) {
        skip_ws(s, p + 1)
    } else {
        p
    }
}

/// The end of the maximal run of identifier characters (alphanumeric or
/// `_`) from `p`.
pub open spec fn ident_end(s: Seq<char>, p: int) -> int
    decreases s.len() - p,
{
    if 0 <= p && p < s.len() && (is_alpha(s[p]) || is_numeric(s[p]) || s[p] == '_') {
        ident_end(s, p + 1)
    } else {
        p
    }
}

/// The cursor of the next newline at or after `p`, or the end of input.
pub open spec fn line_end(s: Seq<char>, p: int) -> int
    decreases s.len() - p,
{
    if 0 <= p && p < s.len() && s[p] != '\n' {
        line_end(s, p + 1)
    } else {
        p
    }
}

/// The cursor of the closing quote at or after `p`, or the end of input.
pub open spec fn str_end(s: Seq<char>, p: int) -> int
    decreases s.len() - p,
{
    if 0 <= p && p < s.len() && s[p] != '"' {
        str_end(s, p + 1)
    } else {
        p
    }
}

/// The end of a numeric literal begun at `p`: digits and at most one `.`;
/// a second `.` ends the literal. `seen_dot` tells whether a `.` was already
/// taken.
pub open spec fn num_end(s: Seq<char>, p: int, seen_dot: bool) -> int
    decreases s.len() - p,
{
    if 0 <= p && p < s.len() && (is_digit(s[p]) || s[p] == '.') && !(s[p] == '.' && seen_dot) {
        num_end(s, p + 1, seen_dot || s[p] == '.')
    } else {
        p
    }
}

/// Whether the numeric literal begun at `p` takes a `.` before it ends.
pub open spec fn num_dot(s: Seq<char>, p: int, seen_dot: bool) -> bool
    decreases s.len() - p,
{
    if 0 <= p && p < s.len() && (is_digit(s[p]) || s[p] == '.') && !(s[p] == '.' && seen_dot) {
        num_dot(s, p + 1, seen_dot || s[p] == '.')
    } else {
        seen_dot
    }
}

/// The value of a sequence of decimal digits, most significant first.
pub open spec fn digits_val(ds: Seq<char>) -> int
    decreases ds.len(),
{
    if ds.len() == 0 {
        0
    } else {
        digits_val(ds.drop_last()) * 10 + digit_of(ds.last())
    }
}

pub open spec fn kw_import() -> Seq<char> {
    "import"@
}

pub open spec fn kw_if() -> Seq<char> {
    "if"@
}

pub open spec fn kw_else() -> Seq<char> {
    "else"@
}

pub open spec fn kw_print() -> Seq<char> {
    "print"@
}

pub open spec fn kw_true() -> Seq<char> {
    "true"@
}

pub open spec fn kw_false() -> Seq<char> {
    "false"@
}

/// Keywords win over identifiers of the same spelling; every other word
/// becomes an identifier.
pub open spec fn keyword_or_ident(w: Seq<char>) -> TokenV {
    if w == kw_import() {
        TokenV::Import
    } else if w == kw_if() {
        TokenV::If
    } else if w == kw_else() {
        TokenV::Else
    } else if w == kw_print() {
        TokenV::Print
    } else if w == kw_true() {
        TokenV::Boolean(true)
    } else if w == kw_false() {
        TokenV::Boolean(false)
    } else {
        TokenV::Identifier(w)
    }
}

/// The next token from cursor `p`, and the cursor after it.
///
/// Dispatch is on the first character past the whitespace: `#` begins a
/// comment running to the line end, `"` a string literal (unterminated ones
/// degrade to `Error` with the cursor at end of input), an alphabetic
/// character a keyword or identifier, a decimal digit a number; anything
/// else, and end of input, is `Error`, with the cursor left on the
/// offending character.
pub open spec fn next_token_of(s: Seq<char>, p: int) -> (TokenV, int) {
    let q = skip_ws(s, p);
    if !(0 <= q && q < s.len()) {
        (TokenV::Error, q)
    } else {
        let c = s[q];
        if c == '#' {
            let e = line_end(s, q + 1);
            (TokenV::Comment(s.subrange(q + 1, e)), e)
        } else if c == '"' {
            let e = str_end(s, q + 1);
            if e < s.len() {
                (TokenV::StrLit(s.subrange(q + 1, e)), e + 1)
            } else {
                (TokenV::Error, e)
            }
        } else if is_alpha(c) {
            let e = ident_end(s, q);
            (keyword_or_ident(s.subrange(q, e)), e)
        } else if is_digit(c) {
            let e = num_end(s, q, false);
            if num_dot(s, q, false) {
                (TokenV::Float(s.subrange(q, e)), e)
            } else {
                (TokenV::Integer(digits_val(s.subrange(q, e))), e)
            }
        } else {
            (TokenV::Error, q)
        }
    }
}

/// Whether the next token from `p` can be represented: an integer literal
/// whose value exceeds `i64::MAX` cannot, and scanning one is a fatal
/// failure rather than a recoverable `Error` token.
pub open spec fn token_fits(s: Seq<char>, p: int) -> bool {
    match next_token_of(s, p).0 {
        TokenV::Integer(v) => v <= i64::MAX,
        _ => true,
    }
}

/// Whether the character at `p` is `c`.
pub open spec fn at_char(s: Seq<char>, p: int, c: char) -> bool {
    0 <= p && p < s.len() && s[p] == c
}

/// The token the alternate boolean matcher yields from `p`, and the cursor
/// after it: the word is chosen by the first character alone, and the first
/// mismatch stops the match with the matched prefix consumed.
pub open spec fn spec_boolean(s: Seq<char>, p: int) -> (TokenV, int) {
    if at_char(s, p, 't') {
        if at_char(s, p + 1, 'r') {
            if at_char(s, p + 2, 'u') {
                if at_char(s, p + 3, 'e') {
                    (TokenV::Boolean(true), p + 4)
                } else {
                    (TokenV::Error, p + 3)
                }
            } else {
                (TokenV::Error, p + 2)
            }
        } else {
            (TokenV::Error, p + 1)
        }
    } else if at_char(s, p, 'f') {
        if at_char(s, p + 1, 'a') {
            if at_char(s, p + 2, 'l') {
                if at_char(s, p + 3, 's') {
                    if at_char(s, p + 4, 'e') {
                        (TokenV::Boolean(false), p + 5)
                    } else {
                        (TokenV::Error, p + 4)
                    }
                } else {
                    (TokenV::Error, p + 3)
                }
            } else {
                (TokenV::Error, p + 2)
            }
        } else {
            (TokenV::Error, p + 1)
        }
    } else {
        (TokenV::Error, p)
    }
}

/// The cursor `q`, forced into the window `(p, s.len()]`. The scanner never
/// moves backward and never past the end, so wherever this appears it is
/// the identity on the cursor it is given; it makes the strict advance
/// plain to the recursion below.
pub open spec fn step_pos(s: Seq<char>, p: int, q: int) -> int {
    let lo = if q < p + 1 {
        p + 1
    } else {
        q
    };
    if lo > s.len() {
        s.len() as int
    } else {
        lo
    }
}

/// Whether every token from `p` up to the first `Error` fits; the inputs on
/// which a whole scan, and hence a parse, is free of the fatal
/// integer-overflow failure.
pub open spec fn scan_ok(s: Seq<char>, p: int) -> bool
    decreases s.len() - p,
{
    token_fits(s, p) && (if next_token_of(s, p).0 is Error {
        true
    } else {
        scan_ok(s, step_pos(s, p, next_token_of(s, p).1))
    })
}

/// Skipping whitespace never moves the cursor backward nor past the end,
/// and it stops only at the end or on a non-whitespace character.
pub proof fn lemma_skip_ws_bounds(s: Seq<char>, p: int)
    requires
        0 <= p <= s.len(),
    ensures
        p <= skip_ws(s, p) <= s.len(),
        skip_ws(s, p) < s.len() ==> !is_space(s[skip_ws(s, p)]),
    decreases s.len() - p,
{
    if p < s.len() && is_space(s[p]) {
        lemma_skip_ws_bounds(s, p + 1);
    }
}

/// An identifier run stays inside the input.
pub proof fn lemma_ident_end_bounds(s: Seq<char>, p: int)
    requires
        0 <= p <= s.len(),
    ensures
        p <= ident_end(s, p) <= s.len(),
    decreases s.len() - p,
{
    if p < s.len() && (is_alpha(s[p]) || is_numeric(s[p]) || s[p] == '_') {
        lemma_ident_end_bounds(s, p + 1);
    }
}

/// A comment stays inside the input.
pub proof fn lemma_line_end_bounds(s: Seq<char>, p: int)
    requires
        0 <= p <= s.len(),
    ensures
        p <= line_end(s, p) <= s.len(),
    decreases s.len() - p,
{
    if p < s.len() && s[p] != '\n' {
        lemma_line_end_bounds(s, p + 1);
    }
}

/// A string literal stays inside the input.
pub proof fn lemma_str_end_bounds(s: Seq<char>, p: int)
    requires
        0 <= p <= s.len(),
    ensures
        p <= str_end(s, p) <= s.len(),
    decreases s.len() - p,
{
    if p < s.len() && s[p] != '"' {
        lemma_str_end_bounds(s, p + 1);
    }
}

/// A numeric literal stays inside the input.
pub proof fn lemma_num_end_bounds(s: Seq<char>, p: int, seen_dot: bool)
    requires
        0 <= p <= s.len(),
    ensures
        p <= num_end(s, p, seen_dot) <= s.len(),
    decreases s.len() - p,
{
    if p < s.len() && (is_digit(s[p]) || s[p] == '.') && !(s[p] == '.' && seen_dot) {
        lemma_num_end_bounds(s, p + 1, seen_dot || s[p] == '.');
    }
}

/// Scanning never moves the cursor backward nor past the end, and every
/// token but `Error` strictly advances it.
pub proof fn lemma_token_bounds(s: Seq<char>, p: int)
    requires
        0 <= p <= s.len(),
    ensures
        p <= next_token_of(s, p).1 <= s.len(),
        !(next_token_of(s, p).0 is Error) ==> next_token_of(s, p).1 > p,
        !(next_token_of(s, p).0 is Error) ==> step_pos(s, p, next_token_of(s, p).1)
            == next_token_of(s, p).1,
    decreases s.len() - p,
{
    lemma_skip_ws_bounds(s, p);
    let q = skip_ws(s, p);
    if 0 <= q && q < s.len() {
        let c = s[q];
        if c == '#' {
            lemma_line_end_bounds(s, q + 1);
        } else if c == '"' {
            lemma_str_end_bounds(s, q + 1);
        } else if is_alpha(c) {
            assert(ident_end(s, q) == ident_end(s, q + 1));
            lemma_ident_end_bounds(s, q + 1);
        } else if is_digit(c) {
            assert(num_end(s, q, false) == num_end(s, q + 1, s[q] == '.'));
            lemma_num_end_bounds(s, q + 1, s[q] == '.');
        }
    }
}

/// Past an `Error`, scanning again returns `Error` from the same cursor:
/// the scanner is idempotent at end of input, on an unrecognized character
/// and after an unterminated string.
pub proof fn lemma_error_stable(s: Seq<char>, p: int)
    requires
        0 <= p <= s.len(),
        next_token_of(s, p).0 is Error,
    ensures
        next_token_of(s, next_token_of(s, p).1).0 is Error,
        next_token_of(s, next_token_of(s, p).1).1 == next_token_of(s, p).1,
{
    lemma_skip_ws_bounds(s, p);
    let q = skip_ws(s, p);
    let e = next_token_of(s, p).1;
    if 0 <= q && q < s.len() && s[q] == '"' {
        lemma_str_end_bounds(s, q + 1);
    }
    assert(skip_ws(s, e) == e);
}

/// The scanner: a character cursor over the whole input. It hands out one
/// token per call, on demand.
pub struct Lexer {
    chars: Vec<char>,
    pos: usize,
}

impl Lexer {
    /// The input text.
    pub closed spec fn input(&self) -> Seq<char> {
        self.chars@
    }

    /// The cursor: the index of the current character, or the input length
    /// at end of input.
    pub closed spec fn at(&self) -> int {
        self.pos as int
    }

    pub open spec fn wf(&self) -> bool {
        0 <= self.at() <= self.input().len()
    }

    /// A scanner over `input` with the cursor on the first character.
    pub fn new(input: &str) -> (l: Lexer)
        ensures
            l.wf(),
            l.input() == input@,
            l.at() == 0,
    {
        let n = input.unicode_len();
        let mut chars: Vec<char> = Vec::new();
        let mut i: usize = 0;
        while i < n
            invariant
                i <= n,
                n == input@.len(),
                chars@ == input@.subrange(0, i as int),
            decreases n - i,
    {
            let c = input.get_char(i);
            chars.push(c);
            proof {
                assert(chars@ =~= input@.subrange(0, i + 1));
            }
            i = i + 1;
        }
        proof {
            assert(chars@ =~= input@);
        }
        Lexer { chars, pos: 0 }
    }

    /// Moves the cursor one character forward; at end of input it stays.
    pub fn advance(&mut self)
        requires
            old(self).wf(),
        ensures
            final(self).wf(),
            final(self).input() == old(self).input(),
            final(self).at() == if old(self).at() < old(self).input().len() {
                old(self).at() + 1
            } else {
                old(self).at()
            },
    {
        if self.pos < self.chars.len() {
            self.pos = self.pos + 1;
        }
    }

    /// The current character, or `None` at end of input.
    fn current(&self) -> (c: Option<char>)
        requires
            self.wf(),
        ensures
            c == if self.at() < self.input().len() {
                Some(self.input()[self.at()])
            } else {
                None::<char>
            },
    {
        if self.pos < self.chars.len() {
            Some(self.chars[self.pos])
        } else {
            None
        }
    }

    /// Whether the cursor stands on a whitespace character.
    fn at_space(&self) -> (b: bool)
        requires
            self.wf(),
        ensures
            b == (self.at() < self.input().len() && is_space(self.input()[self.at()])),
    {
        if self.pos < self.chars.len() {
            self.chars[self.pos].is_whitespace()
        } else {
            false
        }
    }

    /// Whether the cursor stands on a character a comment may still take.
    fn at_comment_char(&self) -> (b: bool)
        requires
            self.wf(),
        ensures
            b == (self.at() < self.input().len() && self.input()[self.at()] != '\n'),
    {
        if self.pos < self.chars.len() {
            self.chars[self.pos] != '\n'
        } else {
            false
        }
    }

    /// Whether the cursor stands on an identifier character.
    fn at_ident_char(&self) -> (b: bool)
        requires
            self.wf(),
        ensures
            b == (self.at() < self.input().len() && (is_alpha(self.input()[self.at()])
                || is_numeric(self.input()[self.at()]) || self.input()[self.at()] == '_')),
    {
        if self.pos < self.chars.len() {
            let c = self.chars[self.pos];
            c.is_alphanumeric() || c == '_'
        } else {
            false
        }
    }

    /// Whether the cursor stands on a character a string literal may still
    /// take.
    fn at_string_char(&self) -> (b: bool)
        requires
            self.wf(),
        ensures
            b == (self.at() < self.input().len() && self.input()[self.at()] != '"'),
    {
        if self.pos < self.chars.len() {
            self.chars[self.pos] != '"'
        } else {
            false
        }
    }

    /// Whether the cursor stands on a character a numeric literal that has
    /// already taken a dot iff `seen_dot` may still take.
    fn at_number_char(&self, seen_dot: bool) -> (b: bool)
        requires
            self.wf(),
        ensures
            b == (self.at() < self.input().len() && (is_digit(self.input()[self.at()])
                || self.input()[self.at()] == '.') && !(self.input()[self.at()] == '.'
                && seen_dot)),
    {
        if self.pos < self.chars.len() {
            let c = self.chars[self.pos];
            (char_is_digit(c) || c == '.') && !(c == '.' && seen_dot)
        } else {
            false
        }
    }

    /// Skips insignificant whitespace, newlines included.
    pub fn skip_whitespace(&mut self)
        requires
            old(self).wf(),
        ensures
            final(self).wf(),
            final(self).input() == old(self).input(),
            final(self).at() == skip_ws(old(self).input(), old(self).at()),
    {
        while self.at_space()
            invariant
                self.wf(),
                self.input() == old(self).input(),
                skip_ws(old(self).input(), old(self).at()) == skip_ws(self.input(), self.at()),
            decreases self.input().len() - self.at(),
        {
            self.advance();
        }
    }

    /// Takes the rest of the line, the cursor standing just past a `#`, and
    /// returns it as a comment token; the closing newline is not consumed.
    pub fn skip_comment(&mut self) -> (t: Token)
        requires
            old(self).wf(),
        ensures
            final(self).wf(),
            final(self).input() == old(self).input(),
            final(self).at() == line_end(old(self).input(), old(self).at()),
            t@ == TokenV::Comment(old(self).input().subrange(
                old(self).at(),
                line_end(old(self).input(), old(self).at()),
            )),
    {
        let ghost a = self.at();
        let mut text: Vec<char> = Vec::new();
        while self.at_comment_char()
            invariant
                self.wf(),
                self.input() == old(self).input(),
                0 <= a <= self.at(),
                text@ == self.input().subrange(a, self.at()),
                line_end(self.input(), a) == line_end(self.input(), self.at()),
            decreases self.input().len() - self.at(),
        {
            let c = self.chars[self.pos];
            text.push(c);
            proof {
                assert(text@ =~= self.input().subrange(a, self.at() + 1));
            }
            self.advance();
        }
        Token::Comment(string_from_chars(text))
    }

    /// Takes the maximal run of identifier characters from the cursor.
    pub fn get_identifier(&mut self) -> (r: String)
        requires
            old(self).wf(),
        ensures
            final(self).wf(),
            final(self).input() == old(self).input(),
            final(self).at() == ident_end(old(self).input(), old(self).at()),
            r@ == old(self).input().subrange(
                old(self).at(),
                ident_end(old(self).input(), old(self).at()),
            ),
    {
        let ghost a = self.at();
        let mut text: Vec<char> = Vec::new();
        while self.at_ident_char()
            invariant
                self.wf(),
                self.input() == old(self).input(),
                0 <= a <= self.at(),
                text@ == self.input().subrange(a, self.at()),
                ident_end(self.input(), a) == ident_end(self.input(), self.at()),
            decreases self.input().len() - self.at(),
        {
            let c = self.chars[self.pos];
            text.push(c);
            proof {
                assert(text@ =~= self.input().subrange(a, self.at() + 1));
            }
            self.advance();
        }
        string_from_chars(text)
    }

    /// Takes a string literal, the cursor standing on the opening quote.
    /// The closing quote is consumed; an unterminated literal degrades to
    /// `Error` with the cursor at end of input.
    pub fn get_string(&mut self) -> (t: Token)
        requires
            old(self).wf(),
            old(self).at() < old(self).input().len(),
        ensures
            final(self).wf(),
            final(self).input() == old(self).input(),
            ({
                let e = str_end(old(self).input(), old(self).at() + 1);
                if e < old(self).input().len() {
                    t@ == TokenV::StrLit(old(self).input().subrange(old(self).at() + 1, e))
                        && final(self).at() == e + 1
                } else {
                    t@ == TokenV::Error && final(self).at() == e
                }
            }),
    {
        let ghost a = self.at() + 1;
        let mut text: Vec<char> = Vec::new();
        self.advance();
        while self.at_string_char()
            invariant
                self.wf(),
                self.input() == old(self).input(),
                0 <= a <= self.at(),
                text@ == self.input().subrange(a, self.at()),
                str_end(self.input(), a) == str_end(self.input(), self.at()),
            decreases self.input().len() - self.at(),
        {
            let c = self.chars[self.pos];
            text.push(c);
            proof {
                assert(text@ =~= self.input().subrange(a, self.at() + 1));
            }
            self.advance();
        }
        if self.pos < self.chars.len() {
            self.advance();
            Token::StrLit(string_from_chars(text))
        } else {
            Token::Error
        }
    }

    /// Takes a numeric literal, the cursor standing on a digit: digits with
    /// at most one `.`; a second `.` ends the literal and stays unconsumed.
    /// A literal without a dot is an integer token; one whose value does not
    /// fit a 64-bit signed integer cannot be made into a token, and `None`
    /// reports that fatal failure. A literal with a dot keeps its source
    /// text.
    pub fn get_number(&mut self) -> (r: Option<Token>)
        requires
            old(self).wf(),
        ensures
            final(self).wf(),
            final(self).input() == old(self).input(),
            final(self).at() == num_end(old(self).input(), old(self).at(), false),
            ({
                let s = old(self).input();
                let a = old(self).at();
                let e = num_end(s, a, false);
                if num_dot(s, a, false) {
                    r matches Some(t) && t@ == TokenV::Float(s.subrange(a, e))
                } else if digits_val(s.subrange(a, e)) <= i64::MAX {
                    r matches Some(t) && t@ == TokenV::Integer(digits_val(s.subrange(a, e)))
                } else {
                    r is None
                }
            }),
    {
        let ghost s = self.input();
        let ghost a = self.at();
        let mut text: Vec<char> = Vec::new();
        let mut is_float = false;
        let mut val: i64 = 0;
        let mut too_big = false;
        proof {
            assert(text@ =~= s.subrange(a, a));
        }
        while self.at_number_char(is_float)
            invariant
                self.wf(),
                self.input() == s,
                0 <= a <= self.at(),
                text@ == s.subrange(a, self.at()),
                num_end(s, a, false) == num_end(s, self.at(), is_float),
                num_dot(s, a, false) == num_dot(s, self.at(), is_float),
                !is_float && !too_big ==> 0 <= val && val == digits_val(text@),
                !is_float && too_big ==> digits_val(text@) > i64::MAX,
            decreases self.input().len() - self.at(),
        {
            let c = self.chars[self.pos];
            let ghost old_text = text@;
            if c == '.' {
                is_float = true;
            } else if !is_float {
                let u = c as u32;
                let d = (u - 48) as i64;
                if !too_big && val <= (i64::MAX - d) / 10 {
                    proof {
                        vstd::arithmetic::div_mod::lemma_fundamental_div_mod(
                            i64::MAX - d,
                            10,
                        );
                        vstd::arithmetic::mul::lemma_mul_inequality(
                            val as int,
                            (i64::MAX - d) as int / 10,
                            10,
                        );
                    }
                    val = val * 10 + d;
                } else {
                    proof {
                        if !too_big {
                            vstd::arithmetic::div_mod::lemma_fundamental_div_mod(
                                i64::MAX - d,
                                10,
                            );
                            vstd::arithmetic::mul::lemma_mul_inequality(
                                (i64::MAX - d) as int / 10 + 1,
                                val as int,
                                10,
                            );
                        } else {
                            vstd::arithmetic::mul::lemma_mul_inequality(
                                i64::MAX + 1,
                                digits_val(old_text),
                                10,
                            );
                        }
                    }
                    too_big = true;
                }
            }
            text.push(c);
            proof {
                assert(text@ =~= s.subrange(a, self.at() + 1));
                assert(text@.drop_last() =~= old_text);
            }
            self.advance();
        }
        if is_float {
            Some(Token::Float(string_from_chars(text)))
        } else if too_big {
            None
        } else {
            Some(Token::Integer(val))
        }
    }

    /// Scans the next token and moves the cursor past it, as
    /// `next_token_of` states. `None` reports the one fatal failure, an
    /// integer literal whose value does not fit `i64`; every other
    /// malformed construct, and end of input, degrades to the `Error`
    /// token.
    pub fn get_next_token_checked(&mut self) -> (r: Option<Token>)
        requires
            old(self).wf(),
        ensures
            final(self).wf(),
            final(self).input() == old(self).input(),
            final(self).at() == next_token_of(old(self).input(), old(self).at()).1,
            token_fits(old(self).input(), old(self).at()) ==> (r matches Some(t) && t@
                == next_token_of(old(self).input(), old(self).at()).0),
            !token_fits(old(self).input(), old(self).at()) ==> r is None,
    {
        self.skip_whitespace();
        let copt = self.current();
        match copt {
            None => Some(Token::Error),
            Some(c) => {
                if c == '#' {
                    self.advance();
                    Some(self.skip_comment())
                } else if c == '"' {
                    Some(self.get_string())
                } else if c.is_alphabetic() {
                    let word = self.get_identifier();
                    if str_eq_str(word.as_str(), "import") {
                        Some(Token::Import)
                    } else if str_eq_str(word.as_str(), "if") {
                        Some(Token::If)
                    } else if str_eq_str(word.as_str(), "else") {
                        Some(Token::Else)
                    } else if str_eq_str(word.as_str(), "print") {
                        Some(Token::Print)
                    } else if str_eq_str(word.as_str(), "true") {
                        Some(Token::Boolean(true))
                    } else if str_eq_str(word.as_str(), "false") {
                        Some(Token::Boolean(false))
                    } else {
                        Some(Token::Identifier(word))
                    }
                } else if char_is_digit(c) {
                    self.get_number()
                } else {
                    Some(Token::Error)
                }
            },
        }
    }

    /// Whether the cursor stands on the character `c`.
    fn cur_is(&self, c: char) -> (b: bool)
        requires
            self.wf(),
        ensures
            b == at_char(self.input(), self.at(), c),
    {
        if self.pos < self.chars.len() {
            self.chars[self.pos] == c
        } else {
            false
        }
    }

    /// The alternate boolean matcher: reads `true` or `false` character by
    /// character, the word chosen by the first character alone, and
    /// degrades to `Error` on the first mismatch, with the matched prefix
    /// consumed and no fallback to an identifier. The keyword lookup of
    /// `get_next_token` already intercepts both words, so ordinary dispatch
    /// never routes here; the matcher serves a caller that bypasses keyword
    /// lookup.
    pub fn get_boolean(&mut self) -> (t: Token)
        requires
            old(self).wf(),
        ensures
            final(self).wf(),
            final(self).input() == old(self).input(),
            t@ == spec_boolean(old(self).input(), old(self).at()).0,
            final(self).at() == spec_boolean(old(self).input(), old(self).at()).1,
    {
        if self.cur_is('t') {
            self.advance();
            if self.cur_is('r') {
                self.advance();
                if self.cur_is('u') {
                    self.advance();
                    if self.cur_is('e') {
                        self.advance();
                        return Token::Boolean(true);
                    }
                }
            }
        } else if self.cur_is('f') {
            self.advance();
            if self.cur_is('a') {
                self.advance();
                if self.cur_is('l') {
                    self.advance();
                    if self.cur_is('s') {
                        self.advance();
                        if self.cur_is('e') {
                            self.advance();
                            return Token::Boolean(false);
                        }
                    }
                }
            }
        }
        Token::Error
    }

    /// Scans the next token and moves the cursor past it. The caller keeps
    /// away from the fatal inputs, integer literals beyond `i64::MAX`, on
    /// which the run cannot go on; `get_next_token_checked` reports those
    /// instead of demanding their absence.
    pub fn get_next_token(&mut self) -> (t: Token)
        requires
            old(self).wf(),
            token_fits(old(self).input(), old(self).at()),
        ensures
            final(self).wf(),
            final(self).input() == old(self).input(),
            final(self).at() == next_token_of(old(self).input(), old(self).at()).1,
            t@ == next_token_of(old(self).input(), old(self).at()).0,
    {
        let r = self.get_next_token_checked();
        match r {
            Some(t) => t,
            None => {
                proof {
                    assert(false);
                }
                Token::Error
            },
        }
    }
}

} // verus!
