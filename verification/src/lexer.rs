//! The lexer: turns VORTEX source text into tokens, one at a time.
//!
//! `lex_next` states what one call of `Lexer::next_token` reads and returns.
use crate::text::{chars_of, push_char};
use crate::token::{Token, TokenV};
use vstd::prelude::*;

verus! {

broadcast use vstd::string::group_string_axioms;

/// Whether the character has the Unicode `White_Space` property, as
/// `char::is_whitespace` tests: tab through carriage return, space, next
/// line, no-break space, ogham space mark, the spaces from en quad to hair
/// space, line and paragraph separators, narrow no-break space, medium
/// mathematical space and ideographic space.
pub open spec fn is_whitespace(c: char) -> bool {
    let u = c as u32;
    ||| 0x9 <= u <= 0xD
    ||| u == 0x20
    ||| u == 0x85
    ||| u == 0xA0
    ||| u == 0x1680
    ||| 0x2000 <= u <= 0x200A
    ||| u == 0x2028
    ||| u == 0x2029
    ||| u == 0x202F
    ||| u == 0x205F
    ||| u == 0x3000
}

/// Whether `char::is_alphabetic` holds of a character beyond ASCII.
pub uninterp spec fn non_ascii_alphabetic(c: char) -> bool;

/// Whether `char::is_alphanumeric` holds of a character beyond ASCII.
pub uninterp spec fn non_ascii_alphanumeric(c: char) -> bool;

/// Whether the character has the Unicode `Alphabetic` property: among
/// ASCII characters, exactly the letters.
pub open spec fn is_alphabetic(c: char) -> bool {
    if (c as u32) < 0x80 {
        'a' <= c <= 'z' || 'A' <= c <= 'Z'
    } else {
        non_ascii_alphabetic(c)
    }
}

/// Whether the character is alphabetic or numeric in Unicode: among ASCII
/// characters, exactly the letters and digits.
pub open spec fn is_alphanumeric(c: char) -> bool {
    if (c as u32) < 0x80 {
        'a' <= c <= 'z' || 'A' <= c <= 'Z' || '0' <= c <= '9'
    } else {
        non_ascii_alphanumeric(c)
    }
}

/// Whether the character has the Unicode `White_Space` property.
pub(crate) fn char_is_whitespace(c: char) -> (r: bool)
    ensures
        r == is_whitespace(c),
{
    let u = c as u32;
    (0x9 <= u && u <= 0xD) || u == 0x20 || u == 0x85 || u == 0xA0 || u == 0x1680 || (0x2000 <= u && u
        <= 0x200A) || u == 0x2028 || u == 0x2029 || u == 0x202F || u == 0x205F || u == 0x3000
}

/// Calls `char::is_alphabetic` (Unicode `Alphabetic`): of an ASCII
/// character it holds exactly of the letters; beyond ASCII its result is
/// named `non_ascii_alphabetic`, of which nothing more is stated.
#[verifier::external_body]
fn char_is_alphabetic(c: char) -> (r: bool)
    ensures
        r == if (c as u32) < 0x80 {
            'a' <= c <= 'z' || 'A' <= c <= 'Z'
        } else {
            non_ascii_alphabetic(c)
        },
{
    c.is_alphabetic()
}

/// Calls `char::is_alphanumeric` (Unicode `Alphabetic` or `Numeric`): of
/// an ASCII character it holds exactly of the letters and digits; beyond
/// ASCII its result is named `non_ascii_alphanumeric`, of which nothing
/// more is stated.
#[verifier::external_body]
fn char_is_alphanumeric(c: char) -> (r: bool)
    ensures
        r == if (c as u32) < 0x80 {
            'a' <= c <= 'z' || 'A' <= c <= 'Z' || '0' <= c <= '9'
        } else {
            non_ascii_alphanumeric(c)
        },
{
    c.is_alphanumeric()
}

pub open spec fn is_digit(c: char) -> bool {
    '0' <= c <= '9'
}

pub open spec fn is_word_char(c: char) -> bool {
    is_alphanumeric(c) || c == '_'
}

/// Whether position `p` of `s` holds `c`.
pub open spec fn char_at_is(s: Seq<char>, p: int, c: char) -> bool {
    0 <= p < s.len() && s[p] == c
}

/// The first position at or after `p` whose character fails `pred` (or the
/// end of the text).
pub open spec fn scan_while(s: Seq<char>, p: nat, pred: spec_fn(char) -> bool) -> nat
    decreases s.len() - p,
{
    if p < s.len() && pred(s[p as int]) {
        scan_while(s, p + 1, pred)
    } else {
        p
    }
}

pub proof fn lemma_scan_while(s: Seq<char>, p: nat, pred: spec_fn(char) -> bool)
    ensures
        p <= scan_while(s, p, pred),
        p <= s.len() ==> scan_while(s, p, pred) <= s.len(),
        p > s.len() ==> scan_while(s, p, pred) == p,
        forall|i: int| p <= i < scan_while(s, p, pred) ==> pred(#[trigger] s[i]),
        scan_while(s, p, pred) < s.len() ==> !pred(s[scan_while(s, p, pred) as int]),
    decreases s.len() - p,
{
    if p < s.len() && pred(s[p as int]) {
        lemma_scan_while(s, p + 1, pred);
    }
}

/// The first position at or after `p` that is not whitespace.
pub open spec fn skip_ws(s: Seq<char>, p: nat) -> nat {
    scan_while(s, p, |c: char| is_whitespace(c))
}

/// The first position at or after `p` that holds a newline (or the end).
pub open spec fn line_end(s: Seq<char>, p: nat) -> nat {
    scan_while(s, p, |c: char| c != '\n')
}

/// The first position at or after `p` that holds a double quote (or the end).
pub open spec fn quote_end(s: Seq<char>, p: nat) -> nat {
    scan_while(s, p, |c: char| c != '"')
}

/// The first position at or after `p` that is not an ASCII digit.
pub open spec fn digits_end(s: Seq<char>, p: nat) -> nat {
    scan_while(s, p, |c: char| is_digit(c))
}

/// The first position at or after `p` that is not a letter, digit or `_`.
pub open spec fn word_end(s: Seq<char>, p: nat) -> nat {
    scan_while(s, p, |c: char| is_word_char(c))
}

/// The value of a run of decimal digits.
pub open spec fn digits_value(d: Seq<char>) -> int
    decreases d.len(),
{
    if d.len() == 0 {
        0
    } else {
        digits_value(d.drop_last()) * 10 + (d.last() as int - '0' as int)
    }
}

pub open spec fn all_digits(d: Seq<char>) -> bool {
    forall|i: int| 0 <= i < d.len() ==> is_digit(#[trigger] d[i])
}

proof fn lemma_digits_nonneg(d: Seq<char>)
    requires
        all_digits(d),
    ensures
        digits_value(d) >= 0,
    decreases d.len(),
{
    if d.len() > 0 {
        lemma_digits_nonneg(d.drop_last());
    }
}

/// The value of a prefix of a run of digits is at most that of the run.
proof fn lemma_digits_prefix(d: Seq<char>, k: int)
    requires
        all_digits(d),
        0 <= k <= d.len(),
    ensures
        digits_value(d.take(k)) <= digits_value(d),
    decreases d.len() - k,
{
    if k < d.len() {
        lemma_digits_prefix(d, k + 1);
        assert(d.take(k + 1).drop_last() =~= d.take(k));
        lemma_digits_nonneg(d.take(k));
    } else {
        assert(d.take(k) =~= d);
    }
}

/// The token a word stands for: a keyword, a boolean, or an identifier.
pub open spec fn keyword(w: Seq<char>) -> TokenV {
    if w == seq!['l', 'e', 't'] {
        TokenV::Let
    } else if w == seq!['m', 'u', 't'] {
        TokenV::Mut
    } else if w == seq!['i', 'f'] {
        TokenV::If
    } else if w == seq!['t', 'h', 'e', 'n'] {
        TokenV::Then
    } else if w == seq!['e', 'l', 's', 'e'] {
        TokenV::Else
    } else if w == seq!['f', 'o', 'r'] {
        TokenV::For
    } else if w == seq!['i', 'n'] {
        TokenV::In
    } else if w == seq!['r', 'a', 'n', 'g', 'e'] {
        TokenV::Range
    } else if w == seq!['f', 'n'] {
        TokenV::Fn
    } else if w == seq!['r', 'e', 't', 'u', 'r', 'n'] {
        TokenV::Return
    } else if w == seq!['t', 'r', 'u', 'e'] {
        TokenV::Boolean(true)
    } else if w == seq!['f', 'a', 'l', 's', 'e'] {
        TokenV::Boolean(false)
    } else if w == seq!['b', 'r', 'a', 'n', 'c', 'h'] {
        TokenV::Branch
    } else if w == seq!['f', 'a', 'l', 'l', 'b', 'a', 'c', 'k'] {
        TokenV::Fallback
    } else if w == seq!['p', 'a', 'r', 'a', 'l', 'l', 'e', 'l'] {
        TokenV::Parallel
    } else {
        TokenV::Identifier(w)
    }
}

/// A two-character operator if the next character is `second`, else the
/// one-character one.
pub open spec fn pick(s: Seq<char>, r: nat, second: char, two: TokenV, one: TokenV) -> (TokenV, nat) {
    if char_at_is(s, r as int, second) {
        (two, r + 1)
    } else {
        (one, r)
    }
}

/// The token that starts at or after position `p` of `s`, and the position
/// just after it.  Whitespace and `//` comments are skipped; an unknown
/// character, a lone `!` and the end of the text read as `EOF`.
pub open spec fn lex_next(s: Seq<char>, p: nat) -> (TokenV, nat)
    decreases s.len() - p,
{
    let q = skip_ws(s, p);
    if q >= s.len() {
        (TokenV::EOF, q + 1)
    } else {
        let c = s[q as int];
        let r = q + 1;
        if c == '=' {
            if char_at_is(s, r as int, '=') {
                (TokenV::EQ, r + 1)
            } else {
                pick(s, r, '>', TokenV::FatArrow, TokenV::Equals)
            }
        } else if c == '-' {
            pick(s, r, '>', TokenV::Arrow, TokenV::Minus)
        } else if c == '!' {
            pick(s, r, '=', TokenV::NE, TokenV::EOF)
        } else if c == '>' {
            pick(s, r, '=', TokenV::GE, TokenV::GT)
        } else if c == '<' {
            pick(s, r, '=', TokenV::LE, TokenV::LT)
        } else if c == '+' {
            (TokenV::Plus, r)
        } else if c == '*' {
            (TokenV::Star, r)
        } else if c == '/' {
            if char_at_is(s, r as int, '/') {
                proof {
                    lemma_scan_while(s, p, |c: char| is_whitespace(c));
                    lemma_scan_while(s, r + 1, |c: char| c != '\n');
                }
                lex_next(s, line_end(s, r + 1))
            } else {
                (TokenV::Slash, r)
            }
        } else if c == ':' {
            (TokenV::Colon, r)
        } else if c == '.' {
            pick(s, r, '.', TokenV::Range, TokenV::Dot)
        } else if c == ',' {
            (TokenV::Comma, r)
        } else if c == '(' {
            (TokenV::Lparen, r)
        } else if c == ')' {
            (TokenV::Rparen, r)
        } else if c == '{' {
            (TokenV::LBrace, r)
        } else if c == '}' {
            (TokenV::RBrace, r)
        } else if c == '[' {
            (TokenV::Lsquare, r)
        } else if c == ']' {
            (TokenV::Rsquare, r)
        } else if c == '"' {
            let e = quote_end(s, r);
            (TokenV::String(s.subrange(r as int, e as int)), if e < s.len() { e + 1 } else { e })
        } else if is_digit(c) {
            let e1 = digits_end(s, r);
            if char_at_is(s, e1 as int, '.') && !char_at_is(s, (e1 + 1) as int, '.') {
                let e2 = digits_end(s, e1 + 1);
                (TokenV::Floating(s.subrange(q as int, e2 as int)), e2)
            } else {
                (TokenV::Number(digits_value(s.subrange(q as int, e1 as int))), e1)
            }
        } else if c == '@' {
            let e = word_end(s, r);
            let w = s.subrange(q as int, e as int);
            (if w == seq!['@', 'g', 'p', 'u'] {
                TokenV::GPU
            } else {
                TokenV::Identifier(w)
            }, e)
        } else if is_alphabetic(c) || c == '_' {
            let e = word_end(s, r);
            (keyword(s.subrange(q as int, e as int)), e)
        } else {
            (TokenV::EOF, r)
        }
    }
}

/// The next token can be produced: an integer literal there fits in `i64`.
pub open spec fn lex_fits(s: Seq<char>, p: nat) -> bool {
    match lex_next(s, p).0 {
        TokenV::Number(n) => n <= i64::MAX,
        _ => true,
    }
}

/// Every token other than `EOF` lies after the position where lexing
/// started, and ends within the text.
pub proof fn lemma_lex_next_advances(s: Seq<char>, p: nat)
    requires
        p <= s.len(),
    ensures
        lex_next(s, p).0 != TokenV::EOF ==> p < lex_next(s, p).1 <= s.len(),
    decreases s.len() - p,
{
    let q = skip_ws(s, p);
    lemma_scan_while(s, p, |c: char| is_whitespace(c));
    if q < s.len() {
        let c = s[q as int];
        let r = q + 1;
        lemma_scan_while(s, r, |c: char| c != '"');
        lemma_scan_while(s, r, |c: char| is_digit(c));
        lemma_scan_while(s, r, |c: char| is_word_char(c));
        if c == '/' && char_at_is(s, r as int, '/') {
            lemma_scan_while(s, r + 1, |c: char| c != '\n');
            lemma_lex_next_advances(s, line_end(s, r + 1));
        }
        if is_digit(c) {
            let e1 = digits_end(s, r);
            if char_at_is(s, e1 as int, '.') {
                lemma_scan_while(s, e1 + 1, |c: char| is_digit(c));
            }
        }
    }
}

/// The tokens read from position `p` on, up to the first `EOF`.
pub open spec fn lex_tokens(s: Seq<char>, p: nat) -> Seq<TokenV>
    decreases s.len() - p,
{
    let (t, q) = lex_next(s, p);
    if t == TokenV::EOF || q <= p || q > s.len() {
        Seq::empty()
    } else {
        seq![t] + lex_tokens(s, q)
    }
}

/// Every token read from position `p` on, up to the first `EOF`, can be
/// read: no number literal among them exceeds `i64::MAX`.
pub open spec fn lexes(s: Seq<char>, p: nat) -> bool
    decreases s.len() - p,
{
    let (t, q) = lex_next(s, p);
    lex_fits(s, p) && (t == TokenV::EOF || q <= p || q > s.len() || lexes(s, q))
}

/// A lexer over a fixed text and a current position.
pub struct Lexer {
    input: Vec<char>,
    position: usize,
}

impl Lexer {
    /// The characters being lexed.
    pub closed spec fn text(&self) -> Seq<char> {
        self.input@
    }

    /// The current position in the text.
    pub closed spec fn pos(&self) -> nat {
        self.position as nat
    }

    pub fn new(input: &str) -> (lexer: Self)
        ensures
            lexer.text() == input@,
            lexer.pos() == 0,
    {
        let chars = chars_of(input);
        Lexer { input: chars, position: 0 }
    }

    fn peek(&self) -> (c: Option<char>)
        ensures
            c == (if self.pos() < self.text().len() {
                Some(self.text()[self.pos() as int])
            } else {
                None
            }),
    {
        if self.position < self.input.len() {
            Some(self.input[self.position])
        } else {
            None
        }
    }

    fn peek_next(&self) -> (c: Option<char>)
        requires
            self.pos() < usize::MAX,
        ensures
            c == (if self.pos() + 1 < self.text().len() {
                Some(self.text()[(self.pos() + 1) as int])
            } else {
                None
            }),
    {
        self.peek_nth(1)
    }

    fn peek_nth(&self, n: usize) -> (c: Option<char>)
        requires
            self.pos() + n <= usize::MAX,
        ensures
            c == (if self.pos() + n < self.text().len() {
                Some(self.text()[(self.pos() + n) as int])
            } else {
                None
            }),
    {
        let i = self.position + n;
        if i < self.input.len() {
            Some(self.input[i])
        } else {
            None
        }
    }

    /// Moves one position forward and returns the character passed over.
    fn advance(&mut self) -> (c: Option<char>)
        requires
            old(self).pos() < usize::MAX,
        ensures
            c == (if old(self).pos() < old(self).text().len() {
                Some(old(self).text()[old(self).pos() as int])
            } else {
                None
            }),
            final(self).pos() == old(self).pos() + 1,
            final(self).text() == old(self).text(),
    {
        let ch = self.peek();
        self.position = self.position + 1;
        ch
    }

    fn skip_whitespace(&mut self)
        requires
            old(self).text().len() < usize::MAX,
        ensures
            final(self).pos() == skip_ws(old(self).text(), old(self).pos()),
            final(self).text() == old(self).text(),
    {
        while self.position < self.input.len() && char_is_whitespace(self.input[self.position])
            invariant
                self.input@.len() < usize::MAX,
                skip_ws(self.text(), self.pos()) == skip_ws(self.text(), old(self).pos()),
                self.text() == old(self).text(),
            decreases self.input@.len() - self.position,
        {
            self.advance();
        }
    }

    /// Reads the `.` at the current position as the start of a range `..`
    /// or as a lone dot.
    fn handle_range(&mut self) -> (t: Token)
        requires
            old(self).pos() < old(self).text().len() < usize::MAX,
        ensures
            (t@, final(self).pos()) == pick(
                old(self).text(),
                old(self).pos() + 1,
                '.',
                TokenV::Range,
                TokenV::Dot,
            ),
            final(self).text() == old(self).text(),
    {
        self.advance();
        if self.peek() == Some('.') {
            self.advance();
            Token::Range
        } else {
            Token::Dot
        }
    }

    /// Skips to the end of the line (the newline itself is not consumed).
    fn skip_comment(&mut self)
        requires
            old(self).text().len() < usize::MAX,
        ensures
            final(self).pos() == line_end(old(self).text(), old(self).pos()),
            final(self).text() == old(self).text(),
    {
        while self.position < self.input.len() && self.input[self.position] != '\n'
            invariant
                self.input@.len() < usize::MAX,
                line_end(self.text(), self.pos()) == line_end(self.text(), old(self).pos()),
                self.text() == old(self).text(),
            decreases self.input@.len() - self.position,
        {
            self.advance();
        }
    }

    fn scan_digits(&mut self)
        requires
            old(self).text().len() < usize::MAX,
        ensures
            final(self).pos() == digits_end(old(self).text(), old(self).pos()),
            final(self).text() == old(self).text(),
    {
        while self.position < self.input.len() && '0' <= self.input[self.position]
            && self.input[self.position] <= '9'
            invariant
                self.input@.len() < usize::MAX,
                digits_end(self.text(), self.pos()) == digits_end(self.text(), old(self).pos()),
                self.text() == old(self).text(),
            decreases self.input@.len() - self.position,
        {
            self.advance();
        }
    }

    fn scan_word(&mut self)
        requires
            old(self).text().len() < usize::MAX,
        ensures
            final(self).pos() == word_end(old(self).text(), old(self).pos()),
            final(self).text() == old(self).text(),
    {
        while self.position < self.input.len() && (char_is_alphanumeric(self.input[self.position])
            || self.input[self.position] == '_')
            invariant
                self.input@.len() < usize::MAX,
                word_end(self.text(), self.pos()) == word_end(self.text(), old(self).pos()),
                self.text() == old(self).text(),
            decreases self.input@.len() - self.position,
        {
            self.advance();
        }
    }

    fn scan_to_quote(&mut self)
        requires
            old(self).text().len() < usize::MAX,
        ensures
            final(self).pos() == quote_end(old(self).text(), old(self).pos()),
            final(self).text() == old(self).text(),
    {
        while self.position < self.input.len() && self.input[self.position] != '"'
            invariant
                self.input@.len() < usize::MAX,
                quote_end(self.text(), self.pos()) == quote_end(self.text(), old(self).pos()),
                self.text() == old(self).text(),
            decreases self.input@.len() - self.position,
        {
            self.advance();
        }
    }

    /// The text between two positions, as a string.
    fn text_between(&self, from: usize, to: usize) -> (s: String)
        requires
            from <= to <= self.text().len(),
        ensures
            s@ == self.text().subrange(from as int, to as int),
    {
        let mut s = String::new();
        let mut i = from;
        while i < to
            invariant
                from <= i <= to <= self.input@.len(),
                s@ == self.input@.subrange(from as int, i as int),
            decreases to - i,
        {
            push_char(&mut s, self.input[i]);
            i = i + 1;
            assert(s@ =~= self.input@.subrange(from as int, i as int));
        }
        s
    }

    /// Whether the text between two positions is exactly `kw`.
    fn word_is(&self, from: usize, to: usize, kw: &[char]) -> (r: bool)
        requires
            from <= to <= self.text().len(),
        ensures
            r == (self.text().subrange(from as int, to as int) == kw@),
    {
        if to - from != kw.len() {
            return false;
        }
        let mut i: usize = 0;
        while i < kw.len()
            invariant
                from <= to <= self.input@.len(),
                to - from == kw@.len(),
                i <= kw@.len(),
                self.input@.subrange(from as int, (from + i) as int) == kw@.subrange(0, i as int),
            decreases kw@.len() - i,
        {
            if self.input[from + i] != kw[i] {
                assert(self.input@.subrange(from as int, to as int)[i as int] != kw@[i as int]);
                return false;
            }
            i = i + 1;
            assert(self.input@.subrange(from as int, (from + i) as int) =~= kw@.subrange(0, i as int));
        }
        assert(kw@.subrange(0, kw@.len() as int) =~= kw@);
        true
    }

    /// The value of the run of digits between two positions, or `None`
    /// where it is beyond `i64::MAX`.
    fn digits_i64(&self, from: usize, to: usize) -> (r: Option<i64>)
        requires
            from <= to <= self.text().len(),
            all_digits(self.text().subrange(from as int, to as int)),
        ensures
            r is Some <==> digits_value(self.text().subrange(from as int, to as int)) <= i64::MAX,
            r is Some ==> r->0 == digits_value(self.text().subrange(from as int, to as int)),
    {
        let ghost d = self.input@.subrange(from as int, to as int);
        let mut v: i64 = 0;
        let mut i = from;
        while i < to
            invariant
                from <= i <= to <= self.input@.len(),
                d == self.input@.subrange(from as int, to as int),
                all_digits(d),
                v == digits_value(d.take(i - from)),
                v >= 0,
            decreases to - i,
        {
            let c = self.input[i];
            proof {
                assert(d[i - from] == c);
                assert(d.take(i - from + 1).drop_last() =~= d.take(i - from));
                lemma_digits_prefix(d, i - from + 1);
            }
            let digit: i64 = ((c as u32) - ('0' as u32)) as i64;
            if v > 922337203685477580 || (v == 922337203685477580 && digit > 7) {
                return None;
            }
            v = v * 10 + digit;
            i = i + 1;
        }
        assert(d.take(to - from) =~= d);
        Some(v)
    }

    /// The token that a word stands for.
    fn keyword_token(&self, from: usize, to: usize) -> (t: Token)
        requires
            from <= to <= self.text().len(),
        ensures
            t@ == keyword(self.text().subrange(from as int, to as int)),
    {
        if self.word_is(from, to, &['l', 'e', 't']) {
            Token::Let
        } else if self.word_is(from, to, &['m', 'u', 't']) {
            Token::Mut
        } else if self.word_is(from, to, &['i', 'f']) {
            Token::If
        } else if self.word_is(from, to, &['t', 'h', 'e', 'n']) {
            Token::Then
        } else if self.word_is(from, to, &['e', 'l', 's', 'e']) {
            Token::Else
        } else if self.word_is(from, to, &['f', 'o', 'r']) {
            Token::For
        } else if self.word_is(from, to, &['i', 'n']) {
            Token::In
        } else if self.word_is(from, to, &['r', 'a', 'n', 'g', 'e']) {
            Token::Range
        } else if self.word_is(from, to, &['f', 'n']) {
            Token::Fn
        } else if self.word_is(from, to, &['r', 'e', 't', 'u', 'r', 'n']) {
            Token::Return
        } else if self.word_is(from, to, &['t', 'r', 'u', 'e']) {
            Token::Boolean(true)
        } else if self.word_is(from, to, &['f', 'a', 'l', 's', 'e']) {
            Token::Boolean(false)
        } else if self.word_is(from, to, &['b', 'r', 'a', 'n', 'c', 'h']) {
            Token::Branch
        } else if self.word_is(from, to, &['f', 'a', 'l', 'l', 'b', 'a', 'c', 'k']) {
            Token::Fallback
        } else if self.word_is(from, to, &['p', 'a', 'r', 'a', 'l', 'l', 'e', 'l']) {
            Token::Parallel
        } else {
            Token::Identifier(self.text_between(from, to))
        }
    }

    /// Reads the next token.  Whitespace and `//` comments before it are
    /// skipped; at the end of the text, and at a character that starts no
    /// token, the result is `EOF`.  A number literal beyond `i64::MAX`
    /// stops the lexer, which is left out here.
    pub fn next_token(&mut self) -> (t: Token)
        requires
            old(self).text().len() < usize::MAX,
            old(self).pos() < usize::MAX,
            lex_fits(old(self).text(), old(self).pos()),
        ensures
            (t@, final(self).pos()) == lex_next(old(self).text(), old(self).pos()),
            final(self).text() == old(self).text(),
    {
        self.try_next_token().unwrap()
    }

    /// Reads the next token as `next_token` does, or gives `None` where it
    /// is a number literal beyond `i64::MAX`.
    pub fn try_next_token(&mut self) -> (r: Option<Token>)
        requires
            old(self).text().len() < usize::MAX,
            old(self).pos() < usize::MAX,
        ensures
            r is Some <==> lex_fits(old(self).text(), old(self).pos()),
            r is Some ==> (r->0@, final(self).pos()) == lex_next(old(self).text(), old(self).pos()),
            final(self).text() == old(self).text(),
        decreases old(self).text().len() - old(self).pos(),
    {
        let ghost s = self.input@;
        let ghost p = self.pos();
        proof {
            lemma_scan_while(s, p, |c: char| is_whitespace(c));
        }
        self.skip_whitespace();
        let q = self.position;
        let c = match self.advance() {
            Some(c) => c,
            None => {
                return Some(Token::EOF);
            },
        };
        assert(c == s[q as int]);
        let t = if c == '=' {
            match self.peek() {
                Some('=') => {
                    self.advance();
                    Token::EQ
                },
                Some('>') => {
                    self.advance();
                    Token::FatArrow
                },
                _ => Token::Equals,
            }
        } else if c == '-' {
            match self.peek() {
                Some('>') => {
                    self.advance();
                    Token::Arrow
                },
                _ => Token::Minus,
            }
        } else if c == '!' {
            match self.peek() {
                Some('=') => {
                    self.advance();
                    Token::NE
                },
                _ => Token::EOF,
            }
        } else if c == '>' {
            match self.peek() {
                Some('=') => {
                    self.advance();
                    Token::GE
                },
                _ => Token::GT,
            }
        } else if c == '<' {
            match self.peek() {
                Some('=') => {
                    self.advance();
                    Token::LE
                },
                _ => Token::LT,
            }
        } else if c == '+' {
            Token::Plus
        } else if c == '*' {
            Token::Star
        } else if c == '/' {
            match self.peek() {
                Some('/') => {
                    self.advance();
                    proof {
                        lemma_scan_while(s, (q + 2) as nat, |c: char| c != '\n');
                    }
                    self.skip_comment();
                    return self.try_next_token();
                },
                _ => Token::Slash,
            }
        } else if c == ':' {
            Token::Colon
        } else if c == '.' {
            match self.peek() {
                Some('.') => {
                    self.advance();
                    Token::Range
                },
                _ => Token::Dot,
            }
        } else if c == ',' {
            Token::Comma
        } else if c == '(' {
            Token::Lparen
        } else if c == ')' {
            Token::Rparen
        } else if c == '{' {
            Token::LBrace
        } else if c == '}' {
            Token::RBrace
        } else if c == '[' {
            Token::Lsquare
        } else if c == ']' {
            Token::Rsquare
        } else if c == '"' {
            proof {
                lemma_scan_while(s, (q + 1) as nat, |c: char| c != '"');
            }
            self.scan_to_quote();
            let e = self.position;
            let text = self.text_between(q + 1, e);
            if e < self.input.len() {
                self.advance();
            }
            Token::String(text)
        } else if '0' <= c && c <= '9' {
            proof {
                lemma_scan_while(s, (q + 1) as nat, |c: char| is_digit(c));
            }
            self.scan_digits();
            let e1 = self.position;
            let dot = match self.peek() {
                Some('.') => match self.peek_next() {
                    Some('.') => false,
                    _ => true,
                },
                _ => false,
            };
            if dot {
                self.advance();
                proof {
                    lemma_scan_while(s, (e1 + 1) as nat, |c: char| is_digit(c));
                }
                self.scan_digits();
                Token::Floating(self.text_between(q, self.position))
            } else {
                proof {
                    let d = s.subrange(q as int, e1 as int);
                    assert forall|i: int| 0 <= i < d.len() implies is_digit(#[trigger] d[i]) by {
                        if i > 0 {
                            assert(d[i] == s[q + i]);
                        }
                    }
                }
                match self.digits_i64(q, e1) {
                    Some(v) => Token::Number(v),
                    None => {
                        return None;
                    },
                }
            }
        } else if c == '@' {
            proof {
                lemma_scan_while(s, (q + 1) as nat, |c: char| is_word_char(c));
            }
            self.scan_word();
            let e = self.position;
            if self.word_is(q, e, &['@', 'g', 'p', 'u']) {
                Token::GPU
            } else {
                Token::Identifier(self.text_between(q, e))
            }
        } else if char_is_alphabetic(c) || c == '_' {
            proof {
                lemma_scan_while(s, (q + 1) as nat, |c: char| is_word_char(c));
            }
            self.scan_word();
            let e = self.position;
            self.keyword_token(q, e)
        } else {
            Token::EOF
        };
        Some(t)
    }
}

} // verus!
