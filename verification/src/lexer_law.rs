//! Laws of the lexer: reading stops at a character that starts no token,
//! keywords, operators and numbers are read as what they spell.
use crate::lexer::{
    all_digits, char_at_is, digits_end, digits_value, keyword, is_alphabetic, is_alphanumeric, is_digit, is_whitespace, is_word_char,
    lemma_scan_while, lex_next, lex_tokens, lexes, line_end, quote_end, scan_while, skip_ws,
    word_end,
};
use crate::parser_spec::{parsed, parses};
use crate::text::{decimal, digit_char};
use crate::token::TokenV;
use vstd::prelude::*;

verus! {

/// A character at which the lexer reads `EOF` whatever follows it: it is
/// no whitespace, no letter, digit or `_`, and none of the characters that
/// begin an operator, a punctuation mark, a string or a `@` word.
pub open spec fn starts_no_token(c: char) -> bool {
    &&& !is_whitespace(c)
    &&& !is_alphabetic(c)
    &&& !is_alphanumeric(c)
    &&& !is_digit(c)
    &&& c != '_'
    &&& c != '=' && c != '-' && c != '!' && c != '>' && c != '<' && c != '+' && c != '*'
    &&& c != '/' && c != ':' && c != '.' && c != ',' && c != '(' && c != ')' && c != '{'
    &&& c != '}' && c != '[' && c != ']' && c != '"' && c != '@'
}

/// Reading `s` from `p` on ends outside a string literal and outside a
/// `//` comment: every string read from there is closed by its quote, and
/// every comment by a newline.
pub open spec fn closes(s: Seq<char>, p: nat) -> bool
    decreases s.len() - p,
{
    let q = skip_ws(s, p);
    if p > s.len() || q >= s.len() {
        true
    } else if s[q as int] == '"' {
        let e = quote_end(s, q + 1);
        e < s.len() && e + 1 > p && closes(s, e + 1)
    } else if s[q as int] == '/' && char_at_is(s, (q + 1) as int, '/') {
        let e = line_end(s, q + 2);
        e < s.len() && e > p && closes(s, e)
    } else {
        let (t, r) = lex_next(s, p);
        t == TokenV::EOF || r <= p || r > s.len() || closes(s, r)
    }
}

/// `s` begins with `s1`, followed by `c`.
pub open spec fn extends(s: Seq<char>, s1: Seq<char>, c: char) -> bool {
    &&& s1.len() < s.len()
    &&& forall|i: int| 0 <= i < s1.len() ==> s[i] == s1[i]
    &&& s[s1.len() as int] == c
}

proof fn lemma_scan_prefix(s: Seq<char>, s1: Seq<char>, c: char, p: nat, pred: spec_fn(char) -> bool)
    requires
        extends(s, s1, c),
        p <= s1.len(),
        scan_while(s1, p, pred) < s1.len() || !pred(c),
    ensures
        scan_while(s, p, pred) == scan_while(s1, p, pred),
    decreases s1.len() - p,
{
    if p < s1.len() && pred(s1[p as int]) {
        lemma_scan_prefix(s, s1, c, p + 1, pred);
    }
}

/// One step of reading agrees on `s1` and on `s`, except that where `s1`
/// gives `EOF`, so does `s`.
proof fn lemma_next_prefix(s: Seq<char>, s1: Seq<char>, c: char, p: nat)
    requires
        extends(s, s1, c),
        starts_no_token(c),
        p <= s1.len(),
        closes(s1, p),
    ensures
        lex_next(s1, p).0 == TokenV::EOF ==> lex_next(s, p).0 == TokenV::EOF,
        lex_next(s1, p).0 != TokenV::EOF ==> lex_next(s, p) == lex_next(s1, p),
    decreases s1.len() - p,
{
    lemma_scan_while(s1, p, |c: char| is_whitespace(c));
    lemma_scan_prefix(s, s1, c, p, |c: char| is_whitespace(c));
    let q = skip_ws(s1, p);
    if q < s1.len() {
        let ch = s1[q as int];
        let r = q + 1;
        assert(s[q as int] == ch);
        assert(forall|i: int| 0 <= i < s1.len() ==> s[i] == s1[i]);
        if ch == '"' {
            lemma_scan_while(s1, r, |c: char| c != '"');
            lemma_scan_prefix(s, s1, c, r, |c: char| c != '"');
            let e = quote_end(s1, r);
            assert(s.subrange(r as int, e as int) =~= s1.subrange(r as int, e as int));
        } else if ch == '/' && char_at_is(s1, r as int, '/') {
            lemma_scan_while(s1, r + 1, |c: char| c != '\n');
            lemma_scan_prefix(s, s1, c, r + 1, |c: char| c != '\n');
            lemma_next_prefix(s, s1, c, line_end(s1, r + 1));
        } else if is_digit(ch) {
            lemma_scan_while(s1, r, |c: char| is_digit(c));
            lemma_scan_prefix(s, s1, c, r, |c: char| is_digit(c));
            let e1 = digits_end(s1, r);
            if char_at_is(s1, e1 as int, '.') && !char_at_is(s1, (e1 + 1) as int, '.') {
                lemma_scan_while(s1, e1 + 1, |c: char| is_digit(c));
                lemma_scan_prefix(s, s1, c, e1 + 1, |c: char| is_digit(c));
                let e2 = digits_end(s1, e1 + 1);
                assert(s.subrange(q as int, e2 as int) =~= s1.subrange(q as int, e2 as int));
            } else {
                assert(s.subrange(q as int, e1 as int) =~= s1.subrange(q as int, e1 as int));
            }
        } else if ch == '@' || is_alphabetic(ch) || ch == '_' {
            lemma_scan_while(s1, r, |c: char| is_word_char(c));
            lemma_scan_prefix(s, s1, c, r, |c: char| is_word_char(c));
            let e = word_end(s1, r);
            assert(s.subrange(q as int, e as int) =~= s1.subrange(q as int, e as int));
        }
    }
}

/// Reading `s1` from `p` and reading `s` from `p` give the same tokens, and
/// either both can be read or neither.
proof fn lemma_tokens_prefix(s: Seq<char>, s1: Seq<char>, c: char, p: nat)
    requires
        extends(s, s1, c),
        starts_no_token(c),
        p <= s1.len(),
        closes(s1, p),
    ensures
        lex_tokens(s, p) == lex_tokens(s1, p),
        lexes(s, p) == lexes(s1, p),
    decreases s1.len() - p,
{
    lemma_next_prefix(s, s1, c, p);
    crate::lexer::lemma_lex_next_advances(s1, p);
    lemma_scan_while(s1, p, |c: char| is_whitespace(c));
    lemma_scan_prefix(s, s1, c, p, |c: char| is_whitespace(c));
    let q = skip_ws(s1, p);
    let (t, r) = lex_next(s1, p);
    if t != TokenV::EOF {
        if q < s1.len() && s1[q as int] == '/' && char_at_is(s1, (q + 1) as int, '/') {
            lemma_scan_while(s1, q + 2, |c: char| c != '\n');
            lemma_scan_prefix(s, s1, c, q + 2, |c: char| c != '\n');
            let e = line_end(s1, q + 2);
            assert(s[q as int] == '/' && s[(q + 1) as int] == '/');
            assert(lex_next(s1, p) == lex_next(s1, e));
            assert(lex_next(s, p) == lex_next(s, e));
            crate::lexer::lemma_lex_next_advances(s1, e);
            lemma_next_prefix(s, s1, c, e);
            lemma_tokens_prefix(s, s1, c, e);
            assert(lex_tokens(s1, p) == lex_tokens(s1, e));
            assert(lex_tokens(s, p) == lex_tokens(s, e));
        } else {
            lemma_tokens_prefix(s, s1, c, r);
        }
    }
}

/// The tokens of a text stop at the first character that starts no token:
/// where the text before it does not end inside a string literal or a `//`
/// comment, appending that character and anything at all after it changes
/// neither the tokens read nor whether they can be read, so `parse_source`
/// and `try_parse_source` give the same program for both texts, and
/// `try_parse_source` accepts both or neither.
pub proof fn lemma_stop_char_ends_tokens(s1: Seq<char>, c: char, t: Seq<char>)
    requires
        starts_no_token(c),
        closes(s1, 0),
    ensures
        lex_tokens(s1 + seq![c] + t, 0) == lex_tokens(s1, 0),
        lexes(s1 + seq![c] + t, 0) == lexes(s1, 0),
        parses(lex_tokens(s1 + seq![c] + t, 0), 0) == parses(lex_tokens(s1, 0), 0),
        parsed(lex_tokens(s1 + seq![c] + t, 0), 0) == parsed(lex_tokens(s1, 0), 0),
        (lex_tokens(s1 + seq![c] + t, 0).len() == 0 || lex_tokens(s1 + seq![c] + t, 0).last() != TokenV::Lparen)
            == (lex_tokens(s1, 0).len() == 0 || lex_tokens(s1, 0).last() != TokenV::Lparen),
{
    let s = s1 + seq![c] + t;
    assert(extends(s, s1, c));
    lemma_tokens_prefix(s, s1, c, 0);
}


/// Each keyword is read as its own token and no other word is: `true` and
/// `false` are the booleans of their names, each other keyword gives its
/// token, and any other word is a name.
pub proof fn lemma_keywords(w: Seq<char>)
    ensures
        keyword(w) == TokenV::Boolean(true) <==> w == seq!['t', 'r', 'u', 'e'],
        keyword(w) == TokenV::Boolean(false) <==> w == seq!['f', 'a', 'l', 's', 'e'],
        keyword(w) == TokenV::Let <==> w == seq!['l', 'e', 't'],
        keyword(w) == TokenV::Mut <==> w == seq!['m', 'u', 't'],
        keyword(w) == TokenV::If <==> w == seq!['i', 'f'],
        keyword(w) == TokenV::Then <==> w == seq!['t', 'h', 'e', 'n'],
        keyword(w) == TokenV::Else <==> w == seq!['e', 'l', 's', 'e'],
        keyword(w) == TokenV::For <==> w == seq!['f', 'o', 'r'],
        keyword(w) == TokenV::In <==> w == seq!['i', 'n'],
        keyword(w) == TokenV::Range <==> w == seq!['r', 'a', 'n', 'g', 'e'],
        keyword(w) == TokenV::Fn <==> w == seq!['f', 'n'],
        keyword(w) == TokenV::Return <==> w == seq!['r', 'e', 't', 'u', 'r', 'n'],
        keyword(w) == TokenV::Branch <==> w == seq!['b', 'r', 'a', 'n', 'c', 'h'],
        keyword(w) == TokenV::Fallback <==> w == seq!['f', 'a', 'l', 'l', 'b', 'a', 'c', 'k'],
        keyword(w) == TokenV::Parallel <==> w == seq!['p', 'a', 'r', 'a', 'l', 'l', 'e', 'l'],
        keyword(w) is Identifier ==> keyword(w) == TokenV::Identifier(w),
{
    let t = seq!['t', 'r', 'u', 'e'];
    let f = seq!['f', 'a', 'l', 's', 'e'];
    assert(t != f) by {
        assert(t.len() != f.len());
    }
}


proof fn lemma_scan_exact(s: Seq<char>, p: nat, e: nat, pred: spec_fn(char) -> bool)
    requires
        p <= e <= s.len(),
        forall|i: int| p <= i < e ==> pred(#[trigger] s[i]),
        e == s.len() || !pred(s[e as int]),
    ensures
        scan_while(s, p, pred) == e,
    decreases e - p,
{
    if p < e {
        lemma_scan_exact(s, p + 1, e, pred);
    }
}

/// The decimal text of a number is made of digits and is worth the number.
pub proof fn lemma_decimal_digits(n: nat)
    ensures
        decimal(n).len() >= 1,
        all_digits(decimal(n)),
        digits_value(decimal(n)) == n,
    decreases n,
{
    if n < 10 {
        let d = decimal(n);
        assert(d == seq![digit_char(n)]);
        assert(d.drop_last() =~= Seq::<char>::empty());
        assert(digit_char(n) as int == '0' as int + n);
        assert(d.last() == digit_char(n));
        assert(digits_value(d.drop_last()) == 0);
        assert(digits_value(d) == digits_value(d.drop_last()) * 10 + (d.last() as int - '0' as int));
    } else {
        lemma_decimal_digits(n / 10);
        let d = decimal(n);
        assert(d == decimal(n / 10).push(digit_char(n % 10)));
        assert(d.drop_last() =~= decimal(n / 10));
        assert(digit_char(n % 10) as int == '0' as int + n % 10);
        assert(d.last() == digit_char(n % 10));
        assert(digits_value(d) == digits_value(d.drop_last()) * 10 + (d.last() as int - '0' as int));
        assert((n / 10) * 10 + n % 10 == n);
        assert forall|i: int| 0 <= i < d.len() implies is_digit(#[trigger] d[i]) by {
            if i < d.len() - 1 {
                assert(d[i] == decimal(n / 10)[i]);
            }
        }
    }
}

/// The lexer reads the decimal text of a number, followed by anything that
/// does not continue it, as that number.
pub proof fn lemma_lex_decimal(n: nat, rest: Seq<char>)
    requires
        n <= i64::MAX,
        rest.len() == 0 || (!is_digit(rest[0]) && rest[0] != '.'),
    ensures
        lex_next(decimal(n) + rest, 0) == (TokenV::Number(n as int), decimal(n).len()),
{
    lemma_decimal_digits(n);
    let d = decimal(n);
    let s = d + rest;
    let l = d.len();
    assert(is_digit(d[0]));
    assert(s[0] == d[0]);
    assert(!is_whitespace(s[0]));
    lemma_scan_exact(s, 0, 0, |c: char| is_whitespace(c));
    assert forall|i: int| 1 <= i < l implies is_digit(#[trigger] s[i]) by {
        assert(s[i] == d[i]);
    }
    if l < s.len() {
        assert(s[l as int] == rest[0]);
    }
    lemma_scan_exact(s, 1, l, |c: char| is_digit(c));
    assert(!char_at_is(s, l as int, '.'));
    assert(s.subrange(0, l as int) =~= d);
}

/// Operators are read by their characters: a two-character operator when
/// its second character follows, else the one-character operator.
pub proof fn lemma_lex_operators(s: Seq<char>, p: nat)
    requires
        skip_ws(s, p) + 1 < s.len(),
    ensures
        ({
            let q = skip_ws(s, p);
            let a = s[q as int];
            let b = s[(q + 1) as int];
            &&& a == '>' && b == '=' ==> lex_next(s, p) == (TokenV::GE, q + 2)
            &&& a == '>' && b != '=' ==> lex_next(s, p) == (TokenV::GT, q + 1)
            &&& a == '<' && b == '=' ==> lex_next(s, p) == (TokenV::LE, q + 2)
            &&& a == '<' && b != '=' ==> lex_next(s, p) == (TokenV::LT, q + 1)
            &&& a == '=' && b == '=' ==> lex_next(s, p) == (TokenV::EQ, q + 2)
            &&& a == '=' && b == '>' ==> lex_next(s, p) == (TokenV::FatArrow, q + 2)
            &&& a == '=' && b != '=' && b != '>' ==> lex_next(s, p) == (TokenV::Equals, q + 1)
            &&& a == '!' && b == '=' ==> lex_next(s, p) == (TokenV::NE, q + 2)
            &&& a == '-' && b == '>' ==> lex_next(s, p) == (TokenV::Arrow, q + 2)
            &&& a == '-' && b != '>' ==> lex_next(s, p) == (TokenV::Minus, q + 1)
            &&& a == '.' && b == '.' ==> lex_next(s, p) == (TokenV::Range, q + 2)
            &&& a == '.' && b != '.' ==> lex_next(s, p) == (TokenV::Dot, q + 1)
            &&& a == '/' && b != '/' ==> lex_next(s, p) == (TokenV::Slash, q + 1)
            &&& a == '+' ==> lex_next(s, p) == (TokenV::Plus, q + 1)
            &&& a == '*' ==> lex_next(s, p) == (TokenV::Star, q + 1)
            &&& a == ':' ==> lex_next(s, p) == (TokenV::Colon, q + 1)
            &&& a == ',' ==> lex_next(s, p) == (TokenV::Comma, q + 1)
            &&& a == '(' ==> lex_next(s, p) == (TokenV::Lparen, q + 1)
            &&& a == ')' ==> lex_next(s, p) == (TokenV::Rparen, q + 1)
        }),
{
}

} // verus!
