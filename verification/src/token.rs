//! The tokens of VORTEX source text.
use vstd::prelude::*;

verus! {

/// A token of VORTEX source.
#[derive(Debug)]
pub enum Token {
    Let,
    Mut,
    If,
    Then,
    Else,
    For,
    In,
    Range,
    Fn,
    Return,
    Branch,
    Fallback,
    Parallel,
    GPU,
    Equals,  // =
    Plus,  // +
    Minus,  // -
    Star,  // *
    Slash,  // /
    Lparen,  // (
    Rparen,  // )
    LBrace,  // {
    RBrace,  // }
    Lsquare,  // [
    Rsquare,  // ]
    Dot,  // .
    Comma,  // ,
    Colon,  // :
    Arrow,  // ->
    FatArrow,  // =>
    GT,  // >
    LT,  // <
    GE,  // >=
    LE,  // <=
    EQ,  // ==
    NE,  // !=
    Number(i64),
    /// A number with a decimal point, held as the text of its literal.
    Floating(String),
    String(String),
    Boolean(bool),
    Identifier(String),
    EOF,
}

/// The mathematical view of a token: text as character sequences.
pub enum TokenV {
    Let,
    Mut,
    If,
    Then,
    Else,
    For,
    In,
    Range,
    Fn,
    Return,
    Branch,
    Fallback,
    Parallel,
    GPU,
    Equals,  // =
    Plus,  // +
    Minus,  // -
    Star,  // *
    Slash,  // /
    Lparen,  // (
    Rparen,  // )
    LBrace,  // {
    RBrace,  // }
    Lsquare,  // [
    Rsquare,  // ]
    Dot,  // .
    Comma,  // ,
    Colon,  // :
    Arrow,  // ->
    FatArrow,  // =>
    GT,  // >
    LT,  // <
    GE,  // >=
    LE,  // <=
    EQ,  // ==
    NE,  // !=
    Number(int),
    /// A number with a decimal point, held as the text of its literal.
    Floating(Seq<char>),
    String(Seq<char>),
    Boolean(bool),
    Identifier(Seq<char>),
    EOF,
}

impl View for Token {
    type V = TokenV;

    open spec fn view(&self) -> TokenV {
        match self {
            Token::Let => TokenV::Let,
            Token::Mut => TokenV::Mut,
            Token::If => TokenV::If,
            Token::Then => TokenV::Then,
            Token::Else => TokenV::Else,
            Token::For => TokenV::For,
            Token::In => TokenV::In,
            Token::Range => TokenV::Range,
            Token::Fn => TokenV::Fn,
            Token::Return => TokenV::Return,
            Token::Branch => TokenV::Branch,
            Token::Fallback => TokenV::Fallback,
            Token::Parallel => TokenV::Parallel,
            Token::GPU => TokenV::GPU,
            Token::Equals => TokenV::Equals,
            Token::Plus => TokenV::Plus,
            Token::Minus => TokenV::Minus,
            Token::Star => TokenV::Star,
            Token::Slash => TokenV::Slash,
            Token::Lparen => TokenV::Lparen,
            Token::Rparen => TokenV::Rparen,
            Token::LBrace => TokenV::LBrace,
            Token::RBrace => TokenV::RBrace,
            Token::Lsquare => TokenV::Lsquare,
            Token::Rsquare => TokenV::Rsquare,
            Token::Dot => TokenV::Dot,
            Token::Comma => TokenV::Comma,
            Token::Colon => TokenV::Colon,
            Token::Arrow => TokenV::Arrow,
            Token::FatArrow => TokenV::FatArrow,
            Token::GT => TokenV::GT,
            Token::LT => TokenV::LT,
            Token::GE => TokenV::GE,
            Token::LE => TokenV::LE,
            Token::EQ => TokenV::EQ,
            Token::NE => TokenV::NE,
            Token::Number(n) => TokenV::Number(*n as int),
            Token::Floating(s) => TokenV::Floating(s@),
            Token::String(s) => TokenV::String(s@),
            Token::Boolean(b) => TokenV::Boolean(*b),
            Token::Identifier(s) => TokenV::Identifier(s@),
            Token::EOF => TokenV::EOF,
        }
    }
}

impl PartialEq for Token {
    fn eq(&self, other: &Token) -> (r: bool) {
        match (self, other) {
            (Token::Let, Token::Let) => true,
            (Token::Mut, Token::Mut) => true,
            (Token::If, Token::If) => true,
            (Token::Then, Token::Then) => true,
            (Token::Else, Token::Else) => true,
            (Token::For, Token::For) => true,
            (Token::In, Token::In) => true,
            (Token::Range, Token::Range) => true,
            (Token::Fn, Token::Fn) => true,
            (Token::Return, Token::Return) => true,
            (Token::Branch, Token::Branch) => true,
            (Token::Fallback, Token::Fallback) => true,
            (Token::Parallel, Token::Parallel) => true,
            (Token::GPU, Token::GPU) => true,
            (Token::Equals, Token::Equals) => true,
            (Token::Plus, Token::Plus) => true,
            (Token::Minus, Token::Minus) => true,
            (Token::Star, Token::Star) => true,
            (Token::Slash, Token::Slash) => true,
            (Token::Lparen, Token::Lparen) => true,
            (Token::Rparen, Token::Rparen) => true,
            (Token::LBrace, Token::LBrace) => true,
            (Token::RBrace, Token::RBrace) => true,
            (Token::Lsquare, Token::Lsquare) => true,
            (Token::Rsquare, Token::Rsquare) => true,
            (Token::Dot, Token::Dot) => true,
            (Token::Comma, Token::Comma) => true,
            (Token::Colon, Token::Colon) => true,
            (Token::Arrow, Token::Arrow) => true,
            (Token::FatArrow, Token::FatArrow) => true,
            (Token::GT, Token::GT) => true,
            (Token::LT, Token::LT) => true,
            (Token::GE, Token::GE) => true,
            (Token::LE, Token::LE) => true,
            (Token::EQ, Token::EQ) => true,
            (Token::NE, Token::NE) => true,
            (Token::Number(a), Token::Number(b)) => *a == *b,
            (Token::Floating(a), Token::Floating(b)) => a.eq(b),
            (Token::String(a), Token::String(b)) => a.eq(b),
            (Token::Boolean(a), Token::Boolean(b)) => *a == *b,
            (Token::Identifier(a), Token::Identifier(b)) => a.eq(b),
            (Token::EOF, Token::EOF) => true,
            _ => false,
        }
    }
}

impl vstd::std_specs::cmp::PartialEqSpecImpl for Token {
    open spec fn obeys_eq_spec() -> bool {
        true
    }

    open spec fn eq_spec(&self, other: &Token) -> bool {
        self@ == other@
    }
}

/// The views of a sequence of tokens.
pub open spec fn token_views(s: Seq<Token>) -> Seq<TokenV> {
    s.map_values(|t: Token| t@)
}

/// Two tokens are of the same kind: the same variant, whatever they carry.
pub open spec fn same_kind(a: TokenV, b: TokenV) -> bool {
    match (a, b) {
        (TokenV::Number(_), TokenV::Number(_)) => true,
        (TokenV::Floating(_), TokenV::Floating(_)) => true,
        (TokenV::String(_), TokenV::String(_)) => true,
        (TokenV::Boolean(_), TokenV::Boolean(_)) => true,
        (TokenV::Identifier(_), TokenV::Identifier(_)) => true,
        _ => a == b,
    }
}

impl Token {
    /// Whether the two tokens are of the same kind.
    pub fn same_kind(&self, other: &Token) -> (r: bool)
        ensures
            r == same_kind(self@, other@),
    {
        match (self, other) {
            (Token::Let, Token::Let) => true,
            (Token::Mut, Token::Mut) => true,
            (Token::If, Token::If) => true,
            (Token::Then, Token::Then) => true,
            (Token::Else, Token::Else) => true,
            (Token::For, Token::For) => true,
            (Token::In, Token::In) => true,
            (Token::Range, Token::Range) => true,
            (Token::Fn, Token::Fn) => true,
            (Token::Return, Token::Return) => true,
            (Token::Branch, Token::Branch) => true,
            (Token::Fallback, Token::Fallback) => true,
            (Token::Parallel, Token::Parallel) => true,
            (Token::GPU, Token::GPU) => true,
            (Token::Equals, Token::Equals) => true,
            (Token::Plus, Token::Plus) => true,
            (Token::Minus, Token::Minus) => true,
            (Token::Star, Token::Star) => true,
            (Token::Slash, Token::Slash) => true,
            (Token::Lparen, Token::Lparen) => true,
            (Token::Rparen, Token::Rparen) => true,
            (Token::LBrace, Token::LBrace) => true,
            (Token::RBrace, Token::RBrace) => true,
            (Token::Lsquare, Token::Lsquare) => true,
            (Token::Rsquare, Token::Rsquare) => true,
            (Token::Dot, Token::Dot) => true,
            (Token::Comma, Token::Comma) => true,
            (Token::Colon, Token::Colon) => true,
            (Token::Arrow, Token::Arrow) => true,
            (Token::FatArrow, Token::FatArrow) => true,
            (Token::GT, Token::GT) => true,
            (Token::LT, Token::LT) => true,
            (Token::GE, Token::GE) => true,
            (Token::LE, Token::LE) => true,
            (Token::EQ, Token::EQ) => true,
            (Token::NE, Token::NE) => true,
            (Token::Number(_), Token::Number(_)) => true,
            (Token::Floating(_), Token::Floating(_)) => true,
            (Token::String(_), Token::String(_)) => true,
            (Token::Boolean(_), Token::Boolean(_)) => true,
            (Token::Identifier(_), Token::Identifier(_)) => true,
            (Token::EOF, Token::EOF) => true,
            _ => false,
        }
    }
}

impl Clone for Token {
    fn clone(&self) -> (r: Self)
        ensures
            r == *self,
    {
        match self {
            Token::Let => Token::Let,
            Token::Mut => Token::Mut,
            Token::If => Token::If,
            Token::Then => Token::Then,
            Token::Else => Token::Else,
            Token::For => Token::For,
            Token::In => Token::In,
            Token::Range => Token::Range,
            Token::Fn => Token::Fn,
            Token::Return => Token::Return,
            Token::Branch => Token::Branch,
            Token::Fallback => Token::Fallback,
            Token::Parallel => Token::Parallel,
            Token::GPU => Token::GPU,
            Token::Equals => Token::Equals,
            Token::Plus => Token::Plus,
            Token::Minus => Token::Minus,
            Token::Star => Token::Star,
            Token::Slash => Token::Slash,
            Token::Lparen => Token::Lparen,
            Token::Rparen => Token::Rparen,
            Token::LBrace => Token::LBrace,
            Token::RBrace => Token::RBrace,
            Token::Lsquare => Token::Lsquare,
            Token::Rsquare => Token::Rsquare,
            Token::Dot => Token::Dot,
            Token::Comma => Token::Comma,
            Token::Colon => Token::Colon,
            Token::Arrow => Token::Arrow,
            Token::FatArrow => Token::FatArrow,
            Token::GT => Token::GT,
            Token::LT => Token::LT,
            Token::GE => Token::GE,
            Token::LE => Token::LE,
            Token::EQ => Token::EQ,
            Token::NE => Token::NE,
            Token::Number(n) => Token::Number(*n),
            Token::Floating(t) => Token::Floating(t.clone()),
            Token::String(t) => Token::String(t.clone()),
            Token::Boolean(b) => Token::Boolean(*b),
            Token::Identifier(t) => Token::Identifier(t.clone()),
            Token::EOF => Token::EOF,
        }
    }
}

} // verus!
