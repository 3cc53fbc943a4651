//! The first VORTEX parser, proved to build exactly what the functions of
//! `legacy_parser_spec` describe.  It climbs operator precedence and
//! recovers from errors by skipping tokens.
use crate::ast::{
    exprs_view, lemma_exprs_view_push, lemma_stmts_view_push, opt_text, param_view, params_view,
    stmts_view, Expr, ExprV, Stmt, StmtV,
};
use crate::legacy_parser_spec::{
    binary, ends_block, error_expr, l_advance, l_expect, lp_args_more, lp_arm, lp_block, lp_branch,
    lp_call, lp_call_args, lp_expr, lp_fallback, lp_function, lp_if, lp_if_else, lp_if_then, lp_let,
    lp_loop, lp_loop_body, lp_params, lp_parsed, lp_prec, lp_prec_loop, lp_primary,
    lp_program, lp_range_after, lp_range_fn, lp_range_name, lp_stmt, lp_unary, next_is_lparen,
    not_a_primary, not_an_operand, precedence, range_of, stray,
};
use crate::legacy_parser_total::lemma_lp_parses;
use crate::parser::{else_if_view, opt_stmt_view};
use crate::parser_spec::{at_end, is_range_or_dot, peek_at};
use crate::token::{token_views, Token, TokenV};
use vstd::prelude::*;

verus! {

/// Parses a sequence of tokens into statements, skipping what it cannot
/// parse.
pub struct Parser {
    tokens: Vec<Token>,
    current: usize,
}

impl Parser {
    /// The views of the tokens being parsed.
    pub closed spec fn toks(&self) -> Seq<TokenV> {
        token_views(self.tokens@)
    }

    /// The position of the next token.
    pub closed spec fn cur(&self) -> nat {
        self.current as nat
    }

    /// The position lies within the tokens or just past them.
    pub closed spec fn wf(&self) -> bool {
        self.current <= self.tokens.len()
    }

    /// A parser at the first of the tokens.
    pub fn new(tokens: Vec<Token>) -> (p: Parser)
        ensures
            p.wf(),
            p.cur() == 0,
            p.toks() == token_views(tokens@),
    {
        Parser { tokens, current: 0 }
    }

    fn peek(&self) -> (r: &Token)
        requires
            self.wf(),
        ensures
            r@ == peek_at(self.toks(), self.cur()),
    {
        if self.current < self.tokens.len() {
            &self.tokens[self.current]
        } else {
            &Token::EOF
        }
    }

    /// Whether the token after the current one exists and is `(`.
    fn next_is_lparen(&self) -> (r: bool)
        requires
            self.wf(),
        ensures
            r == next_is_lparen(self.toks(), self.cur()),
    {
        if self.current < self.tokens.len() && self.current + 1 < self.tokens.len() {
            matches!(self.tokens[self.current + 1], Token::Lparen)
        } else {
            false
        }
    }

    fn peek_is_eof(&self) -> (r: bool)
        requires
            self.wf(),
        ensures
            r == (peek_at(self.toks(), self.cur()) == TokenV::EOF),
    {
        matches!(self.peek(), Token::EOF)
    }

    /// Whether the current token ends a block.
    fn at_block_end(&self) -> (r: bool)
        requires
            self.wf(),
        ensures
            r == ends_block(peek_at(self.toks(), self.cur())),
    {
        matches!(self.peek(), Token::Else | Token::Then | Token::EOF | Token::Branch | Token::Fallback)
    }

    fn is_at_end(&self) -> (r: bool)
        requires
            self.wf(),
        ensures
            r == at_end(self.toks(), self.cur()),
    {
        matches!(self.peek(), Token::EOF)
    }

    fn advance(&mut self) -> (tok: Token)
        requires
            old(self).wf(),
        ensures
            final(self).wf(),
            final(self).toks() == old(self).toks(),
            l_advance(old(self).toks(), old(self).cur()) == (tok@, final(self).cur()),
    {
        let tok = self.peek().clone();
        if !self.is_at_end() {
            self.current = self.current + 1;
        }
        tok
    }

    /// Whether the current token equals `k`.
    fn check(&self, k: &Token) -> (r: bool)
        requires
            self.wf(),
        ensures
            r == (peek_at(self.toks(), self.cur()) == k@),
    {
        self.peek().eq(k)
    }

    /// Takes the current token if it equals `k`.
    fn expect(&mut self, k: Token) -> (r: bool)
        requires
            old(self).wf(),
        ensures
            final(self).wf(),
            final(self).toks() == old(self).toks(),
            l_expect(old(self).toks(), old(self).cur(), k@) == (r, final(self).cur()),
    {
        if self.check(&k) {
            self.advance();
            true
        } else {
            false
        }
    }

    /// Takes the current token if it equals `k`.
    fn match_token(&mut self, k: &Token) -> (r: bool)
        requires
            old(self).wf(),
        ensures
            final(self).wf(),
            final(self).toks() == old(self).toks(),
            l_expect(old(self).toks(), old(self).cur(), k@) == (r, final(self).cur()),
    {
        if self.check(k) {
            self.advance();
            true
        } else {
            false
        }
    }

    /// Passes over tokens that carry no meaning between others; there are
    /// none, since the end is the only place an `EOF` is read.
    fn skip_whitespace_tokens(&mut self)
        requires
            old(self).wf(),
        ensures
            final(self).wf(),
            final(self).toks() == old(self).toks(),
            final(self).cur() == old(self).cur(),
    {
        while self.peek_is_eof() && !self.is_at_end()
            invariant
                self.wf(),
                self.toks() == old(self).toks(),
                self.cur() == old(self).cur(),
            decreases self.tokens@.len() - self.current,
        {
            self.advance();
        }
    }

    fn error() -> (e: Expr)
        ensures
            e@ == error_expr(),
    {
        Expr::Ident("error".to_owned())
    }

    fn is_error(e: &Expr) -> (r: bool)
        ensures
            r == (e@ == error_expr()),
    {
        match e {
            Expr::Ident(id) => {
                let r = id.eq(&"error".to_owned());
                proof {
                    reveal_strlit("error");
                }
                r
            },
            _ => false,
        }
    }

    fn get_precedence(tok: &Token) -> (p: u8)
        ensures
            p == precedence(tok@),
    {
        match tok {
            Token::EQ | Token::NE => 1,
            Token::LT | Token::LE | Token::GT | Token::GE => 2,
            Token::Plus | Token::Minus => 3,
            Token::Star | Token::Slash => 4,
            Token::Range => 5,
            Token::Dot => 6,
            _ => 0,
        }
    }

    /// Whether the next token is an operator of precedence at least
    /// `min_prec`.
    fn operator_binds(&self, min_prec: u8) -> (r: bool)
        requires
            self.wf(),
        ensures
            r == (0 < precedence(peek_at(self.toks(), self.cur())) && precedence(peek_at(self.toks(), self.cur()))
                >= min_prec),
    {
        let p = Self::get_precedence(self.peek());
        0 < p && p >= min_prec
    }

    fn at_not_an_operand(&self) -> (r: bool)
        requires
            self.wf(),
        ensures
            r == not_an_operand(peek_at(self.toks(), self.cur())),
    {
        matches!(
            self.peek(),
            Token::Let | Token::Mut | Token::Then | Token::Else | Token::Branch | Token::Fallback
                | Token::For | Token::Parallel | Token::Fn | Token::Colon
        )
    }

    fn at_range_or_dot(&self) -> (r: bool)
        requires
            self.wf(),
        ensures
            r == is_range_or_dot(peek_at(self.toks(), self.cur())),
    {
        matches!(self.peek(), Token::Range | Token::Dot)
    }

    fn parse_expr(&mut self, Ghost(f): Ghost<nat>) -> (e: Expr)
        requires
            old(self).wf(),
            lp_expr(old(self).toks(), old(self).cur(), f) is Some,
        ensures
            final(self).wf(),
            final(self).toks() == old(self).toks(),
            lp_expr(old(self).toks(), old(self).cur(), f) == Some((e@, final(self).cur())),
        decreases f,
    {
        if self.at_not_an_operand() {
            self.advance();
            return Self::error();
        }
        self.parse_unary(Ghost((f - 1) as nat))
    }

    fn parse_unary(&mut self, Ghost(f): Ghost<nat>) -> (e: Expr)
        requires
            old(self).wf(),
            lp_unary(old(self).toks(), old(self).cur(), f) is Some,
        ensures
            final(self).wf(),
            final(self).toks() == old(self).toks(),
            lp_unary(old(self).toks(), old(self).cur(), f) == Some((e@, final(self).cur())),
        decreases f,
    {
        if matches!(self.peek(), Token::Minus) {
            let op = self.advance();
            let expr = self.parse_unary(Ghost((f - 1) as nat));
            return Expr::Unary { op, expr: Box::new(expr) };
        }
        self.parse_prec_expr(0, Ghost((f - 1) as nat))
    }

    /// An operand, then the operators of precedence at least `min_prec`
    /// that follow, each with its right operand; an operator followed by a
    /// higher one takes the rest as its right operand.
    fn parse_prec_expr(&mut self, min_prec: u8, Ghost(f): Ghost<nat>) -> (e: Expr)
        requires
            old(self).wf(),
            lp_prec(old(self).toks(), old(self).cur(), min_prec as nat, f) is Some,
        ensures
            final(self).wf(),
            final(self).toks() == old(self).toks(),
            lp_prec(old(self).toks(), old(self).cur(), min_prec as nat, f) == Some((e@, final(self).cur())),
        decreases f,
    {
        let ghost t = self.toks();
        let ghost goal = lp_prec(t, self.cur(), min_prec as nat, f);
        let mut left = self.parse_primary(Ghost((f - 1) as nat));
        if Self::is_error(&left) {
            return left;
        }
        let ghost mut g: nat = (f - 1) as nat;
        while self.operator_binds(min_prec)
            invariant_except_break
                self.wf(),
                self.toks() == t,
                t == old(self).toks(),
                goal == lp_prec(old(self).toks(), old(self).cur(), min_prec as nat, f),
                goal == lp_prec_loop(t, self.cur(), min_prec as nat, left@, g),
                goal is Some,
                g < f,
            ensures
                self.wf(),
                self.toks() == t,
                t == old(self).toks(),
                goal == lp_prec(old(self).toks(), old(self).cur(), min_prec as nat, f),
                goal == Some((left@, self.cur())),
            decreases g,
        {
            let op = self.advance();
            self.skip_whitespace_tokens();
            if matches!(self.peek(), Token::EOF) {
                break;
            }
            if self.at_not_an_operand() {
                return left;
            }
            let right = self.parse_primary(Ghost((g - 1) as nat));
            if Self::is_error(&right) {
                return left;
            }
            let next_prec = Self::get_precedence(self.peek());
            let op_prec = Self::get_precedence(&op);
            let right_expr = if next_prec > op_prec {
                self.parse_prec_expr(op_prec + 1, Ghost((g - 1) as nat))
            } else {
                right
            };
            left = Expr::Binary { left: Box::new(left), op, right: Box::new(right_expr) };
            proof {
                g = (g - 1) as nat;
            }
        }
        left
    }

    fn get_call_args(&mut self, Ghost(f): Ghost<nat>) -> (args: Vec<Expr>)
        requires
            old(self).wf(),
            lp_call_args(old(self).toks(), old(self).cur(), f) is Some,
        ensures
            final(self).wf(),
            final(self).toks() == old(self).toks(),
            lp_call_args(old(self).toks(), old(self).cur(), f) == Some(
                (exprs_view(args@), final(self).cur()),
            ),
        decreases f,
    {
        let ghost t = self.toks();
        let ghost goal = lp_call_args(t, self.cur(), f);
        let mut args: Vec<Expr> = Vec::new();
        if !self.check(&Token::Rparen) {
            let first = self.parse_expr(Ghost((f - 1) as nat));
            proof {
                lemma_exprs_view_push(args@, first);
            }
            args.push(first);
            let ghost mut g: nat = (f - 1) as nat;
            loop
                invariant_except_break
                    self.wf(),
                    self.toks() == t,
                    goal == lp_args_more(t, self.cur(), exprs_view(args@), g),
                    goal is Some,
                    g < f,
                ensures
                    self.wf(),
                    self.toks() == t,
                    goal == Some((exprs_view(args@), self.cur())),
                decreases g,
            {
                if !self.match_token(&Token::Comma) {
                    break;
                }
                let next = self.parse_expr(Ghost((g - 1) as nat));
                proof {
                    lemma_exprs_view_push(args@, next);
                }
                args.push(next);
                proof {
                    g = (g - 1) as nat;
                }
            }
        }
        args
    }

    /// A call of the name `id`, at its `(`; a missing `)` is passed over.
    fn parse_call(&mut self, id: String, Ghost(f): Ghost<nat>) -> (e: Expr)
        requires
            old(self).wf(),
            peek_at(old(self).toks(), old(self).cur()) == TokenV::Lparen,
            lp_call(old(self).toks(), old(self).cur(), id@, f) is Some,
        ensures
            final(self).wf(),
            final(self).toks() == old(self).toks(),
            lp_call(old(self).toks(), old(self).cur(), id@, f) == Some((e@, final(self).cur())),
        decreases f,
    {
        self.advance();
        let args = self.get_call_args(Ghost((f - 1) as nat));
        self.expect(Token::Rparen);
        let callee = Expr::Ident(id);
        let ghost cv = callee@;
        let e = Expr::FunctionCall { callee: Box::new(callee), arguments: args };
        assert(e@ == ExprV::FunctionCall { callee: Box::new(cv), arguments: exprs_view(args@) });
        e
    }

    /// `range(start, end)` after the `range` keyword.
    fn parse_range_fn(&mut self, Ghost(f): Ghost<nat>) -> (e: Expr)
        requires
            old(self).wf(),
            lp_range_fn(old(self).toks(), old(self).cur(), f) is Some,
        ensures
            final(self).wf(),
            final(self).toks() == old(self).toks(),
            lp_range_fn(old(self).toks(), old(self).cur(), f) == Some((e@, final(self).cur())),
        decreases f,
    {
        if self.check(&Token::Lparen) {
            self.advance();
            let start = self.parse_expr(Ghost((f - 1) as nat));
            if self.check(&Token::Comma) {
                self.advance();
                let end = self.parse_expr(Ghost((f - 1) as nat));
                if self.expect(Token::Rparen) {
                    Expr::Range { start: Box::new(start), end: Box::new(end) }
                } else {
                    Self::error()
                }
            } else {
                Self::error()
            }
        } else {
            Self::error()
        }
    }

    /// `range(start, end)` after a name `range`, at its `(`.
    fn parse_range_name(&mut self, Ghost(f): Ghost<nat>) -> (e: Expr)
        requires
            old(self).wf(),
            peek_at(old(self).toks(), old(self).cur()) == TokenV::Lparen,
            lp_range_name(old(self).toks(), old(self).cur(), f) is Some,
        ensures
            final(self).wf(),
            final(self).toks() == old(self).toks(),
            lp_range_name(old(self).toks(), old(self).cur(), f) == Some((e@, final(self).cur())),
        decreases f,
    {
        self.advance();
        let start = self.parse_expr(Ghost((f - 1) as nat));
        if !self.expect(Token::Comma) {
            return Self::error();
        }
        let end = self.parse_expr(Ghost((f - 1) as nat));
        if !self.expect(Token::Rparen) {
            return Self::error();
        }
        Expr::Range { start: Box::new(start), end: Box::new(end) }
    }

    /// What follows a literal or a name: `..` or `. .` and an expression
    /// make a range; a lone `.` is passed over.
    fn parse_range_after_start(&mut self, start_expr: Expr, Ghost(f): Ghost<nat>) -> (e: Expr)
        requires
            old(self).wf(),
            lp_range_after(old(self).toks(), old(self).cur(), start_expr@, f) is Some,
        ensures
            final(self).wf(),
            final(self).toks() == old(self).toks(),
            lp_range_after(old(self).toks(), old(self).cur(), start_expr@, f) == Some(
                (e@, final(self).cur()),
            ),
        decreases f,
    {
        let ghost sv = start_expr@;
        if self.check(&Token::Range) {
            self.advance();
        } else if self.check(&Token::Dot) {
            self.advance();
            if self.check(&Token::Dot) {
                self.advance();
            } else {
                return start_expr;
            }
        } else {
            return start_expr;
        }
        let end_expr = self.parse_expr(Ghost((f - 1) as nat));
        let e = Expr::Range { start: Box::new(start_expr), end: Box::new(end_expr) };
        assert(e@ == range_of(sv, end_expr@));
        e
    }

    fn parse_primary(&mut self, Ghost(f): Ghost<nat>) -> (e: Expr)
        requires
            old(self).wf(),
            lp_primary(old(self).toks(), old(self).cur(), f) is Some,
        ensures
            final(self).wf(),
            final(self).toks() == old(self).toks(),
            lp_primary(old(self).toks(), old(self).cur(), f) == Some((e@, final(self).cur())),
        decreases f,
    {
        let ghost g = (f - 1) as nat;
        self.skip_whitespace_tokens();
        if self.is_at_end() {
            return Self::error();
        }
        if self.at_not_an_operand() || matches!(self.peek(), Token::Return) {
            self.advance();
            return Self::error();
        }
        match self.advance() {
            Token::Number(n) => {
                if self.at_range_or_dot() {
                    return self.parse_range_after_start(Expr::Number(n), Ghost(g));
                }
                Expr::Number(n)
            },
            Token::Floating(text) => {
                if self.at_range_or_dot() {
                    return self.parse_range_after_start(Expr::Floating(text), Ghost(g));
                }
                Expr::Floating(text)
            },
            Token::Boolean(b) => Expr::Boolean(b),
            Token::String(text) => Expr::String(text),
            Token::Range => self.parse_range_fn(Ghost(g)),
            Token::Identifier(id) => {
                let is_print = id.eq(&"print".to_owned());
                let is_range = id.eq(&"range".to_owned());
                if is_print {
                    if self.check(&Token::Lparen) {
                        self.parse_call(id, Ghost(g))
                    } else {
                        Expr::Ident(id)
                    }
                } else if is_range {
                    if self.check(&Token::Lparen) {
                        self.parse_range_name(Ghost(g))
                    } else {
                        Expr::Ident(id)
                    }
                } else if self.check(&Token::Lparen) {
                    self.parse_call(id, Ghost(g))
                } else if self.at_range_or_dot() {
                    self.parse_range_after_start(Expr::Ident(id), Ghost(g))
                } else {
                    Expr::Ident(id)
                }
            },
            Token::Lparen => {
                let expr = self.parse_expr(Ghost(g));
                self.expect(Token::Rparen);
                Expr::Grouping(Box::new(expr))
            },
            Token::Return => {
                let value = self.parse_expr(Ghost(g));
                Expr::Return(Box::new(value))
            },
            _ => Self::error(),
        }
    }


    /// The whole program: statements until the end; a token where no
    /// statement parses is skipped.
    pub fn parse(&mut self) -> (stmts: Vec<Stmt>)
        requires
            old(self).wf(),
        ensures
            final(self).wf(),
            final(self).toks() == old(self).toks(),
            at_end(final(self).toks(), final(self).cur()),
            stmts_view(stmts@) == lp_parsed(old(self).toks(), old(self).cur()),
    {
        let ghost t = self.toks();
        proof {
            lemma_lp_parses(t, self.cur());
        }
        let ghost f = choose|f: nat| #[trigger] lp_program(t, self.cur(), Seq::empty(), f) is Some;
        let ghost goal = lp_program(t, self.cur(), Seq::empty(), f);
        let mut stmts: Vec<Stmt> = Vec::new();
        let ghost mut g: nat = f;
        proof {
            assert(stmts_view(stmts@) =~= Seq::<StmtV>::empty());
        }
        while !self.is_at_end()
            invariant
                self.wf(),
                self.toks() == t,
                goal == lp_program(t, self.cur(), stmts_view(stmts@), g),
                goal is Some,
            decreases g,
        {
            if let Some(stmt) = self.parse_stmt(Ghost((g - 1) as nat)) {
                proof {
                    lemma_stmts_view_push(stmts@, stmt);
                }
                stmts.push(stmt);
            } else {
                self.advance();
            }
            proof {
                g = (g - 1) as nat;
            }
        }
        stmts
    }

    #[verifier::spinoff_prover]
    #[verifier::rlimit(80)]
    fn parse_stmt(&mut self, Ghost(f): Ghost<nat>) -> (r: Option<Stmt>)
        requires
            old(self).wf(),
            lp_stmt(old(self).toks(), old(self).cur(), f) is Some,
        ensures
            final(self).wf(),
            final(self).toks() == old(self).toks(),
            lp_stmt(old(self).toks(), old(self).cur(), f) == Some((opt_stmt_view(r), final(self).cur())),
        decreases f,
    {
        let ghost g = (f - 1) as nat;
        if matches!(self.peek(), Token::Colon | Token::Comma | Token::Rparen | Token::Dot) {
            self.advance();
            return self.parse_stmt(Ghost(g));
        }
        match self.peek() {
            Token::Let => Some(self.parse_let(Ghost(g))),
            Token::If => self.parse_if_stmt(Ghost(g)),
            Token::Branch => self.parse_branch(Ghost(g)),
            Token::Fallback => self.parse_fallback(Ghost(g)),
            Token::For => self.parse_loop(false, Ghost(g)),
            Token::Parallel => self.parse_loop(true, Ghost(g)),
            Token::GPU => {
                self.advance();
                if self.expect(Token::Fn) {
                    self.parse_function_def(true, Ghost(g))
                } else {
                    None
                }
            },
            Token::Fn => self.parse_function_def(false, Ghost(g)),
            Token::Return => {
                self.advance();
                let expr = self.parse_expr(Ghost(g));
                Some(Stmt::Return(expr))
            },
            Token::EOF => None,
            _ => Some(self.parse_expr_stmt(Ghost(g))),
        }
    }

    fn parse_expr_stmt(&mut self, Ghost(f): Ghost<nat>) -> (s: Stmt)
        requires
            old(self).wf(),
            lp_expr(old(self).toks(), old(self).cur(), f) is Some,
        ensures
            final(self).wf(),
            final(self).toks() == old(self).toks(),
            lp_expr(old(self).toks(), old(self).cur(), f) matches Some((e, c))
                && s@ == StmtV::ExprStmt(e) && c == final(self).cur(),
        decreases f,
    {
        Stmt::ExprStmt(self.parse_expr(Ghost(f)))
    }

    #[verifier::rlimit(40)]
    fn parse_let(&mut self, Ghost(f): Ghost<nat>) -> (s: Stmt)
        requires
            old(self).wf(),
            peek_at(old(self).toks(), old(self).cur()) == TokenV::Let,
            lp_let(old(self).toks(), old(self).cur(), f) is Some,
        ensures
            final(self).wf(),
            final(self).toks() == old(self).toks(),
            lp_let(old(self).toks(), old(self).cur(), f) == Some((s@, final(self).cur())),
        decreases f,
    {
        self.advance();
        let mutable = self.match_token(&Token::Mut);
        let name = match self.peek() {
            Token::Identifier(_) => match self.advance() {
                Token::Identifier(n) => n,
                _ => unreached(),
            },
            _ => Self::error_text(),
        };
        let declared_type = if self.match_token(&Token::Colon) {
            match self.peek() {
                Token::Identifier(_) => match self.advance() {
                    Token::Identifier(t) => Some(t),
                    _ => unreached(),
                },
                _ => Some(Self::error_text()),
            }
        } else {
            None
        };
        self.expect(Token::Equals);
        let value = self.parse_expr(Ghost((f - 1) as nat));
        Stmt::Let { name, declared_type, value, mutable }
    }

    fn error_text() -> (s: String)
        ensures
            s@ == "error"@,
    {
        "error".to_owned()
    }

    /// Statements until one of `else`, `then`, `branch`, `fallback` or the
    /// end is next; a token where no statement parses is skipped.
    fn parse_block(&mut self, Ghost(f): Ghost<nat>) -> (s: Stmt)
        requires
            old(self).wf(),
            lp_block(old(self).toks(), old(self).cur(), Seq::empty(), f) is Some,
        ensures
            final(self).wf(),
            final(self).toks() == old(self).toks(),
            lp_block(old(self).toks(), old(self).cur(), Seq::empty(), f) matches Some((ss, c))
                && s@ == StmtV::Block(ss) && c == final(self).cur(),
        decreases f,
    {
        let ghost t = self.toks();
        let ghost goal = lp_block(t, self.cur(), Seq::empty(), f);
        let mut stmts: Vec<Stmt> = Vec::new();
        self.skip_whitespace_tokens();
        let ghost mut g: nat = f;
        proof {
            assert(stmts_view(stmts@) =~= Seq::<StmtV>::empty());
        }
        while !self.at_block_end()
            invariant_except_break
                self.wf(),
                self.toks() == t,
                goal == lp_block(t, self.cur(), stmts_view(stmts@), g),
                goal is Some,
                g <= f,
            ensures
                self.wf(),
                self.toks() == t,
                goal == Some((stmts_view(stmts@), self.cur())),
            decreases g,
        {
            if let Some(stmt) = self.parse_stmt(Ghost((g - 1) as nat)) {
                proof {
                    lemma_stmts_view_push(stmts@, stmt);
                }
                stmts.push(stmt);
            } else {
                self.advance();
            }
            self.skip_whitespace_tokens();
            if self.is_at_end() {
                break;
            }
            proof {
                g = (g - 1) as nat;
            }
        }
        Stmt::Block(stmts)
    }

    fn parse_if_stmt(&mut self, Ghost(f): Ghost<nat>) -> (r: Option<Stmt>)
        requires
            old(self).wf(),
            peek_at(old(self).toks(), old(self).cur()) == TokenV::If,
            lp_if(old(self).toks(), old(self).cur(), f) is Some,
        ensures
            final(self).wf(),
            final(self).toks() == old(self).toks(),
            lp_if(old(self).toks(), old(self).cur(), f) == Some((opt_stmt_view(r), final(self).cur())),
        decreases f,
    {
        self.advance();
        let condition = self.parse_expr(Ghost((f - 1) as nat));
        if !self.expect(Token::Colon) {
            return None;
        }
        let then_block = self.parse_block(Ghost((f - 1) as nat));
        let then_statements = match then_block {
            Stmt::Block(ss) => ss,
            _ => unreached(),
        };
        self.parse_then_part(condition, then_statements, Ghost((f - 1) as nat))
    }

    /// The optional `then` (else-if) part of an `if`.
    fn parse_then_part(&mut self, condition: Expr, then_statements: Vec<Stmt>, Ghost(f): Ghost<nat>) -> (r: Option<Stmt>)
        requires
            old(self).wf(),
            lp_if_then(old(self).toks(), old(self).cur(), condition@, stmts_view(then_statements@), f) is Some,
        ensures
            final(self).wf(),
            final(self).toks() == old(self).toks(),
            lp_if_then(old(self).toks(), old(self).cur(), condition@, stmts_view(then_statements@), f)
                == Some((opt_stmt_view(r), final(self).cur())),
        decreases f,
    {
        if self.match_token(&Token::Then) {
            let else_if_condition = self.parse_expr(Ghost((f - 1) as nat));
            if !self.expect(Token::Colon) {
                return None;
            }
            let body = self.parse_block(Ghost((f - 1) as nat));
            let else_if_statements = match body {
                Stmt::Block(ss) => ss,
                _ => unreached(),
            };
            self.parse_else_part(condition, then_statements, Some((else_if_condition, else_if_statements)), Ghost((f - 1) as nat))
        } else {
            self.parse_else_part(condition, then_statements, None, Ghost((f - 1) as nat))
        }
    }

    /// The optional `else` part of an `if`, given its else-if part.
    #[verifier::rlimit(60)]
    fn parse_else_part(
        &mut self,
        condition: Expr,
        then_statements: Vec<Stmt>,
        else_if: Option<(Expr, Vec<Stmt>)>,
        Ghost(f): Ghost<nat>,
    ) -> (r: Option<Stmt>)
        requires
            old(self).wf(),
            lp_if_else(old(self).toks(), old(self).cur(), condition@, stmts_view(then_statements@), else_if_view(else_if), f) is Some,
        ensures
            final(self).wf(),
            final(self).toks() == old(self).toks(),
            lp_if_else(old(self).toks(), old(self).cur(), condition@, stmts_view(then_statements@), else_if_view(else_if), f)
                == Some((opt_stmt_view(r), final(self).cur())),
        decreases f,
    {
        let ghost ts = stmts_view(then_statements@);
        let then_branch = Box::new(Stmt::Block(then_statements));
        assert((*then_branch)@ == StmtV::Block(ts));
        let else_branch = if self.match_token(&Token::Else) {
            if !self.expect(Token::Colon) {
                return None;
            }
            let last = Box::new(self.parse_block(Ghost((f - 1) as nat)));
            let ghost lv = (*last)@;
            match else_if {
                Some((c, es)) => {
                    let ghost cv = c@;
                    let ghost esv = stmts_view(es@);
                    let inner = Box::new(Stmt::Block(es));
                    assert((*inner)@ == StmtV::Block(esv));
                    let b = Box::new(Stmt::IfStmt { condition: c, then_branch: inner, else_branch: Some(last) });
                    assert((*b)@ == StmtV::IfStmt {
                        condition: cv,
                        then_branch: Box::new(StmtV::Block(esv)),
                        else_branch: Some(Box::new(lv)),
                    });
                    Some(b)
                },
                None => Some(last),
            }
        } else {
            match else_if {
                Some((c, es)) => {
                    let ghost cv = c@;
                    let ghost esv = stmts_view(es@);
                    let inner = Box::new(Stmt::Block(es));
                    assert((*inner)@ == StmtV::Block(esv));
                    let b = Box::new(Stmt::IfStmt { condition: c, then_branch: inner, else_branch: None });
                    assert((*b)@ == StmtV::IfStmt {
                        condition: cv,
                        then_branch: Box::new(StmtV::Block(esv)),
                        else_branch: None,
                    });
                    Some(b)
                },
                None => None,
            }
        };
        Some(Stmt::IfStmt { condition, then_branch, else_branch })
    }

    /// The body after the `=>` of a `branch` or `fallback`: a call, or else
    /// a statement.
    fn parse_arm(&mut self, Ghost(f): Ghost<nat>) -> (r: Option<Stmt>)
        requires
            old(self).wf(),
            lp_arm(old(self).toks(), old(self).cur(), f) is Some,
        ensures
            final(self).wf(),
            final(self).toks() == old(self).toks(),
            lp_arm(old(self).toks(), old(self).cur(), f) == Some((opt_stmt_view(r), final(self).cur())),
        decreases f,
    {
        if matches!(self.peek(), Token::Identifier(_)) && self.next_is_lparen() {
            let expr = self.parse_expr(Ghost((f - 1) as nat));
            return Some(Stmt::ExprStmt(expr));
        }
        self.parse_stmt(Ghost((f - 1) as nat))
    }

    fn parse_branch(&mut self, Ghost(f): Ghost<nat>) -> (r: Option<Stmt>)
        requires
            old(self).wf(),
            peek_at(old(self).toks(), old(self).cur()) == TokenV::Branch,
            lp_branch(old(self).toks(), old(self).cur(), f) is Some,
        ensures
            final(self).wf(),
            final(self).toks() == old(self).toks(),
            lp_branch(old(self).toks(), old(self).cur(), f) == Some((opt_stmt_view(r), final(self).cur())),
        decreases f,
    {
        self.advance();
        let condition = self.parse_expr(Ghost((f - 1) as nat));
        if !self.expect(Token::FatArrow) {
            return None;
        }
        match self.parse_arm(Ghost((f - 1) as nat)) {
            Some(stmt) => Some(Stmt::Branch { condition, body: Box::new(stmt) }),
            None => None,
        }
    }

    fn parse_fallback(&mut self, Ghost(f): Ghost<nat>) -> (r: Option<Stmt>)
        requires
            old(self).wf(),
            peek_at(old(self).toks(), old(self).cur()) == TokenV::Fallback,
            lp_fallback(old(self).toks(), old(self).cur(), f) is Some,
        ensures
            final(self).wf(),
            final(self).toks() == old(self).toks(),
            lp_fallback(old(self).toks(), old(self).cur(), f) == Some((opt_stmt_view(r), final(self).cur())),
        decreases f,
    {
        self.advance();
        if !self.expect(Token::FatArrow) {
            return None;
        }
        match self.parse_arm(Ghost((f - 1) as nat)) {
            Some(stmt) => Some(Stmt::Fallback(Box::new(stmt))),
            None => None,
        }
    }

    /// The rest of a loop after its range: `:` and a block.
    fn parse_loop_body(&mut self, var: String, range: Expr, parallel: bool, Ghost(f): Ghost<nat>) -> (r: Option<Stmt>)
        requires
            old(self).wf(),
            lp_loop_body(old(self).toks(), old(self).cur(), var@, range@, parallel, f) is Some,
        ensures
            final(self).wf(),
            final(self).toks() == old(self).toks(),
            lp_loop_body(old(self).toks(), old(self).cur(), var@, range@, parallel, f) == Some(
                (opt_stmt_view(r), final(self).cur()),
            ),
        decreases f,
    {
        if !self.expect(Token::Colon) {
            return None;
        }
        let body = Box::new(self.parse_block(Ghost((f - 1) as nat)));
        if parallel {
            Some(Stmt::Parallel { var, range, body })
        } else {
            Some(Stmt::For { var, range, body })
        }
    }

    /// A `for` or `parallel` loop: the range is `range(a, b)`, a number
    /// (the range from 0 to it) or a number starting a range, or any
    /// expression.
    #[verifier::rlimit(60)]
    fn parse_loop(&mut self, parallel: bool, Ghost(f): Ghost<nat>) -> (r: Option<Stmt>)
        requires
            old(self).wf(),
            peek_at(old(self).toks(), old(self).cur()) != TokenV::EOF,
            lp_loop(old(self).toks(), old(self).cur(), parallel, f) is Some,
        ensures
            final(self).wf(),
            final(self).toks() == old(self).toks(),
            lp_loop(old(self).toks(), old(self).cur(), parallel, f) == Some((opt_stmt_view(r), final(self).cur())),
        decreases f,
    {
        let ghost g = (f - 1) as nat;
        self.advance();
        let var = match self.advance() {
            Token::Identifier(id) => id,
            _ => {
                return None;
            },
        };
        if !self.expect(Token::In) {
            return None;
        }
        if self.check(&Token::Range) {
            self.advance();
            if !self.expect(Token::Lparen) {
                return None;
            }
            let start = self.parse_expr(Ghost(g));
            if !self.expect(Token::Comma) {
                return None;
            }
            let end = self.parse_expr(Ghost(g));
            if !self.expect(Token::Rparen) {
                return None;
            }
            let ghost sv = start@;
            let ghost ev = end@;
            let range = Expr::Range { start: Box::new(start), end: Box::new(end) };
            assert(range@ == range_of(sv, ev));
            self.parse_loop_body(var, range, parallel, Ghost(g))
        } else if matches!(self.peek(), Token::Number(_) | Token::Floating(_)) {
            let start_expr = match self.advance() {
                Token::Number(n) => Expr::Number(n),
                Token::Floating(text) => Expr::Floating(text),
                _ => unreached(),
            };
            if self.check(&Token::Range) || self.check(&Token::Dot) {
                let range = self.parse_range_after_start(start_expr, Ghost(g));
                self.parse_loop_body(var, range, parallel, Ghost(g))
            } else {
                let ghost sv = start_expr@;
                let zero = Expr::Number(0);
                assert(zero@ == ExprV::Number(0));
                let range = Expr::Range { start: Box::new(zero), end: Box::new(start_expr) };
                assert(range@ == range_of(ExprV::Number(0), sv));
                self.parse_loop_body(var, range, parallel, Ghost(g))
            }
        } else {
            let range = self.parse_expr(Ghost(g));
            self.parse_loop_body(var, range, parallel, Ghost(g))
        }
    }

    /// The parameters of a function after its `(`, up to its `)`: `None`
    /// where a name or type is missing, or a comma.
    fn parse_params(&mut self, Ghost(f): Ghost<nat>) -> (r: Option<Vec<(String, Option<String>)>>)
        requires
            old(self).wf(),
            lp_params(old(self).toks(), old(self).cur(), Seq::empty(), f) is Some,
        ensures
            final(self).wf(),
            final(self).toks() == old(self).toks(),
            lp_params(old(self).toks(), old(self).cur(), Seq::empty(), f) == Some(
                (
                    match r {
                        Some(ps) => Some(params_view(ps@)),
                        None => None,
                    },
                    final(self).cur(),
                ),
            ),
        decreases f,
    {
        let ghost t = self.toks();
        let ghost goal = lp_params(t, self.cur(), Seq::empty(), f);
        let mut params: Vec<(String, Option<String>)> = Vec::new();
        let ghost mut g: nat = f;
        proof {
            assert(params_view(params@) =~= Seq::empty());
        }
        while !self.check(&Token::Rparen) && !self.is_at_end()
            invariant
                self.wf(),
                self.toks() == t,
                t == old(self).toks(),
                goal == lp_params(old(self).toks(), old(self).cur(), Seq::empty(), f),
                goal == lp_params(t, self.cur(), params_view(params@), g),
                goal is Some,
            decreases g,
        {
            let param_name = match self.advance() {
                Token::Identifier(id) => id,
                _ => {
                    return None;
                },
            };
            let param_type = if self.match_token(&Token::Colon) {
                match self.advance() {
                    Token::Identifier(ty) => Some(ty),
                    _ => {
                        return None;
                    },
                }
            } else {
                None
            };
            let ghost before = params@;
            params.push((param_name, param_type));
            proof {
                assert(params_view(params@) =~= params_view(before).push(param_view(params@.last())));
            }
            if !self.check(&Token::Rparen) {
                if !self.expect(Token::Comma) {
                    return None;
                }
            }
            proof {
                g = (g - 1) as nat;
            }
        }
        Some(params)
    }

    /// A function definition, from the token taken as its `fn`.
    #[verifier::rlimit(60)]
    fn parse_function_def(&mut self, gpu: bool, Ghost(f): Ghost<nat>) -> (r: Option<Stmt>)
        requires
            old(self).wf(),
            lp_function(old(self).toks(), old(self).cur(), gpu, f) is Some,
        ensures
            final(self).wf(),
            final(self).toks() == old(self).toks(),
            lp_function(old(self).toks(), old(self).cur(), gpu, f) == Some((opt_stmt_view(r), final(self).cur())),
        decreases f,
    {
        let ghost g = (f - 1) as nat;
        self.advance();
        let name = match self.advance() {
            Token::Identifier(id) => id,
            _ => {
                return None;
            },
        };
        if !self.expect(Token::Lparen) {
            return None;
        }
        let params = match self.parse_params(Ghost(g)) {
            Some(ps) => ps,
            None => {
                return None;
            },
        };
        if !self.expect(Token::Rparen) {
            return None;
        }
        let return_type = if self.match_token(&Token::Arrow) {
            match self.advance() {
                Token::Identifier(ty) => Some(ty),
                _ => {
                    return None;
                },
            }
        } else {
            None
        };
        if !self.expect(Token::Colon) {
            return None;
        }
        let body = Box::new(self.parse_block(Ghost(g)));
        Some(Stmt::FunctionDef { name, params, return_type, body, gpu })
    }
}

} // verus!
