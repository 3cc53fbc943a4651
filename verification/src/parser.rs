//! The VORTEX parser: a recursive-descent parser from tokens to statements,
//! proved to build exactly what the functions of `parser_spec` describe.
//!
//! Every parsing method takes a ghost fuel bound that its spec counterpart
//! takes too; the method requires that the spec counterpart returns with that
//! fuel, and ensures that it returned the spec's result and moved to the
//! spec's position.
use crate::ast::{
    exprs_view, lemma_exprs_view_push, lemma_stmts_view_push, opt_text, param_view, params_view,
    stmts_view, Expr, ExprV, Stmt, StmtV,
};
use crate::parser_spec::{
    advance_spec, at_end, binary, error_ident, is_comparison_op, is_expr_start, is_factor_op,
    is_range_or_dot, is_term_op, match_spec, p_annotation, p_arm_body, p_args_rest, p_branch,
    p_call, p_call_args, p_call_rest, p_comparison, p_comparison_rest, p_expression, p_factor,
    p_factor_rest, p_fallback, p_function, p_if, p_if_else, p_if_then, p_let, p_loop,
    p_maybe_range, p_params, p_primary, p_program, p_range_call, p_range_from, p_return_type,
    p_statement, p_stmts, p_term, p_term_rest, p_unary, parsed, parses, peek_at, stops, Stop,
};
use crate::lexer::{lemma_lex_next_advances, lex_fits, lex_tokens, lexes, Lexer};
use crate::parser_total::lemma_source_parses;
use crate::token::{same_kind, token_views, Token, TokenV};
use vstd::prelude::*;

verus! {

/// The view of a statement that may be missing.
pub open spec fn opt_stmt_view(o: Option<Stmt>) -> Option<StmtV> {
    match o {
        Some(s) => Some(s@),
        None => None,
    }
}

/// The view of the else-if part of an `if`: its condition and statements.
pub open spec fn else_if_view(o: Option<(Expr, Vec<Stmt>)>) -> Option<(ExprV, Seq<StmtV>)> {
    match o {
        Some((c, es)) => Some((c@, stmts_view(es@))),
        None => None,
    }
}

/// Parses a sequence of tokens into statements.
pub struct Parser {
    tokens: Vec<Token>,
    current: usize,
}

impl Parser {
    /// The views of the tokens being parsed.
    pub closed spec fn toks(&self) -> Seq<TokenV> {
        token_views(self.tokens@)
    }

    /// The position of the next token.
    pub closed spec fn cur(&self) -> nat {
        self.current as nat
    }

    /// The position lies within the tokens or just past them.
    pub closed spec fn wf(&self) -> bool {
        self.current <= self.tokens.len()
    }

    /// A parser at the first of the tokens.
    pub fn new(tokens: Vec<Token>) -> (p: Parser)
        ensures
            p.wf(),
            p.cur() == 0,
            p.toks() == token_views(tokens@),
    {
        Parser { tokens, current: 0 }
    }

    fn peek(&self) -> (r: &Token)
        requires
            self.wf(),
        ensures
            r@ == peek_at(self.toks(), self.cur()),
    {
        if self.current < self.tokens.len() {
            &self.tokens[self.current]
        } else {
            &Token::EOF
        }
    }

    /// Whether the next token is of the same kind as `k`.
    fn at(&self, k: &Token) -> (r: bool)
        requires
            self.wf(),
        ensures
            r == same_kind(peek_at(self.toks(), self.cur()), k@),
    {
        self.peek().same_kind(k)
    }

    fn is_at_end(&self) -> (r: bool)
        requires
            self.wf(),
        ensures
            r == at_end(self.toks(), self.cur()),
    {
        match self.peek() {
            Token::EOF => true,
            _ => false,
        }
    }

    fn previous(&self) -> (tok: Token)
        requires
            self.wf(),
            self.current > 0,
        ensures
            tok@ == self.toks()[self.cur() - 1],
    {
        self.tokens[self.current - 1].clone()
    }

    fn advance(&mut self) -> (tok: Token)
        requires
            old(self).wf(),
            advance_spec(old(self).toks(), old(self).cur()) is Some,
        ensures
            final(self).wf(),
            final(self).toks() == old(self).toks(),
            advance_spec(old(self).toks(), old(self).cur()) == Some((tok@, final(self).cur())),
    {
        if !self.is_at_end() {
            self.current = self.current + 1;
        }
        self.previous()
    }

    fn check(&self, k: &Token) -> (r: bool)
        requires
            self.wf(),
        ensures
            r == (!at_end(self.toks(), self.cur()) && same_kind(peek_at(self.toks(), self.cur()), k@)),
    {
        if self.is_at_end() {
            false
        } else {
            self.at(k)
        }
    }

    fn match_token(&mut self, k: &Token) -> (r: bool)
        requires
            old(self).wf(),
        ensures
            final(self).wf(),
            final(self).toks() == old(self).toks(),
            match_spec(old(self).toks(), old(self).cur(), k@) == (r, final(self).cur()),
    {
        if self.check(k) {
            self.current = self.current + 1;
            true
        } else {
            false
        }
    }

    fn is_expression_start(&self) -> (r: bool)
        requires
            self.wf(),
        ensures
            r == is_expr_start(peek_at(self.toks(), self.cur())),
    {
        matches!(
            self.peek(),
            Token::Number(_) | Token::Floating(_) | Token::Boolean(_) | Token::String(_)
                | Token::Identifier(_) | Token::Lparen | Token::Minus | Token::Range
        )
    }

    fn at_comparison_op(&self) -> (r: bool)
        requires
            self.wf(),
        ensures
            r == is_comparison_op(peek_at(self.toks(), self.cur())),
    {
        matches!(self.peek(), Token::GT | Token::GE | Token::LT | Token::LE | Token::EQ | Token::NE)
    }

    fn at_term_op(&self) -> (r: bool)
        requires
            self.wf(),
        ensures
            r == is_term_op(peek_at(self.toks(), self.cur())),
    {
        matches!(self.peek(), Token::Plus | Token::Minus)
    }

    fn at_factor_op(&self) -> (r: bool)
        requires
            self.wf(),
        ensures
            r == is_factor_op(peek_at(self.toks(), self.cur())),
    {
        matches!(self.peek(), Token::Star | Token::Slash)
    }

    fn at_range_or_dot(&self) -> (r: bool)
        requires
            self.wf(),
        ensures
            r == is_range_or_dot(peek_at(self.toks(), self.cur())),
    {
        matches!(self.peek(), Token::Range | Token::Dot)
    }

    fn parse_expression(&mut self, Ghost(f): Ghost<nat>) -> (e: Expr)
        requires
            old(self).wf(),
            p_expression(old(self).toks(), old(self).cur(), f) is Some,
        ensures
            final(self).wf(),
            final(self).toks() == old(self).toks(),
            p_expression(old(self).toks(), old(self).cur(), f) == Some((e@, final(self).cur())),
        decreases f,
    {
        self.parse_comparison(Ghost((f - 1) as nat))
    }

    fn parse_comparison(&mut self, Ghost(f): Ghost<nat>) -> (e: Expr)
        requires
            old(self).wf(),
            p_comparison(old(self).toks(), old(self).cur(), f) is Some,
        ensures
            final(self).wf(),
            final(self).toks() == old(self).toks(),
            p_comparison(old(self).toks(), old(self).cur(), f) == Some((e@, final(self).cur())),
        decreases f,
    {
        let ghost t = self.toks();
        let ghost goal = p_comparison(t, self.cur(), f);
        let mut expr = self.parse_term(Ghost((f - 1) as nat));
        let ghost mut g: nat = (f - 1) as nat;
        while self.at_comparison_op()
            invariant
                self.wf(),
                self.toks() == t,
                goal == p_comparison_rest(t, self.cur(), expr@, g),
                goal is Some,
                g < f,
            decreases g,
        {
            let op = self.advance();
            let right = self.parse_term(Ghost((g - 1) as nat));
            expr = Expr::Binary { left: Box::new(expr), op, right: Box::new(right) };
            proof {
                g = (g - 1) as nat;
            }
        }
        expr
    }

    fn parse_term(&mut self, Ghost(f): Ghost<nat>) -> (e: Expr)
        requires
            old(self).wf(),
            p_term(old(self).toks(), old(self).cur(), f) is Some,
        ensures
            final(self).wf(),
            final(self).toks() == old(self).toks(),
            p_term(old(self).toks(), old(self).cur(), f) == Some((e@, final(self).cur())),
        decreases f,
    {
        let ghost t = self.toks();
        let ghost goal = p_term(t, self.cur(), f);
        let mut expr = self.parse_factor(Ghost((f - 1) as nat));
        let ghost mut g: nat = (f - 1) as nat;
        while self.at_term_op()
            invariant
                self.wf(),
                self.toks() == t,
                goal == p_term_rest(t, self.cur(), expr@, g),
                goal is Some,
                g < f,
            decreases g,
        {
            let op = self.advance();
            let right = self.parse_factor(Ghost((g - 1) as nat));
            expr = Expr::Binary { left: Box::new(expr), op, right: Box::new(right) };
            proof {
                g = (g - 1) as nat;
            }
        }
        expr
    }

    fn parse_factor(&mut self, Ghost(f): Ghost<nat>) -> (e: Expr)
        requires
            old(self).wf(),
            p_factor(old(self).toks(), old(self).cur(), f) is Some,
        ensures
            final(self).wf(),
            final(self).toks() == old(self).toks(),
            p_factor(old(self).toks(), old(self).cur(), f) == Some((e@, final(self).cur())),
        decreases f,
    {
        let ghost t = self.toks();
        let ghost goal = p_factor(t, self.cur(), f);
        let mut expr = self.parse_unary(Ghost((f - 1) as nat));
        let ghost mut g: nat = (f - 1) as nat;
        while self.at_factor_op()
            invariant
                self.wf(),
                self.toks() == t,
                goal == p_factor_rest(t, self.cur(), expr@, g),
                goal is Some,
                g < f,
            decreases g,
        {
            let op = self.advance();
            let right = self.parse_unary(Ghost((g - 1) as nat));
            expr = Expr::Binary { left: Box::new(expr), op, right: Box::new(right) };
            proof {
                g = (g - 1) as nat;
            }
        }
        expr
    }

    fn parse_unary(&mut self, Ghost(f): Ghost<nat>) -> (e: Expr)
        requires
            old(self).wf(),
            p_unary(old(self).toks(), old(self).cur(), f) is Some,
        ensures
            final(self).wf(),
            final(self).toks() == old(self).toks(),
            p_unary(old(self).toks(), old(self).cur(), f) == Some((e@, final(self).cur())),
        decreases f,
    {
        if self.at(&Token::Minus) {
            let op = self.advance();
            let expr = self.parse_unary(Ghost((f - 1) as nat));
            return Expr::Unary { op, expr: Box::new(expr) };
        }
        self.parse_call(Ghost((f - 1) as nat))
    }

    fn parse_call(&mut self, Ghost(f): Ghost<nat>) -> (e: Expr)
        requires
            old(self).wf(),
            p_call(old(self).toks(), old(self).cur(), f) is Some,
        ensures
            final(self).wf(),
            final(self).toks() == old(self).toks(),
            p_call(old(self).toks(), old(self).cur(), f) == Some((e@, final(self).cur())),
        decreases f,
    {
        let ghost t = self.toks();
        let ghost goal = p_call(t, self.cur(), f);
        let mut expr = self.parse_primary(Ghost((f - 1) as nat));
        let ghost mut g: nat = (f - 1) as nat;
        while self.at(&Token::Lparen)
            invariant_except_break
                self.wf(),
                self.toks() == t,
                goal == p_call_rest(t, self.cur(), expr@, g),
                goal is Some,
                g < f,
            ensures
                self.wf(),
                self.toks() == t,
                goal == Some((expr@, self.cur())),
            decreases g,
        {
            self.advance();
            let args = self.parse_call_args(Ghost((g - 1) as nat));
            if !self.match_token(&Token::Rparen) {
                break;
            }
            expr = Expr::FunctionCall { callee: Box::new(expr), arguments: args };
            proof {
                g = (g - 1) as nat;
            }
        }
        expr
    }

    /// The arguments of a call, after its `(`.
    fn parse_call_args(&mut self, Ghost(f): Ghost<nat>) -> (args: Vec<Expr>)
        requires
            old(self).wf(),
            p_call_args(old(self).toks(), old(self).cur(), f) is Some,
        ensures
            final(self).wf(),
            final(self).toks() == old(self).toks(),
            p_call_args(old(self).toks(), old(self).cur(), f) == Some(
                (exprs_view(args@), final(self).cur()),
            ),
        decreases f,
    {
        let ghost t = self.toks();
        let ghost goal = p_call_args(t, self.cur(), f);
        let mut args: Vec<Expr> = Vec::new();
        if !self.at(&Token::Rparen) {
            let first = self.parse_expression(Ghost((f - 1) as nat));
            proof {
                lemma_exprs_view_push(args@, first);
            }
            args.push(first);
            let ghost mut g: nat = (f - 1) as nat;
            loop
                invariant_except_break
                    self.wf(),
                    self.toks() == t,
                    goal == p_args_rest(t, self.cur(), exprs_view(args@), g),
                    goal is Some,
                    g < f,
                ensures
                    self.wf(),
                    self.toks() == t,
                    goal == Some((exprs_view(args@), self.cur())),
                decreases g,
            {
                if !self.match_token(&Token::Comma) {
                    break;
                }
                let next = self.parse_expression(Ghost((g - 1) as nat));
                proof {
                    lemma_exprs_view_push(args@, next);
                }
                args.push(next);
                proof {
                    g = (g - 1) as nat;
                }
            }
        }
        args
    }

    fn parse_primary(&mut self, Ghost(f): Ghost<nat>) -> (e: Expr)
        requires
            old(self).wf(),
            p_primary(old(self).toks(), old(self).cur(), f) is Some,
        ensures
            final(self).wf(),
            final(self).toks() == old(self).toks(),
            p_primary(old(self).toks(), old(self).cur(), f) == Some((e@, final(self).cur())),
        decreases f,
    {
        let tok = self.advance();
        match tok {
            Token::Number(n) => self.parse_maybe_range(Expr::Number(n), Ghost((f - 1) as nat)),
            Token::Floating(s) => self.parse_maybe_range(Expr::Floating(s), Ghost((f - 1) as nat)),
            Token::Boolean(b) => Expr::Boolean(b),
            Token::String(s) => Expr::String(s),
            Token::Identifier(id) => self.parse_maybe_range(Expr::Ident(id), Ghost((f - 1) as nat)),
            Token::Range => self.parse_range_call(Ghost((f - 1) as nat)),
            Token::Lparen => {
                let expr = self.parse_expression(Ghost((f - 1) as nat));
                if self.match_token(&Token::Rparen) {
                    Expr::Grouping(Box::new(expr))
                } else {
                    expr
                }
            },
            _ => Expr::Ident("error".to_owned()),
        }
    }

    /// A literal or a name, and the range that it starts if `..` or `. .`
    /// follows.
    fn parse_maybe_range(&mut self, start: Expr, Ghost(f): Ghost<nat>) -> (e: Expr)
        requires
            old(self).wf(),
            p_maybe_range(old(self).toks(), old(self).cur(), start@, f) is Some,
        ensures
            final(self).wf(),
            final(self).toks() == old(self).toks(),
            p_maybe_range(old(self).toks(), old(self).cur(), start@, f) == Some(
                (e@, final(self).cur()),
            ),
        decreases f,
    {
        if self.at_range_or_dot() {
            self.parse_range_from_start(start, Ghost((f - 1) as nat))
        } else {
            start
        }
    }

    /// `range(start, end)`, after the `range` keyword.
    fn parse_range_call(&mut self, Ghost(f): Ghost<nat>) -> (e: Expr)
        requires
            old(self).wf(),
            p_range_call(old(self).toks(), old(self).cur(), f) is Some,
        ensures
            final(self).wf(),
            final(self).toks() == old(self).toks(),
            p_range_call(old(self).toks(), old(self).cur(), f) == Some((e@, final(self).cur())),
        decreases f,
    {
        if self.match_token(&Token::Lparen) {
            let start = self.parse_expression(Ghost((f - 1) as nat));
            if self.match_token(&Token::Comma) {
                let end = self.parse_expression(Ghost((f - 1) as nat));
                if self.match_token(&Token::Rparen) {
                    Expr::Range { start: Box::new(start), end: Box::new(end) }
                } else {
                    Expr::Ident("error".to_owned())
                }
            } else {
                Expr::Ident("error".to_owned())
            }
        } else {
            Expr::Ident("range".to_owned())
        }
    }

    #[verifier::rlimit(60)]
    fn parse_range_from_start(&mut self, start: Expr, Ghost(f): Ghost<nat>) -> (e: Expr)
        requires
            old(self).wf(),
            p_range_from(old(self).toks(), old(self).cur(), start@, f) is Some,
        ensures
            final(self).wf(),
            final(self).toks() == old(self).toks(),
            p_range_from(old(self).toks(), old(self).cur(), start@, f) == Some(
                (e@, final(self).cur()),
            ),
        decreases f,
    {
        let ghost t = self.toks();
        let ghost c = self.cur();
        let ghost sv = start@;
        if self.match_token(&Token::Range) {
            let end = self.parse_expression(Ghost((f - 1) as nat));
            let e = Expr::Range { start: Box::new(start), end: Box::new(end) };
            assert(e@ == ExprV::Range { start: Box::new(sv), end: Box::new(end@) });
            e
        } else if self.match_token(&Token::Dot) {
            if self.match_token(&Token::Dot) {
                let end = self.parse_expression(Ghost((f - 1) as nat));
                let e = Expr::Range { start: Box::new(start), end: Box::new(end) };
                assert(e@ == ExprV::Range { start: Box::new(sv), end: Box::new(end@) });
                e
            } else {
                start
            }
        } else {
            start
        }
    }

    /// The whole program: statements until the end; a token where no
    /// statement can start is skipped.  The parser returns on the given
    /// tokens only where `parses` holds: it recurses without end when an
    /// expression has to start at the end of the tokens right after a `(`.
    pub fn parse(&mut self) -> (statements: Vec<Stmt>)
        requires
            old(self).wf(),
            parses(old(self).toks(), old(self).cur()),
        ensures
            final(self).wf(),
            final(self).toks() == old(self).toks(),
            at_end(final(self).toks(), final(self).cur()),
            stmts_view(statements@) == parsed(old(self).toks(), old(self).cur()),
    {
        let ghost t = self.toks();
        let ghost f = choose|f: nat| #[trigger] p_program(t, self.cur(), Seq::empty(), f) is Some;
        let ghost goal = p_program(t, self.cur(), Seq::empty(), f);
        let mut statements: Vec<Stmt> = Vec::new();
        let ghost mut g: nat = f;
        proof {
            assert(stmts_view(statements@) =~= Seq::<StmtV>::empty());
        }
        while !self.is_at_end()
            invariant
                self.wf(),
                self.toks() == t,
                goal == p_program(t, self.cur(), stmts_view(statements@), g),
                goal is Some,
            decreases g,
        {
            if let Some(stmt) = self.parse_statement(Ghost((g - 1) as nat)) {
                proof {
                    lemma_stmts_view_push(statements@, stmt);
                }
                statements.push(stmt);
            } else {
                self.advance();
            }
            proof {
                g = (g - 1) as nat;
            }
        }
        statements
    }

    fn parse_statement(&mut self, Ghost(f): Ghost<nat>) -> (r: Option<Stmt>)
        requires
            old(self).wf(),
            p_statement(old(self).toks(), old(self).cur(), f) is Some,
        ensures
            final(self).wf(),
            final(self).toks() == old(self).toks(),
            p_statement(old(self).toks(), old(self).cur(), f) == Some(
                (opt_stmt_view(r), final(self).cur()),
            ),
        decreases f,
    {
        if self.at(&Token::Let) {
            self.parse_let_statement(Ghost((f - 1) as nat))
        } else if self.at(&Token::If) {
            self.parse_if_statement(Ghost((f - 1) as nat))
        } else if self.at(&Token::Branch) {
            self.parse_branch_statement(Ghost((f - 1) as nat))
        } else if self.at(&Token::Fallback) {
            self.parse_fallback_statement(Ghost((f - 1) as nat))
        } else if self.at(&Token::For) {
            self.parse_loop_statement(false, Ghost((f - 1) as nat))
        } else if self.at(&Token::Parallel) {
            self.parse_loop_statement(true, Ghost((f - 1) as nat))
        } else if self.at(&Token::Fn) {
            self.parse_function_statement(false, Ghost((f - 1) as nat))
        } else if self.at(&Token::GPU) {
            self.advance();
            if self.at(&Token::Fn) {
                self.parse_function_statement(true, Ghost((f - 1) as nat))
            } else {
                None
            }
        } else if self.at(&Token::Return) {
            self.parse_return_statement(Ghost((f - 1) as nat))
        } else if self.is_expression_start() {
            Some(Stmt::ExprStmt(self.parse_expression(Ghost((f - 1) as nat))))
        } else {
            None
        }
    }

    fn parse_return_statement(&mut self, Ghost(f): Ghost<nat>) -> (r: Option<Stmt>)
        requires
            old(self).wf(),
            peek_at(old(self).toks(), old(self).cur()) == TokenV::Return,
            p_expression(old(self).toks(), old(self).cur() + 1, f) is Some,
        ensures
            final(self).wf(),
            final(self).toks() == old(self).toks(),
            p_expression(old(self).toks(), old(self).cur() + 1, f) matches Some((v, c2))
                && opt_stmt_view(r) == Some(StmtV::Return(v)) && c2 == final(self).cur(),
        decreases f,
    {
        self.advance();
        let value = self.parse_expression(Ghost(f));
        Some(Stmt::Return(value))
    }

    /// Whether the next token ends a run of statements.
    fn stops_at(&self, stop: &Stop) -> (r: bool)
        requires
            self.wf(),
        ensures
            r == stops(*stop, peek_at(self.toks(), self.cur())),
    {
        let k = self.peek();
        let common = matches!(
            k,
            Token::EOF | Token::Branch | Token::Fallback | Token::For | Token::Parallel | Token::Fn
                | Token::GPU | Token::Let
        );
        match stop {
            Stop::Then => common || matches!(k, Token::Then | Token::Else),
            Stop::ElseIf => common || matches!(k, Token::Else),
            Stop::Else => common,
            Stop::Body => common || matches!(k, Token::If),
        }
    }

    /// Statements until one of the stop tokens is next, or until one fails
    /// to parse.
    fn parse_statements(&mut self, stop: Stop, Ghost(f): Ghost<nat>) -> (ss: Vec<Stmt>)
        requires
            old(self).wf(),
            p_stmts(old(self).toks(), old(self).cur(), Seq::empty(), stop, f) is Some,
        ensures
            final(self).wf(),
            final(self).toks() == old(self).toks(),
            p_stmts(old(self).toks(), old(self).cur(), Seq::empty(), stop, f) == Some(
                (stmts_view(ss@), final(self).cur()),
            ),
        decreases f,
    {
        let ghost t = self.toks();
        let ghost goal = p_stmts(t, self.cur(), Seq::empty(), stop, f);
        let mut statements: Vec<Stmt> = Vec::new();
        let ghost mut g: nat = f;
        proof {
            assert(stmts_view(statements@) =~= Seq::<StmtV>::empty());
        }
        loop
            invariant_except_break
                self.wf(),
                self.toks() == t,
                goal == p_stmts(t, self.cur(), stmts_view(statements@), stop, g),
                goal is Some,
                g <= f,
            ensures
                self.wf(),
                self.toks() == t,
                goal == Some((stmts_view(statements@), self.cur())),
            decreases g,
        {
            if self.stops_at(&stop) {
                break;
            }
            match self.parse_statement(Ghost((g - 1) as nat)) {
                Some(stmt) => {
                    proof {
                        lemma_stmts_view_push(statements@, stmt);
                    }
                    statements.push(stmt);
                },
                None => {
                    break;
                },
            }
            proof {
                g = (g - 1) as nat;
            }
        }
        statements
    }

    /// An optional `: Type` annotation.
    fn parse_annotation(&mut self) -> (ty: Option<String>)
        requires
            old(self).wf(),
            p_annotation(old(self).toks(), old(self).cur()) is Some,
        ensures
            final(self).wf(),
            final(self).toks() == old(self).toks(),
            p_annotation(old(self).toks(), old(self).cur()) == Some((opt_text(ty), final(self).cur())),
    {
        if self.match_token(&Token::Colon) {
            match self.advance() {
                Token::Identifier(t) => Some(t),
                _ => None,
            }
        } else {
            None
        }
    }

    fn parse_let_statement(&mut self, Ghost(f): Ghost<nat>) -> (r: Option<Stmt>)
        requires
            old(self).wf(),
            peek_at(old(self).toks(), old(self).cur()) == TokenV::Let,
            p_let(old(self).toks(), old(self).cur(), f) is Some,
        ensures
            final(self).wf(),
            final(self).toks() == old(self).toks(),
            p_let(old(self).toks(), old(self).cur(), f) == Some((opt_stmt_view(r), final(self).cur())),
        decreases f,
    {
        self.advance();
        let mutable = if self.at(&Token::Mut) {
            self.advance();
            true
        } else {
            false
        };
        let name = match self.advance() {
            Token::Identifier(id) => id,
            _ => {
                return None;
            },
        };
        let declared_type = self.parse_annotation();
        if !self.match_token(&Token::Equals) {
            return None;
        }
        let value = self.parse_expression(Ghost((f - 1) as nat));
        Some(Stmt::Let { name, declared_type, value, mutable })
    }

    fn parse_if_statement(&mut self, Ghost(f): Ghost<nat>) -> (r: Option<Stmt>)
        requires
            old(self).wf(),
            peek_at(old(self).toks(), old(self).cur()) == TokenV::If,
            p_if(old(self).toks(), old(self).cur(), f) is Some,
        ensures
            final(self).wf(),
            final(self).toks() == old(self).toks(),
            p_if(old(self).toks(), old(self).cur(), f) == Some((opt_stmt_view(r), final(self).cur())),
        decreases f,
    {
        self.advance();
        let condition = self.parse_expression(Ghost((f - 1) as nat));
        if !self.match_token(&Token::Colon) {
            return None;
        }
        let then_statements = self.parse_statements(Stop::Then, Ghost((f - 1) as nat));
        self.parse_then_part(condition, then_statements, Ghost((f - 1) as nat))
    }

    /// The optional `then` (else-if) part of an `if`, given its condition and
    /// the statements of its first branch.
    fn parse_then_part(&mut self, condition: Expr, then_statements: Vec<Stmt>, Ghost(f): Ghost<nat>) -> (r: Option<Stmt>)
        requires
            old(self).wf(),
            p_if_then(old(self).toks(), old(self).cur(), condition@, stmts_view(then_statements@), f) is Some,
        ensures
            final(self).wf(),
            final(self).toks() == old(self).toks(),
            p_if_then(old(self).toks(), old(self).cur(), condition@, stmts_view(then_statements@), f)
                == Some((opt_stmt_view(r), final(self).cur())),
        decreases f,
    {
        if self.match_token(&Token::Then) {
            let else_if_condition = self.parse_expression(Ghost((f - 1) as nat));
            if !self.match_token(&Token::Colon) {
                return None;
            }
            let else_if_statements = self.parse_statements(Stop::ElseIf, Ghost((f - 1) as nat));
            self.parse_else_part(condition, then_statements, Some((else_if_condition, else_if_statements)), Ghost((f - 1) as nat))
        } else {
            self.parse_else_part(condition, then_statements, None, Ghost((f - 1) as nat))
        }
    }

    /// The optional `else` part of an `if`, given its condition, the
    /// statements of its first branch and its else-if part if any.
    #[verifier::rlimit(60)]
    fn parse_else_part(
        &mut self,
        condition: Expr,
        then_statements: Vec<Stmt>,
        else_if: Option<(Expr, Vec<Stmt>)>,
        Ghost(f): Ghost<nat>,
    ) -> (r: Option<Stmt>)
        requires
            old(self).wf(),
            p_if_else(old(self).toks(), old(self).cur(), condition@, stmts_view(then_statements@), else_if_view(else_if), f) is Some,
        ensures
            final(self).wf(),
            final(self).toks() == old(self).toks(),
            p_if_else(old(self).toks(), old(self).cur(), condition@, stmts_view(then_statements@), else_if_view(else_if), f)
                == Some((opt_stmt_view(r), final(self).cur())),
        decreases f,
    {
        let ghost ts = stmts_view(then_statements@);
        let then_branch = Box::new(Stmt::Block(then_statements));
        assert((*then_branch)@ == StmtV::Block(ts));
        let else_branch = if self.match_token(&Token::Else) {
            if !self.match_token(&Token::Colon) {
                return None;
            }
            let else_statements = self.parse_statements(Stop::Else, Ghost((f - 1) as nat));
            let last = Box::new(Stmt::Block(else_statements));
            let ghost lv = (*last)@;
            assert(lv == StmtV::Block(stmts_view(else_statements@)));
            match else_if {
                Some((c, es)) => {
                    let ghost cv = c@;
                    let ghost esv = stmts_view(es@);
                    let inner = Box::new(Stmt::Block(es));
                    assert((*inner)@ == StmtV::Block(esv));
                    let b = Box::new(Stmt::IfStmt { condition: c, then_branch: inner, else_branch: Some(last) });
                    assert((*b)@ == StmtV::IfStmt {
                        condition: cv,
                        then_branch: Box::new(StmtV::Block(esv)),
                        else_branch: Some(Box::new(lv)),
                    });
                    Some(b)
                },
                None => Some(last),
            }
        } else {
            match else_if {
                Some((c, es)) => {
                    let ghost cv = c@;
                    let ghost esv = stmts_view(es@);
                    let inner = Box::new(Stmt::Block(es));
                    assert((*inner)@ == StmtV::Block(esv));
                    let b = Box::new(Stmt::IfStmt { condition: c, then_branch: inner, else_branch: None });
                    assert((*b)@ == StmtV::IfStmt {
                        condition: cv,
                        then_branch: Box::new(StmtV::Block(esv)),
                        else_branch: None,
                    });
                    Some(b)
                },
                None => None,
            }
        };
        Some(Stmt::IfStmt { condition, then_branch, else_branch })
    }

    /// The body after the `=>` of a `branch` or `fallback`.
    fn parse_arm_body(&mut self, Ghost(f): Ghost<nat>) -> (body: Stmt)
        requires
            old(self).wf(),
            p_arm_body(old(self).toks(), old(self).cur(), f) is Some,
        ensures
            final(self).wf(),
            final(self).toks() == old(self).toks(),
            p_arm_body(old(self).toks(), old(self).cur(), f) == Some((body@, final(self).cur())),
        decreases f,
    {
        if self.is_expression_start() {
            Stmt::ExprStmt(self.parse_expression(Ghost((f - 1) as nat)))
        } else {
            let none: Vec<Stmt> = Vec::new();
            proof {
                assert(stmts_view(none@) =~= Seq::<StmtV>::empty());
            }
            Stmt::Block(none)
        }
    }

    fn parse_branch_statement(&mut self, Ghost(f): Ghost<nat>) -> (r: Option<Stmt>)
        requires
            old(self).wf(),
            peek_at(old(self).toks(), old(self).cur()) == TokenV::Branch,
            p_branch(old(self).toks(), old(self).cur(), f) is Some,
        ensures
            final(self).wf(),
            final(self).toks() == old(self).toks(),
            p_branch(old(self).toks(), old(self).cur(), f) == Some((opt_stmt_view(r), final(self).cur())),
        decreases f,
    {
        self.advance();
        let condition = self.parse_expression(Ghost((f - 1) as nat));
        if !self.match_token(&Token::FatArrow) {
            return None;
        }
        let body = Box::new(self.parse_arm_body(Ghost((f - 1) as nat)));
        Some(Stmt::Branch { condition, body })
    }

    fn parse_fallback_statement(&mut self, Ghost(f): Ghost<nat>) -> (r: Option<Stmt>)
        requires
            old(self).wf(),
            peek_at(old(self).toks(), old(self).cur()) == TokenV::Fallback,
            p_fallback(old(self).toks(), old(self).cur(), f) is Some,
        ensures
            final(self).wf(),
            final(self).toks() == old(self).toks(),
            p_fallback(old(self).toks(), old(self).cur(), f) == Some(
                (opt_stmt_view(r), final(self).cur()),
            ),
        decreases f,
    {
        self.advance();
        if !self.match_token(&Token::FatArrow) {
            return None;
        }
        let body = Box::new(self.parse_arm_body(Ghost((f - 1) as nat)));
        Some(Stmt::Fallback(body))
    }

    /// A `for` loop, or a `parallel` one: the keyword, a variable, `in`, a
    /// range, `:` and a body.
    fn parse_loop_statement(&mut self, parallel: bool, Ghost(f): Ghost<nat>) -> (r: Option<Stmt>)
        requires
            old(self).wf(),
            peek_at(old(self).toks(), old(self).cur()) != TokenV::EOF,
            p_loop(old(self).toks(), old(self).cur(), parallel, f) is Some,
        ensures
            final(self).wf(),
            final(self).toks() == old(self).toks(),
            p_loop(old(self).toks(), old(self).cur(), parallel, f) == Some(
                (opt_stmt_view(r), final(self).cur()),
            ),
        decreases f,
    {
        self.advance();
        let var = match self.advance() {
            Token::Identifier(id) => id,
            _ => {
                return None;
            },
        };
        if !self.match_token(&Token::In) {
            return None;
        }
        let range = self.parse_expression(Ghost((f - 1) as nat));
        if !self.match_token(&Token::Colon) {
            return None;
        }
        let statements = self.parse_statements(Stop::Body, Ghost((f - 1) as nat));
        let body = Box::new(Stmt::Block(statements));
        assert((*body)@ == StmtV::Block(stmts_view(statements@)));
        if parallel {
            Some(Stmt::Parallel { var, range, body })
        } else {
            Some(Stmt::For { var, range, body })
        }
    }

    /// The parameters of a function, after its `(`.
    fn parse_params(&mut self, Ghost(f): Ghost<nat>) -> (params: Vec<(String, Option<String>)>)
        requires
            old(self).wf(),
            p_params(old(self).toks(), old(self).cur(), Seq::empty(), f) is Some,
        ensures
            final(self).wf(),
            final(self).toks() == old(self).toks(),
            p_params(old(self).toks(), old(self).cur(), Seq::empty(), f) == Some(
                (params_view(params@), final(self).cur()),
            ),
        decreases f,
    {
        let ghost t = self.toks();
        let ghost goal = p_params(t, self.cur(), Seq::empty(), f);
        let mut params: Vec<(String, Option<String>)> = Vec::new();
        let ghost mut g: nat = f;
        proof {
            assert(params_view(params@) =~= Seq::empty());
        }
        loop
            invariant_except_break
                self.wf(),
                self.toks() == t,
                goal == p_params(t, self.cur(), params_view(params@), g),
                goal is Some,
            ensures
                self.wf(),
                self.toks() == t,
                goal == Some((params_view(params@), self.cur())),
            decreases g,
        {
            let param_name = match self.advance() {
                Token::Identifier(id) => id,
                _ => {
                    break;
                },
            };
            let param_type = self.parse_annotation();
            let ghost before = params@;
            params.push((param_name, param_type));
            proof {
                assert(params_view(params@) =~= params_view(before).push(param_view(params@.last())));
            }
            if !self.match_token(&Token::Comma) {
                break;
            }
            proof {
                g = (g - 1) as nat;
            }
        }
        params
    }

    /// An optional `-> Type` return type.
    fn parse_return_type(&mut self) -> (ty: Option<String>)
        requires
            old(self).wf(),
            p_return_type(old(self).toks(), old(self).cur()) is Some,
        ensures
            final(self).wf(),
            final(self).toks() == old(self).toks(),
            p_return_type(old(self).toks(), old(self).cur()) == Some(
                (opt_text(ty), final(self).cur()),
            ),
    {
        if self.match_token(&Token::Arrow) {
            match self.advance() {
                Token::Identifier(t) => Some(t),
                _ => None,
            }
        } else {
            None
        }
    }

    fn parse_function_statement(&mut self, gpu: bool, Ghost(f): Ghost<nat>) -> (r: Option<Stmt>)
        requires
            old(self).wf(),
            peek_at(old(self).toks(), old(self).cur()) == TokenV::Fn,
            p_function(old(self).toks(), old(self).cur(), gpu, f) is Some,
        ensures
            final(self).wf(),
            final(self).toks() == old(self).toks(),
            p_function(old(self).toks(), old(self).cur(), gpu, f) == Some(
                (opt_stmt_view(r), final(self).cur()),
            ),
        decreases f,
    {
        self.advance();
        let name = match self.advance() {
            Token::Identifier(id) => id,
            _ => {
                return None;
            },
        };
        if !self.match_token(&Token::Lparen) {
            return None;
        }
        let params = if !self.at(&Token::Rparen) {
            self.parse_params(Ghost((f - 1) as nat))
        } else {
            let none: Vec<(String, Option<String>)> = Vec::new();
            proof {
                assert(params_view(none@) =~= Seq::empty());
            }
            none
        };
        if !self.match_token(&Token::Rparen) {
            return None;
        }
        let return_type = self.parse_return_type();
        if !self.match_token(&Token::Colon) {
            return None;
        }
        let statements = self.parse_statements(Stop::Body, Ghost((f - 1) as nat));
        let body = Box::new(Stmt::Block(statements));
        assert((*body)@ == StmtV::Block(stmts_view(statements@)));
        Some(Stmt::FunctionDef { name, params, return_type, body, gpu })
    }
}

/// Reads the source text into tokens up to the first `EOF` and parses them.
/// The lexer panics on a number literal beyond `i64::MAX`, and the parser
/// does not return where `parses` fails: both are left out.
pub fn parse_source(source: &str) -> (program: Vec<Stmt>)
    requires
        source@.len() < usize::MAX,
        lexes(source@, 0),
        parses(lex_tokens(source@, 0), 0),
    ensures
        stmts_view(program@) == parsed(lex_tokens(source@, 0), 0),
{
    let ghost s = source@;
    let mut lexer = Lexer::new(source);
    let mut tokens: Vec<Token> = Vec::new();
    loop
        invariant_except_break
            lexer.text() == s,
            s.len() < usize::MAX,
            lexer.pos() <= s.len(),
            lexes(s, lexer.pos()),
            token_views(tokens@) + lex_tokens(s, lexer.pos()) == lex_tokens(s, 0),
        ensures
            token_views(tokens@) == lex_tokens(s, 0),
        decreases s.len() - lexer.pos(),
    {
        let ghost p = lexer.pos();
        proof {
            lemma_lex_next_advances(s, p);
        }
        let token = lexer.next_token();
        if token == Token::EOF {
            assert(lex_tokens(s, p) =~= Seq::<TokenV>::empty());
            assert(token_views(tokens@) =~= token_views(tokens@) + Seq::<TokenV>::empty());
            break;
        }
        let ghost before = tokens@;
        tokens.push(token);
        proof {
            assert(token_views(tokens@) =~= token_views(before).push(token@));
            assert(token_views(tokens@) + lex_tokens(s, lexer.pos()) =~= token_views(before) + lex_tokens(s, p));
        }
    }
    let mut parser = Parser::new(tokens);
    parser.parse()
}

/// Reads and parses the source text as `parse_source` does, where both are
/// sure to finish: `None` where a number literal read is beyond `i64::MAX`
/// (on which the lexer stops) or where the last token read is `(` (after
/// which the parser need not return).
pub fn try_parse_source(source: &str) -> (r: Option<Vec<Stmt>>)
    requires
        source@.len() < usize::MAX,
    ensures
        r is Some <==> lexes(source@, 0) && (lex_tokens(source@, 0).len() == 0 || lex_tokens(
            source@,
            0,
        ).last() != TokenV::Lparen),
        r is Some ==> stmts_view(r->0@) == parsed(lex_tokens(source@, 0), 0),
{
    let ghost s = source@;
    let mut lexer = Lexer::new(source);
    let mut tokens: Vec<Token> = Vec::new();
    loop
        invariant_except_break
            lexer.text() == s,
            s == source@,
            s.len() < usize::MAX,
            lexer.pos() <= s.len(),
            lexes(s, 0) <==> lexes(s, lexer.pos()),
            token_views(tokens@) + lex_tokens(s, lexer.pos()) == lex_tokens(s, 0),
        ensures
            lexes(s, 0),
            token_views(tokens@) == lex_tokens(s, 0),
        decreases s.len() - lexer.pos(),
    {
        let ghost p = lexer.pos();
        proof {
            lemma_lex_next_advances(s, p);
        }
        let token = match lexer.try_next_token() {
            Some(t) => t,
            None => {
                assert(!lex_fits(s, p));
                return None;
            },
        };
        if token == Token::EOF {
            assert(lex_tokens(s, p) =~= Seq::<TokenV>::empty());
            assert(token_views(tokens@) =~= token_views(tokens@) + Seq::<TokenV>::empty());
            break;
        }
        let ghost before = tokens@;
        tokens.push(token);
        proof {
            assert(token_views(tokens@) =~= token_views(before).push(token@));
            assert(token_views(tokens@) + lex_tokens(s, lexer.pos()) =~= token_views(before) + lex_tokens(s, p));
        }
    }
    let n = tokens.len();
    if n > 0 && tokens[n - 1] == Token::Lparen {
        assert(token_views(tokens@)[n - 1] == tokens@[n - 1]@);
        return None;
    }
    proof {
        if n > 0 {
            assert(token_views(tokens@)[n - 1] == tokens@[n - 1]@);
        }
        lemma_source_parses(s);
    }
    let mut parser = Parser::new(tokens);
    Some(parser.parse())
}

} // verus!
