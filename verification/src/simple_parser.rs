//! A small VORTEX parser, proved to build exactly what the functions of
//! `simple_parser_spec` describe.
use crate::ast::{exprs_view, lemma_exprs_view_push, lemma_stmts_view_push, opt_text, stmts_view, Expr, ExprV, Stmt, StmtV};
use crate::parser::opt_stmt_view;
use crate::parser_spec::{at_end, peek_at};
use crate::simple_parser_spec::{
    level_ops, s_advance, s_binary, s_check, s_kind, s_match, sp_args, sp_assignment, sp_block,
    sp_call_rest, sp_declaration, sp_expression, sp_finish_call, sp_if, sp_let, sp_level,
    sp_level_rest, sp_operand, sp_parsed, sp_parses, sp_primary, sp_program, sp_unary,
};
use crate::token::{token_views, Token, TokenV};
use vstd::prelude::*;

verus! {

/// Parses a sequence of tokens into statements.
pub struct SimpleParser {
    tokens: Vec<Token>,
    current: usize,
}

impl SimpleParser {
    /// The views of the tokens being parsed.
    pub closed spec fn toks(&self) -> Seq<TokenV> {
        token_views(self.tokens@)
    }

    /// The position of the next token.
    pub closed spec fn cur(&self) -> nat {
        self.current as nat
    }

    /// The position lies within the tokens or just past them.
    pub closed spec fn wf(&self) -> bool {
        self.current <= self.tokens.len()
    }

    /// A parser at the first of the tokens.
    pub fn new(tokens: Vec<Token>) -> (p: SimpleParser)
        ensures
            p.wf(),
            p.cur() == 0,
            p.toks() == token_views(tokens@),
    {
        SimpleParser { tokens, current: 0 }
    }

    /// The whole program: declarations until the end.  The parser returns
    /// on the given tokens only where `sp_parses` holds: a declaration that
    /// fails without taking a token makes it loop, and a missing `)` makes
    /// it panic.
    pub fn parse(&mut self) -> (statements: Vec<Stmt>)
        requires
            old(self).wf(),
            sp_parses(old(self).toks(), old(self).cur()),
        ensures
            final(self).wf(),
            final(self).toks() == old(self).toks(),
            at_end(final(self).toks(), final(self).cur()),
            stmts_view(statements@) == sp_parsed(old(self).toks(), old(self).cur()),
    {
        let ghost t = self.toks();
        let ghost f = choose|f: nat| #[trigger] sp_program(t, self.cur(), Seq::empty(), f) is Some;
        let ghost goal = sp_program(t, self.cur(), Seq::empty(), f);
        let mut statements: Vec<Stmt> = Vec::new();
        let ghost mut g: nat = f;
        proof {
            assert(stmts_view(statements@) =~= Seq::<StmtV>::empty());
        }
        while !self.is_at_end()
            invariant
                self.wf(),
                self.toks() == t,
                goal == sp_program(t, self.cur(), stmts_view(statements@), g),
                goal is Some,
            decreases g,
        {
            if let Some(stmt) = self.declaration(Ghost((g - 1) as nat)) {
                proof {
                    lemma_stmts_view_push(statements@, stmt);
                }
                statements.push(stmt);
            }
            proof {
                g = (g - 1) as nat;
            }
        }
        statements
    }

    fn declaration(&mut self, Ghost(f): Ghost<nat>) -> (r: Option<Stmt>)
        requires
            old(self).wf(),
            sp_declaration(old(self).toks(), old(self).cur(), f) is Some,
        ensures
            final(self).wf(),
            final(self).toks() == old(self).toks(),
            sp_declaration(old(self).toks(), old(self).cur(), f) == Some((opt_stmt_view(r), final(self).cur())),
        decreases f, 1nat,
    {
        if self.match_token(&Token::Let) {
            return self.let_declaration(Ghost((f - 1) as nat));
        }
        self.statement(Ghost(f))
    }

    /// An `if` statement, or else an expression statement.
    fn statement(&mut self, Ghost(f): Ghost<nat>) -> (r: Option<Stmt>)
        requires
            old(self).wf(),
            !s_check(old(self).toks(), old(self).cur(), TokenV::Let),
            sp_declaration(old(self).toks(), old(self).cur(), f) is Some,
        ensures
            final(self).wf(),
            final(self).toks() == old(self).toks(),
            sp_declaration(old(self).toks(), old(self).cur(), f) == Some((opt_stmt_view(r), final(self).cur())),
        decreases f, 0nat,
    {
        if self.match_token(&Token::If) {
            return self.if_statement(Ghost((f - 1) as nat));
        }
        let expr = self.expression(Ghost((f - 1) as nat));
        Some(Stmt::ExprStmt(expr))
    }

    fn let_declaration(&mut self, Ghost(f): Ghost<nat>) -> (r: Option<Stmt>)
        requires
            old(self).wf(),
            sp_let(old(self).toks(), old(self).cur(), f) is Some,
        ensures
            final(self).wf(),
            final(self).toks() == old(self).toks(),
            sp_let(old(self).toks(), old(self).cur(), f) == Some((opt_stmt_view(r), final(self).cur())),
        decreases f, 0nat,
    {
        let mutable = self.match_token(&Token::Mut);
        if let Token::Identifier(name) = self.advance() {
            let declared_type = if self.match_token(&Token::Colon) {
                if let Token::Identifier(type_text) = self.advance() {
                    Some(type_text)
                } else {
                    None
                }
            } else {
                None
            };
            if self.match_token(&Token::Equals) {
                let value = self.expression(Ghost((f - 1) as nat));
                return Some(Stmt::Let { name, declared_type, value, mutable });
            }
        }
        None
    }

    fn if_statement(&mut self, Ghost(f): Ghost<nat>) -> (r: Option<Stmt>)
        requires
            old(self).wf(),
            sp_if(old(self).toks(), old(self).cur(), f) is Some,
        ensures
            final(self).wf(),
            final(self).toks() == old(self).toks(),
            sp_if(old(self).toks(), old(self).cur(), f) == Some((opt_stmt_view(r), final(self).cur())),
        decreases f, 0nat,
    {
        let condition = self.expression(Ghost((f - 1) as nat));
        if !self.match_token(&Token::Colon) {
            return None;
        }
        let then_branch = Box::new(self.block_statement(Ghost((f - 1) as nat)));
        let ghost tv = (*then_branch)@;
        let else_branch = if self.match_token(&Token::Else) {
            if !self.match_token(&Token::Colon) {
                return None;
            }
            Some(Box::new(self.block_statement(Ghost((f - 1) as nat))))
        } else {
            None
        };
        Some(Stmt::IfStmt { condition, then_branch, else_branch })
    }

    /// Declarations until the end or an `else`, or until one fails.
    fn block_statement(&mut self, Ghost(f): Ghost<nat>) -> (s: Stmt)
        requires
            old(self).wf(),
            sp_block(old(self).toks(), old(self).cur(), Seq::empty(), f) is Some,
        ensures
            final(self).wf(),
            final(self).toks() == old(self).toks(),
            sp_block(old(self).toks(), old(self).cur(), Seq::empty(), f) matches Some((ss, c))
                && s@ == StmtV::Block(ss) && c == final(self).cur(),
        decreases f, 0nat,
    {
        let ghost t = self.toks();
        let ghost goal = sp_block(t, self.cur(), Seq::empty(), f);
        let mut statements: Vec<Stmt> = Vec::new();
        let ghost mut g: nat = f;
        proof {
            assert(stmts_view(statements@) =~= Seq::<StmtV>::empty());
        }
        while !self.is_at_end() && !self.check(&Token::Else) && !self.check(&Token::EOF)
            invariant_except_break
                self.wf(),
                self.toks() == t,
                goal == sp_block(t, self.cur(), stmts_view(statements@), g),
                goal is Some,
                g <= f,
            ensures
                self.wf(),
                self.toks() == t,
                goal == Some((stmts_view(statements@), self.cur())),
            decreases g,
        {
            if let Some(stmt) = self.declaration(Ghost((g - 1) as nat)) {
                proof {
                    lemma_stmts_view_push(statements@, stmt);
                }
                statements.push(stmt);
            } else {
                break;
            }
            proof {
                g = (g - 1) as nat;
            }
        }
        Stmt::Block(statements)
    }

    fn expression(&mut self, Ghost(f): Ghost<nat>) -> (e: Expr)
        requires
            old(self).wf(),
            sp_expression(old(self).toks(), old(self).cur(), f) is Some,
        ensures
            final(self).wf(),
            final(self).toks() == old(self).toks(),
            sp_expression(old(self).toks(), old(self).cur(), f) == Some((e@, final(self).cur())),
        decreases f, 0nat,
    {
        self.assignment(Ghost((f - 1) as nat))
    }

    fn assignment(&mut self, Ghost(f): Ghost<nat>) -> (e: Expr)
        requires
            old(self).wf(),
            sp_assignment(old(self).toks(), old(self).cur(), f) is Some,
        ensures
            final(self).wf(),
            final(self).toks() == old(self).toks(),
            sp_assignment(old(self).toks(), old(self).cur(), f) == Some((e@, final(self).cur())),
        decreases f, 0nat,
    {
        let expr = self.equality(Ghost((f - 1) as nat));
        if self.match_token(&Token::Equals) {
            if let Expr::Ident(name) = expr {
                let value = self.assignment(Ghost((f - 1) as nat));
                return Expr::Assignment { name, value: Box::new(value) };
            }
        }
        expr
    }

    /// Operators of one level and their operands, from left to right.
    fn binary_level(&mut self, level: u8, Ghost(f): Ghost<nat>) -> (e: Expr)
        requires
            old(self).wf(),
            level <= 3,
            sp_level(old(self).toks(), old(self).cur(), level as nat, f) is Some,
        ensures
            final(self).wf(),
            final(self).toks() == old(self).toks(),
            sp_level(old(self).toks(), old(self).cur(), level as nat, f) == Some((e@, final(self).cur())),
        decreases f, 0nat,
    {
        let ghost t = self.toks();
        let ghost goal = sp_level(t, self.cur(), level as nat, f);
        let mut expr = self.operand(level, Ghost((f - 1) as nat));
        let ghost mut g: nat = (f - 1) as nat;
        loop
            invariant_except_break
                self.wf(),
                self.toks() == t,
                level <= 3,
                goal == sp_level_rest(t, self.cur(), level as nat, expr@, g),
                goal is Some,
                g < f,
            ensures
                self.wf(),
                self.toks() == t,
                goal == Some((expr@, self.cur())),
            decreases g,
        {
            if !self.match_level(level) {
                break;
            }
            let operator = self.previous();
            let right = self.operand(level, Ghost((g - 1) as nat));
            expr = Expr::Binary { left: Box::new(expr), op: operator, right: Box::new(right) };
            proof {
                g = (g - 1) as nat;
            }
        }
        expr
    }

    /// The operand of a level: the next level, or a unary expression below
    /// factors.
    fn operand(&mut self, level: u8, Ghost(f): Ghost<nat>) -> (e: Expr)
        requires
            old(self).wf(),
            level <= 3,
            sp_operand(old(self).toks(), old(self).cur(), level as nat, f) is Some,
        ensures
            final(self).wf(),
            final(self).toks() == old(self).toks(),
            sp_operand(old(self).toks(), old(self).cur(), level as nat, f) == Some((e@, final(self).cur())),
        decreases f, 0nat,
    {
        let ghost g = (f - 1) as nat;
        if level == 0 {
            self.comparison(Ghost(g))
        } else if level == 1 {
            self.term(Ghost(g))
        } else if level == 2 {
            self.factor(Ghost(g))
        } else {
            self.unary(Ghost(g))
        }
    }

    fn equality(&mut self, Ghost(f): Ghost<nat>) -> (e: Expr)
        requires
            old(self).wf(),
            sp_level(old(self).toks(), old(self).cur(), 0, f) is Some,
        ensures
            final(self).wf(),
            final(self).toks() == old(self).toks(),
            sp_level(old(self).toks(), old(self).cur(), 0, f) == Some((e@, final(self).cur())),
        decreases f, 1nat,
    {
        self.binary_level(0, Ghost(f))
    }

    fn comparison(&mut self, Ghost(f): Ghost<nat>) -> (e: Expr)
        requires
            old(self).wf(),
            sp_level(old(self).toks(), old(self).cur(), 1, f) is Some,
        ensures
            final(self).wf(),
            final(self).toks() == old(self).toks(),
            sp_level(old(self).toks(), old(self).cur(), 1, f) == Some((e@, final(self).cur())),
        decreases f, 1nat,
    {
        self.binary_level(1, Ghost(f))
    }

    fn term(&mut self, Ghost(f): Ghost<nat>) -> (e: Expr)
        requires
            old(self).wf(),
            sp_level(old(self).toks(), old(self).cur(), 2, f) is Some,
        ensures
            final(self).wf(),
            final(self).toks() == old(self).toks(),
            sp_level(old(self).toks(), old(self).cur(), 2, f) == Some((e@, final(self).cur())),
        decreases f, 1nat,
    {
        self.binary_level(2, Ghost(f))
    }

    fn factor(&mut self, Ghost(f): Ghost<nat>) -> (e: Expr)
        requires
            old(self).wf(),
            sp_level(old(self).toks(), old(self).cur(), 3, f) is Some,
        ensures
            final(self).wf(),
            final(self).toks() == old(self).toks(),
            sp_level(old(self).toks(), old(self).cur(), 3, f) == Some((e@, final(self).cur())),
        decreases f, 1nat,
    {
        self.binary_level(3, Ghost(f))
    }

    fn unary(&mut self, Ghost(f): Ghost<nat>) -> (e: Expr)
        requires
            old(self).wf(),
            sp_unary(old(self).toks(), old(self).cur(), f) is Some,
        ensures
            final(self).wf(),
            final(self).toks() == old(self).toks(),
            sp_unary(old(self).toks(), old(self).cur(), f) == Some((e@, final(self).cur())),
        decreases f, 1nat,
    {
        if self.match_any(vec![Token::Minus].as_slice()) {
            let operator = self.previous();
            let right = self.unary(Ghost((f - 1) as nat));
            return Expr::Unary { op: operator, expr: Box::new(right) };
        }
        self.call(Ghost(f))
    }

    /// A primary expression and the calls that follow it.
    fn call(&mut self, Ghost(f): Ghost<nat>) -> (e: Expr)
        requires
            old(self).wf(),
            !s_check(old(self).toks(), old(self).cur(), TokenV::Minus),
            sp_unary(old(self).toks(), old(self).cur(), f) is Some,
        ensures
            final(self).wf(),
            final(self).toks() == old(self).toks(),
            sp_unary(old(self).toks(), old(self).cur(), f) == Some((e@, final(self).cur())),
        decreases f, 0nat,
    {
        let ghost t = self.toks();
        let ghost goal = sp_unary(t, self.cur(), f);
        let mut expr = self.primary(Ghost((f - 1) as nat));
        let ghost mut g: nat = (f - 1) as nat;
        loop
            invariant_except_break
                self.wf(),
                self.toks() == t,
                goal == sp_call_rest(t, self.cur(), expr@, g),
                goal is Some,
                g < f,
            ensures
                self.wf(),
                self.toks() == t,
                goal == Some((expr@, self.cur())),
            decreases g,
        {
            if self.match_token(&Token::Lparen) {
                expr = self.finish_call(expr, Ghost((g - 1) as nat));
            } else {
                break;
            }
            proof {
                g = (g - 1) as nat;
            }
        }
        expr
    }

    /// The arguments of a call after its `(`, and the `)`.
    fn finish_call(&mut self, callee: Expr, Ghost(f): Ghost<nat>) -> (e: Expr)
        requires
            old(self).wf(),
            sp_finish_call(old(self).toks(), old(self).cur(), callee@, f) is Some,
        ensures
            final(self).wf(),
            final(self).toks() == old(self).toks(),
            sp_finish_call(old(self).toks(), old(self).cur(), callee@, f) == Some((e@, final(self).cur())),
        decreases f, 0nat,
    {
        let ghost t = self.toks();
        let ghost cv = callee@;
        let mut arguments: Vec<Expr> = Vec::new();
        if !self.check(&Token::Rparen) {
            let ghost goal = sp_args(t, self.cur(), Seq::empty(), (f - 1) as nat);
            let ghost mut g: nat = (f - 1) as nat;
            proof {
                assert(exprs_view(arguments@) =~= Seq::<ExprV>::empty());
            }
            loop
                invariant_except_break
                    self.wf(),
                    self.toks() == t,
                    goal == sp_args(t, self.cur(), exprs_view(arguments@), g),
                    goal is Some,
                    g < f,
                ensures
                    self.wf(),
                    self.toks() == t,
                    goal == Some((exprs_view(arguments@), self.cur())),
                decreases g,
            {
                let a = self.expression(Ghost((g - 1) as nat));
                proof {
                    lemma_exprs_view_push(arguments@, a);
                }
                arguments.push(a);
                if !self.match_token(&Token::Comma) {
                    break;
                }
                proof {
                    g = (g - 1) as nat;
                }
            }
        }
        self.consume(Token::Rparen, "Expected ')' after arguments.");
        let e = Expr::FunctionCall { callee: Box::new(callee), arguments };
        assert(e@ == ExprV::FunctionCall { callee: Box::new(cv), arguments: exprs_view(arguments@) });
        e
    }

    fn primary(&mut self, Ghost(f): Ghost<nat>) -> (e: Expr)
        requires
            old(self).wf(),
            sp_primary(old(self).toks(), old(self).cur(), f) is Some,
        ensures
            final(self).wf(),
            final(self).toks() == old(self).toks(),
            sp_primary(old(self).toks(), old(self).cur(), f) == Some((e@, final(self).cur())),
        decreases f, 0nat,
    {
        if self.match_token(&Token::Number(0)) {
            if let Token::Number(value) = self.previous() {
                return Expr::Number(value);
            }
        }
        if self.match_token(&Token::String(String::new())) {
            if let Token::String(value) = self.previous() {
                return Expr::String(value);
            }
        }
        if self.match_token(&Token::Boolean(false)) {
            if let Token::Boolean(value) = self.previous() {
                return Expr::Boolean(value);
            }
        }
        if self.match_token(&Token::Identifier(String::new())) {
            if let Token::Identifier(name) = self.previous() {
                return Expr::Ident(name);
            }
        }
        if self.match_token(&Token::Lparen) {
            let expr = self.expression(Ghost((f - 1) as nat));
            self.consume(Token::Rparen, "Expected ')' after expression.");
            return Expr::Grouping(Box::new(expr));
        }
        Expr::Ident("error".to_owned())
    }

    /// Takes the current token if it matches `k`.
    fn match_token(&mut self, k: &Token) -> (r: bool)
        requires
            old(self).wf(),
        ensures
            final(self).wf(),
            final(self).toks() == old(self).toks(),
            s_match(old(self).toks(), old(self).cur(), k@) == (r, final(self).cur()),
    {
        if self.check(k) {
            self.advance();
            true
        } else {
            false
        }
    }

    /// Takes the current token if it matches one of `token_types`.
    fn match_any(&mut self, token_types: &[Token]) -> (r: bool)
        requires
            old(self).wf(),
        ensures
            final(self).wf(),
            final(self).toks() == old(self).toks(),
            r == (exists|i: int| 0 <= i < token_types@.len() && #[trigger] s_check(old(self).toks(), old(self).cur(), token_types@[i]@)),
            final(self).cur() == if r {
                old(self).cur() + 1
            } else {
                old(self).cur()
            },
    {
        let mut i: usize = 0;
        while i < token_types.len()
            invariant
                self.wf(),
                self.toks() == old(self).toks(),
                self.cur() == old(self).cur(),
                i <= token_types@.len(),
                forall|j: int| 0 <= j < i ==> !#[trigger] s_check(self.toks(), self.cur(), token_types@[j]@),
            decreases token_types@.len() - i,
        {
            if self.check(&token_types[i]) {
                self.advance();
                return true;
            }
            i = i + 1;
        }
        false
    }

    /// Takes the current token if it is an operator of the level.
    fn match_level(&mut self, level: u8) -> (r: bool)
        requires
            old(self).wf(),
        ensures
            final(self).wf(),
            final(self).toks() == old(self).toks(),
            r == (!at_end(old(self).toks(), old(self).cur()) && level_ops(level as nat, peek_at(old(self).toks(), old(self).cur()))),
            final(self).cur() == if r {
                old(self).cur() + 1
            } else {
                old(self).cur()
            },
    {
        let ops = if level == 0 {
            vec![Token::EQ, Token::NE]
        } else if level == 1 {
            vec![Token::GT, Token::GE, Token::LT, Token::LE]
        } else if level == 2 {
            vec![Token::Plus, Token::Minus]
        } else {
            vec![Token::Star, Token::Slash]
        };
        let ghost t = self.toks();
        let ghost c = self.cur();
        proof {
            if !at_end(t, c) && level_ops(level as nat, peek_at(t, c)) {
                let k = peek_at(t, c);
                let i = choose|i: int| 0 <= i < ops@.len() && ops@[i]@ == k;
                assert(s_check(t, c, ops@[i]@));
            }
        }
        self.match_any(ops.as_slice())
    }

    /// Takes the current token, which must match `token_type`.
    fn consume(&mut self, token_type: Token, message: &str) -> (tok: Token)
        requires
            old(self).wf(),
            s_check(old(self).toks(), old(self).cur(), token_type@),
        ensures
            final(self).wf(),
            final(self).toks() == old(self).toks(),
            final(self).cur() == old(self).cur() + 1,
            tok@ == peek_at(old(self).toks(), old(self).cur()),
    {
        let _ = message;
        self.advance()
    }

    fn check(&self, k: &Token) -> (r: bool)
        requires
            self.wf(),
        ensures
            r == s_check(self.toks(), self.cur(), k@),
    {
        if self.is_at_end() {
            return false;
        }
        match (self.peek(), k) {
            (Token::Number(_), Token::Number(_)) => true,
            (Token::String(_), Token::String(_)) => true,
            (Token::Boolean(_), Token::Boolean(_)) => true,
            (Token::Identifier(_), Token::Identifier(_)) => true,
            _ => self.peek().eq(k),
        }
    }

    fn advance(&mut self) -> (tok: Token)
        requires
            old(self).wf(),
        ensures
            final(self).wf(),
            final(self).toks() == old(self).toks(),
            s_advance(old(self).toks(), old(self).cur()) == (tok@, final(self).cur()),
    {
        if !self.is_at_end() {
            self.current = self.current + 1;
        }
        self.previous()
    }

    fn is_at_end(&self) -> (r: bool)
        requires
            self.wf(),
        ensures
            r == at_end(self.toks(), self.cur()),
    {
        self.current >= self.tokens.len() || matches!(self.peek(), Token::EOF)
    }

    fn peek(&self) -> (r: &Token)
        requires
            self.wf(),
        ensures
            r@ == peek_at(self.toks(), self.cur()),
    {
        if self.current < self.tokens.len() {
            &self.tokens[self.current]
        } else {
            &Token::EOF
        }
    }

    /// The token before the current one, or `EOF` at the first.
    fn previous(&self) -> (tok: Token)
        requires
            self.wf(),
        ensures
            tok@ == if self.cur() > 0 {
                self.toks()[self.cur() - 1]
            } else {
                TokenV::EOF
            },
    {
        if self.current > 0 {
            self.tokens[self.current - 1].clone()
        } else {
            Token::EOF
        }
    }
}

} // verus!
