//! What the VORTEX parser computes, as functions over token views.
//!
//! Each function takes the tokens, a position and a fuel bound, and gives
//! the result together with the position after it; `None` means the fuel ran
//! out (the parser would not return) or the parser would read before the
//! first token.
use crate::ast::{ExprV, StmtV};
use crate::token::{same_kind, TokenV};
use vstd::prelude::*;

verus! {

pub open spec fn peek_at(t: Seq<TokenV>, c: nat) -> TokenV {
    if c < t.len() {
        t[c as int]
    } else {
        TokenV::EOF
    }
}

pub open spec fn at_end(t: Seq<TokenV>, c: nat) -> bool {
    peek_at(t, c) == TokenV::EOF
}

/// Moving past the current token: the token passed over and the new
/// position.  At the end the position stays and the last token is repeated.
pub open spec fn advance_spec(t: Seq<TokenV>, c: nat) -> Option<(TokenV, nat)> {
    let c2: nat = if at_end(t, c) {
        c
    } else {
        c + 1
    };
    if c2 == 0 {
        None
    } else {
        Some((
            if c2 - 1 < t.len() {
                t[c2 - 1]
            } else {
                TokenV::EOF
            },
            c2,
        ))
    }
}

pub open spec fn check_spec(t: Seq<TokenV>, c: nat, k: TokenV) -> bool {
    !at_end(t, c) && same_kind(peek_at(t, c), k)
}

/// Consuming a token of the given kind if it is next.
pub open spec fn match_spec(t: Seq<TokenV>, c: nat, k: TokenV) -> (bool, nat) {
    if check_spec(t, c, k) {
        (true, c + 1)
    } else {
        (false, c)
    }
}

pub open spec fn is_comparison_op(k: TokenV) -> bool {
    k == TokenV::GT || k == TokenV::GE || k == TokenV::LT || k == TokenV::LE || k == TokenV::EQ
        || k == TokenV::NE
}

pub open spec fn is_term_op(k: TokenV) -> bool {
    k == TokenV::Plus || k == TokenV::Minus
}

pub open spec fn is_factor_op(k: TokenV) -> bool {
    k == TokenV::Star || k == TokenV::Slash
}

pub open spec fn is_range_or_dot(k: TokenV) -> bool {
    k == TokenV::Range || k == TokenV::Dot
}

pub open spec fn is_expr_start(k: TokenV) -> bool {
    match k {
        TokenV::Number(_) | TokenV::Floating(_) | TokenV::Boolean(_) | TokenV::String(_)
        | TokenV::Identifier(_) | TokenV::Lparen | TokenV::Minus | TokenV::Range => true,
        _ => false,
    }
}

/// Where a run of statements stops: after an `if` condition, after a `then`
/// condition, after `else`, or in a loop or function body.
pub enum Stop {
    Then,
    ElseIf,
    Else,
    Body,
}

pub open spec fn stops(s: Stop, k: TokenV) -> bool {
    let common = k == TokenV::EOF || k == TokenV::Branch || k == TokenV::Fallback || k == TokenV::For
        || k == TokenV::Parallel || k == TokenV::Fn || k == TokenV::GPU || k == TokenV::Let;
    match s {
        Stop::Then => common || k == TokenV::Then || k == TokenV::Else,
        Stop::ElseIf => common || k == TokenV::Else,
        Stop::Else => common,
        Stop::Body => common || k == TokenV::If,
    }
}

pub open spec fn error_ident() -> ExprV {
    ExprV::Ident("error"@)
}

pub open spec fn binary(l: ExprV, op: TokenV, r: ExprV) -> ExprV {
    ExprV::Binary { left: Box::new(l), op, right: Box::new(r) }
}

pub open spec fn p_expression(t: Seq<TokenV>, c: nat, f: nat) -> Option<(ExprV, nat)>
    decreases f,
{
    if f == 0 {
        None
    } else {
        p_comparison(t, c, (f - 1) as nat)
    }
}

pub open spec fn p_comparison(t: Seq<TokenV>, c: nat, f: nat) -> Option<(ExprV, nat)>
    decreases f,
{
    if f == 0 {
        None
    } else {
        match p_term(t, c, (f - 1) as nat) {
            Some((e, c1)) => p_comparison_rest(t, c1, e, (f - 1) as nat),
            None => None,
        }
    }
}

pub open spec fn p_comparison_rest(t: Seq<TokenV>, c: nat, e: ExprV, f: nat) -> Option<(ExprV, nat)>
    decreases f,
{
    if f == 0 {
        None
    } else if is_comparison_op(peek_at(t, c)) {
        match p_term(t, c + 1, (f - 1) as nat) {
            Some((r, c2)) => p_comparison_rest(t, c2, binary(e, peek_at(t, c), r), (f - 1) as nat),
            None => None,
        }
    } else {
        Some((e, c))
    }
}

pub open spec fn p_term(t: Seq<TokenV>, c: nat, f: nat) -> Option<(ExprV, nat)>
    decreases f,
{
    if f == 0 {
        None
    } else {
        match p_factor(t, c, (f - 1) as nat) {
            Some((e, c1)) => p_term_rest(t, c1, e, (f - 1) as nat),
            None => None,
        }
    }
}

pub open spec fn p_term_rest(t: Seq<TokenV>, c: nat, e: ExprV, f: nat) -> Option<(ExprV, nat)>
    decreases f,
{
    if f == 0 {
        None
    } else if is_term_op(peek_at(t, c)) {
        match p_factor(t, c + 1, (f - 1) as nat) {
            Some((r, c2)) => p_term_rest(t, c2, binary(e, peek_at(t, c), r), (f - 1) as nat),
            None => None,
        }
    } else {
        Some((e, c))
    }
}

pub open spec fn p_factor(t: Seq<TokenV>, c: nat, f: nat) -> Option<(ExprV, nat)>
    decreases f,
{
    if f == 0 {
        None
    } else {
        match p_unary(t, c, (f - 1) as nat) {
            Some((e, c1)) => p_factor_rest(t, c1, e, (f - 1) as nat),
            None => None,
        }
    }
}

pub open spec fn p_factor_rest(t: Seq<TokenV>, c: nat, e: ExprV, f: nat) -> Option<(ExprV, nat)>
    decreases f,
{
    if f == 0 {
        None
    } else if is_factor_op(peek_at(t, c)) {
        match p_unary(t, c + 1, (f - 1) as nat) {
            Some((r, c2)) => p_factor_rest(t, c2, binary(e, peek_at(t, c), r), (f - 1) as nat),
            None => None,
        }
    } else {
        Some((e, c))
    }
}

pub open spec fn p_unary(t: Seq<TokenV>, c: nat, f: nat) -> Option<(ExprV, nat)>
    decreases f,
{
    if f == 0 {
        None
    } else if peek_at(t, c) == TokenV::Minus {
        match p_unary(t, c + 1, (f - 1) as nat) {
            Some((e, c2)) => Some((ExprV::Unary { op: TokenV::Minus, expr: Box::new(e) }, c2)),
            None => None,
        }
    } else {
        p_call(t, c, (f - 1) as nat)
    }
}

pub open spec fn p_call(t: Seq<TokenV>, c: nat, f: nat) -> Option<(ExprV, nat)>
    decreases f,
{
    if f == 0 {
        None
    } else {
        match p_primary(t, c, (f - 1) as nat) {
            Some((e, c1)) => p_call_rest(t, c1, e, (f - 1) as nat),
            None => None,
        }
    }
}

/// The arguments of a call, after the `(`: none if `)` is next.
pub open spec fn p_call_args(t: Seq<TokenV>, c: nat, f: nat) -> Option<(Seq<ExprV>, nat)>
    decreases f,
{
    if f == 0 {
        None
    } else if peek_at(t, c) != TokenV::Rparen {
        match p_expression(t, c, (f - 1) as nat) {
            Some((a, c2)) => p_args_rest(t, c2, seq![a], (f - 1) as nat),
            None => None,
        }
    } else {
        Some((Seq::empty(), c))
    }
}

pub open spec fn p_call_rest(t: Seq<TokenV>, c: nat, e: ExprV, f: nat) -> Option<(ExprV, nat)>
    decreases f,
{
    if f == 0 {
        None
    } else if peek_at(t, c) == TokenV::Lparen {
        match p_call_args(t, c + 1, (f - 1) as nat) {
            Some((args, c3)) => {
                let m = match_spec(t, c3, TokenV::Rparen);
                if !m.0 {
                    Some((e, m.1))
                } else {
                    p_call_rest(
                        t,
                        m.1,
                        ExprV::FunctionCall { callee: Box::new(e), arguments: args },
                        (f - 1) as nat,
                    )
                }
            },
            None => None,
        }
    } else {
        Some((e, c))
    }
}

pub open spec fn p_args_rest(t: Seq<TokenV>, c: nat, args: Seq<ExprV>, f: nat) -> Option<(Seq<ExprV>, nat)>
    decreases f,
{
    if f == 0 {
        None
    } else {
        let m = match_spec(t, c, TokenV::Comma);
        if m.0 {
            match p_expression(t, m.1, (f - 1) as nat) {
                Some((a, c2)) => p_args_rest(t, c2, args.push(a), (f - 1) as nat),
                None => None,
            }
        } else {
            Some((args, c))
        }
    }
}

/// A literal or name followed by `..` or `. .` starts a range.
pub open spec fn p_maybe_range(t: Seq<TokenV>, c: nat, start: ExprV, f: nat) -> Option<(ExprV, nat)>
    decreases f,
{
    if f == 0 {
        None
    } else if is_range_or_dot(peek_at(t, c)) {
        p_range_from(t, c, start, (f - 1) as nat)
    } else {
        Some((start, c))
    }
}

pub open spec fn p_primary(t: Seq<TokenV>, c: nat, f: nat) -> Option<(ExprV, nat)>
    decreases f,
{
    if f == 0 {
        None
    } else {
        match advance_spec(t, c) {
            None => None,
            Some((tok, c1)) => match tok {
                TokenV::Number(n) => p_maybe_range(t, c1, ExprV::Number(n), (f - 1) as nat),
                TokenV::Floating(s) => p_maybe_range(t, c1, ExprV::Floating(s), (f - 1) as nat),
                TokenV::Boolean(b) => Some((ExprV::Boolean(b), c1)),
                TokenV::String(s) => Some((ExprV::String(s), c1)),
                TokenV::Identifier(id) => p_maybe_range(t, c1, ExprV::Ident(id), (f - 1) as nat),
                TokenV::Range => p_range_call(t, c1, (f - 1) as nat),
                TokenV::Lparen => match p_expression(t, c1, (f - 1) as nat) {
                    Some((e, c2)) => {
                        let m = match_spec(t, c2, TokenV::Rparen);
                        if m.0 {
                            Some((ExprV::Grouping(Box::new(e)), m.1))
                        } else {
                            Some((e, m.1))
                        }
                    },
                    None => None,
                },
                _ => Some((error_ident(), c1)),
            },
        }
    }
}

/// `range(start, end)`, after the `range` keyword; `range` alone is a name.
pub open spec fn p_range_call(t: Seq<TokenV>, c: nat, f: nat) -> Option<(ExprV, nat)>
    decreases f,
{
    if f == 0 {
        None
    } else {
        let m = match_spec(t, c, TokenV::Lparen);
        if !m.0 {
            Some((ExprV::Ident("range"@), m.1))
        } else {
            match p_expression(t, m.1, (f - 1) as nat) {
                Some((st, c3)) => {
                    let m2 = match_spec(t, c3, TokenV::Comma);
                    if !m2.0 {
                        Some((error_ident(), m2.1))
                    } else {
                        match p_expression(t, m2.1, (f - 1) as nat) {
                            Some((en, c5)) => {
                                let m3 = match_spec(t, c5, TokenV::Rparen);
                                if m3.0 {
                                    Some((ExprV::Range { start: Box::new(st), end: Box::new(en) }, m3.1))
                                } else {
                                    Some((error_ident(), m3.1))
                                }
                            },
                            None => None,
                        }
                    }
                },
                None => None,
            }
        }
    }
}

pub open spec fn p_range_from(t: Seq<TokenV>, c: nat, start: ExprV, f: nat) -> Option<(ExprV, nat)>
    decreases f,
{
    if f == 0 {
        None
    } else {
        let m = match_spec(t, c, TokenV::Range);
        if m.0 {
            match p_expression(t, m.1, (f - 1) as nat) {
                Some((en, c2)) => Some((ExprV::Range { start: Box::new(start), end: Box::new(en) }, c2)),
                None => None,
            }
        } else {
            let m2 = match_spec(t, c, TokenV::Dot);
            if m2.0 {
                let m3 = match_spec(t, m2.1, TokenV::Dot);
                if m3.0 {
                    match p_expression(t, m3.1, (f - 1) as nat) {
                        Some((en, c4)) => Some(
                            (ExprV::Range { start: Box::new(start), end: Box::new(en) }, c4),
                        ),
                        None => None,
                    }
                } else {
                    Some((start, m3.1))
                }
            } else {
                Some((start, c))
            }
        }
    }
}

pub open spec fn p_statement(t: Seq<TokenV>, c: nat, f: nat) -> Option<(Option<StmtV>, nat)>
    decreases f,
{
    if f == 0 {
        None
    } else {
        let k = peek_at(t, c);
        if k == TokenV::Let {
            p_let(t, c, (f - 1) as nat)
        } else if k == TokenV::If {
            p_if(t, c, (f - 1) as nat)
        } else if k == TokenV::Branch {
            p_branch(t, c, (f - 1) as nat)
        } else if k == TokenV::Fallback {
            p_fallback(t, c, (f - 1) as nat)
        } else if k == TokenV::For {
            p_loop(t, c, false, (f - 1) as nat)
        } else if k == TokenV::Parallel {
            p_loop(t, c, true, (f - 1) as nat)
        } else if k == TokenV::Fn {
            p_function(t, c, false, (f - 1) as nat)
        } else if k == TokenV::GPU {
            if peek_at(t, c + 1) == TokenV::Fn {
                p_function(t, c + 1, true, (f - 1) as nat)
            } else {
                Some((None, c + 1))
            }
        } else if k == TokenV::Return {
            match p_expression(t, c + 1, (f - 1) as nat) {
                Some((e, c2)) => Some((Some(StmtV::Return(e)), c2)),
                None => None,
            }
        } else if is_expr_start(k) {
            match p_expression(t, c, (f - 1) as nat) {
                Some((e, c1)) => Some((Some(StmtV::ExprStmt(e)), c1)),
                None => None,
            }
        } else {
            Some((None, c))
        }
    }
}

/// Statements until one of the stop tokens is next or a statement fails to
/// parse (the tokens that it read stay read).
pub open spec fn p_stmts(t: Seq<TokenV>, c: nat, acc: Seq<StmtV>, stop: Stop, f: nat) -> Option<(Seq<StmtV>, nat)>
    decreases f,
{
    if f == 0 {
        None
    } else if stops(stop, peek_at(t, c)) {
        Some((acc, c))
    } else {
        match p_statement(t, c, (f - 1) as nat) {
            Some((Some(s), c1)) => p_stmts(t, c1, acc.push(s), stop, (f - 1) as nat),
            Some((None, c1)) => Some((acc, c1)),
            None => None,
        }
    }
}

/// An optional `: Type` annotation: the type, and the position after it.
pub open spec fn p_annotation(t: Seq<TokenV>, c: nat) -> Option<(Option<Seq<char>>, nat)> {
    let m = match_spec(t, c, TokenV::Colon);
    if m.0 {
        match advance_spec(t, m.1) {
            Some((TokenV::Identifier(ty), c2)) => Some((Some(ty), c2)),
            Some((_, c2)) => Some((None, c2)),
            None => None,
        }
    } else {
        Some((None, c))
    }
}

pub open spec fn p_let(t: Seq<TokenV>, c: nat, f: nat) -> Option<(Option<StmtV>, nat)>
    decreases f,
{
    if f == 0 {
        None
    } else {
        let c1 = c + 1;
        let mutable = peek_at(t, c1) == TokenV::Mut;
        let c2: nat = if mutable {
            c1 + 1
        } else {
            c1
        };
        match advance_spec(t, c2) {
            None => None,
            Some((TokenV::Identifier(name), c3)) => match p_annotation(t, c3) {
                None => None,
                Some((ty, c4)) => {
                    let m = match_spec(t, c4, TokenV::Equals);
                    if !m.0 {
                        Some((None, m.1))
                    } else {
                        match p_expression(t, m.1, (f - 1) as nat) {
                            Some((value, c6)) => Some(
                                (Some(StmtV::Let { name, declared_type: ty, value, mutable }), c6),
                            ),
                            None => None,
                        }
                    }
                },
            },
            Some((_, c3)) => Some((None, c3)),
        }
    }
}

pub open spec fn p_if(t: Seq<TokenV>, c: nat, f: nat) -> Option<(Option<StmtV>, nat)>
    decreases f,
{
    if f == 0 {
        None
    } else {
        match p_expression(t, c + 1, (f - 1) as nat) {
            None => None,
            Some((cond, c2)) => {
                let m = match_spec(t, c2, TokenV::Colon);
                if !m.0 {
                    Some((None, m.1))
                } else {
                    match p_stmts(t, m.1, Seq::empty(), Stop::Then, (f - 1) as nat) {
                        None => None,
                        Some((ts, c4)) => p_if_then(t, c4, cond, ts, (f - 1) as nat),
                    }
                }
            },
        }
    }
}

/// The optional `then` (else-if) part of an `if`.
pub open spec fn p_if_then(t: Seq<TokenV>, c: nat, cond: ExprV, ts: Seq<StmtV>, f: nat) -> Option<(Option<StmtV>, nat)>
    decreases f,
{
    if f == 0 {
        None
    } else {
        let m = match_spec(t, c, TokenV::Then);
        if !m.0 {
            p_if_else(t, c, cond, ts, None, (f - 1) as nat)
        } else {
            match p_expression(t, m.1, (f - 1) as nat) {
                None => None,
                Some((ec, c6)) => {
                    let mc = match_spec(t, c6, TokenV::Colon);
                    if !mc.0 {
                        Some((None, mc.1))
                    } else {
                        match p_stmts(t, mc.1, Seq::empty(), Stop::ElseIf, (f - 1) as nat) {
                            None => None,
                            Some((es, c8)) => p_if_else(t, c8, cond, ts, Some((ec, es)), (f - 1) as nat),
                        }
                    }
                },
            }
        }
    }
}

/// The optional `else` part of an `if`, given the else-if part if any.
pub open spec fn p_if_else(
    t: Seq<TokenV>,
    c: nat,
    cond: ExprV,
    ts: Seq<StmtV>,
    elif: Option<(ExprV, Seq<StmtV>)>,
    f: nat,
) -> Option<(Option<StmtV>, nat)>
    decreases f,
{
    if f == 0 {
        None
    } else {
        let then_branch = Box::new(StmtV::Block(ts));
        let me = match_spec(t, c, TokenV::Else);
        if !me.0 {
            let else_branch = match elif {
                Some((ec, es)) => Some(
                    Box::new(StmtV::IfStmt { condition: ec, then_branch: Box::new(StmtV::Block(es)), else_branch: None }),
                ),
                None => None,
            };
            Some((Some(StmtV::IfStmt { condition: cond, then_branch, else_branch }), c))
        } else {
            let mc = match_spec(t, me.1, TokenV::Colon);
            if !mc.0 {
                Some((None, mc.1))
            } else {
                match p_stmts(t, mc.1, Seq::empty(), Stop::Else, (f - 1) as nat) {
                    None => None,
                    Some((ss, c11)) => {
                        let last = Box::new(StmtV::Block(ss));
                        let else_branch = match elif {
                            Some((ec, es)) => Some(
                                Box::new(
                                    StmtV::IfStmt {
                                        condition: ec,
                                        then_branch: Box::new(StmtV::Block(es)),
                                        else_branch: Some(last),
                                    },
                                ),
                            ),
                            None => Some(last),
                        };
                        Some((Some(StmtV::IfStmt { condition: cond, then_branch, else_branch }), c11))
                    },
                }
            }
        }
    }
}

/// The body after `=>` of a `branch` or `fallback`: an expression, or an
/// empty block.
pub open spec fn p_arm_body(t: Seq<TokenV>, c: nat, f: nat) -> Option<(StmtV, nat)>
    decreases f,
{
    if f == 0 {
        None
    } else if is_expr_start(peek_at(t, c)) {
        match p_expression(t, c, (f - 1) as nat) {
            Some((e, c1)) => Some((StmtV::ExprStmt(e), c1)),
            None => None,
        }
    } else {
        Some((StmtV::Block(Seq::empty()), c))
    }
}

pub open spec fn p_branch(t: Seq<TokenV>, c: nat, f: nat) -> Option<(Option<StmtV>, nat)>
    decreases f,
{
    if f == 0 {
        None
    } else {
        match p_expression(t, c + 1, (f - 1) as nat) {
            None => None,
            Some((cond, c2)) => {
                let m = match_spec(t, c2, TokenV::FatArrow);
                if !m.0 {
                    Some((None, m.1))
                } else {
                    match p_arm_body(t, m.1, (f - 1) as nat) {
                        Some((body, c4)) => Some((Some(StmtV::Branch { condition: cond, body: Box::new(body) }), c4)),
                        None => None,
                    }
                }
            },
        }
    }
}

pub open spec fn p_fallback(t: Seq<TokenV>, c: nat, f: nat) -> Option<(Option<StmtV>, nat)>
    decreases f,
{
    if f == 0 {
        None
    } else {
        let m = match_spec(t, c + 1, TokenV::FatArrow);
        if !m.0 {
            Some((None, m.1))
        } else {
            match p_arm_body(t, m.1, (f - 1) as nat) {
                Some((body, c4)) => Some((Some(StmtV::Fallback(Box::new(body))), c4)),
                None => None,
            }
        }
    }
}

/// A `for` loop, or a `parallel` one.
pub open spec fn p_loop(t: Seq<TokenV>, c: nat, parallel: bool, f: nat) -> Option<(Option<StmtV>, nat)>
    decreases f,
{
    if f == 0 {
        None
    } else {
        match advance_spec(t, c + 1) {
            None => None,
            Some((TokenV::Identifier(var), c2)) => {
                let m = match_spec(t, c2, TokenV::In);
                if !m.0 {
                    Some((None, m.1))
                } else {
                    match p_expression(t, m.1, (f - 1) as nat) {
                        None => None,
                        Some((range, c4)) => {
                            let m2 = match_spec(t, c4, TokenV::Colon);
                            if !m2.0 {
                                Some((None, m2.1))
                            } else {
                                match p_stmts(t, m2.1, Seq::empty(), Stop::Body, (f - 1) as nat) {
                                    None => None,
                                    Some((bs, c6)) => {
                                        let body = Box::new(StmtV::Block(bs));
                                        Some((Some(if parallel {
                                            StmtV::Parallel { var, range, body }
                                        } else {
                                            StmtV::For { var, range, body }
                                        }), c6))
                                    },
                                }
                            }
                        },
                    }
                }
            },
            Some((_, c2)) => Some((None, c2)),
        }
    }
}

/// The parameters of a function, after the `(`: names with optional types,
/// separated by commas.
pub open spec fn p_params(
    t: Seq<TokenV>,
    c: nat,
    acc: Seq<(Seq<char>, Option<Seq<char>>)>,
    f: nat,
) -> Option<(Seq<(Seq<char>, Option<Seq<char>>)>, nat)>
    decreases f,
{
    if f == 0 {
        None
    } else {
        match advance_spec(t, c) {
            None => None,
            Some((TokenV::Identifier(pn), c1)) => match p_annotation(t, c1) {
                None => None,
                Some((ty, c3)) => {
                    let acc2 = acc.push((pn, ty));
                    let m = match_spec(t, c3, TokenV::Comma);
                    if !m.0 {
                        Some((acc2, c3))
                    } else {
                        p_params(t, m.1, acc2, (f - 1) as nat)
                    }
                },
            },
            Some((_, c1)) => Some((acc, c1)),
        }
    }
}

/// An optional `-> Type` return type.
pub open spec fn p_return_type(t: Seq<TokenV>, c: nat) -> Option<(Option<Seq<char>>, nat)> {
    let m = match_spec(t, c, TokenV::Arrow);
    if m.0 {
        match advance_spec(t, m.1) {
            Some((TokenV::Identifier(rt), c2)) => Some((Some(rt), c2)),
            Some((_, c2)) => Some((None, c2)),
            None => None,
        }
    } else {
        Some((None, c))
    }
}

pub open spec fn p_function(t: Seq<TokenV>, c: nat, gpu: bool, f: nat) -> Option<(Option<StmtV>, nat)>
    decreases f,
{
    if f == 0 {
        None
    } else {
        match advance_spec(t, c + 1) {
            None => None,
            Some((TokenV::Identifier(name), c2)) => {
                let m = match_spec(t, c2, TokenV::Lparen);
                if !m.0 {
                    Some((None, m.1))
                } else {
                    let ps = if peek_at(t, m.1) != TokenV::Rparen {
                        p_params(t, m.1, Seq::empty(), (f - 1) as nat)
                    } else {
                        Some((Seq::empty(), m.1))
                    };
                    match ps {
                        None => None,
                        Some((params, c4)) => {
                            let m2 = match_spec(t, c4, TokenV::Rparen);
                            if !m2.0 {
                                Some((None, m2.1))
                            } else {
                                match p_return_type(t, m2.1) {
                                    None => None,
                                    Some((return_type, c8)) => {
                                        let m4 = match_spec(t, c8, TokenV::Colon);
                                        if !m4.0 {
                                            Some((None, m4.1))
                                        } else {
                                            match p_stmts(t, m4.1, Seq::empty(), Stop::Body, (f - 1) as nat) {
                                                None => None,
                                                Some((bs, c10)) => Some(
                                                    (
                                                        Some(
                                                            StmtV::FunctionDef {
                                                                name,
                                                                params,
                                                                return_type,
                                                                body: Box::new(StmtV::Block(bs)),
                                                                gpu,
                                                            },
                                                        ),
                                                        c10,
                                                    ),
                                                ),
                                            }
                                        }
                                    },
                                }
                            }
                        },
                    }
                }
            },
            Some((_, c2)) => Some((None, c2)),
        }
    }
}

/// A whole program: statements until the end; a token where no statement
/// parses is skipped.
pub open spec fn p_program(t: Seq<TokenV>, c: nat, acc: Seq<StmtV>, f: nat) -> Option<Seq<StmtV>>
    decreases f,
{
    if f == 0 {
        None
    } else if at_end(t, c) {
        Some(acc)
    } else {
        match p_statement(t, c, (f - 1) as nat) {
            Some((Some(s), c1)) => p_program(t, c1, acc.push(s), (f - 1) as nat),
            Some((None, c1)) => match advance_spec(t, c1) {
                Some((_, c2)) => p_program(t, c2, acc, (f - 1) as nat),
                None => None,
            },
            None => None,
        }
    }
}

/// The parser returns when it starts on these tokens at this position:
/// some fuel suffices.
pub open spec fn parses(t: Seq<TokenV>, c: nat) -> bool {
    exists|f: nat| #[trigger] p_program(t, c, Seq::empty(), f) is Some
}

/// The program that the parser builds from these tokens, starting at this
/// position.
pub open spec fn parsed(t: Seq<TokenV>, c: nat) -> Seq<StmtV> {
    p_program(t, c, Seq::empty(), choose|f: nat| #[trigger] p_program(t, c, Seq::empty(), f) is Some)->0
}

} // verus!
