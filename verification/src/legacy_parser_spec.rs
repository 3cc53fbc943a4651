//! What the first VORTEX parser computes, as functions over token views.
//!
//! This parser climbs operator precedence, recovers from errors by
//! skipping tokens, and marks what it cannot parse with the name `error`.
//! Each function takes the tokens, a position and a fuel bound, and gives
//! the result with the position after it; `None` means the fuel ran out.
use crate::ast::{ExprV, StmtV};
use crate::parser_spec::{at_end, is_range_or_dot, peek_at};
use crate::token::TokenV;
use vstd::prelude::*;

verus! {

/// Taking the current token: it, and the position after it (the position
/// stays at the end).
pub open spec fn l_advance(t: Seq<TokenV>, c: nat) -> (TokenV, nat) {
    (peek_at(t, c), if at_end(t, c) {
        c
    } else {
        c + 1
    })
}

/// Taking the current token if it equals `k`.
pub open spec fn l_expect(t: Seq<TokenV>, c: nat, k: TokenV) -> (bool, nat) {
    if peek_at(t, c) == k {
        (true, l_advance(t, c).1)
    } else {
        (false, c)
    }
}

/// The token after the current one exists and is `(`.
pub open spec fn next_is_lparen(t: Seq<TokenV>, c: nat) -> bool {
    c + 1 < t.len() && t[(c + 1) as int] == TokenV::Lparen
}

/// How tightly a binary operator binds; 0 for any other token.
pub open spec fn precedence(k: TokenV) -> nat {
    match k {
        TokenV::EQ | TokenV::NE => 1,
        TokenV::LT | TokenV::LE | TokenV::GT | TokenV::GE => 2,
        TokenV::Plus | TokenV::Minus => 3,
        TokenV::Star | TokenV::Slash => 4,
        TokenV::Range => 5,
        TokenV::Dot => 6,
        _ => 0,
    }
}

pub open spec fn error_expr() -> ExprV {
    ExprV::Ident("error"@)
}

/// Keywords that cannot start an expression, nor follow an operator.
pub open spec fn not_an_operand(k: TokenV) -> bool {
    k == TokenV::Let || k == TokenV::Mut || k == TokenV::Then || k == TokenV::Else || k == TokenV::Branch
        || k == TokenV::Fallback || k == TokenV::For || k == TokenV::Parallel || k == TokenV::Fn
        || k == TokenV::Colon
}

/// Tokens that a primary expression refuses (and skips).
pub open spec fn not_a_primary(k: TokenV) -> bool {
    not_an_operand(k) || k == TokenV::Return
}

/// Tokens skipped where a statement should start.
pub open spec fn stray(k: TokenV) -> bool {
    k == TokenV::Colon || k == TokenV::Comma || k == TokenV::Rparen || k == TokenV::Dot
}

/// Tokens that end a block.
pub open spec fn ends_block(k: TokenV) -> bool {
    k == TokenV::Else || k == TokenV::Then || k == TokenV::EOF || k == TokenV::Branch || k == TokenV::Fallback
}

pub open spec fn binary(l: ExprV, op: TokenV, r: ExprV) -> ExprV {
    ExprV::Binary { left: Box::new(l), op, right: Box::new(r) }
}

pub open spec fn range_of(s: ExprV, e: ExprV) -> ExprV {
    ExprV::Range { start: Box::new(s), end: Box::new(e) }
}

pub open spec fn lp_expr(t: Seq<TokenV>, c: nat, f: nat) -> Option<(ExprV, nat)>
    decreases f,
{
    if f == 0 {
        None
    } else if not_an_operand(peek_at(t, c)) {
        Some((error_expr(), l_advance(t, c).1))
    } else {
        lp_unary(t, c, (f - 1) as nat)
    }
}

pub open spec fn lp_unary(t: Seq<TokenV>, c: nat, f: nat) -> Option<(ExprV, nat)>
    decreases f,
{
    if f == 0 {
        None
    } else if peek_at(t, c) == TokenV::Minus {
        match lp_unary(t, c + 1, (f - 1) as nat) {
            Some((e, c2)) => Some((ExprV::Unary { op: TokenV::Minus, expr: Box::new(e) }, c2)),
            None => None,
        }
    } else {
        lp_prec(t, c, 0, (f - 1) as nat)
    }
}

/// An operand and the operators (of precedence at least `m`) that follow.
/// A token that is no operator (of precedence 0, such as the `:` after a
/// condition) ends the expression and is left in place.
pub open spec fn lp_prec(t: Seq<TokenV>, c: nat, m: nat, f: nat) -> Option<(ExprV, nat)>
    decreases f,
{
    if f == 0 {
        None
    } else {
        match lp_primary(t, c, (f - 1) as nat) {
            Some((left, c1)) => if left == error_expr() {
                Some((left, c1))
            } else {
                lp_prec_loop(t, c1, m, left, (f - 1) as nat)
            },
            None => None,
        }
    }
}

pub open spec fn lp_prec_loop(t: Seq<TokenV>, c: nat, m: nat, left: ExprV, f: nat) -> Option<(ExprV, nat)>
    decreases f,
{
    if f == 0 {
        None
    } else if 0 < precedence(peek_at(t, c)) && precedence(peek_at(t, c)) >= m {
        let (op, c1) = l_advance(t, c);
        let k = peek_at(t, c1);
        if k == TokenV::EOF || not_an_operand(k) {
            Some((left, c1))
        } else {
            match lp_primary(t, c1, (f - 1) as nat) {
                Some((right, c2)) => if right == error_expr() {
                    Some((left, c2))
                } else if precedence(peek_at(t, c2)) > precedence(op) {
                    match lp_prec(t, c2, precedence(op) + 1, (f - 1) as nat) {
                        Some((r2, c3)) => lp_prec_loop(t, c3, m, binary(left, op, r2), (f - 1) as nat),
                        None => None,
                    }
                } else {
                    lp_prec_loop(t, c2, m, binary(left, op, right), (f - 1) as nat)
                },
                None => None,
            }
        }
    } else {
        Some((left, c))
    }
}

/// The arguments of a call after its `(`.
pub open spec fn lp_call_args(t: Seq<TokenV>, c: nat, f: nat) -> Option<(Seq<ExprV>, nat)>
    decreases f,
{
    if f == 0 {
        None
    } else if peek_at(t, c) != TokenV::Rparen {
        match lp_expr(t, c, (f - 1) as nat) {
            Some((a, c1)) => lp_args_more(t, c1, seq![a], (f - 1) as nat),
            None => None,
        }
    } else {
        Some((Seq::empty(), c))
    }
}

pub open spec fn lp_args_more(t: Seq<TokenV>, c: nat, args: Seq<ExprV>, f: nat) -> Option<(Seq<ExprV>, nat)>
    decreases f,
{
    if f == 0 {
        None
    } else {
        let (more, c1) = l_expect(t, c, TokenV::Comma);
        if more {
            match lp_expr(t, c1, (f - 1) as nat) {
                Some((a, c2)) => lp_args_more(t, c2, args.push(a), (f - 1) as nat),
                None => None,
            }
        } else {
            Some((args, c))
        }
    }
}

/// A call of the name `id`, at its `(`: the closing `)` is taken if present.
pub open spec fn lp_call(t: Seq<TokenV>, c: nat, id: Seq<char>, f: nat) -> Option<(ExprV, nat)>
    decreases f,
{
    if f == 0 {
        None
    } else {
        match lp_call_args(t, c + 1, (f - 1) as nat) {
            Some((args, c2)) => Some((
                ExprV::FunctionCall { callee: Box::new(ExprV::Ident(id)), arguments: args },
                l_expect(t, c2, TokenV::Rparen).1,
            )),
            None => None,
        }
    }
}

/// `range(start, end)` after the `range` keyword.
pub open spec fn lp_range_fn(t: Seq<TokenV>, c: nat, f: nat) -> Option<(ExprV, nat)>
    decreases f,
{
    if f == 0 {
        None
    } else if peek_at(t, c) == TokenV::Lparen {
        match lp_expr(t, c + 1, (f - 1) as nat) {
            Some((s, c2)) => if peek_at(t, c2) == TokenV::Comma {
                match lp_expr(t, c2 + 1, (f - 1) as nat) {
                    Some((e, c3)) => {
                        let (closed, c4) = l_expect(t, c3, TokenV::Rparen);
                        Some((if closed {
                            range_of(s, e)
                        } else {
                            error_expr()
                        }, c4))
                    },
                    None => None,
                }
            } else {
                Some((error_expr(), c2))
            },
            None => None,
        }
    } else {
        Some((error_expr(), c))
    }
}

/// `range(start, end)` after a name `range`.
pub open spec fn lp_range_name(t: Seq<TokenV>, c: nat, f: nat) -> Option<(ExprV, nat)>
    decreases f,
{
    if f == 0 {
        None
    } else {
        match lp_expr(t, c + 1, (f - 1) as nat) {
            Some((s, c2)) => {
                let (comma, c3) = l_expect(t, c2, TokenV::Comma);
                if !comma {
                    Some((error_expr(), c3))
                } else {
                    match lp_expr(t, c3, (f - 1) as nat) {
                        Some((e, c4)) => {
                            let (closed, c5) = l_expect(t, c4, TokenV::Rparen);
                            Some((if closed {
                                range_of(s, e)
                            } else {
                                error_expr()
                            }, c5))
                        },
                        None => None,
                    }
                }
            },
            None => None,
        }
    }
}

/// What follows a literal or a name that `..` or `. .` may make the start
/// of a range.
pub open spec fn lp_range_after(t: Seq<TokenV>, c: nat, start: ExprV, f: nat) -> Option<(ExprV, nat)>
    decreases f,
{
    if f == 0 {
        None
    } else {
        let k = peek_at(t, c);
        if k == TokenV::Range || (k == TokenV::Dot && peek_at(t, c + 1) == TokenV::Dot) {
            let c1 = if k == TokenV::Range {
                c + 1
            } else {
                c + 2
            };
            match lp_expr(t, c1, (f - 1) as nat) {
                Some((e, c2)) => Some((range_of(start, e), c2)),
                None => None,
            }
        } else if k == TokenV::Dot {
            Some((start, c + 1))
        } else {
            Some((start, c))
        }
    }
}

pub open spec fn lp_primary(t: Seq<TokenV>, c: nat, f: nat) -> Option<(ExprV, nat)>
    decreases f,
{
    if f == 0 {
        None
    } else if at_end(t, c) {
        Some((error_expr(), c))
    } else if not_a_primary(peek_at(t, c)) {
        Some((error_expr(), c + 1))
    } else {
        let g = (f - 1) as nat;
        let c1 = c + 1;
        let next = peek_at(t, c1);
        match peek_at(t, c) {
            TokenV::Number(n) => if is_range_or_dot(next) {
                lp_range_after(t, c1, ExprV::Number(n), g)
            } else {
                Some((ExprV::Number(n), c1))
            },
            TokenV::Floating(s) => if is_range_or_dot(next) {
                lp_range_after(t, c1, ExprV::Floating(s), g)
            } else {
                Some((ExprV::Floating(s), c1))
            },
            TokenV::Boolean(b) => Some((ExprV::Boolean(b), c1)),
            TokenV::String(s) => Some((ExprV::String(s), c1)),
            TokenV::Range => lp_range_fn(t, c1, g),
            TokenV::Identifier(id) => if id == "print"@ {
                if next == TokenV::Lparen {
                    lp_call(t, c1, id, g)
                } else {
                    Some((ExprV::Ident(id), c1))
                }
            } else if id == "range"@ {
                if next == TokenV::Lparen {
                    lp_range_name(t, c1, g)
                } else {
                    Some((ExprV::Ident(id), c1))
                }
            } else if next == TokenV::Lparen {
                lp_call(t, c1, id, g)
            } else if is_range_or_dot(next) {
                lp_range_after(t, c1, ExprV::Ident(id), g)
            } else {
                Some((ExprV::Ident(id), c1))
            },
            TokenV::Lparen => match lp_expr(t, c1, g) {
                Some((e, c2)) => Some((ExprV::Grouping(Box::new(e)), l_expect(t, c2, TokenV::Rparen).1)),
                None => None,
            },
            TokenV::Return => match lp_expr(t, c1, g) {
                Some((e, c2)) => Some((ExprV::Return(Box::new(e)), c2)),
                None => None,
            },
            _ => Some((error_expr(), c1)),
        }
    }
}

pub open spec fn lp_stmt(t: Seq<TokenV>, c: nat, f: nat) -> Option<(Option<StmtV>, nat)>
    decreases f,
{
    if f == 0 {
        None
    } else {
        let g = (f - 1) as nat;
        let k = peek_at(t, c);
        if stray(k) {
            lp_stmt(t, c + 1, g)
        } else if k == TokenV::Let {
            match lp_let(t, c, g) {
                Some((s, c1)) => Some((Some(s), c1)),
                None => None,
            }
        } else if k == TokenV::If {
            lp_if(t, c, g)
        } else if k == TokenV::Branch {
            lp_branch(t, c, g)
        } else if k == TokenV::Fallback {
            lp_fallback(t, c, g)
        } else if k == TokenV::For {
            lp_loop(t, c, false, g)
        } else if k == TokenV::Parallel {
            lp_loop(t, c, true, g)
        } else if k == TokenV::GPU {
            let (has_fn, c2) = l_expect(t, c + 1, TokenV::Fn);
            if has_fn {
                lp_function(t, c2, true, g)
            } else {
                Some((None, c2))
            }
        } else if k == TokenV::Fn {
            lp_function(t, c, false, g)
        } else if k == TokenV::Return {
            match lp_expr(t, c + 1, g) {
                Some((e, c2)) => Some((Some(StmtV::Return(e)), c2)),
                None => None,
            }
        } else if k == TokenV::EOF {
            Some((None, c))
        } else {
            match lp_expr(t, c, g) {
                Some((e, c1)) => Some((Some(StmtV::ExprStmt(e)), c1)),
                None => None,
            }
        }
    }
}

/// A `let` statement: a missing name or type reads as `error`, and a
/// missing `=` is passed over.
pub open spec fn lp_let(t: Seq<TokenV>, c: nat, f: nat) -> Option<(StmtV, nat)>
    decreases f,
{
    if f == 0 {
        None
    } else {
        let (mutable, c2) = l_expect(t, c + 1, TokenV::Mut);
        let (name, c3) = match peek_at(t, c2) {
            TokenV::Identifier(n) => (n, c2 + 1),
            _ => ("error"@, c2),
        };
        let (has_type, c4) = l_expect(t, c3, TokenV::Colon);
        let (declared_type, c5): (Option<Seq<char>>, nat) = if has_type {
            match peek_at(t, c4) {
                TokenV::Identifier(ty) => (Some(ty), c4 + 1),
                _ => (Some("error"@), c4),
            }
        } else {
            (None, c4)
        };
        let c6 = l_expect(t, c5, TokenV::Equals).1;
        match lp_expr(t, c6, (f - 1) as nat) {
            Some((value, c7)) => Some((StmtV::Let { name, declared_type, value, mutable }, c7)),
            None => None,
        }
    }
}

/// Statements until one that ends a block is next; a token where no
/// statement parses is skipped, and the end of the tokens ends the block.
pub open spec fn lp_block(t: Seq<TokenV>, c: nat, acc: Seq<StmtV>, f: nat) -> Option<(Seq<StmtV>, nat)>
    decreases f,
{
    if f == 0 {
        None
    } else if ends_block(peek_at(t, c)) {
        Some((acc, c))
    } else {
        match lp_stmt(t, c, (f - 1) as nat) {
            None => None,
            Some((r, c1)) => {
                let (acc2, c2) = match r {
                    Some(s) => (acc.push(s), c1),
                    None => (acc, l_advance(t, c1).1),
                };
                if at_end(t, c2) {
                    Some((acc2, c2))
                } else {
                    lp_block(t, c2, acc2, (f - 1) as nat)
                }
            },
        }
    }
}

pub open spec fn lp_if(t: Seq<TokenV>, c: nat, f: nat) -> Option<(Option<StmtV>, nat)>
    decreases f,
{
    if f == 0 {
        None
    } else {
        match lp_expr(t, c + 1, (f - 1) as nat) {
            None => None,
            Some((cond, c2)) => {
                let (colon, c3) = l_expect(t, c2, TokenV::Colon);
                if !colon {
                    Some((None, c3))
                } else {
                    match lp_block(t, c3, Seq::empty(), (f - 1) as nat) {
                        None => None,
                        Some((ts, c4)) => lp_if_then(t, c4, cond, ts, (f - 1) as nat),
                    }
                }
            },
        }
    }
}

/// The optional `then` (else-if) part of an `if`.
pub open spec fn lp_if_then(t: Seq<TokenV>, c: nat, cond: ExprV, ts: Seq<StmtV>, f: nat) -> Option<(Option<StmtV>, nat)>
    decreases f,
{
    if f == 0 {
        None
    } else {
        let (has_then, c1) = l_expect(t, c, TokenV::Then);
        if !has_then {
            lp_if_else(t, c, cond, ts, None, (f - 1) as nat)
        } else {
            match lp_expr(t, c1, (f - 1) as nat) {
                None => None,
                Some((ec, c2)) => {
                    let (colon, c3) = l_expect(t, c2, TokenV::Colon);
                    if !colon {
                        Some((None, c3))
                    } else {
                        match lp_block(t, c3, Seq::empty(), (f - 1) as nat) {
                            None => None,
                            Some((es, c4)) => lp_if_else(t, c4, cond, ts, Some((ec, es)), (f - 1) as nat),
                        }
                    }
                },
            }
        }
    }
}

/// The optional `else` part of an `if`, given its else-if part.
pub open spec fn lp_if_else(
    t: Seq<TokenV>,
    c: nat,
    cond: ExprV,
    ts: Seq<StmtV>,
    elif: Option<(ExprV, Seq<StmtV>)>,
    f: nat,
) -> Option<(Option<StmtV>, nat)>
    decreases f,
{
    if f == 0 {
        None
    } else {
        let then_branch = Box::new(StmtV::Block(ts));
        let (has_else, c1) = l_expect(t, c, TokenV::Else);
        if !has_else {
            let else_branch = match elif {
                Some((ec, es)) => Some(
                    Box::new(StmtV::IfStmt { condition: ec, then_branch: Box::new(StmtV::Block(es)), else_branch: None }),
                ),
                None => None,
            };
            Some((Some(StmtV::IfStmt { condition: cond, then_branch, else_branch }), c))
        } else {
            let (colon, c2) = l_expect(t, c1, TokenV::Colon);
            if !colon {
                Some((None, c2))
            } else {
                match lp_block(t, c2, Seq::empty(), (f - 1) as nat) {
                    None => None,
                    Some((ss, c3)) => {
                        let last = Box::new(StmtV::Block(ss));
                        let else_branch = match elif {
                            Some((ec, es)) => Some(
                                Box::new(
                                    StmtV::IfStmt {
                                        condition: ec,
                                        then_branch: Box::new(StmtV::Block(es)),
                                        else_branch: Some(last),
                                    },
                                ),
                            ),
                            None => Some(last),
                        };
                        Some((Some(StmtV::IfStmt { condition: cond, then_branch, else_branch }), c3))
                    },
                }
            }
        }
    }
}

/// The body after the `=>` of a `branch` or `fallback`: a call, or else a
/// statement.
pub open spec fn lp_arm(t: Seq<TokenV>, c: nat, f: nat) -> Option<(Option<StmtV>, nat)>
    decreases f,
{
    if f == 0 {
        None
    } else if peek_at(t, c) is Identifier && next_is_lparen(t, c) {
        match lp_expr(t, c, (f - 1) as nat) {
            Some((e, c1)) => Some((Some(StmtV::ExprStmt(e)), c1)),
            None => None,
        }
    } else {
        lp_stmt(t, c, (f - 1) as nat)
    }
}

pub open spec fn lp_branch(t: Seq<TokenV>, c: nat, f: nat) -> Option<(Option<StmtV>, nat)>
    decreases f,
{
    if f == 0 {
        None
    } else {
        match lp_expr(t, c + 1, (f - 1) as nat) {
            None => None,
            Some((cond, c2)) => {
                let (arrow, c3) = l_expect(t, c2, TokenV::FatArrow);
                if !arrow {
                    Some((None, c3))
                } else {
                    match lp_arm(t, c3, (f - 1) as nat) {
                        None => None,
                        Some((Some(b), c4)) => Some((Some(StmtV::Branch { condition: cond, body: Box::new(b) }), c4)),
                        Some((None, c4)) => Some((None, c4)),
                    }
                }
            },
        }
    }
}

pub open spec fn lp_fallback(t: Seq<TokenV>, c: nat, f: nat) -> Option<(Option<StmtV>, nat)>
    decreases f,
{
    if f == 0 {
        None
    } else {
        let (arrow, c2) = l_expect(t, c + 1, TokenV::FatArrow);
        if !arrow {
            Some((None, c2))
        } else {
            match lp_arm(t, c2, (f - 1) as nat) {
                None => None,
                Some((Some(b), c3)) => Some((Some(StmtV::Fallback(Box::new(b))), c3)),
                Some((None, c3)) => Some((None, c3)),
            }
        }
    }
}

/// The body of a loop after its range: `:` and a block.
pub open spec fn lp_loop_body(
    t: Seq<TokenV>,
    c: nat,
    var: Seq<char>,
    range: ExprV,
    parallel: bool,
    f: nat,
) -> Option<(Option<StmtV>, nat)>
    decreases f,
{
    if f == 0 {
        None
    } else {
        let (colon, c1) = l_expect(t, c, TokenV::Colon);
        if !colon {
            Some((None, c1))
        } else {
            match lp_block(t, c1, Seq::empty(), (f - 1) as nat) {
                None => None,
                Some((bs, c2)) => {
                    let body = Box::new(StmtV::Block(bs));
                    Some((Some(if parallel {
                        StmtV::Parallel { var, range, body }
                    } else {
                        StmtV::For { var, range, body }
                    }), c2))
                },
            }
        }
    }
}

/// A `for` or `parallel` loop: the range is `range(a, b)`, a number (the
/// range from 0 to it) or a number starting a range, or any expression.
pub open spec fn lp_loop(t: Seq<TokenV>, c: nat, parallel: bool, f: nat) -> Option<(Option<StmtV>, nat)>
    decreases f,
{
    if f == 0 {
        None
    } else {
        let g = (f - 1) as nat;
        let (tok, c2) = l_advance(t, c + 1);
        match tok {
            TokenV::Identifier(var) => {
                let (has_in, c3) = l_expect(t, c2, TokenV::In);
                if !has_in {
                    Some((None, c3))
                } else {
                    let k = peek_at(t, c3);
                    if k == TokenV::Range {
                        let (lparen, c4) = l_expect(t, c3 + 1, TokenV::Lparen);
                        if !lparen {
                            Some((None, c4))
                        } else {
                            match lp_expr(t, c4, g) {
                                None => None,
                                Some((s, c5)) => {
                                    let (comma, c6) = l_expect(t, c5, TokenV::Comma);
                                    if !comma {
                                        Some((None, c6))
                                    } else {
                                        match lp_expr(t, c6, g) {
                                            None => None,
                                            Some((e, c7)) => {
                                                let (rparen, c8) = l_expect(t, c7, TokenV::Rparen);
                                                if !rparen {
                                                    Some((None, c8))
                                                } else {
                                                    lp_loop_body(t, c8, var, range_of(s, e), parallel, g)
                                                }
                                            },
                                        }
                                    }
                                },
                            }
                        }
                    } else if k is Number || k is Floating {
                        let start = match k {
                            TokenV::Number(n) => ExprV::Number(n),
                            TokenV::Floating(s) => ExprV::Floating(s),
                            _ => error_expr(),
                        };
                        let c4 = c3 + 1;
                        let k2 = peek_at(t, c4);
                        if k2 == TokenV::Range || k2 == TokenV::Dot {
                            match lp_range_after(t, c4, start, g) {
                                None => None,
                                Some((range, c5)) => lp_loop_body(t, c5, var, range, parallel, g),
                            }
                        } else {
                            lp_loop_body(t, c4, var, range_of(ExprV::Number(0), start), parallel, g)
                        }
                    } else {
                        match lp_expr(t, c3, g) {
                            None => None,
                            Some((range, c4)) => lp_loop_body(t, c4, var, range, parallel, g),
                        }
                    }
                }
            },
            _ => Some((None, c2)),
        }
    }
}

/// The parameters of a function after its `(`, up to its `)`: `None` for
/// the list where a name or type is missing or a comma is.
pub open spec fn lp_params(
    t: Seq<TokenV>,
    c: nat,
    acc: Seq<(Seq<char>, Option<Seq<char>>)>,
    f: nat,
) -> Option<(Option<Seq<(Seq<char>, Option<Seq<char>>)>>, nat)>
    decreases f,
{
    if f == 0 {
        None
    } else if peek_at(t, c) == TokenV::Rparen || at_end(t, c) {
        Some((Some(acc), c))
    } else {
        match peek_at(t, c) {
            TokenV::Identifier(pn) => {
                let c1 = c + 1;
                let (has_type, c2) = l_expect(t, c1, TokenV::Colon);
                let ty: Option<Option<Seq<char>>> = if has_type {
                    match peek_at(t, c2) {
                        TokenV::Identifier(ty) => Some(Some(ty)),
                        _ => None,
                    }
                } else {
                    Some(None)
                };
                let c3 = if has_type {
                    l_advance(t, c2).1
                } else {
                    c2
                };
                match ty {
                    None => Some((None, c3)),
                    Some(ty) => {
                        let acc2 = acc.push((pn, ty));
                        if peek_at(t, c3) != TokenV::Rparen {
                            let (comma, c4) = l_expect(t, c3, TokenV::Comma);
                            if !comma {
                                Some((None, c4))
                            } else {
                                lp_params(t, c4, acc2, (f - 1) as nat)
                            }
                        } else {
                            lp_params(t, c3, acc2, (f - 1) as nat)
                        }
                    },
                }
            },
            _ => Some((None, c + 1)),
        }
    }
}

/// A function definition, from the token taken as its `fn`.
pub open spec fn lp_function(t: Seq<TokenV>, c: nat, gpu: bool, f: nat) -> Option<(Option<StmtV>, nat)>
    decreases f,
{
    if f == 0 {
        None
    } else {
        let g = (f - 1) as nat;
        let c1 = l_advance(t, c).1;
        let (tok, c2) = l_advance(t, c1);
        match tok {
            TokenV::Identifier(name) => {
                let (lparen, c3) = l_expect(t, c2, TokenV::Lparen);
                if !lparen {
                    Some((None, c3))
                } else {
                    match lp_params(t, c3, Seq::empty(), g) {
                        None => None,
                        Some((None, c4)) => Some((None, c4)),
                        Some((Some(params), c4)) => {
                            let (rparen, c5) = l_expect(t, c4, TokenV::Rparen);
                            if !rparen {
                                Some((None, c5))
                            } else {
                                let (arrow, c6) = l_expect(t, c5, TokenV::Arrow);
                                let rt: Option<Option<Seq<char>>> = if arrow {
                                    match peek_at(t, c6) {
                                        TokenV::Identifier(r) => Some(Some(r)),
                                        _ => None,
                                    }
                                } else {
                                    Some(None)
                                };
                                let c7 = if arrow {
                                    l_advance(t, c6).1
                                } else {
                                    c6
                                };
                                match rt {
                                    None => Some((None, c7)),
                                    Some(return_type) => {
                                        let (colon, c8) = l_expect(t, c7, TokenV::Colon);
                                        if !colon {
                                            Some((None, c8))
                                        } else {
                                            match lp_block(t, c8, Seq::empty(), g) {
                                                None => None,
                                                Some((bs, c9)) => Some(
                                                    (
                                                        Some(
                                                            StmtV::FunctionDef {
                                                                name,
                                                                params,
                                                                return_type,
                                                                body: Box::new(StmtV::Block(bs)),
                                                                gpu,
                                                            },
                                                        ),
                                                        c9,
                                                    ),
                                                ),
                                            }
                                        }
                                    },
                                }
                            }
                        },
                    }
                }
            },
            _ => Some((None, c2)),
        }
    }
}

/// A whole program: statements until the end; a token where no statement
/// parses is skipped.
pub open spec fn lp_program(t: Seq<TokenV>, c: nat, acc: Seq<StmtV>, f: nat) -> Option<Seq<StmtV>>
    decreases f,
{
    if f == 0 {
        None
    } else if at_end(t, c) {
        Some(acc)
    } else {
        match lp_stmt(t, c, (f - 1) as nat) {
            Some((Some(s), c1)) => lp_program(t, c1, acc.push(s), (f - 1) as nat),
            Some((None, c1)) => lp_program(t, l_advance(t, c1).1, acc, (f - 1) as nat),
            None => None,
        }
    }
}

/// The parser returns on these tokens from this position.
pub open spec fn lp_parses(t: Seq<TokenV>, c: nat) -> bool {
    exists|f: nat| #[trigger] lp_program(t, c, Seq::empty(), f) is Some
}

/// The program that the parser builds from these tokens and position.
pub open spec fn lp_parsed(t: Seq<TokenV>, c: nat) -> Seq<StmtV> {
    lp_program(t, c, Seq::empty(), choose|f: nat| #[trigger] lp_program(t, c, Seq::empty(), f) is Some)->0
}

} // verus!
