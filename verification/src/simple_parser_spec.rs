//! What the small VORTEX parser computes, as functions over token views.
//!
//! It knows `let` and `if` statements, expression statements, assignments,
//! the usual operators and calls.  Each function takes the tokens, a
//! position and a fuel bound, and gives the result with the position after
//! it; `None` means that the fuel ran out or that a required `)` was missing
//! (the parser panics there).
use crate::ast::{ExprV, StmtV};
use crate::parser_spec::{at_end, peek_at};
use crate::token::TokenV;
use vstd::prelude::*;

verus! {

/// Whether the current token matches `k`: of the same variant for numbers,
/// strings, booleans and names, equal otherwise.
pub open spec fn s_kind(a: TokenV, k: TokenV) -> bool {
    match (a, k) {
        (TokenV::Number(_), TokenV::Number(_)) => true,
        (TokenV::String(_), TokenV::String(_)) => true,
        (TokenV::Boolean(_), TokenV::Boolean(_)) => true,
        (TokenV::Identifier(_), TokenV::Identifier(_)) => true,
        _ => a == k,
    }
}

pub open spec fn s_check(t: Seq<TokenV>, c: nat, k: TokenV) -> bool {
    !at_end(t, c) && s_kind(peek_at(t, c), k)
}

/// Moving past the current token: the token passed over (the last one at
/// the end, `EOF` before the first) and the new position.
pub open spec fn s_advance(t: Seq<TokenV>, c: nat) -> (TokenV, nat) {
    let c2: nat = if at_end(t, c) {
        c
    } else {
        c + 1
    };
    (if c2 > 0 && c2 - 1 < t.len() {
        t[c2 - 1]
    } else {
        TokenV::EOF
    }, c2)
}

/// Taking the current token if it matches `k`.
pub open spec fn s_match(t: Seq<TokenV>, c: nat, k: TokenV) -> (bool, nat) {
    if s_check(t, c, k) {
        (true, c + 1)
    } else {
        (false, c)
    }
}

pub open spec fn s_binary(l: ExprV, op: TokenV, r: ExprV) -> ExprV {
    ExprV::Binary { left: Box::new(l), op, right: Box::new(r) }
}

/// The operators of each level of binary expressions, loosest first.
pub open spec fn level_ops(level: nat, k: TokenV) -> bool {
    if level == 0 {
        k == TokenV::EQ || k == TokenV::NE
    } else if level == 1 {
        k == TokenV::GT || k == TokenV::GE || k == TokenV::LT || k == TokenV::LE
    } else if level == 2 {
        k == TokenV::Plus || k == TokenV::Minus
    } else {
        k == TokenV::Star || k == TokenV::Slash
    }
}

pub open spec fn sp_expression(t: Seq<TokenV>, c: nat, f: nat) -> Option<(ExprV, nat)>
    decreases f,
{
    if f == 0 {
        None
    } else {
        sp_assignment(t, c, (f - 1) as nat)
    }
}

/// A name followed by `=` assigns the value after it; `=` after anything
/// else is passed over.
pub open spec fn sp_assignment(t: Seq<TokenV>, c: nat, f: nat) -> Option<(ExprV, nat)>
    decreases f,
{
    if f == 0 {
        None
    } else {
        match sp_level(t, c, 0, (f - 1) as nat) {
            None => None,
            Some((e, c1)) => {
                let (eq, c2) = s_match(t, c1, TokenV::Equals);
                if eq && e is Ident {
                    match sp_assignment(t, c2, (f - 1) as nat) {
                        Some((v, c3)) => Some((ExprV::Assignment { name: e->Ident_0, value: Box::new(v) }, c3)),
                        None => None,
                    }
                } else {
                    Some((e, c2))
                }
            },
        }
    }
}

/// A binary expression at the given level (0 for equality, 1 for
/// comparison, 2 for terms, 3 for factors).
pub open spec fn sp_level(t: Seq<TokenV>, c: nat, level: nat, f: nat) -> Option<(ExprV, nat)>
    decreases f,
{
    if f == 0 {
        None
    } else {
        match sp_operand(t, c, level, (f - 1) as nat) {
            Some((e, c1)) => sp_level_rest(t, c1, level, e, (f - 1) as nat),
            None => None,
        }
    }
}

/// The operand of a level: the next level, or a unary expression below
/// factors.
pub open spec fn sp_operand(t: Seq<TokenV>, c: nat, level: nat, f: nat) -> Option<(ExprV, nat)>
    decreases f,
{
    if f == 0 {
        None
    } else if level >= 3 {
        sp_unary(t, c, (f - 1) as nat)
    } else {
        sp_level(t, c, level + 1, (f - 1) as nat)
    }
}

pub open spec fn sp_level_rest(t: Seq<TokenV>, c: nat, level: nat, e: ExprV, f: nat) -> Option<(ExprV, nat)>
    decreases f,
{
    if f == 0 {
        None
    } else if !at_end(t, c) && level_ops(level, peek_at(t, c)) {
        match sp_operand(t, c + 1, level, (f - 1) as nat) {
            Some((r, c2)) => sp_level_rest(t, c2, level, s_binary(e, peek_at(t, c), r), (f - 1) as nat),
            None => None,
        }
    } else {
        Some((e, c))
    }
}

pub open spec fn sp_unary(t: Seq<TokenV>, c: nat, f: nat) -> Option<(ExprV, nat)>
    decreases f,
{
    if f == 0 {
        None
    } else if s_check(t, c, TokenV::Minus) {
        match sp_unary(t, c + 1, (f - 1) as nat) {
            Some((r, c2)) => Some((ExprV::Unary { op: TokenV::Minus, expr: Box::new(r) }, c2)),
            None => None,
        }
    } else {
        match sp_primary(t, c, (f - 1) as nat) {
            Some((e, c1)) => sp_call_rest(t, c1, e, (f - 1) as nat),
            None => None,
        }
    }
}

pub open spec fn sp_call_rest(t: Seq<TokenV>, c: nat, e: ExprV, f: nat) -> Option<(ExprV, nat)>
    decreases f,
{
    if f == 0 {
        None
    } else if s_check(t, c, TokenV::Lparen) {
        match sp_finish_call(t, c + 1, e, (f - 1) as nat) {
            Some((call, c2)) => sp_call_rest(t, c2, call, (f - 1) as nat),
            None => None,
        }
    } else {
        Some((e, c))
    }
}

/// The arguments of a call after its `(`, and the `)`.
pub open spec fn sp_finish_call(t: Seq<TokenV>, c: nat, callee: ExprV, f: nat) -> Option<(ExprV, nat)>
    decreases f,
{
    if f == 0 {
        None
    } else {
        let args = if !s_check(t, c, TokenV::Rparen) {
            sp_args(t, c, Seq::empty(), (f - 1) as nat)
        } else {
            Some((Seq::empty(), c))
        };
        match args {
            Some((a, c2)) => if s_check(t, c2, TokenV::Rparen) {
                Some((ExprV::FunctionCall { callee: Box::new(callee), arguments: a }, c2 + 1))
            } else {
                None
            },
            None => None,
        }
    }
}

/// Arguments separated by commas.
pub open spec fn sp_args(t: Seq<TokenV>, c: nat, acc: Seq<ExprV>, f: nat) -> Option<(Seq<ExprV>, nat)>
    decreases f,
{
    if f == 0 {
        None
    } else {
        match sp_expression(t, c, (f - 1) as nat) {
            Some((a, c1)) => {
                let (comma, c2) = s_match(t, c1, TokenV::Comma);
                if comma {
                    sp_args(t, c2, acc.push(a), (f - 1) as nat)
                } else {
                    Some((acc.push(a), c1))
                }
            },
            None => None,
        }
    }
}

pub open spec fn sp_primary(t: Seq<TokenV>, c: nat, f: nat) -> Option<(ExprV, nat)>
    decreases f,
{
    if f == 0 {
        None
    } else if at_end(t, c) {
        Some((ExprV::Ident("error"@), c))
    } else {
        match peek_at(t, c) {
            TokenV::Number(n) => Some((ExprV::Number(n), c + 1)),
            TokenV::String(s) => Some((ExprV::String(s), c + 1)),
            TokenV::Boolean(b) => Some((ExprV::Boolean(b), c + 1)),
            TokenV::Identifier(id) => Some((ExprV::Ident(id), c + 1)),
            TokenV::Lparen => match sp_expression(t, c + 1, (f - 1) as nat) {
                Some((e, c2)) => if s_check(t, c2, TokenV::Rparen) {
                    Some((ExprV::Grouping(Box::new(e)), c2 + 1))
                } else {
                    None
                },
                None => None,
            },
            _ => Some((ExprV::Ident("error"@), c)),
        }
    }
}

pub open spec fn sp_declaration(t: Seq<TokenV>, c: nat, f: nat) -> Option<(Option<StmtV>, nat)>
    decreases f,
{
    if f == 0 {
        None
    } else if s_check(t, c, TokenV::Let) {
        sp_let(t, c + 1, (f - 1) as nat)
    } else if s_check(t, c, TokenV::If) {
        sp_if(t, c + 1, (f - 1) as nat)
    } else {
        match sp_expression(t, c, (f - 1) as nat) {
            Some((e, c1)) => Some((Some(StmtV::ExprStmt(e)), c1)),
            None => None,
        }
    }
}

/// A `let` declaration after the `let`: `None` for the statement where the
/// name, or the `=`, is missing.
pub open spec fn sp_let(t: Seq<TokenV>, c: nat, f: nat) -> Option<(Option<StmtV>, nat)>
    decreases f,
{
    if f == 0 {
        None
    } else {
        let (mutable, c1) = s_match(t, c, TokenV::Mut);
        let (tok, c2) = s_advance(t, c1);
        match tok {
            TokenV::Identifier(name) => {
                let (colon, c3) = s_match(t, c2, TokenV::Colon);
                let (declared_type, c4): (Option<Seq<char>>, nat) = if colon {
                    let (ty, c5) = s_advance(t, c3);
                    (match ty {
                        TokenV::Identifier(n) => Some(n),
                        _ => None,
                    }, c5)
                } else {
                    (None, c3)
                };
                let (eq, c6) = s_match(t, c4, TokenV::Equals);
                if eq {
                    match sp_expression(t, c6, (f - 1) as nat) {
                        Some((value, c7)) => Some((Some(StmtV::Let { name, declared_type, value, mutable }), c7)),
                        None => None,
                    }
                } else {
                    Some((None, c6))
                }
            },
            _ => Some((None, c2)),
        }
    }
}

/// An `if` statement after the `if`.
pub open spec fn sp_if(t: Seq<TokenV>, c: nat, f: nat) -> Option<(Option<StmtV>, nat)>
    decreases f,
{
    if f == 0 {
        None
    } else {
        match sp_expression(t, c, (f - 1) as nat) {
            None => None,
            Some((cond, c1)) => {
                let (colon, c2) = s_match(t, c1, TokenV::Colon);
                if !colon {
                    Some((None, c2))
                } else {
                    match sp_block(t, c2, Seq::empty(), (f - 1) as nat) {
                        None => None,
                        Some((ts, c3)) => {
                            let then_branch = Box::new(StmtV::Block(ts));
                            let (has_else, c4) = s_match(t, c3, TokenV::Else);
                            if !has_else {
                                Some((Some(StmtV::IfStmt { condition: cond, then_branch, else_branch: None }), c3))
                            } else {
                                let (colon2, c5) = s_match(t, c4, TokenV::Colon);
                                if !colon2 {
                                    Some((None, c5))
                                } else {
                                    match sp_block(t, c5, Seq::empty(), (f - 1) as nat) {
                                        None => None,
                                        Some((es, c6)) => Some((
                                            Some(
                                                StmtV::IfStmt {
                                                    condition: cond,
                                                    then_branch,
                                                    else_branch: Some(Box::new(StmtV::Block(es))),
                                                },
                                            ),
                                            c6,
                                        )),
                                    }
                                }
                            }
                        },
                    }
                }
            },
        }
    }
}

/// Declarations until the end or an `else`, or until one fails.
pub open spec fn sp_block(t: Seq<TokenV>, c: nat, acc: Seq<StmtV>, f: nat) -> Option<(Seq<StmtV>, nat)>
    decreases f,
{
    if f == 0 {
        None
    } else if at_end(t, c) || s_check(t, c, TokenV::Else) {
        Some((acc, c))
    } else {
        match sp_declaration(t, c, (f - 1) as nat) {
            Some((Some(s), c1)) => sp_block(t, c1, acc.push(s), (f - 1) as nat),
            Some((None, c1)) => Some((acc, c1)),
            None => None,
        }
    }
}

/// A whole program: declarations until the end; one that fails to parse
/// gives no statement.
pub open spec fn sp_program(t: Seq<TokenV>, c: nat, acc: Seq<StmtV>, f: nat) -> Option<Seq<StmtV>>
    decreases f,
{
    if f == 0 {
        None
    } else if at_end(t, c) {
        Some(acc)
    } else {
        match sp_declaration(t, c, (f - 1) as nat) {
            Some((Some(s), c1)) => sp_program(t, c1, acc.push(s), (f - 1) as nat),
            Some((None, c1)) => sp_program(t, c1, acc, (f - 1) as nat),
            None => None,
        }
    }
}

/// The parser returns on these tokens from this position.
pub open spec fn sp_parses(t: Seq<TokenV>, c: nat) -> bool {
    exists|f: nat| #[trigger] sp_program(t, c, Seq::empty(), f) is Some
}

/// The program that the parser builds from these tokens and position.
pub open spec fn sp_parsed(t: Seq<TokenV>, c: nat) -> Seq<StmtV> {
    sp_program(t, c, Seq::empty(), choose|f: nat| #[trigger] sp_program(t, c, Seq::empty(), f) is Some)->0
}


/// Each binary operator belongs to one level, loosest first: `==` and
/// `!=`, then the ordering comparisons, then `+` and `-`, then `*` and `/`;
/// within a level an operator takes the expression before it as its left
/// operand and the one after it as its right operand.
pub proof fn lemma_simple_levels(t: Seq<TokenV>, c: nat, level: nat, e: ExprV, r: ExprV, c2: nat, f: nat)
    requires
        f >= 2,
    ensures
        level_ops(0, TokenV::EQ) && level_ops(0, TokenV::NE),
        level_ops(1, TokenV::LT) && level_ops(1, TokenV::LE) && level_ops(1, TokenV::GT) && level_ops(1, TokenV::GE),
        level_ops(2, TokenV::Plus) && level_ops(2, TokenV::Minus),
        level_ops(3, TokenV::Star) && level_ops(3, TokenV::Slash),
        forall|l1: nat, l2: nat, k: TokenV| l1 <= 3 && l2 <= 3 && level_ops(l1, k) && level_ops(l2, k) ==> l1 == l2,
        !at_end(t, c) && level_ops(level, peek_at(t, c)) && sp_operand(t, c + 1, level, (f - 1) as nat) == Some((r, c2))
            && (at_end(t, c2) || !level_ops(level, peek_at(t, c2))) ==> sp_level_rest(t, c, level, e, f) == Some(
            (s_binary(e, peek_at(t, c), r), c2),
        ),
{
    let b = s_binary(e, peek_at(t, c), r);
    if !at_end(t, c) && level_ops(level, peek_at(t, c)) && sp_operand(t, c + 1, level, (f - 1) as nat) == Some((r, c2))
        && (at_end(t, c2) || !level_ops(level, peek_at(t, c2))) {
        assert(sp_level_rest(t, c2, level, b, (f - 1) as nat) == Some((b, c2)));
    }
}

} // verus!
