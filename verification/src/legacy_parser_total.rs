//! The first VORTEX parser returns on every token sequence.
//!
//! It never reads past the end (a primary expression there is `error`),
//! and every round of its expression and statement rules reads a token, so
//! a fuel that grows with the number of tokens left is enough.  Each lemma
//! below states, for one rule, a fuel from which the rule gives a result,
//! and where that result leaves the position.
use crate::ast::{ExprV, StmtV};
use crate::legacy_parser_spec::{
    binary, ends_block, error_expr, l_advance, l_expect, lp_args_more, lp_arm, lp_block, lp_branch,
    lp_call, lp_call_args, lp_expr, lp_fallback, lp_function, lp_if, lp_if_else, lp_if_then, lp_let,
    lp_loop, lp_loop_body, lp_params, lp_parses, lp_prec, lp_prec_loop, lp_primary, lp_program,
    lp_range_after, lp_range_fn, lp_range_name, lp_stmt, lp_unary, not_a_primary, not_an_operand,
    precedence, range_of, stray,
};
use crate::parser_spec::{at_end, is_range_or_dot, peek_at};
use crate::token::TokenV;
use vstd::prelude::*;

verus! {

/// The fuel that a rule with the given offset needs at position `c`.
pub open spec fn lp_budget(t: Seq<TokenV>, c: nat, o: nat) -> nat {
    (20 * (t.len() - c) + o) as nat
}

/// A rule's result exists and leaves the position at or after `c`, within
/// the tokens; with `strict`, a rule that starts before the end reads a
/// token.
pub open spec fn lp_lands<A>(r: Option<(A, nat)>, t: Seq<TokenV>, c: nat, strict: bool) -> bool {
    match r {
        Some((_, c2)) => c <= c2 <= t.len() && (strict && !at_end(t, c) ==> c < c2),
        None => false,
    }
}

proof fn lemma_not_end(t: Seq<TokenV>, c: nat)
    requires
        c <= t.len(),
    ensures
        !at_end(t, c) ==> c < t.len(),
        l_advance(t, c).1 == if at_end(t, c) {
            c
        } else {
            c + 1
        },
        l_advance(t, c).1 <= t.len(),
{
}

proof fn lemma_expect(t: Seq<TokenV>, c: nat, k: TokenV)
    requires
        c <= t.len(),
    ensures
        c <= l_expect(t, c, k).1 <= t.len(),
        l_expect(t, c, k).0 && k != TokenV::EOF ==> l_expect(t, c, k).1 == c + 1,
        !l_expect(t, c, k).0 ==> l_expect(t, c, k).1 == c,
{
    lemma_not_end(t, c);
}

proof fn lemma_lp_expr(t: Seq<TokenV>, c: nat, f: nat)
    requires
        c <= t.len(),
        f >= lp_budget(t, c, 4),
    ensures
        lp_lands(lp_expr(t, c, f), t, c, true),
    decreases f,
{
    lemma_not_end(t, c);
    if !not_an_operand(peek_at(t, c)) {
        lemma_lp_unary(t, c, (f - 1) as nat);
    }
}

proof fn lemma_lp_unary(t: Seq<TokenV>, c: nat, f: nat)
    requires
        c <= t.len(),
        f >= lp_budget(t, c, 3),
    ensures
        lp_lands(lp_unary(t, c, f), t, c, true),
    decreases f,
{
    lemma_not_end(t, c);
    if peek_at(t, c) == TokenV::Minus {
        lemma_lp_unary(t, c + 1, (f - 1) as nat);
    } else {
        lemma_lp_prec(t, c, 0, (f - 1) as nat);
    }
}

proof fn lemma_lp_prec(t: Seq<TokenV>, c: nat, m: nat, f: nat)
    requires
        c <= t.len(),
        f >= lp_budget(t, c, 2),
    ensures
        lp_lands(lp_prec(t, c, m, f), t, c, true),
    decreases f,
{
    lemma_lp_primary(t, c, (f - 1) as nat);
    let (left, c1) = lp_primary(t, c, (f - 1) as nat)->0;
    if left != error_expr() {
        lemma_lp_prec_loop(t, c1, m, left, (f - 1) as nat);
    }
}

proof fn lemma_lp_prec_loop(t: Seq<TokenV>, c: nat, m: nat, left: ExprV, f: nat)
    requires
        c <= t.len(),
        f >= lp_budget(t, c, 1),
    ensures
        lp_lands(lp_prec_loop(t, c, m, left, f), t, c, false),
    decreases f,
{
    lemma_not_end(t, c);
    if 0 < precedence(peek_at(t, c)) && precedence(peek_at(t, c)) >= m {
        let (op, c1) = l_advance(t, c);
        let k = peek_at(t, c1);
        if !(k == TokenV::EOF || not_an_operand(k)) {
            let g = (f - 1) as nat;
            lemma_not_end(t, c1);
            lemma_lp_primary(t, c1, g);
            let (right, c2) = lp_primary(t, c1, g)->0;
            if right != error_expr() {
                if precedence(peek_at(t, c2)) > precedence(op) {
                    lemma_lp_prec(t, c2, precedence(op) + 1, g);
                    let (r2, c3) = lp_prec(t, c2, precedence(op) + 1, g)->0;
                    lemma_lp_prec_loop(t, c3, m, binary(left, op, r2), g);
                } else {
                    lemma_lp_prec_loop(t, c2, m, binary(left, op, right), g);
                }
            }
        }
    }
}

proof fn lemma_lp_call_args(t: Seq<TokenV>, c: nat, f: nat)
    requires
        c <= t.len(),
        f >= lp_budget(t, c, 5),
    ensures
        lp_lands(lp_call_args(t, c, f), t, c, false),
    decreases f,
{
    if peek_at(t, c) != TokenV::Rparen {
        lemma_lp_expr(t, c, (f - 1) as nat);
        let (a, c1) = lp_expr(t, c, (f - 1) as nat)->0;
        lemma_lp_args_more(t, c1, seq![a], (f - 1) as nat);
    }
}

proof fn lemma_lp_args_more(t: Seq<TokenV>, c: nat, args: Seq<ExprV>, f: nat)
    requires
        c <= t.len(),
        f >= lp_budget(t, c, 1),
    ensures
        lp_lands(lp_args_more(t, c, args, f), t, c, false),
    decreases f,
{
    lemma_expect(t, c, TokenV::Comma);
    let (more, c1) = l_expect(t, c, TokenV::Comma);
    if more {
        lemma_lp_expr(t, c1, (f - 1) as nat);
        let (a, c2) = lp_expr(t, c1, (f - 1) as nat)->0;
        lemma_lp_args_more(t, c2, args.push(a), (f - 1) as nat);
    }
}

proof fn lemma_lp_call(t: Seq<TokenV>, c: nat, id: Seq<char>, f: nat)
    requires
        c < t.len(),
        f >= lp_budget(t, c, 1),
    ensures
        lp_lands(lp_call(t, c, id, f), t, c, true),
    decreases f,
{
    lemma_lp_call_args(t, c + 1, (f - 1) as nat);
    let (args, c2) = lp_call_args(t, c + 1, (f - 1) as nat)->0;
    lemma_expect(t, c2, TokenV::Rparen);
}

proof fn lemma_lp_range_fn(t: Seq<TokenV>, c: nat, f: nat)
    requires
        c <= t.len(),
        f >= lp_budget(t, c, 1),
    ensures
        lp_lands(lp_range_fn(t, c, f), t, c, false),
    decreases f,
{
    lemma_not_end(t, c);
    if peek_at(t, c) == TokenV::Lparen {
        let g = (f - 1) as nat;
        lemma_lp_expr(t, c + 1, g);
        let (s, c2) = lp_expr(t, c + 1, g)->0;
        if peek_at(t, c2) == TokenV::Comma {
            lemma_not_end(t, c2);
            lemma_lp_expr(t, c2 + 1, g);
            let (e, c3) = lp_expr(t, c2 + 1, g)->0;
            lemma_expect(t, c3, TokenV::Rparen);
        }
    }
}

proof fn lemma_lp_range_name(t: Seq<TokenV>, c: nat, f: nat)
    requires
        c < t.len(),
        f >= lp_budget(t, c, 1),
    ensures
        lp_lands(lp_range_name(t, c, f), t, c, true),
    decreases f,
{
    let g = (f - 1) as nat;
    lemma_lp_expr(t, c + 1, g);
    let (s, c2) = lp_expr(t, c + 1, g)->0;
    lemma_expect(t, c2, TokenV::Comma);
    let (comma, c3) = l_expect(t, c2, TokenV::Comma);
    if comma {
        lemma_lp_expr(t, c3, g);
        let (e, c4) = lp_expr(t, c3, g)->0;
        lemma_expect(t, c4, TokenV::Rparen);
    }
}

proof fn lemma_lp_range_after(t: Seq<TokenV>, c: nat, start: ExprV, f: nat)
    requires
        c <= t.len(),
        f >= lp_budget(t, c, 1),
    ensures
        lp_lands(lp_range_after(t, c, start, f), t, c, false),
    decreases f,
{
    lemma_not_end(t, c);
    let k = peek_at(t, c);
    if k == TokenV::Range || (k == TokenV::Dot && peek_at(t, c + 1) == TokenV::Dot) {
        lemma_not_end(t, c + 1);
        let c1 = if k == TokenV::Range {
            c + 1
        } else {
            c + 2
        };
        lemma_lp_expr(t, c1, (f - 1) as nat);
    }
}

proof fn lemma_lp_primary(t: Seq<TokenV>, c: nat, f: nat)
    requires
        c <= t.len(),
        f >= lp_budget(t, c, 1),
    ensures
        lp_lands(lp_primary(t, c, f), t, c, true),
    decreases f,
{
    lemma_not_end(t, c);
    if !at_end(t, c) && !not_a_primary(peek_at(t, c)) {
        let g = (f - 1) as nat;
        let c1 = c + 1;
        let next = peek_at(t, c1);
        match peek_at(t, c) {
            TokenV::Number(n) => if is_range_or_dot(next) {
                lemma_lp_range_after(t, c1, ExprV::Number(n), g);
            },
            TokenV::Floating(s) => if is_range_or_dot(next) {
                lemma_lp_range_after(t, c1, ExprV::Floating(s), g);
            },
            TokenV::Range => lemma_lp_range_fn(t, c1, g),
            TokenV::Identifier(id) => {
                if next == TokenV::Lparen {
                    lemma_not_end(t, c1);
                }
                if id == "print"@ {
                    if next == TokenV::Lparen {
                        lemma_lp_call(t, c1, id, g);
                    }
                } else if id == "range"@ {
                    if next == TokenV::Lparen {
                        lemma_lp_range_name(t, c1, g);
                    }
                } else if next == TokenV::Lparen {
                    lemma_lp_call(t, c1, id, g);
                } else if is_range_or_dot(next) {
                    lemma_lp_range_after(t, c1, ExprV::Ident(id), g);
                }
            },
            TokenV::Lparen => {
                lemma_lp_expr(t, c1, g);
                let (e, c2) = lp_expr(t, c1, g)->0;
                lemma_expect(t, c2, TokenV::Rparen);
            },
            TokenV::Return => lemma_lp_expr(t, c1, g),
            _ => {},
        }
    }
}

proof fn lemma_lp_stmt(t: Seq<TokenV>, c: nat, f: nat)
    requires
        c <= t.len(),
        f >= lp_budget(t, c, 5),
    ensures
        match lp_stmt(t, c, f) {
            Some((s, c2)) => c <= c2 <= t.len() && (s is Some && !at_end(t, c) ==> c < c2),
            None => false,
        },
    decreases f,
{
    lemma_not_end(t, c);
    let g = (f - 1) as nat;
    let k = peek_at(t, c);
    if stray(k) {
        lemma_lp_stmt(t, c + 1, g);
    } else if k == TokenV::Let {
        lemma_lp_let(t, c, g);
    } else if k == TokenV::If {
        lemma_lp_if(t, c, g);
    } else if k == TokenV::Branch {
        lemma_lp_branch(t, c, g);
    } else if k == TokenV::Fallback {
        lemma_lp_fallback(t, c, g);
    } else if k == TokenV::For {
        lemma_lp_loop(t, c, false, g);
    } else if k == TokenV::Parallel {
        lemma_lp_loop(t, c, true, g);
    } else if k == TokenV::GPU {
        lemma_expect(t, c + 1, TokenV::Fn);
        let (has_fn, c2) = l_expect(t, c + 1, TokenV::Fn);
        if has_fn {
            lemma_lp_function(t, c2, true, g);
        }
    } else if k == TokenV::Fn {
        lemma_lp_function(t, c, false, g);
    } else if k == TokenV::Return {
        lemma_lp_expr(t, c + 1, g);
    } else if k != TokenV::EOF {
        lemma_lp_expr(t, c, g);
    }
}

proof fn lemma_lp_let(t: Seq<TokenV>, c: nat, f: nat)
    requires
        c < t.len(),
        f >= lp_budget(t, c, 1),
    ensures
        lp_lands(lp_let(t, c, f), t, c, true),
    decreases f,
{
    lemma_expect(t, c + 1, TokenV::Mut);
    let (mutable, c2) = l_expect(t, c + 1, TokenV::Mut);
    lemma_not_end(t, c2);
    let c3: nat = match peek_at(t, c2) {
        TokenV::Identifier(n) => c2 + 1,
        _ => c2,
    };
    lemma_expect(t, c3, TokenV::Colon);
    let (has_type, c4) = l_expect(t, c3, TokenV::Colon);
    lemma_not_end(t, c4);
    let c5: nat = if has_type {
        match peek_at(t, c4) {
            TokenV::Identifier(ty) => c4 + 1,
            _ => c4,
        }
    } else {
        c4
    };
    lemma_expect(t, c5, TokenV::Equals);
    let c6 = l_expect(t, c5, TokenV::Equals).1;
    lemma_lp_expr(t, c6, (f - 1) as nat);
}

proof fn lemma_lp_block(t: Seq<TokenV>, c: nat, acc: Seq<StmtV>, f: nat)
    requires
        c <= t.len(),
        f >= lp_budget(t, c, 6),
    ensures
        lp_lands(lp_block(t, c, acc, f), t, c, false),
    decreases f,
{
    lemma_not_end(t, c);
    if !ends_block(peek_at(t, c)) {
        lemma_lp_stmt(t, c, (f - 1) as nat);
        let (r, c1) = lp_stmt(t, c, (f - 1) as nat)->0;
        lemma_not_end(t, c1);
        let (acc2, c2) = match r {
            Some(s) => (acc.push(s), c1),
            None => (acc, l_advance(t, c1).1),
        };
        if !at_end(t, c2) {
            lemma_lp_block(t, c2, acc2, (f - 1) as nat);
        }
    }
}

proof fn lemma_lp_if(t: Seq<TokenV>, c: nat, f: nat)
    requires
        c < t.len(),
        f >= lp_budget(t, c, 1),
    ensures
        lp_lands(lp_if(t, c, f), t, c, true),
    decreases f,
{
    let g = (f - 1) as nat;
    lemma_lp_expr(t, c + 1, g);
    let (cond, c2) = lp_expr(t, c + 1, g)->0;
    lemma_expect(t, c2, TokenV::Colon);
    let (colon, c3) = l_expect(t, c2, TokenV::Colon);
    if colon {
        lemma_lp_block(t, c3, Seq::empty(), g);
        let (ts, c4) = lp_block(t, c3, Seq::empty(), g)->0;
        lemma_lp_if_then(t, c4, cond, ts, g);
    }
}

proof fn lemma_lp_if_then(t: Seq<TokenV>, c: nat, cond: ExprV, ts: Seq<StmtV>, f: nat)
    requires
        c <= t.len(),
        f >= lp_budget(t, c, 2),
    ensures
        lp_lands(lp_if_then(t, c, cond, ts, f), t, c, false),
    decreases f,
{
    let g = (f - 1) as nat;
    lemma_expect(t, c, TokenV::Then);
    let (has_then, c1) = l_expect(t, c, TokenV::Then);
    if !has_then {
        lemma_lp_if_else(t, c, cond, ts, None, g);
    } else {
        lemma_lp_expr(t, c1, g);
        let (ec, c2) = lp_expr(t, c1, g)->0;
        lemma_expect(t, c2, TokenV::Colon);
        let (colon, c3) = l_expect(t, c2, TokenV::Colon);
        if colon {
            lemma_lp_block(t, c3, Seq::empty(), g);
            let (es, c4) = lp_block(t, c3, Seq::empty(), g)->0;
            lemma_lp_if_else(t, c4, cond, ts, Some((ec, es)), g);
        }
    }
}

proof fn lemma_lp_if_else(
    t: Seq<TokenV>,
    c: nat,
    cond: ExprV,
    ts: Seq<StmtV>,
    elif: Option<(ExprV, Seq<StmtV>)>,
    f: nat,
)
    requires
        c <= t.len(),
        f >= lp_budget(t, c, 1),
    ensures
        lp_lands(lp_if_else(t, c, cond, ts, elif, f), t, c, false),
    decreases f,
{
    lemma_expect(t, c, TokenV::Else);
    let (has_else, c1) = l_expect(t, c, TokenV::Else);
    if has_else {
        lemma_expect(t, c1, TokenV::Colon);
        let (colon, c2) = l_expect(t, c1, TokenV::Colon);
        if colon {
            lemma_lp_block(t, c2, Seq::empty(), (f - 1) as nat);
        }
    }
}

proof fn lemma_lp_arm(t: Seq<TokenV>, c: nat, f: nat)
    requires
        c <= t.len(),
        f >= lp_budget(t, c, 6),
    ensures
        lp_lands(lp_arm(t, c, f), t, c, false),
    decreases f,
{
    lemma_lp_expr(t, c, (f - 1) as nat);
    lemma_lp_stmt(t, c, (f - 1) as nat);
}

proof fn lemma_lp_branch(t: Seq<TokenV>, c: nat, f: nat)
    requires
        c < t.len(),
        f >= lp_budget(t, c, 1),
    ensures
        lp_lands(lp_branch(t, c, f), t, c, true),
    decreases f,
{
    let g = (f - 1) as nat;
    lemma_lp_expr(t, c + 1, g);
    let (cond, c2) = lp_expr(t, c + 1, g)->0;
    lemma_expect(t, c2, TokenV::FatArrow);
    let (arrow, c3) = l_expect(t, c2, TokenV::FatArrow);
    if arrow {
        lemma_lp_arm(t, c3, g);
    }
}

proof fn lemma_lp_fallback(t: Seq<TokenV>, c: nat, f: nat)
    requires
        c < t.len(),
        f >= lp_budget(t, c, 1),
    ensures
        lp_lands(lp_fallback(t, c, f), t, c, true),
    decreases f,
{
    lemma_expect(t, c + 1, TokenV::FatArrow);
    let (arrow, c2) = l_expect(t, c + 1, TokenV::FatArrow);
    if arrow {
        lemma_lp_arm(t, c2, (f - 1) as nat);
    }
}

proof fn lemma_lp_loop_body(
    t: Seq<TokenV>,
    c: nat,
    var: Seq<char>,
    range: ExprV,
    parallel: bool,
    f: nat,
)
    requires
        c <= t.len(),
        f >= lp_budget(t, c, 1),
    ensures
        lp_lands(lp_loop_body(t, c, var, range, parallel, f), t, c, false),
    decreases f,
{
    lemma_expect(t, c, TokenV::Colon);
    let (colon, c1) = l_expect(t, c, TokenV::Colon);
    if colon {
        lemma_lp_block(t, c1, Seq::empty(), (f - 1) as nat);
    }
}

proof fn lemma_lp_loop(t: Seq<TokenV>, c: nat, parallel: bool, f: nat)
    requires
        c < t.len(),
        f >= lp_budget(t, c, 1),
    ensures
        lp_lands(lp_loop(t, c, parallel, f), t, c, true),
    decreases f,
{
    let g = (f - 1) as nat;
    lemma_not_end(t, c + 1);
    let (tok, c2) = l_advance(t, c + 1);
    match tok {
        TokenV::Identifier(var) => {
            lemma_expect(t, c2, TokenV::In);
            let (has_in, c3) = l_expect(t, c2, TokenV::In);
            if has_in {
                lemma_not_end(t, c3);
                let k = peek_at(t, c3);
                if k == TokenV::Range {
                    lemma_expect(t, c3 + 1, TokenV::Lparen);
                    let (lparen, c4) = l_expect(t, c3 + 1, TokenV::Lparen);
                    if lparen {
                        lemma_lp_expr(t, c4, g);
                        let (s, c5) = lp_expr(t, c4, g)->0;
                        lemma_expect(t, c5, TokenV::Comma);
                        let (comma, c6) = l_expect(t, c5, TokenV::Comma);
                        if comma {
                            lemma_lp_expr(t, c6, g);
                            let (e, c7) = lp_expr(t, c6, g)->0;
                            lemma_expect(t, c7, TokenV::Rparen);
                            let (rparen, c8) = l_expect(t, c7, TokenV::Rparen);
                            if rparen {
                                lemma_lp_loop_body(t, c8, var, range_of(s, e), parallel, g);
                            }
                        }
                    }
                } else if k is Number || k is Floating {
                    let start = match k {
                        TokenV::Number(n) => ExprV::Number(n),
                        TokenV::Floating(s) => ExprV::Floating(s),
                        _ => error_expr(),
                    };
                    let c4 = c3 + 1;
                    let k2 = peek_at(t, c4);
                    if k2 == TokenV::Range || k2 == TokenV::Dot {
                        lemma_lp_range_after(t, c4, start, g);
                        let (range, c5) = lp_range_after(t, c4, start, g)->0;
                        lemma_lp_loop_body(t, c5, var, range, parallel, g);
                    } else {
                        lemma_lp_loop_body(t, c4, var, range_of(ExprV::Number(0), start), parallel, g);
                    }
                } else {
                    lemma_lp_expr(t, c3, g);
                    let (range, c4) = lp_expr(t, c3, g)->0;
                    lemma_lp_loop_body(t, c4, var, range, parallel, g);
                }
            }
        },
        _ => {},
    }
}

proof fn lemma_lp_params(
    t: Seq<TokenV>,
    c: nat,
    acc: Seq<(Seq<char>, Option<Seq<char>>)>,
    f: nat,
)
    requires
        c <= t.len(),
        f >= lp_budget(t, c, 1),
    ensures
        lp_lands(lp_params(t, c, acc, f), t, c, false),
    decreases f,
{
    lemma_not_end(t, c);
    if !(peek_at(t, c) == TokenV::Rparen || at_end(t, c)) {
        match peek_at(t, c) {
            TokenV::Identifier(pn) => {
                let c1 = c + 1;
                lemma_expect(t, c1, TokenV::Colon);
                let (has_type, c2) = l_expect(t, c1, TokenV::Colon);
                lemma_not_end(t, c2);
                let ty: Option<Option<Seq<char>>> = if has_type {
                    match peek_at(t, c2) {
                        TokenV::Identifier(ty) => Some(Some(ty)),
                        _ => None,
                    }
                } else {
                    Some(None)
                };
                let c3 = if has_type {
                    l_advance(t, c2).1
                } else {
                    c2
                };
                match ty {
                    Some(ty) => {
                        let acc2 = acc.push((pn, ty));
                        if peek_at(t, c3) != TokenV::Rparen {
                            lemma_expect(t, c3, TokenV::Comma);
                            let (comma, c4) = l_expect(t, c3, TokenV::Comma);
                            if comma {
                                lemma_lp_params(t, c4, acc2, (f - 1) as nat);
                            }
                        } else {
                            lemma_lp_params(t, c3, acc2, (f - 1) as nat);
                        }
                    },
                    None => {},
                }
            },
            _ => {},
        }
    }
}

proof fn lemma_lp_function(t: Seq<TokenV>, c: nat, gpu: bool, f: nat)
    requires
        c <= t.len(),
        f >= lp_budget(t, c, 1),
    ensures
        lp_lands(lp_function(t, c, gpu, f), t, c, true),
    decreases f,
{
    let g = (f - 1) as nat;
    lemma_not_end(t, c);
    let c1 = l_advance(t, c).1;
    lemma_not_end(t, c1);
    let (tok, c2) = l_advance(t, c1);
    match tok {
        TokenV::Identifier(name) => {
            lemma_expect(t, c2, TokenV::Lparen);
            let (lparen, c3) = l_expect(t, c2, TokenV::Lparen);
            if lparen {
                lemma_lp_params(t, c3, Seq::empty(), g);
                match lp_params(t, c3, Seq::empty(), g) {
                    Some((Some(params), c4)) => {
                        lemma_expect(t, c4, TokenV::Rparen);
                        let (rparen, c5) = l_expect(t, c4, TokenV::Rparen);
                        if rparen {
                            lemma_expect(t, c5, TokenV::Arrow);
                            let (arrow, c6) = l_expect(t, c5, TokenV::Arrow);
                            lemma_not_end(t, c6);
                            let rt: Option<Option<Seq<char>>> = if arrow {
                                match peek_at(t, c6) {
                                    TokenV::Identifier(r) => Some(Some(r)),
                                    _ => None,
                                }
                            } else {
                                Some(None)
                            };
                            let c7 = if arrow {
                                l_advance(t, c6).1
                            } else {
                                c6
                            };
                            if rt is Some {
                                lemma_expect(t, c7, TokenV::Colon);
                                let (colon, c8) = l_expect(t, c7, TokenV::Colon);
                                if colon {
                                    lemma_lp_block(t, c8, Seq::empty(), g);
                                }
                            }
                        }
                    },
                    _ => {},
                }
            }
        },
        _ => {},
    }
}

proof fn lemma_lp_program(t: Seq<TokenV>, c: nat, acc: Seq<StmtV>, f: nat)
    requires
        c <= t.len(),
        f >= lp_budget(t, c, 6),
    ensures
        lp_program(t, c, acc, f) is Some,
    decreases f,
{
    lemma_not_end(t, c);
    if !at_end(t, c) {
        let g = (f - 1) as nat;
        lemma_lp_stmt(t, c, g);
        match lp_stmt(t, c, g) {
            Some((Some(s), c1)) => lemma_lp_program(t, c1, acc.push(s), g),
            Some((None, c1)) => {
                lemma_not_end(t, c1);
                lemma_lp_program(t, l_advance(t, c1).1, acc, g);
            },
            None => {},
        }
    }
}

/// The first parser returns on every token sequence, from any position
/// within it.
pub proof fn lemma_lp_parses(t: Seq<TokenV>, c: nat)
    requires
        c <= t.len(),
    ensures
        lp_parses(t, c),
{
    let f = lp_budget(t, c, 6);
    lemma_lp_program(t, c, Seq::empty(), f);
    assert(lp_program(t, c, Seq::empty(), f) is Some);
}


/// Operators bind in the usual order: `*` and `/` tighter than `+` and `-`,
/// those tighter than the ordering comparisons, and those tighter than
/// `==` and `!=`; every operator binds, and a `:` or a name binds nothing.
pub proof fn lemma_precedence_order()
    ensures
        precedence(TokenV::Star) == precedence(TokenV::Slash),
        precedence(TokenV::Plus) == precedence(TokenV::Minus),
        precedence(TokenV::Slash) > precedence(TokenV::Plus),
        precedence(TokenV::Minus) > precedence(TokenV::LT),
        precedence(TokenV::LT) == precedence(TokenV::LE) && precedence(TokenV::LE) == precedence(TokenV::GT)
            && precedence(TokenV::GT) == precedence(TokenV::GE),
        precedence(TokenV::GE) > precedence(TokenV::EQ),
        precedence(TokenV::EQ) == precedence(TokenV::NE),
        precedence(TokenV::NE) > 0,
        precedence(TokenV::Colon) == 0,
{
}

/// An operator takes the expression before it as its left operand and
/// the one after it as its right operand, where nothing binding follows.
pub proof fn lemma_legacy_operands(t: Seq<TokenV>, c: nat, m: nat, left: ExprV, right: ExprV, c2: nat, f: nat)
    requires
        f >= 2,
        c < t.len(),
        0 < precedence(t[c as int]),
        precedence(t[c as int]) >= m,
        peek_at(t, c + 1) != TokenV::EOF,
        !not_an_operand(peek_at(t, c + 1)),
        lp_primary(t, c + 1, (f - 1) as nat) == Some((right, c2)),
        right != error_expr(),
        precedence(peek_at(t, c2)) == 0,
    ensures
        lp_prec_loop(t, c, m, left, f) == Some((binary(left, t[c as int], right), c2)),
{
    assert(l_advance(t, c) == (t[c as int], c + 1));
    assert(lp_prec_loop(t, c2, m, binary(left, t[c as int], right), (f - 1) as nat) == Some(
        (binary(left, t[c as int], right), c2),
    ));
}

} // verus!
