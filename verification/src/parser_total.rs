//! When the VORTEX parser returns: on every token sequence without `EOF`
//! whose last token is not `(`.
//!
//! At the end of the tokens, moving on repeats the last token; a last `(`
//! then opens a parenthesised expression again and again.  Elsewhere every
//! round of the expression and statement rules reads a token, so a fuel
//! that grows with the number of tokens left is enough.  Each lemma below
//! states, for one rule, a fuel from which the rule gives a result, and
//! where that result leaves the position.
use crate::ast::{ExprV, StmtV};
use crate::lexer::{lex_next, lex_tokens};
use crate::parser_spec::{
    advance_spec, at_end, binary, is_comparison_op, is_factor_op, is_range_or_dot, is_term_op,
    is_expr_start, match_spec, stops, p_args_rest, p_call, p_call_args, p_call_rest, p_comparison, p_comparison_rest,
    p_expression, p_factor, p_factor_rest, p_maybe_range, p_primary, p_range_call, p_range_from,
    p_term, p_term_rest, p_unary, peek_at, p_annotation, p_return_type, p_statement, p_stmts,
    p_let, p_if, p_if_then, p_if_else, p_arm_body, p_branch, p_fallback, p_loop, p_params,
    p_function, p_program, parses, Stop,
};
use crate::token::TokenV;
use vstd::prelude::*;

verus! {

/// Token sequences on which the parser returns: no `EOF` among them, and
/// the last one (if any) is not `(`.
pub open spec fn ends_cleanly(t: Seq<TokenV>) -> bool {
    &&& forall|i: int| 0 <= i < t.len() ==> t[i] != TokenV::EOF
    &&& (t.len() == 0 || t.last() != TokenV::Lparen)
}

/// The fuel that a rule with the given offset needs at position `c`.
pub open spec fn budget(t: Seq<TokenV>, c: nat, o: nat) -> nat {
    (20 * (t.len() - c) + o) as nat
}

/// A rule's result exists and leaves the position at or after `c`, within
/// the tokens; with `strict`, a rule that starts on a token reads it.
pub open spec fn lands<A>(r: Option<(A, nat)>, t: Seq<TokenV>, c: nat, strict: bool) -> bool {
    match r {
        Some((_, c2)) => c <= c2 <= t.len() && (strict && c < t.len() ==> c < c2),
        None => false,
    }
}

/// The common assumptions of the lemmas: tokens that end cleanly, at least
/// one of them, and a position within them.
pub open spec fn ready(t: Seq<TokenV>, c: nat) -> bool {
    ends_cleanly(t) && 0 < t.len() && c <= t.len()
}

proof fn lemma_peek(t: Seq<TokenV>, c: nat)
    requires
        ready(t, c),
    ensures
        at_end(t, c) <==> c == t.len(),
{
    if c < t.len() {
        assert(t[c as int] != TokenV::EOF);
    }
}

proof fn lemma_advance(t: Seq<TokenV>, c: nat)
    requires
        ready(t, c),
    ensures
        match advance_spec(t, c) {
            Some((tok, c1)) => c1 == (if c < t.len() {
                c + 1
            } else {
                c
            }) && (c == t.len() ==> tok == t.last()),
            None => false,
        },
{
    lemma_peek(t, c);
}

proof fn lemma_match(t: Seq<TokenV>, c: nat, k: TokenV)
    requires
        ready(t, c),
    ensures
        match_spec(t, c, k).0 ==> c < t.len() && match_spec(t, c, k).1 == c + 1,
        !match_spec(t, c, k).0 ==> match_spec(t, c, k).1 == c,
{
    lemma_peek(t, c);
}

proof fn lemma_expression(t: Seq<TokenV>, c: nat, f: nat)
    requires
        ready(t, c),
        f >= budget(t, c, 9),
    ensures
        lands(p_expression(t, c, f), t, c, true),
    decreases f,
{
    lemma_comparison(t, c, (f - 1) as nat);
}

proof fn lemma_comparison(t: Seq<TokenV>, c: nat, f: nat)
    requires
        ready(t, c),
        f >= budget(t, c, 8),
    ensures
        lands(p_comparison(t, c, f), t, c, true),
    decreases f,
{
    lemma_term(t, c, (f - 1) as nat);
    let (e, c1) = p_term(t, c, (f - 1) as nat)->0;
    lemma_comparison_rest(t, c1, e, (f - 1) as nat);
}

proof fn lemma_comparison_rest(t: Seq<TokenV>, c: nat, e: ExprV, f: nat)
    requires
        ready(t, c),
        f >= budget(t, c, 1),
    ensures
        lands(p_comparison_rest(t, c, e, f), t, c, false),
    decreases f,
{
    if is_comparison_op(peek_at(t, c)) {
        lemma_peek(t, c);
        lemma_term(t, c + 1, (f - 1) as nat);
        let (r, c2) = p_term(t, c + 1, (f - 1) as nat)->0;
        lemma_comparison_rest(t, c2, binary(e, peek_at(t, c), r), (f - 1) as nat);
    }
}

proof fn lemma_term(t: Seq<TokenV>, c: nat, f: nat)
    requires
        ready(t, c),
        f >= budget(t, c, 7),
    ensures
        lands(p_term(t, c, f), t, c, true),
    decreases f,
{
    lemma_factor(t, c, (f - 1) as nat);
    let (e, c1) = p_factor(t, c, (f - 1) as nat)->0;
    lemma_term_rest(t, c1, e, (f - 1) as nat);
}

proof fn lemma_term_rest(t: Seq<TokenV>, c: nat, e: ExprV, f: nat)
    requires
        ready(t, c),
        f >= budget(t, c, 1),
    ensures
        lands(p_term_rest(t, c, e, f), t, c, false),
    decreases f,
{
    if is_term_op(peek_at(t, c)) {
        lemma_peek(t, c);
        lemma_factor(t, c + 1, (f - 1) as nat);
        let (r, c2) = p_factor(t, c + 1, (f - 1) as nat)->0;
        lemma_term_rest(t, c2, binary(e, peek_at(t, c), r), (f - 1) as nat);
    }
}

proof fn lemma_factor(t: Seq<TokenV>, c: nat, f: nat)
    requires
        ready(t, c),
        f >= budget(t, c, 6),
    ensures
        lands(p_factor(t, c, f), t, c, true),
    decreases f,
{
    lemma_unary(t, c, (f - 1) as nat);
    let (e, c1) = p_unary(t, c, (f - 1) as nat)->0;
    lemma_factor_rest(t, c1, e, (f - 1) as nat);
}

proof fn lemma_factor_rest(t: Seq<TokenV>, c: nat, e: ExprV, f: nat)
    requires
        ready(t, c),
        f >= budget(t, c, 1),
    ensures
        lands(p_factor_rest(t, c, e, f), t, c, false),
    decreases f,
{
    if is_factor_op(peek_at(t, c)) {
        lemma_peek(t, c);
        lemma_unary(t, c + 1, (f - 1) as nat);
        let (r, c2) = p_unary(t, c + 1, (f - 1) as nat)->0;
        lemma_factor_rest(t, c2, binary(e, peek_at(t, c), r), (f - 1) as nat);
    }
}

proof fn lemma_unary(t: Seq<TokenV>, c: nat, f: nat)
    requires
        ready(t, c),
        f >= budget(t, c, 5),
    ensures
        lands(p_unary(t, c, f), t, c, true),
    decreases f,
{
    if peek_at(t, c) == TokenV::Minus {
        lemma_peek(t, c);
        lemma_unary(t, c + 1, (f - 1) as nat);
    } else {
        lemma_call(t, c, (f - 1) as nat);
    }
}

proof fn lemma_call(t: Seq<TokenV>, c: nat, f: nat)
    requires
        ready(t, c),
        f >= budget(t, c, 4),
    ensures
        lands(p_call(t, c, f), t, c, true),
    decreases f,
{
    lemma_primary(t, c, (f - 1) as nat);
    let (e, c1) = p_primary(t, c, (f - 1) as nat)->0;
    lemma_call_rest(t, c1, e, (f - 1) as nat);
}

proof fn lemma_call_args(t: Seq<TokenV>, c: nat, f: nat)
    requires
        ready(t, c),
        f >= budget(t, c, 10),
    ensures
        lands(p_call_args(t, c, f), t, c, false),
    decreases f,
{
    if peek_at(t, c) != TokenV::Rparen {
        lemma_expression(t, c, (f - 1) as nat);
        let (a, c2) = p_expression(t, c, (f - 1) as nat)->0;
        lemma_args_rest(t, c2, seq![a], (f - 1) as nat);
    }
}

proof fn lemma_call_rest(t: Seq<TokenV>, c: nat, e: ExprV, f: nat)
    requires
        ready(t, c),
        f >= budget(t, c, 1),
    ensures
        lands(p_call_rest(t, c, e, f), t, c, false),
    decreases f,
{
    if peek_at(t, c) == TokenV::Lparen {
        lemma_peek(t, c);
        lemma_call_args(t, c + 1, (f - 1) as nat);
        let (args, c3) = p_call_args(t, c + 1, (f - 1) as nat)->0;
        lemma_match(t, c3, TokenV::Rparen);
        let m = match_spec(t, c3, TokenV::Rparen);
        if m.0 {
            lemma_call_rest(
                t,
                m.1,
                ExprV::FunctionCall { callee: Box::new(e), arguments: args },
                (f - 1) as nat,
            );
        }
    }
}

proof fn lemma_args_rest(t: Seq<TokenV>, c: nat, args: Seq<ExprV>, f: nat)
    requires
        ready(t, c),
        f >= budget(t, c, 1),
    ensures
        lands(p_args_rest(t, c, args, f), t, c, false),
    decreases f,
{
    lemma_match(t, c, TokenV::Comma);
    let m = match_spec(t, c, TokenV::Comma);
    if m.0 {
        lemma_expression(t, m.1, (f - 1) as nat);
        let (a, c2) = p_expression(t, m.1, (f - 1) as nat)->0;
        lemma_args_rest(t, c2, args.push(a), (f - 1) as nat);
    }
}

proof fn lemma_maybe_range(t: Seq<TokenV>, c: nat, start: ExprV, f: nat)
    requires
        ready(t, c),
        f >= budget(t, c, 2),
    ensures
        lands(p_maybe_range(t, c, start, f), t, c, false),
    decreases f,
{
    if is_range_or_dot(peek_at(t, c)) {
        lemma_peek(t, c);
        lemma_range_from(t, c, start, (f - 1) as nat);
    }
}

proof fn lemma_primary(t: Seq<TokenV>, c: nat, f: nat)
    requires
        ready(t, c),
        f >= budget(t, c, 3),
    ensures
        lands(p_primary(t, c, f), t, c, true),
    decreases f,
{
    lemma_advance(t, c);
    let (tok, c1) = advance_spec(t, c)->0;
    match tok {
        TokenV::Number(n) => lemma_maybe_range(t, c1, ExprV::Number(n), (f - 1) as nat),
        TokenV::Floating(s) => lemma_maybe_range(t, c1, ExprV::Floating(s), (f - 1) as nat),
        TokenV::Identifier(id) => lemma_maybe_range(t, c1, ExprV::Ident(id), (f - 1) as nat),
        TokenV::Range => lemma_range_call(t, c1, (f - 1) as nat),
        TokenV::Lparen => {
            lemma_expression(t, c1, (f - 1) as nat);
            let (e, c2) = p_expression(t, c1, (f - 1) as nat)->0;
            lemma_match(t, c2, TokenV::Rparen);
        },
        _ => {},
    }
}

proof fn lemma_range_call(t: Seq<TokenV>, c: nat, f: nat)
    requires
        ready(t, c),
        f >= budget(t, c, 1),
    ensures
        lands(p_range_call(t, c, f), t, c, false),
    decreases f,
{
    lemma_match(t, c, TokenV::Lparen);
    let m = match_spec(t, c, TokenV::Lparen);
    if m.0 {
        lemma_expression(t, m.1, (f - 1) as nat);
        let (st, c3) = p_expression(t, m.1, (f - 1) as nat)->0;
        lemma_match(t, c3, TokenV::Comma);
        let m2 = match_spec(t, c3, TokenV::Comma);
        if m2.0 {
            lemma_expression(t, m2.1, (f - 1) as nat);
            let (en, c5) = p_expression(t, m2.1, (f - 1) as nat)->0;
            lemma_match(t, c5, TokenV::Rparen);
        }
    }
}

proof fn lemma_range_from(t: Seq<TokenV>, c: nat, start: ExprV, f: nat)
    requires
        ready(t, c),
        f >= budget(t, c, 1),
    ensures
        lands(p_range_from(t, c, start, f), t, c, false),
    decreases f,
{
    lemma_match(t, c, TokenV::Range);
    let m = match_spec(t, c, TokenV::Range);
    if m.0 {
        lemma_expression(t, m.1, (f - 1) as nat);
    } else {
        lemma_match(t, c, TokenV::Dot);
        let m2 = match_spec(t, c, TokenV::Dot);
        if m2.0 {
            lemma_match(t, m2.1, TokenV::Dot);
            let m3 = match_spec(t, m2.1, TokenV::Dot);
            if m3.0 {
                lemma_expression(t, m3.1, (f - 1) as nat);
            }
        }
    }
}

proof fn lemma_annotation(t: Seq<TokenV>, c: nat)
    requires
        ready(t, c),
    ensures
        lands(p_annotation(t, c), t, c, false),
{
    lemma_match(t, c, TokenV::Colon);
    let m = match_spec(t, c, TokenV::Colon);
    if m.0 {
        lemma_advance(t, m.1);
    }
}

proof fn lemma_return_type(t: Seq<TokenV>, c: nat)
    requires
        ready(t, c),
    ensures
        lands(p_return_type(t, c), t, c, false),
{
    lemma_match(t, c, TokenV::Arrow);
    let m = match_spec(t, c, TokenV::Arrow);
    if m.0 {
        lemma_advance(t, m.1);
    }
}

proof fn lemma_statement(t: Seq<TokenV>, c: nat, f: nat)
    requires
        ready(t, c),
        c < t.len(),
        f >= budget(t, c, 12),
    ensures
        match p_statement(t, c, f) {
            Some((s, c2)) => c <= c2 <= t.len() && (s is Some ==> c < c2),
            None => false,
        },
    decreases f,
{
    let k = peek_at(t, c);
    let g = (f - 1) as nat;
    if k == TokenV::Let {
        lemma_let(t, c, g);
    } else if k == TokenV::If {
        lemma_if(t, c, g);
    } else if k == TokenV::Branch {
        lemma_branch(t, c, g);
    } else if k == TokenV::Fallback {
        lemma_fallback(t, c, g);
    } else if k == TokenV::For {
        lemma_loop(t, c, false, g);
    } else if k == TokenV::Parallel {
        lemma_loop(t, c, true, g);
    } else if k == TokenV::Fn {
        lemma_function(t, c, false, g);
    } else if k == TokenV::GPU {
        if peek_at(t, c + 1) == TokenV::Fn {
            lemma_peek(t, c + 1);
            lemma_function(t, c + 1, true, g);
        }
    } else if k == TokenV::Return {
        lemma_expression(t, c + 1, g);
    } else if is_expr_start(k) {
        lemma_expression(t, c, g);
    }
}

proof fn lemma_stmts(t: Seq<TokenV>, c: nat, acc: Seq<StmtV>, stop: Stop, f: nat)
    requires
        ready(t, c),
        f >= budget(t, c, 13),
    ensures
        lands(p_stmts(t, c, acc, stop, f), t, c, false),
    decreases f,
{
    lemma_peek(t, c);
    if !stops(stop, peek_at(t, c)) {
        lemma_statement(t, c, (f - 1) as nat);
        match p_statement(t, c, (f - 1) as nat) {
            Some((Some(s), c1)) => lemma_stmts(t, c1, acc.push(s), stop, (f - 1) as nat),
            _ => {},
        }
    }
}

proof fn lemma_let(t: Seq<TokenV>, c: nat, f: nat)
    requires
        ready(t, c),
        c < t.len(),
        f >= budget(t, c, 1),
    ensures
        lands(p_let(t, c, f), t, c, true),
    decreases f,
{
    let c1 = c + 1;
    lemma_peek(t, c1);
    let c2: nat = if peek_at(t, c1) == TokenV::Mut {
        c1 + 1
    } else {
        c1
    };
    lemma_advance(t, c2);
    match advance_spec(t, c2) {
        Some((TokenV::Identifier(name), c3)) => {
            lemma_annotation(t, c3);
            let (ty, c4) = p_annotation(t, c3)->0;
            lemma_match(t, c4, TokenV::Equals);
            let m = match_spec(t, c4, TokenV::Equals);
            if m.0 {
                lemma_expression(t, m.1, (f - 1) as nat);
            }
        },
        _ => {},
    }
}

proof fn lemma_if(t: Seq<TokenV>, c: nat, f: nat)
    requires
        ready(t, c),
        c < t.len(),
        f >= budget(t, c, 1),
    ensures
        lands(p_if(t, c, f), t, c, true),
    decreases f,
{
    let g = (f - 1) as nat;
    lemma_expression(t, c + 1, g);
    let (cond, c2) = p_expression(t, c + 1, g)->0;
    lemma_match(t, c2, TokenV::Colon);
    let m = match_spec(t, c2, TokenV::Colon);
    if m.0 {
        lemma_stmts(t, m.1, Seq::empty(), Stop::Then, g);
        let (ts, c4) = p_stmts(t, m.1, Seq::empty(), Stop::Then, g)->0;
        lemma_if_then(t, c4, cond, ts, g);
    }
}

proof fn lemma_if_then(t: Seq<TokenV>, c: nat, cond: ExprV, ts: Seq<StmtV>, f: nat)
    requires
        ready(t, c),
        f >= budget(t, c, 2),
    ensures
        lands(p_if_then(t, c, cond, ts, f), t, c, false),
    decreases f,
{
    let g = (f - 1) as nat;
    lemma_match(t, c, TokenV::Then);
    let m = match_spec(t, c, TokenV::Then);
    if !m.0 {
        lemma_if_else(t, c, cond, ts, None, g);
    } else {
        lemma_expression(t, m.1, g);
        let (ec, c6) = p_expression(t, m.1, g)->0;
        lemma_match(t, c6, TokenV::Colon);
        let mc = match_spec(t, c6, TokenV::Colon);
        if mc.0 {
            lemma_stmts(t, mc.1, Seq::empty(), Stop::ElseIf, g);
            let (es, c8) = p_stmts(t, mc.1, Seq::empty(), Stop::ElseIf, g)->0;
            lemma_if_else(t, c8, cond, ts, Some((ec, es)), g);
        }
    }
}

proof fn lemma_if_else(
    t: Seq<TokenV>,
    c: nat,
    cond: ExprV,
    ts: Seq<StmtV>,
    elif: Option<(ExprV, Seq<StmtV>)>,
    f: nat,
)
    requires
        ready(t, c),
        f >= budget(t, c, 1),
    ensures
        lands(p_if_else(t, c, cond, ts, elif, f), t, c, false),
    decreases f,
{
    lemma_match(t, c, TokenV::Else);
    let me = match_spec(t, c, TokenV::Else);
    if me.0 {
        lemma_match(t, me.1, TokenV::Colon);
        let mc = match_spec(t, me.1, TokenV::Colon);
        if mc.0 {
            lemma_stmts(t, mc.1, Seq::empty(), Stop::Else, (f - 1) as nat);
        }
    }
}

proof fn lemma_arm_body(t: Seq<TokenV>, c: nat, f: nat)
    requires
        ready(t, c),
        f >= budget(t, c, 11),
    ensures
        lands(p_arm_body(t, c, f), t, c, false),
    decreases f,
{
    if is_expr_start(peek_at(t, c)) {
        lemma_expression(t, c, (f - 1) as nat);
    }
}

proof fn lemma_branch(t: Seq<TokenV>, c: nat, f: nat)
    requires
        ready(t, c),
        c < t.len(),
        f >= budget(t, c, 1),
    ensures
        lands(p_branch(t, c, f), t, c, true),
    decreases f,
{
    let g = (f - 1) as nat;
    lemma_expression(t, c + 1, g);
    let (cond, c2) = p_expression(t, c + 1, g)->0;
    lemma_match(t, c2, TokenV::FatArrow);
    let m = match_spec(t, c2, TokenV::FatArrow);
    if m.0 {
        lemma_arm_body(t, m.1, g);
    }
}

proof fn lemma_fallback(t: Seq<TokenV>, c: nat, f: nat)
    requires
        ready(t, c),
        c < t.len(),
        f >= budget(t, c, 1),
    ensures
        lands(p_fallback(t, c, f), t, c, true),
    decreases f,
{
    lemma_match(t, c + 1, TokenV::FatArrow);
    let m = match_spec(t, c + 1, TokenV::FatArrow);
    if m.0 {
        lemma_arm_body(t, m.1, (f - 1) as nat);
    }
}

proof fn lemma_loop(t: Seq<TokenV>, c: nat, parallel: bool, f: nat)
    requires
        ready(t, c),
        c < t.len(),
        f >= budget(t, c, 1),
    ensures
        lands(p_loop(t, c, parallel, f), t, c, true),
    decreases f,
{
    let g = (f - 1) as nat;
    lemma_advance(t, c + 1);
    match advance_spec(t, c + 1) {
        Some((TokenV::Identifier(var), c2)) => {
            lemma_match(t, c2, TokenV::In);
            let m = match_spec(t, c2, TokenV::In);
            if m.0 {
                lemma_expression(t, m.1, g);
                let (range, c4) = p_expression(t, m.1, g)->0;
                lemma_match(t, c4, TokenV::Colon);
                let m2 = match_spec(t, c4, TokenV::Colon);
                if m2.0 {
                    lemma_stmts(t, m2.1, Seq::empty(), Stop::Body, g);
                }
            }
        },
        _ => {},
    }
}

proof fn lemma_params(
    t: Seq<TokenV>,
    c: nat,
    acc: Seq<(Seq<char>, Option<Seq<char>>)>,
    f: nat,
)
    requires
        ready(t, c),
        f >= budget(t, c, 1),
    ensures
        lands(p_params(t, c, acc, f), t, c, false),
    decreases f,
{
    lemma_advance(t, c);
    match advance_spec(t, c) {
        Some((TokenV::Identifier(pn), c1)) => {
            lemma_annotation(t, c1);
            let (ty, c3) = p_annotation(t, c1)->0;
            lemma_match(t, c3, TokenV::Comma);
            let m = match_spec(t, c3, TokenV::Comma);
            if m.0 {
                lemma_params(t, m.1, acc.push((pn, ty)), (f - 1) as nat);
            }
        },
        _ => {},
    }
}

proof fn lemma_function(t: Seq<TokenV>, c: nat, gpu: bool, f: nat)
    requires
        ready(t, c),
        c < t.len(),
        f >= budget(t, c, 1),
    ensures
        lands(p_function(t, c, gpu, f), t, c, true),
    decreases f,
{
    let g = (f - 1) as nat;
    lemma_advance(t, c + 1);
    match advance_spec(t, c + 1) {
        Some((TokenV::Identifier(name), c2)) => {
            lemma_match(t, c2, TokenV::Lparen);
            let m = match_spec(t, c2, TokenV::Lparen);
            if m.0 {
                if peek_at(t, m.1) != TokenV::Rparen {
                    lemma_params(t, m.1, Seq::empty(), g);
                }
                let ps = if peek_at(t, m.1) != TokenV::Rparen {
                    p_params(t, m.1, Seq::empty(), g)
                } else {
                    Some((Seq::empty(), m.1))
                };
                let (params, c4) = ps->0;
                lemma_match(t, c4, TokenV::Rparen);
                let m2 = match_spec(t, c4, TokenV::Rparen);
                if m2.0 {
                    lemma_return_type(t, m2.1);
                    let (return_type, c8) = p_return_type(t, m2.1)->0;
                    lemma_match(t, c8, TokenV::Colon);
                    let m4 = match_spec(t, c8, TokenV::Colon);
                    if m4.0 {
                        lemma_stmts(t, m4.1, Seq::empty(), Stop::Body, g);
                    }
                }
            }
        },
        _ => {},
    }
}

proof fn lemma_program(t: Seq<TokenV>, c: nat, acc: Seq<StmtV>, f: nat)
    requires
        ready(t, c),
        f >= budget(t, c, 13),
    ensures
        p_program(t, c, acc, f) is Some,
    decreases f,
{
    lemma_peek(t, c);
    if !at_end(t, c) {
        let g = (f - 1) as nat;
        lemma_statement(t, c, g);
        match p_statement(t, c, g) {
            Some((Some(s), c1)) => lemma_program(t, c1, acc.push(s), g),
            Some((None, c1)) => {
                lemma_advance(t, c1);
                lemma_peek(t, c1);
                let (_, c2) = advance_spec(t, c1)->0;
                lemma_program(t, c2, acc, g);
            },
            None => {},
        }
    }
}

/// The parser returns on every token sequence without `EOF` whose last
/// token is not `(`.
pub proof fn lemma_parses(t: Seq<TokenV>)
    requires
        ends_cleanly(t),
    ensures
        parses(t, 0),
{
    if t.len() == 0 {
        assert(p_program(t, 0, Seq::empty(), 1) is Some);
    } else {
        let f = budget(t, 0, 13);
        lemma_program(t, 0, Seq::empty(), f);
        assert(p_program(t, 0, Seq::empty(), f) is Some);
    }
}

/// No token read from text is `EOF`: reading stops there.
pub proof fn lemma_lex_tokens_no_eof(s: Seq<char>, p: nat)
    ensures
        forall|i: int| 0 <= i < lex_tokens(s, p).len() ==> lex_tokens(s, p)[i] != TokenV::EOF,
    decreases s.len() - p,
{
    let (t, q) = lex_next(s, p);
    if !(t == TokenV::EOF || q <= p || q > s.len()) {
        lemma_lex_tokens_no_eof(s, q);
        let rest = lex_tokens(s, q);
        assert(lex_tokens(s, p) == seq![t] + rest);
        assert forall|i: int| 0 <= i < lex_tokens(s, p).len() implies lex_tokens(s, p)[i]
            != TokenV::EOF by {
            if i > 0 {
                assert(lex_tokens(s, p)[i] == rest[i - 1]);
            }
        }
    }
}

/// The parser returns on the tokens read from any source text whose last
/// token is not `(`.
pub proof fn lemma_source_parses(s: Seq<char>)
    requires
        lex_tokens(s, 0).len() == 0 || lex_tokens(s, 0).last() != TokenV::Lparen,
    ensures
        parses(lex_tokens(s, 0), 0),
{
    lemma_lex_tokens_no_eof(s, 0);
    lemma_parses(lex_tokens(s, 0));
}


/// `range(a, b)` and `a..b` build the same range: its start is what the
/// first operand parses to and its end what the second parses to.
pub proof fn lemma_range_forms(
    t: Seq<TokenV>,
    c: nat,
    u: Seq<TokenV>,
    d: nat,
    f: nat,
    a: ExprV,
    b: ExprV,
    c3: nat,
    c5: nat,
    d2: nat,
)
    requires
        f > 0,
        peek_at(t, c) == TokenV::Lparen,
        p_expression(t, c + 1, (f - 1) as nat) == Some((a, c3)),
        peek_at(t, c3) == TokenV::Comma,
        p_expression(t, c3 + 1, (f - 1) as nat) == Some((b, c5)),
        peek_at(t, c5) == TokenV::Rparen,
        peek_at(u, d) == TokenV::Range,
        p_expression(u, d + 1, (f - 1) as nat) == Some((b, d2)),
    ensures
        p_range_call(t, c, f) == Some((ExprV::Range { start: Box::new(a), end: Box::new(b) }, c5 + 1)),
        p_range_from(u, d, a, f) == Some((ExprV::Range { start: Box::new(a), end: Box::new(b) }, d2)),
{
}


/// A binary operator keeps its operands in order: the expression read so
/// far is its left operand and what follows the operator its right one;
/// `*` and `/` bind within a term, `+` and `-` within a comparison, and a
/// chain of one level groups to the left.
pub proof fn lemma_binary_operands(t: Seq<TokenV>, c: nat, e: ExprV, r: ExprV, c2: nat, f: nat)
    requires
        f >= 2,
    ensures
        is_factor_op(peek_at(t, c)) && p_unary(t, c + 1, (f - 1) as nat) == Some((r, c2)) && !is_factor_op(
            peek_at(t, c2),
        ) ==> p_factor_rest(t, c, e, f) == Some((binary(e, peek_at(t, c), r), c2)),
        is_term_op(peek_at(t, c)) && p_factor(t, c + 1, (f - 1) as nat) == Some((r, c2)) && !is_term_op(
            peek_at(t, c2),
        ) ==> p_term_rest(t, c, e, f) == Some((binary(e, peek_at(t, c), r), c2)),
        is_comparison_op(peek_at(t, c)) && p_term(t, c + 1, (f - 1) as nat) == Some((r, c2)) && !is_comparison_op(
            peek_at(t, c2),
        ) ==> p_comparison_rest(t, c, e, f) == Some((binary(e, peek_at(t, c), r), c2)),
{
    let g = (f - 1) as nat;
    let b = binary(e, peek_at(t, c), r);
    if is_factor_op(peek_at(t, c)) && p_unary(t, c + 1, g) == Some((r, c2)) && !is_factor_op(peek_at(t, c2)) {
        assert(p_factor_rest(t, c2, b, g) == Some((b, c2)));
    }
    if is_term_op(peek_at(t, c)) && p_factor(t, c + 1, g) == Some((r, c2)) && !is_term_op(peek_at(t, c2)) {
        assert(p_term_rest(t, c2, b, g) == Some((b, c2)));
    }
    if is_comparison_op(peek_at(t, c)) && p_term(t, c + 1, g) == Some((r, c2)) && !is_comparison_op(peek_at(t, c2)) {
        assert(p_comparison_rest(t, c2, b, g) == Some((b, c2)));
    }
}

} // verus!
