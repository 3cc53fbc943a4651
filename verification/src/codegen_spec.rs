//! What the compiler from VORTEX syntax to IR nets computes, as functions
//! over views.
//!
//! Each function takes the compiler's state (the net and the functions
//! defined so far), what it compiles, the variable bindings and a fuel bound;
//! `None` means that the fuel ran out, that an unbound variable was read, or
//! that the net ran out of cell ids: the compiler would not return.  The
//! value of a number with a decimal point is given by `fv`, a function of the
//! literal's text.
use crate::ast::{ExprV, StmtV};
use crate::ir::{spec_set_port, Cell, CellId, CellKind, Net, OpKind, Port, Redex};
use crate::token::TokenV;
use vstd::prelude::*;

verus! {

/// The mathematical view of an IR net.
pub struct NetModel {
    pub cells: Map<CellId, Cell>,
    pub redexes: Seq<Redex>,
    pub iface: Seq<Port>,
    pub debug: Map<CellId, Seq<char>>,
    pub next_id: nat,
}

pub open spec fn net_model(n: Net) -> NetModel {
    NetModel {
        cells: n.cells@,
        redexes: n.redexes@,
        iface: n.iface@,
        debug: n.debug@.map_values(|s: String| s@),
        next_id: n.next_id as nat,
    }
}

/// Variable bindings: the latest binding of a name is the one in force.
pub type EnvV = Seq<(Seq<char>, Port)>;

/// A function as the compiler records it: parameter names and body.
pub type FunV = (Seq<Seq<char>>, StmtV);

/// The compiler's state: the net built so far and the functions defined so
/// far (the latest definition of a name is the one in force).
pub struct CgState {
    pub net: NetModel,
    pub funs: Seq<(Seq<char>, FunV)>,
}

/// The value that the latest entry with key `k` holds, if any.
pub open spec fn assoc_get<V>(s: Seq<(Seq<char>, V)>, k: Seq<char>) -> Option<V>
    decreases s.len(),
{
    if s.len() == 0 {
        None
    } else if s.last().0 == k {
        Some(s.last().1)
    } else {
        assoc_get(s.drop_last(), k)
    }
}

/// The names of a function's parameters.
pub open spec fn param_names(ps: Seq<(Seq<char>, Option<Seq<char>>)>) -> Seq<Seq<char>> {
    ps.map_values(|p: (Seq<char>, Option<Seq<char>>)| p.0)
}

/// A fresh cell of the given kind: the net and the new cell's id.
pub open spec fn alloc_m(n: NetModel, kind: CellKind) -> Option<(NetModel, CellId)> {
    if n.next_id < u32::MAX {
        let id = n.next_id as CellId;
        Some((NetModel { cells: n.cells.insert(id, Cell::fresh(id, kind)), next_id: n.next_id + 1, ..n }, id))
    } else {
        None
    }
}

pub open spec fn connect_m(n: NetModel, a: Port, b: Port) -> NetModel {
    NetModel { cells: spec_set_port(spec_set_port(n.cells, a, b), b, a), ..n }
}

pub open spec fn redex_m(n: NetModel, left: CellId, right: CellId) -> NetModel {
    NetModel { redexes: n.redexes.push(Redex { left, right }), ..n }
}

pub open spec fn debug_m(n: NetModel, id: CellId, text: Seq<char>) -> NetModel {
    NetModel { debug: n.debug.insert(id, text), ..n }
}

pub open spec fn with_net(st: CgState, n: NetModel) -> CgState {
    CgState { net: n, ..st }
}

/// The operator a binary token compiles to; any other token adds.
pub open spec fn map_op(t: TokenV) -> OpKind {
    match t {
        TokenV::Plus => OpKind::Add,
        TokenV::Minus => OpKind::Sub,
        TokenV::Star => OpKind::Mul,
        TokenV::Slash => OpKind::Div,
        TokenV::EQ => OpKind::Eq,
        TokenV::NE => OpKind::Ne,
        TokenV::LT => OpKind::Lt,
        TokenV::LE => OpKind::Le,
        TokenV::GT => OpKind::Gt,
        TokenV::GE => OpKind::Ge,
        _ => OpKind::Add,
    }
}

/// A number cell.
pub open spec fn cg_int(st: CgState, v: i64) -> Option<(CgState, Port)> {
    match alloc_m(st.net, CellKind::Num(v)) {
        Some((n, id)) => Some((with_net(st, n), Port::Principal(id))),
        None => None,
    }
}

/// The cell that a port belongs to, or `dflt` for an interface port.
pub open spec fn port_cell(p: Port, dflt: CellId) -> CellId {
    match p {
        Port::Principal(id) => id,
        Port::Aux(id, _) => id,
        Port::Free(_) => dflt,
    }
}

/// An operator cell with inputs `a` and `b`, recorded as a redex with the
/// cell of `a`.
pub open spec fn cg_binop(st: CgState, k: OpKind, a: Port, b: Port) -> Option<(CgState, Port)> {
    match alloc_m(st.net, CellKind::Op(k)) {
        Some((n1, op)) => {
            let n2 = connect_m(n1, Port::Aux(op, 0), a);
            let n3 = connect_m(n2, Port::Aux(op, 1), b);
            Some((with_net(st, redex_m(n3, op, port_cell(a, op))), Port::Principal(op)))
        },
        None => None,
    }
}

/// A number cell, with the bindings unchanged.
pub open spec fn cg_int_env(st: CgState, env: EnvV, v: i64) -> Option<(CgState, EnvV, Port)> {
    match cg_int(st, v) {
        Some((s1, p)) => Some((s1, env, p)),
        None => None,
    }
}

pub open spec fn cg_expr(
    st: CgState,
    e: ExprV,
    env: EnvV,
    fv: spec_fn(Seq<char>) -> i64,
    f: nat,
) -> Option<(CgState, EnvV, Port)>
    decreases f,
{
    if f == 0 {
        None
    } else {
        let g = (f - 1) as nat;
        match e {
            ExprV::Number(n) => cg_int_env(st, env, n as i64),
            ExprV::Floating(s) => cg_int_env(st, env, fv(s)),
            ExprV::Boolean(b) => cg_int_env(st, env, if b { 1 } else { 0 }),
            ExprV::String(_) => cg_int_env(st, env, 0),
            ExprV::Ident(name) => match assoc_get(env, name) {
                Some(p) => Some((st, env, p)),
                None => None,
            },
            ExprV::Unary { op, expr } => if op == TokenV::Minus {
                match cg_int(st, 0) {
                    Some((s1, zero)) => match cg_expr(s1, *expr, env, fv, g) {
                        Some((s2, env2, rhs)) => match cg_binop(s2, OpKind::Sub, zero, rhs) {
                            Some((s3, p)) => Some((s3, env2, p)),
                            None => None,
                        },
                        None => None,
                    },
                    None => None,
                }
            } else {
                cg_expr(st, *expr, env, fv, g)
            },
            ExprV::Binary { left, op, right } => match cg_expr(st, *left, env, fv, g) {
                Some((s1, env1, a)) => match cg_expr(s1, *right, env1, fv, g) {
                    Some((s2, env2, b)) => match cg_binop(s2, map_op(op), a, b) {
                        Some((s3, p)) => Some((s3, env2, p)),
                        None => None,
                    },
                    None => None,
                },
                None => None,
            },
            ExprV::Assignment { name, value } => match cg_expr(st, *value, env, fv, g) {
                Some((s1, env1, p)) => Some((s1, env1.push((name, p)), p)),
                None => None,
            },
            ExprV::Grouping(inner) => cg_expr(st, *inner, env, fv, g),
            ExprV::FunctionCall { callee, arguments } => cg_call(st, *callee, arguments, env, fv, g),
            ExprV::Return(inner) => cg_expr(st, *inner, env, fv, g),
            ExprV::Range { .. } => cg_int_env(st, env, 0),
        }
    }
}

/// A call: of a defined function by name, or else the callee and then the
/// first argument (or the number 0) in its place.
pub open spec fn cg_call(
    st: CgState,
    callee: ExprV,
    args: Seq<ExprV>,
    env: EnvV,
    fv: spec_fn(Seq<char>) -> i64,
    f: nat,
) -> Option<(CgState, EnvV, Port)>
    decreases f,
{
    if f == 0 {
        None
    } else {
        let g = (f - 1) as nat;
        let named = match callee {
            ExprV::Ident(name) => assoc_get(st.funs, name),
            _ => None,
        };
        match named {
            Some(fun) => cg_named_call(st, callee->Ident_0, fun, args, env, fv, g),
            None => match cg_expr(st, callee, env, fv, g) {
                Some((s1, env1, _)) => if args.len() > 0 {
                    cg_expr(s1, args[0], env1, fv, g)
                } else {
                    cg_int_env(s1, env1, 0)
                },
                None => None,
            },
        }
    }
}

/// The arguments after the first of a named call, bound to the parameters
/// after the first, from index `i` on: the compiler state, the caller's
/// bindings and the callee's bindings.
pub open spec fn cg_rest_args(
    st: CgState,
    params: Seq<Seq<char>>,
    args: Seq<ExprV>,
    i: nat,
    env: EnvV,
    fn_env: EnvV,
    fv: spec_fn(Seq<char>) -> i64,
    f: nat,
) -> Option<(CgState, EnvV, EnvV)>
    decreases f,
{
    if f == 0 {
        None
    } else if i >= params.len() || i >= args.len() {
        Some((st, env, fn_env))
    } else {
        match cg_expr(st, args[i as int], env, fv, (f - 1) as nat) {
            Some((s1, env1, p)) => cg_rest_args(
                s1,
                params,
                args,
                i + 1,
                env1,
                fn_env.push((params[i as int], p)),
                fv,
                (f - 1) as nat,
            ),
            None => None,
        }
    }
}

/// A call of a defined function: an application cell meets a cell for the
/// function, the first argument is wired to the application, the body is
/// compiled with the parameters bound to the arguments, and the result is
/// read through the application's second auxiliary port.
pub open spec fn cg_named_call(
    st: CgState,
    name: Seq<char>,
    fun: FunV,
    args: Seq<ExprV>,
    env: EnvV,
    fv: spec_fn(Seq<char>) -> i64,
    f: nat,
) -> Option<(CgState, EnvV, Port)>
    decreases f,
{
    if f == 0 {
        None
    } else {
        let g = (f - 1) as nat;
        let params = fun.0;
        match alloc_m(st.net, CellKind::Con) {
            None => None,
            Some((n1, app)) => match alloc_m(n1, CellKind::Con) {
                None => None,
                Some((n2, fcell)) => {
                    let n3 = debug_m(debug_m(n2, app, "fn-call:"@ + name), fcell, "fn:"@ + name);
                    let n4 = redex_m(connect_m(n3, Port::Principal(app), Port::Principal(fcell)), app, fcell);
                    let s4 = with_net(st, n4);
                    let first = if args.len() > 0 {
                        match cg_expr(s4, args[0], env, fv, g) {
                            Some((s5, env5, ap)) => Some((
                                with_net(s5, connect_m(s5.net, Port::Aux(app, 0), ap)),
                                env5,
                                if params.len() > 0 {
                                    env.push((params[0], ap))
                                } else {
                                    env
                                },
                            )),
                            None => None,
                        }
                    } else {
                        Some((s4, env, env))
                    };
                    match first {
                        None => None,
                        Some((s6, env6, fn_env6)) => match cg_rest_args(s6, fun.0, args, 1, env6, fn_env6, fv, g) {
                            None => None,
                            Some((s7, env7, fn_env7)) => match cg_stmt(s7, fun.1, fn_env7, fv, g) {
                                None => None,
                                Some((s8, _, r)) => {
                                    let body = match r {
                                        Some(p) => Some((s8, p)),
                                        None => cg_int(s8, 0),
                                    };
                                    match body {
                                        None => None,
                                        Some((s9, bp)) => Some((
                                            with_net(s9, connect_m(s9.net, Port::Aux(app, 1), bp)),
                                            env7,
                                            Port::Aux(app, 1),
                                        )),
                                    }
                                },
                            },
                        },
                    }
                },
            },
        }
    }
}

/// The rest of a call of a defined function once the first argument is
/// bound: the remaining arguments from index `i` on (with fuel `h`), then the
/// body (with fuel `g`), whose result is wired to the application cell.
pub open spec fn cg_call_tail(
    st: CgState,
    app: CellId,
    fun: FunV,
    args: Seq<ExprV>,
    i: nat,
    env: EnvV,
    fn_env: EnvV,
    fv: spec_fn(Seq<char>) -> i64,
    h: nat,
    g: nat,
) -> Option<(CgState, EnvV, Port)> {
    match cg_rest_args(st, fun.0, args, i, env, fn_env, fv, h) {
        None => None,
        Some((s7, env7, fn_env7)) => match cg_stmt(s7, fun.1, fn_env7, fv, g) {
            None => None,
            Some((s8, _, r)) => {
                let body = match r {
                    Some(p) => Some((s8, p)),
                    None => cg_int(s8, 0),
                };
                match body {
                    None => None,
                    Some((s9, bp)) => Some((
                        with_net(s9, connect_m(s9.net, Port::Aux(app, 1), bp)),
                        env7,
                        Port::Aux(app, 1),
                    )),
                }
            },
        },
    }
}

/// A statement: the state, the bindings after it, and the port of its
/// value if it has one.
pub open spec fn cg_stmt(
    st: CgState,
    s: StmtV,
    env: EnvV,
    fv: spec_fn(Seq<char>) -> i64,
    f: nat,
) -> Option<(CgState, EnvV, Option<Port>)>
    decreases f,
{
    if f == 0 {
        None
    } else {
        let g = (f - 1) as nat;
        match s {
            StmtV::Let { name, value, .. } => match cg_expr(st, value, env, fv, g) {
                Some((s1, env1, p)) => Some((s1, env1.push((name, p)), Some(p))),
                None => None,
            },
            StmtV::ExprStmt(e) => match cg_expr(st, e, env, fv, g) {
                Some((s1, env1, p)) => Some((s1, env1, Some(p))),
                None => None,
            },
            StmtV::Block(ss) => match cg_stmts(st, ss, 0, env, None, fv, g) {
                Some((s1, _, p)) => Some((s1, env, Some(p))),
                None => None,
            },
            StmtV::FunctionDef { name, params, body, .. } => {
                let funs = st.funs.push((name, (param_names(params), *body)));
                match alloc_m(st.net, CellKind::Con) {
                    Some((n1, id)) => Some((
                        CgState { net: debug_m(n1, id, "fn-definition:"@ + name), funs },
                        env,
                        None,
                    )),
                    None => None,
                }
            },
            StmtV::Return(e) => match cg_expr(st, e, env, fv, g) {
                Some((s1, env1, p)) => Some((s1, env1, Some(p))),
                None => None,
            },
            StmtV::IfStmt { then_branch, .. } => cg_stmt(st, *then_branch, env, fv, g),
            StmtV::For { body, .. } => cg_stmt(st, *body, env, fv, g),
            StmtV::Parallel { body, .. } => cg_stmt(st, *body, env, fv, g),
            StmtV::Branch { body, .. } => cg_stmt(st, *body, env, fv, g),
            StmtV::Fallback(body) => cg_stmt(st, *body, env, fv, g),
        }
    }
}

/// Statements from index `i` on, given the port of the last value so far:
/// the port of the last value overall, or a number cell 0 if none has one.
pub open spec fn cg_stmts(
    st: CgState,
    ss: Seq<StmtV>,
    i: nat,
    env: EnvV,
    last: Option<Port>,
    fv: spec_fn(Seq<char>) -> i64,
    f: nat,
) -> Option<(CgState, EnvV, Port)>
    decreases f,
{
    if f == 0 {
        None
    } else if i >= ss.len() {
        match last {
            Some(p) => Some((st, env, p)),
            None => cg_int_env(st, env, 0),
        }
    } else {
        match cg_stmt(st, ss[i as int], env, fv, (f - 1) as nat) {
            Some((s1, env1, r)) => cg_stmts(
                s1,
                ss,
                i + 1,
                env1,
                if r is Some {
                    r
                } else {
                    last
                },
                fv,
                (f - 1) as nat,
            ),
            None => None,
        }
    }
}

/// A whole program: its statements with no bindings, and the port of the
/// result made the net's root.
pub open spec fn cg_program(
    st: CgState,
    program: Seq<StmtV>,
    fv: spec_fn(Seq<char>) -> i64,
    f: nat,
) -> Option<(CgState, Port)> {
    match cg_stmts(st, program, 0, Seq::empty(), None, fv, f) {
        Some((s1, _, p)) => {
            let iface = if s1.net.iface.len() == 0 {
                s1.net.iface.push(p)
            } else {
                s1.net.iface.update(0, p)
            };
            Some((with_net(s1, NetModel { iface, ..s1.net }), p))
        },
        None => None,
    }
}

/// Compiling the program from this state returns: some fuel suffices.
pub open spec fn compiles(st: CgState, program: Seq<StmtV>, fv: spec_fn(Seq<char>) -> i64) -> bool {
    exists|f: nat| #[trigger] cg_program(st, program, fv, f) is Some
}

/// The state after compiling the program, and the port of its result.
pub open spec fn compiled(st: CgState, program: Seq<StmtV>, fv: spec_fn(Seq<char>) -> i64) -> (CgState, Port) {
    cg_program(st, program, fv, choose|f: nat| #[trigger] cg_program(st, program, fv, f) is Some)->0
}

/// Compiling the expression from this state returns.
pub open spec fn expr_compiles(st: CgState, e: ExprV, env: EnvV, fv: spec_fn(Seq<char>) -> i64) -> bool {
    exists|f: nat| #[trigger] cg_expr(st, e, env, fv, f) is Some
}

/// The state after compiling the expression, the bindings after it, and
/// the port of its value.
pub open spec fn expr_compiled(st: CgState, e: ExprV, env: EnvV, fv: spec_fn(Seq<char>) -> i64) -> (CgState, EnvV, Port) {
    cg_expr(st, e, env, fv, choose|f: nat| #[trigger] cg_expr(st, e, env, fv, f) is Some)->0
}

} // verus!
