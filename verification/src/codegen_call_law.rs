//! What a compiled program computes when it calls the functions it defines.
//!
//! The compiler inlines a call of a defined function: an application cell,
//! whose second auxiliary port is wired to the body's result, stands for the
//! call, and the call's value is read through that port.  Wiring that port
//! again, as an operand, as the first argument of a call, or as the result of
//! a body, rewires the application cell, and the reducer then loops.  So the
//! values below carry whether they are read through an application cell, and
//! a program computes a value only where no such value is wired again.
//! Calls are unfolded as far as the compiler unfolds them: the value
//! functions take the same fuel as the compiler's.
use crate::ast::{ExprV, StmtV};
use crate::codegen_law::{
    ids_below, keeps, kept_cell, lemma_alloc, lemma_cg_binop, lemma_cg_int, lemma_keeps_refl,
    lemma_keeps_trans, lemma_pure_eval, lemma_pure_val_kept, pure_val, env_ok,
};
use crate::codegen_spec::{
    alloc_m, assoc_get, cg_binop, cg_call, cg_expr, cg_int, cg_named_call, cg_program,
    cg_rest_args, cg_stmt, cg_stmts, compiled, compiles, connect_m, debug_m, map_op, param_names,
    redex_m, with_net, CgState, EnvV, FunV,
};
use crate::ir::{spec_set_port, Cell, CellId, CellKind, Net, OpKind, Port};
use crate::token::TokenV;
use crate::vice::{eval_port_spec, lemma_port_monotone, net_value, op_result, reduces};
use vstd::prelude::*;

verus! {

/// A value as the compiled net holds it: the number, and whether it is read
/// through the application cell of a call.
pub type CVal = (i64, bool);

/// Values bound to names: the latest binding of a name is the one in force.
pub type CEnv = Seq<(Seq<char>, CVal)>;

/// The functions defined so far: the latest definition of a name is the one
/// in force.
pub type Funs = Seq<(Seq<char>, FunV)>;

/// A value read from a cell of its own.
pub open spec fn plain(v: i64) -> CVal {
    (v, false)
}

/// The value of an expression, the bindings and the functions after it;
/// `None` for an unbound name, an operator that overflows, a call's value
/// wired again, or fuel that runs out.
pub open spec fn cv_expr(e: ExprV, venv: CEnv, funs: Funs, fv: spec_fn(Seq<char>) -> i64, f: nat) -> Option<
    (CVal, CEnv, Funs),
>
    decreases f,
{
    if f == 0 {
        None
    } else {
        let g = (f - 1) as nat;
        match e {
            ExprV::Number(n) => Some((plain(n as i64), venv, funs)),
            ExprV::Floating(s) => Some((plain(fv(s)), venv, funs)),
            ExprV::Boolean(b) => Some((plain(if b { 1 } else { 0 }), venv, funs)),
            ExprV::String(_) => Some((plain(0), venv, funs)),
            ExprV::Ident(name) => match assoc_get(venv, name) {
                Some(v) => Some((v, venv, funs)),
                None => None,
            },
            ExprV::Unary { op, expr } => if op == TokenV::Minus {
                match cv_expr(*expr, venv, funs, fv, g) {
                    Some((v, venv1, funs1)) => if v.1 {
                        None
                    } else {
                        match op_result(OpKind::Sub, 0, v.0) {
                            Some(r) => Some((plain(r), venv1, funs1)),
                            None => None,
                        }
                    },
                    None => None,
                }
            } else {
                cv_expr(*expr, venv, funs, fv, g)
            },
            ExprV::Binary { left, op, right } => match cv_expr(*left, venv, funs, fv, g) {
                Some((a, venv1, funs1)) => match cv_expr(*right, venv1, funs1, fv, g) {
                    Some((b, venv2, funs2)) => if a.1 || b.1 {
                        None
                    } else {
                        match op_result(map_op(op), a.0, b.0) {
                            Some(r) => Some((plain(r), venv2, funs2)),
                            None => None,
                        }
                    },
                    None => None,
                },
                None => None,
            },
            ExprV::Assignment { name, value } => match cv_expr(*value, venv, funs, fv, g) {
                Some((v, venv1, funs1)) => Some((v, venv1.push((name, v)), funs1)),
                None => None,
            },
            ExprV::Grouping(inner) => cv_expr(*inner, venv, funs, fv, g),
            ExprV::FunctionCall { callee, arguments } => cv_call(*callee, arguments, venv, funs, fv, g),
            ExprV::Return(inner) => cv_expr(*inner, venv, funs, fv, g),
            ExprV::Range { .. } => Some((plain(0), venv, funs)),
        }
    }
}

/// A call: of a defined function by name, or else the value of the first
/// argument (or 0), after the callee.
pub open spec fn cv_call(
    callee: ExprV,
    args: Seq<ExprV>,
    venv: CEnv,
    funs: Funs,
    fv: spec_fn(Seq<char>) -> i64,
    f: nat,
) -> Option<(CVal, CEnv, Funs)>
    decreases f,
{
    if f == 0 {
        None
    } else {
        let g = (f - 1) as nat;
        let named = match callee {
            ExprV::Ident(name) => assoc_get(funs, name),
            _ => None,
        };
        match named {
            Some(fun) => cv_named_call(fun, args, venv, funs, fv, g),
            None => match cv_expr(callee, venv, funs, fv, g) {
                Some((_, venv1, funs1)) => if args.len() > 0 {
                    cv_expr(args[0], venv1, funs1, fv, g)
                } else {
                    Some((plain(0), venv1, funs1))
                },
                None => None,
            },
        }
    }
}

/// The arguments after the first of a call, bound to the parameters after
/// the first, from index `i` on: the caller's bindings, the callee's
/// bindings and the functions.
pub open spec fn cv_rest_args(
    params: Seq<Seq<char>>,
    args: Seq<ExprV>,
    i: nat,
    venv: CEnv,
    fn_venv: CEnv,
    funs: Funs,
    fv: spec_fn(Seq<char>) -> i64,
    f: nat,
) -> Option<(CEnv, CEnv, Funs)>
    decreases f,
{
    if f == 0 {
        None
    } else if i >= params.len() || i >= args.len() {
        Some((venv, fn_venv, funs))
    } else {
        match cv_expr(args[i as int], venv, funs, fv, (f - 1) as nat) {
            Some((v, venv1, funs1)) => cv_rest_args(
                params,
                args,
                i + 1,
                venv1,
                fn_venv.push((params[i as int], v)),
                funs1,
                fv,
                (f - 1) as nat,
            ),
            None => None,
        }
    }
}

/// A call of a defined function: the body's value (0 if it has none), with
/// the caller's bindings and the parameters bound to the arguments; it is
/// read through the call's application cell.  The first argument and the
/// body's value are wired, so neither may itself be read through one.
pub open spec fn cv_named_call(
    fun: FunV,
    args: Seq<ExprV>,
    venv: CEnv,
    funs: Funs,
    fv: spec_fn(Seq<char>) -> i64,
    f: nat,
) -> Option<(CVal, CEnv, Funs)>
    decreases f,
{
    if f == 0 {
        None
    } else {
        let g = (f - 1) as nat;
        let params = fun.0;
        let first = if args.len() > 0 {
            match cv_expr(args[0], venv, funs, fv, g) {
                Some((a, venv5, funs5)) => if a.1 {
                    None
                } else {
                    Some((
                        venv5,
                        if params.len() > 0 {
                            venv.push((params[0], a))
                        } else {
                            venv
                        },
                        funs5,
                    ))
                },
                None => None,
            }
        } else {
            Some((venv, venv, funs))
        };
        match first {
            None => None,
            Some((venv6, fn_venv6, funs6)) => match cv_rest_args(params, args, 1, venv6, fn_venv6, funs6, fv, g) {
                None => None,
                Some((venv7, fn_venv7, funs7)) => match cv_stmt(fun.1, fn_venv7, funs7, fv, g) {
                    None => None,
                    Some((_, r, funs8)) => {
                        let body = match r {
                            Some(v) => v,
                            None => plain(0),
                        };
                        if body.1 {
                            None
                        } else {
                            Some(((body.0, true), venv7, funs8))
                        }
                    },
                },
            },
        }
    }
}

/// A statement: the bindings after it, its value if it has one, and the
/// functions after it.  An `if` is read by its first branch, a loop, a
/// `branch` or a `fallback` by its body, a block by its last value.
pub open spec fn cv_stmt(s: StmtV, venv: CEnv, funs: Funs, fv: spec_fn(Seq<char>) -> i64, f: nat) -> Option<
    (CEnv, Option<CVal>, Funs),
>
    decreases f,
{
    if f == 0 {
        None
    } else {
        let g = (f - 1) as nat;
        match s {
            StmtV::Let { name, value, .. } => match cv_expr(value, venv, funs, fv, g) {
                Some((v, venv1, funs1)) => Some((venv1.push((name, v)), Some(v), funs1)),
                None => None,
            },
            StmtV::ExprStmt(e) => match cv_expr(e, venv, funs, fv, g) {
                Some((v, venv1, funs1)) => Some((venv1, Some(v), funs1)),
                None => None,
            },
            StmtV::Block(ss) => match cv_stmts(ss, 0, venv, None, funs, fv, g) {
                Some((_, v, funs1)) => Some((venv, Some(v), funs1)),
                None => None,
            },
            StmtV::FunctionDef { name, params, body, .. } => Some(
                (venv, None, funs.push((name, (param_names(params), *body)))),
            ),
            StmtV::Return(e) => match cv_expr(e, venv, funs, fv, g) {
                Some((v, venv1, funs1)) => Some((venv1, Some(v), funs1)),
                None => None,
            },
            StmtV::IfStmt { then_branch, .. } => cv_stmt(*then_branch, venv, funs, fv, g),
            StmtV::For { body, .. } => cv_stmt(*body, venv, funs, fv, g),
            StmtV::Parallel { body, .. } => cv_stmt(*body, venv, funs, fv, g),
            StmtV::Branch { body, .. } => cv_stmt(*body, venv, funs, fv, g),
            StmtV::Fallback(body) => cv_stmt(*body, venv, funs, fv, g),
        }
    }
}

/// The statements from index `i` on, given the last value so far: the
/// bindings after them, the last value overall (0 if none has one), and the
/// functions after them.
pub open spec fn cv_stmts(
    ss: Seq<StmtV>,
    i: nat,
    venv: CEnv,
    last: Option<CVal>,
    funs: Funs,
    fv: spec_fn(Seq<char>) -> i64,
    f: nat,
) -> Option<(CEnv, CVal, Funs)>
    decreases f,
{
    if f == 0 {
        None
    } else if i >= ss.len() {
        Some((
            venv,
            match last {
                Some(v) => v,
                None => plain(0),
            },
            funs,
        ))
    } else {
        match cv_stmt(ss[i as int], venv, funs, fv, (f - 1) as nat) {
            Some((venv1, r, funs1)) => cv_stmts(
                ss,
                i + 1,
                venv1,
                if r is Some {
                    r
                } else {
                    last
                },
                funs1,
                fv,
                (f - 1) as nat,
            ),
            None => None,
        }
    }
}

/// The value of a program compiled from state `st`: its statements with no
/// bindings and the functions of `st`, calls unfolded as far as the compiler
/// unfolds them.
pub open spec fn compiled_value(st: CgState, program: Seq<StmtV>, fv: spec_fn(Seq<char>) -> i64) -> Option<i64> {
    let f = choose|f: nat| #[trigger] cg_program(st, program, fv, f) is Some;
    match cv_stmts(program, 0, Seq::empty(), None, st.funs, fv, f) {
        Some((_, v, _)) => Some(v.0),
        None => None,
    }
}

/// The value read through application cell `app`: that of the cell its
/// second auxiliary port is wired to.
pub open spec fn call_val(cells: Map<CellId, Cell>, app: CellId) -> Option<i64> {
    if cells.contains_key(app) && cells[app].kind == CellKind::Con {
        match cells[app].ports[2] {
            Some(Port::Principal(b)) => pure_val(cells, b),
            _ => None,
        }
    } else {
        None
    }
}

/// Port `p` holds value `v`: the principal port of a cell with that value,
/// or, for a call's value, the second auxiliary port of its application
/// cell.
pub open spec fn cport_ok(cells: Map<CellId, Cell>, p: Port, v: CVal) -> bool {
    if v.1 {
        match p {
            Port::Aux(app, k) => k == 1 && call_val(cells, app) == Some(v.0),
            _ => false,
        }
    } else {
        match p {
            Port::Principal(id) => pure_val(cells, id) == Some(v.0),
            _ => false,
        }
    }
}

/// The bindings of ports and of values agree: the same names in the same
/// order, each port holding the bound value.
pub open spec fn cenv_ok(cells: Map<CellId, Cell>, env: EnvV, venv: CEnv) -> bool {
    &&& env.len() == venv.len()
    &&& forall|i: int| 0 <= i < env.len() ==> (#[trigger] env[i]).0 == venv[i].0 && cport_ok(cells, env[i].1, venv[i].1)
}

/// `c2` keeps every cell of `c1` with its kind, an operator cell with its
/// inputs, and a constructor cell with its second auxiliary port once that
/// is wired.
pub open spec fn keeps_wired(c1: Map<CellId, Cell>, c2: Map<CellId, Cell>) -> bool {
    forall|k: CellId| #[trigger] c1.contains_key(k) ==> wired_kept(c1[k], c2, k)
}

pub open spec fn wired_kept(c: Cell, c2: Map<CellId, Cell>, k: CellId) -> bool {
    &&& c2.contains_key(k)
    &&& c2[k].kind == c.kind
    &&& (c.kind is Op ==> c2[k].ports[1] == c.ports[1] && c2[k].ports[2] == c.ports[2])
    &&& (c.kind is Con && c.ports[2] is Some ==> c2[k].ports[2] == c.ports[2])
}

proof fn lemma_keeps_wired(c1: Map<CellId, Cell>, c2: Map<CellId, Cell>)
    requires
        keeps(c1, c2),
    ensures
        keeps_wired(c1, c2),
{
    assert forall|k: CellId| #[trigger] c1.contains_key(k) implies wired_kept(c1[k], c2, k) by {
        assert(kept_cell(c1[k], c2, k));
    }
}

proof fn lemma_pure_val_wired(c1: Map<CellId, Cell>, c2: Map<CellId, Cell>, id: CellId)
    requires
        keeps_wired(c1, c2),
        pure_val(c1, id) is Some,
    ensures
        pure_val(c2, id) == pure_val(c1, id),
    decreases id,
{
    assert(c1.contains_key(id));
    assert(wired_kept(c1[id], c2, id));
    match c1[id].kind {
        CellKind::Op(k) => {
            match (c1[id].ports[1], c1[id].ports[2]) {
                (Some(Port::Principal(a)), Some(Port::Principal(b))) => {
                    lemma_pure_val_wired(c1, c2, a);
                    lemma_pure_val_wired(c1, c2, b);
                },
                _ => {},
            }
        },
        _ => {},
    }
}

proof fn lemma_cport_kept(c1: Map<CellId, Cell>, c2: Map<CellId, Cell>, p: Port, v: CVal)
    requires
        keeps_wired(c1, c2),
        cport_ok(c1, p, v),
    ensures
        cport_ok(c2, p, v),
{
    if v.1 {
        let app = p->Aux_0;
        assert(wired_kept(c1[app], c2, app));
        let b = c1[app].ports[2]->0->Principal_0;
        lemma_pure_val_wired(c1, c2, b);
    } else {
        lemma_pure_val_wired(c1, c2, p->Principal_0);
    }
}

proof fn lemma_cenv_kept(c1: Map<CellId, Cell>, c2: Map<CellId, Cell>, env: EnvV, venv: CEnv)
    requires
        keeps_wired(c1, c2),
        cenv_ok(c1, env, venv),
    ensures
        cenv_ok(c2, env, venv),
{
    assert forall|i: int| 0 <= i < env.len() implies (#[trigger] env[i]).0 == venv[i].0 && cport_ok(
        c2,
        env[i].1,
        venv[i].1,
    ) by {
        lemma_cport_kept(c1, c2, env[i].1, venv[i].1);
    }
}

proof fn lemma_cenv_keeps(c1: Map<CellId, Cell>, c2: Map<CellId, Cell>, env: EnvV, venv: CEnv)
    requires
        keeps(c1, c2),
        cenv_ok(c1, env, venv),
    ensures
        cenv_ok(c2, env, venv),
{
    lemma_keeps_wired(c1, c2);
    lemma_cenv_kept(c1, c2, env, venv);
}

proof fn lemma_cenv_push(cells: Map<CellId, Cell>, env: EnvV, venv: CEnv, name: Seq<char>, p: Port, v: CVal)
    requires
        cenv_ok(cells, env, venv),
        cport_ok(cells, p, v),
    ensures
        cenv_ok(cells, env.push((name, p)), venv.push((name, v))),
{
    let e2 = env.push((name, p));
    let v2 = venv.push((name, v));
    assert forall|i: int| 0 <= i < e2.len() implies (#[trigger] e2[i]).0 == v2[i].0 && cport_ok(
        cells,
        e2[i].1,
        v2[i].1,
    ) by {
        if i < env.len() {
            assert(e2[i] == env[i]);
        }
    }
}

proof fn lemma_cenv_get(cells: Map<CellId, Cell>, env: EnvV, venv: CEnv, name: Seq<char>)
    requires
        cenv_ok(cells, env, venv),
    ensures
        assoc_get(env, name) is Some <==> assoc_get(venv, name) is Some,
        assoc_get(venv, name) is Some ==> cport_ok(cells, assoc_get(env, name)->0, assoc_get(venv, name)->0),
    decreases env.len(),
{
    if env.len() > 0 {
        let last = (env.len() - 1) as int;
        assert(env[last].0 == venv[last].0);
        if env.last().0 != name {
            assert(cenv_ok(cells, env.drop_last(), venv.drop_last())) by {
                assert forall|i: int| 0 <= i < env.drop_last().len() implies (#[trigger] env.drop_last()[i]).0
                    == venv.drop_last()[i].0 && cport_ok(cells, env.drop_last()[i].1, venv.drop_last()[i].1) by {
                    assert(env.drop_last()[i] == env[i]);
                    assert(venv.drop_last()[i] == venv[i]);
                }
            }
            lemma_cenv_get(cells, env.drop_last(), venv.drop_last(), name);
        }
    }
}

/// A port whose slot no cell of `c0` guards: a principal port, an auxiliary
/// port of a cell that `c0` lacks, or the first auxiliary port of a
/// constructor.
pub open spec fn slot_free(c0: Map<CellId, Cell>, p: Port) -> bool {
    match p {
        Port::Principal(_) => true,
        Port::Aux(id, idx) => !c0.contains_key(id) || (c0[id].kind is Con && idx == 0),
        Port::Free(_) => true,
    }
}

proof fn lemma_set_keeps(c0: Map<CellId, Cell>, c: Map<CellId, Cell>, a: Port, b: Port)
    requires
        keeps(c0, c),
        slot_free(c0, a),
    ensures
        keeps(c0, spec_set_port(c, a, b)),
{
    let c2 = spec_set_port(c, a, b);
    assert forall|k: CellId| #[trigger] c0.contains_key(k) implies kept_cell(c0[k], c2, k) by {
        assert(kept_cell(c0[k], c, k));
    }
}

proof fn lemma_connect_keeps(c0: Map<CellId, Cell>, c: Map<CellId, Cell>, a: Port, b: Port)
    requires
        keeps(c0, c),
        slot_free(c0, a),
        slot_free(c0, b),
    ensures
        keeps(c0, spec_set_port(spec_set_port(c, a, b), b, a)),
{
    lemma_set_keeps(c0, c, a, b);
    lemma_set_keeps(c0, spec_set_port(c, a, b), b, a);
}

/// Wiring the result of a body to the second auxiliary port of an
/// application cell whose port was free.
proof fn lemma_wire_result(c: Map<CellId, Cell>, app: CellId, b: CellId)
    requires
        c.contains_key(app),
        c[app].kind == CellKind::Con,
        c[app].ports[2] is None,
        pure_val(c, b) is Some,
    ensures
        ({
            let c2 = spec_set_port(spec_set_port(c, Port::Aux(app, 1), Port::Principal(b)), Port::Principal(b), Port::Aux(app, 1));
            &&& keeps_wired(c, c2)
            &&& c2.dom() == c.dom()
            &&& call_val(c2, app) == pure_val(c, b)
        }),
{
    let c1 = spec_set_port(c, Port::Aux(app, 1), Port::Principal(b));
    let c2 = spec_set_port(c1, Port::Principal(b), Port::Aux(app, 1));
    assert(c.contains_key(b));
    assert(b != app);
    assert forall|k: CellId| #[trigger] c.contains_key(k) implies wired_kept(c[k], c2, k) by {}
    assert(c2.dom() =~= c.dom());
    assert(c2[app].ports[2] == Some(Port::Principal(b)));
    lemma_pure_val_wired(c, c2, b);
}

/// The outcome of compiling something whose value has a port: the cells
/// are kept, the bindings keep agreeing, the port holds the value, and the
/// functions are the same on both sides.
pub open spec fn result_ok(
    st: CgState,
    s2: CgState,
    env2: EnvV,
    venv2: CEnv,
    p: Port,
    v: CVal,
    funs2: Funs,
) -> bool {
    &&& ids_below(s2.net)
    &&& keeps(st.net.cells, s2.net.cells)
    &&& cenv_ok(s2.net.cells, env2, venv2)
    &&& cport_ok(s2.net.cells, p, v)
    &&& s2.net.iface == st.net.iface
    &&& s2.funs == funs2
}

proof fn lemma_int_c(st: CgState, env: EnvV, venv: CEnv, v: i64)
    requires
        ids_below(st.net),
        cenv_ok(st.net.cells, env, venv),
        cg_int(st, v) is Some,
    ensures
        ({
            let (s2, p) = cg_int(st, v)->0;
            result_ok(st, s2, env, venv, p, plain(v), st.funs)
        }),
{
    assert(env_ok(st.net.cells, Seq::empty(), Seq::empty()));
    lemma_cg_int(st, Seq::empty(), Seq::empty(), v);
    let (s2, p) = cg_int(st, v)->0;
    lemma_cenv_keeps(st.net.cells, s2.net.cells, env, venv);
}

proof fn lemma_binop_c(st: CgState, env: EnvV, venv: CEnv, k: OpKind, x: CellId, y: CellId, vx: i64, vy: i64)
    requires
        ids_below(st.net),
        cenv_ok(st.net.cells, env, venv),
        pure_val(st.net.cells, x) == Some(vx),
        pure_val(st.net.cells, y) == Some(vy),
        op_result(k, vx, vy) is Some,
        cg_binop(st, k, Port::Principal(x), Port::Principal(y)) is Some,
    ensures
        ({
            let (s2, p) = cg_binop(st, k, Port::Principal(x), Port::Principal(y))->0;
            result_ok(st, s2, env, venv, p, plain(op_result(k, vx, vy)->0), st.funs)
        }),
{
    assert(env_ok(st.net.cells, Seq::empty(), Seq::empty()));
    lemma_cg_binop(st, Seq::empty(), Seq::empty(), k, x, y, vx, vy);
    let (s2, p) = cg_binop(st, k, Port::Principal(x), Port::Principal(y))->0;
    lemma_cenv_keeps(st.net.cells, s2.net.cells, env, venv);
}

/// Chaining two outcomes: what the first step kept, the second keeps too.
proof fn lemma_chain(a: CgState, b: CgState, c: CgState)
    requires
        keeps(a.net.cells, b.net.cells),
        keeps(b.net.cells, c.net.cells),
    ensures
        keeps(a.net.cells, c.net.cells),
{
    lemma_keeps_trans(a.net.cells, b.net.cells, c.net.cells);
}

pub open spec fn cexpr_ok(st: CgState, e: ExprV, env: EnvV, venv: CEnv, fv: spec_fn(Seq<char>) -> i64, f: nat) -> bool {
    let (s2, env2, p) = cg_expr(st, e, env, fv, f)->0;
    let (v, venv2, funs2) = cv_expr(e, venv, st.funs, fv, f)->0;
    result_ok(st, s2, env2, venv2, p, v, funs2)
}

proof fn lemma_cv_expr(st: CgState, e: ExprV, env: EnvV, venv: CEnv, fv: spec_fn(Seq<char>) -> i64, f: nat)
    requires
        ids_below(st.net),
        cenv_ok(st.net.cells, env, venv),
        cg_expr(st, e, env, fv, f) is Some,
        cv_expr(e, venv, st.funs, fv, f) is Some,
    ensures
        cexpr_ok(st, e, env, venv, fv, f),
    decreases f,
{
    let g = (f - 1) as nat;
    match e {
        ExprV::Number(n) => lemma_int_c(st, env, venv, n as i64),
        ExprV::Floating(s) => lemma_int_c(st, env, venv, fv(s)),
        ExprV::Boolean(b) => lemma_int_c(st, env, venv, if b { 1 } else { 0 }),
        ExprV::String(_) => lemma_int_c(st, env, venv, 0),
        ExprV::Range { .. } => lemma_int_c(st, env, venv, 0),
        ExprV::Ident(name) => {
            lemma_cenv_get(st.net.cells, env, venv, name);
            lemma_keeps_refl(st.net.cells);
        },
        ExprV::Unary { op, expr } => {
            if op == TokenV::Minus {
                lemma_int_c(st, env, venv, 0);
                let (s1, zero) = cg_int(st, 0)->0;
                lemma_cv_expr(s1, *expr, env, venv, fv, g);
                let (s2, env2, rhs) = cg_expr(s1, *expr, env, fv, g)->0;
                let (v, venv2, funs2) = cv_expr(*expr, venv, st.funs, fv, g)->0;
                lemma_pure_val_kept(s1.net.cells, s2.net.cells, zero->Principal_0);
                lemma_binop_c(s2, env2, venv2, OpKind::Sub, zero->Principal_0, rhs->Principal_0, 0, v.0);
                let (s3, p) = cg_binop(s2, OpKind::Sub, zero, rhs)->0;
                lemma_chain(st, s1, s2);
                lemma_chain(st, s2, s3);
            } else {
                lemma_cv_expr(st, *expr, env, venv, fv, g);
            }
        },
        ExprV::Binary { left, op, right } => {
            lemma_cv_expr(st, *left, env, venv, fv, g);
            let (s1, env1, a) = cg_expr(st, *left, env, fv, g)->0;
            let (va, venv1, funs1) = cv_expr(*left, venv, st.funs, fv, g)->0;
            lemma_cv_expr(s1, *right, env1, venv1, fv, g);
            let (s2, env2, b) = cg_expr(s1, *right, env1, fv, g)->0;
            let (vb, venv2, funs2) = cv_expr(*right, venv1, funs1, fv, g)->0;
            lemma_pure_val_kept(s1.net.cells, s2.net.cells, a->Principal_0);
            lemma_binop_c(s2, env2, venv2, map_op(op), a->Principal_0, b->Principal_0, va.0, vb.0);
            let (s3, p) = cg_binop(s2, map_op(op), a, b)->0;
            lemma_chain(st, s1, s2);
            lemma_chain(st, s2, s3);
        },
        ExprV::Assignment { name, value } => {
            lemma_cv_expr(st, *value, env, venv, fv, g);
            let (s1, env1, p) = cg_expr(st, *value, env, fv, g)->0;
            let (v, venv1, funs1) = cv_expr(*value, venv, st.funs, fv, g)->0;
            lemma_cenv_push(s1.net.cells, env1, venv1, name, p, v);
        },
        ExprV::Grouping(inner) => lemma_cv_expr(st, *inner, env, venv, fv, g),
        ExprV::Return(inner) => lemma_cv_expr(st, *inner, env, venv, fv, g),
        ExprV::FunctionCall { callee, arguments } => lemma_cv_call(st, *callee, arguments, env, venv, fv, g),
    }
}

proof fn lemma_cv_call(
    st: CgState,
    callee: ExprV,
    args: Seq<ExprV>,
    env: EnvV,
    venv: CEnv,
    fv: spec_fn(Seq<char>) -> i64,
    f: nat,
)
    requires
        ids_below(st.net),
        cenv_ok(st.net.cells, env, venv),
        cg_call(st, callee, args, env, fv, f) is Some,
        cv_call(callee, args, venv, st.funs, fv, f) is Some,
    ensures
        ({
            let (s2, env2, p) = cg_call(st, callee, args, env, fv, f)->0;
            let (v, venv2, funs2) = cv_call(callee, args, venv, st.funs, fv, f)->0;
            result_ok(st, s2, env2, venv2, p, v, funs2)
        }),
    decreases f,
{
    let g = (f - 1) as nat;
    let named = match callee {
        ExprV::Ident(name) => assoc_get(st.funs, name),
        _ => None,
    };
    match named {
        Some(fun) => lemma_cv_named_call(st, callee->Ident_0, fun, args, env, venv, fv, g),
        None => {
            lemma_cv_expr(st, callee, env, venv, fv, g);
            let (s1, env1, _) = cg_expr(st, callee, env, fv, g)->0;
            let (_, venv1, funs1) = cv_expr(callee, venv, st.funs, fv, g)->0;
            if args.len() > 0 {
                lemma_cv_expr(s1, args[0], env1, venv1, fv, g);
                let (s2, _, _) = cg_expr(s1, args[0], env1, fv, g)->0;
                lemma_chain(st, s1, s2);
            } else {
                lemma_int_c(s1, env1, venv1, 0);
                let (s2, _) = cg_int(s1, 0)->0;
                lemma_chain(st, s1, s2);
            }
        },
    }
}

proof fn lemma_cv_rest_args(
    st: CgState,
    params: Seq<Seq<char>>,
    args: Seq<ExprV>,
    i: nat,
    env: EnvV,
    fn_env: EnvV,
    venv: CEnv,
    fn_venv: CEnv,
    fv: spec_fn(Seq<char>) -> i64,
    f: nat,
)
    requires
        ids_below(st.net),
        cenv_ok(st.net.cells, env, venv),
        cenv_ok(st.net.cells, fn_env, fn_venv),
        cg_rest_args(st, params, args, i, env, fn_env, fv, f) is Some,
        cv_rest_args(params, args, i, venv, fn_venv, st.funs, fv, f) is Some,
    ensures
        ({
            let (s2, env2, fn_env2) = cg_rest_args(st, params, args, i, env, fn_env, fv, f)->0;
            let (venv2, fn_venv2, funs2) = cv_rest_args(params, args, i, venv, fn_venv, st.funs, fv, f)->0;
            &&& ids_below(s2.net)
            &&& keeps(st.net.cells, s2.net.cells)
            &&& cenv_ok(s2.net.cells, env2, venv2)
            &&& cenv_ok(s2.net.cells, fn_env2, fn_venv2)
            &&& s2.net.iface == st.net.iface
            &&& s2.funs == funs2
        }),
    decreases f,
{
    if !(i >= params.len() || i >= args.len()) {
        let g = (f - 1) as nat;
        lemma_cv_expr(st, args[i as int], env, venv, fv, g);
        let (s1, env1, p) = cg_expr(st, args[i as int], env, fv, g)->0;
        let (v, venv1, funs1) = cv_expr(args[i as int], venv, st.funs, fv, g)->0;
        lemma_cenv_keeps(st.net.cells, s1.net.cells, fn_env, fn_venv);
        lemma_cenv_push(s1.net.cells, fn_env, fn_venv, params[i as int], p, v);
        lemma_cv_rest_args(
            s1,
            params,
            args,
            i + 1,
            env1,
            fn_env.push((params[i as int], p)),
            venv1,
            fn_venv.push((params[i as int], v)),
            fv,
            g,
        );
        let (s2, _, _) = cg_rest_args(s1, params, args, i + 1, env1, fn_env.push((params[i as int], p)), fv, g)->0;
        lemma_chain(st, s1, s2);
    } else {
        lemma_keeps_refl(st.net.cells);
    }
}

proof fn lemma_cv_named_call(
    st: CgState,
    name: Seq<char>,
    fun: FunV,
    args: Seq<ExprV>,
    env: EnvV,
    venv: CEnv,
    fv: spec_fn(Seq<char>) -> i64,
    f: nat,
)
    requires
        ids_below(st.net),
        cenv_ok(st.net.cells, env, venv),
        cg_named_call(st, name, fun, args, env, fv, f) is Some,
        cv_named_call(fun, args, venv, st.funs, fv, f) is Some,
    ensures
        ({
            let (s2, env2, p) = cg_named_call(st, name, fun, args, env, fv, f)->0;
            let (v, venv2, funs2) = cv_named_call(fun, args, venv, st.funs, fv, f)->0;
            result_ok(st, s2, env2, venv2, p, v, funs2)
        }),
    decreases f,
{
    let g = (f - 1) as nat;
    let params = fun.0;
    lemma_alloc(st.net, CellKind::Con);
    let (n1, app) = alloc_m(st.net, CellKind::Con)->0;
    lemma_alloc(n1, CellKind::Con);
    let (n2, fcell) = alloc_m(n1, CellKind::Con)->0;
    let n3 = debug_m(debug_m(n2, app, "fn-call:"@ + name), fcell, "fn:"@ + name);
    let n4 = redex_m(connect_m(n3, Port::Principal(app), Port::Principal(fcell)), app, fcell);
    let s4 = with_net(st, n4);
    lemma_keeps_trans(st.net.cells, n1.cells, n2.cells);
    lemma_connect_keeps(st.net.cells, n2.cells, Port::Principal(app), Port::Principal(fcell));
    assert(n4.cells == spec_set_port(
        spec_set_port(n2.cells, Port::Principal(app), Port::Principal(fcell)),
        Port::Principal(fcell),
        Port::Principal(app),
    ));
    assert(n4.cells.dom() =~= n2.cells.dom());
    assert(ids_below(n4));
    assert(n4.cells[app].kind == CellKind::Con && n4.cells[app].ports[2] is None);
    assert(!st.net.cells.contains_key(app));
    lemma_cenv_keeps(st.net.cells, n4.cells, env, venv);
    // The first argument, wired to the application cell.
    let ghost first_c = if args.len() > 0 {
        match cg_expr(s4, args[0], env, fv, g) {
            Some((s5, env5, ap)) => Some((
                with_net(s5, connect_m(s5.net, Port::Aux(app, 0), ap)),
                env5,
                if params.len() > 0 {
                    env.push((params[0], ap))
                } else {
                    env
                },
            )),
            None => None,
        }
    } else {
        Some((s4, env, env))
    };
    let ghost first_v = if args.len() > 0 {
        match cv_expr(args[0], venv, st.funs, fv, g) {
            Some((a, venv5, funs5)) => if a.1 {
                None
            } else {
                Some((
                    venv5,
                    if params.len() > 0 {
                        venv.push((params[0], a))
                    } else {
                        venv
                    },
                    funs5,
                ))
            },
            None => None,
        }
    } else {
        Some((venv, venv, st.funs))
    };
    assert(first_c is Some && first_v is Some);
    let (s6, env6, fn_env6) = first_c->0;
    let (venv6, fn_venv6, funs6) = first_v->0;
    if args.len() > 0 {
        lemma_cv_expr(s4, args[0], env, venv, fv, g);
        let (s5, env5, ap) = cg_expr(s4, args[0], env, fv, g)->0;
        let (a, venv5, funs5) = cv_expr(args[0], venv, st.funs, fv, g)->0;
        lemma_keeps_trans(st.net.cells, s4.net.cells, s5.net.cells);
        lemma_connect_keeps(st.net.cells, s5.net.cells, Port::Aux(app, 0), ap);
        lemma_connect_keeps(s4.net.cells, s5.net.cells, Port::Aux(app, 0), ap);
        lemma_keeps_refl(s5.net.cells);
        assert(s5.net.cells.contains_key(app) && s5.net.cells[app].kind == CellKind::Con);
        lemma_connect_keeps(s5.net.cells, s5.net.cells, Port::Aux(app, 0), ap);
        let c6 = s6.net.cells;
        assert(c6 == spec_set_port(spec_set_port(s5.net.cells, Port::Aux(app, 0), ap), ap, Port::Aux(app, 0)));
        assert(c6.dom() =~= s5.net.cells.dom());
        lemma_cenv_keeps(s5.net.cells, c6, env5, venv5);
        lemma_keeps_wired(s5.net.cells, c6);
        lemma_cport_kept(s5.net.cells, c6, ap, a);
        lemma_cenv_keeps(st.net.cells, c6, env, venv);
        if params.len() > 0 {
            lemma_cenv_push(c6, env, venv, params[0], ap, a);
        }
    } else {
        lemma_keeps_refl(s4.net.cells);
    }
    assert(keeps(st.net.cells, s6.net.cells));
    assert(keeps(s4.net.cells, s6.net.cells));
    assert(ids_below(s6.net));
    assert(s6.funs == funs6);
    // The other arguments, bound to the other parameters.
    lemma_cv_rest_args(s6, params, args, 1, env6, fn_env6, venv6, fn_venv6, fv, g);
    let (s7, env7, fn_env7) = cg_rest_args(s6, params, args, 1, env6, fn_env6, fv, g)->0;
    let (venv7, fn_venv7, funs7) = cv_rest_args(params, args, 1, venv6, fn_venv6, funs6, fv, g)->0;
    // The body.
    lemma_cv_stmt(s7, fun.1, fn_env7, fn_venv7, fv, g);
    let (s8, _, r) = cg_stmt(s7, fun.1, fn_env7, fv, g)->0;
    let (_, rv, funs8) = cv_stmt(fun.1, fn_venv7, funs7, fv, g)->0;
    lemma_cenv_keeps(s7.net.cells, s8.net.cells, env7, venv7);
    lemma_keeps_trans(s4.net.cells, s6.net.cells, s7.net.cells);
    lemma_keeps_trans(s4.net.cells, s7.net.cells, s8.net.cells);
    lemma_keeps_trans(st.net.cells, s6.net.cells, s7.net.cells);
    lemma_keeps_trans(st.net.cells, s7.net.cells, s8.net.cells);
    let ghost s9: CgState;
    let ghost bp: Port;
    let ghost bv: CVal;
    if r is Some {
        s9 = s8;
        bp = r->0;
        bv = rv->0;
        lemma_keeps_refl(s8.net.cells);
    } else {
        lemma_int_c(s8, env7, venv7, 0);
        let (s9_, bp_) = cg_int(s8, 0)->0;
        s9 = s9_;
        bp = bp_;
        bv = plain(0);
    }
    assert(!bv.1);
    lemma_keeps_trans(s4.net.cells, s8.net.cells, s9.net.cells);
    lemma_keeps_trans(st.net.cells, s8.net.cells, s9.net.cells);
    assert(kept_cell(s4.net.cells[app], s9.net.cells, app));
    let b = bp->Principal_0;
    lemma_wire_result(s9.net.cells, app, b);
    lemma_connect_keeps(st.net.cells, s9.net.cells, Port::Aux(app, 1), bp);
    let c10 = connect_m(s9.net, Port::Aux(app, 1), bp).cells;
    lemma_cenv_kept(s9.net.cells, c10, env7, venv7);
}

proof fn lemma_cv_stmt(st: CgState, s: StmtV, env: EnvV, venv: CEnv, fv: spec_fn(Seq<char>) -> i64, f: nat)
    requires
        ids_below(st.net),
        cenv_ok(st.net.cells, env, venv),
        cg_stmt(st, s, env, fv, f) is Some,
        cv_stmt(s, venv, st.funs, fv, f) is Some,
    ensures
        ({
            let (s2, env2, r) = cg_stmt(st, s, env, fv, f)->0;
            let (venv2, rv, funs2) = cv_stmt(s, venv, st.funs, fv, f)->0;
            &&& ids_below(s2.net)
            &&& keeps(st.net.cells, s2.net.cells)
            &&& cenv_ok(s2.net.cells, env2, venv2)
            &&& (r is Some <==> rv is Some)
            &&& (r is Some ==> cport_ok(s2.net.cells, r->0, rv->0))
            &&& s2.net.iface == st.net.iface
            &&& s2.funs == funs2
        }),
    decreases f,
{
    let g = (f - 1) as nat;
    match s {
        StmtV::Let { name, value, .. } => {
            lemma_cv_expr(st, value, env, venv, fv, g);
            let (s1, env1, p) = cg_expr(st, value, env, fv, g)->0;
            let (v, venv1, funs1) = cv_expr(value, venv, st.funs, fv, g)->0;
            lemma_cenv_push(s1.net.cells, env1, venv1, name, p, v);
        },
        StmtV::ExprStmt(e) => lemma_cv_expr(st, e, env, venv, fv, g),
        StmtV::Return(e) => lemma_cv_expr(st, e, env, venv, fv, g),
        StmtV::Block(ss) => {
            lemma_cv_stmts(st, ss, 0, env, venv, None, None, fv, g);
            let (s1, _, p) = cg_stmts(st, ss, 0, env, None, fv, g)->0;
            lemma_cenv_keeps(st.net.cells, s1.net.cells, env, venv);
        },
        StmtV::FunctionDef { name, .. } => {
            lemma_alloc(st.net, CellKind::Con);
            let (n1, id) = alloc_m(st.net, CellKind::Con)->0;
            lemma_cenv_keeps(st.net.cells, n1.cells, env, venv);
        },
        StmtV::IfStmt { then_branch, .. } => lemma_cv_stmt(st, *then_branch, env, venv, fv, g),
        StmtV::For { body, .. } => lemma_cv_stmt(st, *body, env, venv, fv, g),
        StmtV::Parallel { body, .. } => lemma_cv_stmt(st, *body, env, venv, fv, g),
        StmtV::Branch { body, .. } => lemma_cv_stmt(st, *body, env, venv, fv, g),
        StmtV::Fallback(body) => lemma_cv_stmt(st, *body, env, venv, fv, g),
    }
}

proof fn lemma_cv_stmts(
    st: CgState,
    ss: Seq<StmtV>,
    i: nat,
    env: EnvV,
    venv: CEnv,
    last: Option<Port>,
    vlast: Option<CVal>,
    fv: spec_fn(Seq<char>) -> i64,
    f: nat,
)
    requires
        ids_below(st.net),
        cenv_ok(st.net.cells, env, venv),
        last is Some <==> vlast is Some,
        last is Some ==> cport_ok(st.net.cells, last->0, vlast->0),
        cg_stmts(st, ss, i, env, last, fv, f) is Some,
        cv_stmts(ss, i, venv, vlast, st.funs, fv, f) is Some,
    ensures
        ({
            let (s2, env2, p) = cg_stmts(st, ss, i, env, last, fv, f)->0;
            let (venv2, v, funs2) = cv_stmts(ss, i, venv, vlast, st.funs, fv, f)->0;
            result_ok(st, s2, env2, venv2, p, v, funs2)
        }),
    decreases f,
{
    let g = (f - 1) as nat;
    if i >= ss.len() {
        if last is None {
            lemma_int_c(st, env, venv, 0);
        } else {
            lemma_keeps_refl(st.net.cells);
        }
    } else {
        lemma_cv_stmt(st, ss[i as int], env, venv, fv, g);
        let (s1, env1, r) = cg_stmt(st, ss[i as int], env, fv, g)->0;
        let (venv1, vr, funs1) = cv_stmt(ss[i as int], venv, st.funs, fv, g)->0;
        let last1 = if r is Some {
            r
        } else {
            last
        };
        let vlast1 = if vr is Some {
            vr
        } else {
            vlast
        };
        if r is None && last is Some {
            lemma_keeps_wired(st.net.cells, s1.net.cells);
            lemma_cport_kept(st.net.cells, s1.net.cells, last->0, vlast->0);
        }
        lemma_cv_stmts(s1, ss, i + 1, env1, venv1, last1, vlast1, fv, g);
        let (s2, _, _) = cg_stmts(s1, ss, i + 1, env1, last1, fv, g)->0;
        lemma_chain(st, s1, s2);
    }
}

/// Compiling a program from a state whose cells lie below its next id gives
/// a net whose root reduces to the program's value, where it has one: where
/// no value read through a call's cell is wired again, no name is unbound
/// and no operator overflows.
pub proof fn lemma_compiled_call_value(st: CgState, program: Seq<StmtV>, fv: spec_fn(Seq<char>) -> i64, net: Net)
    requires
        ids_below(st.net),
        compiles(st, program, fv),
        compiled_value(st, program, fv) is Some,
        net.cells@ == compiled(st, program, fv).0.net.cells,
        net.iface@ == compiled(st, program, fv).0.net.iface,
    ensures
        reduces(net),
        net_value(net) == compiled_value(st, program, fv)->0,
{
    let f = choose|f: nat| #[trigger] cg_program(st, program, fv, f) is Some;
    assert(cg_program(st, program, fv, f) is Some);
    assert(cenv_ok(st.net.cells, Seq::empty(), Seq::empty()));
    lemma_cv_stmts(st, program, 0, Seq::empty(), Seq::empty(), None, None, fv, f);
    let (s1, _, p) = cg_stmts(st, program, 0, Seq::empty(), None, fv, f)->0;
    let (_, v, _) = cv_stmts(program, 0, Seq::empty(), None, st.funs, fv, f)->0;
    assert(net.iface@[0] == p);
    assert(net.cells@ == s1.net.cells);
    let fuel: nat;
    if v.1 {
        let app = p->Aux_0;
        let b = net.cells@[app].ports[2]->0->Principal_0;
        assert(call_val(net.cells@, app) == Some(v.0));
        lemma_pure_eval(net, b, 2 * (b as nat) + 3);
        fuel = 2 * (b as nat) + 5;
        assert(eval_port_spec(net, Port::Principal(b), (fuel - 1) as nat) == Some(v.0));
        assert(eval_port_spec(net, p, fuel) == Some(v.0));
    } else {
        let id = p->Principal_0;
        lemma_pure_eval(net, id, 2 * (id as nat) + 2);
        fuel = 2 * (id as nat) + 3;
        assert(eval_port_spec(net, p, fuel) == Some(v.0));
    }
    assert(reduces(net));
    let chosen = choose|g: nat| #[trigger] eval_port_spec(net, net.iface@[0], g) is Some;
    if chosen <= fuel {
        lemma_port_monotone(net, p, chosen, fuel);
    } else {
        lemma_port_monotone(net, p, fuel, chosen);
    }
}

} // verus!
