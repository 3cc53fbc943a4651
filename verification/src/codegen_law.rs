//! What a compiled program computes: the root of the net that the compiler
//! builds reduces to the value of the program, for programs that call no
//! function.
use crate::ast::{ExprV, StmtV};
use crate::codegen_spec::{
    alloc_m, assoc_get, cg_binop, cg_expr, cg_int, cg_int_env, cg_program, cg_stmt, cg_stmts,
    connect_m, debug_m, map_op, redex_m, with_net, CgState, EnvV, NetModel,
};
use crate::ir::{spec_set_port, Cell, CellId, CellKind, Net, OpKind, Port};
use crate::token::TokenV;
use crate::vice::{
    eval_cell_spec, eval_port_spec, lemma_div_mod_agree, lemma_port_monotone, net_value, op_result, reduces,
    toward_zero_remainder,
};
use vstd::prelude::*;

verus! {

/// Values bound to names: the latest binding of a name is the one in force.
pub type VEnv = Seq<(Seq<char>, i64)>;

/// The value of an expression and the bindings after it; `None` for a
/// function call, an unbound name or an operator that overflows.
pub open spec fn val_expr(e: ExprV, venv: VEnv, fv: spec_fn(Seq<char>) -> i64) -> Option<(i64, VEnv)>
    decreases e,
{
    match e {
        ExprV::Number(n) => Some((n as i64, venv)),
        ExprV::Floating(s) => Some((fv(s), venv)),
        ExprV::Boolean(b) => Some((if b { 1 } else { 0 }, venv)),
        ExprV::String(_) => Some((0, venv)),
        ExprV::Ident(name) => match assoc_get(venv, name) {
            Some(v) => Some((v, venv)),
            None => None,
        },
        ExprV::Unary { op, expr } => match val_expr(*expr, venv, fv) {
            Some((v, venv1)) => if op == TokenV::Minus {
                match op_result(OpKind::Sub, 0, v) {
                    Some(r) => Some((r, venv1)),
                    None => None,
                }
            } else {
                Some((v, venv1))
            },
            None => None,
        },
        ExprV::Binary { left, op, right } => match val_expr(*left, venv, fv) {
            Some((a, venv1)) => match val_expr(*right, venv1, fv) {
                Some((b, venv2)) => match op_result(map_op(op), a, b) {
                    Some(r) => Some((r, venv2)),
                    None => None,
                },
                None => None,
            },
            None => None,
        },
        ExprV::Assignment { name, value } => match val_expr(*value, venv, fv) {
            Some((v, venv1)) => Some((v, venv1.push((name, v)))),
            None => None,
        },
        ExprV::Grouping(inner) => val_expr(*inner, venv, fv),
        ExprV::FunctionCall { .. } => None,
        ExprV::Return(inner) => val_expr(*inner, venv, fv),
        ExprV::Range { .. } => Some((0, venv)),
    }
}

/// The bindings after a statement and its value if it has one, as the
/// compiler reads it: an `if` by its first branch, a loop, a `branch` or a
/// `fallback` by its body, a block by its last value; a function definition
/// has no value.
pub open spec fn val_stmt(s: StmtV, venv: VEnv, fv: spec_fn(Seq<char>) -> i64) -> Option<(VEnv, Option<i64>)>
    decreases s, 0nat,
{
    match s {
        StmtV::Let { name, value, .. } => match val_expr(value, venv, fv) {
            Some((v, venv1)) => Some((venv1.push((name, v)), Some(v))),
            None => None,
        },
        StmtV::ExprStmt(e) => match val_expr(e, venv, fv) {
            Some((v, venv1)) => Some((venv1, Some(v))),
            None => None,
        },
        StmtV::Block(ss) => match val_stmts(ss, 0, venv, None, fv) {
            Some((_, v)) => Some((venv, Some(v))),
            None => None,
        },
        StmtV::FunctionDef { .. } => Some((venv, None)),
        StmtV::Return(e) => match val_expr(e, venv, fv) {
            Some((v, venv1)) => Some((venv1, Some(v))),
            None => None,
        },
        StmtV::IfStmt { then_branch, .. } => val_stmt(*then_branch, venv, fv),
        StmtV::For { body, .. } => val_stmt(*body, venv, fv),
        StmtV::Parallel { body, .. } => val_stmt(*body, venv, fv),
        StmtV::Branch { body, .. } => val_stmt(*body, venv, fv),
        StmtV::Fallback(body) => val_stmt(*body, venv, fv),
    }
}

/// The value of the statements from index `i` on, given the last value so
/// far: the last value overall, or 0 if none has one.
pub open spec fn val_stmts(ss: Seq<StmtV>, i: nat, venv: VEnv, last: Option<i64>, fv: spec_fn(Seq<char>) -> i64) -> Option<(VEnv, i64)>
    decreases ss, ss.len() - i,
{
    if i >= ss.len() {
        Some((
            venv,
            match last {
                Some(v) => v,
                None => 0,
            },
        ))
    } else {
        match val_stmt(ss[i as int], venv, fv) {
            Some((venv1, r)) => val_stmts(ss, i + 1, venv1, if r is Some { r } else { last }, fv),
            None => None,
        }
    }
}

/// The value of a program, with no bindings at the start.
pub open spec fn program_value(program: Seq<StmtV>, fv: spec_fn(Seq<char>) -> i64) -> Option<i64> {
    match val_stmts(program, 0, Seq::empty(), None, fv) {
        Some((_, v)) => Some(v),
        None => None,
    }
}

/// The value of a cell built of numbers and operators whose inputs are
/// older cells.
pub open spec fn pure_val(cells: Map<CellId, Cell>, id: CellId) -> Option<i64>
    decreases id,
{
    if !cells.contains_key(id) {
        None
    } else {
        match cells[id].kind {
            CellKind::Num(v) => Some(v),
            CellKind::Op(k) => match (cells[id].ports[1], cells[id].ports[2]) {
                (Some(Port::Principal(a)), Some(Port::Principal(b))) => if a < id && b < id {
                    match (pure_val(cells, a), pure_val(cells, b)) {
                        (Some(x), Some(y)) => op_result(k, x, y),
                        _ => None,
                    }
                } else {
                    None
                },
                _ => None,
            },
            _ => None,
        }
    }
}

/// Every cell lies below the next id to be handed out.
pub open spec fn ids_below(n: NetModel) -> bool {
    forall|k: CellId| #[trigger] n.cells.contains_key(k) ==> k < n.next_id
}

/// `c2` keeps every cell of `c1` with its kind, an operator cell with its
/// inputs, and a constructor cell with its second auxiliary port.
pub open spec fn keeps(c1: Map<CellId, Cell>, c2: Map<CellId, Cell>) -> bool {
    forall|k: CellId| #[trigger] c1.contains_key(k) ==> kept_cell(c1[k], c2, k)
}

/// `c2` holds cell `k` as `c` is: the same kind, the same inputs for an
/// operator, and the same second auxiliary port for a constructor.
pub open spec fn kept_cell(c: Cell, c2: Map<CellId, Cell>, k: CellId) -> bool {
    &&& c2.contains_key(k)
    &&& c2[k].kind == c.kind
    &&& (c.kind is Op ==> c2[k].ports[1] == c.ports[1] && c2[k].ports[2] == c.ports[2])
    &&& (c.kind is Con ==> c2[k].ports[2] == c.ports[2])
}

/// The bindings of ports and of values agree: the same names in the same
/// order, each port the principal port of a cell whose value is the bound
/// value.
pub open spec fn env_ok(cells: Map<CellId, Cell>, env: EnvV, venv: VEnv) -> bool {
    &&& env.len() == venv.len()
    &&& forall|i: int| 0 <= i < env.len() ==> (#[trigger] env[i]).0 == venv[i].0 && env[i].1 is Principal
        && pure_val(cells, env[i].1->Principal_0) == Some(venv[i].1)
}

pub(crate) proof fn lemma_keeps_trans(a: Map<CellId, Cell>, b: Map<CellId, Cell>, c: Map<CellId, Cell>)
    requires
        keeps(a, b),
        keeps(b, c),
    ensures
        keeps(a, c),
{
    assert forall|k: CellId| #[trigger] a.contains_key(k) implies kept_cell(a[k], c, k) by {
        assert(b.contains_key(k));
    }
}

pub(crate) proof fn lemma_keeps_refl(a: Map<CellId, Cell>)
    ensures
        keeps(a, a),
{
}

/// Values of cells are kept by whatever keeps the cells.
pub(crate) proof fn lemma_pure_val_kept(c1: Map<CellId, Cell>, c2: Map<CellId, Cell>, id: CellId)
    requires
        keeps(c1, c2),
        pure_val(c1, id) is Some,
    ensures
        pure_val(c2, id) == pure_val(c1, id),
    decreases id,
{
    assert(c1.contains_key(id));
    match c1[id].kind {
        CellKind::Op(k) => {
            match (c1[id].ports[1], c1[id].ports[2]) {
                (Some(Port::Principal(a)), Some(Port::Principal(b))) => {
                    lemma_pure_val_kept(c1, c2, a);
                    lemma_pure_val_kept(c1, c2, b);
                },
                _ => {},
            }
        },
        _ => {},
    }
}

proof fn lemma_env_kept(c1: Map<CellId, Cell>, c2: Map<CellId, Cell>, env: EnvV, venv: VEnv)
    requires
        keeps(c1, c2),
        env_ok(c1, env, venv),
    ensures
        env_ok(c2, env, venv),
{
    assert forall|i: int| 0 <= i < env.len() implies (#[trigger] env[i]).0 == venv[i].0 && env[i].1 is Principal
        && pure_val(c2, env[i].1->Principal_0) == Some(venv[i].1) by {
        lemma_pure_val_kept(c1, c2, env[i].1->Principal_0);
    }
}

proof fn lemma_env_push(cells: Map<CellId, Cell>, env: EnvV, venv: VEnv, name: Seq<char>, id: CellId, v: i64)
    requires
        env_ok(cells, env, venv),
        pure_val(cells, id) == Some(v),
    ensures
        env_ok(cells, env.push((name, Port::Principal(id))), venv.push((name, v))),
{
    let e2 = env.push((name, Port::Principal(id)));
    let v2 = venv.push((name, v));
    assert forall|i: int| 0 <= i < e2.len() implies (#[trigger] e2[i]).0 == v2[i].0 && e2[i].1 is Principal
        && pure_val(cells, e2[i].1->Principal_0) == Some(v2[i].1) by {
        if i < env.len() {
            assert(e2[i] == env[i]);
        }
    }
}

/// Looking a name up in agreeing bindings gives a port whose cell has the
/// value that the name is bound to.
proof fn lemma_env_get(cells: Map<CellId, Cell>, env: EnvV, venv: VEnv, name: Seq<char>)
    requires
        env_ok(cells, env, venv),
    ensures
        assoc_get(env, name) is Some <==> assoc_get(venv, name) is Some,
        assoc_get(venv, name) is Some ==> assoc_get(env, name)->0 is Principal && pure_val(
            cells,
            assoc_get(env, name)->0->Principal_0,
        ) == Some(assoc_get(venv, name)->0),
    decreases env.len(),
{
    if env.len() > 0 {
        let last = (env.len() - 1) as int;
        assert(env[last].0 == venv[last].0);
        if env.last().0 != name {
            assert(env_ok(cells, env.drop_last(), venv.drop_last())) by {
                assert forall|i: int| 0 <= i < env.drop_last().len() implies (#[trigger] env.drop_last()[i]).0
                    == venv.drop_last()[i].0 && env.drop_last()[i].1 is Principal && pure_val(
                    cells,
                    env.drop_last()[i].1->Principal_0,
                ) == Some(venv.drop_last()[i].1) by {
                    assert(env.drop_last()[i] == env[i]);
                    assert(venv.drop_last()[i] == venv[i]);
                }
            }
            lemma_env_get(cells, env.drop_last(), venv.drop_last(), name);
        }
    }
}

/// A new cell keeps every cell there was.
pub(crate) proof fn lemma_alloc(n: NetModel, kind: CellKind)
    requires
        ids_below(n),
        alloc_m(n, kind) is Some,
    ensures
        ({
            let (n2, id) = alloc_m(n, kind)->0;
            &&& ids_below(n2)
            &&& keeps(n.cells, n2.cells)
            &&& !n.cells.contains_key(id)
            &&& n2.cells[id] == Cell::fresh(id, kind)
            &&& n2.cells.contains_key(id)
            &&& n2.iface == n.iface
            &&& forall|k: CellId| #[trigger] n.cells.contains_key(k) ==> k < id
        }),
{
}

/// A number cell has its number as its value.
pub(crate) proof fn lemma_cg_int(st: CgState, env: EnvV, venv: VEnv, v: i64)
    requires
        ids_below(st.net),
        env_ok(st.net.cells, env, venv),
        cg_int(st, v) is Some,
    ensures
        ({
            let (s2, p) = cg_int(st, v)->0;
            &&& ids_below(s2.net)
            &&& keeps(st.net.cells, s2.net.cells)
            &&& env_ok(s2.net.cells, env, venv)
            &&& p is Principal
            &&& pure_val(s2.net.cells, p->Principal_0) == Some(v)
            &&& s2.net.iface == st.net.iface
        }),
{
    lemma_alloc(st.net, CellKind::Num(v));
    let (s2, p) = cg_int(st, v)->0;
    lemma_env_kept(st.net.cells, s2.net.cells, env, venv);
}

/// An operator cell on two cells with values has the operator's result as
/// its value.
pub(crate) proof fn lemma_cg_binop(st: CgState, env: EnvV, venv: VEnv, k: OpKind, x: CellId, y: CellId, vx: i64, vy: i64)
    requires
        ids_below(st.net),
        env_ok(st.net.cells, env, venv),
        pure_val(st.net.cells, x) == Some(vx),
        pure_val(st.net.cells, y) == Some(vy),
        op_result(k, vx, vy) is Some,
        cg_binop(st, k, Port::Principal(x), Port::Principal(y)) is Some,
    ensures
        ({
            let (s2, p) = cg_binop(st, k, Port::Principal(x), Port::Principal(y))->0;
            &&& ids_below(s2.net)
            &&& keeps(st.net.cells, s2.net.cells)
            &&& env_ok(s2.net.cells, env, venv)
            &&& p is Principal
            &&& pure_val(s2.net.cells, p->Principal_0) == op_result(k, vx, vy)
            &&& s2.net.iface == st.net.iface
        }),
{
    lemma_alloc(st.net, CellKind::Op(k));
    let (n1, op) = alloc_m(st.net, CellKind::Op(k))->0;
    assert(st.net.cells.contains_key(x) && st.net.cells.contains_key(y));
    let c1 = n1.cells;
    let c2a = spec_set_port(c1, Port::Aux(op, 0), Port::Principal(x));
    let c2 = spec_set_port(c2a, Port::Principal(x), Port::Aux(op, 0));
    let c3a = spec_set_port(c2, Port::Aux(op, 1), Port::Principal(y));
    let c3 = spec_set_port(c3a, Port::Principal(y), Port::Aux(op, 1));
    assert(connect_m(n1, Port::Aux(op, 0), Port::Principal(x)).cells == c2);
    assert(c3[op].kind == CellKind::Op(k));
    assert(c3[op].ports[1] == Some(Port::Principal(x)));
    assert(c3[op].ports[2] == Some(Port::Principal(y)));
    assert(keeps(st.net.cells, c3)) by {
        assert forall|z: CellId| #[trigger] st.net.cells.contains_key(z) implies kept_cell(st.net.cells[z], c3, z) by {
            assert(z != op);
        }
    }
    lemma_pure_val_kept(st.net.cells, c3, x);
    lemma_pure_val_kept(st.net.cells, c3, y);
    let (s2, p) = cg_binop(st, k, Port::Principal(x), Port::Principal(y))->0;
    assert(s2.net.cells == c3);
    lemma_env_kept(st.net.cells, s2.net.cells, env, venv);
}

/// The invariant of compiling an expression that calls no function: the
/// cells are kept, the bindings keep agreeing, and the port of the result is
/// that of a cell whose value is the expression's value.
pub open spec fn expr_ok(
    st: CgState,
    e: ExprV,
    env: EnvV,
    venv: VEnv,
    fv: spec_fn(Seq<char>) -> i64,
    f: nat,
) -> bool {
    let (s2, env2, p) = cg_expr(st, e, env, fv, f)->0;
    let (v, venv2) = val_expr(e, venv, fv)->0;
    &&& ids_below(s2.net)
    &&& keeps(st.net.cells, s2.net.cells)
    &&& env_ok(s2.net.cells, env2, venv2)
    &&& p is Principal
    &&& pure_val(s2.net.cells, p->Principal_0) == Some(v)
    &&& s2.net.iface == st.net.iface
}

proof fn lemma_cg_expr(st: CgState, e: ExprV, env: EnvV, venv: VEnv, fv: spec_fn(Seq<char>) -> i64, f: nat)
    requires
        ids_below(st.net),
        env_ok(st.net.cells, env, venv),
        cg_expr(st, e, env, fv, f) is Some,
        val_expr(e, venv, fv) is Some,
    ensures
        expr_ok(st, e, env, venv, fv, f),
    decreases f,
{
    let g = (f - 1) as nat;
    match e {
        ExprV::Number(n) => lemma_cg_int(st, env, venv, n as i64),
        ExprV::Floating(s) => lemma_cg_int(st, env, venv, fv(s)),
        ExprV::Boolean(b) => lemma_cg_int(st, env, venv, if b { 1 } else { 0 }),
        ExprV::String(_) => lemma_cg_int(st, env, venv, 0),
        ExprV::Range { .. } => lemma_cg_int(st, env, venv, 0),
        ExprV::Ident(name) => {
            lemma_env_get(st.net.cells, env, venv, name);
            lemma_keeps_refl(st.net.cells);
        },
        ExprV::Unary { op, expr } => {
            if op == TokenV::Minus {
                lemma_cg_int(st, env, venv, 0);
                let (s1, zero) = cg_int(st, 0)->0;
                lemma_cg_expr(s1, *expr, env, venv, fv, g);
                let (s2, env2, rhs) = cg_expr(s1, *expr, env, fv, g)->0;
                let (v, venv2) = val_expr(*expr, venv, fv)->0;
                lemma_pure_val_kept(s1.net.cells, s2.net.cells, zero->Principal_0);
                lemma_cg_binop(s2, env2, venv2, OpKind::Sub, zero->Principal_0, rhs->Principal_0, 0, v);
                let (s3, p) = cg_binop(s2, OpKind::Sub, zero, rhs)->0;
                lemma_keeps_trans(st.net.cells, s1.net.cells, s2.net.cells);
                lemma_keeps_trans(st.net.cells, s2.net.cells, s3.net.cells);
            } else {
                lemma_cg_expr(st, *expr, env, venv, fv, g);
            }
        },
        ExprV::Binary { left, op, right } => {
            lemma_cg_expr(st, *left, env, venv, fv, g);
            let (s1, env1, a) = cg_expr(st, *left, env, fv, g)->0;
            let (va, venv1) = val_expr(*left, venv, fv)->0;
            lemma_cg_expr(s1, *right, env1, venv1, fv, g);
            let (s2, env2, b) = cg_expr(s1, *right, env1, fv, g)->0;
            let (vb, venv2) = val_expr(*right, venv1, fv)->0;
            lemma_pure_val_kept(s1.net.cells, s2.net.cells, a->Principal_0);
            lemma_cg_binop(s2, env2, venv2, map_op(op), a->Principal_0, b->Principal_0, va, vb);
            let (s3, p) = cg_binop(s2, map_op(op), a, b)->0;
            lemma_keeps_trans(st.net.cells, s1.net.cells, s2.net.cells);
            lemma_keeps_trans(st.net.cells, s2.net.cells, s3.net.cells);
        },
        ExprV::Assignment { name, value } => {
            lemma_cg_expr(st, *value, env, venv, fv, g);
            let (s1, env1, p) = cg_expr(st, *value, env, fv, g)->0;
            let (v, venv1) = val_expr(*value, venv, fv)->0;
            lemma_env_push(s1.net.cells, env1, venv1, name, p->Principal_0, v);
        },
        ExprV::Grouping(inner) => lemma_cg_expr(st, *inner, env, venv, fv, g),
        ExprV::Return(inner) => lemma_cg_expr(st, *inner, env, venv, fv, g),
        ExprV::FunctionCall { .. } => {},
    }
}

/// The invariant of compiling a statement that calls no function.
pub open spec fn stmt_ok(
    st: CgState,
    s: StmtV,
    env: EnvV,
    venv: VEnv,
    fv: spec_fn(Seq<char>) -> i64,
    f: nat,
) -> bool {
    let (s2, env2, r) = cg_stmt(st, s, env, fv, f)->0;
    let (venv2, vr) = val_stmt(s, venv, fv)->0;
    &&& ids_below(s2.net)
    &&& keeps(st.net.cells, s2.net.cells)
    &&& env_ok(s2.net.cells, env2, venv2)
    &&& (r is Some <==> vr is Some)
    &&& (r is Some ==> r->0 is Principal && pure_val(s2.net.cells, r->0->Principal_0) == Some(vr->0))
    &&& s2.net.iface == st.net.iface
}

/// The invariant of compiling statements that call no function.
pub open spec fn stmts_ok(
    st: CgState,
    ss: Seq<StmtV>,
    i: nat,
    env: EnvV,
    venv: VEnv,
    last: Option<Port>,
    vlast: Option<i64>,
    fv: spec_fn(Seq<char>) -> i64,
    f: nat,
) -> bool {
    let (s2, env2, p) = cg_stmts(st, ss, i, env, last, fv, f)->0;
    let (venv2, v) = val_stmts(ss, i, venv, vlast, fv)->0;
    &&& ids_below(s2.net)
    &&& keeps(st.net.cells, s2.net.cells)
    &&& env_ok(s2.net.cells, env2, venv2)
    &&& p is Principal
    &&& pure_val(s2.net.cells, p->Principal_0) == Some(v)
    &&& s2.net.iface == st.net.iface
}

proof fn lemma_cg_stmt(st: CgState, s: StmtV, env: EnvV, venv: VEnv, fv: spec_fn(Seq<char>) -> i64, f: nat)
    requires
        ids_below(st.net),
        env_ok(st.net.cells, env, venv),
        cg_stmt(st, s, env, fv, f) is Some,
        val_stmt(s, venv, fv) is Some,
    ensures
        stmt_ok(st, s, env, venv, fv, f),
    decreases f,
{
    let g = (f - 1) as nat;
    match s {
        StmtV::Let { name, value, .. } => {
            lemma_cg_expr(st, value, env, venv, fv, g);
            let (s1, env1, p) = cg_expr(st, value, env, fv, g)->0;
            let (v, venv1) = val_expr(value, venv, fv)->0;
            lemma_env_push(s1.net.cells, env1, venv1, name, p->Principal_0, v);
        },
        StmtV::ExprStmt(e) => lemma_cg_expr(st, e, env, venv, fv, g),
        StmtV::Return(e) => lemma_cg_expr(st, e, env, venv, fv, g),
        StmtV::Block(ss) => {
            lemma_cg_stmts(st, ss, 0, env, venv, None, None, fv, g);
            let (s1, _, p) = cg_stmts(st, ss, 0, env, None, fv, g)->0;
            lemma_env_kept(st.net.cells, s1.net.cells, env, venv);
        },
        StmtV::FunctionDef { name, .. } => {
            lemma_alloc(st.net, CellKind::Con);
            let (n1, id) = alloc_m(st.net, CellKind::Con)->0;
            lemma_env_kept(st.net.cells, n1.cells, env, venv);
        },
        StmtV::IfStmt { then_branch, .. } => lemma_cg_stmt(st, *then_branch, env, venv, fv, g),
        StmtV::For { body, .. } => lemma_cg_stmt(st, *body, env, venv, fv, g),
        StmtV::Parallel { body, .. } => lemma_cg_stmt(st, *body, env, venv, fv, g),
        StmtV::Branch { body, .. } => lemma_cg_stmt(st, *body, env, venv, fv, g),
        StmtV::Fallback(body) => lemma_cg_stmt(st, *body, env, venv, fv, g),
    }
}

proof fn lemma_cg_stmts(
    st: CgState,
    ss: Seq<StmtV>,
    i: nat,
    env: EnvV,
    venv: VEnv,
    last: Option<Port>,
    vlast: Option<i64>,
    fv: spec_fn(Seq<char>) -> i64,
    f: nat,
)
    requires
        ids_below(st.net),
        env_ok(st.net.cells, env, venv),
        last is Some <==> vlast is Some,
        last is Some ==> last->0 is Principal && pure_val(st.net.cells, last->0->Principal_0) == Some(vlast->0),
        cg_stmts(st, ss, i, env, last, fv, f) is Some,
        val_stmts(ss, i, venv, vlast, fv) is Some,
    ensures
        stmts_ok(st, ss, i, env, venv, last, vlast, fv, f),
    decreases f,
{
    let g = (f - 1) as nat;
    if i >= ss.len() {
        if last is None {
            lemma_cg_int(st, env, venv, 0);
        } else {
            lemma_keeps_refl(st.net.cells);
        }
    } else {
        lemma_cg_stmt(st, ss[i as int], env, venv, fv, g);
        let (s1, env1, r) = cg_stmt(st, ss[i as int], env, fv, g)->0;
        let (venv1, vr) = val_stmt(ss[i as int], venv, fv)->0;
        let last1 = if r is Some {
            r
        } else {
            last
        };
        let vlast1 = if vr is Some {
            vr
        } else {
            vlast
        };
        if r is None && last is Some {
            lemma_pure_val_kept(st.net.cells, s1.net.cells, last->0->Principal_0);
        }
        lemma_cg_stmts(s1, ss, i + 1, env1, venv1, last1, vlast1, fv, g);
        let (s2, _, _) = cg_stmts(s1, ss, i + 1, env1, last1, fv, g)->0;
        lemma_keeps_trans(st.net.cells, s1.net.cells, s2.net.cells);
    }
}

/// A cell of numbers and operators evaluates, with enough fuel, to its
/// value.
pub(crate) proof fn lemma_pure_eval(net: Net, id: CellId, fuel: nat)
    requires
        pure_val(net.cells@, id) is Some,
        fuel >= 2 * id + 2,
    ensures
        eval_cell_spec(net, id, fuel) == pure_val(net.cells@, id),
    decreases id,
{
    let c = net.cells@[id];
    match c.kind {
        CellKind::Op(k) => {
            match (c.ports[1], c.ports[2]) {
                (Some(Port::Principal(a)), Some(Port::Principal(b))) => {
                    lemma_pure_eval(net, a, (fuel - 2) as nat);
                    lemma_pure_eval(net, b, (fuel - 2) as nat);
                },
                _ => {},
            }
        },
        _ => {},
    }
}

/// Compiling a program that calls no function gives a net whose root
/// reduces to the value of the program.
pub proof fn lemma_compiled_value(st: CgState, program: Seq<StmtV>, fv: spec_fn(Seq<char>) -> i64, f: nat, net: Net)
    requires
        ids_below(st.net),
        cg_program(st, program, fv, f) is Some,
        program_value(program, fv) is Some,
        ({
            let (s2, _) = cg_program(st, program, fv, f)->0;
            net.cells@ == s2.net.cells && net.iface@ == s2.net.iface
        }),
    ensures
        reduces(net),
        net_value(net) == program_value(program, fv)->0,
{
    assert(env_ok(st.net.cells, Seq::empty(), Seq::empty()));
    lemma_cg_stmts(st, program, 0, Seq::empty(), Seq::empty(), None, None, fv, f);
    let (s1, _, p) = cg_stmts(st, program, 0, Seq::empty(), None, fv, f)->0;
    let v = program_value(program, fv)->0;
    let id = p->Principal_0;
    assert(net.iface@[0] == p);
    let fuel = 2 * (id as nat) + 2;
    lemma_pure_eval(net, id, fuel);
    assert(eval_port_spec(net, p, fuel + 1) == Some(v));
    assert(reduces(net));
    let chosen = choose|g: nat| #[trigger] eval_port_spec(net, net.iface@[0], g) is Some;
    if chosen <= fuel + 1 {
        lemma_port_monotone(net, p, chosen, fuel + 1);
    } else {
        lemma_port_monotone(net, p, fuel + 1, chosen);
    }
}


/// What a comparison of two integers gives as a number: 1 when it holds,
/// 0 when it does not; `None` for a token that compares nothing.
pub open spec fn comparison_holds(op: TokenV, a: i64, b: i64) -> Option<bool> {
    if op == TokenV::EQ {
        Some(a == b)
    } else if op == TokenV::NE {
        Some(a != b)
    } else if op == TokenV::LT {
        Some(a < b)
    } else if op == TokenV::LE {
        Some(a <= b)
    } else if op == TokenV::GT {
        Some(a > b)
    } else if op == TokenV::GE {
        Some(a >= b)
    } else {
        None
    }
}

pub open spec fn literal_binary(a: i64, op: TokenV, b: i64) -> ExprV {
    ExprV::Binary { left: Box::new(ExprV::Number(a as int)), op, right: Box::new(ExprV::Number(b as int)) }
}

/// The source operators compute on integers: a comparison of two integer
/// literals is worth 1 when it holds and 0 when it does not, and `+`, `-`
/// and `*` give the integer result where it fits in `i64`.
pub proof fn lemma_operator_values(a: i64, b: i64, venv: VEnv, fv: spec_fn(Seq<char>) -> i64)
    ensures
        forall|op: TokenV| #[trigger] comparison_holds(op, a, b) is Some ==> val_expr(
            literal_binary(a, op, b),
            venv,
            fv,
        ) == Some((if comparison_holds(op, a, b)->0 { 1i64 } else { 0i64 }, venv)),
        i64::MIN <= a + b <= i64::MAX ==> val_expr(literal_binary(a, TokenV::Plus, b), venv, fv) == Some(((a + b) as i64, venv)),
        i64::MIN <= a - b <= i64::MAX ==> val_expr(literal_binary(a, TokenV::Minus, b), venv, fv) == Some(((a - b) as i64, venv)),
        i64::MIN <= a * b <= i64::MAX ==> val_expr(literal_binary(a, TokenV::Star, b), venv, fv) == Some(((a * b) as i64, venv)),
        b != 0 && !(a == i64::MIN && b == -1) ==> match val_expr(literal_binary(a, TokenV::Slash, b), venv, fv) {
            Some((q, venv2)) => venv2 == venv && toward_zero_remainder(a as int, b as int, a - q * b),
            None => false,
        },
        a != i64::MIN ==> val_expr(
            ExprV::Unary { op: TokenV::Minus, expr: Box::new(ExprV::Number(a as int)) },
            venv,
            fv,
        ) == Some(((-a) as i64, venv)),
{
    if b != 0 && !(a == i64::MIN && b == -1) {
        lemma_div_mod_agree(a, b);
    }
    assert forall|op: TokenV| #[trigger] comparison_holds(op, a, b) is Some implies val_expr(
        literal_binary(a, op, b),
        venv,
        fv,
    ) == Some((if comparison_holds(op, a, b)->0 { 1i64 } else { 0i64 }, venv)) by {
        assert(val_expr(ExprV::Number(a as int), venv, fv) == Some((a, venv)));
        assert(val_expr(ExprV::Number(b as int), venv, fv) == Some((b, venv)));
    }
    assert(val_expr(ExprV::Number(a as int), venv, fv) == Some((a, venv)));
    assert(val_expr(ExprV::Number(b as int), venv, fv) == Some((b, venv)));
}

/// A compiled comparison of two integer literals reduces to 1 when the
/// comparison holds and to 0 when it does not.
pub proof fn lemma_compiled_comparison(
    st: CgState,
    a: i64,
    op: TokenV,
    b: i64,
    fv: spec_fn(Seq<char>) -> i64,
    f: nat,
    net: Net,
)
    requires
        comparison_holds(op, a, b) is Some,
        ids_below(st.net),
        cg_program(st, seq![StmtV::ExprStmt(literal_binary(a, op, b))], fv, f) is Some,
        ({
            let (s2, _) = cg_program(st, seq![StmtV::ExprStmt(literal_binary(a, op, b))], fv, f)->0;
            net.cells@ == s2.net.cells && net.iface@ == s2.net.iface
        }),
    ensures
        reduces(net),
        net_value(net) == if comparison_holds(op, a, b)->0 {
            1i64
        } else {
            0i64
        },
{
    let program = seq![StmtV::ExprStmt(literal_binary(a, op, b))];
    lemma_operator_values(a, b, Seq::empty(), fv);
    let v: i64 = if comparison_holds(op, a, b)->0 { 1 } else { 0 };
    assert(val_expr(literal_binary(a, op, b), Seq::empty(), fv) == Some((v, Seq::<(Seq<char>, i64)>::empty())));
    assert(program[0] == StmtV::ExprStmt(literal_binary(a, op, b)));
    assert(val_stmt(program[0], Seq::empty(), fv) == Some((Seq::<(Seq<char>, i64)>::empty(), Some(v))));
    assert(val_stmts(program, 1, Seq::empty(), Some(v), fv) == Some((Seq::<(Seq<char>, i64)>::empty(), v)));
    assert(val_stmts(program, 0, Seq::empty(), None, fv) == val_stmts(program, 1, Seq::empty(), Some(v), fv));
    assert(program_value(program, fv) == Some(v));
    lemma_compiled_value(st, program, fv, f, net);
}

} // verus!
