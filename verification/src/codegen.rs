//! The compiler from VORTEX syntax to IR nets, proved to build what the
//! functions of `codegen_spec` describe.
//!
//! A number with a decimal point compiles to the integer that the caller's
//! conversion `to_int` gives for the literal's text.
use crate::ast::{
    exprs_view, lemma_exprs_view_index, lemma_stmts_view_index, params_view, stmts_view, Expr, ExprV,
    Stmt, StmtV,
};
use crate::codegen_spec::{
    alloc_m, assoc_get, cg_binop, cg_call, cg_call_tail, cg_expr, cg_int, cg_int_env, cg_named_call,
    cg_program, cg_rest_args, cg_stmt, cg_stmts, connect_m, debug_m, map_op, net_model,
    param_names, port_cell, redex_m, with_net, compiled, compiles, expr_compiled, expr_compiles,
    CgState, EnvV, FunV, NetModel,
};
use crate::codegen_law::{ids_below, lemma_compiled_value, program_value};
use crate::codegen_call_law::{compiled_value, lemma_compiled_call_value};
use crate::ir::{CellId, CellKind, Net, OpKind, Port};
use crate::vice::{net_value, reduces};
use crate::text::push_str;
use crate::token::{Token, TokenV};
use vstd::prelude::*;

verus! {

broadcast use vstd::std_specs::hash::group_hash_axioms;

/// The conversion of float literals agrees with `fv`, and can always be
/// called.
pub open spec fn float_ok<F: Fn(&String) -> i64>(to_int: F, fv: spec_fn(Seq<char>) -> i64) -> bool {
    &&& forall|s: &String| #[trigger] call_requires(to_int, (s,))
    &&& forall|s: &String, r: i64| #[trigger] call_ensures(to_int, (s,), r) ==> r == fv(s@)
}

/// The conversion gives one result for each text.
pub open spec fn deterministic<F: Fn(&String) -> i64>(to_int: F) -> bool {
    &&& forall|s: &String| #[trigger] call_requires(to_int, (s,))
    &&& forall|s1: &String, s2: &String, r1: i64, r2: i64|
        #![trigger call_ensures(to_int, (s1,), r1), call_ensures(to_int, (s2,), r2)]
        s1@ == s2@ && call_ensures(to_int, (s1,), r1) && call_ensures(to_int, (s2,), r2) ==> r1 == r2
}

/// The value that a deterministic conversion gives for a text.
pub open spec fn float_fn<F: Fn(&String) -> i64>(to_int: F) -> spec_fn(Seq<char>) -> i64 {
    |t: Seq<char>| (choose|s: &String, r: i64| s@ == t && #[trigger] call_ensures(to_int, (s,), r)).1
}

pub proof fn lemma_float_fn<F: Fn(&String) -> i64>(to_int: F)
    requires
        deterministic(to_int),
    ensures
        float_ok(to_int, float_fn(to_int)),
{
    assert forall|s: &String, r: i64| #[trigger] call_ensures(to_int, (s,), r) implies r == float_fn(to_int)(s@) by {
        let t = s@;
        assert(exists|x: &String, r1: i64| x@ == t && #[trigger] call_ensures(to_int, (x,), r1));
        let (x2, r2) = choose|x: &String, r1: i64| x@ == t && #[trigger] call_ensures(to_int, (x,), r1);
        assert(call_ensures(to_int, (x2,), r2));
    }
}

/// A function as recorded by the compiler.
struct FunctionDef {
    params: Vec<String>,
    body: Stmt,
}

pub open spec fn strings_view(v: Seq<String>) -> Seq<Seq<char>> {
    v.map_values(|s: String| s@)
}

pub open spec fn env_view(v: Seq<(String, Port)>) -> EnvV {
    v.map_values(|e: (String, Port)| (e.0@, e.1))
}

spec fn fun_view(d: FunctionDef) -> FunV {
    (strings_view(d.params@), d.body@)
}

spec fn funs_view(v: Seq<(String, FunctionDef)>) -> Seq<(Seq<char>, FunV)> {
    v.map_values(|e: (String, FunctionDef)| (e.0@, fun_view(e.1)))
}

impl FunctionDef {
    fn duplicate(&self) -> (r: FunctionDef)
        ensures
            fun_view(r) == fun_view(*self),
    {
        let mut params: Vec<String> = Vec::new();
        let mut i: usize = 0;
        while i < self.params.len()
            invariant
                i <= self.params@.len(),
                params@.len() == i,
                forall|j: int| 0 <= j < i ==> #[trigger] params@[j]@ == self.params@[j]@,
            decreases self.params@.len() - i,
        {
            params.push(self.params[i].clone());
            i = i + 1;
        }
        assert(strings_view(params@) =~= strings_view(self.params@));
        FunctionDef { params, body: self.body.clone() }
    }
}

fn clone_env(env: &Vec<(String, Port)>) -> (r: Vec<(String, Port)>)
    ensures
        env_view(r@) == env_view(env@),
{
    let mut r: Vec<(String, Port)> = Vec::new();
    let mut i: usize = 0;
    while i < env.len()
        invariant
            i <= env@.len(),
            r@.len() == i,
            forall|j: int| 0 <= j < i ==> (#[trigger] r@[j]).0@ == env@[j].0@ && r@[j].1 == env@[j].1,
        decreases env@.len() - i,
    {
        let name = env[i].0.clone();
        let port = env[i].1;
        r.push((name, port));
        i = i + 1;
    }
    assert(env_view(r@) =~= env_view(env@));
    r
}

fn bind(env: &mut Vec<(String, Port)>, name: String, p: Port)
    ensures
        env_view(final(env)@) == env_view(old(env)@).push((name@, p)),
{
    env.push((name, p));
    assert(env_view(env@) =~= env_view(old(env)@).push((name@, p)));
}

/// The port bound to `name`, if any: the latest binding wins.
fn lookup_env(env: &Vec<(String, Port)>, name: &String) -> (r: Option<Port>)
    ensures
        r == assoc_get(env_view(env@), name@),
{
    let ghost ev = env_view(env@);
    let mut i: usize = env.len();
    assert(ev.take(i as int) =~= ev);
    while i > 0
        invariant
            i <= env@.len(),
            ev == env_view(env@),
            assoc_get(ev, name@) == assoc_get(ev.take(i as int), name@),
        decreases i,
    {
        let ghost pre = ev.take(i as int);
        assert(pre.drop_last() =~= ev.take(i - 1));
        if env[i - 1].0.eq(name) {
            return Some(env[i - 1].1);
        }
        i = i - 1;
    }
    None
}

/// The functions defined so far, by name; the latest definition of a name
/// is the one in force.
pub struct FunctionTable {
    entries: Vec<(String, FunctionDef)>,
}

impl FunctionTable {
    pub closed spec fn view(&self) -> Seq<(Seq<char>, FunV)> {
        funs_view(self.entries@)
    }
}

/// Compiles VORTEX programs to IR nets.
pub struct Codegen {
    pub net: Net,
    pub functions: FunctionTable,
}

impl Codegen {
    /// The compiler's state: the net and the functions defined so far.
    pub open spec fn state(&self) -> CgState {
        CgState { net: net_model(self.net), funs: self.functions.view() }
    }

    /// A compiler with an empty net and no functions.
    pub fn new() -> (cg: Self)
        ensures
            cg.state().net == (NetModel {
                cells: Map::empty(),
                redexes: Seq::empty(),
                iface: Seq::empty(),
                debug: Map::empty(),
                next_id: 0,
            }),
            cg.state().funs == Seq::<(Seq<char>, FunV)>::empty(),
            ids_below(cg.state().net),
    {
        let cg = Codegen { net: Net::new(), functions: FunctionTable { entries: Vec::new() } };
        assert(cg.state().funs =~= Seq::<(Seq<char>, FunV)>::empty());
        assert(cg.net.debug@.map_values(|s: String| s@) =~= Map::<CellId, Seq<char>>::empty());
        cg
    }

    fn new_cell(&mut self, kind: CellKind) -> (id: CellId)
        requires
            alloc_m(old(self).state().net, kind) is Some,
        ensures
            alloc_m(old(self).state().net, kind) == Some((final(self).state().net, id)),
            final(self).state().funs == old(self).state().funs,
    {
        let id = self.net.allocate(kind);
        proof {
            assert(self.net.debug@.map_values(|s: String| s@) =~= old(self).net.debug@.map_values(|s: String| s@));
        }
        id
    }

    fn connect(&mut self, a: Port, b: Port)
        ensures
            final(self).state() == with_net(old(self).state(), connect_m(old(self).state().net, a, b)),
    {
        self.net.connect(a, b);
        proof {
            assert(self.net.debug@.map_values(|s: String| s@) =~= old(self).net.debug@.map_values(|s: String| s@));
        }
    }

    fn add_redex(&mut self, left: CellId, right: CellId)
        ensures
            final(self).state() == with_net(old(self).state(), redex_m(old(self).state().net, left, right)),
    {
        self.net.add_redex(left, right);
        proof {
            assert(self.net.debug@.map_values(|s: String| s@) =~= old(self).net.debug@.map_values(|s: String| s@));
        }
    }

    /// Names cell `id` in the net's debug names: `prefix` followed by `name`.
    fn name_cell(&mut self, id: CellId, prefix: &str, name: &String)
        ensures
            final(self).state() == with_net(old(self).state(), debug_m(old(self).state().net, id, prefix@ + name@)),
    {
        let mut text = String::new();
        push_str(&mut text, prefix);
        push_str(&mut text, name.as_str());
        let ghost tv = text@;
        assert(tv == prefix@ + name@);
        self.net.debug.insert(id, text);
        proof {
            assert(self.net.debug@.map_values(|s: String| s@) =~= old(self).net.debug@.map_values(|s: String| s@).insert(id, prefix@ + name@));
        }
    }

    fn compile_int(&mut self, n: i64) -> (p: Port)
        requires
            cg_int(old(self).state(), n) is Some,
        ensures
            cg_int(old(self).state(), n) == Some((final(self).state(), p)),
    {
        let id = self.new_cell(CellKind::Num(n));
        Port::Principal(id)
    }

    fn compile_binop_direct(&mut self, op_kind: OpKind, a_port: Port, b_port: Port) -> (p: Port)
        requires
            cg_binop(old(self).state(), op_kind, a_port, b_port) is Some,
        ensures
            cg_binop(old(self).state(), op_kind, a_port, b_port) == Some((final(self).state(), p)),
    {
        let op_cell = self.new_cell(CellKind::Op(op_kind));
        self.connect(Port::Aux(op_cell, 0), a_port);
        self.connect(Port::Aux(op_cell, 1), b_port);
        let left = match a_port {
            Port::Principal(id) => id,
            Port::Aux(id, _) => id,
            Port::Free(_) => op_cell,
        };
        self.add_redex(op_cell, left);
        Port::Principal(op_cell)
    }

    fn compile_var(&self, name: &String, env: &Vec<(String, Port)>) -> (p: Port)
        requires
            assoc_get(env_view(env@), name@) is Some,
        ensures
            assoc_get(env_view(env@), name@) == Some(p),
    {
        match lookup_env(env, name) {
            Some(p) => p,
            None => unreached(),
        }
    }

    /// Compiles an expression with the bindings `env`, and returns the port
    /// of its value.
    fn compile_expr<F: Fn(&String) -> i64>(
        &mut self,
        expr: &Expr,
        env: &mut Vec<(String, Port)>,
        to_int: &F,
        Ghost(fv): Ghost<spec_fn(Seq<char>) -> i64>,
        Ghost(f): Ghost<nat>,
    ) -> (p: Port)
        requires
            float_ok(*to_int, fv),
            cg_expr(old(self).state(), expr@, env_view(old(env)@), fv, f) is Some,
        ensures
            cg_expr(old(self).state(), expr@, env_view(old(env)@), fv, f) == Some(
                (final(self).state(), env_view(final(env)@), p),
            ),
        decreases f, 1nat,
    {
        match expr {
            Expr::Number(n) => self.compile_int(*n),
            Expr::Floating(text) => {
                let v = to_int(text);
                self.compile_int(v)
            },
            Expr::Boolean(b) => self.compile_int(
                if *b {
                    1
                } else {
                    0
                },
            ),
            Expr::String(_) => self.compile_int(0),
            Expr::Ident(name) => self.compile_var(name, env),
            Expr::Unary { op, expr: inner } => self.compile_unary(op, inner, env, to_int, Ghost(fv), Ghost(f)),
            Expr::Binary { left, op, right } => self.compile_binop(op, left, right, env, to_int, Ghost(fv), Ghost(f)),
            Expr::Assignment { name, value } => self.compile_assignment(name, value, env, to_int, Ghost(fv), Ghost(f)),
            Expr::Grouping(inner) => self.compile_expr(inner, env, to_int, Ghost(fv), Ghost((f - 1) as nat)),
            Expr::FunctionCall { callee, arguments } => self.compile_fncall(
                callee,
                arguments,
                env,
                to_int,
                Ghost(fv),
                Ghost((f - 1) as nat),
            ),
            Expr::Return(inner) => self.compile_expr(inner, env, to_int, Ghost(fv), Ghost((f - 1) as nat)),
            Expr::Range { .. } => self.compile_int(0),
        }
    }

    fn compile_unary<F: Fn(&String) -> i64>(
        &mut self,
        op: &Token,
        expr: &Expr,
        env: &mut Vec<(String, Port)>,
        to_int: &F,
        Ghost(fv): Ghost<spec_fn(Seq<char>) -> i64>,
        Ghost(f): Ghost<nat>,
    ) -> (p: Port)
        requires
            float_ok(*to_int, fv),
            cg_expr(old(self).state(), ExprV::Unary { op: op@, expr: Box::new(expr@) }, env_view(old(env)@), fv, f) is Some,
        ensures
            cg_expr(old(self).state(), ExprV::Unary { op: op@, expr: Box::new(expr@) }, env_view(old(env)@), fv, f)
                == Some((final(self).state(), env_view(final(env)@), p)),
        decreases f, 0nat,
    {
        match op {
            Token::Minus => {
                let zero = self.compile_int(0);
                let rhs = self.compile_expr(expr, env, to_int, Ghost(fv), Ghost((f - 1) as nat));
                self.compile_binop_direct(OpKind::Sub, zero, rhs)
            },
            _ => self.compile_expr(expr, env, to_int, Ghost(fv), Ghost((f - 1) as nat)),
        }
    }

    fn compile_assignment<F: Fn(&String) -> i64>(
        &mut self,
        name: &String,
        value: &Expr,
        env: &mut Vec<(String, Port)>,
        to_int: &F,
        Ghost(fv): Ghost<spec_fn(Seq<char>) -> i64>,
        Ghost(f): Ghost<nat>,
    ) -> (p: Port)
        requires
            float_ok(*to_int, fv),
            cg_expr(old(self).state(), ExprV::Assignment { name: name@, value: Box::new(value@) }, env_view(old(env)@), fv, f) is Some,
        ensures
            cg_expr(old(self).state(), ExprV::Assignment { name: name@, value: Box::new(value@) }, env_view(old(env)@), fv, f)
                == Some((final(self).state(), env_view(final(env)@), p)),
        decreases f, 0nat,
    {
        let value_port = self.compile_expr(value, env, to_int, Ghost(fv), Ghost((f - 1) as nat));
        bind(env, name.clone(), value_port);
        value_port
    }

    fn compile_binop<F: Fn(&String) -> i64>(
        &mut self,
        op: &Token,
        a: &Expr,
        b: &Expr,
        env: &mut Vec<(String, Port)>,
        to_int: &F,
        Ghost(fv): Ghost<spec_fn(Seq<char>) -> i64>,
        Ghost(f): Ghost<nat>,
    ) -> (p: Port)
        requires
            float_ok(*to_int, fv),
            cg_expr(old(self).state(), ExprV::Binary { left: Box::new(a@), op: op@, right: Box::new(b@) }, env_view(old(env)@), fv, f) is Some,
        ensures
            cg_expr(old(self).state(), ExprV::Binary { left: Box::new(a@), op: op@, right: Box::new(b@) }, env_view(old(env)@), fv, f)
                == Some((final(self).state(), env_view(final(env)@), p)),
        decreases f, 0nat,
    {
        let op_kind = map_op_token(op);
        let a_port = self.compile_expr(a, env, to_int, Ghost(fv), Ghost((f - 1) as nat));
        let b_port = self.compile_expr(b, env, to_int, Ghost(fv), Ghost((f - 1) as nat));
        self.compile_binop_direct(op_kind, a_port, b_port)
    }

    /// The latest definition of the function `name`, if any.
    fn find_function(&self, name: &String) -> (r: Option<FunctionDef>)
        ensures
            match r {
                Some(d) => assoc_get(self.state().funs, name@) == Some(fun_view(d)),
                None => assoc_get(self.state().funs, name@) is None,
            },
    {
        let ghost fs = self.state().funs;
        let mut i: usize = self.functions.entries.len();
        assert(fs.take(i as int) =~= fs);
        while i > 0
            invariant
                i <= self.functions.entries@.len(),
                fs == funs_view(self.functions.entries@),
                assoc_get(fs, name@) == assoc_get(fs.take(i as int), name@),
            decreases i,
        {
            assert(fs.take(i as int).drop_last() =~= fs.take(i - 1));
            if self.functions.entries[i - 1].0.eq(name) {
                return Some(self.functions.entries[i - 1].1.duplicate());
            }
            i = i - 1;
        }
        None
    }

    fn compile_fncall<F: Fn(&String) -> i64>(
        &mut self,
        callee: &Expr,
        args: &Vec<Expr>,
        env: &mut Vec<(String, Port)>,
        to_int: &F,
        Ghost(fv): Ghost<spec_fn(Seq<char>) -> i64>,
        Ghost(f): Ghost<nat>,
    ) -> (p: Port)
        requires
            float_ok(*to_int, fv),
            cg_call(old(self).state(), callee@, exprs_view(args@), env_view(old(env)@), fv, f) is Some,
        ensures
            cg_call(old(self).state(), callee@, exprs_view(args@), env_view(old(env)@), fv, f) == Some(
                (final(self).state(), env_view(final(env)@), p),
            ),
        decreases f, 1nat,
    {
        proof {
            lemma_exprs_view_index(args@);
        }
        if let Expr::Ident(name) = callee {
            if let Some(function) = self.find_function(name) {
                return self.compile_named_fncall(name, function, args, env, to_int, Ghost(fv), Ghost((f - 1) as nat));
            }
        }
        let _ = self.compile_expr(callee, env, to_int, Ghost(fv), Ghost((f - 1) as nat));
        if args.len() > 0 {
            self.compile_expr(&args[0], env, to_int, Ghost(fv), Ghost((f - 1) as nat))
        } else {
            self.compile_int(0)
        }
    }

    fn compile_named_fncall<F: Fn(&String) -> i64>(
        &mut self,
        function_name: &String,
        function: FunctionDef,
        args: &Vec<Expr>,
        env: &mut Vec<(String, Port)>,
        to_int: &F,
        Ghost(fv): Ghost<spec_fn(Seq<char>) -> i64>,
        Ghost(f): Ghost<nat>,
    ) -> (p: Port)
        requires
            float_ok(*to_int, fv),
            cg_named_call(old(self).state(), function_name@, fun_view(function), exprs_view(args@), env_view(old(env)@), fv, f) is Some,
        ensures
            cg_named_call(old(self).state(), function_name@, fun_view(function), exprs_view(args@), env_view(old(env)@), fv, f)
                == Some((final(self).state(), env_view(final(env)@), p)),
        decreases f, 1nat,
    {
        proof {
            lemma_exprs_view_index(args@);
        }
        let ghost g = (f - 1) as nat;
        let ghost params = strings_view(function.params@);
        let ghost goal = cg_named_call(self.state(), function_name@, fun_view(function), exprs_view(args@), env_view(env@), fv, f);
        let app = self.new_cell(CellKind::Con);
        let function_cell = self.new_cell(CellKind::Con);
        self.name_cell(app, "fn-call:", function_name);
        self.name_cell(function_cell, "fn:", function_name);
        self.connect(Port::Principal(app), Port::Principal(function_cell));
        self.add_redex(app, function_cell);
        let mut fn_env = clone_env(env);
        if args.len() > 0 {
            let arg_port = self.compile_expr(&args[0], env, to_int, Ghost(fv), Ghost(g));
            self.connect(Port::Aux(app, 0), arg_port);
            if function.params.len() > 0 {
                bind(&mut fn_env, function.params[0].clone(), arg_port);
            }
        }
        let ghost mut h: nat = g;
        let mut i: usize = 1;
        while i < function.params.len() && i < args.len()
            invariant
                float_ok(*to_int, fv),
                h <= g,
                g < f,
                1 <= i,
                exprs_view(args@).len() == args@.len(),
                forall|j: int| 0 <= j < args@.len() ==> #[trigger] exprs_view(args@)[j] == args@[j]@,
                params == strings_view(function.params@),
                cg_rest_args(self.state(), params, exprs_view(args@), i as nat, env_view(env@), env_view(fn_env@), fv, h) is Some,
                goal == cg_call_tail(self.state(), app, fun_view(function), exprs_view(args@), i as nat, env_view(env@), env_view(fn_env@), fv, h, g),
                goal is Some,
            decreases args@.len() - i,
        {
            let arg_port = self.compile_expr(&args[i], env, to_int, Ghost(fv), Ghost((h - 1) as nat));
            bind(&mut fn_env, function.params[i].clone(), arg_port);
            i = i + 1;
            proof {
                h = (h - 1) as nat;
            }
        }
        let body_result = match self.compile_stmt(&function.body, &mut fn_env, to_int, Ghost(fv), Ghost(g)) {
            Some(p) => p,
            None => self.compile_int(0),
        };
        self.connect(Port::Aux(app, 1), body_result);
        Port::Aux(app, 1)
    }

    /// Compiles a statement with the bindings `env`, and returns the port of
    /// its value if it has one.
    fn compile_stmt<F: Fn(&String) -> i64>(
        &mut self,
        stmt: &Stmt,
        env: &mut Vec<(String, Port)>,
        to_int: &F,
        Ghost(fv): Ghost<spec_fn(Seq<char>) -> i64>,
        Ghost(f): Ghost<nat>,
    ) -> (r: Option<Port>)
        requires
            float_ok(*to_int, fv),
            cg_stmt(old(self).state(), stmt@, env_view(old(env)@), fv, f) is Some,
        ensures
            cg_stmt(old(self).state(), stmt@, env_view(old(env)@), fv, f) == Some(
                (final(self).state(), env_view(final(env)@), r),
            ),
        decreases f, 1nat,
    {
        let ghost g = (f - 1) as nat;
        match stmt {
            Stmt::Let { name, value, .. } => {
                let value_port = self.compile_expr(value, env, to_int, Ghost(fv), Ghost(g));
                bind(env, name.clone(), value_port);
                Some(value_port)
            },
            Stmt::ExprStmt(expr) => Some(self.compile_expr(expr, env, to_int, Ghost(fv), Ghost(g))),
            Stmt::Block(statements) => {
                let mut local_env = clone_env(env);
                Some(self.compile_statements(statements, &mut local_env, to_int, Ghost(fv), Ghost(g)))
            },
            Stmt::FunctionDef { name, params, body, .. } => {
                let mut names: Vec<String> = Vec::new();
                let mut i: usize = 0;
                while i < params.len()
                    invariant
                        i <= params@.len(),
                        names@.len() == i,
                        forall|j: int| 0 <= j < i ==> #[trigger] names@[j]@ == params@[j].0@,
                    decreases params@.len() - i,
                {
                    names.push(params[i].0.clone());
                    i = i + 1;
                }
                assert(strings_view(names@) =~= param_names(params_view(params@)));
                let def = FunctionDef { params: names, body: (**body).clone() };
                let ghost before = self.functions.entries@;
                self.functions.entries.push((name.clone(), def));
                assert(funs_view(self.functions.entries@) =~= funs_view(before).push((name@, fun_view(def))));
                let fn_cell = self.new_cell(CellKind::Con);
                self.name_cell(fn_cell, "fn-definition:", name);
                None
            },
            Stmt::Return(expr) => Some(self.compile_expr(expr, env, to_int, Ghost(fv), Ghost(g))),
            Stmt::IfStmt { then_branch, .. } => self.compile_stmt(then_branch, env, to_int, Ghost(fv), Ghost(g)),
            Stmt::For { body, .. } => self.compile_stmt(body, env, to_int, Ghost(fv), Ghost(g)),
            Stmt::Parallel { body, .. } => self.compile_stmt(body, env, to_int, Ghost(fv), Ghost(g)),
            Stmt::Branch { body, .. } => self.compile_stmt(body, env, to_int, Ghost(fv), Ghost(g)),
            Stmt::Fallback(body) => self.compile_stmt(body, env, to_int, Ghost(fv), Ghost(g)),
        }
    }

    /// Compiles statements in order and returns the port of the last value
    /// among them, or of a number cell 0 if none has one.
    fn compile_statements<F: Fn(&String) -> i64>(
        &mut self,
        statements: &Vec<Stmt>,
        env: &mut Vec<(String, Port)>,
        to_int: &F,
        Ghost(fv): Ghost<spec_fn(Seq<char>) -> i64>,
        Ghost(f): Ghost<nat>,
    ) -> (p: Port)
        requires
            float_ok(*to_int, fv),
            cg_stmts(old(self).state(), stmts_view(statements@), 0, env_view(old(env)@), None, fv, f) is Some,
        ensures
            cg_stmts(old(self).state(), stmts_view(statements@), 0, env_view(old(env)@), None, fv, f) == Some(
                (final(self).state(), env_view(final(env)@), p),
            ),
        decreases f, 1nat,
    {
        proof {
            lemma_stmts_view_index(statements@);
        }
        let ghost ss = stmts_view(statements@);
        let ghost goal = cg_stmts(self.state(), ss, 0, env_view(env@), None, fv, f);
        let mut last: Option<Port> = None;
        let ghost mut h: nat = f;
        let mut i: usize = 0;
        while i < statements.len()
            invariant
                float_ok(*to_int, fv),
                h <= f,
                i <= statements@.len(),
                ss == stmts_view(statements@),
                ss.len() == statements@.len(),
                forall|j: int| 0 <= j < statements@.len() ==> #[trigger] ss[j] == statements@[j]@,
                goal == cg_stmts(self.state(), ss, i as nat, env_view(env@), last, fv, h),
                goal is Some,
            decreases statements@.len() - i,
        {
            if let Some(value) = self.compile_stmt(&statements[i], env, to_int, Ghost(fv), Ghost((h - 1) as nat)) {
                last = Some(value);
            }
            i = i + 1;
            proof {
                h = (h - 1) as nat;
            }
        }
        match last {
            Some(p) => p,
            None => self.compile_int(0),
        }
    }

    /// Compiles a program and makes the port of its result the root of the
    /// net.  `to_int` gives the integer for the text of a number with a
    /// decimal point.  The compiler does not return where `compiles` fails:
    /// on an unbound variable, on a function that calls itself, or when the
    /// net runs out of cell ids.
    pub fn compile_program<F: Fn(&String) -> i64>(&mut self, program: &Vec<Stmt>, to_int: &F) -> (p: Port)
        requires
            deterministic(*to_int),
            compiles(old(self).state(), stmts_view(program@), float_fn(*to_int)),
        ensures
            (final(self).state(), p) == compiled(old(self).state(), stmts_view(program@), float_fn(*to_int)),
            ids_below(old(self).state().net) && program_value(stmts_view(program@), float_fn(*to_int)) is Some
                ==> reduces(final(self).net) && net_value(final(self).net) == program_value(
                stmts_view(program@),
                float_fn(*to_int),
            )->0,
            ids_below(old(self).state().net) && compiled_value(old(self).state(), stmts_view(program@), float_fn(*to_int))
                is Some ==> reduces(final(self).net) && net_value(final(self).net) == compiled_value(
                old(self).state(),
                stmts_view(program@),
                float_fn(*to_int),
            )->0,
    {
        let ghost fv = float_fn(*to_int);
        proof {
            lemma_float_fn(*to_int);
        }
        let ghost f = choose|f: nat| #[trigger] cg_program(self.state(), stmts_view(program@), fv, f) is Some;
        let ghost start = self.state();
        let mut env: Vec<(String, Port)> = Vec::new();
        assert(env_view(env@) =~= Seq::<(Seq<char>, Port)>::empty());
        let result = self.compile_statements(program, &mut env, to_int, Ghost(fv), Ghost(f));
        let ghost before = self.state();
        if self.net.iface.len() == 0 {
            self.net.iface.push(result);
        } else {
            self.net.iface.set(0, result);
        }
        proof {
            assert(self.net.debug@.map_values(|s: String| s@) =~= before.net.debug);
            if ids_below(start.net) && program_value(stmts_view(program@), fv) is Some {
                lemma_compiled_value(start, stmts_view(program@), fv, f, self.net);
            }
            if ids_below(start.net) && compiled_value(start, stmts_view(program@), fv) is Some {
                lemma_compiled_call_value(start, stmts_view(program@), fv, self.net);
            }
        }
        result
    }

    /// Compiles an expression with the bindings `env` and returns the port
    /// of its value.
    pub fn compile<F: Fn(&String) -> i64>(&mut self, expr: &Expr, env: &mut Vec<(String, Port)>, to_int: &F) -> (p: Port)
        requires
            deterministic(*to_int),
            expr_compiles(old(self).state(), expr@, env_view(old(env)@), float_fn(*to_int)),
        ensures
            (final(self).state(), env_view(final(env)@), p) == expr_compiled(
                old(self).state(),
                expr@,
                env_view(old(env)@),
                float_fn(*to_int),
            ),
    {
        let ghost fv = float_fn(*to_int);
        proof {
            lemma_float_fn(*to_int);
        }
        let ghost f = choose|f: nat| #[trigger] cg_expr(self.state(), expr@, env_view(env@), fv, f) is Some;
        self.compile_expr(expr, env, to_int, Ghost(fv), Ghost(f))
    }
}

/// The operator a binary token compiles to; any other token adds.
fn map_op_token(token: &Token) -> (k: OpKind)
    ensures
        k == map_op(token@),
{
    match token {
        Token::Plus => OpKind::Add,
        Token::Minus => OpKind::Sub,
        Token::Star => OpKind::Mul,
        Token::Slash => OpKind::Div,
        Token::EQ => OpKind::Eq,
        Token::NE => OpKind::Ne,
        Token::LT => OpKind::Lt,
        Token::LE => OpKind::Le,
        Token::GT => OpKind::Gt,
        Token::GE => OpKind::Ge,
        _ => OpKind::Add,
    }
}

} // verus!
