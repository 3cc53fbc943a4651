//! The tree-walking interpreter, proved to compute what `interpreter_spec`
//! states.
//!
//! Numbers with a decimal point are held as the text of their literal; the
//! host supplies what is computed on them as floats, and the text shown for
//! values and operators.  What the program prints, and what the simulated
//! GPU does, is recorded as events, in order, for the host to report.
use crate::ast::{exprs_view, lemma_exprs_view_index, lemma_stmts_view_index, Expr, Stmt};
use crate::environment::{assigned, lookup, Environment};
use crate::gpu_plan::{gpu_function_result, GpuRegistry};
use crate::interpreter_spec::{
    bind_params, call_spec, close_in, define_in, emit, eval_args, eval_spec, exec_block, exec_loop, exec_spec,
    for_bounds, gpu_call_spec, gpu_params, joined, numbers_of, open_in, param_names, parallel_bounds,
    print_fn, ran, rt_debug, run_spec, runs, truthy, unary_spec, binary_spec, plus_spec, numeric_spec,
    compare_spec, value_eq, EventV, HostV, IState, RtV, ValueV,
};
use crate::text::{push_decimal, push_signed_decimal, push_str};
use crate::token::{Token, TokenV};
use vstd::prelude::*;

verus! {

broadcast use vstd::string::group_string_axioms;

/// A value; a number with a decimal point is held as the text of its
/// literal.
#[derive(Debug)]
pub enum Value {
    Number(i64),
    Floating(String),
    String(String),
    Boolean(bool),
    Nil,
    Function(String, Vec<String>, Box<Stmt>, bool),
    Range { start: Box<Value>, end: Box<Value> },
}

#[derive(Debug)]
pub enum RuntimeResult {
    Value(Value),
    Return(Value),
    NoValue,
}

/// What a run reports, in order.
#[derive(Debug)]
pub enum Event {
    /// A line of program output.
    Output(String),
    /// A function registered for the GPU, with its typed parameters.
    GpuRegistered(String, Vec<(String, String)>),
    /// A parallel loop over `start..end` handed to the GPU.
    GpuParallel(String, i64, i64),
    /// A GPU function called with these arguments.
    GpuCallStarted(String, Vec<Value>),
    /// A GPU function finished: its two integer arguments, if any, and its
    /// result.
    GpuCallFinished(String, Option<(i64, i64)>, Option<i64>),
}

pub open spec fn strings_view(v: Seq<String>) -> Seq<Seq<char>> {
    v.map_values(|s: String| s@)
}

impl View for Value {
    type V = ValueV;

    open spec fn view(&self) -> ValueV
        decreases self,
    {
        match self {
            Value::Number(n) => ValueV::Number(*n),
            Value::Floating(t) => ValueV::Floating(t@),
            Value::String(s) => ValueV::Str(s@),
            Value::Boolean(b) => ValueV::Boolean(*b),
            Value::Nil => ValueV::Nil,
            Value::Function(n, ps, body, g) => ValueV::Function(n@, strings_view(ps@), (**body)@, *g),
            Value::Range { start, end } => ValueV::Range(Box::new((**start)@), Box::new((**end)@)),
        }
    }
}

pub open spec fn values_view(v: Seq<Value>) -> Seq<ValueV> {
    v.map_values(|x: Value| x@)
}

pub open spec fn rt_view(r: RuntimeResult) -> RtV {
    match r {
        RuntimeResult::Value(v) => RtV::Value(v@),
        RuntimeResult::Return(v) => RtV::Return(v@),
        RuntimeResult::NoValue => RtV::NoValue,
    }
}

pub open spec fn res_view(r: Result<RuntimeResult, String>) -> Result<RtV, Seq<char>> {
    match r {
        Ok(x) => Ok(rt_view(x)),
        Err(e) => Err(e@),
    }
}

pub open spec fn typed_view(ps: Seq<(String, String)>) -> Seq<(Seq<char>, Seq<char>)> {
    ps.map_values(|p: (String, String)| (p.0@, p.1@))
}

pub open spec fn event_view(e: Event) -> EventV {
    match e {
        Event::Output(s) => EventV::Output(s@),
        Event::GpuRegistered(n, ps) => EventV::GpuRegistered(n@, typed_view(ps@)),
        Event::GpuParallel(v, a, b) => EventV::GpuParallel(v@, a, b),
        Event::GpuCallStarted(n, args) => EventV::GpuCallStarted(n@, values_view(args@)),
        Event::GpuCallFinished(n, nums, r) => EventV::GpuCallFinished(n@, nums, r),
    }
}

pub open spec fn events_view(v: Seq<Event>) -> Seq<EventV> {
    v.map_values(|e: Event| event_view(e))
}

pub open spec fn scopes_view(s: Seq<Map<Seq<char>, Value>>) -> Seq<Map<Seq<char>, ValueV>> {
    s.map_values(|m: Map<Seq<char>, Value>| m.map_values(|v: Value| v@))
}

/// The host's float arithmetic agrees with `f`, and can always be called.
pub open spec fn arith_ok<A: Fn(&Token, &Value, &Value) -> Value>(a: A, f: spec_fn(TokenV, ValueV, ValueV) -> ValueV) -> bool {
    &&& forall|t: &Token, l: &Value, r: &Value| #[trigger] call_requires(a, (t, l, r))
    &&& forall|t: &Token, l: &Value, r: &Value, o: Value| #[trigger] call_ensures(a, (t, l, r), o) ==> o@ == f(t@, l@, r@)
}

pub open spec fn show_ok<S: Fn(&Value, bool) -> String>(s: S, f: spec_fn(ValueV, bool) -> Seq<char>) -> bool {
    &&& forall|v: &Value, d: bool| #[trigger] call_requires(s, (v, d))
    &&& forall|v: &Value, d: bool, o: String| #[trigger] call_ensures(s, (v, d), o) ==> o@ == f(v@, d)
}

pub open spec fn op_text_ok<T: Fn(&Token) -> String>(t: T, f: spec_fn(TokenV) -> Seq<char>) -> bool {
    &&& forall|k: &Token| #[trigger] call_requires(t, (k,))
    &&& forall|k: &Token, o: String| #[trigger] call_ensures(t, (k,), o) ==> o@ == f(k@)
}

/// The host's three functions agree with `h`.
pub open spec fn host_ok<A: Fn(&Token, &Value, &Value) -> Value, S: Fn(&Value, bool) -> String, T: Fn(&Token) -> String>(
    a: A,
    s: S,
    t: T,
    h: HostV,
) -> bool {
    arith_ok(a, h.arith) && show_ok(s, h.show) && op_text_ok(t, h.op_text)
}

/// Each of the host's functions gives one result for each view of its
/// arguments.
pub open spec fn host_deterministic<A: Fn(&Token, &Value, &Value) -> Value, S: Fn(&Value, bool) -> String, T: Fn(&Token) -> String>(
    a: A,
    s: S,
    t: T,
) -> bool {
    &&& forall|k: &Token, l: &Value, r: &Value| #[trigger] call_requires(a, (k, l, r))
    &&& forall|k1: &Token, l1: &Value, r1: &Value, o1: Value, k2: &Token, l2: &Value, r2: &Value, o2: Value|
        #![trigger call_ensures(a, (k1, l1, r1), o1), call_ensures(a, (k2, l2, r2), o2)]
        k1@ == k2@ && l1@ == l2@ && r1@ == r2@ && call_ensures(a, (k1, l1, r1), o1) && call_ensures(a, (k2, l2, r2), o2)
            ==> o1@ == o2@
    &&& forall|v: &Value, d: bool| #[trigger] call_requires(s, (v, d))
    &&& forall|v1: &Value, d1: bool, o1: String, v2: &Value, d2: bool, o2: String|
        #![trigger call_ensures(s, (v1, d1), o1), call_ensures(s, (v2, d2), o2)]
        v1@ == v2@ && d1 == d2 && call_ensures(s, (v1, d1), o1) && call_ensures(s, (v2, d2), o2) ==> o1@ == o2@
    &&& forall|k: &Token| #[trigger] call_requires(t, (k,))
    &&& forall|k1: &Token, o1: String, k2: &Token, o2: String|
        #![trigger call_ensures(t, (k1,), o1), call_ensures(t, (k2,), o2)]
        k1@ == k2@ && call_ensures(t, (k1,), o1) && call_ensures(t, (k2,), o2) ==> o1@ == o2@
}

/// What a deterministic host computes, as functions of views.
pub open spec fn host_of<A: Fn(&Token, &Value, &Value) -> Value, S: Fn(&Value, bool) -> String, T: Fn(&Token) -> String>(
    a: A,
    s: S,
    t: T,
) -> HostV {
    HostV {
        arith: |k: TokenV, l: ValueV, r: ValueV|
            (choose|x: (&Token, &Value, &Value, Value)|
                x.0@ == k && x.1@ == l && x.2@ == r && #[trigger] call_ensures(a, (x.0, x.1, x.2), x.3)).3@,
        show: |v: ValueV, d: bool| (choose|x: (&Value, String)| x.0@ == v && #[trigger] call_ensures(s, (x.0, d), x.1)).1@,
        op_text: |k: TokenV| (choose|x: (&Token, String)| x.0@ == k && #[trigger] call_ensures(t, (x.0,), x.1)).1@,
    }
}

pub proof fn lemma_host_of<A: Fn(&Token, &Value, &Value) -> Value, S: Fn(&Value, bool) -> String, T: Fn(&Token) -> String>(
    a: A,
    s: S,
    t: T,
)
    requires
        host_deterministic(a, s, t),
    ensures
        host_ok(a, s, t, host_of(a, s, t)),
{
    let h = host_of(a, s, t);
    assert forall|k: &Token, l: &Value, r: &Value, o: Value| #[trigger] call_ensures(a, (k, l, r), o) implies o@ == (h.arith)(
        k@,
        l@,
        r@,
    ) by {
        let w = (k, l, r, o);
        assert(w.0@ == k@ && w.1@ == l@ && w.2@ == r@ && call_ensures(a, (w.0, w.1, w.2), w.3));
        let x = choose|x: (&Token, &Value, &Value, Value)|
            x.0@ == k@ && x.1@ == l@ && x.2@ == r@ && #[trigger] call_ensures(a, (x.0, x.1, x.2), x.3);
        assert(call_ensures(a, (x.0, x.1, x.2), x.3));
    }
    assert forall|v: &Value, d: bool, o: String| #[trigger] call_ensures(s, (v, d), o) implies o@ == (h.show)(v@, d) by {
        let w = (v, o);
        assert(w.0@ == v@ && call_ensures(s, (w.0, d), w.1));
        let x = choose|x: (&Value, String)| x.0@ == v@ && #[trigger] call_ensures(s, (x.0, d), x.1);
        assert(call_ensures(s, (x.0, d), x.1));
    }
    assert forall|k: &Token, o: String| #[trigger] call_ensures(t, (k,), o) implies o@ == (h.op_text)(k@) by {
        let w = (k, o);
        assert(w.0@ == k@ && call_ensures(t, (w.0,), w.1));
        let x = choose|x: (&Token, String)| x.0@ == k@ && #[trigger] call_ensures(t, (x.0,), x.1);
        assert(call_ensures(t, (x.0,), x.1));
    }
}

fn clone_strings(v: &Vec<String>) -> (r: Vec<String>)
    ensures
        strings_view(r@) == strings_view(v@),
{
    let mut r: Vec<String> = Vec::new();
    let mut i: usize = 0;
    while i < v.len()
        invariant
            i <= v@.len(),
            r@.len() == i,
            forall|j: int| 0 <= j < i ==> #[trigger] r@[j]@ == v@[j]@,
        decreases v@.len() - i,
    {
        r.push(v[i].clone());
        i = i + 1;
    }
    assert(strings_view(r@) =~= strings_view(v@));
    r
}

/// A copy of a value.
pub fn clone_value(v: &Value) -> (r: Value)
    ensures
        r@ == v@,
    decreases v,
{
    match v {
        Value::Number(n) => Value::Number(*n),
        Value::Floating(t) => Value::Floating(t.clone()),
        Value::String(s) => Value::String(s.clone()),
        Value::Boolean(b) => Value::Boolean(*b),
        Value::Nil => Value::Nil,
        Value::Function(n, ps, body, g) => Value::Function(n.clone(), clone_strings(ps), Box::new((**body).clone()), *g),
        Value::Range { start, end } => Value::Range {
            start: Box::new(clone_value(start)),
            end: Box::new(clone_value(end)),
        },
    }
}

fn clone_values(v: &Vec<Value>) -> (r: Vec<Value>)
    ensures
        values_view(r@) == values_view(v@),
{
    let mut r: Vec<Value> = Vec::new();
    let mut i: usize = 0;
    while i < v.len()
        invariant
            i <= v@.len(),
            r@.len() == i,
            forall|j: int| 0 <= j < i ==> #[trigger] r@[j]@ == v@[j]@,
        decreases v@.len() - i,
    {
        r.push(clone_value(&v[i]));
        i = i + 1;
    }
    assert(values_view(r@) =~= values_view(v@));
    r
}

/// Whether a string holds exactly the given characters.
fn text_is(s: &String, kw: &str) -> (r: bool)
    ensures
        r == (s@ == kw@),
{
    *s == kw.to_owned()
}

/// The host's functions: float arithmetic (`arith`), the text of values
/// (`show`) and of operators (`op_text`).
pub struct Host<A, S, T> {
    pub arith: A,
    pub show: S,
    pub op_text: T,
}

impl<A: Fn(&Token, &Value, &Value) -> Value, S: Fn(&Value, bool) -> String, T: Fn(&Token) -> String> Host<A, S, T> {
    pub open spec fn ok(&self, h: HostV) -> bool {
        host_ok(self.arith, self.show, self.op_text, h)
    }

    fn shown(&self, v: &Value, debug: bool, Ghost(h): Ghost<HostV>) -> (r: String)
        requires
            self.ok(h),
        ensures
            r@ == (h.show)(v@, debug),
    {
        (self.show)(v, debug)
    }

    fn apply(&self, op: &Token, l: &Value, r: &Value, Ghost(h): Ghost<HostV>) -> (o: Value)
        requires
            self.ok(h),
        ensures
            o@ == (h.arith)(op@, l@, r@),
    {
        (self.arith)(op, l, r)
    }

    fn op_name(&self, op: &Token, Ghost(h): Ghost<HostV>) -> (r: String)
        requires
            self.ok(h),
        ensures
            r@ == (h.op_text)(op@),
    {
        (self.op_text)(op)
    }

    fn is_true(&self, v: &Value, Ghost(h): Ghost<HostV>) -> (r: bool)
        requires
            self.ok(h),
        ensures
            r == truthy(v@, h),
    {
        match v {
            Value::Boolean(b) => *b,
            Value::Nil => false,
            Value::Number(n) => *n != 0,
            Value::Floating(_) => {
                let zero = Value::Floating("0.0".to_owned());
                let r = self.apply(&Token::NE, v, &zero, Ghost(h));
                match r {
                    Value::Boolean(b) => b,
                    _ => false,
                }
            },
            Value::String(s) => !s.as_str().is_empty(),
            _ => true,
        }
    }

    fn values_equal(&self, l: &Value, r: &Value, Ghost(h): Ghost<HostV>) -> (b: bool)
        requires
            self.ok(h),
        ensures
            b == value_eq(l@, r@, h),
        decreases l,
    {
        match (l, r) {
            (Value::Number(a), Value::Number(b)) => *a == *b,
            (Value::Floating(_), Value::Floating(_)) => match self.apply(&Token::EQ, l, r, Ghost(h)) {
                Value::Boolean(b) => b,
                _ => false,
            },
            (Value::String(a), Value::String(b)) => *a == *b,
            (Value::Boolean(a), Value::Boolean(b)) => *a == *b,
            (Value::Nil, Value::Nil) => true,
            (Value::Function(..), Value::Function(..)) => {
                let a = self.shown(l, true, Ghost(h));
                let b = self.shown(r, true, Ghost(h));
                a == b
            },
            (Value::Range { start: s1, end: e1 }, Value::Range { start: s2, end: e2 }) => {
                self.values_equal(s1, s2, Ghost(h)) && self.values_equal(e1, e2, Ghost(h))
            },
            _ => false,
        }
    }

    /// The error for operands of the wrong kinds.
    fn operand_error(&self, prefix: &str, l: &Value, r: &Value, Ghost(h): Ghost<HostV>) -> (e: String)
        requires
            self.ok(h),
        ensures
            e@ == prefix@ + (h.show)(l@, false) + " and "@ + (h.show)(r@, false),
    {
        let mut e = String::new();
        push_str(&mut e, prefix);
        let a = self.shown(l, false, Ghost(h));
        push_str(&mut e, a.as_str());
        push_str(&mut e, " and ");
        let b = self.shown(r, false, Ghost(h));
        push_str(&mut e, b.as_str());
        e
    }

    fn plus_op(&self, l: &Value, r: &Value, Ghost(h): Ghost<HostV>) -> (o: Result<Value, String>)
        requires
            self.ok(h),
            plus_spec(l@, r@, h) is Some,
        ensures
            Some(res_value_view(o)) == plus_spec(l@, r@, h),
    {
        match (l, r) {
            (Value::Number(a), Value::Number(b)) => Ok(Value::Number(*a + *b)),
            (Value::String(a), Value::String(b)) => {
                let mut t = a.clone();
                push_str(&mut t, b.as_str());
                Ok(Value::String(t))
            },
            (Value::String(a), Value::Number(b)) => {
                let mut t = a.clone();
                push_signed_decimal(&mut t, *b);
                Ok(Value::String(t))
            },
            (Value::String(a), Value::Floating(_)) => {
                let mut t = a.clone();
                let b = self.shown(r, false, Ghost(h));
                push_str(&mut t, b.as_str());
                Ok(Value::String(t))
            },
            (Value::String(a), Value::Boolean(b)) => {
                let mut t = a.clone();
                push_str(&mut t, if *b { "true" } else { "false" });
                Ok(Value::String(t))
            },
            (Value::Number(a), Value::String(b)) => {
                let mut t = String::new();
                push_signed_decimal(&mut t, *a);
                push_str(&mut t, b.as_str());
                Ok(Value::String(t))
            },
            (Value::Floating(_), Value::String(b)) => {
                let mut t = self.shown(l, false, Ghost(h));
                push_str(&mut t, b.as_str());
                Ok(Value::String(t))
            },
            (Value::Boolean(a), Value::String(b)) => {
                let mut t = String::new();
                push_str(&mut t, if *a { "true" } else { "false" });
                push_str(&mut t, b.as_str());
                Ok(Value::String(t))
            },
            (Value::Number(_), Value::Floating(_)) | (Value::Floating(_), Value::Number(_)) | (
                Value::Floating(_),
                Value::Floating(_),
            ) => Ok(self.apply(&Token::Plus, l, r, Ghost(h))),
            _ => Err(self.operand_error("Cannot apply '+' to ", l, r, Ghost(h))),
        }
    }

    fn numeric_op(&self, op: &Token, l: &Value, r: &Value, Ghost(h): Ghost<HostV>) -> (o: Result<Value, String>)
        requires
            self.ok(h),
            op@ == TokenV::Minus || op@ == TokenV::Star || (op@ == TokenV::Slash && r@ != ValueV::Number(0)),
            numeric_spec(op@, l@, r@, h) is Some,
        ensures
            Some(res_value_view(o)) == numeric_spec(op@, l@, r@, h),
    {
        match (l, r) {
            (Value::Number(a), Value::Number(b)) => {
                match op {
                    Token::Minus => Ok(Value::Number(*a - *b)),
                    Token::Star => Ok(Value::Number(*a * *b)),
                    _ => Ok(Value::Number(a.checked_div(*b).unwrap())),
                }
            },
            (Value::Number(_), Value::Floating(_)) | (Value::Floating(_), Value::Number(_)) | (
                Value::Floating(_),
                Value::Floating(_),
            ) => Ok(self.apply(op, l, r, Ghost(h))),
            _ => Err(self.operand_error("Numeric operation requires numbers, got ", l, r, Ghost(h))),
        }
    }

    fn compare_op(&self, op: &Token, l: &Value, r: &Value, Ghost(h): Ghost<HostV>) -> (o: Result<Value, String>)
        requires
            self.ok(h),
        ensures
            res_value_view(o) == compare_spec(op@, l@, r@, h),
    {
        match (l, r) {
            (Value::Number(a), Value::Number(b)) => Ok(Value::Boolean(
                match op {
                    Token::GT => *a > *b,
                    Token::LT => *a < *b,
                    Token::GE => *a >= *b,
                    _ => *a <= *b,
                },
            )),
            (Value::Number(_), Value::Floating(_)) | (Value::Floating(_), Value::Number(_)) | (
                Value::Floating(_),
                Value::Floating(_),
            ) => Ok(self.apply(op, l, r, Ghost(h))),
            _ => Err(self.operand_error("Comparison requires numbers or compatible types, got ", l, r, Ghost(h))),
        }
    }

    fn binary_op(&self, op: &Token, l: &Value, r: &Value, Ghost(h): Ghost<HostV>) -> (o: Result<Value, String>)
        requires
            self.ok(h),
            binary_spec(op@, l@, r@, h) is Some,
        ensures
            Some(res_value_view(o)) == binary_spec(op@, l@, r@, h),
    {
        match op {
            Token::Plus => self.plus_op(l, r, Ghost(h)),
            Token::Minus | Token::Star => self.numeric_op(op, l, r, Ghost(h)),
            Token::Slash => {
                if let Value::Number(0) = r {
                    return Err("Division by zero (integer)".to_owned());
                }
                if let Value::Floating(_) = r {
                    let zero = Value::Floating("0.0".to_owned());
                    if let Value::Boolean(true) = self.apply(&Token::EQ, r, &zero, Ghost(h)) {
                        return Err("Division by zero (float)".to_owned());
                    }
                }
                self.numeric_op(op, l, r, Ghost(h))
            },
            Token::EQ => Ok(Value::Boolean(self.values_equal(l, r, Ghost(h)))),
            Token::NE => Ok(Value::Boolean(!self.values_equal(l, r, Ghost(h)))),
            Token::GT | Token::LT | Token::GE | Token::LE => self.compare_op(op, l, r, Ghost(h)),
            _ => {
                let mut e = String::new();
                push_str(&mut e, "Unsupported binary operator: ");
                let t = self.op_name(op, Ghost(h));
                push_str(&mut e, t.as_str());
                Err(e)
            },
        }
    }

    fn unary_op(&self, op: &Token, v: &Value, Ghost(h): Ghost<HostV>) -> (o: Result<Value, String>)
        requires
            self.ok(h),
            unary_spec(op@, v@, h) is Some,
        ensures
            Some(res_value_view(o)) == unary_spec(op@, v@, h),
    {
        match op {
            Token::Minus => match v {
                Value::Number(n) => Ok(Value::Number(-*n)),
                Value::Floating(_) => Ok(self.apply(&Token::Minus, &Value::Nil, v, Ghost(h))),
                _ => {
                    let mut e = String::new();
                    push_str(&mut e, "Cannot apply unary '-' to ");
                    let t = self.shown(v, false, Ghost(h));
                    push_str(&mut e, t.as_str());
                    Err(e)
                },
            },
            _ => {
                let mut e = String::new();
                push_str(&mut e, "Unsupported unary operator: ");
                let t = self.op_name(op, Ghost(h));
                push_str(&mut e, t.as_str());
                Err(e)
            },
        }
    }
}

pub open spec fn res_value_view(r: Result<Value, String>) -> Result<ValueV, Seq<char>> {
    match r {
        Ok(v) => Ok(v@),
        Err(e) => Err(e@),
    }
}


pub proof fn lemma_lookup_view(s: Seq<Map<Seq<char>, Value>>, k: Seq<char>)
    ensures
        lookup(scopes_view(s), k) == match lookup(s, k) {
            Some(v) => Some(v@),
            None => None,
        },
    decreases s.len(),
{
    if s.len() > 0 {
        assert(scopes_view(s).drop_last() =~= scopes_view(s.drop_last()));
        assert(scopes_view(s).last() == s.last().map_values(|v: Value| v@));
        lemma_lookup_view(s.drop_last(), k);
    }
}

pub proof fn lemma_assigned_view(s: Seq<Map<Seq<char>, Value>>, k: Seq<char>, v: Value)
    ensures
        assigned(scopes_view(s), k, v@) == match assigned(s, k, v) {
            Some(t) => Some(scopes_view(t)),
            None => None,
        },
    decreases s.len(),
{
    if s.len() > 0 {
        assert(scopes_view(s).drop_last() =~= scopes_view(s.drop_last()));
        assert(scopes_view(s).last() == s.last().map_values(|x: Value| x@));
        if s.last().contains_key(k) {
            assert(s.last().insert(k, v).map_values(|x: Value| x@) =~= s.last().map_values(|x: Value| x@).insert(k, v@));
            assert(scopes_view(s.drop_last().push(s.last().insert(k, v))) =~~= scopes_view(s).drop_last().push(
                scopes_view(s).last().insert(k, v@),
            ));
        } else {
            lemma_assigned_view(s.drop_last(), k, v);
            match assigned(s.drop_last(), k, v) {
                Some(outer) => {
                    assert(scopes_view(outer.push(s.last())) =~= scopes_view(outer).push(scopes_view(s).last()));
                },
                None => {},
            }
        }
    }
}

/// The interpreter: its scopes, the functions registered for the GPU, and
/// the events not yet taken.
pub struct Interpreter {
    env: Environment<Value>,
    gpu: GpuRegistry,
    events: Vec<Event>,
}

impl View for Interpreter {
    type V = IState;

    closed spec fn view(&self) -> IState {
        IState { scopes: scopes_view(self.env.scopes()), gpu: self.gpu.functions(), events: events_view(self.events@) }
    }
}

/// The state a program starts in: `print` is bound, nothing is registered
/// for the GPU and nothing has been reported.
pub open spec fn initial_state() -> IState {
    IState {
        scopes: seq![Map::<Seq<char>, ValueV>::empty().insert("print"@, print_fn())],
        gpu: Map::empty(),
        events: Seq::empty(),
    }
}

impl Interpreter {
    pub closed spec fn wf(&self) -> bool {
        self.env.wf() && self.gpu.wf()
    }

    fn print_value() -> (v: Value)
        ensures
            v@ == print_fn(),
    {
        let mut params: Vec<String> = Vec::new();
        params.push("value".to_owned());
        let v = Value::Function("print".to_owned(), params, Box::new(Stmt::Block(Vec::new())), false);
        assert(strings_view(params@) =~= seq!["value"@]);
        assert(crate::ast::stmts_view(Seq::<Stmt>::empty()) =~= Seq::<crate::ast::StmtV>::empty());
        v
    }

    pub fn new() -> (r: Self)
        ensures
            r.wf(),
            r@ == initial_state(),
    {
        let env = Environment::new(Self::print_value());
        let r = Interpreter { env, gpu: GpuRegistry::new(), events: Vec::new() };
        assert(r@.scopes =~= initial_state().scopes) by {
            assert(scopes_view(r.env.scopes())[0] =~= Map::<Seq<char>, ValueV>::empty().insert("print"@, print_fn()));
        }
        assert(events_view(r.events@) =~= Seq::<EventV>::empty());
        r
    }

    /// Takes the events reported so far, oldest first.
    pub fn take_events(&mut self) -> (r: Vec<Event>)
        requires
            old(self).wf(),
        ensures
            final(self).wf(),
            events_view(r@) == old(self)@.events,
            final(self)@ == (IState { events: Seq::empty(), ..old(self)@ }),
    {
        let mut r: Vec<Event> = Vec::new();
        core::mem::swap(&mut self.events, &mut r);
        assert(events_view(self.events@) =~= Seq::<EventV>::empty());
        r
    }

    fn emit_event(&mut self, e: Event)
        requires
            old(self).wf(),
        ensures
            final(self).wf(),
            final(self)@ == emit(old(self)@, event_view(e)),
    {
        let ghost before = self.events@;
        self.events.push(e);
        assert(events_view(self.events@) =~= events_view(before).push(event_view(e)));
    }

    fn define(&mut self, name: String, v: Value)
        requires
            old(self).wf(),
        ensures
            final(self).wf(),
            final(self)@ == define_in(old(self)@, name@, v@),
    {
        let ghost s0 = self.env.scopes();
        proof {
            self.env.lemma_has_scope();
        }
        self.env.define(name, v);
        proof {
            let t = s0.update(s0.len() - 1, s0.last().insert(name@, v));
            assert(s0.last().insert(name@, v).map_values(|x: Value| x@) =~= scopes_view(s0).last().insert(name@, v@));
            assert(scopes_view(t) =~~= scopes_view(s0).update(s0.len() - 1, scopes_view(s0).last().insert(name@, v@)));
        }
    }

    fn open(&mut self)
        requires
            old(self).wf(),
        ensures
            final(self).wf(),
            final(self)@ == open_in(old(self)@),
    {
        let ghost s0 = self.env.scopes();
        self.env.open_scope();
        assert(Map::<Seq<char>, Value>::empty().map_values(|x: Value| x@) =~= Map::<Seq<char>, ValueV>::empty());
        assert(scopes_view(s0.push(Map::empty())) =~~= scopes_view(s0).push(Map::empty()));
    }

    fn close(&mut self)
        requires
            old(self).wf(),
        ensures
            final(self).wf(),
            final(self)@ == close_in(old(self)@),
    {
        let ghost s0 = self.env.scopes();
        self.env.close_scope();
        proof {
            self.env.lemma_has_scope();
        }
        assert(scopes_view(s0.drop_last()) =~~= scopes_view(s0).drop_last());
    }
}


impl<A: Fn(&Token, &Value, &Value) -> Value, S: Fn(&Value, bool) -> String, T: Fn(&Token) -> String> Host<A, S, T> {
    fn result_text(&self, r: &RuntimeResult, Ghost(h): Ghost<HostV>) -> (t: String)
        requires
            self.ok(h),
        ensures
            t@ == rt_debug(rt_view(*r), h),
    {
        let mut t = String::new();
        match r {
            RuntimeResult::Value(v) => {
                push_str(&mut t, "Value(");
                let x = self.shown(v, true, Ghost(h));
                push_str(&mut t, x.as_str());
                push_str(&mut t, ")");
            },
            RuntimeResult::Return(v) => {
                push_str(&mut t, "Return(");
                let x = self.shown(v, true, Ghost(h));
                push_str(&mut t, x.as_str());
                push_str(&mut t, ")");
            },
            RuntimeResult::NoValue => {
                push_str(&mut t, "None");
            },
        }
        t
    }

    /// The display texts of the values, separated by spaces.
    fn joined_text(&self, vs: &Vec<Value>, Ghost(h): Ghost<HostV>) -> (t: String)
        requires
            self.ok(h),
        ensures
            t@ == joined(values_view(vs@), h),
    {
        let ghost vv = values_view(vs@);
        let mut t = String::new();
        let mut i: usize = 0;
        assert(vv.take(0) =~= Seq::<ValueV>::empty());
        while i < vs.len()
            invariant
                self.ok(h),
                i <= vs@.len(),
                vv == values_view(vs@),
                t@ == joined(vv.take(i as int), h),
            decreases vs@.len() - i,
        {
            if i > 0 {
                push_str(&mut t, " ");
            }
            let x = self.shown(&vs[i], false, Ghost(h));
            push_str(&mut t, x.as_str());
            assert(vv.take(i + 1).drop_last() =~= vv.take(i as int));
            i = i + 1;
        }
        assert(vv.take(i as int) =~= vv);
        t
    }
}

impl Interpreter {
    fn evaluate<A: Fn(&Token, &Value, &Value) -> Value, S: Fn(&Value, bool) -> String, T: Fn(&Token) -> String>(
        &mut self,
        e: &Expr,
        host: &Host<A, S, T>,
        Ghost(h): Ghost<HostV>,
        Ghost(f): Ghost<nat>,
    ) -> (r: Result<RuntimeResult, String>)
        requires
            old(self).wf(),
            host.ok(h),
            eval_spec(old(self)@, e@, h, f) is Some,
        ensures
            final(self).wf(),
            eval_spec(old(self)@, e@, h, f) == Some((final(self)@, res_view(r))),
        decreases f, 0nat, 0nat,
    {
        let ghost g = (f - 1) as nat;
        match e {
            Expr::Number(n) => Ok(RuntimeResult::Value(Value::Number(*n))),
            Expr::Floating(t) => Ok(RuntimeResult::Value(Value::Floating(t.clone()))),
            Expr::Boolean(b) => Ok(RuntimeResult::Value(Value::Boolean(*b))),
            Expr::String(s) => Ok(RuntimeResult::Value(Value::String(s.clone()))),
            Expr::Ident(name) => {
                if text_is(name, "error") {
                    return Err("Encountered parser error placeholder in expression".to_owned());
                }
                if text_is(name, "print") {
                    return Ok(RuntimeResult::Value(Self::print_value()));
                }
                proof {
                    lemma_lookup_view(self.env.scopes(), name@);
                }
                match self.env.get(name.as_str()) {
                    Some(v) => Ok(RuntimeResult::Value(clone_value(v))),
                    None => {
                        let mut m = String::new();
                        push_str(&mut m, "Undefined variable '");
                        push_str(&mut m, name.as_str());
                        push_str(&mut m, "'");
                        Err(m)
                    },
                }
            },
            Expr::Assignment { name, value } => {
                let r = self.evaluate(value, host, Ghost(h), Ghost(g));
                match r {
                    Err(m) => Err(m),
                    Ok(RuntimeResult::Value(v)) => {
                        let keep = clone_value(&v);
                        proof {
                            lemma_assigned_view(self.env.scopes(), name@, keep);
                        }
                        match self.env.assign(name.as_str(), keep) {
                            Ok(()) => Ok(RuntimeResult::Value(v)),
                            Err(m) => Err(m),
                        }
                    },
                    Ok(_) => Err("Cannot assign a non-value (e.g. result of a return) to a variable".to_owned()),
                }
            },
            Expr::Binary { left, op, right } => {
                let l = match self.evaluate(left, host, Ghost(h), Ghost(g)) {
                    Err(m) => {
                        return Err(m);
                    },
                    Ok(x) => x,
                };
                let r = match self.evaluate(right, host, Ghost(h), Ghost(g)) {
                    Err(m) => {
                        return Err(m);
                    },
                    Ok(x) => x,
                };
                match (l, r) {
                    (RuntimeResult::Value(a), RuntimeResult::Value(b)) => match host.binary_op(op, &a, &b, Ghost(h)) {
                        Ok(v) => Ok(RuntimeResult::Value(v)),
                        Err(m) => Err(m),
                    },
                    _ => Err("Operands of binary expression must be values".to_owned()),
                }
            },
            Expr::Unary { op, expr } => {
                let r = self.evaluate(expr, host, Ghost(h), Ghost(g));
                match r {
                    Err(m) => Err(m),
                    Ok(RuntimeResult::Value(v)) => match host.unary_op(op, &v, Ghost(h)) {
                        Ok(w) => Ok(RuntimeResult::Value(w)),
                        Err(m) => Err(m),
                    },
                    Ok(_) => Err("Operand of unary expression must be a value".to_owned()),
                }
            },
            Expr::Grouping(inner) => self.evaluate(inner, host, Ghost(h), Ghost(g)),
            Expr::Return(inner) => {
                let r = self.evaluate(inner, host, Ghost(h), Ghost(g));
                match r {
                    Err(m) => Err(m),
                    Ok(RuntimeResult::Value(v)) => Ok(RuntimeResult::Return(v)),
                    Ok(RuntimeResult::Return(_)) => Err("Nested Expr::Return not supported".to_owned()),
                    Ok(RuntimeResult::NoValue) => Ok(RuntimeResult::Return(Value::Nil)),
                }
            },
            Expr::Range { start, end } => {
                let a = match self.evaluate(start, host, Ghost(h), Ghost(g)) {
                    Err(m) => {
                        return Err(m);
                    },
                    Ok(x) => x,
                };
                let b = match self.evaluate(end, host, Ghost(h), Ghost(g)) {
                    Err(m) => {
                        return Err(m);
                    },
                    Ok(x) => x,
                };
                match (a, b) {
                    (RuntimeResult::Value(x), RuntimeResult::Value(y)) => Ok(
                        RuntimeResult::Value(Value::Range { start: Box::new(x), end: Box::new(y) }),
                    ),
                    _ => Err("Range start and end must evaluate to values.".to_owned()),
                }
            },
            Expr::FunctionCall { callee, arguments } => {
                let c = match self.evaluate(callee, host, Ghost(h), Ghost(g)) {
                    Err(m) => {
                        return Err(m);
                    },
                    Ok(x) => x,
                };
                match c {
                    RuntimeResult::Value(fv) => {
                        let args = match self.evaluate_args(arguments, host, Ghost(h), Ghost(g)) {
                            Err(m) => {
                                return Err(m);
                            },
                            Ok(a) => a,
                        };
                        self.call(fv, args, host, Ghost(h), Ghost(g))
                    },
                    other => {
                        let mut m = String::new();
                        push_str(&mut m, "Callee must be a function, got ");
                        let t = host.result_text(&other, Ghost(h));
                        push_str(&mut m, t.as_str());
                        Err(m)
                    },
                }
            },
        }
    }

    fn evaluate_args<A: Fn(&Token, &Value, &Value) -> Value, S: Fn(&Value, bool) -> String, T: Fn(&Token) -> String>(
        &mut self,
        args: &Vec<Expr>,
        host: &Host<A, S, T>,
        Ghost(h): Ghost<HostV>,
        Ghost(f): Ghost<nat>,
    ) -> (r: Result<Vec<Value>, String>)
        requires
            old(self).wf(),
            host.ok(h),
            eval_args(old(self)@, exprs_view(args@), 0, Seq::empty(), h, f) is Some,
        ensures
            final(self).wf(),
            eval_args(old(self)@, exprs_view(args@), 0, Seq::empty(), h, f) == Some((final(self)@, match r {
                Ok(v) => Ok(values_view(v@)),
                Err(e) => Err(e@),
            })),
        decreases f, 1nat, 0nat,
    {
        proof {
            lemma_exprs_view_index(args@);
        }
        let ghost xs = exprs_view(args@);
        let ghost goal = eval_args(self@, xs, 0, Seq::empty(), h, f);
        let mut vals: Vec<Value> = Vec::new();
        assert(values_view(vals@) =~= Seq::<ValueV>::empty());
        let mut i: usize = 0;
        while i < args.len()
            invariant
                self.wf(),
                host.ok(h),
                i <= args@.len(),
                xs == exprs_view(args@),
                xs.len() == args@.len(),
                forall|j: int| 0 <= j < args@.len() ==> #[trigger] xs[j] == args@[j]@,
                goal == eval_args(old(self)@, exprs_view(args@), 0, Seq::empty(), h, f),
                goal == eval_args(self@, xs, i as nat, values_view(vals@), h, f),
                goal is Some,
            decreases args@.len() - i,
        {
            let r = self.evaluate(&args[i], host, Ghost(h), Ghost(f));
            match r {
                Err(m) => {
                    return Err(m);
                },
                Ok(RuntimeResult::Value(v)) => {
                    let ghost before = vals@;
                    vals.push(v);
                    assert(values_view(vals@) =~= values_view(before).push(v@));
                },
                Ok(_) => {
                    return Err("Function arguments must evaluate to values".to_owned());
                },
            }
            i = i + 1;
        }
        Ok(vals)
    }

    fn gpu_call(&mut self, name: &String, args: Vec<Value>) -> (r: Result<RuntimeResult, String>)
        requires
            old(self).wf(),
            gpu_call_spec(old(self)@, name@, values_view(args@)) is Some,
        ensures
            final(self).wf(),
            gpu_call_spec(old(self)@, name@, values_view(args@)) == Some((final(self)@, res_view(r))),
    {
        let n = args.len();
        if !self.gpu.contains(name.as_str()) {
            let e = match self.gpu.check_call(name.as_str(), n) {
                Ok(()) => String::new(),
                Err(e) => e,
            };
            let mut m = String::new();
            push_str(&mut m, "GPU function '");
            push_str(&mut m, name.as_str());
            push_str(&mut m, "' execution error: ");
            push_str(&mut m, e.as_str());
            return Err(m);
        }
        self.emit_event(Event::GpuCallStarted(name.clone(), clone_values(&args)));
        match self.gpu.check_call(name.as_str(), n) {
            Err(e) => {
                let mut m = String::new();
                push_str(&mut m, "GPU function '");
                push_str(&mut m, name.as_str());
                push_str(&mut m, "' execution error: ");
                push_str(&mut m, e.as_str());
                return Err(m);
            },
            Ok(()) => {},
        }
        let numbers: Option<(i64, i64)> = if n >= 2 {
            match (&args[0], &args[1]) {
                (Value::Number(a), Value::Number(b)) => Some((*a, *b)),
                _ => None,
            }
        } else {
            None
        };
        assert(numbers == numbers_of(values_view(args@)));
        let result = gpu_function_result(name.as_str(), numbers);
        self.emit_event(Event::GpuCallFinished(name.clone(), numbers, result));
        match result {
            Some(v) => Ok(RuntimeResult::Value(Value::Number(v))),
            None => Ok(RuntimeResult::Value(Value::Nil)),
        }
    }

    fn call<A: Fn(&Token, &Value, &Value) -> Value, S: Fn(&Value, bool) -> String, T: Fn(&Token) -> String>(
        &mut self,
        fv: Value,
        args: Vec<Value>,
        host: &Host<A, S, T>,
        Ghost(h): Ghost<HostV>,
        Ghost(f): Ghost<nat>,
    ) -> (r: Result<RuntimeResult, String>)
        requires
            old(self).wf(),
            host.ok(h),
            call_spec(old(self)@, fv@, values_view(args@), h, f) is Some,
        ensures
            final(self).wf(),
            call_spec(old(self)@, fv@, values_view(args@), h, f) == Some((final(self)@, res_view(r))),
        decreases f, 1nat, 0nat,
    {
        match fv {
            Value::Function(name, params, body, gpu) => {
                if text_is(&name, "print") {
                    let mut out = String::new();
                    push_str(&mut out, "Output: ");
                    let t = host.joined_text(&args, Ghost(h));
                    push_str(&mut out, t.as_str());
                    self.emit_event(Event::Output(out));
                    return Ok(RuntimeResult::Value(Value::Nil));
                }
                if args.len() != params.len() {
                    let mut m = String::new();
                    push_str(&mut m, "Function '");
                    push_str(&mut m, name.as_str());
                    push_str(&mut m, "' expects ");
                    push_decimal(&mut m, params.len() as u64);
                    push_str(&mut m, " arguments, but got ");
                    push_decimal(&mut m, args.len() as u64);
                    return Err(m);
                }
                if gpu {
                    return self.gpu_call(&name, args);
                }
                let ghost pv = strings_view(params@);
                let ghost av = values_view(args@);
                self.open();
                let ghost target = bind_params(self@, pv, av, 0);
                let mut i: usize = 0;
                while i < params.len()
                    invariant
                        self.wf(),
                        i <= params@.len(),
                        params@.len() == args@.len(),
                        pv == strings_view(params@),
                        av == values_view(args@),
                        target == bind_params(self@, pv, av, i as nat),
                    decreases params@.len() - i,
                {
                    self.define(params[i].clone(), clone_value(&args[i]));
                    i = i + 1;
                }
                let r = self.execute(&body, host, Ghost(h), Ghost(f));
                match r {
                    Err(m) => Err(m),
                    Ok(x) => {
                        self.close();
                        Ok(RuntimeResult::Value(match x {
                            RuntimeResult::Return(v) => v,
                            RuntimeResult::Value(v) => v,
                            RuntimeResult::NoValue => Value::Nil,
                        }))
                    },
                }
            },
            other => {
                let mut m = String::new();
                push_str(&mut m, "'");
                let t = host.shown(&other, false, Ghost(h));
                push_str(&mut m, t.as_str());
                push_str(&mut m, "' is not callable.");
                Err(m)
            },
        }
    }
}


impl Interpreter {
    fn execute<A: Fn(&Token, &Value, &Value) -> Value, S: Fn(&Value, bool) -> String, T: Fn(&Token) -> String>(
        &mut self,
        st: &Stmt,
        host: &Host<A, S, T>,
        Ghost(h): Ghost<HostV>,
        Ghost(f): Ghost<nat>,
    ) -> (r: Result<RuntimeResult, String>)
        requires
            old(self).wf(),
            host.ok(h),
            exec_spec(old(self)@, st@, h, f) is Some,
        ensures
            final(self).wf(),
            exec_spec(old(self)@, st@, h, f) == Some((final(self)@, res_view(r))),
        decreases f, 0nat, 0nat,
    {
        let ghost g = (f - 1) as nat;
        match st {
            Stmt::ExprStmt(e) => self.evaluate(e, host, Ghost(h), Ghost(g)),
            Stmt::Let { name, value, .. } => {
                let r = self.evaluate(value, host, Ghost(h), Ghost(g));
                match r {
                    Err(m) => Err(m),
                    Ok(RuntimeResult::Value(v)) => {
                        self.define(name.clone(), v);
                        Ok(RuntimeResult::NoValue)
                    },
                    Ok(RuntimeResult::Return(_)) => Err("Invalid return in variable declaration".to_owned()),
                    Ok(RuntimeResult::NoValue) => {
                        self.define(name.clone(), Value::Nil);
                        Ok(RuntimeResult::NoValue)
                    },
                }
            },
            Stmt::Block(ss) => self.run_block(ss, host, Ghost(h), Ghost(g)),
            Stmt::IfStmt { condition, then_branch, else_branch } => {
                let r = self.evaluate(condition, host, Ghost(h), Ghost(g));
                match r {
                    Err(m) => Err(m),
                    Ok(RuntimeResult::Value(c)) => {
                        if host.is_true(&c, Ghost(h)) {
                            self.execute(then_branch, host, Ghost(h), Ghost(g))
                        } else {
                            match else_branch {
                                Some(b) => self.execute(b, host, Ghost(h), Ghost(g)),
                                None => Ok(RuntimeResult::NoValue),
                            }
                        }
                    },
                    Ok(_) => Err("If condition must evaluate to a value".to_owned()),
                }
            },
            Stmt::Branch { condition, body } => {
                let r = self.evaluate(condition, host, Ghost(h), Ghost(g));
                match r {
                    Err(m) => Err(m),
                    Ok(RuntimeResult::Value(c)) => {
                        if host.is_true(&c, Ghost(h)) {
                            self.execute(body, host, Ghost(h), Ghost(g))
                        } else {
                            Ok(RuntimeResult::NoValue)
                        }
                    },
                    Ok(_) => Err("Branch condition must evaluate to a value".to_owned()),
                }
            },
            Stmt::Fallback(body) => self.execute(body, host, Ghost(h), Ghost(g)),
            Stmt::For { var, range, body } => {
                let r = self.evaluate(range, host, Ghost(h), Ghost(g));
                let v = match r {
                    Err(m) => {
                        return Err(m);
                    },
                    Ok(RuntimeResult::Value(v)) => v,
                    Ok(_) => {
                        return Err(
                            "For loop range must be a valid range (e.g., 0..10) or a positive number.".to_owned(),
                        );
                    },
                };
                let (a, b): (i64, i64) = match &v {
                    Value::Range { start, end } => {
                    assert(v@ == ValueV::Range(Box::new((**start)@), Box::new((**end)@)));
                    match (&**start, &**end) {
                        (Value::Number(x), Value::Number(y)) => (*x, *y),
                        _ => {
                            return Err("Range bounds must be numbers.".to_owned());
                        },
                    }
                    },
                    Value::Number(n) => {
                        if *n >= 0 {
                            (0, *n)
                        } else {
                            return Err(
                                "For loop range must be a valid range (e.g., 0..10) or a positive number.".to_owned(),
                            );
                        }
                    },
                    _ => {
                        return Err(
                            "For loop range must be a valid range (e.g., 0..10) or a positive number.".to_owned(),
                        );
                    },
                };
                assert(for_bounds(v@) == Ok::<(i64, i64), Seq<char>>((a, b)));
                self.run_loop(var, a, b, body, host, Ghost(h), Ghost(g))
            },
            Stmt::Parallel { var, range, .. } => {
                let r = self.evaluate(range, host, Ghost(h), Ghost(g));
                let v = match r {
                    Err(m) => {
                        return Err(m);
                    },
                    Ok(RuntimeResult::Value(v)) => v,
                    Ok(_) => {
                        return Err("Invalid range expression for 'parallel' loop".to_owned());
                    },
                };
                let (a, b): (i64, i64) = match &v {
                    Value::Range { start, end } => {
                    assert(v@ == ValueV::Range(Box::new((**start)@), Box::new((**end)@)));
                    match &**start {
                        Value::Number(x) => match &**end {
                            Value::Number(y) => (*x, *y),
                            _ => {
                                return Err("Parallel range end must be a number".to_owned());
                            },
                        },
                        _ => {
                            return Err("Parallel range start must be a number".to_owned());
                        },
                    }
                    },
                    Value::Number(n) => {
                        if *n >= 0 {
                            (0, *n)
                        } else {
                            return Err("Invalid range expression for 'parallel' loop".to_owned());
                        }
                    },
                    _ => {
                        return Err("Invalid range expression for 'parallel' loop".to_owned());
                    },
                };
                assert(parallel_bounds(v@) == Ok::<(i64, i64), Seq<char>>((a, b)));
                self.emit_event(Event::GpuParallel(var.clone(), a, b));
                Ok(RuntimeResult::NoValue)
            },
            Stmt::Return(e) => {
                let r = self.evaluate(e, host, Ghost(h), Ghost(g));
                match r {
                    Err(m) => Err(m),
                    Ok(RuntimeResult::Value(v)) => Ok(RuntimeResult::Return(v)),
                    Ok(RuntimeResult::Return(_)) => Err("Nested return statement not allowed".to_owned()),
                    Ok(RuntimeResult::NoValue) => Ok(RuntimeResult::Return(Value::Nil)),
                }
            },
            Stmt::FunctionDef { name, params, body, gpu, .. } => {
                self.define_function(name, params, body, *gpu);
                Ok(RuntimeResult::NoValue)
            },
        }
    }


    fn run_block<A: Fn(&Token, &Value, &Value) -> Value, S: Fn(&Value, bool) -> String, T: Fn(&Token) -> String>(
        &mut self,
        ss: &Vec<Stmt>,
        host: &Host<A, S, T>,
        Ghost(h): Ghost<HostV>,
        Ghost(g): Ghost<nat>,
    ) -> (r: Result<RuntimeResult, String>)
        requires
            old(self).wf(),
            host.ok(h),
            exec_block(open_in(old(self)@), crate::ast::stmts_view(ss@), 0, RtV::NoValue, h, g) is Some,
        ensures
            final(self).wf(),
            exec_block(open_in(old(self)@), crate::ast::stmts_view(ss@), 0, RtV::NoValue, h, g) == Some(
                (final(self)@, res_view(r)),
            ),
        decreases g, 1nat, 0nat,
    {
        proof {
            lemma_stmts_view_index(ss@);
        }
        let ghost xs = crate::ast::stmts_view(ss@);
        self.open();
        let ghost goal = exec_block(self@, xs, 0, RtV::NoValue, h, g);
        let mut last = RuntimeResult::NoValue;
        let mut i: usize = 0;
        while i < ss.len()
            invariant
                self.wf(),
                host.ok(h),
                i <= ss@.len(),
                xs == crate::ast::stmts_view(ss@),
                xs.len() == ss@.len(),
                forall|j: int| 0 <= j < ss@.len() ==> #[trigger] xs[j] == ss@[j]@,
                goal == exec_block(open_in(old(self)@), xs, 0, RtV::NoValue, h, g),
                goal == exec_block(self@, xs, i as nat, rt_view(last), h, g),
                goal is Some,
            decreases ss@.len() - i,
        {
            let r = self.execute(&ss[i], host, Ghost(h), Ghost(g));
            match r {
                Err(m) => {
                    return Err(m);
                },
                Ok(RuntimeResult::Return(v)) => {
                    self.close();
                    return Ok(RuntimeResult::Return(v));
                },
                Ok(RuntimeResult::Value(v)) => {
                    last = RuntimeResult::Value(v);
                },
                Ok(RuntimeResult::NoValue) => {},
            }
            i = i + 1;
        }
        self.close();
        Ok(last)
    }

    fn run_loop<A: Fn(&Token, &Value, &Value) -> Value, S: Fn(&Value, bool) -> String, T: Fn(&Token) -> String>(
        &mut self,
        var: &String,
        a: i64,
        b: i64,
        body: &Stmt,
        host: &Host<A, S, T>,
        Ghost(h): Ghost<HostV>,
        Ghost(g): Ghost<nat>,
    ) -> (r: Result<RuntimeResult, String>)
        requires
            old(self).wf(),
            host.ok(h),
            exec_loop(old(self)@, var@, a, b, body@, h, g) is Some,
        ensures
            final(self).wf(),
            exec_loop(old(self)@, var@, a, b, body@, h, g) == Some((final(self)@, res_view(r))),
        decreases g, 1nat, 0nat,
    {
        let ghost goal = exec_loop(self@, var@, a, b, body@, h, g);
        let mut i: i64 = a;
        while i < b
            invariant
                self.wf(),
                host.ok(h),
                a <= i,
                goal == exec_loop(old(self)@, var@, a, b, body@, h, g),
                goal == exec_loop(self@, var@, i, b, body@, h, g),
                goal is Some,
            decreases b - i,
        {
            self.open();
            self.define(var.clone(), Value::Number(i));
            let r = self.execute(body, host, Ghost(h), Ghost(g));
            match r {
                Err(m) => {
                    return Err(m);
                },
                Ok(RuntimeResult::Return(v)) => {
                    self.close();
                    return Ok(RuntimeResult::Return(v));
                },
                Ok(_) => {
                    self.close();
                },
            }
            i = i + 1;
        }
        Ok(RuntimeResult::NoValue)
    }

    fn define_function(&mut self, name: &String, params: &Vec<(String, Option<String>)>, body: &Stmt, gpu: bool)
        requires
            old(self).wf(),
        ensures
            final(self).wf(),
            final(self)@ == ({
                let pv = crate::ast::params_view(params@);
                let s1 = define_in(old(self)@, name@, ValueV::Function(name@, param_names(pv), body@, gpu));
                if gpu {
                    emit(
                        IState { gpu: s1.gpu.insert(name@, (gpu_params(pv), body@)), ..s1 },
                        EventV::GpuRegistered(name@, gpu_params(pv)),
                    )
                } else {
                    s1
                }
            }),
    {
        let ghost pv = crate::ast::params_view(params@);
        let mut names: Vec<String> = Vec::new();
        let mut typed: Vec<(String, String)> = Vec::new();
        let mut i: usize = 0;
        while i < params.len()
            invariant
                i <= params@.len(),
                pv == crate::ast::params_view(params@),
                names@.len() == i,
                typed@.len() == i,
                forall|j: int| 0 <= j < i ==> #[trigger] names@[j]@ == pv[j].0,
                forall|j: int| 0 <= j < i ==> (#[trigger] typed@[j]).0@ == pv[j].0 && typed@[j].1@ == match pv[j].1 {
                    Some(t) => t,
                    None => "Any"@,
                },
            decreases params@.len() - i,
        {
            let (pn, pt) = &params[i];
            names.push(pn.clone());
            let ty = match pt {
                Some(t) => t.clone(),
                None => "Any".to_owned(),
            };
            typed.push((pn.clone(), ty));
            i = i + 1;
        }
        assert(strings_view(names@) =~= param_names(pv));
        assert(typed_view(typed@) =~= gpu_params(pv));
        self.define(name.clone(), Value::Function(name.clone(), names, Box::new(body.clone()), gpu));
        if gpu {
            let mut copy: Vec<(String, String)> = Vec::new();
            let mut k: usize = 0;
            while k < typed.len()
                invariant
                    k <= typed@.len(),
                    copy@.len() == k,
                    forall|j: int| 0 <= j < k ==> (#[trigger] copy@[j]).0@ == typed@[j].0@ && copy@[j].1@ == typed@[j].1@,
                decreases typed@.len() - k,
            {
                copy.push((typed[k].0.clone(), typed[k].1.clone()));
                k = k + 1;
            }
            assert(crate::gpu_plan::typed_params_view(copy@) =~= gpu_params(pv));
            self.gpu.register_function(name.clone(), copy, body);
            self.emit_event(Event::GpuRegistered(name.clone(), typed));
        }
    }

    /// Runs a program, statement by statement, and gives the value of the
    /// last statement that gave one (a `return` gives its value at once),
    /// or the first error.
    pub fn interpret<A: Fn(&Token, &Value, &Value) -> Value, S: Fn(&Value, bool) -> String, T: Fn(&Token) -> String>(
        &mut self,
        statements: &Vec<Stmt>,
        host: &Host<A, S, T>,
    ) -> (r: Result<Option<Value>, String>)
        requires
            old(self).wf(),
            host_deterministic(host.arith, host.show, host.op_text),
            runs(old(self)@, crate::ast::stmts_view(statements@), host_of(host.arith, host.show, host.op_text)),
        ensures
            final(self).wf(),
            ran(old(self)@, crate::ast::stmts_view(statements@), host_of(host.arith, host.show, host.op_text)) == (
                final(self)@,
                match r {
                    Ok(Some(v)) => Ok(Some(v@)),
                    Ok(None) => Ok(None),
                    Err(e) => Err(e@),
                },
            ),
    {
        let ghost h = host_of(host.arith, host.show, host.op_text);
        proof {
            lemma_host_of(host.arith, host.show, host.op_text);
            lemma_stmts_view_index(statements@);
        }
        let ghost xs = crate::ast::stmts_view(statements@);
        let ghost f = choose|f: nat| #[trigger] run_spec(self@, xs, 0, None, h, f) is Some;
        let ghost goal = run_spec(self@, xs, 0, None, h, f);
        assert(goal == Some(ran(old(self)@, xs, h)));
        let mut last: Option<Value> = None;
        let mut i: usize = 0;
        while i < statements.len()
            invariant
                self.wf(),
                host.ok(h),
                i <= statements@.len(),
                xs == crate::ast::stmts_view(statements@),
                xs.len() == statements@.len(),
                forall|j: int| 0 <= j < statements@.len() ==> #[trigger] xs[j] == statements@[j]@,
                goal == Some(ran(old(self)@, xs, h)),
                h == host_of(host.arith, host.show, host.op_text),
                goal == run_spec(self@, xs, i as nat, match last {
                    Some(v) => Some(v@),
                    None => None,
                }, h, f),
                goal is Some,
            decreases statements@.len() - i,
        {
            let r = self.execute(&statements[i], host, Ghost(h), Ghost(f));
            match r {
                Err(m) => {
                    return Err(m);
                },
                Ok(RuntimeResult::Return(v)) => {
                    return Ok(Some(v));
                },
                Ok(RuntimeResult::Value(v)) => {
                    if let Value::Nil = v {
                    } else {
                        last = Some(v);
                    }
                },
                Ok(RuntimeResult::NoValue) => {
                    last = None;
                },
            }
            i = i + 1;
        }
        Ok(last)
    }
}

} // verus!
