//! What the tree-walking interpreter computes, stated over views.
//!
//! `eval_spec` and `exec_spec` take a state, a piece of syntax, the host's
//! float arithmetic and text, and a fuel bound; `None` means that the fuel
//! ran out or that the run stops on an integer overflow.
use crate::ast::{ExprV, StmtV};
use crate::environment::{assigned, lookup, undefined_message};
use crate::gpu_plan::gpu_result;
use crate::text::{decimal, signed_decimal};
use crate::token::TokenV;
use crate::ir::OpKind;
use crate::vice::{lemma_div_mod_agree, op_result, toward_zero_remainder, trunc_div};
use vstd::prelude::*;

verus! {

/// A value, with a number that has a decimal point held as text.
pub enum ValueV {
    Number(i64),
    Floating(Seq<char>),
    Str(Seq<char>),
    Boolean(bool),
    Nil,
    Function(Seq<char>, Seq<Seq<char>>, StmtV, bool),
    Range(Box<ValueV>, Box<ValueV>),
}

/// What running a statement or an expression gives.
pub enum RtV {
    Value(ValueV),
    Return(ValueV),
    NoValue,
}

/// Something the run reports, in order: a line of program output, or a
/// step of the simulated GPU.
pub enum EventV {
    Output(Seq<char>),
    GpuRegistered(Seq<char>, Seq<(Seq<char>, Seq<char>)>),
    GpuParallel(Seq<char>, i64, i64),
    GpuCallStarted(Seq<char>, Seq<ValueV>),
    GpuCallFinished(Seq<char>, Option<(i64, i64)>, Option<i64>),
}

/// The state of the interpreter: its scopes (outermost first), the
/// functions registered for the GPU, and what it has reported.
pub struct IState {
    pub scopes: Seq<Map<Seq<char>, ValueV>>,
    pub gpu: Map<Seq<char>, (Seq<(Seq<char>, Seq<char>)>, StmtV)>,
    pub events: Seq<EventV>,
}

/// What the host computes on floating-point numbers, and the text it
/// shows for values and operators.
pub struct HostV {
    /// An operator applied where a float takes part; `Nil` on the left
    /// stands for the unary operator.
    pub arith: spec_fn(TokenV, ValueV, ValueV) -> ValueV,
    /// The text of a value: as displayed (`false`) or as debug output (`true`).
    pub show: spec_fn(ValueV, bool) -> Seq<char>,
    /// The debug text of an operator token.
    pub op_text: spec_fn(TokenV) -> Seq<char>,
}

pub open spec fn print_fn() -> ValueV {
    ValueV::Function("print"@, seq!["value"@], StmtV::Block(Seq::empty()), false)
}

pub open spec fn with_scopes(st: IState, scopes: Seq<Map<Seq<char>, ValueV>>) -> IState {
    IState { scopes, ..st }
}

pub open spec fn emit(st: IState, e: EventV) -> IState {
    IState { events: st.events.push(e), ..st }
}

/// `k` bound to `v` in the innermost scope.
pub open spec fn define_in(st: IState, k: Seq<char>, v: ValueV) -> IState {
    with_scopes(st, st.scopes.update(st.scopes.len() - 1, st.scopes.last().insert(k, v)))
}

pub open spec fn open_in(st: IState) -> IState {
    with_scopes(st, st.scopes.push(Map::empty()))
}

pub open spec fn close_in(st: IState) -> IState {
    with_scopes(st, if st.scopes.len() > 1 {
        st.scopes.drop_last()
    } else {
        st.scopes
    })
}

pub open spec fn fit(x: int) -> Option<i64> {
    if i64::MIN <= x <= i64::MAX {
        Some(x as i64)
    } else {
        None
    }
}

pub open spec fn bool_text(b: bool) -> Seq<char> {
    if b {
        "true"@
    } else {
        "false"@
    }
}

/// Whether a value counts as true in a condition.
pub open spec fn truthy(v: ValueV, h: HostV) -> bool {
    match v {
        ValueV::Boolean(b) => b,
        ValueV::Nil => false,
        ValueV::Number(n) => n != 0,
        ValueV::Floating(_) => (h.arith)(TokenV::NE, v, ValueV::Floating("0.0"@)) == ValueV::Boolean(true),
        ValueV::Str(s) => s.len() > 0,
        _ => true,
    }
}

/// Equality of values: floats as the host compares them, functions by their
/// debug text, ranges by their ends.
pub open spec fn value_eq(l: ValueV, r: ValueV, h: HostV) -> bool
    decreases l,
{
    match (l, r) {
        (ValueV::Number(a), ValueV::Number(b)) => a == b,
        (ValueV::Floating(_), ValueV::Floating(_)) => (h.arith)(TokenV::EQ, l, r) == ValueV::Boolean(true),
        (ValueV::Str(a), ValueV::Str(b)) => a == b,
        (ValueV::Boolean(a), ValueV::Boolean(b)) => a == b,
        (ValueV::Nil, ValueV::Nil) => true,
        (ValueV::Function(..), ValueV::Function(..)) => (h.show)(l, true) == (h.show)(r, true),
        (ValueV::Range(s1, e1), ValueV::Range(s2, e2)) => value_eq(*s1, *s2, h) && value_eq(*e1, *e2, h),
        _ => false,
    }
}

pub open spec fn is_num(v: ValueV) -> bool {
    v is Number || v is Floating
}

/// `-`, `*` and `/` on two numbers; `None` on an integer overflow.
pub open spec fn numeric_spec(op: TokenV, l: ValueV, r: ValueV, h: HostV) -> Option<Result<ValueV, Seq<char>>> {
    match (l, r) {
        (ValueV::Number(a), ValueV::Number(b)) => {
            let x: int = if op == TokenV::Minus {
                a - b
            } else if op == TokenV::Star {
                a * b
            } else {
                trunc_div(a as int, b as int)
            };
            match fit(x) {
                Some(n) => Some(Ok(ValueV::Number(n))),
                None => None,
            }
        },
        _ => if is_num(l) && is_num(r) {
            Some(Ok((h.arith)(op, l, r)))
        } else {
            Some(Err("Numeric operation requires numbers, got "@ + (h.show)(l, false) + " and "@ + (h.show)(r, false)))
        },
    }
}

pub open spec fn compare_spec(op: TokenV, l: ValueV, r: ValueV, h: HostV) -> Result<ValueV, Seq<char>> {
    match (l, r) {
        (ValueV::Number(a), ValueV::Number(b)) => Ok(ValueV::Boolean(
            if op == TokenV::GT {
                a > b
            } else if op == TokenV::LT {
                a < b
            } else if op == TokenV::GE {
                a >= b
            } else {
                a <= b
            },
        )),
        _ => if is_num(l) && is_num(r) {
            Ok((h.arith)(op, l, r))
        } else {
            Err("Comparison requires numbers or compatible types, got "@ + (h.show)(l, false) + " and "@ + (h.show)(r, false))
        },
    }
}

pub open spec fn plus_spec(l: ValueV, r: ValueV, h: HostV) -> Option<Result<ValueV, Seq<char>>> {
    match (l, r) {
        (ValueV::Number(a), ValueV::Number(b)) => match fit(a + b) {
            Some(n) => Some(Ok(ValueV::Number(n))),
            None => None,
        },
        (ValueV::Str(a), ValueV::Str(b)) => Some(Ok(ValueV::Str(a + b))),
        (ValueV::Str(a), ValueV::Number(b)) => Some(Ok(ValueV::Str(a + signed_decimal(b as int)))),
        (ValueV::Str(a), ValueV::Floating(_)) => Some(Ok(ValueV::Str(a + (h.show)(r, false)))),
        (ValueV::Str(a), ValueV::Boolean(b)) => Some(Ok(ValueV::Str(a + bool_text(b)))),
        (ValueV::Number(a), ValueV::Str(b)) => Some(Ok(ValueV::Str(signed_decimal(a as int) + b))),
        (ValueV::Floating(_), ValueV::Str(b)) => Some(Ok(ValueV::Str((h.show)(l, false) + b))),
        (ValueV::Boolean(a), ValueV::Str(b)) => Some(Ok(ValueV::Str(bool_text(a) + b))),
        _ => if is_num(l) && is_num(r) {
            Some(Ok((h.arith)(TokenV::Plus, l, r)))
        } else {
            Some(Err("Cannot apply '+' to "@ + (h.show)(l, false) + " and "@ + (h.show)(r, false)))
        },
    }
}

/// A binary operator applied to two values.
pub open spec fn binary_spec(op: TokenV, l: ValueV, r: ValueV, h: HostV) -> Option<Result<ValueV, Seq<char>>> {
    if op == TokenV::Plus {
        plus_spec(l, r, h)
    } else if op == TokenV::Minus || op == TokenV::Star {
        numeric_spec(op, l, r, h)
    } else if op == TokenV::Slash {
        if r == ValueV::Number(0) {
            Some(Err("Division by zero (integer)"@))
        } else if r is Floating && (h.arith)(TokenV::EQ, r, ValueV::Floating("0.0"@)) == ValueV::Boolean(true) {
            Some(Err("Division by zero (float)"@))
        } else {
            numeric_spec(op, l, r, h)
        }
    } else if op == TokenV::EQ {
        Some(Ok(ValueV::Boolean(value_eq(l, r, h))))
    } else if op == TokenV::NE {
        Some(Ok(ValueV::Boolean(!value_eq(l, r, h))))
    } else if op == TokenV::GT || op == TokenV::LT || op == TokenV::GE || op == TokenV::LE {
        Some(compare_spec(op, l, r, h))
    } else {
        Some(Err("Unsupported binary operator: "@ + (h.op_text)(op)))
    }
}

/// A unary operator applied to a value.
pub open spec fn unary_spec(op: TokenV, v: ValueV, h: HostV) -> Option<Result<ValueV, Seq<char>>> {
    if op == TokenV::Minus {
        match v {
            ValueV::Number(n) => match fit(-n) {
                Some(m) => Some(Ok(ValueV::Number(m))),
                None => None,
            },
            ValueV::Floating(_) => Some(Ok((h.arith)(TokenV::Minus, ValueV::Nil, v))),
            _ => Some(Err("Cannot apply unary '-' to "@ + (h.show)(v, false))),
        }
    } else {
        Some(Err("Unsupported unary operator: "@ + (h.op_text)(op)))
    }
}

/// The display texts of values, separated by single spaces.
pub open spec fn joined(vs: Seq<ValueV>, h: HostV) -> Seq<char>
    decreases vs.len(),
{
    if vs.len() == 0 {
        Seq::empty()
    } else if vs.len() == 1 {
        (h.show)(vs[0], false)
    } else {
        joined(vs.drop_last(), h) + " "@ + (h.show)(vs.last(), false)
    }
}

/// The debug text of what a callee evaluated to, where it is no value.
pub open spec fn rt_debug(r: RtV, h: HostV) -> Seq<char> {
    match r {
        RtV::Value(v) => "Value("@ + (h.show)(v, true) + ")"@,
        RtV::Return(v) => "Return("@ + (h.show)(v, true) + ")"@,
        RtV::NoValue => "None"@,
    }
}

/// The first two arguments, where both are integers.
pub open spec fn numbers_of(args: Seq<ValueV>) -> Option<(i64, i64)> {
    if args.len() >= 2 && args[0] is Number && args[1] is Number {
        Some((args[0]->Number_0, args[1]->Number_0))
    } else {
        None
    }
}

/// The GPU computes the function without overflowing.
pub open spec fn gpu_fits(name: Seq<char>, numbers: Option<(i64, i64)>) -> bool {
    match numbers {
        Some((a, b)) => (name == seq!['a', 'd', 'd', '_', 'g', 'p', 'u'] ==> i64::MIN <= a + b <= i64::MAX) && (name
            == seq!['g', 'p', 'u', '_', 'm', 'u', 'l', 't', 'i', 'p', 'l', 'y'] ==> i64::MIN <= a * b <= i64::MAX),
        None => true,
    }
}

pub open spec fn gpu_error(name: Seq<char>, e: Seq<char>) -> Seq<char> {
    "GPU function '"@ + name + "' execution error: "@ + e
}

/// A call of a function that runs on the GPU.
pub open spec fn gpu_call_spec(st: IState, name: Seq<char>, args: Seq<ValueV>) -> Option<(IState, Result<RtV, Seq<char>>)> {
    if !st.gpu.contains_key(name) {
        Some((st, Err(gpu_error(name, "GPU function '"@ + name + "' not found"@))))
    } else {
        let st1 = emit(st, EventV::GpuCallStarted(name, args));
        let count = st.gpu[name].0.len();
        if count != args.len() {
            Some((st1, Err(gpu_error(name, "GPU function '"@ + name + "' expects "@ + decimal(count) + " arguments, but got "@
                + decimal(args.len())))))
        } else {
            let numbers = numbers_of(args);
            if !gpu_fits(name, numbers) {
                None
            } else {
                let r = gpu_result(name, numbers);
                let st2 = emit(st1, EventV::GpuCallFinished(name, numbers, r));
                Some((st2, Ok(RtV::Value(match r {
                    Some(v) => ValueV::Number(v),
                    None => ValueV::Nil,
                }))))
            }
        }
    }
}

/// The names of the parameters, and the parameters with their types as the
/// GPU registers them (`Any` where none is written).
pub open spec fn param_names(ps: Seq<(Seq<char>, Option<Seq<char>>)>) -> Seq<Seq<char>> {
    ps.map_values(|p: (Seq<char>, Option<Seq<char>>)| p.0)
}

pub open spec fn gpu_params(ps: Seq<(Seq<char>, Option<Seq<char>>)>) -> Seq<(Seq<char>, Seq<char>)> {
    ps.map_values(
        |p: (Seq<char>, Option<Seq<char>>)|
            (
                p.0,
                match p.1 {
                    Some(t) => t,
                    None => "Any"@,
                },
            ),
    )
}

/// The value of an expression.
pub open spec fn eval_spec(st: IState, e: ExprV, h: HostV, fuel: nat) -> Option<(IState, Result<RtV, Seq<char>>)>
    decreases fuel, 0nat, 0nat,
{
    if fuel == 0 {
        None
    } else {
        let g = (fuel - 1) as nat;
        match e {
            ExprV::Number(n) => if i64::MIN <= n <= i64::MAX {
                Some((st, Ok(RtV::Value(ValueV::Number(n as i64)))))
            } else {
                None
            },
            ExprV::Floating(t) => Some((st, Ok(RtV::Value(ValueV::Floating(t))))),
            ExprV::Boolean(b) => Some((st, Ok(RtV::Value(ValueV::Boolean(b))))),
            ExprV::String(s) => Some((st, Ok(RtV::Value(ValueV::Str(s))))),
            ExprV::Ident(name) => if name == "error"@ {
                Some((st, Err("Encountered parser error placeholder in expression"@)))
            } else if name == "print"@ {
                Some((st, Ok(RtV::Value(print_fn()))))
            } else {
                match lookup(st.scopes, name) {
                    Some(v) => Some((st, Ok(RtV::Value(v)))),
                    None => Some((st, Err("Undefined variable '"@ + name + "'"@))),
                }
            },
            ExprV::Assignment { name, value } => match eval_spec(st, *value, h, g) {
                None => None,
                Some((s1, Err(m))) => Some((s1, Err(m))),
                Some((s1, Ok(RtV::Value(v)))) => match assigned(s1.scopes, name, v) {
                    Some(scopes) => Some((with_scopes(s1, scopes), Ok(RtV::Value(v)))),
                    None => Some((s1, Err(undefined_message(name)))),
                },
                Some((s1, Ok(_))) => Some((s1, Err("Cannot assign a non-value (e.g. result of a return) to a variable"@))),
            },
            ExprV::Binary { left, op, right } => match eval_spec(st, *left, h, g) {
                None => None,
                Some((s1, Err(m))) => Some((s1, Err(m))),
                Some((s1, Ok(lr))) => match eval_spec(s1, *right, h, g) {
                    None => None,
                    Some((s2, Err(m))) => Some((s2, Err(m))),
                    Some((s2, Ok(rr))) => match (lr, rr) {
                        (RtV::Value(a), RtV::Value(b)) => match binary_spec(op, a, b, h) {
                            None => None,
                            Some(Ok(v)) => Some((s2, Ok(RtV::Value(v)))),
                            Some(Err(m)) => Some((s2, Err(m))),
                        },
                        _ => Some((s2, Err("Operands of binary expression must be values"@))),
                    },
                },
            },
            ExprV::Unary { op, expr } => match eval_spec(st, *expr, h, g) {
                None => None,
                Some((s1, Err(m))) => Some((s1, Err(m))),
                Some((s1, Ok(RtV::Value(v)))) => match unary_spec(op, v, h) {
                    None => None,
                    Some(Ok(w)) => Some((s1, Ok(RtV::Value(w)))),
                    Some(Err(m)) => Some((s1, Err(m))),
                },
                Some((s1, Ok(_))) => Some((s1, Err("Operand of unary expression must be a value"@))),
            },
            ExprV::Grouping(inner) => eval_spec(st, *inner, h, g),
            ExprV::Return(inner) => match eval_spec(st, *inner, h, g) {
                None => None,
                Some((s1, Err(m))) => Some((s1, Err(m))),
                Some((s1, Ok(RtV::Value(v)))) => Some((s1, Ok(RtV::Return(v)))),
                Some((s1, Ok(RtV::Return(_)))) => Some((s1, Err("Nested Expr::Return not supported"@))),
                Some((s1, Ok(RtV::NoValue))) => Some((s1, Ok(RtV::Return(ValueV::Nil)))),
            },
            ExprV::Range { start, end } => match eval_spec(st, *start, h, g) {
                None => None,
                Some((s1, Err(m))) => Some((s1, Err(m))),
                Some((s1, Ok(a))) => match eval_spec(s1, *end, h, g) {
                    None => None,
                    Some((s2, Err(m))) => Some((s2, Err(m))),
                    Some((s2, Ok(b))) => match (a, b) {
                        (RtV::Value(x), RtV::Value(y)) => Some((s2, Ok(RtV::Value(ValueV::Range(Box::new(x), Box::new(y)))))),
                        _ => Some((s2, Err("Range start and end must evaluate to values."@))),
                    },
                },
            },
            ExprV::FunctionCall { callee, arguments } => match eval_spec(st, *callee, h, g) {
                None => None,
                Some((s1, Err(m))) => Some((s1, Err(m))),
                Some((s1, Ok(RtV::Value(f)))) => match eval_args(s1, arguments, 0, Seq::empty(), h, g) {
                    None => None,
                    Some((s2, Err(m))) => Some((s2, Err(m))),
                    Some((s2, Ok(args))) => call_spec(s2, f, args, h, g),
                },
                Some((s1, Ok(r))) => Some((s1, Err("Callee must be a function, got "@ + rt_debug(r, h)))),
            },
        }
    }
}

/// The values of the arguments from index `i` on, after those in `done`.
pub open spec fn eval_args(
    st: IState,
    args: Seq<ExprV>,
    i: nat,
    done: Seq<ValueV>,
    h: HostV,
    fuel: nat,
) -> Option<(IState, Result<Seq<ValueV>, Seq<char>>)>
    decreases fuel, 1nat, args.len() - i,
{
    if i >= args.len() {
        Some((st, Ok(done)))
    } else {
        match eval_spec(st, args[i as int], h, fuel) {
            None => None,
            Some((s1, Err(m))) => Some((s1, Err(m))),
            Some((s1, Ok(RtV::Value(v)))) => eval_args(s1, args, i + 1, done.push(v), h, fuel),
            Some((s1, Ok(_))) => Some((s1, Err("Function arguments must evaluate to values"@))),
        }
    }
}

/// Scopes with the parameters bound, one after another, to the arguments.
pub open spec fn bind_params(st: IState, params: Seq<Seq<char>>, args: Seq<ValueV>, i: nat) -> IState
    decreases params.len() - i,
{
    if i >= params.len() || i >= args.len() {
        st
    } else {
        bind_params(define_in(st, params[i as int], args[i as int]), params, args, i + 1)
    }
}

/// Calling a value with arguments.
pub open spec fn call_spec(st: IState, f: ValueV, args: Seq<ValueV>, h: HostV, fuel: nat) -> Option<(IState, Result<RtV, Seq<char>>)>
    decreases fuel, 1nat, 0nat,
{
    match f {
        ValueV::Function(name, params, body, gpu) => if name == "print"@ {
            Some((emit(st, EventV::Output("Output: "@ + joined(args, h))), Ok(RtV::Value(ValueV::Nil))))
        } else if args.len() != params.len() {
            Some((st, Err("Function '"@ + name + "' expects "@ + decimal(params.len()) + " arguments, but got "@ + decimal(
                args.len(),
            ))))
        } else if gpu {
            gpu_call_spec(st, name, args)
        } else {
            let s1 = bind_params(open_in(st), params, args, 0);
            match exec_spec(s1, body, h, fuel) {
                None => None,
                Some((s2, Err(m))) => Some((s2, Err(m))),
                Some((s2, Ok(r))) => Some((close_in(s2), Ok(RtV::Value(match r {
                    RtV::Return(v) => v,
                    RtV::Value(v) => v,
                    RtV::NoValue => ValueV::Nil,
                })))),
            }
        },
        _ => Some((st, Err("'"@ + (h.show)(f, false) + "' is not callable."@))),
    }
}

/// Running the statements of a block from index `i` on; `last` is what the
/// block gives so far.
pub open spec fn exec_block(
    st: IState,
    ss: Seq<StmtV>,
    i: nat,
    last: RtV,
    h: HostV,
    fuel: nat,
) -> Option<(IState, Result<RtV, Seq<char>>)>
    decreases fuel, 1nat, ss.len() - i,
{
    if i >= ss.len() {
        Some((close_in(st), Ok(last)))
    } else {
        match exec_spec(st, ss[i as int], h, fuel) {
            None => None,
            Some((s1, Err(m))) => Some((s1, Err(m))),
            Some((s1, Ok(RtV::Return(v)))) => Some((close_in(s1), Ok(RtV::Return(v)))),
            Some((s1, Ok(RtV::Value(v)))) => exec_block(s1, ss, i + 1, RtV::Value(v), h, fuel),
            Some((s1, Ok(RtV::NoValue))) => exec_block(s1, ss, i + 1, last, h, fuel),
        }
    }
}

/// Running a loop body for `var` from `i` up to `end` (not included).
pub open spec fn exec_loop(
    st: IState,
    var: Seq<char>,
    i: i64,
    end: i64,
    body: StmtV,
    h: HostV,
    fuel: nat,
) -> Option<(IState, Result<RtV, Seq<char>>)>
    decreases fuel, 1nat, end - i,
{
    if i >= end {
        Some((st, Ok(RtV::NoValue)))
    } else {
        let s0 = define_in(open_in(st), var, ValueV::Number(i));
        match exec_spec(s0, body, h, fuel) {
            None => None,
            Some((s1, Err(m))) => Some((s1, Err(m))),
            Some((s1, Ok(RtV::Return(v)))) => Some((close_in(s1), Ok(RtV::Return(v)))),
            Some((s1, Ok(_))) => exec_loop(close_in(s1), var, (i + 1) as i64, end, body, h, fuel),
        }
    }
}

/// The bounds of a `for` loop's range, or the error.
pub open spec fn for_bounds(v: ValueV) -> Result<(i64, i64), Seq<char>> {
    match v {
        ValueV::Range(s, e) => match (*s, *e) {
            (ValueV::Number(a), ValueV::Number(b)) => Ok((a, b)),
            _ => Err("Range bounds must be numbers."@),
        },
        ValueV::Number(n) => if n >= 0 {
            Ok((0, n))
        } else {
            Err("For loop range must be a valid range (e.g., 0..10) or a positive number."@)
        },
        _ => Err("For loop range must be a valid range (e.g., 0..10) or a positive number."@),
    }
}

/// The bounds of a `parallel` loop's range, or the error.
pub open spec fn parallel_bounds(v: ValueV) -> Result<(i64, i64), Seq<char>> {
    match v {
        ValueV::Range(s, e) => match *s {
            ValueV::Number(a) => match *e {
                ValueV::Number(b) => Ok((a, b)),
                _ => Err("Parallel range end must be a number"@),
            },
            _ => Err("Parallel range start must be a number"@),
        },
        ValueV::Number(n) => if n >= 0 {
            Ok((0, n))
        } else {
            Err("Invalid range expression for 'parallel' loop"@)
        },
        _ => Err("Invalid range expression for 'parallel' loop"@),
    }
}

/// What running a statement does.
pub open spec fn exec_spec(st: IState, s: StmtV, h: HostV, fuel: nat) -> Option<(IState, Result<RtV, Seq<char>>)>
    decreases fuel, 0nat, 0nat,
{
    if fuel == 0 {
        None
    } else {
        let g = (fuel - 1) as nat;
        match s {
            StmtV::ExprStmt(e) => eval_spec(st, e, h, g),
            StmtV::Let { name, value, .. } => match eval_spec(st, value, h, g) {
                None => None,
                Some((s1, Err(m))) => Some((s1, Err(m))),
                Some((s1, Ok(RtV::Value(v)))) => Some((define_in(s1, name, v), Ok(RtV::NoValue))),
                Some((s1, Ok(RtV::Return(_)))) => Some((s1, Err("Invalid return in variable declaration"@))),
                Some((s1, Ok(RtV::NoValue))) => Some((define_in(s1, name, ValueV::Nil), Ok(RtV::NoValue))),
            },
            StmtV::Block(ss) => exec_block(open_in(st), ss, 0, RtV::NoValue, h, g),
            StmtV::IfStmt { condition, then_branch, else_branch } => match eval_spec(st, condition, h, g) {
                None => None,
                Some((s1, Err(m))) => Some((s1, Err(m))),
                Some((s1, Ok(RtV::Value(c)))) => if truthy(c, h) {
                    exec_spec(s1, *then_branch, h, g)
                } else {
                    match else_branch {
                        Some(b) => exec_spec(s1, *b, h, g),
                        None => Some((s1, Ok(RtV::NoValue))),
                    }
                },
                Some((s1, Ok(_))) => Some((s1, Err("If condition must evaluate to a value"@))),
            },
            StmtV::Branch { condition, body } => match eval_spec(st, condition, h, g) {
                None => None,
                Some((s1, Err(m))) => Some((s1, Err(m))),
                Some((s1, Ok(RtV::Value(c)))) => if truthy(c, h) {
                    exec_spec(s1, *body, h, g)
                } else {
                    Some((s1, Ok(RtV::NoValue)))
                },
                Some((s1, Ok(_))) => Some((s1, Err("Branch condition must evaluate to a value"@))),
            },
            StmtV::Fallback(body) => exec_spec(st, *body, h, g),
            StmtV::For { var, range, body } => match eval_spec(st, range, h, g) {
                None => None,
                Some((s1, Err(m))) => Some((s1, Err(m))),
                Some((s1, Ok(RtV::Value(v)))) => match for_bounds(v) {
                    Err(m) => Some((s1, Err(m))),
                    Ok((a, b)) => exec_loop(s1, var, a, b, *body, h, g),
                },
                Some((s1, Ok(_))) => Some((
                    s1,
                    Err("For loop range must be a valid range (e.g., 0..10) or a positive number."@),
                )),
            },
            StmtV::Parallel { var, range, .. } => match eval_spec(st, range, h, g) {
                None => None,
                Some((s1, Err(m))) => Some((s1, Err(m))),
                Some((s1, Ok(RtV::Value(v)))) => match parallel_bounds(v) {
                    Err(m) => Some((s1, Err(m))),
                    Ok((a, b)) => if i64::MIN <= b - a <= i64::MAX {
                        Some((emit(s1, EventV::GpuParallel(var, a, b)), Ok(RtV::NoValue)))
                    } else {
                        None
                    },
                },
                Some((s1, Ok(_))) => Some((s1, Err("Invalid range expression for 'parallel' loop"@))),
            },
            StmtV::Return(e) => match eval_spec(st, e, h, g) {
                None => None,
                Some((s1, Err(m))) => Some((s1, Err(m))),
                Some((s1, Ok(RtV::Value(v)))) => Some((s1, Ok(RtV::Return(v)))),
                Some((s1, Ok(RtV::Return(_)))) => Some((s1, Err("Nested return statement not allowed"@))),
                Some((s1, Ok(RtV::NoValue))) => Some((s1, Ok(RtV::Return(ValueV::Nil)))),
            },
            StmtV::FunctionDef { name, params, body, gpu, .. } => {
                let s1 = define_in(st, name, ValueV::Function(name, param_names(params), *body, gpu));
                if gpu {
                    let s2 = IState { gpu: s1.gpu.insert(name, (gpu_params(params), *body)), ..s1 };
                    Some((emit(s2, EventV::GpuRegistered(name, gpu_params(params))), Ok(RtV::NoValue)))
                } else {
                    Some((s1, Ok(RtV::NoValue)))
                }
            },
        }
    }
}

/// Running the statements of a program from index `i` on; `last` is the
/// value of the last statement that gave one.
pub open spec fn run_spec(
    st: IState,
    ss: Seq<StmtV>,
    i: nat,
    last: Option<ValueV>,
    h: HostV,
    fuel: nat,
) -> Option<(IState, Result<Option<ValueV>, Seq<char>>)>
    decreases ss.len() - i,
{
    if i >= ss.len() {
        Some((st, Ok(last)))
    } else {
        match exec_spec(st, ss[i as int], h, fuel) {
            None => None,
            Some((s1, Err(m))) => Some((s1, Err(m))),
            Some((s1, Ok(RtV::Return(v)))) => Some((s1, Ok(Some(v)))),
            Some((s1, Ok(RtV::Value(v)))) => run_spec(s1, ss, i + 1, if v is Nil {
                last
            } else {
                Some(v)
            }, h, fuel),
            Some((s1, Ok(RtV::NoValue))) => run_spec(s1, ss, i + 1, None, h, fuel),
        }
    }
}

/// The program runs to its end (or to an error) with this much fuel.
pub open spec fn runs(st: IState, ss: Seq<StmtV>, h: HostV) -> bool {
    exists|f: nat| #[trigger] run_spec(st, ss, 0, None, h, f) is Some
}

/// What running the program gives.
pub open spec fn ran(st: IState, ss: Seq<StmtV>, h: HostV) -> (IState, Result<Option<ValueV>, Seq<char>>) {
    run_spec(st, ss, 0, None, h, choose|f: nat| #[trigger] run_spec(st, ss, 0, None, h, f) is Some)->0
}


/// Setting a bound name changes no scope's presence.
proof fn lemma_assigned_len(scopes: Seq<Map<Seq<char>, ValueV>>, k: Seq<char>, v: ValueV)
    ensures
        assigned(scopes, k, v) matches Some(t) ==> t.len() == scopes.len(),
    decreases scopes.len(),
{
    if scopes.len() > 0 && !scopes.last().contains_key(k) {
        lemma_assigned_len(scopes.drop_last(), k, v);
    }
}

proof fn lemma_bind_len(st: IState, params: Seq<Seq<char>>, args: Seq<ValueV>, i: nat)
    requires
        st.scopes.len() >= 1,
    ensures
        bind_params(st, params, args, i).scopes.len() == st.scopes.len(),
    decreases params.len() - i,
{
    if i < params.len() && i < args.len() {
        lemma_bind_len(define_in(st, params[i as int], args[i as int]), params, args, i + 1);
    }
}

proof fn lemma_gpu_call_len(st: IState, name: Seq<char>, args: Seq<ValueV>)
    ensures
        gpu_call_spec(st, name, args) matches Some((s2, _)) ==> s2.scopes == st.scopes,
{
}

/// An expression that is evaluated without error leaves as many scopes as
/// it found.
pub proof fn lemma_eval_keeps_scopes(st: IState, e: ExprV, h: HostV, fuel: nat)
    requires
        st.scopes.len() >= 1,
    ensures
        eval_spec(st, e, h, fuel) matches Some((s2, Ok(_))) ==> s2.scopes.len() == st.scopes.len(),
    decreases fuel, 0nat, 0nat,
{
    if fuel > 0 {
        let g = (fuel - 1) as nat;
        match e {
            ExprV::Assignment { name, value } => {
                lemma_eval_keeps_scopes(st, *value, h, g);
                if let Some((s1, Ok(RtV::Value(v)))) = eval_spec(st, *value, h, g) {
                    lemma_assigned_len(s1.scopes, name, v);
                }
            },
            ExprV::Binary { left, right, .. } => {
                lemma_eval_keeps_scopes(st, *left, h, g);
                if let Some((s1, Ok(_))) = eval_spec(st, *left, h, g) {
                    lemma_eval_keeps_scopes(s1, *right, h, g);
                }
            },
            ExprV::Range { start, end } => {
                lemma_eval_keeps_scopes(st, *start, h, g);
                if let Some((s1, Ok(_))) = eval_spec(st, *start, h, g) {
                    lemma_eval_keeps_scopes(s1, *end, h, g);
                }
            },
            ExprV::Unary { expr, .. } => lemma_eval_keeps_scopes(st, *expr, h, g),
            ExprV::Grouping(inner) => lemma_eval_keeps_scopes(st, *inner, h, g),
            ExprV::Return(inner) => lemma_eval_keeps_scopes(st, *inner, h, g),
            ExprV::FunctionCall { callee, arguments } => {
                lemma_eval_keeps_scopes(st, *callee, h, g);
                if let Some((s1, Ok(RtV::Value(f)))) = eval_spec(st, *callee, h, g) {
                    lemma_args_keep_scopes(s1, arguments, 0, Seq::empty(), h, g);
                    if let Some((s2, Ok(args))) = eval_args(s1, arguments, 0, Seq::empty(), h, g) {
                        lemma_call_keeps_scopes(s2, f, args, h, g);
                    }
                }
            },
            _ => {},
        }
    }
}

pub proof fn lemma_args_keep_scopes(st: IState, args: Seq<ExprV>, i: nat, done: Seq<ValueV>, h: HostV, fuel: nat)
    requires
        st.scopes.len() >= 1,
    ensures
        eval_args(st, args, i, done, h, fuel) matches Some((s2, Ok(_))) ==> s2.scopes.len() == st.scopes.len(),
    decreases fuel, 1nat, args.len() - i,
{
    if i < args.len() {
        lemma_eval_keeps_scopes(st, args[i as int], h, fuel);
        if let Some((s1, Ok(RtV::Value(v)))) = eval_spec(st, args[i as int], h, fuel) {
            lemma_args_keep_scopes(s1, args, i + 1, done.push(v), h, fuel);
        }
    }
}

pub proof fn lemma_call_keeps_scopes(st: IState, f: ValueV, args: Seq<ValueV>, h: HostV, fuel: nat)
    requires
        st.scopes.len() >= 1,
    ensures
        call_spec(st, f, args, h, fuel) matches Some((s2, Ok(_))) ==> s2.scopes.len() == st.scopes.len(),
    decreases fuel, 1nat, 0nat,
{
    if let ValueV::Function(name, params, body, gpu) = f {
        if name != "print"@ && args.len() == params.len() {
            if gpu {
                lemma_gpu_call_len(st, name, args);
            } else {
                let s1 = bind_params(open_in(st), params, args, 0);
                lemma_bind_len(open_in(st), params, args, 0);
                lemma_exec_keeps_scopes(s1, body, h, fuel);
            }
        }
    }
}

pub proof fn lemma_block_keeps_scopes(st: IState, ss: Seq<StmtV>, i: nat, last: RtV, h: HostV, fuel: nat)
    requires
        st.scopes.len() >= 2,
    ensures
        exec_block(st, ss, i, last, h, fuel) matches Some((s2, Ok(_))) ==> s2.scopes.len() + 1 == st.scopes.len(),
    decreases fuel, 1nat, ss.len() - i,
{
    if i < ss.len() {
        lemma_exec_keeps_scopes(st, ss[i as int], h, fuel);
        match exec_spec(st, ss[i as int], h, fuel) {
            Some((s1, Ok(RtV::Value(v)))) => lemma_block_keeps_scopes(s1, ss, i + 1, RtV::Value(v), h, fuel),
            Some((s1, Ok(RtV::NoValue))) => lemma_block_keeps_scopes(s1, ss, i + 1, last, h, fuel),
            _ => {},
        }
    }
}

pub proof fn lemma_loop_keeps_scopes(st: IState, var: Seq<char>, i: i64, end: i64, body: StmtV, h: HostV, fuel: nat)
    requires
        st.scopes.len() >= 1,
    ensures
        exec_loop(st, var, i, end, body, h, fuel) matches Some((s2, Ok(_))) ==> s2.scopes.len() == st.scopes.len(),
    decreases fuel, 1nat, end - i,
{
    if i < end {
        let s0 = define_in(open_in(st), var, ValueV::Number(i));
        lemma_exec_keeps_scopes(s0, body, h, fuel);
        match exec_spec(s0, body, h, fuel) {
            Some((s1, Ok(RtV::Return(_)))) => {},
            Some((s1, Ok(_))) => lemma_loop_keeps_scopes(close_in(s1), var, (i + 1) as i64, end, body, h, fuel),
            _ => {},
        }
    }
}

/// A statement that runs without error leaves as many scopes as it found:
/// each block, loop iteration and call closes the scope it opened.
pub proof fn lemma_exec_keeps_scopes(st: IState, s: StmtV, h: HostV, fuel: nat)
    requires
        st.scopes.len() >= 1,
    ensures
        exec_spec(st, s, h, fuel) matches Some((s2, Ok(_))) ==> s2.scopes.len() == st.scopes.len(),
    decreases fuel, 0nat, 0nat,
{
    if fuel > 0 {
        let g = (fuel - 1) as nat;
        match s {
            StmtV::ExprStmt(e) => lemma_eval_keeps_scopes(st, e, h, g),
            StmtV::Let { value, .. } => lemma_eval_keeps_scopes(st, value, h, g),
            StmtV::Block(ss) => lemma_block_keeps_scopes(open_in(st), ss, 0, RtV::NoValue, h, g),
            StmtV::IfStmt { condition, then_branch, else_branch } => {
                lemma_eval_keeps_scopes(st, condition, h, g);
                if let Some((s1, Ok(RtV::Value(c)))) = eval_spec(st, condition, h, g) {
                    lemma_exec_keeps_scopes(s1, *then_branch, h, g);
                    if let Some(b) = else_branch {
                        lemma_exec_keeps_scopes(s1, *b, h, g);
                    }
                }
            },
            StmtV::Branch { condition, body } => {
                lemma_eval_keeps_scopes(st, condition, h, g);
                if let Some((s1, Ok(RtV::Value(c)))) = eval_spec(st, condition, h, g) {
                    lemma_exec_keeps_scopes(s1, *body, h, g);
                }
            },
            StmtV::Fallback(body) => lemma_exec_keeps_scopes(st, *body, h, g),
            StmtV::For { var, range, body } => {
                lemma_eval_keeps_scopes(st, range, h, g);
                if let Some((s1, Ok(RtV::Value(v)))) = eval_spec(st, range, h, g) {
                    if let Ok((a, b)) = for_bounds(v) {
                        lemma_loop_keeps_scopes(s1, var, a, b, *body, h, g);
                    }
                }
            },
            StmtV::Parallel { range, .. } => lemma_eval_keeps_scopes(st, range, h, g),
            StmtV::Return(e) => lemma_eval_keeps_scopes(st, e, h, g),
            _ => {},
        }
    }
}


pub open spec fn int_binary(a: i64, op: TokenV, b: i64) -> ExprV {
    ExprV::Binary { left: Box::new(ExprV::Number(a as int)), op, right: Box::new(ExprV::Number(b as int)) }
}

/// Operators on two integer literals compute on integers: comparisons give
/// the boolean of the comparison, `+`, `-` and `*` the integer result where
/// it fits in `i64` (the run stops where it does not), `/` divides rounding
/// toward zero and refuses a zero divisor.  Nothing else changes.
pub proof fn lemma_integer_operators(st: IState, a: i64, b: i64, h: HostV, fuel: nat)
    requires
        fuel >= 2,
    ensures
        eval_spec(st, int_binary(a, TokenV::GT, b), h, fuel) == Some((st, Ok::<RtV, Seq<char>>(RtV::Value(ValueV::Boolean(a > b))))),
        eval_spec(st, int_binary(a, TokenV::LT, b), h, fuel) == Some((st, Ok::<RtV, Seq<char>>(RtV::Value(ValueV::Boolean(a < b))))),
        eval_spec(st, int_binary(a, TokenV::GE, b), h, fuel) == Some((st, Ok::<RtV, Seq<char>>(RtV::Value(ValueV::Boolean(a >= b))))),
        eval_spec(st, int_binary(a, TokenV::LE, b), h, fuel) == Some((st, Ok::<RtV, Seq<char>>(RtV::Value(ValueV::Boolean(a <= b))))),
        eval_spec(st, int_binary(a, TokenV::EQ, b), h, fuel) == Some((st, Ok::<RtV, Seq<char>>(RtV::Value(ValueV::Boolean(a == b))))),
        eval_spec(st, int_binary(a, TokenV::NE, b), h, fuel) == Some((st, Ok::<RtV, Seq<char>>(RtV::Value(ValueV::Boolean(a != b))))),
        i64::MIN <= a + b <= i64::MAX ==> eval_spec(st, int_binary(a, TokenV::Plus, b), h, fuel) == Some(
            (st, Ok::<RtV, Seq<char>>(RtV::Value(ValueV::Number((a + b) as i64)))),
        ),
        !(i64::MIN <= a + b <= i64::MAX) ==> eval_spec(st, int_binary(a, TokenV::Plus, b), h, fuel) is None,
        i64::MIN <= a - b <= i64::MAX ==> eval_spec(st, int_binary(a, TokenV::Minus, b), h, fuel) == Some(
            (st, Ok::<RtV, Seq<char>>(RtV::Value(ValueV::Number((a - b) as i64)))),
        ),
        !(i64::MIN <= a - b <= i64::MAX) ==> eval_spec(st, int_binary(a, TokenV::Minus, b), h, fuel) is None,
        i64::MIN <= a * b <= i64::MAX ==> eval_spec(st, int_binary(a, TokenV::Star, b), h, fuel) == Some(
            (st, Ok::<RtV, Seq<char>>(RtV::Value(ValueV::Number((a * b) as i64)))),
        ),
        !(i64::MIN <= a * b <= i64::MAX) ==> eval_spec(st, int_binary(a, TokenV::Star, b), h, fuel) is None,
        b == 0 ==> eval_spec(st, int_binary(a, TokenV::Slash, b), h, fuel) == Some(
            (st, Err::<RtV, Seq<char>>("Division by zero (integer)"@)),
        ),
        b != 0 && !(a == i64::MIN && b == -1) ==> match eval_spec(st, int_binary(a, TokenV::Slash, b), h, fuel) {
            Some((s2, Ok(RtV::Value(ValueV::Number(q))))) => s2 == st && toward_zero_remainder(
                a as int,
                b as int,
                a - q * b,
            ),
            _ => false,
        },
{
    let g = (fuel - 1) as nat;
    assert(eval_spec(st, ExprV::Number(a as int), h, g) == Some((st, Ok::<RtV, Seq<char>>(RtV::Value(ValueV::Number(a))))));
    assert(eval_spec(st, ExprV::Number(b as int), h, g) == Some((st, Ok::<RtV, Seq<char>>(RtV::Value(ValueV::Number(b))))));
    if b != 0 && !(a == i64::MIN && b == -1) {
        lemma_div_mod_agree(a, b);
        assert(op_result(OpKind::Div, a, b) == fit(trunc_div(a as int, b as int)));
    }
}

/// A condition chooses by its truth: an integer condition runs the first
/// branch exactly when it is not zero, a boolean one exactly when it is
/// true, and the other branch otherwise.
pub proof fn lemma_if_chooses(st: IState, n: i64, b: bool, t: StmtV, e: StmtV, h: HostV, fuel: nat)
    ensures
        exec_spec(
            st,
            StmtV::IfStmt { condition: ExprV::Boolean(b), then_branch: Box::new(t), else_branch: Some(Box::new(e)) },
            h,
            fuel + 2,
        ) == if b {
            exec_spec(st, t, h, fuel + 1)
        } else {
            exec_spec(st, e, h, fuel + 1)
        },
        exec_spec(
            st,
            StmtV::IfStmt { condition: ExprV::Number(n as int), then_branch: Box::new(t), else_branch: Some(Box::new(e)) },
            h,
            fuel + 2,
        ) == if n != 0 {
            exec_spec(st, t, h, fuel + 1)
        } else {
            exec_spec(st, e, h, fuel + 1)
        },
{
    assert(eval_spec(st, ExprV::Number(n as int), h, fuel + 1) == Some((st, Ok::<RtV, Seq<char>>(RtV::Value(ValueV::Number(n))))));
    assert(eval_spec(st, ExprV::Boolean(b), h, fuel + 1) == Some((st, Ok::<RtV, Seq<char>>(RtV::Value(ValueV::Boolean(b))))));
}

/// Negating an integer literal gives its negation, where that fits.
pub proof fn lemma_integer_negation(st: IState, a: i64, h: HostV, fuel: nat)
    requires
        fuel >= 2,
        a != i64::MIN,
    ensures
        eval_spec(st, ExprV::Unary { op: TokenV::Minus, expr: Box::new(ExprV::Number(a as int)) }, h, fuel) == Some(
            (st, Ok::<RtV, Seq<char>>(RtV::Value(ValueV::Number((-a) as i64)))),
        ),
{
    assert(eval_spec(st, ExprV::Number(a as int), h, (fuel - 1) as nat) == Some((st, Ok::<RtV, Seq<char>>(RtV::Value(ValueV::Number(a))))));
}


/// Strings join with `+` and compare by their characters.
pub proof fn lemma_string_operators(st: IState, x: Seq<char>, y: Seq<char>, h: HostV, fuel: nat)
    requires
        fuel >= 2,
    ensures
        eval_spec(
            st,
            ExprV::Binary { left: Box::new(ExprV::String(x)), op: TokenV::Plus, right: Box::new(ExprV::String(y)) },
            h,
            fuel,
        ) == Some((st, Ok::<RtV, Seq<char>>(RtV::Value(ValueV::Str(x + y))))),
        eval_spec(
            st,
            ExprV::Binary { left: Box::new(ExprV::String(x)), op: TokenV::EQ, right: Box::new(ExprV::String(y)) },
            h,
            fuel,
        ) == Some((st, Ok::<RtV, Seq<char>>(RtV::Value(ValueV::Boolean(x == y))))),
{
    let g = (fuel - 1) as nat;
    assert(eval_spec(st, ExprV::String(x), h, g) == Some((st, Ok::<RtV, Seq<char>>(RtV::Value(ValueV::Str(x))))));
    assert(eval_spec(st, ExprV::String(y), h, g) == Some((st, Ok::<RtV, Seq<char>>(RtV::Value(ValueV::Str(y))))));
}

} // verus!
