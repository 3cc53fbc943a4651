use nexus::ast::{Expr, Stmt};
use nexus::interpreter::{Event, Host, Interpreter, Value};
use nexus::parser::parse_source;
use nexus::token::Token;

fn num(v: &Value) -> f64 {
    match v {
        Value::Number(n) => *n as f64,
        Value::Floating(t) => t.parse::<f64>().unwrap_or(0.0),
        _ => 0.0,
    }
}

fn arith(op: &Token, l: &Value, r: &Value) -> Value {
    if let Value::Nil = l {
        return Value::Floating(format!("{:?}", -num(r)));
    }
    let (a, b) = (num(l), num(r));
    match op {
        Token::Plus => Value::Floating(format!("{:?}", a + b)),
        Token::Minus => Value::Floating(format!("{:?}", a - b)),
        Token::Star => Value::Floating(format!("{:?}", a * b)),
        Token::Slash => Value::Floating(format!("{:?}", a / b)),
        Token::EQ => Value::Boolean(a == b),
        Token::NE => Value::Boolean(a != b),
        Token::GT => Value::Boolean(a > b),
        Token::LT => Value::Boolean(a < b),
        Token::GE => Value::Boolean(a >= b),
        Token::LE => Value::Boolean(a <= b),
        _ => Value::Nil,
    }
}

fn show(v: &Value, debug: bool) -> String {
    match v {
        Value::Number(n) => format!("{}", n),
        Value::Floating(t) => format!("{}", t.parse::<f64>().unwrap_or(0.0)),
        Value::String(s) => if debug { format!("{:?}", s) } else { s.clone() },
        Value::Boolean(b) => format!("{}", b),
        Value::Nil => "nil".to_string(),
        Value::Function(name, ..) => format!("<fn {}>", name),
        Value::Range { start, end } => format!("{}..{}", show(start, debug), show(end, debug)),
    }
}

fn op_text(op: &Token) -> String {
    format!("{:?}", op)
}

fn run(source: &str) -> (Result<Option<Value>, String>, Vec<Event>) {
    let program = parse_source(source);
    let mut interpreter = Interpreter::new();
    let host = Host { arith, show, op_text };
    let result = interpreter.interpret(&program, &host);
    (result, interpreter.take_events())
}

fn outputs(events: &[Event]) -> Vec<String> {
    events
        .iter()
        .filter_map(|e| match e {
            Event::Output(t) => Some(t.clone()),
            _ => None,
        })
        .collect()
}

#[test]
fn print_reports_its_arguments() {
    let (result, events) = run("let x = 42\nprint(x)");
    assert!(matches!(result, Ok(None)));
    assert_eq!(outputs(&events), vec!["Output: 42".to_string()]);
}

#[test]
fn functions_return_their_value() {
    let (result, events) = run("fn add(a: Int, b: Int) -> Int:\nreturn a + b\nlet result = add(5, 3)\nprint(result)\nresult");
    assert_eq!(outputs(&events), vec!["Output: 8".to_string()]);
    assert!(matches!(result, Ok(Some(Value::Number(8)))));
}

#[test]
fn loops_run_over_their_range() {
    let (result, events) = run("for i in 0..3:\nprint(i)");
    assert!(result.is_ok());
    assert_eq!(
        outputs(&events),
        vec!["Output: 0".to_string(), "Output: 1".to_string(), "Output: 2".to_string()]
    );
}

#[test]
fn an_unbound_name_is_an_error() {
    let (result, events) = run("print(undefined_variable)");
    assert_eq!(result.err(), Some("Undefined variable 'undefined_variable'".to_string()));
    assert!(events.is_empty());
}

#[test]
fn gpu_functions_run_on_the_simulated_gpu() {
    let (result, events) = run("@gpu fn gpu_multiply(a: Int, b: Int):\nreturn a * b\nlet r = gpu_multiply(6, 7)\nprint(r)");
    assert!(result.is_ok());
    assert_eq!(outputs(&events), vec!["Output: 42".to_string()]);
    assert!(events.iter().any(|e| matches!(e, Event::GpuCallFinished(_, Some((6, 7)), Some(42)))));
    assert!(matches!(&events[0], Event::GpuRegistered(name, _) if name == "gpu_multiply"));
}

#[test]
fn floats_go_to_the_host_and_strings_concatenate() {
    let (_, events) = run("let y = 3.5\nprint(y + 1)\nprint(\"n=\" + 4)\nprint(7 / 2)\nprint(-7 / 2)");
    assert_eq!(
        outputs(&events),
        vec!["Output: 4.5".to_string(), "Output: n=4".to_string(), "Output: 3".to_string(), "Output: -3".to_string()]
    );
}

#[test]
fn division_by_zero_and_bad_operands_are_errors() {
    assert_eq!(run("1 / 0").0.err(), Some("Division by zero (integer)".to_string()));
    assert_eq!(run("1 / 0.0").0.err(), Some("Division by zero (float)".to_string()));
    assert_eq!(
        run("true - 1").0.err(),
        Some("Numeric operation requires numbers, got true and 1".to_string())
    );
}

fn run_program(program: Vec<Stmt>) -> (Result<Option<Value>, String>, Vec<Event>) {
    let mut interpreter = Interpreter::new();
    let host = Host { arith, show, op_text };
    let result = interpreter.interpret(&program, &host);
    (result, interpreter.take_events())
}

fn assign(name: &str, n: i64) -> Stmt {
    Stmt::ExprStmt(Expr::Assignment { name: name.to_string(), value: Box::new(Expr::Number(n)) })
}

#[test]
fn assignment_needs_a_bound_name() {
    let (result, _) = run_program(vec![assign("z", 3)]);
    assert_eq!(result.err(), Some("Undefined variable 'z'. Cannot assign.".to_string()));
    let program = vec![
        Stmt::Let { name: "z".to_string(), declared_type: None, value: Expr::Number(1), mutable: true },
        assign("z", 3),
        Stmt::ExprStmt(Expr::Ident("z".to_string())),
    ];
    let (result, _) = run_program(program);
    assert!(matches!(result, Ok(Some(Value::Number(3)))));
}

#[test]
fn parallel_loops_are_handed_to_the_gpu() {
    let (result, events) = run("parallel i in 0..4:\nprint(i)");
    assert!(result.is_ok());
    assert!(matches!(&events[..], [Event::GpuParallel(v, 0, 4)] if v == "i"));
}

#[test]
fn calls_check_their_arity() {
    let program = vec![
        Stmt::FunctionDef {
            name: "f".to_string(),
            params: vec![("a".to_string(), None)],
            return_type: None,
            body: Box::new(Stmt::Return(Expr::Ident("a".to_string()))),
            gpu: false,
        },
        Stmt::ExprStmt(Expr::FunctionCall {
            callee: Box::new(Expr::Ident("f".to_string())),
            arguments: vec![Expr::Number(1), Expr::Number(2)],
        }),
    ];
    let (result, _) = run_program(program);
    assert_eq!(result.err(), Some("Function 'f' expects 1 arguments, but got 2".to_string()));
}

#[test]
fn loop_scopes_close_when_the_loop_ends() {
    let mut interpreter = Interpreter::new();
    let host = Host { arith, show, op_text };
    let body = Stmt::Block(vec![Stmt::Let {
        name: "t".to_string(),
        declared_type: None,
        value: Expr::Ident("i".to_string()),
        mutable: false,
    }]);
    let program = vec![Stmt::For {
        var: "i".to_string(),
        range: Expr::Range { start: Box::new(Expr::Number(0)), end: Box::new(Expr::Number(2)) },
        body: Box::new(body),
    }];
    assert!(interpreter.interpret(&program, &host).is_ok());
    let after = interpreter.interpret(&vec![Stmt::ExprStmt(Expr::Ident("i".to_string()))], &host);
    assert_eq!(after.err(), Some("Undefined variable 'i'".to_string()));
    let after = interpreter.interpret(&vec![Stmt::ExprStmt(Expr::Ident("t".to_string()))], &host);
    assert_eq!(after.err(), Some("Undefined variable 't'".to_string()));
}
