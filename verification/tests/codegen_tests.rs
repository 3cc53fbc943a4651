use nexus::ast::{Expr, Stmt};
use nexus::codegen::Codegen;
use nexus::ir::CellKind;
use nexus::parser::parse_source;
use nexus::token::Token;
use nexus::vice::reduce_ir;

fn float_to_int(text: &String) -> i64 {
    text.parse::<f64>().unwrap_or(0.0) as i64
}

fn compile(statements: Vec<Stmt>) -> Codegen {
    let mut cg = Codegen::new();
    cg.compile_program(&statements, &float_to_int);
    cg
}

fn run_ic(source: &str) -> i64 {
    let program = parse_source(source);
    reduce_ir(compile(program).net)
}

#[test]
fn compiles_simple_addition_net_shape() {
    let program = vec![Stmt::ExprStmt(Expr::Binary {
        left: Box::new(Expr::Number(2)),
        op: Token::Plus,
        right: Box::new(Expr::Number(3)),
    })];

    let cg = compile(program);
    assert_eq!(cg.net.cells.len(), 3);
    assert_eq!(cg.net.redexes.len(), 1);

    let op_count = cg
        .net
        .cells
        .values()
        .filter(|cell| matches!(cell.kind, CellKind::Op(_)))
        .count();
    assert_eq!(op_count, 1);
}

#[test]
fn compiles_let_binding_and_reduces() {
    let program = vec![
        Stmt::Let {
            name: "x".to_string(),
            declared_type: None,
            value: Expr::Number(5),
            mutable: false,
        },
        Stmt::ExprStmt(Expr::Binary {
            left: Box::new(Expr::Ident("x".to_string())),
            op: Token::Plus,
            right: Box::new(Expr::Number(1)),
        }),
    ];

    let cg = compile(program);
    let value = reduce_ir(cg.net);
    assert_eq!(value, 6);
}

#[test]
fn compiles_function_call_and_reduces() {
    let square_body = Stmt::Block(vec![Stmt::Return(Expr::Binary {
        left: Box::new(Expr::Ident("n".to_string())),
        op: Token::Star,
        right: Box::new(Expr::Ident("n".to_string())),
    })]);

    let program = vec![
        Stmt::FunctionDef {
            name: "square".to_string(),
            params: vec![("n".to_string(), None)],
            return_type: None,
            body: Box::new(square_body),
            gpu: false,
        },
        Stmt::ExprStmt(Expr::FunctionCall {
            callee: Box::new(Expr::Ident("square".to_string())),
            arguments: vec![Expr::Number(9)],
        }),
    ];

    let cg = compile(program);
    let value = reduce_ir(cg.net);
    assert_eq!(value, 81);
}

#[test]
fn ic_pipeline_adds() {
    assert_eq!(run_ic("2 + 3"), 5);
}

#[test]
fn ic_pipeline_gives_last_value() {
    assert_eq!(run_ic("10 - 4\n6 * 7"), 42);
}

#[test]
fn ic_pipeline_follows_let_bindings() {
    assert_eq!(run_ic("let x = 8\nlet a = 3\nlet b = 4\na * a + b * b"), 25);
}

#[test]
fn ic_pipeline_calls_a_function() {
    assert_eq!(run_ic("fn square(n):\nreturn n * n\nlet result = square(9)\nresult"), 81);
}

#[test]
fn ic_pipeline_negation_precedence_and_comparison() {
    assert_eq!(run_ic("-(2 + 3) * 4"), -20);
    assert_eq!(run_ic("1 + 2 * 3"), 7);
    assert_eq!(run_ic("3 > 2"), 1);
    assert_eq!(run_ic("7 / 0"), 0);
}

#[test]
fn ic_pipeline_booleans_strings_and_floats() {
    assert_eq!(run_ic("true"), 1);
    assert_eq!(run_ic("\"text\""), 0);
    assert_eq!(run_ic("2.75 + 1"), 3);
}

#[test]
fn empty_program_compiles_to_zero() {
    let cg = compile(Vec::new());
    assert_eq!(cg.net.cells.len(), 1);
    assert_eq!(reduce_ir(cg.net), 0);
}

#[test]
fn function_definition_allocates_a_named_cell_and_no_value() {
    let program = vec![Stmt::FunctionDef {
        name: "f".to_string(),
        params: vec![],
        return_type: None,
        body: Box::new(Stmt::Block(vec![])),
        gpu: false,
    }];
    let cg = compile(program);
    assert_eq!(cg.net.debug[&0], "fn-definition:f");
    assert_eq!(cg.net.cells.len(), 2);
    assert_eq!(reduce_ir(cg.net), 0);
}

#[test]
fn ic_pipeline_calls_with_several_arguments() {
    // Each parameter is bound to its argument; the body also sees the
    // caller's bindings.  A body runs on until a token such as `let` starts
    // a new statement, so the call stands in a `let`.
    assert_eq!(run_ic("fn add(a, b):\nreturn a + b\nlet s = add(2, 3)\ns"), 5);
    assert_eq!(run_ic("fn add(a, b):\nreturn a + b\nadd(2, 3)"), 0);
    assert_eq!(run_ic("let k = 10\nfn shift(x):\nreturn x + k\nlet y = shift(4)\ny"), 14);
}
