use nexus::ast::{Expr, Stmt};
use nexus::legacy_parser::Parser;
use nexus::simple_parser::SimpleParser;
use nexus::token::Token;

fn ident(s: &str) -> Token {
    Token::Identifier(s.to_string())
}

fn legacy(tokens: Vec<Token>) -> Vec<Stmt> {
    Parser::new(tokens).parse()
}

fn simple(tokens: Vec<Token>) -> Vec<Stmt> {
    SimpleParser::new(tokens).parse()
}

#[test]
fn legacy_parses_let_with_precedence_climbing() {
    // 1 + 2 * 3: the `*` binds tighter, so the rest is parsed again from the
    // `*`, which is no operand: the right operand reads as `error`, and the
    // `3` after it, no operator, starts the next statement.
    let program = legacy(vec![
        Token::Let,
        ident("x"),
        Token::Equals,
        Token::Number(1),
        Token::Plus,
        Token::Number(2),
        Token::Star,
        Token::Number(3),
    ]);
    assert_eq!(program.len(), 2);
    match &program[0] {
        Stmt::Let { name, value: Expr::Binary { left, op, right }, .. } => {
            assert_eq!(name, "x");
            assert!(matches!(**left, Expr::Number(1)));
            assert_eq!(*op, Token::Plus);
            assert!(matches!(**right, Expr::Ident(ref n) if n == "error"));
        }
        other => panic!("unexpected {:?}", other),
    }
    assert!(matches!(program[1], Stmt::ExprStmt(Expr::Number(3))));
}

#[test]
fn legacy_let_without_name_reads_error() {
    let program = legacy(vec![Token::Let, Token::Equals, Token::Number(4)]);
    match &program[0] {
        Stmt::Let { name, value, .. } => {
            assert_eq!(name, "error");
            assert!(matches!(value, Expr::Number(4)));
        }
        other => panic!("unexpected {:?}", other),
    }
}

#[test]
fn legacy_skips_stray_tokens_and_parses_calls() {
    let program = legacy(vec![Token::Comma, ident("print"), Token::Lparen, Token::String("hi".to_string()), Token::Rparen]);
    assert_eq!(program.len(), 1);
    match &program[0] {
        Stmt::ExprStmt(Expr::FunctionCall { callee, arguments }) => {
            assert!(matches!(**callee, Expr::Ident(ref n) if n == "print"));
            assert_eq!(arguments.len(), 1);
        }
        other => panic!("unexpected {:?}", other),
    }
}

#[test]
fn legacy_for_loop_over_a_number_ranges_from_zero() {
    let program = legacy(vec![Token::For, ident("i"), Token::In, Token::Number(3), Token::Colon, ident("i")]);
    match &program[0] {
        Stmt::For { var, range: Expr::Range { start, end }, body } => {
            assert_eq!(var, "i");
            assert!(matches!(**start, Expr::Number(0)));
            assert!(matches!(**end, Expr::Number(3)));
            assert!(matches!(**body, Stmt::Block(ref b) if b.len() == 1));
        }
        other => panic!("unexpected {:?}", other),
    }
}

#[test]
fn legacy_function_definition_with_typed_parameter() {
    let program = legacy(vec![
        Token::Fn,
        ident("f"),
        Token::Lparen,
        ident("a"),
        Token::Colon,
        ident("int"),
        Token::Rparen,
        Token::Arrow,
        ident("int"),
        Token::Colon,
        Token::Return,
        ident("a"),
    ]);
    assert_eq!(program.len(), 1);
    match &program[0] {
        Stmt::FunctionDef { name, params, return_type, gpu, .. } => {
            assert_eq!(name, "f");
            assert_eq!(params, &vec![("a".to_string(), Some("int".to_string()))]);
            assert_eq!(return_type.as_deref(), Some("int"));
            assert!(!gpu);
        }
        other => panic!("unexpected {:?}", other),
    }
}

#[test]
fn legacy_condition_stops_at_its_colon() {
    let program = legacy(vec![
        Token::If,
        ident("x"),
        Token::GT,
        Token::Number(40),
        Token::Colon,
        Token::Number(1),
        Token::Then,
        ident("y"),
        Token::Colon,
        Token::Number(2),
        Token::Else,
        Token::Colon,
        Token::Number(3),
    ]);
    // A token that is no operator, such as the `:` after a condition, ends
    // the condition and opens the body.
    assert_eq!(program.len(), 1);
    match &program[0] {
        Stmt::IfStmt { condition: Expr::Binary { left, op, right }, then_branch, else_branch: Some(rest) } => {
            assert!(matches!(**left, Expr::Ident(ref n) if n == "x"));
            assert_eq!(*op, Token::GT);
            assert!(matches!(**right, Expr::Number(40)));
            assert!(matches!(**then_branch, Stmt::Block(ref b) if b.len() == 1));
            match &**rest {
                Stmt::IfStmt { condition: Expr::Ident(y), else_branch: Some(last), .. } => {
                    assert_eq!(y, "y");
                    assert!(matches!(**last, Stmt::Block(ref b) if b.len() == 1));
                }
                other => panic!("unexpected {:?}", other),
            }
        }
        other => panic!("unexpected {:?}", other),
    }
}

#[test]
fn simple_parses_let_if_and_assignment() {
    let program = simple(vec![
        Token::Let,
        Token::Mut,
        ident("x"),
        Token::Equals,
        Token::Number(1),
        ident("x"),
        Token::Equals,
        ident("x"),
        Token::Plus,
        Token::Number(2),
        Token::Star,
        Token::Number(3),
    ]);
    assert_eq!(program.len(), 2);
    assert!(matches!(&program[0], Stmt::Let { mutable: true, .. }));
    match &program[1] {
        Stmt::ExprStmt(Expr::Assignment { name, value }) => {
            assert_eq!(name, "x");
            match &**value {
                Expr::Binary { op, right, .. } => {
                    assert_eq!(*op, Token::Plus);
                    assert!(matches!(**right, Expr::Binary { .. }));
                }
                other => panic!("unexpected {:?}", other),
            }
        }
        other => panic!("unexpected {:?}", other),
    }
}

#[test]
fn simple_parses_calls_and_if_else() {
    let program = simple(vec![
        Token::If,
        ident("c"),
        Token::Colon,
        ident("f"),
        Token::Lparen,
        Token::Number(1),
        Token::Comma,
        Token::Number(2),
        Token::Rparen,
        Token::Else,
        Token::Colon,
        Token::Minus,
        Token::Number(4),
    ]);
    assert_eq!(program.len(), 1);
    match &program[0] {
        Stmt::IfStmt { then_branch, else_branch: Some(e), .. } => {
            assert!(matches!(&**then_branch, Stmt::Block(b) if matches!(&b[0], Stmt::ExprStmt(Expr::FunctionCall { arguments, .. }) if arguments.len() == 2)));
            assert!(matches!(&**e, Stmt::Block(b) if matches!(&b[0], Stmt::ExprStmt(Expr::Unary { .. }))));
        }
        other => panic!("unexpected {:?}", other),
    }
}
