use nexus::ast::{Expr, Stmt};
use nexus::lexer::Lexer;
use nexus::parser::{parse_source, try_parse_source, Parser};
use nexus::token::Token;

fn lex(source: &str) -> Vec<Token> {
    let mut lexer = Lexer::new(source);
    let mut tokens = Vec::new();
    loop {
        let t = lexer.next_token();
        if t == Token::EOF {
            break;
        }
        tokens.push(t);
    }
    tokens
}

#[test]
fn lexes_a_let_statement() {
    assert_eq!(
        lex("let mut x = 42"),
        vec![Token::Let, Token::Mut, Token::Identifier("x".to_string()), Token::Equals, Token::Number(42)]
    );
}

#[test]
fn lexes_operators_and_punctuation() {
    assert_eq!(
        lex("== != >= <= => -> .. . , : ( ) [ ] { } + - * /"),
        vec![
            Token::EQ,
            Token::NE,
            Token::GE,
            Token::LE,
            Token::FatArrow,
            Token::Arrow,
            Token::Range,
            Token::Dot,
            Token::Comma,
            Token::Colon,
            Token::Lparen,
            Token::Rparen,
            Token::Lsquare,
            Token::Rsquare,
            Token::LBrace,
            Token::RBrace,
            Token::Plus,
            Token::Minus,
            Token::Star,
            Token::Slash,
        ]
    );
}

#[test]
fn lexes_literals_keywords_and_skips_comments() {
    assert_eq!(
        lex("// note\n3.5 \"hi\" true @gpu fn range 1..4"),
        vec![
            Token::Floating("3.5".to_string()),
            Token::String("hi".to_string()),
            Token::Boolean(true),
            Token::GPU,
            Token::Fn,
            Token::Range,
            Token::Number(1),
            Token::Range,
            Token::Number(4),
        ]
    );
}

#[test]
fn unknown_character_ends_the_tokens() {
    assert_eq!(lex("1 ! 2"), vec![Token::Number(1)]);
    assert_eq!(lex("1 # 2"), vec![Token::Number(1)]);
}

#[test]
fn parses_let_with_type_and_precedence() {
    let program = parse_source("let x: int = 1 + 2 * 3");
    assert_eq!(program.len(), 1);
    match &program[0] {
        Stmt::Let { name, declared_type, value, mutable } => {
            assert_eq!(name, "x");
            assert_eq!(declared_type.as_deref(), Some("int"));
            assert!(!mutable);
            match value {
                Expr::Binary { left, op, right } => {
                    assert!(matches!(**left, Expr::Number(1)));
                    assert_eq!(*op, Token::Plus);
                    assert!(matches!(**right, Expr::Binary { .. }));
                }
                other => panic!("unexpected {:?}", other),
            }
        }
        other => panic!("unexpected {:?}", other),
    }
}

#[test]
fn parses_function_with_params_and_body() {
    let program = parse_source("fn add(a: int, b) -> int:\nreturn a + b\nadd(1, 2)\nlet z = add(3, 4)");
    assert_eq!(program.len(), 2);
    match &program[0] {
        Stmt::FunctionDef { name, params, return_type, body, gpu } => {
            assert_eq!(name, "add");
            assert_eq!(params.len(), 2);
            assert_eq!(params[0].0, "a");
            assert_eq!(params[0].1.as_deref(), Some("int"));
            assert_eq!(params[1].1, None);
            assert_eq!(return_type.as_deref(), Some("int"));
            assert!(!gpu);
            // The body runs on until a token that starts a new top-level
            // statement, such as `let`.
            assert!(matches!(**body, Stmt::Block(ref b) if b.len() == 2));
        }
        other => panic!("unexpected {:?}", other),
    }
    assert!(matches!(&program[1], Stmt::Let { value: Expr::FunctionCall { arguments, .. }, .. } if arguments.len() == 2));
}

#[test]
fn parses_if_then_else_chain() {
    let program = parse_source("if x > 1:\n1\nthen x > 0:\n2\nelse:\n3");
    assert_eq!(program.len(), 1);
    match &program[0] {
        Stmt::IfStmt { else_branch: Some(b), .. } => match &**b {
            Stmt::IfStmt { else_branch: Some(last), .. } => {
                assert!(matches!(**last, Stmt::Block(ref s) if s.len() == 1));
            }
            other => panic!("unexpected {:?}", other),
        },
        other => panic!("unexpected {:?}", other),
    }
}

#[test]
fn parses_loops_branches_and_gpu_functions() {
    let program = parse_source("for i in 0..3:\nprint(i)\nparallel j in range(0, 2):\nj\nbranch x => go(x)\nfallback => stop()\n@gpu fn k():\n1");
    assert_eq!(program.len(), 5);
    assert!(matches!(&program[0], Stmt::For { var, range: Expr::Range { .. }, .. } if var == "i"));
    assert!(matches!(&program[1], Stmt::Parallel { range: Expr::Range { .. }, .. }));
    assert!(matches!(&program[2], Stmt::Branch { .. }));
    assert!(matches!(&program[3], Stmt::Fallback(_)));
    assert!(matches!(&program[4], Stmt::FunctionDef { gpu: true, .. }));
}

#[test]
fn skips_tokens_where_no_statement_starts() {
    let mut parser = Parser::new(vec![Token::Rparen, Token::Comma, Token::Number(5)]);
    let program = parser.parse();
    assert_eq!(program.len(), 1);
    assert!(matches!(program[0], Stmt::ExprStmt(Expr::Number(5))));
}

#[test]
fn check_counts_statements() {
    assert_eq!(parse_source("let a = 1\nlet b = 2\na + b").len(), 3);
    assert_eq!(parse_source("").len(), 0);
}

#[test]
fn unfinished_input_still_parses() {
    // The last token is an operator: reading past the end repeats it, and
    // the missing operand reads as the name `error`.
    let program = parse_source("x +");
    assert_eq!(program.len(), 1);
    match &program[0] {
        Stmt::ExprStmt(Expr::Binary { left, op, right }) => {
            assert!(matches!(**left, Expr::Ident(ref n) if n == "x"));
            assert_eq!(*op, Token::Plus);
            assert!(matches!(**right, Expr::Ident(ref n) if n == "error"));
        }
        other => panic!("unexpected {:?}", other),
    }
    // An `fn` with no name and a last `(`: the statement is dropped and the
    // parser goes on to the end.
    assert_eq!(parse_source("fn (").len(), 0);
}

#[test]
fn checked_lexing_refuses_numbers_beyond_i64() {
    let mut lexer = Lexer::new("9223372036854775807 9223372036854775808");
    assert_eq!(lexer.try_next_token(), Some(Token::Number(i64::MAX)));
    assert_eq!(lexer.try_next_token(), None);
    let mut other = Lexer::new("  // note\n12");
    assert_eq!(other.try_next_token(), Some(Token::Number(12)));
    assert_eq!(other.try_next_token(), Some(Token::EOF));
}

#[test]
fn checked_parsing_declines_what_would_not_finish() {
    let checked = try_parse_source("let x: int = 1 + 2 * 3").expect("parses");
    assert_eq!(format!("{:?}", checked), format!("{:?}", parse_source("let x: int = 1 + 2 * 3")));
    assert!(try_parse_source("let x = 99999999999999999999").is_none());
    assert!(try_parse_source("f (").is_none());
    assert_eq!(try_parse_source("").map(|p| p.len()), Some(0));
}

#[test]
fn text_after_a_stop_character_is_never_read() {
    let whole = format!("{:?}", parse_source("let x = 1 + 2 # let y = (3"));
    let before = format!("{:?}", parse_source("let x = 1 + 2 "));
    assert_eq!(whole, before);
    assert_eq!(lex("print(1); print(2)"), lex("print(1)"));
    assert_eq!(lex("\"a;b\" $ c"), vec![Token::String("a;b".to_string())]);
}
