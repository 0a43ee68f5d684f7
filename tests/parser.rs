use oxlang::grammar::{parse_program, ParseError, MAX_DEPTH};
use oxlang::number::double_of_int;
use oxlang::parser::{filter_comments, AssignStmt, BinaryExpr, CompareOp, Expr, Op, PrintStmt, Stmt};

fn num(x: f64) -> Box<Expr> {
    Box::new(Expr::Num(x.to_bits()))
}

#[test]
fn test_parser_if() {
    let code = "if 12 < 23 { print 23; }";
    assert_eq!(
        parse_program(code).unwrap(),
        vec![Stmt::If {
            comparison: Box::new(Expr::Comparison { lhs: num(12.0), op: CompareOp::Less, rhs: num(23.0) }),
            code: vec![Stmt::Print(PrintStmt { value: num(23.0) })],
        }]
    );
}

#[test]
fn test_parser_code_block() {
    let code = "{ print 23; }";
    assert_eq!(
        parse_program(code).unwrap(),
        vec![Stmt::Block(vec![Stmt::Print(PrintStmt { value: num(23.0) })])]
    );
}

#[test]
fn test_parser_comparison() {
    let code = "2 + 2 > 3 * 2";
    assert_eq!(
        parse_program(code).unwrap(),
        vec![Stmt::Expr(Box::new(Expr::Comparison {
            lhs: Box::new(Expr::Binary(BinaryExpr { lhs: num(2.0), op: Op::Plus, rhs: num(2.0) })),
            op: CompareOp::Greater,
            rhs: Box::new(Expr::Binary(BinaryExpr { lhs: num(3.0), op: Op::Mult, rhs: num(2.0) })),
        }))]
    );
}

#[test]
fn test_parser_bash_code() {
    let code = r#"'"echo Hello"';"#;
    assert_eq!(parse_program(code).unwrap(), vec![Stmt::Bash("echo Hello".to_string())]);
}

#[test]
fn test_parser_postfix_question_print() {
    let code = "1 + 2?";
    assert_eq!(
        parse_program(code).unwrap(),
        vec![Stmt::Print(PrintStmt {
            value: Box::new(Expr::Binary(BinaryExpr { lhs: num(1.0), op: Op::Plus, rhs: num(2.0) })),
        })]
    );
}

#[test]
fn parser_test_parser_print() {
    let code = r#"print "Hello, world!";"#;
    assert_eq!(
        parse_program(code).unwrap(),
        vec![Stmt::Print(PrintStmt { value: Box::new(Expr::Str("Hello, world!".to_string())) })]
    );
}

#[test]
fn parser_test_parser_assign() {
    let expected = vec![Stmt::Assign(AssignStmt { name: "x".to_string(), value: num(23.0) })];
    assert_eq!(parse_program("x = 23;"), Ok(expected));
    let expected = vec![Stmt::Assign(AssignStmt { name: "x".to_string(), value: num(23.0) })];
    assert_eq!(parse_program("let x = 23;"), Ok(expected));
}

#[test]
fn test_parser_read() {
    assert_eq!(parse_program("read"), Ok(vec![Stmt::Expr(Box::new(Expr::Read))]));
}

#[test]
fn parser_test_parser_binary() {
    let code = "23 + 42";
    assert_eq!(
        parse_program(code),
        Ok(vec![Stmt::Expr(Box::new(Expr::Binary(BinaryExpr {
            lhs: num(23.0),
            op: Op::Plus,
            rhs: num(42.0),
        })))])
    );
}

#[test]
fn parser_test_parser_ident() {
    assert_eq!(parse_program("x"), Ok(vec![Stmt::Expr(Box::new(Expr::Ident("x".to_string())))]));
}

#[test]
fn parser_test_parser_num() {
    assert_eq!(parse_program("23"), Ok(vec![Stmt::Expr(num(23.0))]));
}

#[test]
fn parser_test_parser_str() {
    let code = r#""Hello, world!""#;
    assert_eq!(
        parse_program(code),
        Ok(vec![Stmt::Expr(Box::new(Expr::Str("Hello, world!".to_string())))])
    );
}

#[test]
fn parse_booleans_and_not_equal() {
    assert_eq!(
        parse_program("true != false"),
        Ok(vec![Stmt::Expr(Box::new(Expr::Comparison {
            lhs: Box::new(Expr::Bool(true)),
            op: CompareOp::NotEqual,
            rhs: Box::new(Expr::Bool(false)),
        }))])
    );
}

#[test]
fn parse_errors() {
    assert_eq!(parse_program("print ;"), Err(ParseError::Unexpected(6)));
    assert_eq!(parse_program("print \"abc"), Err(ParseError::UnexpectedEnd));
    assert_eq!(parse_program("{ print 1;"), Err(ParseError::UnexpectedEnd));
    assert_eq!(parse_program("print 9007199254740993;"), Err(ParseError::NumberTooLarge(6)));
    assert_eq!(parse_program("   \n\t "), Ok(vec![]));
}

#[test]
fn integer_literals_are_exact_doubles() {
    for v in [0u64, 1, 2, 3, 23, 1022, 4096, 123456789, 9007199254740991, 9007199254740992] {
        assert_eq!(double_of_int(v), (v as f64).to_bits());
    }
}

#[test]
fn filter_comments_drops_comment_lines() {
    assert_eq!(filter_comments("// c\nprint 1;\r\n// d\nprint 2;\n"), "print 1;\nprint 2;");
    assert_eq!(filter_comments(""), "");
    assert_eq!(filter_comments("a\n\nb"), "a\n\nb");
    assert_eq!(filter_comments(" // not a comment\n/x"), " // not a comment\n/x");
    assert_eq!(filter_comments("//only"), "");
    assert_eq!(filter_comments("a\r"), "a\r");
}

#[test]
fn nesting_is_bounded() {
    let deep = format!("print {}1{};", "(".repeat(300), ")".repeat(300));
    assert!(matches!(parse_program(&deep), Err(ParseError::TooDeep(_))));
    let shallow = format!("print {}1{};", "(".repeat(200), ")".repeat(200));
    assert!(parse_program(&shallow).is_ok());
    let long_sum = format!("print 1{};", " + 1".repeat(MAX_DEPTH + 10));
    assert!(matches!(parse_program(&long_sum), Err(ParseError::TooDeep(_))));
    let blocks = format!("{}{}", "{ ".repeat(MAX_DEPTH + 1), "}".repeat(MAX_DEPTH + 1));
    assert!(matches!(parse_program(&blocks), Err(ParseError::TooDeep(_))));
}
