use tau::ast::{Expr, ExprKind, Stmt, StmtKind, AST};
use tau::parser::{parse_source, Expected, ParseError, Parser};
use tau::token::{Token, TokenName};

fn program(src: &str) -> Vec<Stmt> {
    let ast: AST = parse_source(src).unwrap();
    ast.nodes
}

fn failure(src: &str) -> ParseError {
    parse_source(src).unwrap_err()
}

fn ident(name: &str) -> Expr {
    Expr { kind: ExprKind::Ident(name.to_string()) }
}

fn intlit(text: &str) -> Expr {
    Expr { kind: ExprKind::IntLiteral(text.to_string()) }
}

fn infix(op: TokenName, left: Expr, right: Expr) -> Expr {
    Expr { kind: ExprKind::Infix(op, Box::new(left), Box::new(right)) }
}

fn expr_stmt(e: Expr) -> Stmt {
    Stmt { kind: StmtKind::ExprStmt(e) }
}

#[test]
fn multiplication_binds_tighter() {
    assert_eq!(
        program("1 + 2 * 3"),
        vec![expr_stmt(infix(
            TokenName::Add,
            intlit("1"),
            infix(TokenName::Mul, intlit("2"), intlit("3")),
        ))],
    );
    assert_eq!(
        program("1 * 2 + 3"),
        vec![expr_stmt(infix(
            TokenName::Add,
            infix(TokenName::Mul, intlit("1"), intlit("2")),
            intlit("3"),
        ))],
    );
}

#[test]
fn subtraction_is_left_associative() {
    assert_eq!(
        program("1 - 2 - 3"),
        vec![expr_stmt(infix(
            TokenName::Sub,
            infix(TokenName::Sub, intlit("1"), intlit("2")),
            intlit("3"),
        ))],
    );
}

#[test]
fn let_statement_structure() {
    assert_eq!(
        program("let x = 1;"),
        vec![Stmt { kind: StmtKind::Let("x".to_string(), intlit("1")) }],
    );
}

#[test]
fn return_statement_structure() {
    assert_eq!(
        program("return x;"),
        vec![Stmt { kind: StmtKind::Return(ident("x")) }],
    );
}

#[test]
fn if_expression_structure() {
    assert_eq!(
        program("if x < 1 { x } else { 0 };"),
        vec![expr_stmt(Expr {
            kind: ExprKind::If(
                Box::new(infix(TokenName::Lt, ident("x"), intlit("1"))),
                vec![expr_stmt(ident("x"))],
                Some(vec![expr_stmt(intlit("0"))]),
            ),
        })],
    );
}

#[test]
fn if_without_else() {
    assert_eq!(
        program("if x { 1 };"),
        vec![expr_stmt(Expr {
            kind: ExprKind::If(Box::new(ident("x")), vec![expr_stmt(intlit("1"))], None),
        })],
    );
}

#[test]
fn missing_assign_is_reported() {
    let e = failure("let x 1;");
    assert_eq!(e.expected, Expected::Kind(TokenName::Assign));
    assert_eq!(
        e.found,
        Some(Token { kind: TokenName::Int, value: "1".to_string(), row: 1, col: 7 }),
    );
}

#[test]
fn missing_ident_is_reported() {
    let e = failure("let 1 = 2;");
    assert_eq!(e.expected, Expected::Kind(TokenName::Ident));
    assert_eq!(
        e.found,
        Some(Token { kind: TokenName::Int, value: "1".to_string(), row: 1, col: 5 }),
    );
}

#[test]
fn missing_semi_is_reported() {
    let e = failure("return x");
    assert_eq!(e.expected, Expected::Kind(TokenName::Semi));
    assert_eq!(e.found, None);
}

#[test]
fn missing_expression_is_reported() {
    let e = failure("let x = ;");
    assert_eq!(e.expected, Expected::ExprStart);
    assert_eq!(
        e.found,
        Some(Token { kind: TokenName::Semi, value: ";".to_string(), row: 1, col: 9 }),
    );
}

#[test]
fn end_of_input_mid_construct_is_reported() {
    let e = failure("let x =");
    assert_eq!(e.expected, Expected::ExprStart);
    assert_eq!(e.found, None);
}

#[test]
fn missing_close_paren_is_reported() {
    let e = failure("f(1;");
    assert_eq!(e.expected, Expected::Kind(TokenName::Cpr));
    assert_eq!(
        e.found,
        Some(Token { kind: TokenName::Semi, value: ";".to_string(), row: 1, col: 4 }),
    );
}

#[test]
fn missing_open_brace_is_reported() {
    let e = failure("if x ;");
    assert_eq!(e.expected, Expected::Kind(TokenName::Osq));
    assert_eq!(
        e.found,
        Some(Token { kind: TokenName::Semi, value: ";".to_string(), row: 1, col: 6 }),
    );
}

#[test]
fn unclosed_block_is_reported() {
    let e = failure("if x { 1");
    assert_eq!(e.expected, Expected::Kind(TokenName::Csq));
    assert_eq!(e.found, None);
}

#[test]
fn error_token_is_rejected_by_parser() {
    let e = failure("let x = @;");
    assert_eq!(e.expected, Expected::ExprStart);
    assert_eq!(
        e.found,
        Some(Token { kind: TokenName::Error, value: "@".to_string(), row: 1, col: 9 }),
    );
}

#[test]
fn call_takes_one_argument() {
    assert_eq!(
        program("f(1);"),
        vec![expr_stmt(Expr {
            kind: ExprKind::Call("f".to_string(), Box::new(intlit("1"))),
        })],
    );
}

#[test]
fn grouping_overrides_precedence() {
    assert_eq!(
        program("(1 + 2) * 3"),
        vec![expr_stmt(infix(
            TokenName::Mul,
            infix(TokenName::Add, intlit("1"), intlit("2")),
            intlit("3"),
        ))],
    );
}

#[test]
fn prefix_operators_bind_tightest() {
    assert_eq!(
        program("!x;"),
        vec![expr_stmt(Expr {
            kind: ExprKind::Prefix(TokenName::Bang, Box::new(ident("x"))),
        })],
    );
    assert_eq!(
        program("-2 * 3;"),
        vec![expr_stmt(infix(
            TokenName::Mul,
            Expr { kind: ExprKind::Prefix(TokenName::Sub, Box::new(intlit("2"))) },
            intlit("3"),
        ))],
    );
}

#[test]
fn and_binds_tighter_than_or() {
    assert_eq!(
        program("a && b || c;"),
        vec![expr_stmt(infix(
            TokenName::Or,
            infix(TokenName::And, ident("a"), ident("b")),
            ident("c"),
        ))],
    );
}

#[test]
fn comparison_binds_looser_than_addition() {
    assert_eq!(
        program("a + 1 < b;"),
        vec![expr_stmt(infix(
            TokenName::Lt,
            infix(TokenName::Add, ident("a"), intlit("1")),
            ident("b"),
        ))],
    );
}

#[test]
fn literal_leaves() {
    assert_eq!(
        program("let s = \"hi\";"),
        vec![Stmt {
            kind: StmtKind::Let(
                "s".to_string(),
                Expr { kind: ExprKind::StringLiteral("hi".to_string()) },
            ),
        }],
    );
    assert_eq!(
        program("2.5;"),
        vec![expr_stmt(Expr { kind: ExprKind::FloatLiteral("2.5".to_string()) })],
    );
}

#[test]
fn empty_source_is_an_empty_program() {
    assert_eq!(program(""), Vec::<Stmt>::new());
}

#[test]
fn statements_keep_source_order() {
    assert_eq!(
        program("let x = 1; return x;"),
        vec![
            Stmt { kind: StmtKind::Let("x".to_string(), intlit("1")) },
            Stmt { kind: StmtKind::Return(ident("x")) },
        ],
    );
}

#[test]
fn parser_type_drives_the_parse() {
    let mut p = Parser::new("let y = 2;");
    let ast = p.parse().unwrap();
    assert_eq!(
        ast.nodes,
        vec![Stmt { kind: StmtKind::Let("y".to_string(), intlit("2")) }],
    );
}
