use tau::lexer::Lexer;
use tau::token::{Token, TokenName};

fn lex(input: &str) -> Vec<Token> {
    Lexer::tokenize(input)
}

fn t(kind: TokenName, value: &str, row: usize, col: usize) -> Token {
    Token { kind, value: value.to_string(), row, col }
}

#[test]
fn symbols() {
    let tokens = lex("{}[]();:");
    assert_eq!(
        tokens,
        vec![
            t(TokenName::Osq, "{", 1, 1),
            t(TokenName::Csq, "}", 1, 2),
            t(TokenName::Obr, "[", 1, 3),
            t(TokenName::Cbr, "]", 1, 4),
            t(TokenName::Opr, "(", 1, 5),
            t(TokenName::Cpr, ")", 1, 6),
            t(TokenName::Semi, ";", 1, 7),
            t(TokenName::Colon, ":", 1, 8),
        ],
    );
}

#[test]
fn number() {
    assert_eq!(lex("123"), vec![t(TokenName::Int, "123", 1, 1)]);
    assert_eq!(lex("0.0"), vec![t(TokenName::Float, "0.0", 1, 1)]);
    assert_eq!(lex("123.23"), vec![t(TokenName::Float, "123.23", 1, 1)]);
}

#[test]
fn str() {
    assert_eq!(lex("\"hello\""), vec![t(TokenName::Str, "hello", 1, 2)]);
}

#[test]
fn ident() {
    assert_eq!(lex("x"), vec![t(TokenName::Ident, "x", 1, 1)]);
    assert_eq!(lex("let"), vec![t(TokenName::Let, "let", 1, 1)]);
    assert_eq!(lex("return"), vec![t(TokenName::Return, "return", 1, 1)]);
}

#[test]
fn ops() {
    assert_eq!(
        lex("x + y"),
        vec![
            t(TokenName::Ident, "x", 1, 1),
            t(TokenName::Add, "+", 1, 3),
            t(TokenName::Ident, "y", 1, 5),
        ],
    );
    assert_eq!(
        lex("x += y"),
        vec![
            t(TokenName::Ident, "x", 1, 1),
            t(TokenName::AddAssign, "+=", 1, 3),
            t(TokenName::Ident, "y", 1, 6),
        ],
    );
    assert_eq!(
        lex("x - y"),
        vec![
            t(TokenName::Ident, "x", 1, 1),
            t(TokenName::Sub, "-", 1, 3),
            t(TokenName::Ident, "y", 1, 5),
        ],
    );
    assert_eq!(
        lex("x -= y"),
        vec![
            t(TokenName::Ident, "x", 1, 1),
            t(TokenName::SubAssign, "-=", 1, 3),
            t(TokenName::Ident, "y", 1, 6),
        ],
    );
    assert_eq!(
        lex("x * y"),
        vec![
            t(TokenName::Ident, "x", 1, 1),
            t(TokenName::Mul, "*", 1, 3),
            t(TokenName::Ident, "y", 1, 5),
        ],
    );
    assert_eq!(
        lex("x *= y"),
        vec![
            t(TokenName::Ident, "x", 1, 1),
            t(TokenName::MulAssign, "*=", 1, 3),
            t(TokenName::Ident, "y", 1, 6),
        ],
    );
    assert_eq!(
        lex("x / y"),
        vec![
            t(TokenName::Ident, "x", 1, 1),
            t(TokenName::Div, "/", 1, 3),
            t(TokenName::Ident, "y", 1, 5),
        ],
    );
    assert_eq!(
        lex("x /= y"),
        vec![
            t(TokenName::Ident, "x", 1, 1),
            t(TokenName::DivAssign, "/=", 1, 3),
            t(TokenName::Ident, "y", 1, 6),
        ],
    );
    assert_eq!(
        lex("x && y"),
        vec![
            t(TokenName::Ident, "x", 1, 1),
            t(TokenName::And, "&&", 1, 3),
            t(TokenName::Ident, "y", 1, 6),
        ],
    );
    assert_eq!(
        lex("x || y"),
        vec![
            t(TokenName::Ident, "x", 1, 1),
            t(TokenName::Or, "||", 1, 3),
            t(TokenName::Ident, "y", 1, 6),
        ],
    );
}

#[test]
fn let_stmt() {
    assert_eq!(
        lex("let x = 1;"),
        vec![
            t(TokenName::Let, "let", 1, 1),
            t(TokenName::Ident, "x", 1, 5),
            t(TokenName::Assign, "=", 1, 7),
            t(TokenName::Int, "1", 1, 9),
            t(TokenName::Semi, ";", 1, 10),
        ],
    );
}

#[test]
fn return_stmt() {
    assert_eq!(
        lex("return x;"),
        vec![
            t(TokenName::Return, "return", 1, 1),
            t(TokenName::Ident, "x", 1, 8),
            t(TokenName::Semi, ";", 1, 9),
        ],
    );
}

#[test]
fn if_else() {
    assert_eq!(
        lex("if x < 1 { x } else { 0 };"),
        vec![
            t(TokenName::If, "if", 1, 1),
            t(TokenName::Ident, "x", 1, 4),
            t(TokenName::Lt, "<", 1, 6),
            t(TokenName::Int, "1", 1, 8),
            t(TokenName::Osq, "{", 1, 10),
            t(TokenName::Ident, "x", 1, 12),
            t(TokenName::Csq, "}", 1, 14),
            t(TokenName::Else, "else", 1, 16),
            t(TokenName::Osq, "{", 1, 21),
            t(TokenName::Int, "0", 1, 23),
            t(TokenName::Csq, "}", 1, 25),
            t(TokenName::Semi, ";", 1, 26),
        ],
    );
}

#[test]
fn keywords_whole_lexeme() {
    assert_eq!(lex("if"), vec![t(TokenName::If, "if", 1, 1)]);
    assert_eq!(lex("else"), vec![t(TokenName::Else, "else", 1, 1)]);
    assert_eq!(lex("for"), vec![t(TokenName::For, "for", 1, 1)]);
    assert_eq!(lex("letx"), vec![t(TokenName::Ident, "letx", 1, 1)]);
    assert_eq!(lex("returned"), vec![t(TokenName::Ident, "returned", 1, 1)]);
}

#[test]
fn error_tokens() {
    assert_eq!(lex("@"), vec![t(TokenName::Error, "@", 1, 1)]);
    assert_eq!(lex("&"), vec![t(TokenName::Error, "&", 1, 1)]);
    assert_eq!(
        lex("|x"),
        vec![t(TokenName::Error, "|", 1, 1), t(TokenName::Ident, "x", 1, 2)],
    );
}

#[test]
fn multi_dot_number_is_one_float() {
    assert_eq!(lex("1.2.3"), vec![t(TokenName::Float, "1.2.3", 1, 1)]);
}

#[test]
fn unterminated_string_runs_to_end() {
    assert_eq!(lex("\"abc"), vec![t(TokenName::Str, "abc", 1, 2)]);
}

#[test]
fn string_may_span_lines() {
    assert_eq!(lex("\"a\nb\""), vec![t(TokenName::Str, "a\nb", 1, 2)]);
}

#[test]
fn newline_resets_column() {
    assert_eq!(
        lex("x\ny"),
        vec![t(TokenName::Ident, "x", 1, 1), t(TokenName::Ident, "y", 2, 1)],
    );
    assert_eq!(
        lex("a\n  b"),
        vec![t(TokenName::Ident, "a", 1, 1), t(TokenName::Ident, "b", 2, 3)],
    );
}

#[test]
fn unicode_letters_and_whitespace() {
    assert_eq!(lex("na\u{ef}ve"), vec![t(TokenName::Ident, "na\u{ef}ve", 1, 1)]);
    assert_eq!(
        lex("\u{a0}x"),
        vec![t(TokenName::Ident, "x", 1, 2)],
    );
}

#[test]
fn empty_input_yields_nothing() {
    assert_eq!(lex(""), Vec::<Token>::new());
    assert_eq!(lex("  \t\n  "), Vec::<Token>::new());
}

#[test]
fn end_is_sticky() {
    let mut lx = Lexer::new("x");
    assert_eq!(lx.next_token(), Some(t(TokenName::Ident, "x", 1, 1)));
    assert_eq!(lx.next_token(), None);
    assert_eq!(lx.next_token(), None);
}

#[test]
fn positions_never_go_backwards() {
    let tokens = lex("let a = 1;\nlet b = a + 2;\nif a < b { a } else { b };\n");
    for w in tokens.windows(2) {
        let earlier = (w[0].row, w[0].col);
        let later = (w[1].row, w[1].col);
        assert!(earlier <= later);
    }
}
