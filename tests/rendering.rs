use lox_token::scanner::scan;
use lox_token::token::{Decimal, Literal, LiteralType, Token, TokenBuilder, TokenType};

fn number(literal: LiteralType, lexeme: &str) -> Token<LiteralType> {
    TokenBuilder::new()
        .kind(TokenType::Number)
        .lexeme(String::from(lexeme))
        .literal(Some(Literal { kind: literal }))
        .line(1)
        .build()
}

fn debug_rendering(t: &Token<LiteralType>) -> String {
    format!("{:?} {:?} {:?}", t.kind, t.lexeme, t.literal)
}

#[test]
fn render_plain_token() {
    let r = scan("!=");
    assert_eq!(r.tokens[0].render(), "BangEqual \"!=\" None");
    assert_eq!(r.tokens[1].render(), "Eof \"\" None");
}

#[test]
fn render_bang_token() {
    let t = Token::<LiteralType> {
        kind: TokenType::Bang,
        lexeme: String::from("!"),
        literal: None,
        line: 1,
    };
    assert_eq!(t.render(), "Bang \"!\" None");
}

#[test]
fn render_string_token() {
    let r = scan("\"hi\"");
    assert_eq!(r.tokens[0].render(), "String \"\\\"hi\\\"\" Some(Literal { kind: String(\"hi\") })");
}

#[test]
fn render_int_literals() {
    assert_eq!(number(LiteralType::Int(123), "123").render(), "Number \"123\" Some(Literal { kind: Int(123) })");
    assert_eq!(number(LiteralType::Int(0), "0").render(), "Number \"0\" Some(Literal { kind: Int(0) })");
    assert_eq!(
        number(LiteralType::Int(-2147483648), "x").render(),
        "Number \"x\" Some(Literal { kind: Int(-2147483648) })"
    );
}

#[test]
fn render_decimal_literals() {
    let d = |mantissa: u64, scale: usize| LiteralType::Float(Decimal { mantissa, scale });
    assert_eq!(number(d(15, 1), "1.5").render(), "Number \"1.5\" Some(Literal { kind: Float(1.5) })");
    assert_eq!(number(d(5, 2), "0.05").render(), "Number \"0.05\" Some(Literal { kind: Float(0.05) })");
    assert_eq!(
        number(d(2500000000, 0), "2500000000").render(),
        "Number \"2500000000\" Some(Literal { kind: Float(2500000000.0) })"
    );
    assert_eq!(format!("{:?}", 1.5f64), "1.5");
    assert_eq!(format!("{:?}", 2500000000.0f64), "2500000000.0");
}

#[test]
fn render_matches_debug_formatting() {
    let src = "var s = \"tab\there\\ \\\"q\\\" 'a'\u{1}\u{7f}\r\"; fun f(x) { return x <= 42; }\n\"é\u{301}\u{85}\"";
    let r = scan(src);
    assert!(r.tokens.len() > 10);
    for t in &r.tokens {
        assert_eq!(t.render(), debug_rendering(t));
    }
}

#[test]
fn render_escapes_control_characters() {
    let t = Token::<LiteralType> {
        kind: TokenType::Identifier,
        lexeme: String::from("a\n\t\r\0\u{1b}\\\""),
        literal: None,
        line: 1,
    };
    assert_eq!(t.render(), "Identifier \"a\\n\\t\\r\\0\\u{1b}\\\\\\\"\" None");
    assert_eq!(t.render(), debug_rendering(&t));
}

#[test]
fn category_names() {
    assert_eq!(TokenType::LeftParen.name(), "LeftParen");
    assert_eq!(TokenType::While.name(), "While");
    assert_eq!(TokenType::Start.name(), "Start");
}
