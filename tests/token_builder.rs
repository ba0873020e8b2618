use lox_token::token::{Decimal, Literal, LiteralType, TokenBuilder, TokenType};

#[test]
fn builder_starts_in_sentinel_state() {
    let b: TokenBuilder<LiteralType> = TokenBuilder::new();
    assert_eq!(b.kind, TokenType::Eof);
    assert_eq!(b.lexeme, "");
    assert!(b.literal.is_none());
    assert_eq!(b.line, 0);
}

#[test]
fn builder_sets_fields_in_any_order() {
    let t = TokenBuilder::new()
        .line(3)
        .literal(Some(Literal { kind: LiteralType::Int(42) }))
        .lexeme(String::from("42"))
        .kind(TokenType::Number)
        .build();
    assert_eq!(t.kind, TokenType::Number);
    assert_eq!(t.lexeme, "42");
    assert_eq!(t.literal, Some(Literal { kind: LiteralType::Int(42) }));
    assert_eq!(t.line, 3);
}

#[test]
fn builder_later_setting_wins() {
    let t = TokenBuilder::<LiteralType>::new()
        .kind(TokenType::Plus)
        .kind(TokenType::Minus)
        .lexeme(String::from("+"))
        .lexeme(String::from("-"))
        .line(1)
        .line(7)
        .build();
    assert_eq!(t.kind, TokenType::Minus);
    assert_eq!(t.lexeme, "-");
    assert!(t.literal.is_none());
    assert_eq!(t.line, 7);
}

#[test]
fn tokens_compare_structurally() {
    let make = |line: usize| {
        TokenBuilder::new()
            .kind(TokenType::Number)
            .lexeme(String::from("1.5"))
            .literal(Some(Literal { kind: LiteralType::Float(Decimal { mantissa: 15, scale: 1 }) }))
            .line(line)
            .build()
    };
    assert_eq!(make(1), make(1));
    assert_ne!(make(1), make(2));
}
