use lox_token::scanner::{scan, LexicalErrorKind, ScanResult};
use lox_token::token::{Decimal, Literal, LiteralType, Token, TokenType};

fn plain(kind: TokenType, lexeme: &str, line: usize) -> Token<LiteralType> {
    Token { kind, lexeme: String::from(lexeme), literal: None, line }
}

fn eof(line: usize) -> Token<LiteralType> {
    plain(TokenType::Eof, "", line)
}

fn kinds(r: &ScanResult) -> Vec<TokenType> {
    r.tokens.iter().map(|t| t.kind).collect()
}

fn decimal_to_f64(d: Decimal) -> f64 {
    d.mantissa as f64 / 10f64.powi(d.scale as i32)
}

#[test]
fn empty_source_gives_only_eof() {
    let r = scan("");
    assert_eq!(r.tokens, vec![eof(1)]);
    assert!(r.errors.is_empty());
}

#[test]
fn comment_only_source_counts_its_newline() {
    let r = scan("// comment only\n");
    assert_eq!(r.tokens, vec![eof(2)]);
    assert!(r.errors.is_empty());
}

#[test]
fn whitespace_only_source_behaves_like_empty() {
    let r = scan(" \t\r ");
    assert_eq!(r.tokens, vec![eof(1)]);
    assert!(r.errors.is_empty());
}

#[test]
fn bang_equal_is_one_token() {
    let r = scan("!=");
    assert_eq!(r.tokens, vec![plain(TokenType::BangEqual, "!=", 1), eof(1)]);
    assert!(r.errors.is_empty());
}

#[test]
fn lone_bang_is_bang() {
    let r = scan("!");
    assert_eq!(r.tokens, vec![plain(TokenType::Bang, "!", 1), eof(1)]);
    assert!(r.errors.is_empty());
}

#[test]
fn one_and_two_character_operators() {
    let r = scan("= == < <= > >= ! !=");
    assert_eq!(
        kinds(&r),
        vec![
            TokenType::Equal,
            TokenType::EqualEqual,
            TokenType::Less,
            TokenType::LessEqual,
            TokenType::Greater,
            TokenType::GreaterEqual,
            TokenType::Bang,
            TokenType::BangEqual,
            TokenType::Eof,
        ]
    );
}

#[test]
fn three_equals_is_equal_equal_then_equal() {
    let r = scan("===");
    assert_eq!(
        r.tokens,
        vec![plain(TokenType::EqualEqual, "==", 1), plain(TokenType::Equal, "=", 1), eof(1)]
    );
}

#[test]
fn single_character_punctuation() {
    let r = scan("(){},.-+;/*");
    assert_eq!(
        kinds(&r),
        vec![
            TokenType::LeftParen,
            TokenType::RightParen,
            TokenType::LeftBrace,
            TokenType::RightBrace,
            TokenType::Comma,
            TokenType::Dot,
            TokenType::Minus,
            TokenType::Plus,
            TokenType::SemiColon,
            TokenType::Slash,
            TokenType::Star,
            TokenType::Eof,
        ]
    );
    assert_eq!(r.tokens[9], plain(TokenType::Slash, "/", 1));
}

#[test]
fn integer_numeral_is_int() {
    let r = scan("123");
    assert_eq!(
        r.tokens,
        vec![
            Token {
                kind: TokenType::Number,
                lexeme: String::from("123"),
                literal: Some(Literal { kind: LiteralType::Int(123) }),
                line: 1,
            },
            eof(1),
        ]
    );
}

#[test]
fn decimal_numeral_is_float() {
    let r = scan("1.5");
    let expected = Decimal { mantissa: 15, scale: 1 };
    assert_eq!(r.tokens[0].kind, TokenType::Number);
    assert_eq!(r.tokens[0].lexeme, "1.5");
    assert_eq!(r.tokens[0].literal, Some(Literal { kind: LiteralType::Float(expected) }));
    assert_eq!(decimal_to_f64(expected), 1.5);
    assert_eq!(r.tokens.len(), 2);
}

#[test]
fn trailing_dot_is_a_separate_token() {
    let r = scan("12.");
    assert_eq!(kinds(&r), vec![TokenType::Number, TokenType::Dot, TokenType::Eof]);
    assert_eq!(r.tokens[0].literal, Some(Literal { kind: LiteralType::Int(12) }));
    let r = scan("1.a");
    assert_eq!(
        kinds(&r),
        vec![TokenType::Number, TokenType::Dot, TokenType::Identifier, TokenType::Eof]
    );
}

#[test]
fn largest_int_and_beyond() {
    let r = scan("2147483647 2147483648");
    assert_eq!(r.tokens[0].literal, Some(Literal { kind: LiteralType::Int(2147483647) }));
    assert_eq!(
        r.tokens[1].literal,
        Some(Literal { kind: LiteralType::Float(Decimal { mantissa: 2147483648, scale: 0 }) })
    );
}

#[test]
fn numeral_beyond_u64_is_malformed() {
    let r = scan("18446744073709551615 18446744073709551616 7");
    assert_eq!(
        r.tokens[0].literal,
        Some(Literal {
            kind: LiteralType::Float(Decimal { mantissa: 18446744073709551615, scale: 0 })
        })
    );
    assert_eq!(kinds(&r), vec![TokenType::Number, TokenType::Number, TokenType::Eof]);
    assert_eq!(r.tokens[1].lexeme, "7");
    assert_eq!(r.errors.len(), 1);
    assert_eq!(r.errors[0].kind, LexicalErrorKind::MalformedNumber);
    assert_eq!(r.errors[0].line, 1);
    assert_eq!(r.errors[0].message, "Number too large.");
}

#[test]
fn unterminated_string_reports_one_error() {
    let r = scan("\"abc");
    assert_eq!(r.tokens, vec![eof(1)]);
    assert_eq!(r.errors.len(), 1);
    assert_eq!(r.errors[0].kind, LexicalErrorKind::UnterminatedString);
    assert_eq!(r.errors[0].line, 1);
    assert_eq!(r.errors[0].message, "Unterminated string.");
}

#[test]
fn unterminated_string_runs_to_end_of_source() {
    let r = scan("x \"abc\nfoo");
    assert_eq!(r.tokens, vec![plain(TokenType::Identifier, "x", 1), eof(2)]);
    assert_eq!(r.errors.len(), 1);
    assert_eq!(r.errors[0].kind, LexicalErrorKind::UnterminatedString);
    assert_eq!(r.errors[0].line, 1);
}

#[test]
fn string_literal_keeps_quotes_in_lexeme_only() {
    let r = scan("\"hi there\"");
    assert_eq!(
        r.tokens,
        vec![
            Token {
                kind: TokenType::String,
                lexeme: String::from("\"hi there\""),
                literal: Some(Literal { kind: LiteralType::String(String::from("hi there")) }),
                line: 1,
            },
            eof(1),
        ]
    );
}

#[test]
fn multi_line_string_keeps_start_line() {
    let r = scan("\"a\nb\" c");
    assert_eq!(r.tokens[0].line, 1);
    assert_eq!(
        r.tokens[0].literal,
        Some(Literal { kind: LiteralType::String(String::from("a\nb")) })
    );
    assert_eq!(r.tokens[1], plain(TokenType::Identifier, "c", 2));
    assert_eq!(r.tokens[2], eof(2));
}

#[test]
fn string_body_is_taken_verbatim() {
    let r = scan("\"a\\n\"");
    assert_eq!(
        r.tokens[0].literal,
        Some(Literal { kind: LiteralType::String(String::from("a\\n")) })
    );
}

#[test]
fn identifier_and_keyword() {
    let r = scan("foo");
    assert_eq!(r.tokens, vec![plain(TokenType::Identifier, "foo", 1), eof(1)]);
    let r = scan("and");
    assert_eq!(r.tokens, vec![plain(TokenType::And, "and", 1), eof(1)]);
}

#[test]
fn keywords_match_exactly() {
    let r = scan("And andy an _and and_ and1");
    assert_eq!(
        kinds(&r),
        vec![
            TokenType::Identifier,
            TokenType::Identifier,
            TokenType::Identifier,
            TokenType::Identifier,
            TokenType::Identifier,
            TokenType::Identifier,
            TokenType::Eof,
        ]
    );
}

#[test]
fn every_keyword() {
    let r = scan("and class else false fun for if nil or print return super this true var while");
    assert_eq!(
        kinds(&r),
        vec![
            TokenType::And,
            TokenType::Class,
            TokenType::Else,
            TokenType::False,
            TokenType::Fun,
            TokenType::For,
            TokenType::If,
            TokenType::Nil,
            TokenType::Or,
            TokenType::Print,
            TokenType::Return,
            TokenType::Super,
            TokenType::This,
            TokenType::True,
            TokenType::Var,
            TokenType::While,
            TokenType::Eof,
        ]
    );
}

#[test]
fn unexpected_characters_are_reported_and_skipped() {
    let r = scan("a @ b\n#");
    assert_eq!(
        r.tokens,
        vec![plain(TokenType::Identifier, "a", 1), plain(TokenType::Identifier, "b", 1), eof(2)]
    );
    assert_eq!(r.errors.len(), 2);
    assert_eq!(r.errors[0].kind, LexicalErrorKind::UnexpectedCharacter);
    assert_eq!(r.errors[0].line, 1);
    assert_eq!(r.errors[0].message, "Unexpected character.");
    assert_eq!(r.errors[1].kind, LexicalErrorKind::UnexpectedCharacter);
    assert_eq!(r.errors[1].line, 2);
}

#[test]
fn non_ascii_outside_strings_is_unexpected() {
    let r = scan("é \"é\"");
    assert_eq!(r.errors.len(), 1);
    assert_eq!(r.errors[0].kind, LexicalErrorKind::UnexpectedCharacter);
    assert_eq!(
        r.tokens[0].literal,
        Some(Literal { kind: LiteralType::String(String::from("é")) })
    );
}

#[test]
fn all_errors_reported_in_one_pass() {
    let r = scan("@\n99999999999999999999\n\"open");
    assert_eq!(r.tokens, vec![eof(3)]);
    let got: Vec<(LexicalErrorKind, usize)> = r.errors.iter().map(|e| (e.kind, e.line)).collect();
    assert_eq!(
        got,
        vec![
            (LexicalErrorKind::UnexpectedCharacter, 1),
            (LexicalErrorKind::MalformedNumber, 2),
            (LexicalErrorKind::UnterminatedString, 3),
        ]
    );
}

#[test]
fn comment_after_code_and_lines() {
    let r = scan("var x = 1; // set x\nprint x;");
    assert_eq!(
        kinds(&r),
        vec![
            TokenType::Var,
            TokenType::Identifier,
            TokenType::Equal,
            TokenType::Number,
            TokenType::SemiColon,
            TokenType::Print,
            TokenType::Identifier,
            TokenType::SemiColon,
            TokenType::Eof,
        ]
    );
    let lines: Vec<usize> = r.tokens.iter().map(|t| t.line).collect();
    assert_eq!(lines, vec![1, 1, 1, 1, 1, 2, 2, 2, 2]);
}

#[test]
fn eof_is_last_and_unique() {
    for src in ["", "a", "(1 + 2) * 3\n", "\"x", "@@", "// c"] {
        let r = scan(src);
        let n = r.tokens.len();
        assert!(n >= 1);
        let last = &r.tokens[n - 1];
        assert_eq!(last.kind, TokenType::Eof);
        assert_eq!(last.lexeme, "");
        assert!(last.literal.is_none());
        assert_eq!(r.tokens.iter().filter(|t| t.kind == TokenType::Eof).count(), 1);
    }
}

#[test]
fn eof_line_counts_every_newline() {
    let r = scan("a\n\"b\nc\"\n// d\n");
    assert_eq!(r.tokens[r.tokens.len() - 1].line, 5);
    assert!(r.tokens.iter().all(|t| t.line <= 5));
}

#[test]
fn rescanning_gives_equal_results() {
    let src = "fun f(a) { return a >= 1.25; } \"s\" @";
    assert_eq!(scan(src), scan(src));
}
