use vstd::prelude::*;
use crate::text::{debug_str, decimal_digits, push_debug_str, push_decimal, push_range, zeros};

verus! {

/// A literal payload carried by a `String` or `Number` token.
#[derive(Debug, PartialEq)]
pub struct Literal<T> {
    pub kind: T,
}

/// An exact decimal number: `mantissa` times ten to the power of minus `scale`.
///
/// `1.5` is `Decimal { mantissa: 15, scale: 1 }`; `2500000000` is
/// `Decimal { mantissa: 2500000000, scale: 0 }`.
#[derive(Clone, Copy, Debug, PartialEq, Eq, Structural)]
pub struct Decimal {
    pub mantissa: u64,
    pub scale: usize,
}

/// The concrete value of a literal.
#[derive(Debug, PartialEq)]
pub enum LiteralType {
    /// The characters between the quotes of a string literal, taken verbatim.
    String(String),
    /// A numeral without a decimal point whose value fits in an `i32`.
    Int(i32),
    /// Any other numeral, kept exactly as a decimal.
    Float(Decimal),
}

/// The mathematical value of a [`LiteralType`].
pub enum LiteralValue {
    Text(Seq<char>),
    Int(int),
    Float(Decimal),
}

impl View for LiteralType {
    type V = LiteralValue;

    open spec fn view(&self) -> LiteralValue {
        match self {
            LiteralType::String(s) => LiteralValue::Text(s@),
            LiteralType::Int(i) => LiteralValue::Int(*i as int),
            LiteralType::Float(d) => LiteralValue::Float(*d),
        }
    }
}

impl<T: View> View for Literal<T> {
    type V = T::V;

    open spec fn view(&self) -> T::V {
        self.kind@
    }
}

/// Different types of tokens
#[derive(Clone, Copy, Debug, PartialEq, Eq, Structural)]
pub enum TokenType {
    // Single-character tokens.
    LeftParen,
    RightParen,
    LeftBrace,
    RightBrace,
    Comma,
    Dot,
    Minus,
    Plus,
    SemiColon,
    Slash,
    Eof,
    Start,
    Star,
    // One or two character tokens
    Bang,
    BangEqual,
    Equal,
    EqualEqual,
    Greater,
    GreaterEqual,
    Less,
    LessEqual,
    // Literals
    Identifier,
    String,
    Number,
    // Keywords
    And,
    Class,
    Else,
    False,
    Fun,
    For,
    If,
    Nil,
    Or,
    Print,
    Return,
    Super,
    This,
    True,
    Var,
    While,
}

/// Whether tokens of category `kind` carry a literal value.
pub open spec fn carries_literal(kind: TokenType) -> bool {
    kind == TokenType::String || kind == TokenType::Number
}

/// A token whose literal is present exactly when its category calls for one,
/// and whose line is a real (1-based) source line.
pub open spec fn well_formed_parts<T>(kind: TokenType, literal: Option<Literal<T>>, line: usize) -> bool {
    &&& literal.is_some() == carries_literal(kind)
    &&& line >= 1
}

/// The mathematical model of a token.
pub struct TokenModel<L> {
    pub kind: TokenType,
    pub lexeme: Seq<char>,
    pub literal: Option<L>,
    pub line: nat,
}

/// Token type for lexical analysis
#[derive(Debug, PartialEq)]
pub struct Token<T> {
    // Type of the token. `kind` is used as `type` is a reserved word in Rust
    pub kind: TokenType,
    // For example, in the statement int x = 10;, there would be four lexemes: `"int"`, `"x"`, `"="`, and `"10"`.
    pub lexeme: String,
    // For many tokens, this would be None, but for literals this holds its value
    pub literal: Option<Literal<T>>,
    // Line of the token's first character
    pub line: usize,
}

impl<T: View> View for Token<T> {
    type V = TokenModel<T::V>;

    open spec fn view(&self) -> TokenModel<T::V> {
        TokenModel {
            kind: self.kind,
            lexeme: self.lexeme@,
            literal: match self.literal {
                Some(l) => Some(l@),
                None => None,
            },
            line: self.line as nat,
        }
    }
}

impl<T> Token<T> {
    /// The invariant that every finished token satisfies.
    pub open spec fn wf(&self) -> bool {
        well_formed_parts(self.kind, self.literal, self.line)
    }
}

/// Assembles a token from fields computed independently, in any order.
#[derive(Debug)]
pub struct TokenBuilder<T> {
    pub kind: TokenType,
    pub lexeme: String,
    pub literal: Option<Literal<T>>,
    pub line: usize,
}

impl<T> TokenBuilder<T> {
    /// A builder in its sentinel state: category `Eof`, empty lexeme, no
    /// literal, line 0. It must not be finalized before its line is set.
    pub fn new() -> (r: TokenBuilder<T>)
        ensures
            r.kind == TokenType::Eof,
            r.lexeme@ == Seq::<char>::empty(),
            r.literal.is_none(),
            r.line == 0,
    {
        TokenBuilder { kind: TokenType::Eof, lexeme: String::new(), literal: None, line: 0 }
    }

    pub fn kind(self, kind: TokenType) -> (r: Self)
        ensures
            r.kind == kind,
            r.lexeme == self.lexeme,
            r.literal == self.literal,
            r.line == self.line,
    {
        let mut b = self;
        b.kind = kind;
        b
    }

    pub fn lexeme(self, lexeme: String) -> (r: Self)
        ensures
            r.kind == self.kind,
            r.lexeme == lexeme,
            r.literal == self.literal,
            r.line == self.line,
    {
        let mut b = self;
        b.lexeme = lexeme;
        b
    }

    pub fn literal(self, literal: Option<Literal<T>>) -> (r: Self)
        ensures
            r.kind == self.kind,
            r.lexeme == self.lexeme,
            r.literal == literal,
            r.line == self.line,
    {
        let mut b = self;
        b.literal = literal;
        b
    }

    pub fn line(self, line: usize) -> (r: Self)
        ensures
            r.kind == self.kind,
            r.lexeme == self.lexeme,
            r.literal == self.literal,
            r.line == line,
    {
        let mut b = self;
        b.line = line;
        b
    }

    /// Finalizes the token. The literal must be present exactly for `String`
    /// and `Number` tokens, and the line must have been set.
    pub fn build(self) -> (r: Token<T>)
        requires
            well_formed_parts(self.kind, self.literal, self.line),
        ensures
            r.kind == self.kind,
            r.lexeme == self.lexeme,
            r.literal == self.literal,
            r.line == self.line,
            r.wf(),
    {
        Token { kind: self.kind, lexeme: self.lexeme, literal: self.literal, line: self.line }
    }
}

// ---------------------------------------------------------------------------
// Rendering for diagnostics

/// The name of a token category, as written in its declaration.
pub open spec fn kind_name(kind: TokenType) -> Seq<char> {
    match kind {
        TokenType::LeftParen => "LeftParen"@,
        TokenType::RightParen => "RightParen"@,
        TokenType::LeftBrace => "LeftBrace"@,
        TokenType::RightBrace => "RightBrace"@,
        TokenType::Comma => "Comma"@,
        TokenType::Dot => "Dot"@,
        TokenType::Minus => "Minus"@,
        TokenType::Plus => "Plus"@,
        TokenType::SemiColon => "SemiColon"@,
        TokenType::Slash => "Slash"@,
        TokenType::Eof => "Eof"@,
        TokenType::Start => "Start"@,
        TokenType::Star => "Star"@,
        TokenType::Bang => "Bang"@,
        TokenType::BangEqual => "BangEqual"@,
        TokenType::Equal => "Equal"@,
        TokenType::EqualEqual => "EqualEqual"@,
        TokenType::Greater => "Greater"@,
        TokenType::GreaterEqual => "GreaterEqual"@,
        TokenType::Less => "Less"@,
        TokenType::LessEqual => "LessEqual"@,
        TokenType::Identifier => "Identifier"@,
        TokenType::String => "String"@,
        TokenType::Number => "Number"@,
        TokenType::And => "And"@,
        TokenType::Class => "Class"@,
        TokenType::Else => "Else"@,
        TokenType::False => "False"@,
        TokenType::Fun => "Fun"@,
        TokenType::For => "For"@,
        TokenType::If => "If"@,
        TokenType::Nil => "Nil"@,
        TokenType::Or => "Or"@,
        TokenType::Print => "Print"@,
        TokenType::Return => "Return"@,
        TokenType::Super => "Super"@,
        TokenType::This => "This"@,
        TokenType::True => "True"@,
        TokenType::Var => "Var"@,
        TokenType::While => "While"@,
    }
}

impl TokenType {
    /// The name of this category, as written in its declaration.
    pub fn name(&self) -> (r: &'static str)
        ensures
            r@ == kind_name(*self),
    {
        match self {
            TokenType::LeftParen => "LeftParen",
            TokenType::RightParen => "RightParen",
            TokenType::LeftBrace => "LeftBrace",
            TokenType::RightBrace => "RightBrace",
            TokenType::Comma => "Comma",
            TokenType::Dot => "Dot",
            TokenType::Minus => "Minus",
            TokenType::Plus => "Plus",
            TokenType::SemiColon => "SemiColon",
            TokenType::Slash => "Slash",
            TokenType::Eof => "Eof",
            TokenType::Start => "Start",
            TokenType::Star => "Star",
            TokenType::Bang => "Bang",
            TokenType::BangEqual => "BangEqual",
            TokenType::Equal => "Equal",
            TokenType::EqualEqual => "EqualEqual",
            TokenType::Greater => "Greater",
            TokenType::GreaterEqual => "GreaterEqual",
            TokenType::Less => "Less",
            TokenType::LessEqual => "LessEqual",
            TokenType::Identifier => "Identifier",
            TokenType::String => "String",
            TokenType::Number => "Number",
            TokenType::And => "And",
            TokenType::Class => "Class",
            TokenType::Else => "Else",
            TokenType::False => "False",
            TokenType::Fun => "Fun",
            TokenType::For => "For",
            TokenType::If => "If",
            TokenType::Nil => "Nil",
            TokenType::Or => "Or",
            TokenType::Print => "Print",
            TokenType::Return => "Return",
            TokenType::Super => "Super",
            TokenType::This => "This",
            TokenType::True => "True",
            TokenType::Var => "Var",
            TokenType::While => "While",
        }
    }
}

/// An integer in decimal, with a leading `-` when negative.
pub open spec fn int_text(i: int) -> Seq<char> {
    if i < 0 {
        seq!['-'] + decimal_digits((-i) as nat)
    } else {
        decimal_digits(i as nat)
    }
}

/// The digits of a decimal's mantissa, with leading zeros added so that at
/// least one digit stands before the point.
pub open spec fn padded_digits(d: Decimal) -> Seq<char> {
    let ds = decimal_digits(d.mantissa as nat);
    if ds.len() <= d.scale {
        zeros((d.scale + 1 - ds.len()) as nat) + ds
    } else {
        ds
    }
}

/// A decimal in positional notation: `1.5`, `0.05`, `2500000000`.
pub open spec fn decimal_text(d: Decimal) -> Seq<char> {
    let p = padded_digits(d);
    if d.scale == 0 {
        p
    } else {
        p.take(p.len() - d.scale) + seq!['.'] + p.skip(p.len() - d.scale)
    }
}

/// A literal value as `Debug` writes it. A decimal is written in positional
/// notation, with `.0` added when it has no fractional digits, as for a float.
pub open spec fn value_debug(v: LiteralValue) -> Seq<char> {
    match v {
        LiteralValue::Text(s) => "String("@ + debug_str(s) + ")"@,
        LiteralValue::Int(i) => "Int("@ + int_text(i) + ")"@,
        LiteralValue::Float(d) => "Float("@ + decimal_text(d) + (if d.scale == 0 {
            ".0"@
        } else {
            Seq::empty()
        }) + ")"@,
    }
}

/// A token's optional literal as `Debug` writes it: `None`, or
/// `Some(Literal { kind: .. })`.
pub open spec fn literal_debug(literal: Option<LiteralValue>) -> Seq<char> {
    match literal {
        None => "None"@,
        Some(v) => "Some(Literal { kind: "@ + value_debug(v) + " })"@,
    }
}

/// The diagnostic rendering of a token: its category, its lexeme in quotes
/// and its literal, each as `Debug` writes it, separated by single spaces.
pub open spec fn rendering(t: TokenModel<LiteralValue>) -> Seq<char> {
    kind_name(t.kind) + " "@ + debug_str(t.lexeme) + " "@ + literal_debug(t.literal)
}

fn int_chars(i: i32) -> (r: Vec<char>)
    ensures
        r@ == int_text(i as int),
{
    let mut out: Vec<char> = Vec::new();
    if i < 0 {
        out.push('-');
        push_decimal(&mut out, (0i64 - i as i64) as u64);
    } else {
        push_decimal(&mut out, i as u64);
    }
    out
}

fn decimal_chars(d: Decimal) -> (r: Vec<char>)
    ensures
        r@ == decimal_text(d),
{
    let mut ds: Vec<char> = Vec::new();
    push_decimal(&mut ds, d.mantissa);
    assert(ds@ =~= decimal_digits(d.mantissa as nat));
    let mut p: Vec<char> = Vec::new();
    if ds.len() <= d.scale {
        let pad = d.scale - ds.len() + 1;
        while p.len() < pad
            invariant
                p.len() <= pad,
                p@ == zeros(p.len() as nat),
            decreases pad - p.len(),
        {
            p.push('0');
            assert(p@ =~= zeros(p.len() as nat));
        }
    }
    let mut i: usize = 0;
    let ghost base = p@;
    while i < ds.len()
        invariant
            i <= ds.len(),
            p@ == base + ds@.take(i as int),
        decreases ds.len() - i,
    {
        p.push(ds[i]);
        assert(ds@.take(i + 1 as int) =~= ds@.take(i as int).push(ds@[i as int]));
        i = i + 1;
    }
    assert(ds@.take(ds.len() as int) =~= ds@);
    assert(p@ =~= padded_digits(d));
    if d.scale == 0 {
        p
    } else {
        let k = p.len() - d.scale;
        let mut out: Vec<char> = Vec::new();
        let mut j: usize = 0;
        while j < p.len()
            invariant
                k == p.len() - d.scale,
                k <= p.len(),
                j <= p.len(),
                out@ == if j <= k {
                    p@.take(j as int)
                } else {
                    p@.take(k as int) + seq!['.'] + p@.subrange(k as int, j as int)
                },
            decreases p.len() - j,
        {
            if j == k {
                out.push('.');
                assert(p@.take(k as int) + seq!['.'] =~= p@.take(k as int).push('.'));
            }
            out.push(p[j]);
            if j < k {
                assert(p@.take(j + 1 as int) =~= p@.take(j as int).push(p@[j as int]));
            } else {
                assert(p@.subrange(k as int, j + 1 as int) =~= p@.subrange(k as int, j as int).push(
                    p@[j as int],
                ));
                assert(p@.take(k as int) + seq!['.'] + p@.subrange(k as int, j + 1 as int) =~= (
                p@.take(k as int) + seq!['.'] + p@.subrange(k as int, j as int)).push(p@[j as int]));
            }
            j = j + 1;
        }
        assert(p@.subrange(k as int, p.len() as int) =~= p@.skip(k as int));
        out
    }
}

impl Token<LiteralType> {
    /// A one-line description of the token for diagnostics: its category, its
    /// lexeme in quotes and its literal (`None` when absent), separated by
    /// spaces, as in `Number "1.5" Some(Literal { kind: Float(1.5) })`.
    pub fn render(&self) -> (r: String)
        ensures
            r@ == rendering(self@),
    {
        let mut out = String::new();
        out.append(self.kind.name());
        out.append(" ");
        push_debug_str(&mut out, self.lexeme.as_str());
        out.append(" ");
        let ghost head = out@;
        match &self.literal {
            None => {
                out.append("None");
            },
            Some(l) => {
                out.append("Some(Literal { kind: ");
                let ghost before = out@;
                match &l.kind {
                    LiteralType::String(s) => {
                        out.append("String(");
                        push_debug_str(&mut out, s.as_str());
                    },
                    LiteralType::Int(i) => {
                        out.append("Int(");
                        let cs = int_chars(*i);
                        push_range(&mut out, &cs, 0, cs.len());
                        assert(cs@.subrange(0, cs.len() as int) =~= cs@);
                    },
                    LiteralType::Float(d) => {
                        out.append("Float(");
                        let cs = decimal_chars(*d);
                        push_range(&mut out, &cs, 0, cs.len());
                        assert(cs@.subrange(0, cs.len() as int) =~= cs@);
                        if d.scale == 0 {
                            out.append(".0");
                        } else {
                            assert(out@ =~= out@ + Seq::<char>::empty());
                        }
                    },
                }
                out.append(")");
                assert(out@ =~= before + value_debug(l.kind@));
                out.append(" })");
            },
        }
        assert(out@ =~= head + literal_debug(self@.literal));
        out
    }
}

} // verus!
