use vstd::prelude::*;
use crate::text::{push_char, source_chars};
use crate::token::{carries_literal, Decimal, Literal, LiteralType, LiteralValue, Token, TokenBuilder, TokenModel, TokenType};

verus! {

/// The kinds of lexical error that a scan reports.
#[derive(Clone, Copy, Debug, PartialEq, Eq, Structural)]
pub enum LexicalErrorKind {
    /// A `"` with no closing `"` before the end of the source.
    UnterminatedString,
    /// A character that starts no token.
    UnexpectedCharacter,
    /// A numeral whose digits, read as one integer, exceed `u64::MAX`.
    MalformedNumber,
}

/// One lexical error: where it was found, what it is, and a description.
#[derive(Debug, PartialEq)]
pub struct LexicalError {
    pub line: usize,
    pub message: String,
    pub kind: LexicalErrorKind,
}

/// The mathematical model of a [`LexicalError`].
pub struct ErrorModel {
    pub line: nat,
    pub message: Seq<char>,
    pub kind: LexicalErrorKind,
}

impl View for LexicalError {
    type V = ErrorModel;

    open spec fn view(&self) -> ErrorModel {
        ErrorModel { line: self.line as nat, message: self.message@, kind: self.kind }
    }
}

/// The complete outcome of one scan: the tokens in source order, ending in
/// `Eof`, and every lexical error in source order.
#[derive(Debug, PartialEq)]
pub struct ScanResult {
    pub tokens: Vec<Token<LiteralType>>,
    pub errors: Vec<LexicalError>,
}

/// The mathematical model of a [`ScanResult`].
pub struct ScanModel {
    pub tokens: Seq<TokenModel<LiteralValue>>,
    pub errors: Seq<ErrorModel>,
}

pub open spec fn token_models(v: Seq<Token<LiteralType>>) -> Seq<TokenModel<LiteralValue>> {
    v.map_values(|t: Token<LiteralType>| t@)
}

pub open spec fn error_models(v: Seq<LexicalError>) -> Seq<ErrorModel> {
    v.map_values(|e: LexicalError| e@)
}

impl View for ScanResult {
    type V = ScanModel;

    open spec fn view(&self) -> ScanModel {
        ScanModel { tokens: token_models(self.tokens@), errors: error_models(self.errors@) }
    }
}

// ---------------------------------------------------------------------------
// Character classes

pub open spec fn is_digit(c: char) -> bool {
    '0' <= c && c <= '9'
}

pub open spec fn is_ident_start(c: char) -> bool {
    ('a' <= c && c <= 'z') || ('A' <= c && c <= 'Z') || c == '_'
}

/// The runs of characters that the scanner consumes greedily.
#[derive(Clone, Copy, Debug, PartialEq, Eq, Structural)]
pub enum Run {
    /// ASCII digits.
    Digits,
    /// ASCII letters, digits and underscores.
    IdentChars,
    /// Anything but `"`: the body of a string literal.
    StringBody,
    /// Anything but a newline: the body of a comment.
    CommentBody,
}

pub open spec fn in_run(run: Run, c: char) -> bool {
    match run {
        Run::Digits => is_digit(c),
        Run::IdentChars => is_ident_start(c) || is_digit(c),
        Run::StringBody => c != '"',
        Run::CommentBody => c != '\n',
    }
}

/// The length of the longest run of `run` characters starting at `i`.
pub open spec fn run_len(src: Seq<char>, i: nat, run: Run) -> nat
    decreases src.len() - i,
{
    if i < src.len() && in_run(run, src[i as int]) {
        1 + run_len(src, i + 1, run)
    } else {
        0
    }
}

/// The number of newline characters in `s`.
pub open spec fn newlines(s: Seq<char>) -> nat
    decreases s.len(),
{
    if s.len() == 0 {
        0
    } else {
        newlines(s.drop_last()) + if s.last() == '\n' { 1nat } else { 0nat }
    }
}

/// The value of a decimal digit.
pub open spec fn digit_value(c: char) -> nat {
    (c as u32 - '0' as u32) as nat
}

/// The integer spelled by the digits of a numeral, any `.` skipped.
pub open spec fn numeral_value(s: Seq<char>) -> nat
    decreases s.len(),
{
    if s.len() == 0 {
        0
    } else if s.last() == '.' {
        numeral_value(s.drop_last())
    } else {
        10 * numeral_value(s.drop_last()) + digit_value(s.last())
    }
}

// ---------------------------------------------------------------------------
// Tokens and errors

pub open spec fn single_char_kind(c: char) -> Option<TokenType> {
    if c == '(' {
        Some(TokenType::LeftParen)
    } else if c == ')' {
        Some(TokenType::RightParen)
    } else if c == '{' {
        Some(TokenType::LeftBrace)
    } else if c == '}' {
        Some(TokenType::RightBrace)
    } else if c == ',' {
        Some(TokenType::Comma)
    } else if c == '.' {
        Some(TokenType::Dot)
    } else if c == '-' {
        Some(TokenType::Minus)
    } else if c == '+' {
        Some(TokenType::Plus)
    } else if c == ';' {
        Some(TokenType::SemiColon)
    } else if c == '*' {
        Some(TokenType::Star)
    } else {
        None
    }
}

/// For `!`, `=`, `<` and `>`: the one-character category and the category of
/// the same character followed by `=`.
pub open spec fn operator_kinds(c: char) -> Option<(TokenType, TokenType)> {
    if c == '!' {
        Some((TokenType::Bang, TokenType::BangEqual))
    } else if c == '=' {
        Some((TokenType::Equal, TokenType::EqualEqual))
    } else if c == '<' {
        Some((TokenType::Less, TokenType::LessEqual))
    } else if c == '>' {
        Some((TokenType::Greater, TokenType::GreaterEqual))
    } else {
        None
    }
}

/// The reserved word spelled by `s`, compared case-sensitively.
pub open spec fn keyword_kind(s: Seq<char>) -> Option<TokenType> {
    if s == "and"@ {
        Some(TokenType::And)
    } else if s == "class"@ {
        Some(TokenType::Class)
    } else if s == "else"@ {
        Some(TokenType::Else)
    } else if s == "false"@ {
        Some(TokenType::False)
    } else if s == "fun"@ {
        Some(TokenType::Fun)
    } else if s == "for"@ {
        Some(TokenType::For)
    } else if s == "if"@ {
        Some(TokenType::If)
    } else if s == "nil"@ {
        Some(TokenType::Nil)
    } else if s == "or"@ {
        Some(TokenType::Or)
    } else if s == "print"@ {
        Some(TokenType::Print)
    } else if s == "return"@ {
        Some(TokenType::Return)
    } else if s == "super"@ {
        Some(TokenType::Super)
    } else if s == "this"@ {
        Some(TokenType::This)
    } else if s == "true"@ {
        Some(TokenType::True)
    } else if s == "var"@ {
        Some(TokenType::Var)
    } else if s == "while"@ {
        Some(TokenType::While)
    } else {
        None
    }
}

pub open spec fn error_message(kind: LexicalErrorKind) -> Seq<char> {
    match kind {
        LexicalErrorKind::UnterminatedString => "Unterminated string."@,
        LexicalErrorKind::UnexpectedCharacter => "Unexpected character."@,
        LexicalErrorKind::MalformedNumber => "Number too large."@,
    }
}

pub open spec fn error_at(kind: LexicalErrorKind, line: nat) -> ErrorModel {
    ErrorModel { line, message: error_message(kind), kind }
}

pub open spec fn token_at(
    kind: TokenType,
    lexeme: Seq<char>,
    literal: Option<LiteralValue>,
    line: nat,
) -> TokenModel<LiteralValue> {
    TokenModel { kind, lexeme, literal, line }
}

/// The end-of-stream token on `line`.
pub open spec fn eof_at(line: nat) -> TokenModel<LiteralValue> {
    token_at(TokenType::Eof, Seq::empty(), None, line)
}

/// The value of a numeral: an integer when it has no decimal point and fits
/// in an `i32`, else a decimal when its digits fit in a `u64`, else none.
pub open spec fn number_literal(lexeme: Seq<char>, frac_digits: nat) -> Option<LiteralValue> {
    let v = numeral_value(lexeme);
    if frac_digits == 0 && v <= i32::MAX {
        Some(LiteralValue::Int(v as int))
    } else if v <= u64::MAX {
        Some(LiteralValue::Float(Decimal { mantissa: v as u64, scale: frac_digits as usize }))
    } else {
        None
    }
}

// ---------------------------------------------------------------------------
// One step of the scan

/// What the scanner does with the lexeme that starts at one position: where
/// the next lexeme starts, the line there, and the token or error (if any)
/// that this one produced.
pub struct Step {
    pub next: nat,
    pub line: nat,
    pub token: Option<TokenModel<LiteralValue>>,
    pub error: Option<ErrorModel>,
}

pub open spec fn skip_to(next: nat, line: nat) -> Step {
    Step { next, line, token: None, error: None }
}

pub open spec fn emit(next: nat, line: nat, token: TokenModel<LiteralValue>) -> Step {
    Step { next, line, token: Some(token), error: None }
}

pub open spec fn fail(next: nat, line: nat, error: ErrorModel) -> Step {
    Step { next, line, token: None, error: Some(error) }
}

pub open spec fn string_step(src: Seq<char>, pos: nat, line: nat) -> Step {
    let close = pos + 1 + run_len(src, pos + 1, Run::StringBody);
    let body = src.subrange(pos + 1 as int, close as int);
    let end_line = line + newlines(body);
    if close < src.len() {
        emit(
            close + 1,
            end_line,
            token_at(
                TokenType::String,
                src.subrange(pos as int, close + 1 as int),
                Some(LiteralValue::Text(body)),
                line,
            ),
        )
    } else {
        fail(close, end_line, error_at(LexicalErrorKind::UnterminatedString, line))
    }
}

pub open spec fn number_step(src: Seq<char>, pos: nat, line: nat) -> Step {
    let int_end = pos + 1 + run_len(src, pos + 1, Run::Digits);
    let has_frac = int_end + 1 < src.len() && src[int_end as int] == '.' && is_digit(
        src[int_end + 1 as int],
    );
    let frac_digits: nat = if has_frac {
        1 + run_len(src, int_end + 2, Run::Digits)
    } else {
        0
    };
    let end: nat = if has_frac {
        int_end + 1 + frac_digits
    } else {
        int_end
    };
    let lexeme = src.subrange(pos as int, end as int);
    match number_literal(lexeme, frac_digits) {
        Some(v) => emit(end, line, token_at(TokenType::Number, lexeme, Some(v), line)),
        None => fail(end, line, error_at(LexicalErrorKind::MalformedNumber, line)),
    }
}

pub open spec fn identifier_step(src: Seq<char>, pos: nat, line: nat) -> Step {
    let end = pos + 1 + run_len(src, pos + 1, Run::IdentChars);
    let lexeme = src.subrange(pos as int, end as int);
    let kind = match keyword_kind(lexeme) {
        Some(k) => k,
        None => TokenType::Identifier,
    };
    emit(end, line, token_at(kind, lexeme, None, line))
}

/// The scanner's step on the lexeme that starts at `pos` (which is inside
/// `src`), with `line` the line of `pos`.
pub open spec fn step_at(src: Seq<char>, pos: nat, line: nat) -> Step {
    let c = src[pos as int];
    let follows_eq = pos + 1 < src.len() && src[pos + 1 as int] == '=';
    if c == ' ' || c == '\t' || c == '\r' {
        skip_to(pos + 1, line)
    } else if c == '\n' {
        skip_to(pos + 1, line + 1)
    } else if single_char_kind(c).is_some() {
        emit(pos + 1, line, token_at(single_char_kind(c).unwrap(), seq![c], None, line))
    } else if operator_kinds(c).is_some() {
        let (one, two) = operator_kinds(c).unwrap();
        if follows_eq {
            emit(pos + 2, line, token_at(two, seq![c, '='], None, line))
        } else {
            emit(pos + 1, line, token_at(one, seq![c], None, line))
        }
    } else if c == '/' {
        if pos + 1 < src.len() && src[pos + 1 as int] == '/' {
            skip_to(pos + 2 + run_len(src, pos + 2, Run::CommentBody), line)
        } else {
            emit(pos + 1, line, token_at(TokenType::Slash, seq![c], None, line))
        }
    } else if c == '"' {
        string_step(src, pos, line)
    } else if is_digit(c) {
        number_step(src, pos, line)
    } else if is_ident_start(c) {
        identifier_step(src, pos, line)
    } else {
        fail(pos + 1, line, error_at(LexicalErrorKind::UnexpectedCharacter, line))
    }
}

pub open spec fn opt_seq<A>(o: Option<A>) -> Seq<A> {
    match o {
        Some(a) => seq![a],
        None => Seq::empty(),
    }
}

/// A run never extends past the end of the source.
pub proof fn lemma_run_len_bound(src: Seq<char>, i: nat, run: Run)
    requires
        i <= src.len(),
    ensures
        i + run_len(src, i, run) <= src.len(),
    decreases src.len() - i,
{
    if i < src.len() && in_run(run, src[i as int]) {
        lemma_run_len_bound(src, i + 1, run);
    }
}

/// Every step moves forward and stays within the source.
pub proof fn lemma_step_advances(src: Seq<char>, pos: nat, line: nat)
    requires
        pos < src.len(),
    ensures
        pos < step_at(src, pos, line).next <= src.len(),
{
    lemma_run_len_bound(src, pos + 1, Run::StringBody);
    lemma_run_len_bound(src, pos + 1, Run::Digits);
    lemma_run_len_bound(src, pos + 1, Run::IdentChars);
    if pos + 2 <= src.len() {
        lemma_run_len_bound(src, pos + 2, Run::CommentBody);
    }
    let int_end = pos + 1 + run_len(src, pos + 1, Run::Digits);
    if int_end + 2 <= src.len() {
        lemma_run_len_bound(src, int_end + 2, Run::Digits);
    }
}

/// Every character of a run is in the run's class.
pub proof fn lemma_run_chars(src: Seq<char>, i: nat, run: Run)
    ensures
        forall|k: int| i <= k < i + run_len(src, i, run) ==> in_run(run, #[trigger] src[k]),
    decreases src.len() - i,
{
    if i < src.len() && in_run(run, src[i as int]) {
        lemma_run_chars(src, i + 1, run);
    }
}

/// A run stops at the end of the source or at a character outside its class.
pub proof fn lemma_run_stop(src: Seq<char>, i: nat, run: Run)
    requires
        i + run_len(src, i, run) < src.len(),
    ensures
        !in_run(run, src[i + run_len(src, i, run) as int]),
    decreases src.len() - i,
{
    if i < src.len() && in_run(run, src[i as int]) {
        lemma_run_stop(src, i + 1, run);
    }
}

/// Reading more characters of a numeral never lowers its value.
pub proof fn lemma_numeral_value_grows(s: Seq<char>, from: int, i: int, j: int)
    requires
        0 <= from <= i <= j <= s.len(),
    ensures
        numeral_value(s.subrange(from, i)) <= numeral_value(s.subrange(from, j)),
    decreases j - i,
{
    if i < j {
        lemma_numeral_value_grows(s, from, i, j - 1);
        assert(s.subrange(from, j).drop_last() =~= s.subrange(from, j - 1));
    }
}

/// The scan of `src` from position `pos`, at line `line`.
pub open spec fn scan_from(src: Seq<char>, pos: nat, line: nat) -> ScanModel
    decreases src.len() - pos,
{
    if pos >= src.len() {
        ScanModel { tokens: seq![eof_at(line)], errors: Seq::empty() }
    } else {
        let step = step_at(src, pos, line);
        if step.next <= pos || step.next > src.len() {
            // Never taken (see `lemma_step_advances`); the test lets termination be checked.
            ScanModel { tokens: Seq::empty(), errors: Seq::empty() }
        } else {
            let rest = scan_from(src, step.next, step.line);
            ScanModel {
                tokens: opt_seq(step.token) + rest.tokens,
                errors: opt_seq(step.error) + rest.errors,
            }
        }
    }
}

/// The scan of a whole source text.
pub open spec fn scan_spec(src: Seq<char>) -> ScanModel {
    scan_from(src, 0, 1)
}

/// No step produces an end-of-stream token or a `Start` marker.
pub proof fn lemma_step_token_not_eof(src: Seq<char>, pos: nat, line: nat)
    requires
        pos < src.len(),
    ensures
        step_at(src, pos, line).token matches Some(t) ==> t.kind != TokenType::Eof && t.kind
            != TokenType::Start,
{
}

/// The tokens of a scan from any position end in the one `Eof` token.
pub proof fn lemma_scan_from_ends_in_eof(src: Seq<char>, pos: nat, line: nat)
    ensures
        ({
            let toks = scan_from(src, pos, line).tokens;
            &&& toks.len() >= 1
            &&& toks.last().kind == TokenType::Eof
            &&& toks.last().lexeme == Seq::<char>::empty()
            &&& toks.last().literal.is_none()
            &&& forall|i: int| 0 <= i < toks.len() - 1 ==> (#[trigger] toks[i]).kind != TokenType::Eof
            &&& forall|i: int| 0 <= i < toks.len() ==> (#[trigger] toks[i]).kind != TokenType::Start
        }),
    decreases src.len() - pos,
{
    if pos < src.len() {
        let step = step_at(src, pos, line);
        lemma_step_advances(src, pos, line);
        lemma_step_token_not_eof(src, pos, line);
        lemma_scan_from_ends_in_eof(src, step.next, step.line);
        let rest = scan_from(src, step.next, step.line).tokens;
        let toks = scan_from(src, pos, line).tokens;
        assert(toks == opt_seq(step.token) + rest);
        assert forall|i: int| 0 <= i < toks.len() implies (i < toks.len() - 1 ==> (
        #[trigger] toks[i]).kind != TokenType::Eof) && toks[i].kind != TokenType::Start by {
            if step.token is Some && i == 0 {
            } else if step.token is Some {
                assert(toks[i] == rest[i - 1]);
            } else {
                assert(toks[i] == rest[i]);
            }
        }
    }
}

/// For every source text, the last token of its scan is an `Eof` token with
/// an empty lexeme and no literal, no other token of the scan is `Eof`, and
/// no token is the scanner-internal `Start` marker.
pub proof fn lemma_scan_ends_in_eof(src: Seq<char>)
    ensures
        ({
            let toks = scan_spec(src).tokens;
            &&& toks.len() >= 1
            &&& toks.last().kind == TokenType::Eof
            &&& toks.last().lexeme == Seq::<char>::empty()
            &&& toks.last().literal.is_none()
            &&& forall|i: int| 0 <= i < toks.len() - 1 ==> (#[trigger] toks[i]).kind != TokenType::Eof
            &&& forall|i: int| 0 <= i < toks.len() ==> (#[trigger] toks[i]).kind != TokenType::Start
        }),
{
    lemma_scan_from_ends_in_eof(src, 0, 1);
}

/// Newlines add up over concatenation.
pub proof fn lemma_newlines_concat(a: Seq<char>, b: Seq<char>)
    ensures
        newlines(a + b) == newlines(a) + newlines(b),
    decreases b.len(),
{
    if b.len() > 0 {
        lemma_newlines_concat(a, b.drop_last());
        assert((a + b).drop_last() =~= a + b.drop_last());
    }
}

/// A text without newline characters has no newlines.
pub proof fn lemma_newlines_none(s: Seq<char>)
    requires
        forall|k: int| 0 <= k < s.len() ==> s[k] != '\n',
    ensures
        newlines(s) == 0,
    decreases s.len(),
{
    if s.len() > 0 {
        lemma_newlines_none(s.drop_last());
    }
}

/// The line after a step is the line before it plus the newlines of the
/// characters that the step consumed.
pub proof fn lemma_step_lines(src: Seq<char>, pos: nat, line: nat)
    requires
        pos < src.len(),
    ensures
        step_at(src, pos, line).line == line + newlines(
            src.subrange(pos as int, step_at(src, pos, line).next as int),
        ),
{
    let step = step_at(src, pos, line);
    let c = src[pos as int];
    lemma_step_advances(src, pos, line);
    let consumed = src.subrange(pos as int, step.next as int);
    if c == '"' {
        let close = pos + 1 + run_len(src, pos + 1, Run::StringBody);
        let body = src.subrange(pos + 1 as int, close as int);
        assert(newlines(seq![c]) == 0) by {
            lemma_newlines_none(seq![c]);
        }
        if close < src.len() {
            assert(newlines(seq![src[close as int]]) == 0) by {
                lemma_run_stop(src, pos + 1, Run::StringBody);
                lemma_newlines_none(seq![src[close as int]]);
            }
            assert(consumed =~= seq![c] + body + seq![src[close as int]]);
            lemma_newlines_concat(seq![c], body);
            lemma_newlines_concat(seq![c] + body, seq![src[close as int]]);
        } else {
            assert(consumed =~= seq![c] + body);
            lemma_newlines_concat(seq![c], body);
        }
    } else if c == '\n' {
        assert(consumed =~= seq![c]);
        assert(consumed.drop_last() =~= Seq::<char>::empty());
        assert(newlines(consumed.drop_last()) == 0);
    } else {
        lemma_run_chars(src, pos + 1, Run::Digits);
        lemma_run_chars(src, pos + 1, Run::IdentChars);
        lemma_run_chars(src, pos + 2, Run::CommentBody);
        let int_end = pos + 1 + run_len(src, pos + 1, Run::Digits);
        lemma_run_chars(src, int_end + 2, Run::Digits);
        assert forall|k: int| 0 <= k < consumed.len() implies consumed[k] != '\n' by {
            assert(consumed[k] == src[pos + k]);
        }
        lemma_newlines_none(consumed);
    }
}

/// A scan from `pos` at `line` ends in an `Eof` token on `line` plus the
/// newlines of the rest of the source, and every token lies between those
/// two lines.
pub proof fn lemma_scan_from_lines(src: Seq<char>, pos: nat, line: nat)
    requires
        pos <= src.len(),
    ensures
        ({
            let toks = scan_from(src, pos, line).tokens;
            let eof_line = line + newlines(src.subrange(pos as int, src.len() as int));
            &&& toks.last().line == eof_line
            &&& forall|i: int| 0 <= i < toks.len() ==> line <= (#[trigger] toks[i]).line <= eof_line
        }),
    decreases src.len() - pos,
{
    let toks = scan_from(src, pos, line).tokens;
    if pos < src.len() {
        let step = step_at(src, pos, line);
        lemma_step_advances(src, pos, line);
        lemma_step_lines(src, pos, line);
        lemma_scan_from_lines(src, step.next, step.line);
        lemma_scan_from_ends_in_eof(src, step.next, step.line);
        let rest = scan_from(src, step.next, step.line).tokens;
        assert(src.subrange(pos as int, src.len() as int) =~= src.subrange(
            pos as int,
            step.next as int,
        ) + src.subrange(step.next as int, src.len() as int));
        lemma_newlines_concat(
            src.subrange(pos as int, step.next as int),
            src.subrange(step.next as int, src.len() as int),
        );
        assert(toks == opt_seq(step.token) + rest);
        assert forall|i: int| 0 <= i < toks.len() implies line <= (#[trigger] toks[i]).line
            <= line + newlines(src.subrange(pos as int, src.len() as int)) by {
            if step.token is Some && i == 0 {
            } else if step.token is Some {
                assert(toks[i] == rest[i - 1]);
            } else {
                assert(toks[i] == rest[i]);
            }
        }
    } else {
        assert(src.subrange(pos as int, src.len() as int) =~= Seq::<char>::empty());
    }
}

/// The `Eof` token of a scan stands on line one plus the number of newline
/// characters in the source (newlines in strings and comments included), and
/// no token stands on a later line.
pub proof fn lemma_scan_lines(src: Seq<char>)
    ensures
        ({
            let toks = scan_spec(src).tokens;
            &&& toks.last().line == 1 + newlines(src)
            &&& forall|i: int| 0 <= i < toks.len() ==> 1 <= (#[trigger] toks[i]).line <= 1 + newlines(src)
        }),
{
    lemma_scan_from_lines(src, 0, 1);
    assert(src.subrange(0, src.len() as int) =~= src);
}

/// A scan depends on the source text alone: two scans of the same text give
/// equal results.
pub proof fn lemma_rescan_equal(src: Seq<char>, first: ScanResult, second: ScanResult)
    requires
        first@ == scan_spec(src),
        second@ == scan_spec(src),
    ensures
        first@ == second@,
{
}

// ---------------------------------------------------------------------------
// Executable helpers

/// The characters `chars[from..to]` as a `String`.
fn text_between(chars: &Vec<char>, from: usize, to: usize) -> (r: String)
    requires
        from <= to <= chars.len(),
    ensures
        r@ == chars@.subrange(from as int, to as int),
{
    let mut s = String::new();
    let mut i = from;
    while i < to
        invariant
            from <= i <= to <= chars.len(),
            s@ == chars@.subrange(from as int, i as int),
        decreases to - i,
    {
        push_char(&mut s, chars[i]);
        assert(s@ =~= chars@.subrange(from as int, i + 1 as int));
        i = i + 1;
    }
    s
}

fn in_run_exec(run: Run, c: char) -> (r: bool)
    ensures
        r == in_run(run, c),
{
    match run {
        Run::Digits => '0' <= c && c <= '9',
        Run::IdentChars => ('a' <= c && c <= 'z') || ('A' <= c && c <= 'Z') || c == '_' || (
        '0' <= c && c <= '9'),
        Run::StringBody => c != '"',
        Run::CommentBody => c != '\n',
    }
}

/// The position just past the run of `run` characters that starts at `i`.
fn run_end(chars: &Vec<char>, i: usize, run: Run) -> (r: usize)
    requires
        i <= chars.len(),
    ensures
        r == i + run_len(chars@, i as nat, run),
        r <= chars.len(),
{
    let mut j = i;
    while j < chars.len() && in_run_exec(run, chars[j])
        invariant
            i <= j <= chars.len(),
            run_len(chars@, i as nat, run) == (j - i) + run_len(chars@, j as nat, run),
        decreases chars.len() - j,
    {
        j = j + 1;
    }
    j
}

/// Whether `chars[from..to]` spells `word`.
fn spells(chars: &Vec<char>, from: usize, to: usize, word: &str) -> (r: bool)
    requires
        from <= to <= chars.len(),
    ensures
        r == (chars@.subrange(from as int, to as int) == word@),
{
    let n = word.unicode_len();
    if to - from != n {
        return false;
    }
    let mut i: usize = 0;
    while i < n
        invariant
            n == word@.len() == to - from,
            from <= to <= chars.len(),
            i <= n,
            forall|k: int| 0 <= k < i ==> chars@[from + k] == word@[k],
        decreases n - i,
    {
        if chars[from + i] != word.get_char(i) {
            assert(chars@.subrange(from as int, to as int)[i as int] != word@[i as int]);
            return false;
        }
        i = i + 1;
    }
    assert(chars@.subrange(from as int, to as int) =~= word@);
    true
}

/// The number of newlines in `chars[from..to]`.
fn count_newlines(chars: &Vec<char>, from: usize, to: usize) -> (r: usize)
    requires
        from <= to <= chars.len(),
    ensures
        r == newlines(chars@.subrange(from as int, to as int)),
        r <= to - from,
{
    let mut n: usize = 0;
    let mut i = from;
    while i < to
        invariant
            from <= i <= to <= chars.len(),
            n == newlines(chars@.subrange(from as int, i as int)),
            n <= i - from,
        decreases to - i,
    {
        assert(chars@.subrange(from as int, i + 1 as int).drop_last() =~= chars@.subrange(
            from as int,
            i as int,
        ));
        if chars[i] == '\n' {
            n = n + 1;
        }
        i = i + 1;
    }
    n
}

/// The integer spelled by the digits of `chars[from..to]` (a numeral, whose
/// characters are digits and `.`), or `None` when it exceeds `u64::MAX`.
fn numeral_u64(chars: &Vec<char>, from: usize, to: usize) -> (r: Option<u64>)
    requires
        from <= to <= chars.len(),
        forall|k: int| from <= k < to ==> is_digit(#[trigger] chars@[k]) || chars@[k] == '.',
    ensures
        match r {
            Some(v) => v == numeral_value(chars@.subrange(from as int, to as int)),
            None => numeral_value(chars@.subrange(from as int, to as int)) > u64::MAX,
        },
{
    let mut v: u64 = 0;
    let mut i = from;
    while i < to
        invariant
            from <= i <= to <= chars.len(),
            forall|k: int| from <= k < to ==> is_digit(#[trigger] chars@[k]) || chars@[k] == '.',
            v == numeral_value(chars@.subrange(from as int, i as int)),
        decreases to - i,
    {
        let c = chars[i];
        assert(chars@.subrange(from as int, i + 1 as int).drop_last() =~= chars@.subrange(
            from as int,
            i as int,
        ));
        if c != '.' {
            let d = (c as u32 - '0' as u32) as u64;
            match v.checked_mul(10) {
                Some(t) => match t.checked_add(d) {
                    Some(w) => {
                        v = w;
                    },
                    None => {
                        proof {
                            lemma_numeral_value_grows(chars@, from as int, i + 1, to as int);
                        }
                        return None;
                    },
                },
                None => {
                    proof {
                        lemma_numeral_value_grows(chars@, from as int, i + 1, to as int);
                    }
                    return None;
                },
            }
        }
        i = i + 1;
    }
    Some(v)
}

fn error_of(kind: LexicalErrorKind, line: usize) -> (r: LexicalError)
    ensures
        r@ == error_at(kind, line as nat),
{
    let message = match kind {
        LexicalErrorKind::UnterminatedString => String::from_str("Unterminated string."),
        LexicalErrorKind::UnexpectedCharacter => String::from_str("Unexpected character."),
        LexicalErrorKind::MalformedNumber => String::from_str("Number too large."),
    };
    LexicalError { line, message, kind }
}

/// A token without a literal, spelled by `chars[from..to]`.
fn plain_token(kind: TokenType, chars: &Vec<char>, from: usize, to: usize, line: usize) -> (r: Token<
    LiteralType,
>)
    requires
        from <= to <= chars.len(),
        !carries_literal(kind),
        line >= 1,
    ensures
        r@ == token_at(kind, chars@.subrange(from as int, to as int), None, line as nat),
        r.wf(),
{
    TokenBuilder::new().kind(kind).lexeme(text_between(chars, from, to)).line(line).build()
}

/// The outcome of scanning one lexeme.
struct Lexed {
    next: usize,
    line: usize,
    token: Option<Token<LiteralType>>,
    error: Option<LexicalError>,
}

impl Lexed {
    spec fn model(&self) -> Step {
        Step {
            next: self.next as nat,
            line: self.line as nat,
            token: match self.token {
                Some(t) => Some(t@),
                None => None,
            },
            error: match self.error {
                Some(e) => Some(e@),
                None => None,
            },
        }
    }

    spec fn tokens_wf(&self) -> bool {
        match self.token {
            Some(t) => t.wf(),
            None => true,
        }
    }
}

/// The conditions under which the scanner takes a step at `pos`.
spec fn can_step(chars: &Vec<char>, pos: usize, line: usize) -> bool {
    &&& pos < chars.len() < usize::MAX
    &&& 1 <= line <= pos + 1
}

fn scan_string(chars: &Vec<char>, pos: usize, line: usize) -> (r: Lexed)
    requires
        can_step(chars, pos, line),
        chars@[pos as int] == '"',
    ensures
        r.model() == string_step(chars@, pos as nat, line as nat),
        r.tokens_wf(),
        line <= r.line <= r.next + 1,
{
    let close = run_end(chars, pos + 1, Run::StringBody);
    let end_line = line + count_newlines(chars, pos + 1, close);
    if close < chars.len() {
        let body = text_between(chars, pos + 1, close);
        let token = TokenBuilder::new().kind(TokenType::String).lexeme(
            text_between(chars, pos, close + 1),
        ).literal(Some(Literal { kind: LiteralType::String(body) })).line(line).build();
        Lexed { next: close + 1, line: end_line, token: Some(token), error: None }
    } else {
        Lexed {
            next: close,
            line: end_line,
            token: None,
            error: Some(error_of(LexicalErrorKind::UnterminatedString, line)),
        }
    }
}

fn scan_number(chars: &Vec<char>, pos: usize, line: usize) -> (r: Lexed)
    requires
        can_step(chars, pos, line),
        is_digit(chars@[pos as int]),
    ensures
        r.model() == number_step(chars@, pos as nat, line as nat),
        r.tokens_wf(),
        line <= r.line <= r.next + 1,
{
    let int_end = run_end(chars, pos + 1, Run::Digits);
    let has_frac = int_end + 1 < chars.len() && chars[int_end] == '.' && '0' <= chars[int_end + 1]
        && chars[int_end + 1] <= '9';
    let end = if has_frac {
        run_end(chars, int_end + 2, Run::Digits)
    } else {
        int_end
    };
    let frac_digits: usize = if has_frac {
        end - int_end - 1
    } else {
        0
    };
    proof {
        lemma_run_chars(chars@, (pos + 1) as nat, Run::Digits);
        lemma_run_chars(chars@, (int_end + 2) as nat, Run::Digits);
    }
    match numeral_u64(chars, pos, end) {
        Some(v) => {
            let value = if frac_digits == 0 && v <= i32::MAX as u64 {
                LiteralType::Int(v as i32)
            } else {
                LiteralType::Float(Decimal { mantissa: v, scale: frac_digits })
            };
            let token = TokenBuilder::new().kind(TokenType::Number).lexeme(
                text_between(chars, pos, end),
            ).literal(Some(Literal { kind: value })).line(line).build();
            Lexed { next: end, line, token: Some(token), error: None }
        },
        None => Lexed {
            next: end,
            line,
            token: None,
            error: Some(error_of(LexicalErrorKind::MalformedNumber, line)),
        },
    }
}

/// The reserved word spelled by `chars[from..to]`, if any.
fn keyword(chars: &Vec<char>, from: usize, to: usize) -> (r: Option<TokenType>)
    requires
        from <= to <= chars.len(),
    ensures
        r == keyword_kind(chars@.subrange(from as int, to as int)),
{
    if spells(chars, from, to, "and") {
        Some(TokenType::And)
    } else if spells(chars, from, to, "class") {
        Some(TokenType::Class)
    } else if spells(chars, from, to, "else") {
        Some(TokenType::Else)
    } else if spells(chars, from, to, "false") {
        Some(TokenType::False)
    } else if spells(chars, from, to, "fun") {
        Some(TokenType::Fun)
    } else if spells(chars, from, to, "for") {
        Some(TokenType::For)
    } else if spells(chars, from, to, "if") {
        Some(TokenType::If)
    } else if spells(chars, from, to, "nil") {
        Some(TokenType::Nil)
    } else if spells(chars, from, to, "or") {
        Some(TokenType::Or)
    } else if spells(chars, from, to, "print") {
        Some(TokenType::Print)
    } else if spells(chars, from, to, "return") {
        Some(TokenType::Return)
    } else if spells(chars, from, to, "super") {
        Some(TokenType::Super)
    } else if spells(chars, from, to, "this") {
        Some(TokenType::This)
    } else if spells(chars, from, to, "true") {
        Some(TokenType::True)
    } else if spells(chars, from, to, "var") {
        Some(TokenType::Var)
    } else if spells(chars, from, to, "while") {
        Some(TokenType::While)
    } else {
        None
    }
}

fn scan_identifier(chars: &Vec<char>, pos: usize, line: usize) -> (r: Lexed)
    requires
        can_step(chars, pos, line),
    ensures
        r.model() == identifier_step(chars@, pos as nat, line as nat),
        r.tokens_wf(),
        line <= r.line <= r.next + 1,
{
    let end = run_end(chars, pos + 1, Run::IdentChars);
    let kind = match keyword(chars, pos, end) {
        Some(k) => k,
        None => TokenType::Identifier,
    };
    let token = plain_token(kind, chars, pos, end, line);
    Lexed { next: end, line, token: Some(token), error: None }
}

fn single_char_kind_exec(c: char) -> (r: Option<TokenType>)
    ensures
        r == single_char_kind(c),
{
    match c {
        '(' => Some(TokenType::LeftParen),
        ')' => Some(TokenType::RightParen),
        '{' => Some(TokenType::LeftBrace),
        '}' => Some(TokenType::RightBrace),
        ',' => Some(TokenType::Comma),
        '.' => Some(TokenType::Dot),
        '-' => Some(TokenType::Minus),
        '+' => Some(TokenType::Plus),
        ';' => Some(TokenType::SemiColon),
        '*' => Some(TokenType::Star),
        _ => None,
    }
}

fn operator_kinds_exec(c: char) -> (r: Option<(TokenType, TokenType)>)
    ensures
        r == operator_kinds(c),
{
    match c {
        '!' => Some((TokenType::Bang, TokenType::BangEqual)),
        '=' => Some((TokenType::Equal, TokenType::EqualEqual)),
        '<' => Some((TokenType::Less, TokenType::LessEqual)),
        '>' => Some((TokenType::Greater, TokenType::GreaterEqual)),
        _ => None,
    }
}

/// Scans the lexeme that starts at `pos`.
fn scan_lexeme(chars: &Vec<char>, pos: usize, line: usize) -> (r: Lexed)
    requires
        can_step(chars, pos, line),
    ensures
        r.model() == step_at(chars@, pos as nat, line as nat),
        r.tokens_wf(),
        line <= r.line <= r.next + 1,
{
    let c = chars[pos];
    let follows_eq = pos + 1 < chars.len() && chars[pos + 1] == '=';
    if c == ' ' || c == '\t' || c == '\r' {
        Lexed { next: pos + 1, line, token: None, error: None }
    } else if c == '\n' {
        Lexed { next: pos + 1, line: line + 1, token: None, error: None }
    } else if let Some(kind) = single_char_kind_exec(c) {
        let token = plain_token(kind, chars, pos, pos + 1, line);
        assert(chars@.subrange(pos as int, pos + 1) =~= seq![c]);
        Lexed { next: pos + 1, line, token: Some(token), error: None }
    } else if let Some((one, two)) = operator_kinds_exec(c) {
        if follows_eq {
            let token = plain_token(two, chars, pos, pos + 2, line);
            assert(chars@.subrange(pos as int, pos + 2) =~= seq![c, '=']);
            Lexed { next: pos + 2, line, token: Some(token), error: None }
        } else {
            let token = plain_token(one, chars, pos, pos + 1, line);
            assert(chars@.subrange(pos as int, pos + 1) =~= seq![c]);
            Lexed { next: pos + 1, line, token: Some(token), error: None }
        }
    } else if c == '/' {
        if pos + 1 < chars.len() && chars[pos + 1] == '/' {
            Lexed { next: run_end(chars, pos + 2, Run::CommentBody), line, token: None, error: None }
        } else {
            let token = plain_token(TokenType::Slash, chars, pos, pos + 1, line);
            assert(chars@.subrange(pos as int, pos + 1) =~= seq![c]);
            Lexed { next: pos + 1, line, token: Some(token), error: None }
        }
    } else if c == '"' {
        scan_string(chars, pos, line)
    } else if '0' <= c && c <= '9' {
        scan_number(chars, pos, line)
    } else if ('a' <= c && c <= 'z') || ('A' <= c && c <= 'Z') || c == '_' {
        scan_identifier(chars, pos, line)
    } else {
        Lexed {
            next: pos + 1,
            line,
            token: None,
            error: Some(error_of(LexicalErrorKind::UnexpectedCharacter, line)),
        }
    }
}

/// Scans a whole source text in one left-to-right pass.
///
/// Lexical errors do not stop the scan: each is recorded and scanning goes on
/// after the offending lexeme. String literals may span lines and take their
/// body verbatim (there are no escape sequences). A `.` belongs to a numeral
/// only when a digit follows it, so `1.` scans as `1` then `.`.
pub fn scan(source: &str) -> (r: ScanResult)
    requires
        source@.len() < usize::MAX,
    ensures
        r@ == scan_spec(source@),
        forall|i: int| 0 <= i < r.tokens.len() ==> (#[trigger] r.tokens[i]).wf(),
        r.tokens.len() >= 1,
        r@.tokens.last().kind == TokenType::Eof,
        r@.tokens.last().lexeme == Seq::<char>::empty(),
        r@.tokens.last().literal.is_none(),
        forall|i: int| 0 <= i < r.tokens.len() - 1 ==> (#[trigger] r@.tokens[i]).kind != TokenType::Eof,
{
    let chars = source_chars(source);
    let ghost src = chars@;
    let mut tokens: Vec<Token<LiteralType>> = Vec::new();
    let mut errors: Vec<LexicalError> = Vec::new();
    let mut pos: usize = 0;
    let mut line: usize = 1;
    while pos < chars.len()
        invariant
            src == chars@,
            src == source@,
            chars.len() < usize::MAX,
            pos <= chars.len(),
            1 <= line <= pos + 1,
            scan_spec(src) == (ScanModel {
                tokens: token_models(tokens@) + scan_from(src, pos as nat, line as nat).tokens,
                errors: error_models(errors@) + scan_from(src, pos as nat, line as nat).errors,
            }),
            forall|i: int| 0 <= i < tokens.len() ==> (#[trigger] tokens[i]).wf(),
        decreases chars.len() - pos,
    {
        let lexed = scan_lexeme(&chars, pos, line);
        proof {
            lemma_step_advances(src, pos as nat, line as nat);
        }
        let ghost old_tokens = tokens@;
        let ghost old_errors = errors@;
        let ghost rest = scan_from(src, lexed.next as nat, lexed.line as nat);
        let Lexed { next, line: next_line, token, error } = lexed;
        match token {
            Some(t) => {
                tokens.push(t);
            },
            None => {},
        }
        match error {
            Some(e) => {
                errors.push(e);
            },
            None => {},
        }
        assert(token_models(tokens@) + rest.tokens =~= token_models(old_tokens) + (opt_seq(
            lexed.model().token,
        ) + rest.tokens));
        assert(error_models(errors@) + rest.errors =~= error_models(old_errors) + (opt_seq(
            lexed.model().error,
        ) + rest.errors));
        pos = next;
        line = next_line;
    }
    let eof = TokenBuilder::new().kind(TokenType::Eof).line(line).build();
    let ghost old_tokens = tokens@;
    tokens.push(eof);
    assert(token_models(tokens@) =~= token_models(old_tokens) + seq![eof_at(line as nat)]);
    assert(error_models(errors@) =~= error_models(errors@) + Seq::<ErrorModel>::empty());
    proof {
        lemma_scan_ends_in_eof(source@);
    }
    ScanResult { tokens, errors }
}

} // verus!
