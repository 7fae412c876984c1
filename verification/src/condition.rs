//! Conditions of workflow nodes: a small expression language over the facts of
//! a run.
//!
//! Operands are `results['step']`, `variables['key']`, `headers['name']`,
//! `input['field']` and `input`, each with any number of `.field` accesses,
//! and the literals: numbers, quoted strings, `true`, `false` and `null`.
//! Operands are compared with `==`, `!=`, `<`, `<=`, `>`, `>=`, `in` and
//! `not in`; comparisons combine with `not`, `and`, `or` and parentheses. A
//! bare operand counts as true when it is not null, false, zero or empty.

use crate::step_context;
use crate::step_context::{ContextView, StepContext};
use crate::text;
use crate::text::{quoted, same};
use crate::value;
use crate::value::{Number, Rank, Value, ValueView};
use vstd::prelude::*;
use vstd::string::*;

verus! {

/// A condition that is malformed, and why.
#[derive(Debug)]
pub struct ConditionError(pub String);

impl ConditionError {
    /// The message of the error.
    pub fn to_string(&self) -> (message: String)
        ensures
            message@ == "invalid condition: "@ + self.0@,
    {
        let mut out: String = "invalid condition: ".to_owned();
        out.append(self.0.as_str());
        out
    }
}

/// A comparison operator.
#[derive(Debug, Clone, Copy, PartialEq, Eq, Structural)]
pub enum CompareOp {
    /// `==`.
    Equal,
    /// `!=`.
    NotEqual,
    /// `<`.
    Less,
    /// `<=`.
    LessOrEqual,
    /// `>`.
    Greater,
    /// `>=`.
    GreaterOrEqual,
}

/// A token of a condition.
#[derive(Debug)]
pub enum Tok {
    /// A name.
    Ident(String),
    /// A quoted string.
    Str(String),
    /// A number: its text, and its bits where it is finite.
    Num(String, Option<u64>),
    /// `true` or `false`.
    Bool(bool),
    /// `null`.
    Null,
    /// `[`.
    LBracket,
    /// `]`.
    RBracket,
    /// `(`.
    LParen,
    /// `)`.
    RParen,
    /// `.`.
    Dot,
    /// A comparison operator.
    Op(CompareOp),
    /// `and`.
    And,
    /// `or`.
    Or,
    /// `not`.
    Not,
    /// `in`.
    In,
}

/// What a token is, as mathematical data.
pub enum TokView {
    /// A name.
    Ident(Seq<char>),
    /// A quoted string.
    Str(Seq<char>),
    /// A number, by its text.
    Num(Seq<char>),
    /// `true` or `false`.
    Bool(bool),
    /// `null`.
    Null,
    /// `[`.
    LBracket,
    /// `]`.
    RBracket,
    /// `(`.
    LParen,
    /// `)`.
    RParen,
    /// `.`.
    Dot,
    /// A comparison operator.
    Op(CompareOp),
    /// `and`.
    And,
    /// `or`.
    Or,
    /// `not`.
    Not,
    /// `in`.
    In,
}

impl Tok {
    /// The token as mathematical data.
    pub open spec fn model(self) -> TokView {
        match self {
            Tok::Ident(name) => TokView::Ident(name@),
            Tok::Str(s) => TokView::Str(s@),
            Tok::Num(text, _) => TokView::Num(text@),
            Tok::Bool(b) => TokView::Bool(b),
            Tok::Null => TokView::Null,
            Tok::LBracket => TokView::LBracket,
            Tok::RBracket => TokView::RBracket,
            Tok::LParen => TokView::LParen,
            Tok::RParen => TokView::RParen,
            Tok::Dot => TokView::Dot,
            Tok::Op(op) => TokView::Op(op),
            Tok::And => TokView::And,
            Tok::Or => TokView::Or,
            Tok::Not => TokView::Not,
            Tok::In => TokView::In,
        }
    }

    /// Whether a number carries the bits of its text.
    pub open spec fn well_formed(self) -> bool {
        self matches Tok::Num(text, bits) ==> double_literal(text@) == Some(bits)
    }
}

/// The tokens of a list, as mathematical data.
pub open spec fn tokens_of(tokens: Seq<Tok>) -> Seq<TokView> {
    Seq::new(tokens.len(), |i: int| tokens[i].model())
}

/// Whether every token is well-formed.
pub open spec fn good_tokens(tokens: Seq<Tok>) -> bool {
    forall|i: int| 0 <= i < tokens.len() ==> (#[trigger] tokens[i]).well_formed()
}

/// Whether a character beyond ASCII is white space.
pub uninterp spec fn char_is_space(c: char) -> bool;

/// Whether a character beyond ASCII is a letter.
pub uninterp spec fn char_is_letter(c: char) -> bool;

/// Whether a character beyond ASCII is a letter or a digit.
pub uninterp spec fn char_is_word(c: char) -> bool;

/// Whether a character is an ASCII one.
pub open spec fn is_ascii(c: char) -> bool {
    (c as u32) < 0x80
}

/// Whether a character is an ASCII letter.
pub open spec fn is_ascii_letter(c: char) -> bool {
    ('a' <= c && c <= 'z') || ('A' <= c && c <= 'Z')
}

/// Whether a character is white space.
pub open spec fn space_char(c: char) -> bool {
    if is_ascii(c) {
        c == ' ' || ('\t' <= c && c <= '\r')
    } else {
        char_is_space(c)
    }
}

/// Whether a character is a letter.
pub open spec fn letter_char(c: char) -> bool {
    if is_ascii(c) {
        is_ascii_letter(c)
    } else {
        char_is_letter(c)
    }
}

/// Whether a character is a letter or a digit.
pub open spec fn word_char(c: char) -> bool {
    if is_ascii(c) {
        is_ascii_letter(c) || is_digit(c)
    } else {
        char_is_word(c)
    }
}

/// A character as `{:?}` renders it.
pub uninterp spec fn debug_char(c: char) -> Seq<char>;

/// The double-precision number that a text denotes: `None` for a text that is
/// no number, and otherwise its bits where it is finite.
pub uninterp spec fn double_literal(text: Seq<char>) -> Option<Option<u64>>;

/// The number that a text denotes, as `{:?}` renders it.
pub uninterp spec fn debug_double(text: Seq<char>) -> Seq<char>;

/// Asks `char::is_whitespace`. Of ASCII characters the contract says that the
/// space and the five controls from the tab to the carriage return are white
/// space; of others it names the answer.
#[verifier::external_body]
fn is_space(c: char) -> (yes: bool)
    ensures
        is_ascii(c) ==> yes == (c == ' ' || ('\t' <= c && c <= '\r')),
        !is_ascii(c) ==> yes == char_is_space(c),
{
    c.is_whitespace()
}

/// Asks `char::is_alphabetic`. Of ASCII characters the contract says that the
/// letters are alphabetic; of others it names the answer.
#[verifier::external_body]
fn is_letter(c: char) -> (yes: bool)
    ensures
        is_ascii(c) ==> yes == is_ascii_letter(c),
        !is_ascii(c) ==> yes == char_is_letter(c),
{
    c.is_alphabetic()
}

/// Asks `char::is_alphanumeric`. Of ASCII characters the contract says that the
/// letters and the digits are alphanumeric; of others it names the answer.
#[verifier::external_body]
fn is_word(c: char) -> (yes: bool)
    ensures
        is_ascii(c) ==> yes == (is_ascii_letter(c) || is_digit(c)),
        !is_ascii(c) ==> yes == char_is_word(c),
{
    c.is_alphanumeric()
}

/// Renders a character with the `Debug` formatting of `char`. The contract
/// names the result.
#[verifier::external_body]
fn quoted_char(c: char) -> (text: String)
    ensures
        text@ == debug_char(c),
{
    format!("{c:?}")
}

/// Parses a double-precision number with `str::parse` and keeps it where
/// `serde_json::Number::from_f64` does, which is where it is finite. The
/// contract names the result.
#[verifier::external_body]
fn parse_double(text: &str) -> (number: Option<Option<u64>>)
    ensures
        number == double_literal(text@),
{
    let parsed = text.parse().ok()?;
    Some(serde_json::Number::from_f64(parsed).and_then(|n| n.as_f64()).map(|x| x.to_bits()))
}

/// Renders the double-precision number that `str::parse` reads from a text,
/// with its `Debug` formatting; `serde_json::Number::from_f64` fixes the kind
/// of number. A text that is no number gives an empty text. The contract names
/// the result.
#[verifier::external_body]
fn double_debug(text: &str) -> (rendered: String)
    ensures
        rendered@ == debug_double(text@),
{
    let parsed = text.parse().ok();
    let _ = parsed.map(serde_json::Number::from_f64);
    parsed.map_or(String::new(), |x| format!("{x:?}"))
}

/// Whether a character is an ASCII digit.
pub open spec fn is_digit(c: char) -> bool {
    '0' <= c && c <= '9'
}

/// The first place from `i` on that holds the quote, or the end.
pub open spec fn scan_quote(c: Seq<char>, i: int, quote: char) -> int
    decreases c.len() - i,
{
    if 0 <= i < c.len() && c[i] != quote {
        scan_quote(c, i + 1, quote)
    } else {
        i
    }
}

/// The first place from `i` on that holds neither a digit nor a dot, or the
/// end.
pub open spec fn scan_number(c: Seq<char>, i: int) -> int
    decreases c.len() - i,
{
    if 0 <= i < c.len() && (is_digit(c[i]) || c[i] == '.') {
        scan_number(c, i + 1)
    } else {
        i
    }
}

/// The first place from `i` on that holds neither a letter, a digit nor an
/// underscore, or the end.
pub open spec fn scan_word(c: Seq<char>, i: int) -> int
    decreases c.len() - i,
{
    if 0 <= i < c.len() && (word_char(c[i]) || c[i] == '_') {
        scan_word(c, i + 1)
    } else {
        i
    }
}

/// The token of a word: a keyword or a name.
pub open spec fn word_token(word: Seq<char>) -> TokView {
    if word == "and"@ {
        TokView::And
    } else if word == "or"@ {
        TokView::Or
    } else if word == "not"@ {
        TokView::Not
    } else if word == "in"@ {
        TokView::In
    } else if word == "true"@ || word == "True"@ {
        TokView::Bool(true)
    } else if word == "false"@ || word == "False"@ {
        TokView::Bool(false)
    } else if word == "null"@ || word == "None"@ {
        TokView::Null
    } else {
        TokView::Ident(word)
    }
}

/// The token at `i` and where it ends, or why there is none.
pub open spec fn lex_one(c: Seq<char>, i: int) -> Result<(TokView, int), Seq<char>> {
    let here = c[i];
    let next_is_equals = i + 1 < c.len() && c[i + 1] == '=';
    if here == '[' {
        Ok((TokView::LBracket, i + 1))
    } else if here == ']' {
        Ok((TokView::RBracket, i + 1))
    } else if here == '(' {
        Ok((TokView::LParen, i + 1))
    } else if here == ')' {
        Ok((TokView::RParen, i + 1))
    } else if here == '.' {
        Ok((TokView::Dot, i + 1))
    } else if here == '\'' || here == '"' {
        let end = scan_quote(c, i + 1, here);
        if end >= c.len() {
            Err("unterminated string"@)
        } else {
            Ok((TokView::Str(c.subrange(i + 1, end)), end + 1))
        }
    } else if here == '=' {
        if next_is_equals {
            Ok((TokView::Op(CompareOp::Equal), i + 2))
        } else {
            Err("invalid operator "@ + text::debug_text("="@))
        }
    } else if here == '!' {
        if next_is_equals {
            Ok((TokView::Op(CompareOp::NotEqual), i + 2))
        } else {
            Err("invalid operator "@ + text::debug_text("!"@))
        }
    } else if here == '<' {
        if next_is_equals {
            Ok((TokView::Op(CompareOp::LessOrEqual), i + 2))
        } else {
            Ok((TokView::Op(CompareOp::Less), i + 1))
        }
    } else if here == '>' {
        if next_is_equals {
            Ok((TokView::Op(CompareOp::GreaterOrEqual), i + 2))
        } else {
            Ok((TokView::Op(CompareOp::Greater), i + 1))
        }
    } else if is_digit(here) || (here == '-' && i + 1 < c.len() && is_digit(c[i + 1])) {
        let end = scan_number(c, i + 1);
        let word = c.subrange(i, end);
        match double_literal(word) {
            Some(_) => Ok((TokView::Num(word), end)),
            None => Err("invalid number "@ + text::debug_text(word)),
        }
    } else if letter_char(here) || here == '_' {
        let end = scan_word(c, i + 1);
        Ok((word_token(c.subrange(i, end)), end))
    } else {
        Err("unexpected character "@ + debug_char(here))
    }
}

/// The tokens of a text from `i` on, or the first reason why it has none.
pub open spec fn lex(c: Seq<char>, i: int) -> Result<Seq<TokView>, Seq<char>>
    decreases c.len() - i,
{
    if i < 0 || i >= c.len() {
        Ok(Seq::empty())
    } else if space_char(c[i]) {
        lex(c, i + 1)
    } else {
        match lex_one(c, i) {
            Err(message) => Err(message),
            Ok((tok, next)) => if i < next <= c.len() {
                match lex(c, next) {
                    Err(message) => Err(message),
                    Ok(rest) => Ok(seq![tok] + rest),
                }
            } else {
                Err(Seq::empty())
            },
        }
    }
}

/// Whether the character at `idx` is an ASCII digit.
pub fn peek_digit(chars: &Vec<char>, idx: usize) -> (yes: bool)
    ensures
        yes == (idx < chars@.len() && is_digit(chars@[idx as int])),
{
    idx < chars.len() && '0' <= chars[idx] && chars[idx] <= '9'
}

/// The token of a word.
fn word_tok(word: &str) -> (tok: Tok)
    ensures
        tok.model() == word_token(word@),
        tok.well_formed(),
{
    if same(word, "and") {
        Tok::And
    } else if same(word, "or") {
        Tok::Or
    } else if same(word, "not") {
        Tok::Not
    } else if same(word, "in") {
        Tok::In
    } else if same(word, "true") || same(word, "True") {
        Tok::Bool(true)
    } else if same(word, "false") || same(word, "False") {
        Tok::Bool(false)
    } else if same(word, "null") || same(word, "None") {
        Tok::Null
    } else {
        Tok::Ident(word.to_owned())
    }
}

fn fault<T>(message: &str) -> (error: Result<T, ConditionError>)
    ensures
        error matches Err(e) && e.0@ == message@,
{
    Err(ConditionError(message.to_owned()))
}

fn fault_with<T>(message: &str, detail: &str) -> (error: Result<T, ConditionError>)
    ensures
        error matches Err(e) && e.0@ == message@ + detail@,
{
    let mut out: String = message.to_owned();
    out.append(detail);
    Err(ConditionError(out))
}

/// Reads the token that starts at `i`.
fn read_token(expr: &str, chars: &Vec<char>, i: usize) -> (token: Result<
    (Tok, usize),
    ConditionError,
>)
    requires
        chars@ == expr@,
        i < chars@.len(),
    ensures
        match (token, lex_one(expr@, i as int)) {
            (Ok(got), Ok(want)) => {
                &&& got.0.model() == want.0
                &&& got.0.well_formed()
                &&& got.1 == want.1
                &&& i < got.1 <= chars@.len()
            },
            (Err(got), Err(want)) => got.0@ == want,
            _ => false,
        },
{
    let n: usize = chars.len();
    let here: char = chars[i];
    let next_is_equals: bool = i + 1 < n && chars[i + 1] == '=';
    if here == '[' {
        Ok((Tok::LBracket, i + 1))
    } else if here == ']' {
        Ok((Tok::RBracket, i + 1))
    } else if here == '(' {
        Ok((Tok::LParen, i + 1))
    } else if here == ')' {
        Ok((Tok::RParen, i + 1))
    } else if here == '.' {
        Ok((Tok::Dot, i + 1))
    } else if here == '\'' || here == '"' {
        let mut end: usize = i + 1;
        while end < n && chars[end] != here
            invariant
                i < end <= n,
                n == chars@.len(),
                chars@ == expr@,
                scan_quote(expr@, end as int, here) == scan_quote(expr@, i + 1, here),
            decreases n - end,
        {
            end += 1;
        }
        if end >= n {
            fault("unterminated string")
        } else {
            Ok((Tok::Str(expr.substring_char(i + 1, end).to_owned()), end + 1))
        }
    } else if here == '=' {
        if next_is_equals {
            Ok((Tok::Op(CompareOp::Equal), i + 2))
        } else {
            fault_with("invalid operator ", quoted("=").as_str())
        }
    } else if here == '!' {
        if next_is_equals {
            Ok((Tok::Op(CompareOp::NotEqual), i + 2))
        } else {
            fault_with("invalid operator ", quoted("!").as_str())
        }
    } else if here == '<' {
        if next_is_equals {
            Ok((Tok::Op(CompareOp::LessOrEqual), i + 2))
        } else {
            Ok((Tok::Op(CompareOp::Less), i + 1))
        }
    } else if here == '>' {
        if next_is_equals {
            Ok((Tok::Op(CompareOp::GreaterOrEqual), i + 2))
        } else {
            Ok((Tok::Op(CompareOp::Greater), i + 1))
        }
    } else if peek_digit(chars, i) || (here == '-' && peek_digit(chars, i + 1)) {
        let mut end: usize = i + 1;
        while end < n && (peek_digit(chars, end) || chars[end] == '.')
            invariant
                i < end <= n,
                n == chars@.len(),
                chars@ == expr@,
                scan_number(expr@, end as int) == scan_number(expr@, i + 1),
            decreases n - end,
        {
            end += 1;
        }
        let word: &str = expr.substring_char(i, end);
        match parse_double(word) {
            Some(bits) => Ok((Tok::Num(word.to_owned(), bits), end)),
            None => fault_with("invalid number ", quoted(word).as_str()),
        }
    } else if is_letter(here) || here == '_' {
        let mut end: usize = i + 1;
        while end < n && (is_word(chars[end]) || chars[end] == '_')
            invariant
                i < end <= n,
                n == chars@.len(),
                chars@ == expr@,
                scan_word(expr@, end as int) == scan_word(expr@, i + 1),
            decreases n - end,
        {
            end += 1;
        }
        Ok((word_tok(expr.substring_char(i, end)), end))
    } else {
        fault_with("unexpected character ", quoted_char(here).as_str())
    }
}

/// Splits a condition into tokens.
pub fn tokenize(expr: &str) -> (tokens: Result<Vec<Tok>, ConditionError>)
    ensures
        match (tokens, lex(expr@, 0)) {
            (Ok(got), Ok(want)) => tokens_of(got@) == want && good_tokens(got@),
            (Err(got), Err(want)) => got.0@ == want,
            _ => false,
        },
{
    let chars: Vec<char> = text::chars_of(expr);
    let mut out: Vec<Tok> = Vec::new();
    let mut i: usize = 0;
    assert(tokens_of(out@) =~= Seq::empty());
    assert(match lex(expr@, 0) {
        Ok(rest) => tokens_of(out@) + rest =~= rest,
        Err(_) => true,
    });
    while i < chars.len()
        invariant
            chars@ == expr@,
            i <= chars@.len(),
            good_tokens(out@),
            match (lex(expr@, 0), lex(expr@, i as int)) {
                (Ok(whole), Ok(rest)) => whole == tokens_of(out@) + rest,
                (Err(a), Err(b)) => a == b,
                _ => false,
            },
        decreases chars.len() - i,
    {
        if is_space(chars[i]) {
            i += 1;
        } else {
            match read_token(expr, &chars, i) {
                Err(error) => {
                    return Err(error);
                },
                Ok((tok, next)) => {
                    let ghost before = tokens_of(out@);
                    out.push(tok);
                    proof {
                        assert(tokens_of(out@) =~= before.push(tok.model()));
                        if let Ok(rest) = lex(expr@, next as int) {
                            assert(before + (seq![tok.model()] + rest) =~= tokens_of(out@) + rest);
                        }
                    }
                    i = next;
                },
            }
        }
    }
    proof {
        assert(tokens_of(out@) + Seq::<TokView>::empty() =~= tokens_of(out@));
    }
    Ok(out)
}

/// A comparison operator as it is written.
pub open spec fn op_text(op: CompareOp) -> Seq<char> {
    match op {
        CompareOp::Equal => "=="@,
        CompareOp::NotEqual => "!="@,
        CompareOp::Less => "<"@,
        CompareOp::LessOrEqual => "<="@,
        CompareOp::Greater => ">"@,
        CompareOp::GreaterOrEqual => ">="@,
    }
}

/// A token as messages show it.
pub open spec fn tok_text(tok: TokView) -> Seq<char> {
    match tok {
        TokView::Ident(name) => "Ident("@ + text::debug_text(name) + ")"@,
        TokView::Str(s) => "Str("@ + text::debug_text(s) + ")"@,
        TokView::Num(n) => "Num("@ + debug_double(n) + ")"@,
        TokView::Bool(b) => if b {
            "Bool(true)"@
        } else {
            "Bool(false)"@
        },
        TokView::Null => "Null"@,
        TokView::LBracket => "LBracket"@,
        TokView::RBracket => "RBracket"@,
        TokView::LParen => "LParen"@,
        TokView::RParen => "RParen"@,
        TokView::Dot => "Dot"@,
        TokView::Op(op) => "Op("@ + text::debug_text(op_text(op)) + ")"@,
        TokView::And => "And"@,
        TokView::Or => "Or"@,
        TokView::Not => "Not"@,
        TokView::In => "In"@,
    }
}

/// The token at `p`, if there is one, as messages show it.
pub open spec fn tok_at_text(t: Seq<TokView>, p: int) -> Seq<char> {
    if 0 <= p < t.len() {
        "Some("@ + tok_text(t[p]) + ")"@
    } else {
        "None"@
    }
}

/// The value of a number literal: null where the number is not finite.
pub open spec fn literal_value(number: Seq<char>) -> ValueView {
    match double_literal(number) {
        Some(Some(bits)) => ValueView::Number(Number::Float(bits)),
        _ => ValueView::Null,
    }
}

/// A value or null.
pub open spec fn or_null(value: Option<ValueView>) -> ValueView {
    match value {
        Some(v) => v,
        None => ValueView::Null,
    }
}

/// Whether a comparison holds. Values that have no order are neither below,
/// level nor above.
pub open spec fn comparison(left: ValueView, op: CompareOp, right: ValueView) -> bool {
    match op {
        CompareOp::Equal => value::loose_eq(left, right),
        CompareOp::NotEqual => !value::loose_eq(left, right),
        CompareOp::Less => value::rank_of(left, right) == Some(Rank::Below),
        CompareOp::LessOrEqual => value::rank_of(left, right) == Some(Rank::Below)
            || value::rank_of(left, right) == Some(Rank::Level),
        CompareOp::Greater => value::rank_of(left, right) == Some(Rank::Above),
        CompareOp::GreaterOrEqual => value::rank_of(left, right) == Some(Rank::Above)
            || value::rank_of(left, right) == Some(Rank::Level),
    }
}

/// The token at `p`.
pub open spec fn tok_at(t: Seq<TokView>, p: int) -> Option<TokView> {
    if 0 <= p < t.len() {
        Some(t[p])
    } else {
        None
    }
}

/// Field accesses from `p` on.
pub open spec fn fields_from(t: Seq<TokView>, p: int, value: ValueView) -> Result<
    (ValueView, int),
    Seq<char>,
>
    decreases t.len() - p,
{
    if tok_at(t, p) == Some(TokView::Dot) {
        match tok_at(t, p + 1) {
            Some(TokView::Ident(field)) => fields_from(
                t,
                p + 2,
                or_null(value::field_of(value, field)),
            ),
            _ => Err("expected field name, got "@ + tok_at_text(t, p + 1)),
        }
    } else {
        Ok((value, p))
    }
}

/// What a name at `p - 1` stands for.
pub open spec fn lookup_from(t: Seq<TokView>, p: int, name: Seq<char>, c: ContextView) -> Result<
    (ValueView, int),
    Seq<char>,
> {
    if tok_at(t, p) == Some(TokView::LBracket) {
        match tok_at(t, p + 1) {
            Some(TokView::Str(key)) => if tok_at(t, p + 2) != Some(TokView::RBracket) {
                Err("expected ']'"@)
            } else if name == "results"@ {
                Ok((or_null(step_context::entry(c.results, key)), p + 3))
            } else if name == "variables"@ {
                Ok((or_null(step_context::entry(c.variables, key)), p + 3))
            } else if name == "headers"@ {
                Ok(
                    (
                        match step_context::entry(c.headers, key) {
                            Some(v) => ValueView::String(v),
                            None => ValueView::Null,
                        },
                        p + 3,
                    ),
                )
            } else if name == "input"@ {
                Ok((or_null(value::field_of(c.input, key)), p + 3))
            } else {
                Err("unknown namespace "@ + text::debug_text(name))
            },
            _ => Err("expected string key, got "@ + tok_at_text(t, p + 1)),
        }
    } else if name == "input"@ {
        Ok((c.input, p))
    } else {
        Err("unknown name "@ + text::debug_text(name))
    }
}

/// An operand: a group, a literal or a name, with its field accesses.
pub open spec fn operand_from(t: Seq<TokView>, p: int, c: ContextView) -> Result<
    (ValueView, int),
    Seq<char>,
>
    decreases t.len() - p, 0nat,
{
    match tok_at(t, p) {
        Some(TokView::LParen) => match or_from(t, p + 1, c) {
            Err(message) => Err(message),
            Ok((v, q)) => if tok_at(t, q) == Some(TokView::RParen) {
                fields_from(t, q + 1, v)
            } else {
                Err("expected ')'"@)
            },
        },
        Some(TokView::Str(s)) => fields_from(t, p + 1, ValueView::String(s)),
        Some(TokView::Num(n)) => fields_from(t, p + 1, literal_value(n)),
        Some(TokView::Bool(b)) => fields_from(t, p + 1, ValueView::Bool(b)),
        Some(TokView::Null) => fields_from(t, p + 1, ValueView::Null),
        Some(TokView::Ident(name)) => match lookup_from(t, p + 1, name, c) {
            Err(message) => Err(message),
            Ok((v, q)) => fields_from(t, q, v),
        },
        _ => Err("unexpected token "@ + tok_at_text(t, p)),
    }
}

/// A comparison, a membership test, or a bare operand.
pub open spec fn comparison_from(t: Seq<TokView>, p: int, c: ContextView) -> Result<
    (ValueView, int),
    Seq<char>,
>
    decreases t.len() - p, 1nat,
{
    match operand_from(t, p, c) {
        Err(message) => Err(message),
        Ok((left, q)) => if !(p < q <= t.len()) {
            Err(Seq::empty())
        } else {
            match tok_at(t, q) {
                Some(TokView::Op(op)) => match operand_from(t, q + 1, c) {
                    Err(message) => Err(message),
                    Ok((right, r)) => Ok((ValueView::Bool(comparison(left, op, right)), r)),
                },
                Some(TokView::In) => match operand_from(t, q + 1, c) {
                    Err(message) => Err(message),
                    Ok((right, r)) => Ok((ValueView::Bool(value::holds(right, left)), r)),
                },
                Some(TokView::Not) => if tok_at(t, q + 1) == Some(TokView::In) {
                    match operand_from(t, q + 2, c) {
                        Err(message) => Err(message),
                        Ok((right, r)) => Ok((ValueView::Bool(!value::holds(right, left)), r)),
                    }
                } else {
                    Err("expected 'in' after 'not'"@)
                },
                _ => Ok((left, q)),
            }
        },
    }
}

/// A negation, or a comparison.
pub open spec fn not_from(t: Seq<TokView>, p: int, c: ContextView) -> Result<
    (ValueView, int),
    Seq<char>,
>
    decreases t.len() - p, 2nat,
{
    if tok_at(t, p) == Some(TokView::Not) {
        match not_from(t, p + 1, c) {
            Err(message) => Err(message),
            Ok((v, q)) => Ok((ValueView::Bool(!value::truth(v)), q)),
        }
    } else {
        comparison_from(t, p, c)
    }
}

/// The further members of a conjunction.
pub open spec fn and_rest(t: Seq<TokView>, p: int, left: ValueView, c: ContextView) -> Result<
    (ValueView, int),
    Seq<char>,
>
    decreases t.len() - p, 3nat,
{
    if tok_at(t, p) == Some(TokView::And) {
        match not_from(t, p + 1, c) {
            Err(message) => Err(message),
            Ok((right, q)) => if p < q <= t.len() {
                and_rest(
                    t,
                    q,
                    ValueView::Bool(value::truth(left) && value::truth(right)),
                    c,
                )
            } else {
                Err(Seq::empty())
            },
        }
    } else {
        Ok((left, p))
    }
}

/// A conjunction.
pub open spec fn and_from(t: Seq<TokView>, p: int, c: ContextView) -> Result<
    (ValueView, int),
    Seq<char>,
>
    decreases t.len() - p, 4nat,
{
    match not_from(t, p, c) {
        Err(message) => Err(message),
        Ok((v, q)) => if p < q <= t.len() {
            and_rest(t, q, v, c)
        } else {
            Err(Seq::empty())
        },
    }
}

/// The further members of a disjunction.
pub open spec fn or_rest(t: Seq<TokView>, p: int, left: ValueView, c: ContextView) -> Result<
    (ValueView, int),
    Seq<char>,
>
    decreases t.len() - p, 5nat,
{
    if tok_at(t, p) == Some(TokView::Or) {
        match and_from(t, p + 1, c) {
            Err(message) => Err(message),
            Ok((right, q)) => if p < q <= t.len() {
                or_rest(t, q, ValueView::Bool(value::truth(left) || value::truth(right)), c)
            } else {
                Err(Seq::empty())
            },
        }
    } else {
        Ok((left, p))
    }
}

/// A disjunction.
pub open spec fn or_from(t: Seq<TokView>, p: int, c: ContextView) -> Result<
    (ValueView, int),
    Seq<char>,
>
    decreases t.len() - p, 6nat,
{
    match and_from(t, p, c) {
        Err(message) => Err(message),
        Ok((v, q)) => if p < q <= t.len() {
            or_rest(t, q, v, c)
        } else {
            Err(Seq::empty())
        },
    }
}

/// What a condition evaluates to over the facts of a run, or why it is
/// malformed.
pub open spec fn condition_result(expr: Seq<char>, c: ContextView) -> Result<bool, Seq<char>> {
    match lex(expr, 0) {
        Err(message) => Err(message),
        Ok(t) => match or_from(t, 0, c) {
            Err(message) => Err(message),
            Ok((v, q)) => if q != t.len() {
                Err("unexpected trailing tokens in "@ + text::debug_text(expr))
            } else {
                Ok(value::truth(v))
            },
        },
    }
}

/// Whether a parser's answer is the specified one; a success has moved on
/// from `p` and stays within the tokens.
pub open spec fn answers(
    got: Result<(Value, usize), ConditionError>,
    want: Result<(ValueView, int), Seq<char>>,
    p: int,
    n: int,
) -> bool {
    match (got, want) {
        (Ok(a), Ok(b)) => {
            &&& a.0.model() == b.0
            &&& a.0.well_formed()
            &&& a.1 == b.1
            &&& p <= a.1 <= n
        },
        (Err(a), Err(b)) => a.0@ == b,
        _ => false,
    }
}

fn show_op(op: CompareOp) -> (text: &'static str)
    ensures
        text@ == op_text(op),
{
    match op {
        CompareOp::Equal => "==",
        CompareOp::NotEqual => "!=",
        CompareOp::Less => "<",
        CompareOp::LessOrEqual => "<=",
        CompareOp::Greater => ">",
        CompareOp::GreaterOrEqual => ">=",
    }
}

fn wrapped(name: &str, inner: &str) -> (text: String)
    ensures
        text@ == name@ + inner@ + ")"@,
{
    let mut out: String = name.to_owned();
    out.append(inner);
    out.append(")");
    out
}

fn show_tok(tok: &Tok) -> (text: String)
    ensures
        text@ == tok_text(tok.model()),
{
    match tok {
        Tok::Ident(name) => wrapped("Ident(", quoted(name.as_str()).as_str()),
        Tok::Str(s) => wrapped("Str(", quoted(s.as_str()).as_str()),
        Tok::Num(number, _) => wrapped("Num(", double_debug(number.as_str()).as_str()),
        Tok::Bool(b) => if *b {
            "Bool(true)".to_owned()
        } else {
            "Bool(false)".to_owned()
        },
        Tok::Null => "Null".to_owned(),
        Tok::LBracket => "LBracket".to_owned(),
        Tok::RBracket => "RBracket".to_owned(),
        Tok::LParen => "LParen".to_owned(),
        Tok::RParen => "RParen".to_owned(),
        Tok::Dot => "Dot".to_owned(),
        Tok::Op(op) => wrapped("Op(", quoted(show_op(*op)).as_str()),
        Tok::And => "And".to_owned(),
        Tok::Or => "Or".to_owned(),
        Tok::Not => "Not".to_owned(),
        Tok::In => "In".to_owned(),
    }
}

fn show_tok_at(tokens: &Vec<Tok>, p: usize) -> (text: String)
    ensures
        text@ == tok_at_text(tokens_of(tokens@), p as int),
{
    if p < tokens.len() {
        wrapped("Some(", show_tok(&tokens[p]).as_str())
    } else {
        "None".to_owned()
    }
}

/// Whether a comparison holds.
pub fn compare_values(left: &Value, op: CompareOp, right: &Value) -> (yes: bool)
    ensures
        yes == comparison(left.model(), op, right.model()),
        *left is Number && *right is Number ==> {
            let a = value::number_key(left->Number_0);
            let b = value::number_key(right->Number_0);
            match op {
                CompareOp::Equal => yes == (a == b),
                CompareOp::NotEqual => yes == (a != b),
                CompareOp::Less => yes == (a < b),
                CompareOp::LessOrEqual => yes == (a <= b),
                CompareOp::Greater => yes == (a > b),
                CompareOp::GreaterOrEqual => yes == (a >= b),
            }
        },
        *left is String && *right is String ==> {
            let a = left->String_0@;
            let b = right->String_0@;
            match op {
                CompareOp::Equal => yes == (a == b),
                CompareOp::NotEqual => yes == (a != b),
                CompareOp::Less => yes == text::text_lt(a, b),
                CompareOp::LessOrEqual => yes == (text::text_lt(a, b) || a == b),
                CompareOp::Greater => yes == text::text_lt(b, a),
                CompareOp::GreaterOrEqual => yes == (text::text_lt(b, a) || a == b),
            }
        },
{
    proof {
        law_comparisons_agree(left.model(), right.model());
        law_comparisons_agree(right.model(), left.model());
    }
    match op {
        CompareOp::Equal => left.loosely_equals(right),
        CompareOp::NotEqual => !left.loosely_equals(right),
        CompareOp::Less => match left.rank(right) {
            Some(Rank::Below) => true,
            _ => false,
        },
        CompareOp::LessOrEqual => match left.rank(right) {
            Some(Rank::Below) => true,
            Some(Rank::Level) => true,
            _ => false,
        },
        CompareOp::Greater => match left.rank(right) {
            Some(Rank::Above) => true,
            _ => false,
        },
        CompareOp::GreaterOrEqual => match left.rank(right) {
            Some(Rank::Above) => true,
            Some(Rank::Level) => true,
            _ => false,
        },
    }
}

fn parse_field_accessors(tokens: &Vec<Tok>, p: usize, value: Value) -> (result: Result<
    (Value, usize),
    ConditionError,
>)
    requires
        p <= tokens@.len(),
        value.well_formed(),
    ensures
        answers(
            result,
            fields_from(tokens_of(tokens@), p as int, value.model()),
            p as int,
            tokens@.len() as int,
        ),
{
    let ghost t = tokens_of(tokens@);
    let mut v: Value = value;
    let mut q: usize = p;
    loop
        invariant
            t == tokens_of(tokens@),
            p <= q <= tokens@.len(),
            v.well_formed(),
            fields_from(t, q as int, v.model()) == fields_from(t, p as int, value.model()),
        decreases tokens.len() - q,
    {
        assert(tok_at(t, q as int) == (if q < tokens@.len() {
            Some(tokens@[q as int].model())
        } else {
            None
        }));
        if q >= tokens.len() {
            return Ok((v, q));
        }
        match &tokens[q] {
            Tok::Dot => {},
            _ => {
                return Ok((v, q));
            },
        }
        if q + 1 >= tokens.len() {
            return fault_with("expected field name, got ", show_tok_at(tokens, q + 1).as_str());
        }
        assert(tok_at(t, q + 1) == Some(tokens@[q + 1].model()));
        match &tokens[q + 1] {
            Tok::Ident(field) => {
                let next: Value = match step_context::read_field(&v, field.as_str()) {
                    Some(found) => found,
                    None => Value::Null,
                };
                v = next;
                q = q + 2;
            },
            _ => {
                return fault_with("expected field name, got ", show_tok_at(tokens, q + 1).as_str());
            },
        }
    }
}

fn parse_lookup(tokens: &Vec<Tok>, p: usize, name: &str, ctx: &StepContext) -> (result: Result<
    (Value, usize),
    ConditionError,
>)
    requires
        p <= tokens@.len(),
        ctx.well_formed(),
    ensures
        answers(
            result,
            lookup_from(tokens_of(tokens@), p as int, name@, ctx@),
            p as int,
            tokens@.len() as int,
        ),
{
    let ghost t = tokens_of(tokens@);
    let bracket: bool = p < tokens.len() && match &tokens[p] {
        Tok::LBracket => true,
        _ => false,
    };
    assert(bracket == (tok_at(t, p as int) == Some(TokView::LBracket)));
    if !bracket {
        if same(name, "input") {
            return Ok((ctx.input(), p));
        }
        return fault_with("unknown name ", quoted(name).as_str());
    }
    if p + 1 >= tokens.len() {
        return fault_with("expected string key, got ", show_tok_at(tokens, p + 1).as_str());
    }
    assert(tok_at(t, p + 1) == Some(tokens@[p + 1].model()));
    match &tokens[p + 1] {
        Tok::Str(key) => {
            let closed: bool = p + 2 < tokens.len() && match &tokens[p + 2] {
                Tok::RBracket => true,
                _ => false,
            };
            assert(closed == (tok_at(t, p + 2) == Some(TokView::RBracket)));
            if !closed {
                return fault("expected ']'");
            }
            let found: Option<Value> = if same(name, "results") {
                ctx.result(key.as_str())
            } else if same(name, "variables") {
                ctx.variable(key.as_str())
            } else if same(name, "headers") {
                match ctx.header(key.as_str()) {
                    Some(text) => Some(Value::String(text)),
                    None => None,
                }
            } else if same(name, "input") {
                ctx.input_field(key.as_str())
            } else {
                return fault_with("unknown namespace ", quoted(name).as_str());
            };
            match found {
                Some(v) => Ok((v, p + 3)),
                None => Ok((Value::Null, p + 3)),
            }
        },
        _ => fault_with("expected string key, got ", show_tok_at(tokens, p + 1).as_str()),
    }
}

fn parse_operand(tokens: &Vec<Tok>, p: usize, ctx: &StepContext) -> (result: Result<
    (Value, usize),
    ConditionError,
>)
    requires
        p <= tokens@.len(),
        good_tokens(tokens@),
        ctx.well_formed(),
    ensures
        answers(
            result,
            operand_from(tokens_of(tokens@), p as int, ctx@),
            p + 1,
            tokens@.len() as int,
        ),
    decreases tokens@.len() - p, 0nat,
{
    let ghost t = tokens_of(tokens@);
    if p >= tokens.len() {
        return fault_with("unexpected token ", show_tok_at(tokens, p).as_str());
    }
    assert(tok_at(t, p as int) == Some(tokens@[p as int].model()));
    match &tokens[p] {
        Tok::LParen => {
            let (inner, q) = match parse_or(tokens, p + 1, ctx) {
                Ok(found) => found,
                Err(error) => {
                    return Err(error);
                },
            };
            let closed: bool = q < tokens.len() && match &tokens[q] {
                Tok::RParen => true,
                _ => false,
            };
            assert(closed == (tok_at(t, q as int) == Some(TokView::RParen)));
            if !closed {
                return fault("expected ')'");
            }
            parse_field_accessors(tokens, q + 1, inner)
        },
        Tok::Str(s) => parse_field_accessors(tokens, p + 1, Value::String(s.clone())),
        Tok::Num(_, bits) => {
            assert(tokens@[p as int].well_formed());
            let literal: Value = match bits {
                Some(b) => Value::Number(Number::Float(*b)),
                None => Value::Null,
            };
            parse_field_accessors(tokens, p + 1, literal)
        },
        Tok::Bool(b) => parse_field_accessors(tokens, p + 1, Value::Bool(*b)),
        Tok::Null => parse_field_accessors(tokens, p + 1, Value::Null),
        Tok::Ident(name) => {
            let (found, q) = match parse_lookup(tokens, p + 1, name.as_str(), ctx) {
                Ok(found) => found,
                Err(error) => {
                    return Err(error);
                },
            };
            parse_field_accessors(tokens, q, found)
        },
        _ => fault_with("unexpected token ", show_tok_at(tokens, p).as_str()),
    }
}

fn parse_comparison(tokens: &Vec<Tok>, p: usize, ctx: &StepContext) -> (result: Result<
    (Value, usize),
    ConditionError,
>)
    requires
        p <= tokens@.len(),
        good_tokens(tokens@),
        ctx.well_formed(),
    ensures
        answers(
            result,
            comparison_from(tokens_of(tokens@), p as int, ctx@),
            p + 1,
            tokens@.len() as int,
        ),
    decreases tokens@.len() - p, 1nat,
{
    let ghost t = tokens_of(tokens@);
    let (left, q) = match parse_operand(tokens, p, ctx) {
        Ok(found) => found,
        Err(error) => {
            return Err(error);
        },
    };
    if q >= tokens.len() {
        return Ok((left, q));
    }
    assert(tok_at(t, q as int) == Some(tokens@[q as int].model()));
    match &tokens[q] {
        Tok::Op(op) => match parse_operand(tokens, q + 1, ctx) {
            Ok((right, r)) => Ok((Value::Bool(compare_values(&left, *op, &right)), r)),
            Err(error) => Err(error),
        },
        Tok::In => match parse_operand(tokens, q + 1, ctx) {
            Ok((right, r)) => Ok((Value::Bool(right.contains(&left)), r)),
            Err(error) => Err(error),
        },
        Tok::Not => {
            let in_follows: bool = q + 1 < tokens.len() && match &tokens[q + 1] {
                Tok::In => true,
                _ => false,
            };
            assert(in_follows == (tok_at(t, q + 1) == Some(TokView::In)));
            if !in_follows {
                return fault("expected 'in' after 'not'");
            }
            match parse_operand(tokens, q + 2, ctx) {
                Ok((right, r)) => Ok((Value::Bool(!right.contains(&left)), r)),
                Err(error) => Err(error),
            }
        },
        _ => Ok((left, q)),
    }
}

fn parse_not(tokens: &Vec<Tok>, p: usize, ctx: &StepContext) -> (result: Result<
    (Value, usize),
    ConditionError,
>)
    requires
        p <= tokens@.len(),
        good_tokens(tokens@),
        ctx.well_formed(),
    ensures
        answers(
            result,
            not_from(tokens_of(tokens@), p as int, ctx@),
            p + 1,
            tokens@.len() as int,
        ),
    decreases tokens@.len() - p, 2nat,
{
    let negated: bool = p < tokens.len() && match &tokens[p] {
        Tok::Not => true,
        _ => false,
    };
    assert(negated == (tok_at(tokens_of(tokens@), p as int) == Some(TokView::Not)));
    if negated {
        match parse_not(tokens, p + 1, ctx) {
            Ok((operand, q)) => Ok((Value::Bool(!operand.truthy()), q)),
            Err(error) => Err(error),
        }
    } else {
        parse_comparison(tokens, p, ctx)
    }
}

fn parse_and(tokens: &Vec<Tok>, p: usize, ctx: &StepContext) -> (result: Result<
    (Value, usize),
    ConditionError,
>)
    requires
        p <= tokens@.len(),
        good_tokens(tokens@),
        ctx.well_formed(),
    ensures
        answers(
            result,
            and_from(tokens_of(tokens@), p as int, ctx@),
            p + 1,
            tokens@.len() as int,
        ),
    decreases tokens@.len() - p, 4nat,
{
    let ghost t = tokens_of(tokens@);
    let (first, after) = match parse_not(tokens, p, ctx) {
        Ok(found) => found,
        Err(error) => {
            return Err(error);
        },
    };
    let mut left: Value = first;
    let mut q: usize = after;
    loop
        invariant
            t == tokens_of(tokens@),
            p < q <= tokens@.len(),
            good_tokens(tokens@),
            ctx.well_formed(),
            left.well_formed(),
            and_rest(t, q as int, left.model(), ctx@) == and_from(t, p as int, ctx@),
        decreases tokens.len() - q,
    {
        let more: bool = q < tokens.len() && match &tokens[q] {
            Tok::And => true,
            _ => false,
        };
        assert(more == (tok_at(t, q as int) == Some(TokView::And)));
        if !more {
            return Ok((left, q));
        }
        match parse_not(tokens, q + 1, ctx) {
            Ok((right, r)) => {
                left = Value::Bool(left.truthy() && right.truthy());
                q = r;
            },
            Err(error) => {
                return Err(error);
            },
        }
    }
}

fn parse_or(tokens: &Vec<Tok>, p: usize, ctx: &StepContext) -> (result: Result<
    (Value, usize),
    ConditionError,
>)
    requires
        p <= tokens@.len(),
        good_tokens(tokens@),
        ctx.well_formed(),
    ensures
        answers(
            result,
            or_from(tokens_of(tokens@), p as int, ctx@),
            p + 1,
            tokens@.len() as int,
        ),
    decreases tokens@.len() - p, 6nat,
{
    let ghost t = tokens_of(tokens@);
    let (first, after) = match parse_and(tokens, p, ctx) {
        Ok(found) => found,
        Err(error) => {
            return Err(error);
        },
    };
    let mut left: Value = first;
    let mut q: usize = after;
    loop
        invariant
            t == tokens_of(tokens@),
            p < q <= tokens@.len(),
            good_tokens(tokens@),
            ctx.well_formed(),
            left.well_formed(),
            or_rest(t, q as int, left.model(), ctx@) == or_from(t, p as int, ctx@),
        decreases tokens.len() - q,
    {
        let more: bool = q < tokens.len() && match &tokens[q] {
            Tok::Or => true,
            _ => false,
        };
        assert(more == (tok_at(t, q as int) == Some(TokView::Or)));
        if !more {
            return Ok((left, q));
        }
        match parse_and(tokens, q + 1, ctx) {
            Ok((right, r)) => {
                left = Value::Bool(left.truthy() || right.truthy());
                q = r;
            },
            Err(error) => {
                return Err(error);
            },
        }
    }
}

/// Evaluates a condition over the facts of a run.
pub fn evaluate(expression: &str, ctx: &StepContext) -> (result: Result<bool, ConditionError>)
    requires
        ctx.well_formed(),
    ensures
        match (result, condition_result(expression@, ctx@)) {
            (Ok(got), Ok(want)) => got == want,
            (Err(got), Err(want)) => got.0@ == want,
            _ => false,
        },
{
    let tokens: Vec<Tok> = match tokenize(expression) {
        Ok(tokens) => tokens,
        Err(error) => {
            return Err(error);
        },
    };
    match parse_or(&tokens, 0, ctx) {
        Ok((value, q)) => if q != tokens.len() {
            fault_with("unexpected trailing tokens in ", quoted(expression).as_str())
        } else {
            Ok(value.truthy())
        },
        Err(error) => Err(error),
    }
}

/// The comparisons agree with each other. Of two values that have an order, two
/// numbers or two texts, exactly one is below the other or they are level:
/// `a <= b` holds exactly when `a < b` or `a == b` does, `a >= b` exactly when
/// `a > b` or `a == b` does, either side may be named first, and exactly one
/// of `a <= b` and `a > b` holds. Any two values are equal or different, and
/// values that have no order are neither below nor above each other.
pub proof fn law_comparisons_agree(a: ValueView, b: ValueView)
    ensures
        comparison(a, CompareOp::NotEqual, b) == !comparison(a, CompareOp::Equal, b),
        comparison(a, CompareOp::Equal, b) == comparison(b, CompareOp::Equal, a),
        comparison(a, CompareOp::Less, b) == comparison(b, CompareOp::Greater, a),
        comparison(a, CompareOp::LessOrEqual, b) == comparison(b, CompareOp::GreaterOrEqual, a),
        (a is Number && b is Number) || (a is String && b is String) ==> {
            &&& comparison(a, CompareOp::LessOrEqual, b) <==> comparison(a, CompareOp::Less, b)
                || comparison(a, CompareOp::Equal, b)
            &&& comparison(a, CompareOp::GreaterOrEqual, b) <==> comparison(
                a,
                CompareOp::Greater,
                b,
            ) || comparison(a, CompareOp::Equal, b)
            &&& comparison(a, CompareOp::LessOrEqual, b) <==> !comparison(a, CompareOp::Greater, b)
            &&& comparison(a, CompareOp::GreaterOrEqual, b) <==> !comparison(a, CompareOp::Less, b)
            &&& !(comparison(a, CompareOp::Less, b) && comparison(a, CompareOp::Greater, b))
            &&& comparison(a, CompareOp::Less, b) ==> comparison(a, CompareOp::NotEqual, b)
            &&& comparison(a, CompareOp::Greater, b) ==> comparison(a, CompareOp::NotEqual, b)
        },
        !((a is Number && b is Number) || (a is String && b is String)) ==> {
            &&& !comparison(a, CompareOp::Less, b)
            &&& !comparison(a, CompareOp::LessOrEqual, b)
            &&& !comparison(a, CompareOp::Greater, b)
            &&& !comparison(a, CompareOp::GreaterOrEqual, b)
        },
{
    value::law_equality_is_symmetric(a, b);
    match (a, b) {
        (ValueView::String(x), ValueView::String(y)) => {
            text::lemma_text_lt_total(x, y);
            text::lemma_text_lt_irreflexive(x);
            if text::text_lt(x, y) && text::text_lt(y, x) {
                text::lemma_text_lt_transitive(x, y, x);
            }
        },
        _ => {},
    }
}

/// What is below something lies below all that is above that, and the
/// comparison of texts is that of a dictionary.
pub proof fn law_order_is_transitive(a: ValueView, b: ValueView, c: ValueView)
    ensures
        comparison(a, CompareOp::Less, b) && comparison(b, CompareOp::Less, c) ==> comparison(
            a,
            CompareOp::Less,
            c,
        ),
        comparison(a, CompareOp::LessOrEqual, b) && comparison(b, CompareOp::LessOrEqual, c)
            ==> comparison(a, CompareOp::LessOrEqual, c),
        a is String && b is String ==> comparison(a, CompareOp::Less, b) == text::text_lt(
            a->String_0,
            b->String_0,
        ),
        a is Number && b is Number && a->Number_0 is Float && b->Number_0 is Float
            ==> comparison(a, CompareOp::Less, b) == (value::double_key(a->Number_0->Float_0)
            < value::double_key(b->Number_0->Float_0)),
{
    if a is String && b is String && c is String {
        let x = a->String_0;
        let y = b->String_0;
        let z = c->String_0;
        if text::text_lt(x, y) && text::text_lt(y, z) {
            text::lemma_text_lt_transitive(x, y, z);
        }
    }
}

/// The words that are no names are `and`, `or`, `not`, `in`, and the two
/// spellings each of true, false and null.
pub proof fn law_only_keywords_are_no_names(word: Seq<char>)
    ensures
        word_token(word) is Ident <==> word != "and"@ && word != "or"@ && word != "not"@ && word
            != "in"@ && word != "true"@ && word != "True"@ && word != "false"@ && word != "False"@
            && word != "null"@ && word != "None"@,
        word_token(word) is Ident ==> word_token(word) == TokView::Ident(word),
        word_token(word) is And <==> word == "and"@,
        word_token(word) is Or ==> word == "or"@,
        word_token(word) is Not ==> word == "not"@,
        word_token(word) is In ==> word == "in"@,
        word_token(word) == TokView::Bool(true) ==> word == "true"@ || word == "True"@,
        word_token(word) == TokView::Bool(false) ==> word == "false"@ || word == "False"@,
        word_token(word) is Null ==> word == "null"@ || word == "None"@,
        word_token(word) is Ident || word_token(word) is And || word_token(word) is Or
            || word_token(word) is Not || word_token(word) is In || word_token(word) is Bool
            || word_token(word) is Null,
{
}

/// An operator is read as it is written: where its text stands, the longest
/// one counts.
pub proof fn law_operators_are_read_as_written(c: Seq<char>, i: int, op: CompareOp)
    requires
        0 <= i,
        i + op_text(op).len() <= c.len(),
        c.subrange(i, i + op_text(op).len()) == op_text(op),
        i + 1 < c.len() && c[i + 1] == '=' ==> op_text(op).len() == 2,
    ensures
        lex_one(c, i) == Ok::<(TokView, int), Seq<char>>((TokView::Op(op), i + op_text(op).len())),
{
    reveal_strlit("==");
    reveal_strlit("!=");
    reveal_strlit("<");
    reveal_strlit("<=");
    reveal_strlit(">");
    reveal_strlit(">=");
    let written = c.subrange(i, i + op_text(op).len());
    assert(written[0] == c[i]);
    if op_text(op).len() == 2 {
        assert(written[1] == c[i + 1]);
    }
}

/// A text between two quotes of one kind is read as it stands, whatever it
/// holds but that quote.
pub proof fn law_quoted_texts_are_read_as_they_stand(c: Seq<char>, i: int, end: int)
    requires
        0 <= i < end < c.len(),
        c[i] == '\'' || c[i] == '"',
        c[end] == c[i],
        forall|k: int| i < k < end ==> #[trigger] c[k] != c[i],
    ensures
        lex_one(c, i) == Ok::<(TokView, int), Seq<char>>(
            (TokView::Str(c.subrange(i + 1, end)), end + 1),
        ),
{
    lemma_scan_quote_to(c, i + 1, c[i], end);
}

proof fn lemma_scan_quote_to(c: Seq<char>, i: int, quote: char, end: int)
    requires
        0 <= i <= end < c.len(),
        c[end] == quote,
        forall|k: int| i <= k < end ==> #[trigger] c[k] != quote,
    ensures
        scan_quote(c, i, quote) == end,
    decreases end - i,
{
    if i < end {
        lemma_scan_quote_to(c, i + 1, quote, end);
    }
}

/// White space between tokens does not count.
pub proof fn law_space_is_skipped(c: Seq<char>, i: int)
    requires
        0 <= i < c.len(),
        c[i] == ' ' || c[i] == '\t' || c[i] == '\n' || c[i] == '\r',
    ensures
        lex(c, i) == lex(c, i + 1),
{
}

/// How the connectives bind: `or` joins conjunctions, `and` joins negations,
/// `not` takes what follows, and each looks at whether its operands count as
/// true. An operand that is malformed makes the whole malformed, whatever the
/// other one is.
pub proof fn law_connectives(t: Seq<TokView>, p: int, c: ContextView)
    ensures
        ({
            let first = and_from(t, p, c);
            let q = first->Ok_0.1;
            let second = and_from(t, q + 1, c);
            let r = second->Ok_0.1;
            &&& first is Err ==> or_from(t, p, c) is Err
            &&& first is Ok && p < q <= t.len() && tok_at(t, q) != Some(TokView::Or) ==> or_from(
                t,
                p,
                c,
            ) == first
            &&& first is Ok && p < q <= t.len() && tok_at(t, q) == Some(TokView::Or) && second is Err
                ==> or_from(t, p, c) is Err
            &&& first is Ok && p < q <= t.len() && tok_at(t, q) == Some(TokView::Or) && second is Ok
                && q < r <= t.len() && tok_at(t, r) != Some(TokView::Or) ==> or_from(t, p, c)
                == Ok::<(ValueView, int), Seq<char>>(
                (
                    ValueView::Bool(
                        value::truth(first->Ok_0.0) || value::truth(second->Ok_0.0),
                    ),
                    r,
                ),
            )
        }),
        ({
            let first = not_from(t, p, c);
            let q = first->Ok_0.1;
            let second = not_from(t, q + 1, c);
            let r = second->Ok_0.1;
            &&& first is Err ==> and_from(t, p, c) is Err
            &&& first is Ok && p < q <= t.len() && tok_at(t, q) != Some(TokView::And) ==> and_from(
                t,
                p,
                c,
            ) == first
            &&& first is Ok && p < q <= t.len() && tok_at(t, q) == Some(TokView::And)
                && second is Err ==> and_from(t, p, c) is Err
            &&& first is Ok && p < q <= t.len() && tok_at(t, q) == Some(TokView::And)
                && second is Ok && q < r <= t.len() && tok_at(t, r) != Some(TokView::And)
                ==> and_from(t, p, c) == Ok::<(ValueView, int), Seq<char>>(
                (
                    ValueView::Bool(
                        value::truth(first->Ok_0.0) && value::truth(second->Ok_0.0),
                    ),
                    r,
                ),
            )
        }),
        tok_at(t, p) == Some(TokView::Not) && not_from(t, p + 1, c) is Ok ==> not_from(t, p, c)
            == Ok::<(ValueView, int), Seq<char>>(
            (
                ValueView::Bool(!value::truth(not_from(t, p + 1, c)->Ok_0.0)),
                not_from(t, p + 1, c)->Ok_0.1,
            ),
        ),
        tok_at(t, p) == Some(TokView::Not) && not_from(t, p + 1, c) is Err ==> not_from(
            t,
            p,
            c,
        ) is Err,
        tok_at(t, p) != Some(TokView::Not) ==> not_from(t, p, c) == comparison_from(t, p, c),
{
    reveal_with_fuel(or_rest, 3);
    reveal_with_fuel(and_rest, 3);
}

/// What a comparison and a membership test between two operands give: the
/// operator holds of the left and the right one in this order, `in` asks
/// whether the right one holds the left one, and `not in` is its opposite.
pub proof fn law_operators_apply_to_their_operands(t: Seq<TokView>, p: int, c: ContextView)
    ensures
        ({
            let left = operand_from(t, p, c);
            let q = left->Ok_0.1;
            let right = operand_from(t, q + 1, c);
            let other = operand_from(t, q + 2, c);
            let whole = comparison_from(t, p, c);
            &&& left is Err ==> whole is Err
            &&& left is Ok && p < q <= t.len() ==> {
                &&& right is Ok ==> (tok_at(t, q) matches Some(TokView::Op(op)) ==> whole == Ok::<
                    (ValueView, int),
                    Seq<char>,
                >((ValueView::Bool(comparison(left->Ok_0.0, op, right->Ok_0.0)), right->Ok_0.1)))
                &&& tok_at(t, q) == Some(TokView::In) && right is Ok ==> whole == Ok::<
                    (ValueView, int),
                    Seq<char>,
                >(
                    (
                        ValueView::Bool(value::holds(right->Ok_0.0, left->Ok_0.0)),
                        right->Ok_0.1,
                    ),
                )
                &&& tok_at(t, q) == Some(TokView::Not) && tok_at(t, q + 1) == Some(TokView::In)
                    && other is Ok ==> whole == Ok::<(ValueView, int), Seq<char>>(
                    (
                        ValueView::Bool(!value::holds(other->Ok_0.0, left->Ok_0.0)),
                        other->Ok_0.1,
                    ),
                )
                &&& (tok_at(t, q) is None || tok_at(t, q)->0 is And || tok_at(t, q)->0 is Or
                    || tok_at(t, q)->0 is RParen) ==> whole == left
            }
        }),
{
}

/// What a name with a key in brackets stands for: an entry of the results, the
/// variables or the headers, or a member of the input. What is missing is
/// null, and no other name can be looked up.
pub proof fn law_lookups_read_their_namespace(
    t: Seq<TokView>,
    p: int,
    name: Seq<char>,
    key: Seq<char>,
    c: ContextView,
)
    requires
        tok_at(t, p) == Some(TokView::LBracket),
        tok_at(t, p + 1) == Some(TokView::Str(key)),
        tok_at(t, p + 2) == Some(TokView::RBracket),
    ensures
        lookup_from(t, p, name, c) is Ok <==> name == "results"@ || name == "variables"@ || name
            == "headers"@ || name == "input"@,
        lookup_from(t, p, name, c) is Ok ==> lookup_from(t, p, name, c)->Ok_0.1 == p + 3,
        ({
            let found = lookup_from(t, p, name, c)->Ok_0.0;
            &&& name == "results"@ ==> found == if c.results.contains_key(key) {
                c.results[key]
            } else {
                ValueView::Null
            }
            &&& name == "variables"@ ==> found == if c.variables.contains_key(key) {
                c.variables[key]
            } else {
                ValueView::Null
            }
            &&& name == "headers"@ ==> found == if c.headers.contains_key(key) {
                ValueView::String(c.headers[key])
            } else {
                ValueView::Null
            }
            &&& name == "input"@ ==> match value::field_of(c.input, key) {
                Some(v) => found == v,
                None => found == ValueView::Null,
            }
        }),
{
    reveal_strlit("results");
    reveal_strlit("variables");
    reveal_strlit("headers");
    reveal_strlit("input");
    assert("results"@.len() == 7 && "variables"@.len() == 9 && "input"@.len() == 5);
    assert("results"@[0] == 'r' && "headers"@[0] == 'h');
}

/// Field accesses read one member after another, and a member that is missing
/// is null.
pub proof fn law_field_accesses_read_members(
    t: Seq<TokView>,
    p: int,
    field: Seq<char>,
    value: ValueView,
)
    requires
        tok_at(t, p) == Some(TokView::Dot),
        tok_at(t, p + 1) == Some(TokView::Ident(field)),
        tok_at(t, p + 2) != Some(TokView::Dot),
    ensures
        fields_from(t, p, value) is Ok,
        fields_from(t, p, value)->Ok_0.1 == p + 2,
        match value::field_of(value, field) {
            Some(v) => fields_from(t, p, value)->Ok_0.0 == v,
            None => fields_from(t, p, value)->Ok_0.0 == ValueView::Null,
        },
{
    reveal_with_fuel(fields_from, 3);
}

/// What a single operand stands for: a text, a truth value or null for itself,
/// `input` for the input of the run, and a group for what it holds.
pub proof fn law_operands_stand_for_themselves(t: Seq<TokView>, p: int, c: ContextView)
    ensures
        tok_at(t, p + 1) != Some(TokView::Dot) ==> {
            &&& tok_at(t, p) matches Some(TokView::Str(s)) ==> operand_from(t, p, c) == Ok::<
                (ValueView, int),
                Seq<char>,
            >((ValueView::String(s), p + 1))
            &&& tok_at(t, p) matches Some(TokView::Bool(b)) ==> operand_from(t, p, c) == Ok::<
                (ValueView, int),
                Seq<char>,
            >((ValueView::Bool(b), p + 1))
            &&& tok_at(t, p) == Some(TokView::Null) ==> operand_from(t, p, c) == Ok::<
                (ValueView, int),
                Seq<char>,
            >((ValueView::Null, p + 1))
            &&& tok_at(t, p) == Some(TokView::Ident("input"@)) && tok_at(t, p + 1) != Some(
                TokView::LBracket,
            ) ==> operand_from(t, p, c) == Ok::<(ValueView, int), Seq<char>>((c.input, p + 1))
            &&& tok_at(t, p) matches Some(TokView::Num(n)) ==> operand_from(t, p, c) is Ok
                && operand_from(t, p, c)->Ok_0.1 == p + 1
        },
        ({
            let inner = or_from(t, p + 1, c);
            let q = inner->Ok_0.1;
            tok_at(t, p) == Some(TokView::LParen) && inner is Ok && tok_at(t, q) == Some(
                TokView::RParen,
            ) && tok_at(t, q + 1) != Some(TokView::Dot) ==> operand_from(t, p, c) == Ok::<
                (ValueView, int),
                Seq<char>,
            >((inner->Ok_0.0, q + 1))
        }),
        tok_at(t, p) is None ==> operand_from(t, p, c) is Err,
{
    reveal_with_fuel(fields_from, 2);
}

/// A condition counts only where all of it was read, and it holds exactly when
/// what it evaluates to counts as true.
pub proof fn law_conditions_are_read_to_the_end(expr: Seq<char>, c: ContextView)
    ensures
        condition_result(expr, c) is Ok <==> {
            &&& lex(expr, 0) is Ok
            &&& or_from(lex(expr, 0)->Ok_0, 0, c) is Ok
            &&& or_from(lex(expr, 0)->Ok_0, 0, c)->Ok_0.1 == lex(expr, 0)->Ok_0.len()
        },
        condition_result(expr, c) is Ok ==> condition_result(expr, c)->Ok_0 == value::truth(
            or_from(lex(expr, 0)->Ok_0, 0, c)->Ok_0.0,
        ),
{
}

/// A word of ASCII letters, digits and underscores that starts with no digit is
/// read whole.
pub proof fn law_words_are_read_whole(c: Seq<char>, i: int, end: int)
    requires
        0 <= i < end <= c.len(),
        c[i] == '_' || ('a' <= c[i] && c[i] <= 'z') || ('A' <= c[i] && c[i] <= 'Z'),
        forall|k: int|
            i < k < end ==> (#[trigger] c[k]) == '_' || ('a' <= c[k] && c[k] <= 'z') || ('A'
                <= c[k] && c[k] <= 'Z') || ('0' <= c[k] && c[k] <= '9'),
        end < c.len() ==> (c[end] as u32) < 0x80 && c[end] != '_' && !('a' <= c[end] && c[end]
            <= 'z') && !('A' <= c[end] && c[end] <= 'Z') && !('0' <= c[end] && c[end] <= '9'),
    ensures
        lex_one(c, i) == Ok::<(TokView, int), Seq<char>>((word_token(c.subrange(i, end)), end)),
{
    lemma_scan_word_to(c, i + 1, end);
}

proof fn lemma_scan_word_to(c: Seq<char>, i: int, end: int)
    requires
        0 <= i <= end <= c.len(),
        forall|k: int|
            i <= k < end ==> (#[trigger] c[k]) == '_' || ('a' <= c[k] && c[k] <= 'z') || ('A'
                <= c[k] && c[k] <= 'Z') || ('0' <= c[k] && c[k] <= '9'),
        end < c.len() ==> (c[end] as u32) < 0x80 && c[end] != '_' && !('a' <= c[end] && c[end]
            <= 'z') && !('A' <= c[end] && c[end] <= 'Z') && !('0' <= c[end] && c[end] <= '9'),
    ensures
        scan_word(c, i) == end,
    decreases end - i,
{
    if i < end {
        assert(word_char(c[i]) || c[i] == '_');
        lemma_scan_word_to(c, i + 1, end);
    }
}

/// A number is read up to the first character that is neither a digit nor a
/// dot, with a sign only directly before a digit; what does not denote a
/// number is refused.
pub proof fn law_numbers_are_read_whole(c: Seq<char>, i: int, end: int)
    requires
        0 <= i < end <= c.len(),
        ('0' <= c[i] && c[i] <= '9') || (c[i] == '-' && i + 1 < end && '0' <= c[i + 1] && c[i + 1]
            <= '9'),
        forall|k: int|
            i < k < end ==> (#[trigger] c[k]) == '.' || ('0' <= c[k] && c[k] <= '9'),
        end < c.len() ==> c[end] != '.' && !('0' <= c[end] && c[end] <= '9'),
    ensures
        lex_one(c, i) is Ok <==> double_literal(c.subrange(i, end)) is Some,
        lex_one(c, i) is Ok ==> lex_one(c, i)->Ok_0 == (TokView::Num(c.subrange(i, end)), end),
{
    lemma_scan_number_to(c, i + 1, end);
}

proof fn lemma_scan_number_to(c: Seq<char>, i: int, end: int)
    requires
        0 <= i <= end <= c.len(),
        forall|k: int|
            i <= k < end ==> (#[trigger] c[k]) == '.' || ('0' <= c[k] && c[k] <= '9'),
        end < c.len() ==> c[end] != '.' && !('0' <= c[end] && c[end] <= '9'),
    ensures
        scan_number(c, i) == end,
    decreases end - i,
{
    if i < end {
        assert(is_digit(c[i]) || c[i] == '.');
        lemma_scan_number_to(c, i + 1, end);
    }
}

/// Brackets, parentheses and dots are tokens of their own, and the tokens of a
/// text come one after another.
pub proof fn law_tokens_follow_each_other(c: Seq<char>, i: int)
    requires
        0 <= i < c.len(),
    ensures
        c[i] == '[' ==> lex_one(c, i)->Ok_0 == (TokView::LBracket, i + 1),
        c[i] == ']' ==> lex_one(c, i)->Ok_0 == (TokView::RBracket, i + 1),
        c[i] == '(' ==> lex_one(c, i)->Ok_0 == (TokView::LParen, i + 1),
        c[i] == ')' ==> lex_one(c, i)->Ok_0 == (TokView::RParen, i + 1),
        c[i] == '.' ==> lex_one(c, i)->Ok_0 == (TokView::Dot, i + 1),
        !space_char(c[i]) && lex_one(c, i) is Err ==> lex(c, i) is Err,
        !space_char(c[i]) && lex_one(c, i) is Ok && i < lex_one(c, i)->Ok_0.1 <= c.len() ==> {
            let rest = lex(c, lex_one(c, i)->Ok_0.1);
            &&& rest is Err ==> lex(c, i) is Err
            &&& rest is Ok ==> lex(c, i) is Ok && lex(c, i)->Ok_0.len() == rest->Ok_0.len() + 1
                && lex(c, i)->Ok_0[0] == lex_one(c, i)->Ok_0.0 && lex(c, i)->Ok_0.drop_first()
                == rest->Ok_0
        },
        lex(c, c.len() as int) == Ok::<Seq<TokView>, Seq<char>>(Seq::empty()),
{
    if !space_char(c[i]) && lex_one(c, i) is Ok && i < lex_one(c, i)->Ok_0.1 <= c.len() {
        let rest = lex(c, lex_one(c, i)->Ok_0.1);
        if rest is Ok {
            assert((seq![lex_one(c, i)->Ok_0.0] + rest->Ok_0).drop_first() =~= rest->Ok_0);
        }
    }
}

/// A number literal stands for the number that it denotes, or for null where
/// that is not finite.
pub proof fn law_number_literals_are_finite(number: Seq<char>, bits: u64)
    ensures
        double_literal(number) == Some(Some(bits)) ==> literal_value(number) == ValueView::Number(
            Number::Float(bits),
        ),
        double_literal(number) == Some(None::<u64>) ==> literal_value(number) == ValueView::Null,
{
}

/// Why a text has no token at a place: a quote is not closed, a lone `=` or `!`
/// is no operator, and what starts no token is named as it is.
pub proof fn law_broken_tokens_are_named(c: Seq<char>, i: int)
    requires
        0 <= i < c.len(),
    ensures
        (c[i] == '\'' || c[i] == '"') && (forall|k: int| i < k < c.len() ==> #[trigger] c[k] != c[i])
            ==> lex_one(c, i) == Err::<(TokView, int), Seq<char>>("unterminated string"@),
        c[i] == '=' && !(i + 1 < c.len() && c[i + 1] == '=') ==> lex_one(c, i) == Err::<
            (TokView, int),
            Seq<char>,
        >("invalid operator "@ + text::debug_text("="@)),
        c[i] == '!' && !(i + 1 < c.len() && c[i + 1] == '=') ==> lex_one(c, i) == Err::<
            (TokView, int),
            Seq<char>,
        >("invalid operator "@ + text::debug_text("!"@)),
        c[i] == '&' || c[i] == '|' || c[i] == '+' || c[i] == '*' || c[i] == '/' || c[i] == '%'
            || c[i] == ',' || c[i] == ';' || c[i] == ':' || c[i] == '?' || c[i] == '@' || c[i]
            == '#' || c[i] == '$' || c[i] == '^' || c[i] == '~' || c[i] == '`' || c[i] == '{'
            || c[i] == '}' || c[i] == '\\' ==> lex_one(c, i) == Err::<(TokView, int), Seq<char>>(
            "unexpected character "@ + debug_char(c[i]),
        ),
{
    if c[i] == '\'' || c[i] == '"' {
        if forall|k: int| i < k < c.len() ==> #[trigger] c[k] != c[i] {
            lemma_scan_quote_ends(c, i + 1, c[i]);
        }
    }
}

proof fn lemma_scan_quote_ends(c: Seq<char>, i: int, quote: char)
    requires
        0 <= i <= c.len(),
        forall|k: int| i <= k < c.len() ==> #[trigger] c[k] != quote,
    ensures
        scan_quote(c, i, quote) == c.len(),
    decreases c.len() - i,
{
    if i < c.len() {
        lemma_scan_quote_ends(c, i + 1, quote);
    }
}

/// Why a condition is malformed: what stands where an operand, a field name, a
/// key, a closing bracket or `in` is due is named, and so are names that mean
/// nothing and what is left over.
pub proof fn law_malformed_conditions_say_why(
    t: Seq<TokView>,
    p: int,
    name: Seq<char>,
    c: ContextView,
    expr: Seq<char>,
    value: ValueView,
)
    ensures
        tok_at(t, p) == Some(TokView::LBracket) && !(tok_at(t, p + 1) is Some && tok_at(
            t,
            p + 1,
        )->0 is Str) ==> lookup_from(t, p, name, c) == Err::<(ValueView, int), Seq<char>>(
            "expected string key, got "@ + tok_at_text(t, p + 1),
        ),
        tok_at(t, p) == Some(TokView::LBracket) && tok_at(t, p + 1) is Some && tok_at(
            t,
            p + 1,
        )->0 is Str && tok_at(t, p + 2) != Some(TokView::RBracket) ==> lookup_from(t, p, name, c)
            == Err::<(ValueView, int), Seq<char>>("expected ']'"@),
        tok_at(t, p) != Some(TokView::LBracket) && name != "input"@ ==> lookup_from(t, p, name, c)
            == Err::<(ValueView, int), Seq<char>>("unknown name "@ + text::debug_text(name)),
        tok_at(t, p) == Some(TokView::LBracket) && tok_at(t, p + 1) is Some && tok_at(
            t,
            p + 1,
        )->0 is Str && tok_at(t, p + 2) == Some(TokView::RBracket) && name != "results"@ && name
            != "variables"@ && name != "headers"@ && name != "input"@ ==> lookup_from(
            t,
            p,
            name,
            c,
        ) == Err::<(ValueView, int), Seq<char>>("unknown namespace "@ + text::debug_text(name)),
        tok_at(t, p) == Some(TokView::Dot) && !(tok_at(t, p + 1) is Some && tok_at(
            t,
            p + 1,
        )->0 is Ident) ==> fields_from(t, p, value) == Err::<(ValueView, int), Seq<char>>(
            "expected field name, got "@ + tok_at_text(t, p + 1),
        ),
        tok_at(t, p) is None || tok_at(t, p)->0 is And || tok_at(t, p)->0 is Or || tok_at(
            t,
            p,
        )->0 is Op || tok_at(t, p)->0 is RParen || tok_at(t, p)->0 is RBracket || tok_at(
            t,
            p,
        )->0 is LBracket || tok_at(t, p)->0 is Dot || tok_at(t, p)->0 is In || tok_at(
            t,
            p,
        )->0 is Not ==> operand_from(t, p, c) == Err::<(ValueView, int), Seq<char>>(
            "unexpected token "@ + tok_at_text(t, p),
        ),
        tok_at(t, p) == Some(TokView::LParen) && or_from(t, p + 1, c) is Ok && tok_at(
            t,
            or_from(t, p + 1, c)->Ok_0.1,
        ) != Some(TokView::RParen) ==> operand_from(t, p, c) == Err::<
            (ValueView, int),
            Seq<char>,
        >("expected ')'"@),
        ({
            let left = operand_from(t, p, c);
            let q = left->Ok_0.1;
            left is Ok && p < q <= t.len() && tok_at(t, q) == Some(TokView::Not) && tok_at(
                t,
                q + 1,
            ) != Some(TokView::In) ==> comparison_from(t, p, c) == Err::<
                (ValueView, int),
                Seq<char>,
            >("expected 'in' after 'not'"@)
        }),
        lex(expr, 0) is Ok && or_from(lex(expr, 0)->Ok_0, 0, c) is Ok && or_from(
            lex(expr, 0)->Ok_0,
            0,
            c,
        )->Ok_0.1 != lex(expr, 0)->Ok_0.len() ==> condition_result(expr, c) == Err::<
            bool,
            Seq<char>,
        >("unexpected trailing tokens in "@ + text::debug_text(expr)),
{
}

/// How messages show the token at a place: by its kind, with the text, the
/// number or the operator that it carries, and `None` past the end.
pub proof fn law_messages_show_tokens(t: Seq<TokView>, p: int)
    ensures
        !(0 <= p < t.len()) ==> tok_at_text(t, p) == "None"@,
        0 <= p < t.len() ==> tok_at_text(t, p) == "Some("@ + (match t[p] {
            TokView::Ident(name) => "Ident("@ + text::debug_text(name) + ")"@,
            TokView::Str(s) => "Str("@ + text::debug_text(s) + ")"@,
            TokView::Num(n) => "Num("@ + debug_double(n) + ")"@,
            TokView::Bool(b) => if b {
                "Bool(true)"@
            } else {
                "Bool(false)"@
            },
            TokView::Null => "Null"@,
            TokView::LBracket => "LBracket"@,
            TokView::RBracket => "RBracket"@,
            TokView::LParen => "LParen"@,
            TokView::RParen => "RParen"@,
            TokView::Dot => "Dot"@,
            TokView::Op(op) => "Op("@ + text::debug_text(op_text(op)) + ")"@,
            TokView::And => "And"@,
            TokView::Or => "Or"@,
            TokView::Not => "Not"@,
            TokView::In => "In"@,
        }) + ")"@,
{
}

/// Further members of a conjunction, of a disjunction and of a chain of field
/// accesses are taken up one after another, from the left.
pub proof fn law_chains_are_read_from_the_left(
    t: Seq<TokView>,
    p: int,
    left: ValueView,
    c: ContextView,
)
    ensures
        ({
            let next = not_from(t, p + 1, c);
            let q = next->Ok_0.1;
            tok_at(t, p) == Some(TokView::And) && next is Ok && p < q <= t.len() ==> and_rest(
                t,
                p,
                left,
                c,
            ) == and_rest(
                t,
                q,
                ValueView::Bool(value::truth(left) && value::truth(next->Ok_0.0)),
                c,
            )
        }),
        ({
            let next = and_from(t, p + 1, c);
            let q = next->Ok_0.1;
            tok_at(t, p) == Some(TokView::Or) && next is Ok && p < q <= t.len() ==> or_rest(
                t,
                p,
                left,
                c,
            ) == or_rest(
                t,
                q,
                ValueView::Bool(value::truth(left) || value::truth(next->Ok_0.0)),
                c,
            )
        }),
        tok_at(t, p) != Some(TokView::And) ==> and_rest(t, p, left, c) == Ok::<
            (ValueView, int),
            Seq<char>,
        >((left, p)),
        tok_at(t, p) != Some(TokView::Or) ==> or_rest(t, p, left, c) == Ok::<
            (ValueView, int),
            Seq<char>,
        >((left, p)),
        tok_at(t, p) == Some(TokView::Dot) ==> (tok_at(t, p + 1) matches Some(
            TokView::Ident(field),
        ) ==> fields_from(t, p, left) == fields_from(
            t,
            p + 2,
            match value::field_of(left, field) {
                Some(v) => v,
                None => ValueView::Null,
            },
        )),
        tok_at(t, p) != Some(TokView::Dot) ==> fields_from(t, p, left) == Ok::<
            (ValueView, int),
            Seq<char>,
        >((left, p)),
{
}

} // verus!
