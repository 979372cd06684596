//! Lexical analysis: source text to a sequence of positioned tokens.
//!
//! The scanner walks the input once, left to right, keeping the current line
//! and column.  Single characters map directly to tokens; two-character
//! operators use greedy longest-match; string, character and numeric literals
//! and identifiers consume maximal runs.  Unrecognized characters are
//! silently skipped.  Every emitted token carries the source span it
//! occupied.

use crate::positioned::Position;
use crate::positioned::Positioned;
use crate::positioned::Spanned;
use crate::value::spec_value;
use crate::value::str_eq;
use crate::value::SpecValue;
use crate::value::Value;
use vstd::prelude::*;

verus! {

/// A diagnostic: a message and the source range it points at.
#[derive(Debug)]
pub struct Error {
    pub msg: String,
    pub start: Position,
    pub end: Position,
}

/// The mathematical image of an `Error`.
pub ghost struct SpecError {
    pub msg: Seq<char>,
    pub start: Position,
    pub end: Position,
}

impl View for Error {
    type V = SpecError;

    open spec fn view(&self) -> SpecError {
        SpecError { msg: self.msg@, start: self.start, end: self.end }
    }
}

/// A keyword of the language; an identifier spelled like one lexes as the
/// keyword, never as an identifier.
#[derive(Debug, Clone, Copy, PartialEq, Eq, Structural)]
pub enum Keyword {
    Fn,
    Rule,
    Sys,
    Float,
    Int,
    String,
    Char,
    Return,
    For,
    In,
    If,
    Array,
}

/// A lexical token.
#[derive(Debug)]
pub enum Token {
    Comma,
    Colon,
    Semicolon,
    Period,
    Tilde,
    Minus,
    Plus,
    Asterisk,
    Slash,
    Carat,
    Mod,
    OpenBrace,
    CloseBrace,
    OpenBracket,
    CloseBracket,
    OpenParen,
    CloseParen,
    Define,
    Arrow,
    Or,
    And,
    Not,
    Equals,
    NotEquals,
    Greater,
    Lesser,
    GreaterThan,
    LesserThan,
    Pipe,
    Pipeline,
    At,
    Sign,
    Hash,
    Underscore,
    Literal(Value),
    Keyword(Keyword),
    Identifier(String),
    EOF,
}

/// The mathematical image of a `Token`.
pub ghost enum SpecToken {
    Comma,
    Colon,
    Semicolon,
    Period,
    Tilde,
    Minus,
    Plus,
    Asterisk,
    Slash,
    Carat,
    Mod,
    OpenBrace,
    CloseBrace,
    OpenBracket,
    CloseBracket,
    OpenParen,
    CloseParen,
    Define,
    Arrow,
    Or,
    And,
    Not,
    Equals,
    NotEquals,
    Greater,
    Lesser,
    GreaterThan,
    LesserThan,
    Pipe,
    Pipeline,
    At,
    Sign,
    Hash,
    Underscore,
    Literal(SpecValue),
    Keyword(Keyword),
    Identifier(Seq<char>),
    EOF,
}

/// The image of a character value is that character's image.
pub proof fn lemma_char_value(c: char)
    ensures
        spec_value(Value::Char(c)) == SpecValue::Char(c),
{
}

/// The image of one token.
pub open spec fn spec_token(t: Token) -> SpecToken {
    match t {
        Token::Comma => SpecToken::Comma,
        Token::Colon => SpecToken::Colon,
        Token::Semicolon => SpecToken::Semicolon,
        Token::Period => SpecToken::Period,
        Token::Tilde => SpecToken::Tilde,
        Token::Minus => SpecToken::Minus,
        Token::Plus => SpecToken::Plus,
        Token::Asterisk => SpecToken::Asterisk,
        Token::Slash => SpecToken::Slash,
        Token::Carat => SpecToken::Carat,
        Token::Mod => SpecToken::Mod,
        Token::OpenBrace => SpecToken::OpenBrace,
        Token::CloseBrace => SpecToken::CloseBrace,
        Token::OpenBracket => SpecToken::OpenBracket,
        Token::CloseBracket => SpecToken::CloseBracket,
        Token::OpenParen => SpecToken::OpenParen,
        Token::CloseParen => SpecToken::CloseParen,
        Token::Define => SpecToken::Define,
        Token::Arrow => SpecToken::Arrow,
        Token::Or => SpecToken::Or,
        Token::And => SpecToken::And,
        Token::Not => SpecToken::Not,
        Token::Equals => SpecToken::Equals,
        Token::NotEquals => SpecToken::NotEquals,
        Token::Greater => SpecToken::Greater,
        Token::Lesser => SpecToken::Lesser,
        Token::GreaterThan => SpecToken::GreaterThan,
        Token::LesserThan => SpecToken::LesserThan,
        Token::Pipe => SpecToken::Pipe,
        Token::Pipeline => SpecToken::Pipeline,
        Token::At => SpecToken::At,
        Token::Sign => SpecToken::Sign,
        Token::Hash => SpecToken::Hash,
        Token::Underscore => SpecToken::Underscore,
        Token::Literal(v) => SpecToken::Literal(spec_value(v)),
        Token::Keyword(k) => SpecToken::Keyword(k),
        Token::Identifier(s) => SpecToken::Identifier(s@),
        Token::EOF => SpecToken::EOF,
    }
}

impl View for Token {
    type V = SpecToken;

    open spec fn view(&self) -> SpecToken {
        spec_token(*self)
    }
}

impl Clone for Token {
    /// A deep copy with the same image.
    fn clone(&self) -> (r: Self)
        ensures
            r@ == self@,
    {
        match self {
            Token::Comma => Token::Comma,
            Token::Colon => Token::Colon,
            Token::Semicolon => Token::Semicolon,
            Token::Period => Token::Period,
            Token::Tilde => Token::Tilde,
            Token::Minus => Token::Minus,
            Token::Plus => Token::Plus,
            Token::Asterisk => Token::Asterisk,
            Token::Slash => Token::Slash,
            Token::Carat => Token::Carat,
            Token::Mod => Token::Mod,
            Token::OpenBrace => Token::OpenBrace,
            Token::CloseBrace => Token::CloseBrace,
            Token::OpenBracket => Token::OpenBracket,
            Token::CloseBracket => Token::CloseBracket,
            Token::OpenParen => Token::OpenParen,
            Token::CloseParen => Token::CloseParen,
            Token::Define => Token::Define,
            Token::Arrow => Token::Arrow,
            Token::Or => Token::Or,
            Token::And => Token::And,
            Token::Not => Token::Not,
            Token::Equals => Token::Equals,
            Token::NotEquals => Token::NotEquals,
            Token::Greater => Token::Greater,
            Token::Lesser => Token::Lesser,
            Token::GreaterThan => Token::GreaterThan,
            Token::LesserThan => Token::LesserThan,
            Token::Pipe => Token::Pipe,
            Token::Pipeline => Token::Pipeline,
            Token::At => Token::At,
            Token::Sign => Token::Sign,
            Token::Hash => Token::Hash,
            Token::Underscore => Token::Underscore,
            Token::Literal(v) => Token::Literal(v.clone()),
            Token::Keyword(k) => Token::Keyword(*k),
            Token::Identifier(s) => Token::Identifier(s.clone()),
            Token::EOF => Token::EOF,
        }
    }
}

/// A positioned token.
pub type PToken = Positioned<Token>;

/// A deep copy of a positioned token, image preserved.
pub fn clone_ptoken(t: &PToken) -> (r: PToken)
    ensures
        r@ == t@,
{
    Positioned { inner: t.inner.clone(), start: t.start, end: t.end }
}

/// The name of a token's variant, for diagnostics.
pub open spec fn spec_token_name(t: SpecToken) -> Seq<char> {
    match t {
        SpecToken::Comma => "Comma"@,
        SpecToken::Colon => "Colon"@,
        SpecToken::Semicolon => "Semicolon"@,
        SpecToken::Period => "Period"@,
        SpecToken::Tilde => "Tilde"@,
        SpecToken::Minus => "Minus"@,
        SpecToken::Plus => "Plus"@,
        SpecToken::Asterisk => "Asterisk"@,
        SpecToken::Slash => "Slash"@,
        SpecToken::Carat => "Carat"@,
        SpecToken::Mod => "Mod"@,
        SpecToken::OpenBrace => "OpenBrace"@,
        SpecToken::CloseBrace => "CloseBrace"@,
        SpecToken::OpenBracket => "OpenBracket"@,
        SpecToken::CloseBracket => "CloseBracket"@,
        SpecToken::OpenParen => "OpenParen"@,
        SpecToken::CloseParen => "CloseParen"@,
        SpecToken::Define => "Define"@,
        SpecToken::Arrow => "Arrow"@,
        SpecToken::Or => "Or"@,
        SpecToken::And => "And"@,
        SpecToken::Not => "Not"@,
        SpecToken::Equals => "Equals"@,
        SpecToken::NotEquals => "NotEquals"@,
        SpecToken::Greater => "Greater"@,
        SpecToken::Lesser => "Lesser"@,
        SpecToken::GreaterThan => "GreaterThan"@,
        SpecToken::LesserThan => "LesserThan"@,
        SpecToken::Pipe => "Pipe"@,
        SpecToken::Pipeline => "Pipeline"@,
        SpecToken::At => "At"@,
        SpecToken::Sign => "Sign"@,
        SpecToken::Hash => "Hash"@,
        SpecToken::Underscore => "Underscore"@,
        SpecToken::Literal(_) => "Literal"@,
        SpecToken::Keyword(_) => "Keyword"@,
        SpecToken::Identifier(_) => "Identifier"@,
        SpecToken::EOF => "EOF"@,
    }
}

impl Token {
    /// The name of the token's variant, for diagnostics.
    pub fn name(&self) -> (r: &'static str)
        ensures
            r@ == spec_token_name(self@),
    {
        match self {
            Token::Comma => "Comma",
            Token::Colon => "Colon",
            Token::Semicolon => "Semicolon",
            Token::Period => "Period",
            Token::Tilde => "Tilde",
            Token::Minus => "Minus",
            Token::Plus => "Plus",
            Token::Asterisk => "Asterisk",
            Token::Slash => "Slash",
            Token::Carat => "Carat",
            Token::Mod => "Mod",
            Token::OpenBrace => "OpenBrace",
            Token::CloseBrace => "CloseBrace",
            Token::OpenBracket => "OpenBracket",
            Token::CloseBracket => "CloseBracket",
            Token::OpenParen => "OpenParen",
            Token::CloseParen => "CloseParen",
            Token::Define => "Define",
            Token::Arrow => "Arrow",
            Token::Or => "Or",
            Token::And => "And",
            Token::Not => "Not",
            Token::Equals => "Equals",
            Token::NotEquals => "NotEquals",
            Token::Greater => "Greater",
            Token::Lesser => "Lesser",
            Token::GreaterThan => "GreaterThan",
            Token::LesserThan => "LesserThan",
            Token::Pipe => "Pipe",
            Token::Pipeline => "Pipeline",
            Token::At => "At",
            Token::Sign => "Sign",
            Token::Hash => "Hash",
            Token::Underscore => "Underscore",
            Token::Literal(_) => "Literal",
            Token::Keyword(_) => "Keyword",
            Token::Identifier(_) => "Identifier",
            Token::EOF => "EOF",
        }
    }

    /// Whether this is the end-of-input sentinel.
    pub fn is_eof(&self) -> (r: bool)
        ensures
            r == (self@ is EOF),
    {
        matches!(self, Token::EOF)
    }
}

/// Relies on `char::is_alphanumeric` from std: whether a character is
/// alphanumeric in Unicode; the result depends on the character alone.
pub uninterp spec fn char_alphanumeric(c: char) -> bool;

/// Relies on `char::is_alphanumeric`: the Unicode alphanumeric test, named
/// `char_alphanumeric` in specifications.
#[verifier::external_body]
fn exec_char_alphanumeric(c: char) -> (r: bool)
    ensures
        r == char_alphanumeric(c),
{
    c.is_alphanumeric()
}

/// Relies on `char::is_numeric` from std: whether a character is numeric in
/// Unicode; the result depends on the character alone.
pub uninterp spec fn char_numeric(c: char) -> bool;

/// Relies on `char::is_numeric`: the Unicode numeric test, named
/// `char_numeric` in specifications.
#[verifier::external_body]
fn exec_char_numeric(c: char) -> (r: bool)
    ensures
        r == char_numeric(c),
{
    c.is_numeric()
}

/// A character that may continue an identifier: an underscore or a Unicode
/// alphanumeric.
pub open spec fn spec_is_alphanumeric(c: char) -> bool {
    c == '_' || char_alphanumeric(c)
}

/// A character that may continue an identifier, as `spec_is_alphanumeric`.
pub fn is_alphanumeric(c: char) -> (r: bool)
    ensures
        r == spec_is_alphanumeric(c),
{
    if c == '_' {
        return true;
    }
    exec_char_alphanumeric(c)
}

/// A character that may continue a numeric literal: a Unicode numeric, a
/// decimal point, or an underscore separator.
pub open spec fn spec_is_number_char(c: char) -> bool {
    char_numeric(c) || c == '.' || c == '_'
}

/// A character that may continue a numeric literal, as
/// `spec_is_number_char`.
pub fn is_number_char(c: char) -> (r: bool)
    ensures
        r == spec_is_number_char(c),
{
    if c == '.' || c == '_' {
        return true;
    }
    exec_char_numeric(c)
}

/// Relies on `String::push` from std: appends one character to the string.
#[verifier::external_body]
pub fn push_char(s: &mut String, c: char)
    ensures
        final(s)@ == old(s)@.push(c),
{
    s.push(c);
}

/// A `String` holding exactly the given characters.
pub fn string_from_chars(chars: &Vec<char>) -> (r: String)
    ensures
        r@ == chars@,
{
    let mut out = String::new();
    let mut i: usize = 0;
    while i < chars.len()
        invariant
            i <= chars.len(),
            out@ == chars@.subrange(0, i as int),
        decreases chars.len() - i,
    {
        push_char(&mut out, chars[i]);
        proof {
            assert(out@ =~= chars@.subrange(0, i + 1));
        }
        i = i + 1;
    }
    proof {
        assert(chars@.subrange(0, chars@.len() as int) =~= chars@);
    }
    out
}

/// The position after reading one character: a newline starts the next
/// line, anything else moves one column right.
pub open spec fn spec_advance(p: Position, c: char) -> Position {
    if c == '\n' {
        Position { line: (p.line + 1) as usize, col: 1, end: p.end }
    } else {
        Position { line: p.line, col: (p.col + 1) as usize, end: p.end }
    }
}

/// The position after reading the first `k` characters of `p`.
pub open spec fn spec_pos_at(p: Seq<char>, k: int) -> Position
    decreases k,
{
    if k <= 0 {
        Position { line: 1, col: 1, end: false }
    } else {
        spec_advance(spec_pos_at(p, k - 1), p[k - 1])
    }
}

/// Line and column after `k` characters stay within `k + 2`, so position
/// arithmetic never overflows while the text fits in memory.
pub proof fn lemma_pos_at_bounds(p: Seq<char>, k: int)
    requires
        0 <= k <= p.len(),
        p.len() + 2 <= usize::MAX,
    ensures
        1 <= spec_pos_at(p, k).line,
        1 <= spec_pos_at(p, k).col,
        spec_pos_at(p, k).line + spec_pos_at(p, k).col <= k + 2,
        !spec_pos_at(p, k).end,
    decreases k,
{
    if k > 0 {
        lemma_pos_at_bounds(p, k - 1);
    }
}

/// The end of the identifier run that starts at `i`: the first index at or
/// after `i` holding a character that cannot continue an identifier, or the
/// end of the text.
pub open spec fn spec_ident_end(p: Seq<char>, i: int) -> int
    decreases p.len() - i when 0 <= i <= p.len()
{
    if i < p.len() && spec_is_alphanumeric(p[i]) {
        spec_ident_end(p, i + 1)
    } else {
        i
    }
}

/// The end of the numeric-literal run that starts at `i`.
pub open spec fn spec_number_end(p: Seq<char>, i: int) -> int
    decreases p.len() - i when 0 <= i <= p.len()
{
    if i < p.len() && spec_is_number_char(p[i]) {
        spec_number_end(p, i + 1)
    } else {
        i
    }
}

/// The index of the closing double quote at or after `i`, or the end of the
/// text if there is none.
pub open spec fn spec_string_end(p: Seq<char>, i: int) -> int
    decreases p.len() - i when 0 <= i <= p.len()
{
    if i < p.len() && p[i] != '"' {
        spec_string_end(p, i + 1)
    } else {
        i
    }
}

/// The index of the newline that ends a line comment, or the end of the
/// text.
pub open spec fn spec_comment_end(p: Seq<char>, i: int) -> int
    decreases p.len() - i when 0 <= i <= p.len()
{
    if i < p.len() && p[i] != '\n' {
        spec_comment_end(p, i + 1)
    } else {
        i
    }
}

/// Each run scanner lands between its start and the end of the text.
pub proof fn lemma_run_end_bounds(p: Seq<char>, i: int)
    requires
        0 <= i <= p.len(),
    ensures
        i <= spec_ident_end(p, i) <= p.len(),
        i <= spec_number_end(p, i) <= p.len(),
        i <= spec_string_end(p, i) <= p.len(),
        i <= spec_comment_end(p, i) <= p.len(),
    decreases p.len() - i,
{
    if i < p.len() {
        lemma_run_end_bounds(p, i + 1);
    }
}

/// The keyword spelled by the given characters, if any.
pub open spec fn spec_keyword(s: Seq<char>) -> Option<Keyword> {
    if s == "fn"@ {
        Some(Keyword::Fn)
    } else if s == "rule"@ {
        Some(Keyword::Rule)
    } else if s == "sys"@ {
        Some(Keyword::Sys)
    } else if s == "float"@ {
        Some(Keyword::Float)
    } else if s == "int"@ {
        Some(Keyword::Int)
    } else if s == "string"@ {
        Some(Keyword::String)
    } else if s == "char"@ {
        Some(Keyword::Char)
    } else if s == "return"@ {
        Some(Keyword::Return)
    } else if s == "for"@ {
        Some(Keyword::For)
    } else if s == "in"@ {
        Some(Keyword::In)
    } else if s == "if"@ {
        Some(Keyword::If)
    } else if s == "array"@ {
        Some(Keyword::Array)
    } else {
        None
    }
}

/// The keyword spelled by `word`, as `spec_keyword`.
pub fn keyword_from_str(word: &str) -> (r: Option<Keyword>)
    ensures
        r == spec_keyword(word@),
{
    if str_eq(word, "fn") {
        Some(Keyword::Fn)
    } else if str_eq(word, "rule") {
        Some(Keyword::Rule)
    } else if str_eq(word, "sys") {
        Some(Keyword::Sys)
    } else if str_eq(word, "float") {
        Some(Keyword::Float)
    } else if str_eq(word, "int") {
        Some(Keyword::Int)
    } else if str_eq(word, "string") {
        Some(Keyword::String)
    } else if str_eq(word, "char") {
        Some(Keyword::Char)
    } else if str_eq(word, "return") {
        Some(Keyword::Return)
    } else if str_eq(word, "for") {
        Some(Keyword::For)
    } else if str_eq(word, "in") {
        Some(Keyword::In)
    } else if str_eq(word, "if") {
        Some(Keyword::If)
    } else if str_eq(word, "array") {
        Some(Keyword::Array)
    } else {
        None
    }
}

/// How many times `c` occurs in `s`.
pub open spec fn spec_count(s: Seq<char>, c: char) -> int
    decreases s.len(),
{
    if s.len() == 0 {
        0
    } else {
        spec_count(s.drop_last(), c) + if s.last() == c {
            1int
        } else {
            0int
        }
    }
}

/// `s` with every underscore separator removed.
pub open spec fn spec_strip_separators(s: Seq<char>) -> Seq<char>
    decreases s.len(),
{
    if s.len() == 0 {
        Seq::empty()
    } else if s.last() == '_' {
        spec_strip_separators(s.drop_last())
    } else {
        spec_strip_separators(s.drop_last()).push(s.last())
    }
}

/// Every character of `s` is a decimal digit.
pub open spec fn spec_all_digits(s: Seq<char>) -> bool {
    forall|k: int|
        0 <= k < s.len() ==> ('0' as u32) <= (#[trigger] s[k] as u32) <= ('9' as u32)
}

/// The number spelled by a sequence of decimal digits.
pub open spec fn spec_digits_value(s: Seq<char>) -> int
    decreases s.len(),
{
    if s.len() == 0 {
        0
    } else {
        spec_digits_value(s.drop_last()) * 10 + (s.last() as u32 - '0' as u32)
    }
}

/// A digit string's value is never negative.
pub proof fn lemma_digits_value_nonneg(s: Seq<char>)
    requires
        spec_all_digits(s),
    ensures
        spec_digits_value(s) >= 0,
    decreases s.len(),
{
    if s.len() > 0 {
        assert(spec_all_digits(s.drop_last()));
        lemma_digits_value_nonneg(s.drop_last());
    }
}

/// Reading more digits never shrinks the value.
pub proof fn lemma_digits_value_monotone(s: Seq<char>, i: int)
    requires
        0 <= i <= s.len(),
        spec_all_digits(s),
    ensures
        spec_digits_value(s.subrange(0, i)) <= spec_digits_value(s),
    decreases s.len() - i,
{
    assert(spec_all_digits(s.subrange(0, i)));
    if i < s.len() {
        lemma_digits_value_monotone(s, i + 1);
        let t = s.subrange(0, i + 1);
        assert(t.drop_last() =~= s.subrange(0, i));
        lemma_digits_value_nonneg(t.drop_last());
    } else {
        assert(s.subrange(0, i) =~= s);
    }
}

/// What a numeric literal lexes to: underscore separators are stripped; more
/// than one decimal point, any decimal point (float literals stay outside
/// the verified core), a non-decimal digit, or a value over 255 each fail
/// with the stated message; otherwise the literal's 8-bit value.
pub open spec fn spec_number(s: Seq<char>) -> Result<u8, Seq<char>> {
    let cleaned = spec_strip_separators(s);
    if spec_count(s, '.') >= 2 {
        Err("More than one decimal point found in number"@)
    } else if spec_count(s, '.') == 1 {
        Err("Float literals are not supported"@)
    } else if !spec_all_digits(cleaned) {
        Err("Invalid digit in number"@)
    } else if spec_digits_value(cleaned) > 255 {
        Err("Number does not fit in a cell value"@)
    } else {
        Ok(spec_digits_value(cleaned) as u8)
    }
}

/// A decimal digit.
pub open spec fn spec_is_digit(c: char) -> bool {
    ('0' as u32) <= (c as u32) <= ('9' as u32)
}

/// A character that may start an identifier: an ASCII letter or an
/// underscore.
pub open spec fn spec_is_ident_start(c: char) -> bool {
    ||| ('a' as u32) <= (c as u32) <= ('z' as u32)
    ||| ('A' as u32) <= (c as u32) <= ('Z' as u32)
    ||| c == '_'
}

/// The token for a character that lexes alone, if it is one.
pub open spec fn spec_single_token(c: char) -> Option<SpecToken> {
    if c == ',' {
        Some(SpecToken::Comma)
    } else if c == ':' {
        Some(SpecToken::Colon)
    } else if c == ';' {
        Some(SpecToken::Semicolon)
    } else if c == '.' {
        Some(SpecToken::Period)
    } else if c == '~' {
        Some(SpecToken::Tilde)
    } else if c == '-' {
        Some(SpecToken::Minus)
    } else if c == '+' {
        Some(SpecToken::Plus)
    } else if c == '*' {
        Some(SpecToken::Asterisk)
    } else if c == '^' {
        Some(SpecToken::Carat)
    } else if c == '%' {
        Some(SpecToken::Mod)
    } else if c == '{' {
        Some(SpecToken::OpenBrace)
    } else if c == '}' {
        Some(SpecToken::CloseBrace)
    } else if c == '[' {
        Some(SpecToken::OpenBracket)
    } else if c == ']' {
        Some(SpecToken::CloseBracket)
    } else if c == '(' {
        Some(SpecToken::OpenParen)
    } else if c == ')' {
        Some(SpecToken::CloseParen)
    } else if c == '@' {
        Some(SpecToken::At)
    } else if c == '$' {
        Some(SpecToken::Sign)
    } else if c == '#' {
        Some(SpecToken::Hash)
    } else {
        None
    }
}

/// The token for a character that lexes alone, as `spec_single_token`.
pub fn single_token(c: char) -> (r: Option<Token>)
    ensures
        match r {
            Some(t) => spec_single_token(c) == Some(t@),
            None => spec_single_token(c) is None,
        },
{
    match c {
        ',' => Some(Token::Comma),
        ':' => Some(Token::Colon),
        ';' => Some(Token::Semicolon),
        '.' => Some(Token::Period),
        '~' => Some(Token::Tilde),
        '-' => Some(Token::Minus),
        '+' => Some(Token::Plus),
        '*' => Some(Token::Asterisk),
        '^' => Some(Token::Carat),
        '%' => Some(Token::Mod),
        '{' => Some(Token::OpenBrace),
        '}' => Some(Token::CloseBrace),
        '[' => Some(Token::OpenBracket),
        ']' => Some(Token::CloseBracket),
        '(' => Some(Token::OpenParen),
        ')' => Some(Token::CloseParen),
        '@' => Some(Token::At),
        '$' => Some(Token::Sign),
        '#' => Some(Token::Hash),
        _ => None,
    }
}

/// A decimal digit, as `spec_is_digit`.
pub fn is_digit(c: char) -> (r: bool)
    ensures
        r == spec_is_digit(c),
{
    let u = c as u32;
    '0' as u32 <= u && u <= '9' as u32
}

/// A character that may start an identifier, as `spec_is_ident_start`.
pub fn is_ident_start(c: char) -> (r: bool)
    ensures
        r == spec_is_ident_start(c),
{
    let u = c as u32;
    ('a' as u32 <= u && u <= 'z' as u32) || ('A' as u32 <= u && u <= 'Z' as u32) || c == '_'
}

/// What one scanning step does, starting at index `i` of `p`: the index
/// after everything the step consumed, and either a positioned token, or
/// nothing (whitespace, comments, ignored characters), or a diagnostic.
pub ghost struct LexStep {
    pub next: int,
    pub out: Result<Option<Spanned<SpecToken>>, SpecError>,
}

/// A step that emits one token spanning indices `i..j` of `p`: its span
/// starts after the token's first character and ends after its last one.
pub open spec fn spec_step_token(p: Seq<char>, i: int, j: int, t: SpecToken) -> LexStep {
    LexStep {
        next: j,
        out: Ok(
            Some(Spanned { inner: t, start: spec_pos_at(p, i + 1), end: spec_pos_at(p, j) }),
        ),
    }
}

/// A step that fails with a diagnostic after consuming up to index `j`.
pub open spec fn spec_step_error(p: Seq<char>, i: int, j: int, msg: Seq<char>) -> LexStep {
    LexStep {
        next: j,
        out: Err(SpecError { msg: msg, start: spec_pos_at(p, i + 1), end: spec_pos_at(p, j) }),
    }
}

/// One scanning step at index `i` of `p` (meaningful for `i` inside `p`):
/// single characters map directly; two-character operators use greedy
/// longest-match; string, character and numeric literals and identifiers
/// consume maximal runs; `//` consumes a comment through end of line; an
/// unterminated string or character literal fails; anything else is skipped.
pub open spec fn spec_step(p: Seq<char>, i: int) -> LexStep {
    let c = p[i];
    if spec_single_token(c) is Some {
        spec_step_token(p, i, i + 1, spec_single_token(c)->Some_0)
    } else if c == '&' {
        if i + 1 < p.len() && p[i + 1] == '&' {
            spec_step_token(p, i, i + 2, SpecToken::And)
        } else {
            LexStep { next: i + 1, out: Ok(None) }
        }
    } else if c == '|' {
        if i + 1 < p.len() && p[i + 1] == '>' {
            spec_step_token(p, i, i + 2, SpecToken::Pipeline)
        } else if i + 1 < p.len() && p[i + 1] == '|' {
            spec_step_token(p, i, i + 2, SpecToken::Or)
        } else {
            spec_step_token(p, i, i + 1, SpecToken::Pipe)
        }
    } else if c == '>' {
        if i + 1 < p.len() && p[i + 1] == '=' {
            spec_step_token(p, i, i + 2, SpecToken::GreaterThan)
        } else {
            spec_step_token(p, i, i + 1, SpecToken::Greater)
        }
    } else if c == '<' {
        if i + 1 < p.len() && p[i + 1] == '=' {
            spec_step_token(p, i, i + 2, SpecToken::LesserThan)
        } else {
            spec_step_token(p, i, i + 1, SpecToken::Lesser)
        }
    } else if c == '=' {
        if i + 1 < p.len() && p[i + 1] == '=' {
            spec_step_token(p, i, i + 2, SpecToken::Equals)
        } else if i + 1 < p.len() && p[i + 1] == '>' {
            spec_step_token(p, i, i + 2, SpecToken::Arrow)
        } else {
            spec_step_token(p, i, i + 1, SpecToken::Define)
        }
    } else if c == '!' {
        if i + 1 < p.len() && p[i + 1] == '=' {
            spec_step_token(p, i, i + 2, SpecToken::NotEquals)
        } else {
            spec_step_token(p, i, i + 1, SpecToken::Not)
        }
    } else if c == '"' {
        let e = spec_string_end(p, i + 1);
        if e >= p.len() {
            spec_step_error(p, i, p.len() as int, "EOF found unexpectedly"@)
        } else {
            spec_step_token(
                p,
                i,
                e + 1,
                SpecToken::Literal(SpecValue::String(p.subrange(i + 1, e))),
            )
        }
    } else if c == '\'' {
        if i + 1 >= p.len() {
            spec_step_error(p, i, i + 1, "EOF found unexpectedly"@)
        } else if i + 2 >= p.len() {
            spec_step_error(p, i, i + 2, "EOF found unexpectedly"@)
        } else if p[i + 2] == '\'' {
            spec_step_token(p, i, i + 3, SpecToken::Literal(SpecValue::Char(p[i + 1])))
        } else {
            spec_step_error(p, i, i + 3, "Char closing tag not found."@)
        }
    } else if c == '/' {
        if i + 1 < p.len() && p[i + 1] == '/' {
            LexStep { next: spec_comment_end(p, i + 2), out: Ok(None) }
        } else {
            spec_step_token(p, i, i + 1, SpecToken::Slash)
        }
    } else if spec_is_digit(c) {
        let e = spec_number_end(p, i + 1);
        match spec_number(p.subrange(i, e)) {
            Ok(n) => spec_step_token(p, i, e, SpecToken::Literal(SpecValue::Int(n))),
            Err(m) => spec_step_error(p, i, e, m),
        }
    } else if spec_is_ident_start(c) {
        let e = spec_ident_end(p, i + 1);
        let w = p.subrange(i, e);
        let t = if w == "_"@ {
            SpecToken::Underscore
        } else {
            match spec_keyword(w) {
                Some(k) => SpecToken::Keyword(k),
                None => SpecToken::Identifier(w),
            }
        };
        spec_step_token(p, i, e, t)
    } else {
        LexStep { next: i + 1, out: Ok(None) }
    }
}

/// Every step consumes at least one character and stays inside the text.
pub proof fn lemma_step_bounds(p: Seq<char>, i: int)
    requires
        0 <= i < p.len(),
    ensures
        i < spec_step(p, i).next <= p.len(),
{
    lemma_run_end_bounds(p, i + 1);
    if i + 2 <= p.len() {
        lemma_run_end_bounds(p, i + 2);
    }
}

/// The tokens of `p` from index `i` on, with the diagnostic instead if
/// scanning fails.
pub open spec fn spec_scan(p: Seq<char>, i: int) -> Result<Seq<Spanned<SpecToken>>, SpecError>
    decreases p.len() - i when 0 <= i <= p.len()
{
    if i >= p.len() {
        Ok(Seq::empty())
    } else {
        let st = spec_step(p, i);
        if !(i < st.next <= p.len()) {
            Err(SpecError { msg: Seq::empty(), start: spec_pos_at(p, i), end: spec_pos_at(p, i) })
        } else {
            match st.out {
                Err(e) => Err(e),
                Ok(opt) => match spec_scan(p, st.next) {
                    Err(e2) => Err(e2),
                    Ok(rest) => Ok(
                        match opt {
                            Some(t) => seq![t] + rest,
                            None => rest,
                        },
                    ),
                },
            }
        }
    }
}

/// The images of a sequence of positioned tokens, element by element.
pub open spec fn spec_ptoken_views(s: Seq<PToken>) -> Seq<Spanned<SpecToken>>
    decreases s.len(),
{
    if s.len() == 0 {
        Seq::empty()
    } else {
        spec_ptoken_views(s.drop_last()).push(s.last()@)
    }
}

/// Appending one token extends the pointwise image by that token's image.
pub proof fn lemma_ptoken_views_push(s: Seq<PToken>, t: PToken)
    ensures
        spec_ptoken_views(s.push(t)) == spec_ptoken_views(s).push(t@),
{
    assert(s.push(t).drop_last() =~= s);
    assert(s.push(t).last() == t);
}

/// `spec_ptoken_views` indexes pointwise.
pub proof fn lemma_ptoken_views_index(s: Seq<PToken>, i: int)
    requires
        0 <= i < s.len(),
    ensures
        spec_ptoken_views(s).len() == s.len(),
        spec_ptoken_views(s)[i] == s[i]@,
    decreases s.len(),
{
    if s.len() > 0 {
        lemma_ptoken_views_len(s.drop_last());
        if i < s.len() - 1 {
            lemma_ptoken_views_index(s.drop_last(), i);
            assert(s.drop_last()[i] == s[i]);
        } else {
            assert(s.last() == s[i]);
        }
    }
}

/// `spec_ptoken_views` has the length of its argument.
pub proof fn lemma_ptoken_views_len(s: Seq<PToken>)
    ensures
        spec_ptoken_views(s).len() == s.len(),
    decreases s.len(),
{
    if s.len() > 0 {
        lemma_ptoken_views_len(s.drop_last());
    }
}

/// Tokens already emitted, joined with what scanning the rest gives.
pub open spec fn spec_scan_join(
    done: Seq<Spanned<SpecToken>>,
    rest: Result<Seq<Spanned<SpecToken>>, SpecError>,
) -> Result<Seq<Spanned<SpecToken>>, SpecError> {
    match rest {
        Ok(ts) => Ok(done + ts),
        Err(e) => Err(e),
    }
}

/// Taking a token-emitting step moves it from the remainder to the done
/// side of the join.
pub proof fn lemma_join_token(
    p: Seq<char>,
    done: Seq<Spanned<SpecToken>>,
    idx: int,
    j: int,
    t: Spanned<SpecToken>,
)
    requires
        0 <= idx < p.len(),
        spec_step(p, idx) == (LexStep { next: j, out: Ok(Some(t)) }),
        idx < j <= p.len(),
    ensures
        spec_scan_join(done, spec_scan(p, idx)) == spec_scan_join(done.push(t), spec_scan(p, j)),
{
    match spec_scan(p, j) {
        Ok(rest) => {
            assert(done + (seq![t] + rest) =~= done.push(t) + rest);
        },
        Err(_) => {},
    }
}

/// Taking a step that emits nothing leaves the join unchanged.
pub proof fn lemma_join_none(p: Seq<char>, done: Seq<Spanned<SpecToken>>, idx: int, j: int)
    requires
        0 <= idx < p.len(),
        spec_step(p, idx) == (LexStep { next: j, out: Ok(None::<Spanned<SpecToken>>) }),
        idx < j <= p.len(),
    ensures
        spec_scan_join(done, spec_scan(p, idx)) == spec_scan_join(done, spec_scan(p, j)),
{
}

/// A failing step makes the whole scan fail with its diagnostic.
pub proof fn lemma_join_err(
    p: Seq<char>,
    done: Seq<Spanned<SpecToken>>,
    idx: int,
    j: int,
    e: SpecError,
)
    requires
        0 <= idx < p.len(),
        spec_step(p, idx).out == Err::<Option<Spanned<SpecToken>>, SpecError>(e),
        spec_step(p, idx).next == j,
        idx < j <= p.len(),
    ensures
        spec_scan_join(done, spec_scan(p, idx)) == Err::<Seq<Spanned<SpecToken>>, SpecError>(e),
{
}

/// Strict order on positions: earlier line, or same line and earlier
/// column.
pub open spec fn spec_pos_lt(a: Position, b: Position) -> bool {
    a.line < b.line || (a.line == b.line && a.col < b.col)
}

/// Positions grow strictly along the text: reading more characters always
/// moves the position forward.
pub proof fn lemma_pos_at_strict(p: Seq<char>, a: int, b: int)
    requires
        0 <= a < b <= p.len(),
        p.len() + 2 <= usize::MAX,
    ensures
        spec_pos_lt(spec_pos_at(p, a), spec_pos_at(p, b)),
    decreases b - a,
{
    lemma_pos_at_bounds(p, b - 1);
    if a < b - 1 {
        lemma_pos_at_strict(p, a, b - 1);
    }
}

/// The position map is injective: a span's endpoints pin down unique
/// character offsets in the text.
pub proof fn lemma_pos_at_injective(p: Seq<char>, a: int, b: int)
    requires
        0 <= a <= p.len(),
        0 <= b <= p.len(),
        p.len() + 2 <= usize::MAX,
        spec_pos_at(p, a) == spec_pos_at(p, b),
    ensures
        a == b,
{
    if a < b {
        lemma_pos_at_strict(p, a, b);
    }
    if b < a {
        lemma_pos_at_strict(p, b, a);
    }
}

/// The characters `slice` a token was consumed from spell exactly that
/// token: its lexeme.
pub open spec fn spec_lexeme_matches(slice: Seq<char>, t: SpecToken) -> bool {
    match t {
        SpecToken::Comma => slice == seq![','],
        SpecToken::Colon => slice == seq![':'],
        SpecToken::Semicolon => slice == seq![';'],
        SpecToken::Period => slice == seq!['.'],
        SpecToken::Tilde => slice == seq!['~'],
        SpecToken::Minus => slice == seq!['-'],
        SpecToken::Plus => slice == seq!['+'],
        SpecToken::Asterisk => slice == seq!['*'],
        SpecToken::Slash => slice == seq!['/'],
        SpecToken::Carat => slice == seq!['^'],
        SpecToken::Mod => slice == seq!['%'],
        SpecToken::OpenBrace => slice == seq!['{'],
        SpecToken::CloseBrace => slice == seq!['}'],
        SpecToken::OpenBracket => slice == seq!['['],
        SpecToken::CloseBracket => slice == seq![']'],
        SpecToken::OpenParen => slice == seq!['('],
        SpecToken::CloseParen => slice == seq![')'],
        SpecToken::Define => slice == seq!['='],
        SpecToken::Arrow => slice == seq!['=', '>'],
        SpecToken::Or => slice == seq!['|', '|'],
        SpecToken::And => slice == seq!['&', '&'],
        SpecToken::Not => slice == seq!['!'],
        SpecToken::Equals => slice == seq!['=', '='],
        SpecToken::NotEquals => slice == seq!['!', '='],
        SpecToken::Greater => slice == seq!['>'],
        SpecToken::Lesser => slice == seq!['<'],
        SpecToken::GreaterThan => slice == seq!['>', '='],
        SpecToken::LesserThan => slice == seq!['<', '='],
        SpecToken::Pipe => slice == seq!['|'],
        SpecToken::Pipeline => slice == seq!['|', '>'],
        SpecToken::At => slice == seq!['@'],
        SpecToken::Sign => slice == seq!['$'],
        SpecToken::Hash => slice == seq!['#'],
        SpecToken::Underscore => slice == "_"@,
        SpecToken::Literal(v) => match v {
            SpecValue::Int(n) => spec_number(slice) == Ok::<u8, Seq<char>>(n),
            SpecValue::String(s) => slice == seq!['"'] + s + seq!['"'],
            SpecValue::Char(c) => slice == seq!['\'', c, '\''],
            _ => false,
        },
        SpecToken::Keyword(k) => spec_keyword(slice) == Some(k),
        SpecToken::Identifier(w) => slice == w,
        SpecToken::EOF => false,
    }
}

/// A string run that stops inside the text stops on its closing quote.
pub proof fn lemma_string_end_char(p: Seq<char>, i: int)
    requires
        0 <= i <= p.len(),
    ensures
        spec_string_end(p, i) < p.len() ==> p[spec_string_end(p, i)] == '"',
    decreases p.len() - i,
{
    if i < p.len() && p[i] != '"' {
        lemma_string_end_char(p, i + 1);
    }
}

/// A step that emits a token spans exactly the characters it consumed, and
/// those characters spell the token.
pub proof fn lemma_step_lexeme(p: Seq<char>, i: int)
    requires
        0 <= i < p.len(),
    ensures
        ({
            let st = spec_step(p, i);
            st.out matches Ok(Some(t)) ==> {
                &&& t.start == spec_pos_at(p, i + 1)
                &&& t.end == spec_pos_at(p, st.next)
                &&& spec_lexeme_matches(p.subrange(i, st.next), t.inner)
            }
        }),
{
    let st = spec_step(p, i);
    lemma_step_bounds(p, i);
    lemma_run_end_bounds(p, i + 1);
    assert(p.subrange(i, i + 1) =~= seq![p[i]]);
    if i + 2 <= p.len() {
        assert(p.subrange(i, i + 2) =~= seq![p[i], p[i + 1]]);
    }
    if i + 3 <= p.len() {
        assert(p.subrange(i, i + 3) =~= seq![p[i], p[i + 1], p[i + 2]]);
    }
    if p[i] == '"' {
        let e = spec_string_end(p, i + 1);
        lemma_string_end_char(p, i + 1);
        if e < p.len() {
            assert(p.subrange(i, e + 1) =~= seq!['"'] + p.subrange(i + 1, e) + seq!['"']);
        }
    }
}

/// Every token of a successful scan carries a span that covers exactly the
/// characters consumed for it: some range `[a, b)` of the text whose
/// boundary positions are the span's endpoints, and whose characters spell
/// the token's lexeme.  With `lemma_pos_at_injective`, the span pins that
/// range down uniquely, so re-slicing the source by the span reproduces the
/// lexeme.
pub proof fn lemma_spans_cover_lexemes(p: Seq<char>, i: int, ts: Seq<Spanned<SpecToken>>)
    requires
        0 <= i <= p.len(),
        spec_scan(p, i) == Ok::<Seq<Spanned<SpecToken>>, SpecError>(ts),
    ensures
        forall|k: int|
            0 <= k < ts.len() ==> exists|a: int, b: int|
                {
                    &&& i <= a && a < b && b <= p.len()
                    &&& (#[trigger] ts[k]).start == spec_pos_at(p, a + 1)
                    &&& ts[k].end == spec_pos_at(p, b)
                    &&& spec_lexeme_matches(p.subrange(a, b), ts[k].inner)
                },
    decreases p.len() - i,
{
    if i >= p.len() {
        assert(ts =~= Seq::<Spanned<SpecToken>>::empty());
    }
    if i < p.len() {
        let st = spec_step(p, i);
        lemma_step_bounds(p, i);
        match st.out {
            Ok(opt) => {
                match spec_scan(p, st.next) {
                    Ok(rest) => {
                        lemma_spans_cover_lexemes(p, st.next, rest);
                        match opt {
                            Some(t) => {
                                lemma_step_lexeme(p, i);
                                assert(ts == seq![t] + rest);
                                assert forall|k: int| 0 <= k < ts.len() implies exists|a: int, b: int|
                                    {
                                        &&& i <= a && a < b && b <= p.len()
                                        &&& (#[trigger] ts[k]).start == spec_pos_at(p, a + 1)
                                        &&& ts[k].end == spec_pos_at(p, b)
                                        &&& spec_lexeme_matches(p.subrange(a, b), ts[k].inner)
                                    } by {
                                    if k == 0 {
                                        assert(ts[0] == t);
                                        assert({
                                            &&& i <= i && i < st.next && st.next <= p.len()
                                            &&& ts[0].start == spec_pos_at(p, i + 1)
                                            &&& ts[0].end == spec_pos_at(p, st.next)
                                            &&& spec_lexeme_matches(
                                                p.subrange(i, st.next),
                                                ts[0].inner,
                                            )
                                        });
                                    } else {
                                        assert(ts[k] == rest[k - 1]);
                                    }
                                }
                            },
                            None => {
                                assert(ts == rest);
                                assert forall|k: int| 0 <= k < ts.len() implies exists|a: int, b: int|
                                    {
                                        &&& i <= a && a < b && b <= p.len()
                                        &&& (#[trigger] ts[k]).start == spec_pos_at(p, a + 1)
                                        &&& ts[k].end == spec_pos_at(p, b)
                                        &&& spec_lexeme_matches(p.subrange(a, b), ts[k].inner)
                                    } by {
                                    assert(ts[k] == rest[k]);
                                }
                            },
                        }
                    },
                    Err(_) => {},
                }
            },
            Err(_) => {},
        }
    }
}

/// The scanner: the program as characters, how far it has read, and the
/// positions of the current token's start and of the read head.
pub struct Lexer {
    pub current: Position,
    pub token_start: Position,
    pub program: Vec<char>,
    pub index: usize,
}

impl Lexer {
    /// The read head is inside the text, the text leaves room for position
    /// arithmetic, and `current` is the position after everything read.
    pub open spec fn wf(&self) -> bool {
        &&& self.index <= self.program@.len()
        &&& self.program@.len() + 2 <= usize::MAX
        &&& self.current == spec_pos_at(self.program@, self.index as int)
    }

    /// A scanner at the start of `program`.
    pub fn new(program: String) -> (r: Lexer)
        requires
            program@.len() + 2 <= usize::MAX,
        ensures
            r.wf(),
            r.program@ == program@,
            r.index == 0,
            r.token_start == (Position { line: 1, col: 1, end: false }),
    {
        let text = program.as_str();
        let n = text.unicode_len();
        let mut chars: Vec<char> = Vec::new();
        let mut i: usize = 0;
        while i < n
            invariant
                i <= n,
                n == text@.len(),
                text@ == program@,
                chars@ == program@.subrange(0, i as int),
            decreases n - i,
        {
            chars.push(text.get_char(i));
            proof {
                assert(chars@ =~= program@.subrange(0, i + 1));
            }
            i = i + 1;
        }
        proof {
            assert(program@.subrange(0, program@.len() as int) =~= program@);
        }
        Lexer { current: Position::new(), token_start: Position::new(), index: 0, program: chars }
    }

    /// A diagnostic pointing at the current token.
    pub fn error<T>(&self, msg: &str) -> (r: Result<T, Error>)
        ensures
            r matches Err(e) && e@ == (SpecError {
                msg: msg@,
                start: self.token_start,
                end: self.current,
            }),
    {
        Err(Error { msg: String::from_str(msg), start: self.token_start, end: self.current })
    }

    /// The next character, without consuming it; an error at end of input.
    pub fn peek(&mut self) -> (r: Result<char, Error>)
        ensures
            *final(self) == *old(self),
            old(self).index < old(self).program@.len() ==> (r matches Ok(c) && c == old(
                self,
            ).program@[old(self).index as int]),
            old(self).index >= old(self).program@.len() ==> (r matches Err(e) && e@ == (SpecError {
                msg: "EOF found unexpectedly"@,
                start: old(self).token_start,
                end: old(self).current,
            })),
    {
        if self.index < self.program.len() {
            Ok(self.program[self.index])
        } else {
            self.error("EOF found unexpectedly")
        }
    }

    /// Whether a character is available and differs from `c`.
    pub fn peek_not(&mut self, c: char) -> (r: bool)
        ensures
            *final(self) == *old(self),
            r == (old(self).index < old(self).program@.len() && old(self).program@[old(
                self,
            ).index as int] != c),
    {
        if self.index < self.program.len() {
            self.program[self.index] != c
        } else {
            false
        }
    }

    /// Consume and return the next character, keeping `current` at the
    /// position after it; an error, consuming nothing, at end of input.
    pub fn next(&mut self) -> (r: Result<char, Error>)
        requires
            old(self).wf(),
        ensures
            final(self).wf(),
            final(self).program == old(self).program,
            final(self).token_start == old(self).token_start,
            old(self).index < old(self).program@.len() ==> {
                &&& final(self).index == old(self).index + 1
                &&& final(self).current == spec_advance(
                    old(self).current,
                    old(self).program@[old(self).index as int],
                )
                &&& r matches Ok(c) && c == old(self).program@[old(self).index as int]
            },
            old(self).index >= old(self).program@.len() ==> *final(self) == *old(self) && (
            r matches Err(e) && e@ == (SpecError {
                msg: "EOF found unexpectedly"@,
                start: old(self).token_start,
                end: old(self).current,
            })),
    {
        proof {
            lemma_pos_at_bounds(self.program@, self.index as int);
        }
        if self.index < self.program.len() {
            let c = self.program[self.index];
            self.index = self.index + 1;
            if c == '\n' {
                self.next_line();
            } else {
                self.current.col = self.current.col + 1;
            }
            Ok(c)
        } else {
            self.error("EOF found unexpectedly")
        }
    }

    /// Move `current` to the start of the next line.
    pub fn next_line(&mut self)
        requires
            old(self).current.line < usize::MAX,
        ensures
            final(self).current == (Position {
                line: (old(self).current.line + 1) as usize,
                col: 1,
                end: old(self).current.end,
            }),
            final(self).token_start == old(self).token_start,
            final(self).program == old(self).program,
            final(self).index == old(self).index,
    {
        self.current.line = self.current.line + 1;
        self.current.col = 1;
    }

    /// Consume the next character exactly when it equals `item`.
    pub fn matches(&mut self, item: char) -> (r: bool)
        requires
            old(self).wf(),
        ensures
            final(self).wf(),
            final(self).program == old(self).program,
            final(self).token_start == old(self).token_start,
            r == (old(self).index < old(self).program@.len() && old(self).program@[old(
                self,
            ).index as int] == item),
            r ==> final(self).index == old(self).index + 1 && final(self).current == spec_advance(
                old(self).current,
                item,
            ),
            !r ==> *final(self) == *old(self),
    {
        if self.index < self.program.len() {
            let c = self.program[self.index];
            if c == item {
                let _ = self.next();
                return true;
            }
        }
        false
    }

    /// The given token, carrying the span from the current token's start to
    /// the read head.
    pub fn wrap(&self, inner: Token) -> (r: PToken)
        ensures
            r@ == (Spanned { inner: inner@, start: self.token_start, end: self.current }),
    {
        Positioned { inner, start: self.token_start, end: self.current }
    }

    /// Parse the characters of a numeric literal, as `spec_number` states
    /// it; an error carries the current token's span.
    pub fn number(&self, digits: &Vec<char>) -> (r: Result<Token, Error>)
        ensures
            match spec_number(digits@) {
                Ok(n) => r matches Ok(t) && t@ == SpecToken::Literal(SpecValue::Int(n)),
                Err(m) => r matches Err(e) && e@ == (SpecError {
                    msg: m,
                    start: self.token_start,
                    end: self.current,
                }),
            },
    {
        let ghost s = digits@;
        // Count decimal points.
        let mut dots: usize = 0;
        let mut i: usize = 0;
        while i < digits.len()
            invariant
                i <= digits.len(),
                s == digits@,
                dots == spec_count(s.subrange(0, i as int), '.'),
                dots <= i,
            decreases digits.len() - i,
        {
            proof {
                assert(s.subrange(0, i + 1).drop_last() =~= s.subrange(0, i as int));
            }
            if digits[i] == '.' {
                dots = dots + 1;
            }
            i = i + 1;
        }
        proof {
            assert(s.subrange(0, s.len() as int) =~= s);
        }
        if dots >= 2 {
            return self.error("More than one decimal point found in number");
        }
        if dots == 1 {
            return self.error("Float literals are not supported");
        }
        // Strip underscore separators.
        let mut cleaned: Vec<char> = Vec::new();
        let mut j: usize = 0;
        while j < digits.len()
            invariant
                j <= digits.len(),
                s == digits@,
                cleaned@ == spec_strip_separators(s.subrange(0, j as int)),
            decreases digits.len() - j,
        {
            proof {
                assert(s.subrange(0, j + 1).drop_last() =~= s.subrange(0, j as int));
            }
            let c = digits[j];
            if c != '_' {
                cleaned.push(c);
            }
            j = j + 1;
        }
        proof {
            assert(s.subrange(0, s.len() as int) =~= s);
        }
        let ghost cl = spec_strip_separators(s);
        // Check that every remaining character is a decimal digit.
        let mut k: usize = 0;
        while k < cleaned.len()
            invariant
                k <= cleaned.len(),
                s == digits@,
                spec_count(s, '.') == 0,
                cl == spec_strip_separators(s),
                cleaned@ == cl,
                forall|m: int|
                    0 <= m < k ==> ('0' as u32) <= (#[trigger] cl[m] as u32) <= ('9' as u32),
            decreases cleaned.len() - k,
        {
            let u = cleaned[k] as u32;
            if u < '0' as u32 || u > '9' as u32 {
                proof {
                    assert(!(('0' as u32) <= (cl[k as int] as u32) <= ('9' as u32)));
                }
                return self.error("Invalid digit in number");
            }
            k = k + 1;
        }
        assert(spec_all_digits(cl));
        // Accumulate the value, watching the 8-bit bound.
        let mut acc: u16 = 0;
        let mut m: usize = 0;
        proof {
            lemma_digits_value_nonneg(cl);
        }
        while m < cleaned.len()
            invariant
                m <= cleaned.len(),
                s == digits@,
                spec_count(s, '.') == 0,
                cl == spec_strip_separators(s),
                cleaned@ == cl,
                spec_all_digits(cl),
                acc as int == spec_digits_value(cl.subrange(0, m as int)),
                acc <= 255,
            decreases cleaned.len() - m,
        {
            proof {
                assert(cl.subrange(0, m + 1).drop_last() =~= cl.subrange(0, m as int));
                assert(cl.subrange(0, m + 1).last() == cl[m as int]);
            }
            let d = (cleaned[m] as u32 - '0' as u32) as u16;
            acc = acc * 10 + d;
            proof {
                assert(acc as int == spec_digits_value(cl.subrange(0, m + 1)));
            }
            if acc > 255 {
                proof {
                    lemma_digits_value_monotone(cl, m + 1);
                }
                return self.error("Number does not fit in a cell value");
            }
            m = m + 1;
        }
        proof {
            assert(cl.subrange(0, cl.len() as int) =~= cl);
        }
        Ok(Token::Literal(Value::Int(acc as u8)))
    }

    /// Scan the rest of a string literal, its opening quote already
    /// consumed: the token or the diagnostic that `spec_step` gives for it.
    fn lex_string(&mut self) -> (r: Result<PToken, Error>)
        requires
            old(self).wf(),
            old(self).index >= 1,
            old(self).program@[old(self).index - 1] == '"',
            old(self).token_start == spec_pos_at(old(self).program@, old(self).index as int),
        ensures
            final(self).wf(),
            final(self).program@ == old(self).program@,
            final(self).token_start == old(self).token_start,
            ({
                let st = spec_step(old(self).program@, old(self).index - 1);
                match r {
                    Ok(t) => st.out == Ok::<Option<Spanned<SpecToken>>, SpecError>(Some(t@))
                        && final(self).index as int == st.next,
                    Err(e) => st.out == Err::<Option<Spanned<SpecToken>>, SpecError>(e@),
                }
            }),
    {
        let ghost p = self.program@;
        let ghost idx = self.index as int - 1;
        let mut content: Vec<char> = Vec::new();
        proof {
            assert(content@ =~= p.subrange(idx + 1, idx + 1));
        }
        loop
            invariant
                self.wf(),
                self.program@ == p,
                p == old(self).program@,
                0 <= idx < p.len(),
                p[idx] == '"',
                idx + 1 <= self.index as int <= p.len(),
                self.token_start == spec_pos_at(p, idx + 1),
                self.token_start == old(self).token_start,
                idx == old(self).index - 1,
                spec_string_end(p, idx + 1) == spec_string_end(p, self.index as int),
                content@ == p.subrange(idx + 1, self.index as int),
            ensures
                self.wf(),
                self.program@ == p,
                idx + 1 <= self.index as int,
                (self.index as int) < p.len(),
                self.token_start == spec_pos_at(p, idx + 1),
                self.token_start == old(self).token_start,
                self.index as int == spec_string_end(p, idx + 1),
                p[self.index as int] == '"',
                content@ == p.subrange(idx + 1, self.index as int),
            decreases p.len() - self.index,
        {
            let nc = match self.peek() {
                Ok(x) => x,
                Err(e) => {
                    proof {
                        assert(spec_string_end(p, self.index as int) == self.index as int);
                        assert(spec_step(p, idx) == spec_step_error(
                            p,
                            idx,
                            p.len() as int,
                            "EOF found unexpectedly"@,
                        ));
                    }
                    return Err(e);
                },
            };
            if nc == '"' {
                break;
            }
            let got = match self.next() {
                Ok(x) => x,
                Err(e) => {
                    proof {
                        assert(false);
                    }
                    return Err(e);
                },
            };
            content.push(got);
            proof {
                assert(content@ =~= p.subrange(idx + 1, self.index as int));
            }
        }
        let ghost e_str = spec_string_end(p, idx + 1);
        let _ = self.next();
        let text = string_from_chars(&content);
        let pt = self.wrap(Token::Literal(Value::String(text)));
        proof {
            assert(spec_step(p, idx) == spec_step_token(
                p,
                idx,
                e_str + 1,
                SpecToken::Literal(SpecValue::String(p.subrange(idx + 1, e_str))),
            ));
            assert(pt@.inner == SpecToken::Literal(SpecValue::String(p.subrange(idx + 1, e_str))));
        }
        Ok(pt)
    }

    /// Scan the rest of a character literal, its opening quote already
    /// consumed: the token or the diagnostic that `spec_step` gives for it.
    fn lex_char(&mut self) -> (r: Result<PToken, Error>)
        requires
            old(self).wf(),
            old(self).index >= 1,
            old(self).program@[old(self).index - 1] == '\'',
            old(self).token_start == spec_pos_at(old(self).program@, old(self).index as int),
        ensures
            final(self).wf(),
            final(self).program@ == old(self).program@,
            final(self).token_start == old(self).token_start,
            ({
                let st = spec_step(old(self).program@, old(self).index - 1);
                match r {
                    Ok(t) => st.out == Ok::<Option<Spanned<SpecToken>>, SpecError>(Some(t@))
                        && final(self).index as int == st.next,
                    Err(e) => st.out == Err::<Option<Spanned<SpecToken>>, SpecError>(e@),
                }
            }),
    {
        let ghost p = self.program@;
        let ghost idx = self.index as int - 1;
        let c1 = match self.next() {
            Ok(x) => x,
            Err(e) => {
                proof {
                    assert(spec_step(p, idx) == spec_step_error(
                        p,
                        idx,
                        idx + 1,
                        "EOF found unexpectedly"@,
                    ));
                }
                return Err(e);
            },
        };
        match self.next() {
            Ok(q) => {
                if q == '\'' {
                    let pt = self.wrap(Token::Literal(Value::Char(c1)));
                    proof {
                        lemma_char_value(c1);
                        assert(spec_step(p, idx) == spec_step_token(
                            p,
                            idx,
                            idx + 3,
                            SpecToken::Literal(SpecValue::Char(p[idx + 1])),
                        ));
                        assert(pt@.inner == SpecToken::Literal(SpecValue::Char(p[idx + 1])));
                    }
                    Ok(pt)
                } else {
                    proof {
                        assert(spec_step(p, idx) == spec_step_error(
                            p,
                            idx,
                            idx + 3,
                            "Char closing tag not found."@,
                        ));
                    }
                    self.error("Char closing tag not found.")
                }
            },
            Err(e) => {
                proof {
                    assert(spec_step(p, idx) == spec_step_error(
                        p,
                        idx,
                        idx + 2,
                        "EOF found unexpectedly"@,
                    ));
                }
                Err(e)
            },
        }
    }

    /// Scan the rest of a numeric literal, its first digit already consumed
    /// and given: the token or the diagnostic that `spec_step` gives for it.
    fn lex_number(&mut self, first: char) -> (r: Result<PToken, Error>)
        requires
            old(self).wf(),
            old(self).index >= 1,
            old(self).program@[old(self).index - 1] == first,
            spec_is_digit(first),
            old(self).token_start == spec_pos_at(old(self).program@, old(self).index as int),
        ensures
            final(self).wf(),
            final(self).program@ == old(self).program@,
            final(self).token_start == old(self).token_start,
            ({
                let st = spec_step(old(self).program@, old(self).index - 1);
                match r {
                    Ok(t) => st.out == Ok::<Option<Spanned<SpecToken>>, SpecError>(Some(t@))
                        && final(self).index as int == st.next,
                    Err(e) => st.out == Err::<Option<Spanned<SpecToken>>, SpecError>(e@),
                }
            }),
    {
        let ghost p = self.program@;
        let ghost idx = self.index as int - 1;
        let mut digits: Vec<char> = Vec::new();
        digits.push(first);
        proof {
            assert(digits@ =~= p.subrange(idx, idx + 1));
        }
        loop
            invariant
                self.wf(),
                self.program@ == p,
                p == old(self).program@,
                0 <= idx < p.len(),
                p[idx] == first,
                spec_is_digit(first),
                idx + 1 <= self.index as int <= p.len(),
                self.token_start == spec_pos_at(p, idx + 1),
                self.token_start == old(self).token_start,
                idx == old(self).index - 1,
                spec_number_end(p, idx + 1) == spec_number_end(p, self.index as int),
                digits@ == p.subrange(idx, self.index as int),
            ensures
                self.wf(),
                self.program@ == p,
                idx + 1 <= self.index as int <= p.len(),
                self.token_start == spec_pos_at(p, idx + 1),
                self.token_start == old(self).token_start,
                self.index as int == spec_number_end(p, idx + 1),
                digits@ == p.subrange(idx, self.index as int),
            decreases p.len() - self.index,
        {
            let nc = match self.peek() {
                Ok(x) => x,
                Err(_) => {
                    proof {
                        assert(spec_number_end(p, self.index as int) == self.index as int);
                    }
                    break;
                },
            };
            if !is_number_char(nc) {
                proof {
                    assert(spec_number_end(p, self.index as int) == self.index as int);
                }
                break;
            }
            let got = match self.next() {
                Ok(x) => x,
                Err(e) => {
                    proof {
                        assert(false);
                    }
                    return Err(e);
                },
            };
            digits.push(got);
            proof {
                assert(digits@ =~= p.subrange(idx, self.index as int));
            }
        }
        let ghost e_num = spec_number_end(p, idx + 1);
        match self.number(&digits) {
            Ok(t) => {
                let pt = self.wrap(t);
                proof {
                    assert(spec_step(p, idx) == spec_step_token(p, idx, e_num, pt@.inner));
                }
                Ok(pt)
            },
            Err(e) => {
                proof {
                    assert(spec_step(p, idx).out == Err::<Option<Spanned<SpecToken>>, SpecError>(
                        e@,
                    ));
                }
                Err(e)
            },
        }
    }

    /// Scan the rest of an identifier, keyword or wildcard, its first
    /// character already consumed and given: the token `spec_step` gives.
    fn lex_ident(&mut self, first: char) -> (r: PToken)
        requires
            old(self).wf(),
            old(self).index >= 1,
            old(self).program@[old(self).index - 1] == first,
            spec_is_ident_start(first),
            !spec_is_digit(first),
            old(self).token_start == spec_pos_at(old(self).program@, old(self).index as int),
        ensures
            final(self).wf(),
            final(self).program@ == old(self).program@,
            final(self).token_start == old(self).token_start,
            ({
                let st = spec_step(old(self).program@, old(self).index - 1);
                st.out == Ok::<Option<Spanned<SpecToken>>, SpecError>(Some(r@))
                    && final(self).index as int == st.next
            }),
    {
        let ghost p = self.program@;
        let ghost idx = self.index as int - 1;
        let mut word_chars: Vec<char> = Vec::new();
        word_chars.push(first);
        proof {
            assert(word_chars@ =~= p.subrange(idx, idx + 1));
        }
        loop
            invariant
                self.wf(),
                self.program@ == p,
                p == old(self).program@,
                0 <= idx < p.len(),
                p[idx] == first,
                idx + 1 <= self.index as int <= p.len(),
                self.token_start == spec_pos_at(p, idx + 1),
                self.token_start == old(self).token_start,
                idx == old(self).index - 1,
                spec_ident_end(p, idx + 1) == spec_ident_end(p, self.index as int),
                word_chars@ == p.subrange(idx, self.index as int),
            ensures
                self.wf(),
                self.program@ == p,
                idx + 1 <= self.index as int <= p.len(),
                self.token_start == spec_pos_at(p, idx + 1),
                self.token_start == old(self).token_start,
                self.index as int == spec_ident_end(p, idx + 1),
                word_chars@ == p.subrange(idx, self.index as int),
            decreases p.len() - self.index,
        {
            let nc = match self.peek() {
                Ok(x) => x,
                Err(_) => {
                    proof {
                        assert(spec_ident_end(p, self.index as int) == self.index as int);
                    }
                    break;
                },
            };
            if !is_alphanumeric(nc) {
                proof {
                    assert(spec_ident_end(p, self.index as int) == self.index as int);
                }
                break;
            }
            let got = match self.next() {
                Ok(x) => x,
                Err(e) => {
                    proof {
                        assert(false);
                    }
                    let fallback = self.wrap(Token::EOF);
                    return fallback;
                },
            };
            word_chars.push(got);
            proof {
                assert(word_chars@ =~= p.subrange(idx, self.index as int));
            }
        }
        let ghost e_id = spec_ident_end(p, idx + 1);
        let word = string_from_chars(&word_chars);
        let tok = if str_eq(word.as_str(), "_") {
            Token::Underscore
        } else {
            match keyword_from_str(word.as_str()) {
                Some(k) => Token::Keyword(k),
                None => Token::Identifier(word),
            }
        };
        let pt = self.wrap(tok);
        proof {
            assert(spec_step(p, idx) == spec_step_token(p, idx, e_id, pt@.inner));
        }
        pt
    }

    /// Scan the whole remaining text into positioned tokens, exactly as
    /// `spec_scan` states it; the first lexical fault aborts the scan with
    /// its diagnostic.
    pub fn scan_tokens(&mut self) -> (r: Result<Vec<PToken>, Error>)
        requires
            old(self).wf(),
        ensures
            final(self).wf(),
            final(self).program@ == old(self).program@,
            match spec_scan(old(self).program@, old(self).index as int) {
                Ok(ts) => r matches Ok(v) && spec_ptoken_views(v@) == ts,
                Err(e) => r matches Err(err) && err@ == e,
            },
    {
        let ghost p = self.program@;
        let ghost i0 = self.index as int;
        let mut tokens: Vec<PToken> = Vec::new();
        loop
            invariant
                self.wf(),
                self.program@ == p,
                p == old(self).program@,
                i0 == old(self).index as int,
                i0 <= self.index as int <= p.len(),
                spec_scan(p, i0) == spec_scan_join(
                    spec_ptoken_views(tokens@),
                    spec_scan(p, self.index as int),
                ),
            ensures
                self.wf(),
                self.program@ == p,
                p == old(self).program@,
                i0 == old(self).index as int,
                self.index as int == p.len(),
                spec_scan(p, i0) == spec_scan_join(
                    spec_ptoken_views(tokens@),
                    spec_scan(p, self.index as int),
                ),
            decreases p.len() - self.index,
        {
            let ghost idx = self.index as int;
            let ghost done = spec_ptoken_views(tokens@);
            if self.index >= self.program.len() {
                break;
            }
            proof {
                lemma_step_bounds(p, idx);
            }
            let c = match self.next() {
                Ok(c) => c,
                Err(e) => {
                    proof {
                        assert(false);
                    }
                    return Err(e);
                },
            };
            self.token_start = self.current;
            match single_token(c) {
                Some(t) => {
                    let pt = self.wrap(t);
                    proof {
                        assert(spec_step(p, idx) == spec_step_token(p, idx, idx + 1, pt@.inner));
                        lemma_join_token(p, done, idx, idx + 1, pt@);
                        lemma_ptoken_views_push(tokens@, pt);
                    }
                    tokens.push(pt);
                },
                None => {
                    if c == '&' {
                        if self.matches('&') {
                            let pt = self.wrap(Token::And);
                            proof {
                                assert(spec_step(p, idx) == spec_step_token(
                                    p,
                                    idx,
                                    idx + 2,
                                    SpecToken::And,
                                ));
                                lemma_join_token(p, done, idx, idx + 2, pt@);
                                lemma_ptoken_views_push(tokens@, pt);
                            }
                            tokens.push(pt);
                        } else {
                            proof {
                                lemma_join_none(p, done, idx, idx + 1);
                            }
                        }
                    } else if c == '|' {
                        let tok = if self.matches('>') {
                            Token::Pipeline
                        } else if self.matches('|') {
                            Token::Or
                        } else {
                            Token::Pipe
                        };
                        let pt = self.wrap(tok);
                        proof {
                            assert(spec_step(p, idx) == spec_step_token(
                                p,
                                idx,
                                self.index as int,
                                pt@.inner,
                            ));
                            lemma_join_token(p, done, idx, self.index as int, pt@);
                            lemma_ptoken_views_push(tokens@, pt);
                        }
                        tokens.push(pt);
                    } else if c == '>' {
                        let tok = if self.matches('=') {
                            Token::GreaterThan
                        } else {
                            Token::Greater
                        };
                        let pt = self.wrap(tok);
                        proof {
                            assert(spec_step(p, idx) == spec_step_token(
                                p,
                                idx,
                                self.index as int,
                                pt@.inner,
                            ));
                            lemma_join_token(p, done, idx, self.index as int, pt@);
                            lemma_ptoken_views_push(tokens@, pt);
                        }
                        tokens.push(pt);
                    } else if c == '<' {
                        let tok = if self.matches('=') {
                            Token::LesserThan
                        } else {
                            Token::Lesser
                        };
                        let pt = self.wrap(tok);
                        proof {
                            assert(spec_step(p, idx) == spec_step_token(
                                p,
                                idx,
                                self.index as int,
                                pt@.inner,
                            ));
                            lemma_join_token(p, done, idx, self.index as int, pt@);
                            lemma_ptoken_views_push(tokens@, pt);
                        }
                        tokens.push(pt);
                    } else if c == '=' {
                        let tok = if self.matches('=') {
                            Token::Equals
                        } else if self.matches('>') {
                            Token::Arrow
                        } else {
                            Token::Define
                        };
                        let pt = self.wrap(tok);
                        proof {
                            assert(spec_step(p, idx) == spec_step_token(
                                p,
                                idx,
                                self.index as int,
                                pt@.inner,
                            ));
                            lemma_join_token(p, done, idx, self.index as int, pt@);
                            lemma_ptoken_views_push(tokens@, pt);
                        }
                        tokens.push(pt);
                    } else if c == '!' {
                        let tok = if self.matches('=') {
                            Token::NotEquals
                        } else {
                            Token::Not
                        };
                        let pt = self.wrap(tok);
                        proof {
                            assert(spec_step(p, idx) == spec_step_token(
                                p,
                                idx,
                                self.index as int,
                                pt@.inner,
                            ));
                            lemma_join_token(p, done, idx, self.index as int, pt@);
                            lemma_ptoken_views_push(tokens@, pt);
                        }
                        tokens.push(pt);
                    } else if c == '"' {
                        match self.lex_string() {
                            Ok(pt) => {
                                proof {
                                    lemma_join_token(p, done, idx, self.index as int, pt@);
                                    lemma_ptoken_views_push(tokens@, pt);
                                }
                                tokens.push(pt);
                            },
                            Err(e) => {
                                proof {
                                    lemma_join_err(p, done, idx, spec_step(p, idx).next, e@);
                                }
                                return Err(e);
                            },
                        }
                    } else if c == '\'' {
                        match self.lex_char() {
                            Ok(pt) => {
                                proof {
                                    lemma_join_token(p, done, idx, self.index as int, pt@);
                                    lemma_ptoken_views_push(tokens@, pt);
                                }
                                tokens.push(pt);
                            },
                            Err(e) => {
                                proof {
                                    lemma_join_err(p, done, idx, spec_step(p, idx).next, e@);
                                }
                                return Err(e);
                            },
                        }
                    } else if c == '/' {
                        if self.matches('/') {
                            loop
                                invariant
                                    self.wf(),
                                    self.program@ == p,
                                    0 <= idx,
                                    idx + 2 <= self.index as int <= p.len(),
                                    spec_comment_end(p, idx + 2) == spec_comment_end(
                                        p,
                                        self.index as int,
                                    ),
                                ensures
                                    self.wf(),
                                    self.program@ == p,
                                    idx + 2 <= self.index as int <= p.len(),
                                    self.index as int == spec_comment_end(p, idx + 2),
                                decreases p.len() - self.index,
                            {
                                if self.peek_not('\n') {
                                    let _ = self.next();
                                } else {
                                    proof {
                                        assert(spec_comment_end(p, self.index as int)
                                            == self.index as int);
                                    }
                                    break;
                                }
                            }
                            proof {
                                lemma_join_none(p, done, idx, spec_comment_end(p, idx + 2));
                            }
                        } else {
                            let pt = self.wrap(Token::Slash);
                            proof {
                                assert(spec_step(p, idx) == spec_step_token(
                                    p,
                                    idx,
                                    idx + 1,
                                    SpecToken::Slash,
                                ));
                                lemma_join_token(p, done, idx, idx + 1, pt@);
                                lemma_ptoken_views_push(tokens@, pt);
                            }
                            tokens.push(pt);
                        }
                    } else if is_digit(c) {
                        match self.lex_number(c) {
                            Ok(pt) => {
                                proof {
                                    lemma_join_token(p, done, idx, self.index as int, pt@);
                                    lemma_ptoken_views_push(tokens@, pt);
                                }
                                tokens.push(pt);
                            },
                            Err(e) => {
                                proof {
                                    lemma_join_err(p, done, idx, spec_step(p, idx).next, e@);
                                }
                                return Err(e);
                            },
                        }
                    } else if is_ident_start(c) {
                        let pt = self.lex_ident(c);
                        proof {
                            lemma_join_token(p, done, idx, self.index as int, pt@);
                            lemma_ptoken_views_push(tokens@, pt);
                        }
                        tokens.push(pt);
                    } else {
                        proof {
                            lemma_join_none(p, done, idx, idx + 1);
                        }
                    }
                },
            }
        }
        proof {
            assert(spec_ptoken_views(tokens@) + Seq::<Spanned<SpecToken>>::empty()
                =~= spec_ptoken_views(tokens@));
        }
        Ok(tokens)
    }
}

} // verus!
