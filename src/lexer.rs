//! The lexer: a longest-match tokenizer over the bytes of the source.
//! `=` is equality and `:=` assignment; white space and `//` line comments
//! are skipped; a byte that starts no token becomes an `Error` token, and
//! the stream always ends with one `Eof` token.

use vstd::prelude::*;
use crate::ast::Span;
use crate::text::bytes;
use vstd::utf8::is_char_boundary;

verus! {

pub const FORM_FEED: u8 = 12;
pub const TAB: u8 = 9;
pub const NEWLINE: u8 = 10;
pub const RETURN: u8 = 13;
pub const SPACE: u8 = 32;
pub const BANG: u8 = 33;
pub const QUOTE: u8 = 34;
pub const PERCENT: u8 = 37;
pub const AMPERSAND: u8 = 38;
pub const OPEN_PAREN: u8 = 40;
pub const CLOSE_PAREN: u8 = 41;
pub const STAR: u8 = 42;
pub const PLUS_SIGN: u8 = 43;
pub const COMMA: u8 = 44;
pub const MINUS_SIGN: u8 = 45;
pub const DOT: u8 = 46;
pub const SLASH: u8 = 47;
pub const DIGIT_0: u8 = 48;
pub const DIGIT_9: u8 = 57;
pub const COLON: u8 = 58;
pub const SEMICOLON: u8 = 59;
pub const LESS_SIGN: u8 = 60;
pub const EQUALS_SIGN: u8 = 61;
pub const GREATER_SIGN: u8 = 62;
pub const QUESTION: u8 = 63;
pub const UPPER_A: u8 = 65;
pub const UPPER_Z: u8 = 90;
pub const OPEN_BRACKET: u8 = 91;
pub const BACKSLASH: u8 = 92;
pub const CLOSE_BRACKET: u8 = 93;
pub const UNDERSCORE: u8 = 95;
pub const LOWER_A: u8 = 97;
pub const LOWER_N: u8 = 110;
pub const LOWER_R: u8 = 114;
pub const LOWER_T: u8 = 116;
pub const LOWER_Z: u8 = 122;
pub const OPEN_BRACE: u8 = 123;
pub const BAR: u8 = 124;
pub const CLOSE_BRACE: u8 = 125;

/// The kinds of token.
#[derive(Clone, Copy, Debug, PartialEq, Eq, Structural)]
pub enum TokenKind {
    // Keywords of snippets and sections.
    Snippet,
    Id,
    Kind,
    Signature,
    Body,
    End,
    Effects,
    Effect,
    Requires,
    Req,
    Tests,
    Test,
    Relations,
    Metadata,
    // Keywords of steps.
    Step,
    Op,
    Input,
    Var,
    Lit,
    As,
    Let,
    // Step operations.
    Add,
    Sub,
    Mul,
    Div,
    Mod,
    Equals,
    NotEquals,
    Less,
    LessEq,
    Greater,
    GreaterEq,
    And,
    Or,
    Not,
    Neg,
    // Query keywords.
    Select,
    From,
    Where,
    Order,
    By,
    Limit,
    // Literal keywords.
    True,
    False,
    NoneLit,
    // Literals and names.
    Ident,
    Int,
    Float,
    String,
    TripleString,
    // Operators.
    Eq,
    Ne,
    Lt,
    Le,
    Gt,
    Ge,
    Plus,
    Minus,
    Star,
    Slash,
    Percent,
    AndAnd,
    OrOr,
    Bang,
    Arrow,
    FatArrow,
    ColonColon,
    ColonEq,
    // Delimiters.
    LParen,
    RParen,
    LBrace,
    RBrace,
    LBracket,
    RBracket,
    Pipe,
    Comma,
    Colon,
    Semicolon,
    Dot,
    Question,
    // A byte that starts no token.
    Error,
    // End of input.
    Eof,
}

/// The kind is a keyword.
pub open spec fn keyword_kind(k: TokenKind) -> bool {
    match k {
        TokenKind::Snippet | TokenKind::Id | TokenKind::Kind | TokenKind::Signature
        | TokenKind::Body | TokenKind::End | TokenKind::Effects | TokenKind::Effect
        | TokenKind::Requires | TokenKind::Req | TokenKind::Tests | TokenKind::Test
        | TokenKind::Relations | TokenKind::Metadata | TokenKind::Step | TokenKind::Op
        | TokenKind::Input | TokenKind::Var | TokenKind::Lit | TokenKind::As | TokenKind::Let
        | TokenKind::Add | TokenKind::Sub | TokenKind::Mul | TokenKind::Div | TokenKind::Mod
        | TokenKind::Equals | TokenKind::NotEquals | TokenKind::Less | TokenKind::LessEq
        | TokenKind::Greater | TokenKind::GreaterEq | TokenKind::And | TokenKind::Or
        | TokenKind::Not | TokenKind::Neg | TokenKind::Select | TokenKind::From
        | TokenKind::Where | TokenKind::Order | TokenKind::By | TokenKind::Limit
        | TokenKind::True | TokenKind::False | TokenKind::NoneLit => true,
        _ => false,
    }
}

impl TokenKind {
    /// Whether the kind is a keyword.
    pub fn is_keyword(&self) -> (r: bool)
        ensures
            r == keyword_kind(*self),
    {
        match self {
            TokenKind::Snippet | TokenKind::Id | TokenKind::Kind | TokenKind::Signature
            | TokenKind::Body | TokenKind::End | TokenKind::Effects | TokenKind::Effect
            | TokenKind::Requires | TokenKind::Req | TokenKind::Tests | TokenKind::Test
            | TokenKind::Relations | TokenKind::Metadata | TokenKind::Step | TokenKind::Op
            | TokenKind::Input | TokenKind::Var | TokenKind::Lit | TokenKind::As
            | TokenKind::Let | TokenKind::Add | TokenKind::Sub | TokenKind::Mul
            | TokenKind::Div | TokenKind::Mod | TokenKind::Equals | TokenKind::NotEquals
            | TokenKind::Less | TokenKind::LessEq | TokenKind::Greater | TokenKind::GreaterEq
            | TokenKind::And | TokenKind::Or | TokenKind::Not | TokenKind::Neg
            | TokenKind::Select | TokenKind::From | TokenKind::Where | TokenKind::Order
            | TokenKind::By | TokenKind::Limit | TokenKind::True | TokenKind::False
            | TokenKind::NoneLit => true,
            _ => false,
        }
    }
}

/// A token: its kind and the bytes of the source it spans.
#[derive(Clone, Copy, Debug, PartialEq, Eq, Structural)]
pub struct Token {
    pub kind: TokenKind,
    pub span: Span,
}

pub open spec fn is_space_byte(c: u8) -> bool {
    c == SPACE || c == TAB || c == NEWLINE || c == RETURN || c == FORM_FEED
}

pub open spec fn is_digit(c: u8) -> bool {
    DIGIT_0 <= c <= DIGIT_9
}

pub open spec fn is_ident_start(c: u8) -> bool {
    (LOWER_A <= c <= LOWER_Z) || (UPPER_A <= c <= UPPER_Z) || c == UNDERSCORE
}

pub open spec fn is_ident_byte(c: u8) -> bool {
    is_ident_start(c) || is_digit(c)
}

/// End of the run of digits that starts at `i`.
pub open spec fn digits_end(b: Seq<u8>, i: int) -> int
    decreases b.len() - i,
{
    if 0 <= i < b.len() && is_digit(b[i]) {
        digits_end(b, i + 1)
    } else {
        i
    }
}

/// End of the run of identifier bytes that starts at `i`.
pub open spec fn ident_end(b: Seq<u8>, i: int) -> int
    decreases b.len() - i,
{
    if 0 <= i < b.len() && is_ident_byte(b[i]) {
        ident_end(b, i + 1)
    } else {
        i
    }
}

/// Index of the first newline at or after `i`, or the end of input.
pub open spec fn line_end(b: Seq<u8>, i: int) -> int
    decreases b.len() - i,
{
    if 0 <= i < b.len() && b[i] != NEWLINE {
        line_end(b, i + 1)
    } else {
        i
    }
}

/// `//` starts at `i`.
pub open spec fn comment_at(b: Seq<u8>, i: int) -> bool {
    0 <= i && i + 1 < b.len() && b[i] == SLASH && b[i + 1] == SLASH
}

/// The first index at or after `i` that white space and line comments do
/// not cover.
pub open spec fn skip(b: Seq<u8>, i: int) -> int
    decreases b.len() - i,
{
    if i < 0 || i >= b.len() {
        i
    } else if is_space_byte(b[i]) {
        skip(b, i + 1)
    } else if comment_at(b, i) {
        let e = line_end(b, i + 2);
        if i < e <= b.len() {
            skip(b, e)
        } else {
            i
        }
    } else {
        i
    }
}

/// The end of an ordinary string whose body starts at `j` (just past its
/// closing quote), or `None` when it is not closed or holds an unknown escape.
pub open spec fn string_end(b: Seq<u8>, j: int) -> Option<int>
    decreases b.len() - j,
{
    if j < 0 || j >= b.len() {
        None
    } else if b[j] == QUOTE {
        Some(j + 1)
    } else if b[j] == BACKSLASH {
        if j + 1 < b.len() && (b[j + 1] == QUOTE || b[j + 1] == BACKSLASH || b[j + 1] == LOWER_N || b[j
            + 1] == LOWER_T || b[j + 1] == LOWER_R) {
            string_end(b, j + 2)
        } else {
            None
        }
    } else {
        string_end(b, j + 1)
    }
}

/// Three quotes start at `j`.
pub open spec fn triple_at(b: Seq<u8>, j: int) -> bool {
    0 <= j && j + 2 < b.len() && b[j] == QUOTE && b[j + 1] == QUOTE && b[j + 2] == QUOTE
}

/// Index of the first three quotes at or after `j`.
pub open spec fn triple_close(b: Seq<u8>, j: int) -> Option<int>
    decreases b.len() - j,
{
    if j < 0 || j + 2 >= b.len() {
        None
    } else if triple_at(b, j) {
        Some(j)
    } else {
        triple_close(b, j + 1)
    }
}

/// The words that are keywords, with their kinds.
pub open spec fn keyword_table() -> Seq<(Seq<char>, TokenKind)> {
    seq![
        ("snippet"@, TokenKind::Snippet),
        ("id"@, TokenKind::Id),
        ("kind"@, TokenKind::Kind),
        ("signature"@, TokenKind::Signature),
        ("body"@, TokenKind::Body),
        ("end"@, TokenKind::End),
        ("effects"@, TokenKind::Effects),
        ("effect"@, TokenKind::Effect),
        ("requires"@, TokenKind::Requires),
        ("req"@, TokenKind::Req),
        ("tests"@, TokenKind::Tests),
        ("test"@, TokenKind::Test),
        ("relations"@, TokenKind::Relations),
        ("metadata"@, TokenKind::Metadata),
        ("step"@, TokenKind::Step),
        ("op"@, TokenKind::Op),
        ("input"@, TokenKind::Input),
        ("var"@, TokenKind::Var),
        ("lit"@, TokenKind::Lit),
        ("as"@, TokenKind::As),
        ("let"@, TokenKind::Let),
        ("add"@, TokenKind::Add),
        ("sub"@, TokenKind::Sub),
        ("mul"@, TokenKind::Mul),
        ("div"@, TokenKind::Div),
        ("mod"@, TokenKind::Mod),
        ("equals"@, TokenKind::Equals),
        ("not_equals"@, TokenKind::NotEquals),
        ("less"@, TokenKind::Less),
        ("less_eq"@, TokenKind::LessEq),
        ("greater"@, TokenKind::Greater),
        ("greater_eq"@, TokenKind::GreaterEq),
        ("and"@, TokenKind::And),
        ("or"@, TokenKind::Or),
        ("not"@, TokenKind::Not),
        ("neg"@, TokenKind::Neg),
        ("select"@, TokenKind::Select),
        ("from"@, TokenKind::From),
        ("where"@, TokenKind::Where),
        ("order"@, TokenKind::Order),
        ("by"@, TokenKind::By),
        ("limit"@, TokenKind::Limit),
        ("true"@, TokenKind::True),
        ("false"@, TokenKind::False),
        ("none"@, TokenKind::NoneLit),
    ]
}

/// The kind of the word `w` when the table from entry `k` on is searched.
pub open spec fn lookup_from(w: Seq<u8>, k: int) -> TokenKind
    decreases keyword_table().len() - k,
{
    if k < 0 || k >= keyword_table().len() {
        TokenKind::Ident
    } else if w == bytes(keyword_table()[k].0) {
        keyword_table()[k].1
    } else {
        lookup_from(w, k + 1)
    }
}

/// The keyword that a word is, or `Ident`.
pub open spec fn word_kind(w: Seq<u8>) -> TokenKind {
    lookup_from(w, 0)
}

/// The operator or delimiter at `i`, with its length; `Error` for a byte
/// that starts none.
pub open spec fn punct(b: Seq<u8>, i: int) -> (TokenKind, int) {
    let c = b[i];
    let d: u8 = if i + 1 < b.len() { b[i + 1] } else { 0u8 };
    if c == COLON {
        if d == EQUALS_SIGN { (TokenKind::ColonEq, 2) } else if d == COLON { (TokenKind::ColonColon, 2) } else { (TokenKind::Colon, 1) }
    } else if c == EQUALS_SIGN {
        if d == GREATER_SIGN { (TokenKind::FatArrow, 2) } else { (TokenKind::Eq, 1) }
    } else if c == BANG {
        if d == EQUALS_SIGN { (TokenKind::Ne, 2) } else { (TokenKind::Bang, 1) }
    } else if c == LESS_SIGN {
        if d == EQUALS_SIGN { (TokenKind::Le, 2) } else { (TokenKind::Lt, 1) }
    } else if c == GREATER_SIGN {
        if d == EQUALS_SIGN { (TokenKind::Ge, 2) } else { (TokenKind::Gt, 1) }
    } else if c == MINUS_SIGN {
        if d == GREATER_SIGN { (TokenKind::Arrow, 2) } else { (TokenKind::Minus, 1) }
    } else if c == AMPERSAND {
        if d == AMPERSAND { (TokenKind::AndAnd, 2) } else { (TokenKind::Error, 1) }
    } else if c == BAR {
        if d == BAR { (TokenKind::OrOr, 2) } else { (TokenKind::Pipe, 1) }
    } else if c == PLUS_SIGN { (TokenKind::Plus, 1) }
    else if c == STAR { (TokenKind::Star, 1) }
    else if c == SLASH { (TokenKind::Slash, 1) }
    else if c == PERCENT { (TokenKind::Percent, 1) }
    else if c == OPEN_PAREN { (TokenKind::LParen, 1) }
    else if c == CLOSE_PAREN { (TokenKind::RParen, 1) }
    else if c == OPEN_BRACE { (TokenKind::LBrace, 1) }
    else if c == CLOSE_BRACE { (TokenKind::RBrace, 1) }
    else if c == OPEN_BRACKET { (TokenKind::LBracket, 1) }
    else if c == CLOSE_BRACKET { (TokenKind::RBracket, 1) }
    else if c == COMMA { (TokenKind::Comma, 1) }
    else if c == SEMICOLON { (TokenKind::Semicolon, 1) }
    else if c == DOT { (TokenKind::Dot, 1) }
    else if c == QUESTION { (TokenKind::Question, 1) }
    else { (TokenKind::Error, 1) }
}

/// The token that starts at `i`, which is in the input and not skipped: its
/// kind and its end.
#[verifier::opaque]
pub open spec fn scan(b: Seq<u8>, i: int) -> (TokenKind, int) {
    let c = b[i];
    if is_digit(c) {
        let e = digits_end(b, i);
        if e + 1 < b.len() && b[e] == DOT && is_digit(b[e + 1]) {
            (TokenKind::Float, digits_end(b, e + 1))
        } else {
            (TokenKind::Int, e)
        }
    } else if is_ident_start(c) {
        let e = ident_end(b, i + 1);
        (word_kind(b.subrange(i, e)), e)
    } else if c == QUOTE {
        if triple_at(b, i) {
            match triple_close(b, i + 3) {
                Some(k) => (TokenKind::TripleString, k + 3),
                None => (TokenKind::String, i + 2),
            }
        } else {
            match string_end(b, i + 1) {
                Some(e) => (TokenKind::String, e),
                None => (TokenKind::Error, i + 1),
            }
        }
    } else {
        let (k, n) = punct(b, i);
        (k, i + n)
    }
}

/// The tokens of the input from index `i` on.
pub open spec fn lex_from(b: Seq<u8>, i: int) -> Seq<Token>
    decreases b.len() - i,
{
    let j = skip(b, i);
    if j < 0 || j >= b.len() || j < i {
        seq![Token { kind: TokenKind::Eof, span: Span { start: b.len() as usize, end: b.len() as usize } }]
    } else {
        let (k, e) = scan(b, j);
        if e > j && e <= b.len() {
            seq![Token { kind: k, span: Span { start: j as usize, end: e as usize } }] + lex_from(b, e)
        } else {
            seq![Token { kind: TokenKind::Eof, span: Span { start: b.len() as usize, end: b.len() as usize } }]
        }
    }
}

proof fn lemma_digits_end(b: Seq<u8>, i: int)
    requires
        0 <= i <= b.len(),
    ensures
        i <= digits_end(b, i) <= b.len(),
    decreases b.len() - i,
{
    if i < b.len() && is_digit(b[i]) {
        lemma_digits_end(b, i + 1);
    }
}

proof fn lemma_ident_end(b: Seq<u8>, i: int)
    requires
        0 <= i <= b.len(),
    ensures
        i <= ident_end(b, i) <= b.len(),
    decreases b.len() - i,
{
    if i < b.len() && is_ident_byte(b[i]) {
        lemma_ident_end(b, i + 1);
    }
}

proof fn lemma_line_end(b: Seq<u8>, i: int)
    requires
        0 <= i <= b.len(),
    ensures
        i <= line_end(b, i) <= b.len(),
    decreases b.len() - i,
{
    if i < b.len() && b[i] != NEWLINE {
        lemma_line_end(b, i + 1);
    }
}

proof fn lemma_skip(b: Seq<u8>, i: int)
    requires
        0 <= i <= b.len(),
    ensures
        i <= skip(b, i) <= b.len(),
    decreases b.len() - i,
{
    if i < b.len() {
        if is_space_byte(b[i]) {
            lemma_skip(b, i + 1);
        } else if comment_at(b, i) {
            lemma_line_end(b, i + 2);
            lemma_skip(b, line_end(b, i + 2));
        }
    }
}

proof fn lemma_string_end(b: Seq<u8>, j: int)
    requires
        0 <= j,
    ensures
        string_end(b, j) matches Some(e) ==> j < e <= b.len(),
    decreases b.len() - j,
{
    if 0 <= j < b.len() && b[j] != QUOTE {
        if b[j] == BACKSLASH {
            if j + 1 < b.len() {
                lemma_string_end(b, j + 2);
            }
        } else {
            lemma_string_end(b, j + 1);
        }
    }
}

proof fn lemma_triple_close(b: Seq<u8>, j: int)
    requires
        0 <= j,
    ensures
        triple_close(b, j) matches Some(k) ==> j <= k && k + 3 <= b.len(),
    decreases b.len() - j,
{
    if j + 2 < b.len() && !triple_at(b, j) {
        lemma_triple_close(b, j + 1);
    }
}

/// The token found at a position that skipping stops at ends after it and
/// within the input.
pub proof fn lemma_scan(b: Seq<u8>, i: int)
    requires
        0 <= i < b.len(),
    ensures
        i < scan(b, i).1 <= b.len(),
        scan(b, i).0 != TokenKind::Eof,
{
    reveal(scan);
    lemma_digits_end(b, i);
    lemma_digits_end(b, i + 1);
    lemma_ident_end(b, i + 1);
    let e = digits_end(b, i);
    if e + 1 < b.len() {
        lemma_digits_end(b, e + 1);
    }
    lemma_string_end(b, i + 1);
    lemma_triple_close(b, i + 3);
    assert(lookup_from(b.subrange(i, ident_end(b, i + 1)), 0) != TokenKind::Eof) by {
        lemma_lookup_not_eof(b.subrange(i, ident_end(b, i + 1)), 0);
    }
}

proof fn lemma_lookup_not_eof(w: Seq<u8>, k: int)
    ensures
        lookup_from(w, k) != TokenKind::Eof,
    decreases keyword_table().len() - k,
{
    if 0 <= k < keyword_table().len() && w != bytes(keyword_table()[k].0) {
        lemma_lookup_not_eof(w, k + 1);
    }
}

fn is_digit_byte(c: u8) -> (r: bool)
    ensures
        r == is_digit(c),
{
    DIGIT_0 <= c && c <= DIGIT_9
}

fn starts_ident(c: u8) -> (r: bool)
    ensures
        r == is_ident_start(c),
{
    (LOWER_A <= c && c <= LOWER_Z) || (UPPER_A <= c && c <= UPPER_Z) || c == UNDERSCORE
}

fn continues_ident(c: u8) -> (r: bool)
    ensures
        r == is_ident_byte(c),
{
    starts_ident(c) || is_digit_byte(c)
}

fn digits_end_at(b: &[u8], i: usize) -> (r: usize)
    requires
        i <= b@.len(),
    ensures
        r == digits_end(b@, i as int),
{
    let mut j = i;
    while j < b.len() && is_digit_byte(b[j])
        invariant
            i <= j <= b@.len(),
            digits_end(b@, i as int) == digits_end(b@, j as int),
        decreases b@.len() - j,
    {
        j = j + 1;
    }
    j
}

fn ident_end_at(b: &[u8], i: usize) -> (r: usize)
    requires
        i <= b@.len(),
    ensures
        r == ident_end(b@, i as int),
{
    let mut j = i;
    while j < b.len() && continues_ident(b[j])
        invariant
            i <= j <= b@.len(),
            ident_end(b@, i as int) == ident_end(b@, j as int),
        decreases b@.len() - j,
    {
        j = j + 1;
    }
    j
}

fn line_end_at(b: &[u8], i: usize) -> (r: usize)
    requires
        i <= b@.len(),
    ensures
        r == line_end(b@, i as int),
{
    let mut j = i;
    while j < b.len() && b[j] != NEWLINE
        invariant
            i <= j <= b@.len(),
            line_end(b@, i as int) == line_end(b@, j as int),
        decreases b@.len() - j,
    {
        j = j + 1;
    }
    j
}

fn skip_at(b: &[u8], i: usize) -> (r: usize)
    requires
        i <= b@.len(),
    ensures
        r == skip(b@, i as int),
{
    let mut j = i;
    loop
        invariant
            i <= j <= b@.len(),
            skip(b@, i as int) == skip(b@, j as int),
        decreases b@.len() - j,
    {
        if j >= b.len() {
            return j;
        }
        let c = b[j];
        if c == SPACE || c == TAB || c == NEWLINE || c == RETURN || c == FORM_FEED {
            j = j + 1;
        } else if c == SLASH && j + 1 < b.len() && b[j + 1] == SLASH {
            proof {
                lemma_line_end(b@, j + 2);
            }
            j = line_end_at(b, j + 2);
        } else {
            return j;
        }
    }
}

fn string_end_at(b: &[u8], j: usize) -> (r: Option<usize>)
    requires
        j <= b@.len(),
    ensures
        match string_end(b@, j as int) {
            Some(e) => r == Some(e as usize),
            None => r is None,
        },
{
    let mut k = j;
    loop
        invariant
            j <= k <= b@.len(),
            string_end(b@, j as int) == string_end(b@, k as int),
        decreases b@.len() - k,
    {
        if k >= b.len() {
            return None;
        }
        let c = b[k];
        if c == QUOTE {
            return Some(k + 1);
        } else if c == BACKSLASH {
            if k + 1 < b.len() {
                let d = b[k + 1];
                if d == QUOTE || d == BACKSLASH || d == LOWER_N || d == LOWER_T || d == LOWER_R {
                    k = k + 2;
                } else {
                    return None;
                }
            } else {
                return None;
            }
        } else {
            k = k + 1;
        }
    }
}

fn triple_at_exec(b: &[u8], j: usize) -> (r: bool)
    ensures
        r == triple_at(b@, j as int),
{
    j < b.len() && b.len() - j > 2 && b[j] == QUOTE && b[j + 1] == QUOTE && b[j + 2] == QUOTE
}

fn triple_close_at(b: &[u8], j: usize) -> (r: Option<usize>)
    requires
        j <= b@.len(),
    ensures
        match triple_close(b@, j as int) {
            Some(e) => r == Some(e as usize),
            None => r is None,
        },
{
    let mut k = j;
    loop
        invariant
            j <= k <= b@.len(),
            triple_close(b@, j as int) == triple_close(b@, k as int),
        decreases b@.len() - k,
    {
        if b.len() - k <= 2 {
            return None;
        }
        if triple_at_exec(b, k) {
            return Some(k);
        }
        k = k + 1;
    }
}

fn keyword_entry(k: usize) -> (r: (&'static str, TokenKind))
    requires
        k < keyword_table().len(),
    ensures
        r.0@ == keyword_table()[k as int].0,
        r.1 == keyword_table()[k as int].1,
{
    match k {
        0 => ("snippet", TokenKind::Snippet),
        1 => ("id", TokenKind::Id),
        2 => ("kind", TokenKind::Kind),
        3 => ("signature", TokenKind::Signature),
        4 => ("body", TokenKind::Body),
        5 => ("end", TokenKind::End),
        6 => ("effects", TokenKind::Effects),
        7 => ("effect", TokenKind::Effect),
        8 => ("requires", TokenKind::Requires),
        9 => ("req", TokenKind::Req),
        10 => ("tests", TokenKind::Tests),
        11 => ("test", TokenKind::Test),
        12 => ("relations", TokenKind::Relations),
        13 => ("metadata", TokenKind::Metadata),
        14 => ("step", TokenKind::Step),
        15 => ("op", TokenKind::Op),
        16 => ("input", TokenKind::Input),
        17 => ("var", TokenKind::Var),
        18 => ("lit", TokenKind::Lit),
        19 => ("as", TokenKind::As),
        20 => ("let", TokenKind::Let),
        21 => ("add", TokenKind::Add),
        22 => ("sub", TokenKind::Sub),
        23 => ("mul", TokenKind::Mul),
        24 => ("div", TokenKind::Div),
        25 => ("mod", TokenKind::Mod),
        26 => ("equals", TokenKind::Equals),
        27 => ("not_equals", TokenKind::NotEquals),
        28 => ("less", TokenKind::Less),
        29 => ("less_eq", TokenKind::LessEq),
        30 => ("greater", TokenKind::Greater),
        31 => ("greater_eq", TokenKind::GreaterEq),
        32 => ("and", TokenKind::And),
        33 => ("or", TokenKind::Or),
        34 => ("not", TokenKind::Not),
        35 => ("neg", TokenKind::Neg),
        36 => ("select", TokenKind::Select),
        37 => ("from", TokenKind::From),
        38 => ("where", TokenKind::Where),
        39 => ("order", TokenKind::Order),
        40 => ("by", TokenKind::By),
        41 => ("limit", TokenKind::Limit),
        42 => ("true", TokenKind::True),
        43 => ("false", TokenKind::False),
        _ => ("none", TokenKind::NoneLit),
    }
}

pub(crate) fn same_bytes(b: &[u8], i: usize, e: usize, w: &[u8]) -> (r: bool)
    requires
        i <= e <= b@.len(),
    ensures
        r == (b@.subrange(i as int, e as int) == w@),
{
    if e - i != w.len() {
        return false;
    }
    let mut k: usize = 0;
    while k < w.len()
        invariant
            e - i == w@.len(),
            i <= e <= b@.len(),
            k <= w@.len(),
            forall|m: int| 0 <= m < k ==> b@[i + m] == w@[m],
        decreases w@.len() - k,
    {
        if b[i + k] != w[k] {
            assert(b@.subrange(i as int, e as int)[k as int] != w@[k as int]);
            return false;
        }
        k = k + 1;
    }
    assert(b@.subrange(i as int, e as int) =~= w@);
    true
}

fn word_kind_at(b: &[u8], i: usize, e: usize) -> (r: TokenKind)
    requires
        i <= e <= b@.len(),
    ensures
        r == word_kind(b@.subrange(i as int, e as int)),
{
    let ghost w = b@.subrange(i as int, e as int);
    let n: usize = 45;
    assert(keyword_table().len() == 45);
    let mut k: usize = 0;
    while k < n
        invariant
            n == keyword_table().len(),
            k <= n,
            i <= e <= b@.len(),
            w == b@.subrange(i as int, e as int),
            lookup_from(w, 0) == lookup_from(w, k as int),
        decreases n - k,
    {
        let (text, kind) = keyword_entry(k);
        if same_bytes(b, i, e, text.as_bytes()) {
            return kind;
        }
        k = k + 1;
    }
    TokenKind::Ident
}

fn punct_at(b: &[u8], i: usize) -> (r: (TokenKind, usize))
    requires
        i < b@.len(),
    ensures
        r.0 == punct(b@, i as int).0,
        r.1 == punct(b@, i as int).1,
{
    let c = b[i];
    let d: u8 = if i + 1 < b.len() { b[i + 1] } else { 0u8 };
    if c == COLON {
        if d == EQUALS_SIGN { (TokenKind::ColonEq, 2) } else if d == COLON { (TokenKind::ColonColon, 2) } else { (TokenKind::Colon, 1) }
    } else if c == EQUALS_SIGN {
        if d == GREATER_SIGN { (TokenKind::FatArrow, 2) } else { (TokenKind::Eq, 1) }
    } else if c == BANG {
        if d == EQUALS_SIGN { (TokenKind::Ne, 2) } else { (TokenKind::Bang, 1) }
    } else if c == LESS_SIGN {
        if d == EQUALS_SIGN { (TokenKind::Le, 2) } else { (TokenKind::Lt, 1) }
    } else if c == GREATER_SIGN {
        if d == EQUALS_SIGN { (TokenKind::Ge, 2) } else { (TokenKind::Gt, 1) }
    } else if c == MINUS_SIGN {
        if d == GREATER_SIGN { (TokenKind::Arrow, 2) } else { (TokenKind::Minus, 1) }
    } else if c == AMPERSAND {
        if d == AMPERSAND { (TokenKind::AndAnd, 2) } else { (TokenKind::Error, 1) }
    } else if c == BAR {
        if d == BAR { (TokenKind::OrOr, 2) } else { (TokenKind::Pipe, 1) }
    } else if c == PLUS_SIGN { (TokenKind::Plus, 1) }
    else if c == STAR { (TokenKind::Star, 1) }
    else if c == SLASH { (TokenKind::Slash, 1) }
    else if c == PERCENT { (TokenKind::Percent, 1) }
    else if c == OPEN_PAREN { (TokenKind::LParen, 1) }
    else if c == CLOSE_PAREN { (TokenKind::RParen, 1) }
    else if c == OPEN_BRACE { (TokenKind::LBrace, 1) }
    else if c == CLOSE_BRACE { (TokenKind::RBrace, 1) }
    else if c == OPEN_BRACKET { (TokenKind::LBracket, 1) }
    else if c == CLOSE_BRACKET { (TokenKind::RBracket, 1) }
    else if c == COMMA { (TokenKind::Comma, 1) }
    else if c == SEMICOLON { (TokenKind::Semicolon, 1) }
    else if c == DOT { (TokenKind::Dot, 1) }
    else if c == QUESTION { (TokenKind::Question, 1) }
    else { (TokenKind::Error, 1) }
}

fn scan_at(b: &[u8], i: usize) -> (r: (TokenKind, usize))
    requires
        i < b@.len(),
    ensures
        r.0 == scan(b@, i as int).0,
        r.1 == scan(b@, i as int).1,
{
    proof {
        reveal(scan);
        lemma_scan(b@, i as int);
        lemma_digits_end(b@, i as int);
        lemma_ident_end(b@, i as int + 1);
    }
    let c = b[i];
    if is_digit_byte(c) {
        let e = digits_end_at(b, i);
        if e < b.len() && b.len() - e > 1 && b[e] == DOT && is_digit_byte(b[e + 1]) {
            proof {
                lemma_digits_end(b@, e + 1);
            }
            (TokenKind::Float, digits_end_at(b, e + 1))
        } else {
            (TokenKind::Int, e)
        }
    } else if starts_ident(c) {
        let e = ident_end_at(b, i + 1);
        (word_kind_at(b, i, e), e)
    } else if c == QUOTE {
        if triple_at_exec(b, i) {
            proof {
                lemma_triple_close(b@, i + 3);
            }
            match triple_close_at(b, i + 3) {
                Some(k) => (TokenKind::TripleString, k + 3),
                None => (TokenKind::String, i + 2),
            }
        } else {
            proof {
                lemma_string_end(b@, i + 1);
            }
            match string_end_at(b, i + 1) {
                Some(e) => (TokenKind::String, e),
                None => (TokenKind::Error, i + 1),
            }
        }
    } else {
        let (k, n) = punct_at(b, i);
        (k, i + n)
    }
}

/// The tokens of a source text, ending with `Eof`.
pub fn tokenize(source: &str) -> (r: Vec<Token>)
    ensures
        r@ == lex_from(bytes(source@), 0),
{
    let b = source.as_bytes();
    let ghost bs = b@;
    assert(bs == bytes(source@));
    let mut tokens: Vec<Token> = Vec::new();
    let mut pos: usize = 0;
    loop
        invariant
            bs == b@,
            bs == bytes(source@),
            pos <= b@.len(),
            tokens@ + lex_from(bs, pos as int) == lex_from(bs, 0),
        decreases b@.len() - pos,
    {
        proof {
            lemma_skip(bs, pos as int);
        }
        let j = skip_at(b, pos);
        if j >= b.len() {
            let eof = Token { kind: TokenKind::Eof, span: Span::new(b.len(), b.len()) };
            let ghost before = tokens@;
            tokens.push(eof);
            assert(lex_from(bs, pos as int) == seq![eof]);
            assert(tokens@ =~= before + seq![eof]);
            return tokens;
        }
        proof {
            lemma_scan(bs, j as int);
        }
        let (kind, e) = scan_at(b, j);
        let t = Token { kind, span: Span::new(j, e) };
        let ghost before = tokens@;
        proof {
            assert(lex_from(bs, pos as int) == seq![t] + lex_from(bs, e as int));
        }
        tokens.push(t);
        assert(tokens@ + lex_from(bs, e as int) =~= before + (seq![t] + lex_from(bs, e as int)));
        pos = e;
    }
}

/// Relies on indexing a `str` by a byte range: the text between two
/// character boundaries, whose bytes are those of the range.
#[verifier::external_body]
fn str_slice(s: &str, start: usize, end: usize) -> (r: &str)
    requires
        start <= end <= bytes(s@).len(),
        is_char_boundary(bytes(s@), start as int),
        is_char_boundary(bytes(s@), end as int),
    ensures
        bytes(r@) == bytes(s@).subrange(start as int, end as int),
{
    &s[start..end]
}

impl Token {
    /// The source text that the token spans.
    pub fn text<'a>(&self, source: &'a str) -> (r: &'a str)
        requires
            self.span.start <= self.span.end <= bytes(source@).len(),
            is_char_boundary(bytes(source@), self.span.start as int),
            is_char_boundary(bytes(source@), self.span.end as int),
        ensures
            bytes(r@) == bytes(source@).subrange(self.span.start as int, self.span.end as int),
    {
        str_slice(source, self.span.start, self.span.end)
    }
}

/// The tokens of `r`, lexed from index `i`, satisfy the shape of a token
/// stream: one `Eof` token last, at the end of the input; every other token
/// non-empty and inside the input; and each token starting where skipping
/// white space and comments from the end of the one before (or from `i`)
/// stops.
pub open spec fn lexed_well(b: Seq<u8>, r: Seq<Token>, i: int) -> bool {
    &&& r.len() >= 1
    &&& r.last().kind == TokenKind::Eof
    &&& r.last().span.start == b.len()
    &&& r.last().span.end == b.len()
    &&& forall|k: int|
        0 <= k < r.len() - 1 ==> (#[trigger] r[k]).kind != TokenKind::Eof && r[k].span.start
            < r[k].span.end <= b.len()
    &&& r[0].span.start == skip(b, i)
    &&& forall|k: int|
        0 < k < r.len() ==> (#[trigger] r[k]).span.start == skip(b, r[k - 1].span.end as int)
}

#[verifier::rlimit(100)]
proof fn lemma_lex_from(b: Seq<u8>, i: int)
    requires
        0 <= i <= b.len(),
        b.len() <= usize::MAX,
    ensures
        lexed_well(b, lex_from(b, i), i),
    decreases b.len() - i,
{
    lemma_skip(b, i);
    let j = skip(b, i);
    let r = lex_from(b, i);
    if j < b.len() {
        lemma_scan(b, j);
        let e = scan(b, j).1;
        lemma_lex_from(b, e);
        let rest = lex_from(b, e);
        let t = Token { kind: scan(b, j).0, span: Span { start: j as usize, end: e as usize } };
        assert(r == seq![t] + rest);
        assert forall|k: int| 0 <= k < r.len() - 1 implies (#[trigger] r[k]).kind != TokenKind::Eof
            && r[k].span.start < r[k].span.end <= b.len() by {
            if k > 0 {
                assert(r[k] == rest[k - 1]);
            }
        }
        assert forall|k: int| 0 < k < r.len() implies (#[trigger] r[k]).span.start == skip(
            b,
            r[k - 1].span.end as int,
        ) by {
            assert(r[k] == rest[k - 1]);
            if k > 1 {
                assert(r[k - 1] == rest[k - 2]);
            }
        }
    }
}

/// Lexing always ends: the stream closes with exactly one `Eof` token at the
/// end of the input, and the tokens before it are non-empty, in order and
/// disjoint, each starting where skipping white space and comments from the
/// end of the one before stops, so that every other byte is covered by
/// exactly one token.
pub proof fn lemma_lexer_totality(b: Seq<u8>)
    requires
        b.len() <= usize::MAX,
    ensures
        lexed_well(b, lex_from(b, 0), 0),
{
    lemma_lex_from(b, 0);
}

} // verus!
