//! The snippet parser: reads the token stream into a program of snippets.
//! The header `snippet id=".." kind=".."` and the `requires`, `tests`,
//! `effects`, `relations` and `content` sections are read into the tree; the
//! other sections are checked for balanced `end`s and kept as
//! `Section::Other`.

use vstd::prelude::*;
use crate::ast::{
    CasePattern, EnumSignature, FnSignature, Literal, MatchCase, Param, Priority, Program, Relation,
    ReqStatus, Requirement, Section, Snippet, Span, Step, StepInput, StepKind, StructSignature,
    TestDecl, TestKind, VariantSignature,
};
use crate::lexer::{lemma_lexer_totality, lex_from, same_bytes, tokenize, Token, TokenKind};
use crate::text::{bytes, copy_str, push_str};

verus! {

/// The kinds of parse error.
#[derive(Clone, Copy, Debug, PartialEq, Eq, Structural)]
pub enum ParseErrorKind {
    UnexpectedToken,
    UnexpectedEof,
    UnknownAttribute,
    MissingAttribute,
    UnclosedBlock,
    /// A second snippet with an id already used.
    DuplicateSnippet,
}

/// A parse error: what went wrong, where, and what was expected there.
#[derive(Debug)]
pub struct ParseError {
    pub kind: ParseErrorKind,
    pub span: Span,
    pub expected: Vec<String>,
}

/// The token stream is well formed for `b`: one `Eof` last, every other
/// token non-empty and inside the input.
pub open spec fn wf_tokens(b: Seq<u8>, t: Seq<Token>) -> bool {
    &&& t.len() >= 1
    &&& t.last().kind == TokenKind::Eof
    &&& forall|i: int|
        0 <= i < t.len() - 1 ==> (#[trigger] t[i]).kind != TokenKind::Eof && t[i].span.start
            < t[i].span.end <= b.len()
}

/// Ready to read the token at `pos`.
pub open spec fn ready(src: &str, b: &[u8], toks: &Vec<Token>, pos: usize) -> bool {
    b@ == bytes(src@) && wf_tokens(b@, toks@) && pos < toks@.len()
}

/// The snippet ids of a program are pairwise distinct.
pub open spec fn unique_snippet_ids(s: Seq<Snippet>) -> bool {
    forall|i: int, j: int| 0 <= i < s.len() && 0 <= j < s.len() && i != j ==> s[i].id@ != s[j].id@
}

/// Relies on `str::get` with a byte range: the text between two character
/// boundaries, and `None` for a range that is reversed, out of bounds or not
/// on character boundaries.
#[verifier::external_body]
fn str_get(s: &str, start: usize, end: usize) -> (r: Option<&str>)
    ensures
        r matches Some(t) ==> bytes(t@) == bytes(s@).subrange(start as int, end as int),
{
    s.get(start..end)
}

fn error(kind: ParseErrorKind, span: Span, expected: &str) -> (r: ParseError)
    ensures
        r.kind == kind,
        r.span == span,
{
    let mut e: Vec<String> = Vec::new();
    e.push(copy_str(expected));
    ParseError { kind, span, expected: e }
}

fn next(toks: &Vec<Token>, pos: usize) -> (r: usize)
    requires
        toks@.len() >= 1,
        toks@.last().kind == TokenKind::Eof,
        pos < toks@.len(),
    ensures
        r < toks@.len(),
        pos <= r <= pos + 1,
        toks@[pos as int].kind != TokenKind::Eof ==> r == pos + 1,
{
    proof {
        if pos as int == toks@.len() - 1 {
            assert(toks@[pos as int] == toks@.last());
        }
    }
    if toks[pos].kind == TokenKind::Eof || pos >= toks.len() - 1 {
        pos
    } else {
        pos + 1
    }
}

/// The token spells `w`.
fn word_is(b: &[u8], t: &Token, w: &str) -> (r: bool)
    requires
        t.kind != TokenKind::Eof ==> t.span.start < t.span.end <= b@.len(),
{
    if t.kind == TokenKind::Eof {
        return false;
    }
    same_bytes(b, t.span.start, t.span.end, w.as_bytes())
}

/// The character that an escape `\c` stands for.
pub open spec fn escaped(c: char) -> char {
    if c == 'n' {
        '\n'
    } else if c == 't' {
        '\t'
    } else if c == 'r' {
        '\r'
    } else {
        c
    }
}

/// String contents with their escapes decoded: a backslash and the
/// character after it stand for `escaped` of that character.
pub open spec fn unescaped(s: Seq<char>) -> Seq<char>
    decreases s.len(),
{
    if s.len() == 0 {
        s
    } else if s[0] == '\\' && s.len() > 1 {
        seq![escaped(s[1])] + unescaped(s.subrange(2, s.len() as int))
    } else {
        seq![s[0]] + unescaped(s.subrange(1, s.len() as int))
    }
}

/// Decodes the escapes `\"`, `\\`, `\n`, `\t` and `\r` of string contents.
fn unescape(s: &str) -> (r: String)
    ensures
        r@ == unescaped(s@),
{
    let n = s.unicode_len();
    let mut out = String::new();
    let mut i: usize = 0;
    proof {
        assert(s@.subrange(0, n as int) =~= s@);
    }
    while i < n
        invariant
            n == s@.len(),
            i <= n,
            out@ + unescaped(s@.subrange(i as int, n as int)) == unescaped(s@),
        decreases n - i,
    {
        let ghost rest = s@.subrange(i as int, n as int);
        let c = s.get_char(i);
        if c == '\\' && i + 1 < n {
            let d = s.get_char(i + 1);
            proof {
                assert(rest.subrange(2, rest.len() as int) =~= s@.subrange(i + 2, n as int));
                assert(rest[0] == c && rest[1] == d);
            }
            let ghost before = out@;
            proof {
                reveal_strlit("\n");
                reveal_strlit("\t");
                reveal_strlit("\r");
            }
            if d == 'n' {
                push_str(&mut out, "\n");
            } else if d == 't' {
                push_str(&mut out, "\t");
            } else if d == 'r' {
                push_str(&mut out, "\r");
            } else {
                let one = s.substring_char(i + 1, i + 2);
                assert(one@ =~= seq![d]);
                push_str(&mut out, one);
            }
            assert(out@ =~= before + seq![escaped(d)]);
            i = i + 2;
        } else {
            proof {
                assert(rest.subrange(1, rest.len() as int) =~= s@.subrange(i + 1, n as int));
                assert(rest[0] == c);
            }
            let ghost before = out@;
            let one = s.substring_char(i, i + 1);
            assert(one@ =~= seq![c]);
            push_str(&mut out, one);
            assert(out@ =~= before + seq![c]);
            i = i + 1;
        }
    }
    assert(s@.subrange(n as int, n as int) =~= Seq::<char>::empty());
    out
}

/// The value of a string token of `src`: its contents between the quotes,
/// with escapes decoded.
pub open spec fn string_value(src: Seq<char>, t: Token) -> Seq<char> {
    unescaped(src.subrange(t.span.start + 1, t.span.end - 1))
}

/// The token at `i` is a string of at least its two quotes.
pub open spec fn string_token(t: Seq<Token>, i: int) -> bool {
    0 <= i < t.len() && t[i].kind == TokenKind::String && t[i].span.end >= t[i].span.start + 2
}

/// The value of the string literal at `pos`, and the position after it.
fn string_at(src: &str, b: &[u8], toks: &Vec<Token>, pos: usize) -> (r: Result<(String, usize), ParseError>)
    requires
        ready(src, b, toks, pos),
    ensures
        r matches Ok((_, p)) ==> pos < p < toks@.len(),
        src.is_ascii() && string_token(toks@, pos as int) && pos < toks@.len() - 1 ==> (r matches Ok(
            (v, p),
        ) && p == pos + 1 && v@ == string_value(src@, toks@[pos as int])),
{
    let t = toks[pos];
    let (open, close): (usize, usize) = if t.kind == TokenKind::String {
        (1, 1)
    } else if t.kind == TokenKind::TripleString {
        (3, 3)
    } else {
        return Err(error(ParseErrorKind::UnexpectedToken, t.span, "string"));
    };
    if t.span.end - t.span.start < open + close {
        return Err(error(ParseErrorKind::UnexpectedToken, t.span, "string"));
    }
    if src.is_ascii() && t.span.end <= src.unicode_len() {
        let inner = src.substring_ascii(t.span.start + open, t.span.end - close);
        return Ok((unescape(inner), next(toks, pos)));
    }
    proof {
        if src.is_ascii() && string_token(toks@, pos as int) && pos < toks@.len() - 1 {
            assert(toks@[pos as int].kind != TokenKind::Eof);
            vstd::string::is_ascii_spec_bytes(src);
            assert(bytes(src@).len() == src@.len());
        }
    }
    match str_get(src, t.span.start + open, t.span.end - close) {
        Some(inner) => Ok((unescape(inner), next(toks, pos))),
        None => Err(error(ParseErrorKind::UnexpectedToken, t.span, "string")),
    }
}

/// The text of the name at `pos`, and the position after it.
fn name_at(src: &str, b: &[u8], toks: &Vec<Token>, pos: usize) -> (r: Result<(String, usize), ParseError>)
    requires
        ready(src, b, toks, pos),
    ensures
        r matches Ok((_, p)) ==> pos < p < toks@.len(),
{
    let t = toks[pos];
    if t.kind == TokenKind::Eof || t.kind == TokenKind::String || t.kind == TokenKind::TripleString
        || t.kind == TokenKind::Error || t.kind == TokenKind::End {
        return Err(error(ParseErrorKind::UnexpectedToken, t.span, "name"));
    }
    match str_get(src, t.span.start, t.span.end) {
        Some(text) => Ok((copy_str(text), next(toks, pos))),
        None => Err(error(ParseErrorKind::UnexpectedToken, t.span, "name")),
    }
}

/// Reads `name = "value"` at `pos`: the value and the position after it.
fn attr_value(src: &str, b: &[u8], toks: &Vec<Token>, pos: usize) -> (r: Result<(String, usize), ParseError>)
    requires
        ready(src, b, toks, pos),
    ensures
        r matches Ok((_, p)) ==> pos < p < toks@.len(),
        src.is_ascii() && pos + 2 < toks@.len() - 1 && toks@[pos + 1].kind == TokenKind::Eq
            && string_token(toks@, pos + 2) ==> (r matches Ok((v, p)) && p == pos + 3 && v@
            == string_value(src@, toks@[pos + 2])),
{
    let p = next(toks, pos);
    if toks[p].kind != TokenKind::Eq {
        return Err(error(ParseErrorKind::UnexpectedToken, toks[p].span, "="));
    }
    let q = next(toks, p);
    string_at(src, b, toks, q)
}

/// Whether the token at `pos` is a word followed by `=`.
fn is_attr(toks: &Vec<Token>, pos: usize) -> (r: bool)
    requires
        pos < toks@.len(),
        toks@.len() >= 1,
        toks@.last().kind == TokenKind::Eof,
    ensures
        r == (toks@[pos as int].kind != TokenKind::Eof && pos < toks@.len() - 1 && toks@[pos + 1].kind
            == TokenKind::Eq),
{
    if toks[pos].kind == TokenKind::Eof || pos >= toks.len() - 1 {
        return false;
    }
    toks[pos + 1].kind == TokenKind::Eq
}

/// Whether the token opens a block that an `end` closes.
fn opens_block(b: &[u8], toks: &Vec<Token>, pos: usize, prev_case: bool) -> (r: bool)
    requires
        pos < toks@.len(),
        wf_tokens(b@, toks@),
{
    let t = toks[pos];
    if is_attr(toks, pos) {
        return false;
    }
    match t.kind {
        TokenKind::Step | TokenKind::Where | TokenKind::Body | TokenKind::Req | TokenKind::Test
        | TokenKind::Effects | TokenKind::Requires | TokenKind::Tests | TokenKind::Signature
        | TokenKind::Relations | TokenKind::Metadata => true,
        TokenKind::Ident => {
            word_is(b, &t, "fn") || word_is(b, &t, "struct") || word_is(b, &t, "enum")
                || (word_is(b, &t, "variant") && !prev_case) || word_is(b, &t, "then")
                || word_is(b, &t, "else") || word_is(b, &t, "case") || word_is(b, &t, "params")
                || word_is(b, &t, "union")
        },
        _ => false,
    }
}

/// Skips a block whose opening keyword is just before `pos`, up to and past
/// its matching `end`.
fn skip_block(src: &str, b: &[u8], toks: &Vec<Token>, pos: usize, open: Span) -> (r: Result<usize, ParseError>)
    requires
        ready(src, b, toks, pos),
    ensures
        r matches Ok(p) ==> pos < p < toks@.len(),
{
    let mut depth: usize = 1;
    let mut p = pos;
    let mut prev_case = false;
    loop
        invariant
            ready(src, b, toks, p),
            pos <= p,
            1 <= depth,
        decreases toks@.len() - p,
    {
        let t = toks[p];
        if t.kind == TokenKind::Eof {
            return Err(error(ParseErrorKind::UnclosedBlock, open, "end"));
        }
        if t.kind == TokenKind::Error {
            return Err(error(ParseErrorKind::UnexpectedToken, t.span, "token"));
        }
        if t.kind == TokenKind::End {
            if depth == 1 {
                return Ok(next(toks, p));
            }
            depth = depth - 1;
        } else if opens_block(b, toks, p, prev_case) {
            if depth == usize::MAX {
                return Err(error(ParseErrorKind::UnclosedBlock, open, "end"));
            }
            depth = depth + 1;
        }
        prev_case = t.kind == TokenKind::Ident && word_is(b, &t, "case");
        p = next(toks, p);
    }
}

fn priority_of(b: &[u8], t: &Token) -> (r: Option<Priority>)
    requires
        t.kind != TokenKind::Eof ==> t.span.start < t.span.end <= b@.len(),
{
    if word_is(b, t, "critical") {
        Some(Priority::Critical)
    } else if word_is(b, t, "high") {
        Some(Priority::High)
    } else if word_is(b, t, "medium") {
        Some(Priority::Medium)
    } else if word_is(b, t, "low") {
        Some(Priority::Low)
    } else {
        None
    }
}

fn status_of(b: &[u8], t: &Token) -> (r: Option<ReqStatus>)
    requires
        t.kind != TokenKind::Eof ==> t.span.start < t.span.end <= b@.len(),
{
    if word_is(b, t, "draft") {
        Some(ReqStatus::Draft)
    } else if word_is(b, t, "approved") {
        Some(ReqStatus::Approved)
    } else if word_is(b, t, "implemented") {
        Some(ReqStatus::Implemented)
    } else if word_is(b, t, "tested") {
        Some(ReqStatus::Tested)
    } else {
        None
    }
}

fn test_kind_of(s: &str) -> (r: Option<TestKind>) {
    if crate::text::str_eq(s, "unit") {
        Some(TestKind::Unit)
    } else if crate::text::str_eq(s, "integration") {
        Some(TestKind::Integration)
    } else if crate::text::str_eq(s, "golden") {
        Some(TestKind::Golden)
    } else if crate::text::str_eq(s, "property") {
        Some(TestKind::Property)
    } else {
        None
    }
}

proof fn lemma_token_bounds(b: Seq<u8>, t: Seq<Token>, p: int)
    requires
        wf_tokens(b, t),
        0 <= p < t.len(),
    ensures
        t[p].kind != TokenKind::Eof ==> t[p].span.start < t[p].span.end <= b.len(),
{
    if p < t.len() - 1 {
        assert(t[p].kind != TokenKind::Eof);
    }
}

/// Reads a `req` entry whose keyword is at `pos`.
fn parse_req(src: &str, b: &[u8], toks: &Vec<Token>, pos: usize) -> (r: Result<(Requirement, usize), ParseError>)
    requires
        ready(src, b, toks, pos),
    ensures
        r matches Ok((_, p)) ==> pos < p < toks@.len(),
{
    let span = toks[pos].span;
    let mut p = next(toks, pos);
    let mut id: Option<String> = None;
    let mut text: Option<String> = None;
    let mut priority: Option<Priority> = None;
    let mut status: Option<ReqStatus> = None;
    loop
        invariant
            ready(src, b, toks, p),
            pos < p || toks@[pos as int].kind == TokenKind::Eof,
            pos <= p,
        decreases toks@.len() - p,
    {
        let t = toks[p];
        proof {
            lemma_token_bounds(b@, toks@, p as int);
        }
        if t.kind == TokenKind::End {
            let q = next(toks, p);
            return match id {
                Some(i) => Ok((Requirement { id: i, text, priority, status, span }, q)),
                None => Err(error(ParseErrorKind::MissingAttribute, span, "id")),
            };
        }
        if t.kind == TokenKind::Eof {
            return Err(error(ParseErrorKind::UnclosedBlock, span, "end"));
        }
        if t.kind == TokenKind::Id && is_attr(toks, p) {
            let (v, q) = attr_value(src, b, toks, p)?;
            id = Some(v);
            p = q;
        } else if word_is(b, &t, "text") {
            let q = next(toks, p);
            let (v, q2) = string_at(src, b, toks, q)?;
            text = Some(v);
            p = q2;
        } else if word_is(b, &t, "priority") || word_is(b, &t, "status") {
            let q = next(toks, p);
            let v = toks[q];
            proof {
                lemma_token_bounds(b@, toks@, q as int);
            }
            if word_is(b, &t, "priority") {
                match priority_of(b, &v) {
                    Some(x) => priority = Some(x),
                    None => {
                        return Err(error(ParseErrorKind::UnexpectedToken, v.span, "priority"));
                    },
                }
            } else {
                match status_of(b, &v) {
                    Some(x) => status = Some(x),
                    None => {
                        return Err(error(ParseErrorKind::UnexpectedToken, v.span, "status"));
                    },
                }
            }
            p = next(toks, q);
            if p == q {
                return Err(error(ParseErrorKind::UnexpectedEof, v.span, "end"));
            }
        } else {
            return Err(error(ParseErrorKind::UnknownAttribute, t.span, "id, text, priority, status or end"));
        }
    }
}

/// Reads a `test` entry whose keyword is at `pos`.
fn parse_test(src: &str, b: &[u8], toks: &Vec<Token>, pos: usize) -> (r: Result<(TestDecl, usize), ParseError>)
    requires
        ready(src, b, toks, pos),
    ensures
        r matches Ok((_, p)) ==> pos < p < toks@.len(),
{
    let span = toks[pos].span;
    let mut p = next(toks, pos);
    let mut id: Option<String> = None;
    let mut kind: Option<TestKind> = None;
    let mut covers: Vec<String> = Vec::new();
    loop
        invariant
            ready(src, b, toks, p),
            pos < p || toks@[pos as int].kind == TokenKind::Eof,
            pos <= p,
        decreases toks@.len() - p,
    {
        let t = toks[p];
        proof {
            lemma_token_bounds(b@, toks@, p as int);
        }
        if t.kind == TokenKind::End {
            let q = next(toks, p);
            return match (id, kind) {
                (Some(i), Some(k)) => Ok((TestDecl { id: i, kind: k, covers, span }, q)),
                (None, _) => Err(error(ParseErrorKind::MissingAttribute, span, "id")),
                (_, None) => Err(error(ParseErrorKind::MissingAttribute, span, "kind")),
            };
        }
        if t.kind == TokenKind::Eof {
            return Err(error(ParseErrorKind::UnclosedBlock, span, "end"));
        }
        if !is_attr(toks, p) {
            return Err(error(ParseErrorKind::UnexpectedToken, t.span, "attribute or end"));
        }
        let (v, q) = attr_value(src, b, toks, p)?;
        if t.kind == TokenKind::Id {
            id = Some(v);
        } else if t.kind == TokenKind::Kind {
            match test_kind_of(v.as_str()) {
                Some(k) => kind = Some(k),
                None => {
                    return Err(error(ParseErrorKind::UnexpectedToken, t.span, "unit, integration, golden or property"));
                },
            }
        } else if word_is(b, &t, "covers") {
            covers.push(v);
        } else {
            return Err(error(ParseErrorKind::UnknownAttribute, t.span, "id, kind or covers"));
        }
        p = q;
    }
}

/// Reads a `rel` entry whose keyword is at `pos`: `to="id"` and a `type`.
fn parse_rel(src: &str, b: &[u8], toks: &Vec<Token>, pos: usize) -> (r: Result<(Relation, usize), ParseError>)
    requires
        ready(src, b, toks, pos),
    ensures
        r matches Ok((_, p)) ==> pos < p < toks@.len(),
{
    let span = toks[pos].span;
    let mut p = next(toks, pos);
    if p == pos {
        return Err(error(ParseErrorKind::UnexpectedEof, span, "to"));
    }
    let mut to: Option<String> = None;
    let mut rel_type: Option<String> = None;
    while is_attr(toks, p)
        invariant
            ready(src, b, toks, p),
            pos < p,
        decreases toks@.len() - p,
    {
        let t = toks[p];
        proof {
            lemma_token_bounds(b@, toks@, p as int);
        }
        let eq = next(toks, p);
        let v = next(toks, eq);
        let (value, q) = if toks[v].kind == TokenKind::String {
            string_at(src, b, toks, v)?
        } else {
            name_at(src, b, toks, v)?
        };
        if word_is(b, &t, "to") {
            to = Some(value);
        } else if word_is(b, &t, "type") {
            rel_type = Some(value);
        } else {
            return Err(error(ParseErrorKind::UnknownAttribute, t.span, "to or type"));
        }
        p = q;
    }
    match (to, rel_type) {
        (Some(to), Some(rel_type)) => Ok((Relation { to, rel_type, span }, p)),
        (None, _) => Err(error(ParseErrorKind::MissingAttribute, span, "to")),
        (_, None) => Err(error(ParseErrorKind::MissingAttribute, span, "type")),
    }
}

/// Reads the entries of a `requires` or `tests` section, or the names of an
/// `effects` section, whose keyword is just before `pos`.
fn parse_section(src: &str, b: &[u8], toks: &Vec<Token>, pos: usize, which: TokenKind, open: Span) -> (r: Result<(Section, usize), ParseError>)
    requires
        ready(src, b, toks, pos),
    ensures
        r matches Ok((_, p)) ==> pos < p < toks@.len(),
{
    let mut reqs: Vec<Requirement> = Vec::new();
    let mut tests: Vec<TestDecl> = Vec::new();
    let mut effects: Vec<String> = Vec::new();
    let mut rels: Vec<Relation> = Vec::new();
    let mut p = pos;
    loop
        invariant
            ready(src, b, toks, p),
            pos <= p,
        decreases toks@.len() - p,
    {
        let t = toks[p];
        proof {
            lemma_token_bounds(b@, toks@, p as int);
        }
        if t.kind == TokenKind::End {
            let q = next(toks, p);
            let s = if which == TokenKind::Requires {
                Section::Requires(reqs)
            } else if which == TokenKind::Tests {
                Section::Tests(tests)
            } else if which == TokenKind::Relations {
                Section::Relations(rels)
            } else {
                Section::Effects(effects)
            };
            return Ok((s, q));
        }
        if t.kind == TokenKind::Eof {
            return Err(error(ParseErrorKind::UnclosedBlock, open, "end"));
        }
        if which == TokenKind::Requires && t.kind == TokenKind::Req {
            let (x, q) = parse_req(src, b, toks, p)?;
            reqs.push(x);
            p = q;
        } else if which == TokenKind::Tests && t.kind == TokenKind::Test {
            let (x, q) = parse_test(src, b, toks, p)?;
            tests.push(x);
            p = q;
        } else if which == TokenKind::Relations && word_is(b, &t, "rel") {
            let (x, q) = parse_rel(src, b, toks, p)?;
            rels.push(x);
            p = q;
        } else if which == TokenKind::Effects && t.kind == TokenKind::Effect {
            let q = next(toks, p);
            let (name, q2) = name_at(src, b, toks, q)?;
            effects.push(name);
            p = q2;
        } else {
            return Err(error(ParseErrorKind::UnexpectedToken, t.span, "entry or end"));
        }
    }
}

/// Whether the token at `pos` is the word `w` followed by `=`.
fn attr_named(b: &[u8], toks: &Vec<Token>, pos: usize, w: &str) -> (r: bool)
    requires
        wf_tokens(b@, toks@),
        pos < toks@.len(),
{
    proof {
        lemma_token_bounds(b@, toks@, pos as int);
    }
    is_attr(toks, pos) && word_is(b, &toks[pos], w)
}

/// Reads a literal at `pos`: a number (with a leading `-`), a string,
/// `true`, `false` or `none`.
fn literal_at(src: &str, b: &[u8], toks: &Vec<Token>, pos: usize) -> (r: Result<(Literal, usize), ParseError>)
    requires
        ready(src, b, toks, pos),
    ensures
        r matches Ok((_, p)) ==> pos < p < toks@.len(),
{
    let t = toks[pos];
    if t.kind == TokenKind::Int || t.kind == TokenKind::Float {
        let (text, q) = name_at(src, b, toks, pos)?;
        let l = if t.kind == TokenKind::Int { Literal::Int(text) } else { Literal::Float(text) };
        return Ok((l, q));
    }
    if t.kind == TokenKind::Minus {
        let q = next(toks, pos);
        let u = toks[q];
        if q > pos && (u.kind == TokenKind::Int || u.kind == TokenKind::Float) {
            let (digits, q2) = name_at(src, b, toks, q)?;
            let mut text = copy_str("-");
            push_str(&mut text, digits.as_str());
            let l = if u.kind == TokenKind::Int { Literal::Int(text) } else { Literal::Float(text) };
            return Ok((l, q2));
        }
        return Err(error(ParseErrorKind::UnexpectedToken, t.span, "number"));
    }
    if t.kind == TokenKind::String || t.kind == TokenKind::TripleString {
        let (v, q) = string_at(src, b, toks, pos)?;
        return Ok((Literal::Str(v), q));
    }
    let q = next(toks, pos);
    if q == pos {
        return Err(error(ParseErrorKind::UnexpectedEof, t.span, "literal"));
    }
    if t.kind == TokenKind::True {
        Ok((Literal::Bool(true), q))
    } else if t.kind == TokenKind::False {
        Ok((Literal::Bool(false), q))
    } else if t.kind == TokenKind::NoneLit {
        Ok((Literal::NoneLit, q))
    } else {
        Err(error(ParseErrorKind::UnexpectedToken, t.span, "literal"))
    }
}

/// Reads `name = literal` at `pos`.
fn attr_literal(src: &str, b: &[u8], toks: &Vec<Token>, pos: usize) -> (r: Result<(Literal, usize), ParseError>)
    requires
        ready(src, b, toks, pos),
    ensures
        r matches Ok((_, p)) ==> pos < p < toks@.len(),
{
    let eq = next(toks, pos);
    if eq == pos || toks[eq].kind != TokenKind::Eq {
        return Err(error(ParseErrorKind::UnexpectedToken, toks[eq].span, "="));
    }
    let v = next(toks, eq);
    literal_at(src, b, toks, v)
}

/// Reads `name = word` at `pos`, the value being a name or a string.
fn attr_word(src: &str, b: &[u8], toks: &Vec<Token>, pos: usize) -> (r: Result<(String, usize), ParseError>)
    requires
        ready(src, b, toks, pos),
    ensures
        r matches Ok((_, p)) ==> pos < p < toks@.len(),
{
    let eq = next(toks, pos);
    if eq == pos || toks[eq].kind != TokenKind::Eq {
        return Err(error(ParseErrorKind::UnexpectedToken, toks[eq].span, "="));
    }
    let v = next(toks, eq);
    if toks[v].kind == TokenKind::String {
        string_at(src, b, toks, v)
    } else {
        name_at(src, b, toks, v)
    }
}

/// Reads a `fn` signature whose `fn` word is at `pos`, up to and past its `end`.
fn parse_fn_signature(src: &str, b: &[u8], toks: &Vec<Token>, pos: usize) -> (r: Result<(FnSignature, usize), ParseError>)
    requires
        ready(src, b, toks, pos),
    ensures
        r matches Ok((_, p)) ==> pos < p < toks@.len(),
{
    let span = toks[pos].span;
    let mut p = next(toks, pos);
    if p == pos {
        return Err(error(ParseErrorKind::UnexpectedEof, span, "name"));
    }
    let mut name: Option<String> = None;
    let mut params: Vec<Param> = Vec::new();
    let mut return_types: Vec<String> = Vec::new();
    let mut returns_optional = false;
    loop
        invariant
            ready(src, b, toks, p),
            pos < p,
        decreases toks@.len() - p,
    {
        let t = toks[p];
        proof {
            lemma_token_bounds(b@, toks@, p as int);
        }
        if t.kind == TokenKind::End {
            let q = next(toks, p);
            return match name {
                Some(n) => Ok((FnSignature { name: n, params, return_types, returns_optional }, q)),
                None => Err(error(ParseErrorKind::MissingAttribute, span, "name")),
            };
        }
        if t.kind == TokenKind::Eof {
            return Err(error(ParseErrorKind::UnclosedBlock, span, "end"));
        }
        if attr_named(b, toks, p, "name") {
            let (v, q) = attr_value(src, b, toks, p)?;
            name = Some(v);
            p = q;
        } else if word_is(b, &t, "param") {
            let mut q = next(toks, p);
            let mut pname: Option<String> = None;
            let mut pty: Option<String> = None;
            let mut optional = false;
            while q < toks.len() && (is_attr(toks, q) || word_is_at(b, toks, q, "optional"))
                invariant
                    ready(src, b, toks, q),
                    p < q,
                decreases toks@.len() - q,
            {
                if word_is_at(b, toks, q, "optional") && !is_attr(toks, q) {
                    optional = true;
                    let q2 = next(toks, q);
                    if q2 == q {
                        return Err(error(ParseErrorKind::UnexpectedEof, span, "end"));
                    }
                    q = q2;
                } else {
                    let key = toks[q];
                    proof {
                        lemma_token_bounds(b@, toks@, q as int);
                    }
                    let (v, q2) = attr_value(src, b, toks, q)?;
                    if word_is(b, &key, "name") {
                        pname = Some(v);
                    } else if word_is(b, &key, "type") {
                        pty = Some(v);
                    } else {
                        return Err(error(ParseErrorKind::UnknownAttribute, key.span, "name or type"));
                    }
                    q = q2;
                }
            }
            match (pname, pty) {
                (Some(n), Some(ty)) => params.push(Param { name: n, ty, optional }),
                _ => {
                    return Err(error(ParseErrorKind::MissingAttribute, t.span, "name and type"));
                },
            }
            p = q;
        } else if word_is(b, &t, "returns") {
            let q = next(toks, p);
            if q == p {
                return Err(error(ParseErrorKind::UnexpectedEof, t.span, "type"));
            }
            if word_is_at(b, toks, q, "union") && !is_attr(toks, q) {
                let u = next(toks, q);
                let (members, u2) = parse_union(src, b, toks, u, t.span)?;
                return_types = members;
                p = u2;
            } else {
                if !attr_named(b, toks, q, "type") {
                    return Err(error(ParseErrorKind::UnexpectedToken, toks[q].span, "type"));
                }
                let (v, q2) = attr_value(src, b, toks, q)?;
                return_types.push(v);
                p = q2;
                if word_is_at(b, toks, p, "optional") && !is_attr(toks, p) {
                    returns_optional = true;
                    let p2 = next(toks, p);
                    if p2 == p {
                        return Err(error(ParseErrorKind::UnexpectedEof, t.span, "end"));
                    }
                    p = p2;
                }
            }
        } else {
            return Err(error(ParseErrorKind::UnexpectedToken, t.span, "name, param, returns or end"));
        }
    }
}

/// Reads a `field name=".." type=".." [optional]` entry whose `field` word
/// is at `pos`.
fn parse_field(src: &str, b: &[u8], toks: &Vec<Token>, pos: usize) -> (r: Result<(Param, usize), ParseError>)
    requires
        ready(src, b, toks, pos),
    ensures
        r matches Ok((_, p)) ==> pos < p < toks@.len(),
{
    let span = toks[pos].span;
    let mut q = next(toks, pos);
    if q == pos {
        return Err(error(ParseErrorKind::UnexpectedEof, span, "name"));
    }
    let mut name: Option<String> = None;
    let mut ty: Option<String> = None;
    let mut optional = false;
    while q < toks.len() && (is_attr(toks, q) || word_is_at(b, toks, q, "optional"))
        invariant
            ready(src, b, toks, q),
            pos < q,
        decreases toks@.len() - q,
    {
        if word_is_at(b, toks, q, "optional") && !is_attr(toks, q) {
            optional = true;
            let q2 = next(toks, q);
            if q2 == q {
                return Err(error(ParseErrorKind::UnexpectedEof, span, "end"));
            }
            q = q2;
        } else {
            let key = toks[q];
            proof {
                lemma_token_bounds(b@, toks@, q as int);
            }
            let (v, q2) = attr_value(src, b, toks, q)?;
            if word_is(b, &key, "name") {
                name = Some(v);
            } else if word_is(b, &key, "type") {
                ty = Some(v);
            } else {
                return Err(error(ParseErrorKind::UnknownAttribute, key.span, "name or type"));
            }
            q = q2;
        }
    }
    match (name, ty) {
        (Some(n), Some(t)) => Ok((Param { name: n, ty: t, optional }, q)),
        _ => Err(error(ParseErrorKind::MissingAttribute, span, "name and type")),
    }
}

/// Reads `name="..."` and then `field` entries up to and past an `end`; the
/// block's keyword is just before `pos`.
fn parse_fields_block(src: &str, b: &[u8], toks: &Vec<Token>, pos: usize, open: Span) -> (r: Result<(String, Vec<Param>, usize), ParseError>)
    requires
        ready(src, b, toks, pos),
    ensures
        r matches Ok((_, _, p)) ==> pos < p < toks@.len(),
{
    if !attr_named(b, toks, pos, "name") {
        return Err(error(ParseErrorKind::MissingAttribute, open, "name"));
    }
    let (name, mut p) = attr_value(src, b, toks, pos)?;
    let mut fields: Vec<Param> = Vec::new();
    loop
        invariant
            ready(src, b, toks, p),
            pos < p,
        decreases toks@.len() - p,
    {
        let t = toks[p];
        if t.kind == TokenKind::End {
            let q = next(toks, p);
            if q == p {
                return Err(error(ParseErrorKind::UnexpectedEof, open, "end"));
            }
            return Ok((name, fields, q));
        }
        if !word_is_at(b, toks, p, "field") || is_attr(toks, p) {
            return Err(error(ParseErrorKind::UnexpectedToken, t.span, "field or end"));
        }
        let (f, q) = parse_field(src, b, toks, p)?;
        fields.push(f);
        p = q;
    }
}

/// Reads an enum signature: `name=".."`, then `variant` blocks, then `end`.
fn parse_enum_signature(src: &str, b: &[u8], toks: &Vec<Token>, pos: usize, open: Span) -> (r: Result<(EnumSignature, usize), ParseError>)
    requires
        ready(src, b, toks, pos),
    ensures
        r matches Ok((_, p)) ==> pos < p < toks@.len(),
{
    if !attr_named(b, toks, pos, "name") {
        return Err(error(ParseErrorKind::MissingAttribute, open, "name"));
    }
    let (name, mut p) = attr_value(src, b, toks, pos)?;
    let mut variants: Vec<VariantSignature> = Vec::new();
    loop
        invariant
            ready(src, b, toks, p),
            pos < p,
        decreases toks@.len() - p,
    {
        let t = toks[p];
        if t.kind == TokenKind::End {
            let q = next(toks, p);
            if q == p {
                return Err(error(ParseErrorKind::UnexpectedEof, open, "end"));
            }
            return Ok((EnumSignature { name, variants }, q));
        }
        if !word_is_at(b, toks, p, "variant") || is_attr(toks, p) {
            return Err(error(ParseErrorKind::UnexpectedToken, t.span, "variant or end"));
        }
        let q = next(toks, p);
        let (vname, fields, q2) = parse_fields_block(src, b, toks, q, t.span)?;
        variants.push(VariantSignature { name: vname, fields });
        p = q2;
    }
}

/// Reads the `type="..."` members of a union up to and past its `end`.
fn parse_union(src: &str, b: &[u8], toks: &Vec<Token>, pos: usize, open: Span) -> (r: Result<(Vec<String>, usize), ParseError>)
    requires
        ready(src, b, toks, pos),
    ensures
        r matches Ok((_, p)) ==> pos < p < toks@.len(),
{
    let mut members: Vec<String> = Vec::new();
    let mut u = pos;
    loop
        invariant
            ready(src, b, toks, u),
            pos <= u,
        decreases toks@.len() - u,
    {
        if toks[u].kind == TokenKind::End {
            let u2 = next(toks, u);
            if u2 == u {
                return Err(error(ParseErrorKind::UnexpectedEof, open, "end"));
            }
            return Ok((members, u2));
        }
        if !attr_named(b, toks, u, "type") {
            return Err(error(ParseErrorKind::UnexpectedToken, toks[u].span, "type or end"));
        }
        let (v, u2) = attr_value(src, b, toks, u)?;
        members.push(v);
        u = u2;
    }
}

/// Whether the token at `pos` spells `w`.
fn word_is_at(b: &[u8], toks: &Vec<Token>, pos: usize, w: &str) -> (r: bool)
    requires
        wf_tokens(b@, toks@),
{
    if pos >= toks.len() {
        return false;
    }
    proof {
        lemma_token_bounds(b@, toks@, pos as int);
    }
    word_is(b, &toks[pos], w)
}

/// Skips the rest of a step of another kind, up to and past its `end`, and
/// returns its `as` binding if it names one at its own level.
fn skip_step(src: &str, b: &[u8], toks: &Vec<Token>, pos: usize, open: Span) -> (r: Result<(String, usize), ParseError>)
    requires
        ready(src, b, toks, pos),
    ensures
        r matches Ok((_, p)) ==> pos < p < toks@.len(),
{
    let mut depth: usize = 1;
    let mut p = pos;
    let mut prev_case = false;
    let mut output = String::new();
    loop
        invariant
            ready(src, b, toks, p),
            pos <= p,
            1 <= depth,
        decreases toks@.len() - p,
    {
        let t = toks[p];
        if t.kind == TokenKind::Eof {
            return Err(error(ParseErrorKind::UnclosedBlock, open, "end"));
        }
        if t.kind == TokenKind::Error {
            return Err(error(ParseErrorKind::UnexpectedToken, t.span, "token"));
        }
        if depth == 1 && t.kind == TokenKind::As && is_attr(toks, p) {
            let (v, q) = attr_value(src, b, toks, p)?;
            output = v;
            p = q;
        } else {
            if t.kind == TokenKind::End {
                if depth == 1 {
                    return Ok((output, next(toks, p)));
                }
                depth = depth - 1;
            } else if opens_block(b, toks, p, prev_case) {
                if depth == usize::MAX {
                    return Err(error(ParseErrorKind::UnclosedBlock, open, "end"));
                }
                depth = depth + 1;
            }
            prev_case = t.kind == TokenKind::Ident && word_is_at(b, toks, p, "case");
            p = next(toks, p);
        }
    }
}

/// Reads the steps of a block that starts at `pos`, up to and past its `end`.
fn parse_steps(src: &str, b: &[u8], toks: &Vec<Token>, pos: usize, open: Span) -> (r: Result<(Vec<Step>, usize), ParseError>)
    requires
        ready(src, b, toks, pos),
    ensures
        r matches Ok((_, p)) ==> pos < p < toks@.len(),
    decreases toks@.len() - pos, 1nat,
{
    let mut steps: Vec<Step> = Vec::new();
    let mut p = pos;
    loop
        invariant
            ready(src, b, toks, p),
            pos <= p,
        decreases toks@.len() - p,
    {
        let t = toks[p];
        if t.kind == TokenKind::End {
            let q = next(toks, p);
            if q == p {
                return Err(error(ParseErrorKind::UnexpectedEof, t.span, "end"));
            }
            return Ok((steps, q));
        }
        if t.kind == TokenKind::Eof {
            return Err(error(ParseErrorKind::UnclosedBlock, open, "end"));
        }
        if t.kind != TokenKind::Step {
            return Err(error(ParseErrorKind::UnexpectedToken, t.span, "step or end"));
        }
        let (step, q) = parse_step(src, b, toks, p)?;
        steps.push(step);
        p = q;
    }
}

/// Reads the items of a `match` step from `pos` up to and past its `end`:
/// `on="binding"`, the cases, and `as`.
fn parse_match_body(src: &str, b: &[u8], toks: &Vec<Token>, pos: usize, open: Span) -> (r: Result<(StepKind, String, usize), ParseError>)
    requires
        ready(src, b, toks, pos),
    ensures
        r matches Ok((_, _, p)) ==> pos < p < toks@.len(),
    decreases toks@.len() - pos, 3nat,
{
    let mut on: Option<String> = None;
    let mut cases: Vec<MatchCase> = Vec::new();
    let mut output = String::new();
    let mut p = pos;
    loop
        invariant
            ready(src, b, toks, p),
            pos <= p,
        decreases toks@.len() - p,
    {
        let t = toks[p];
        if t.kind == TokenKind::End {
            let q = next(toks, p);
            if q == p {
                return Err(error(ParseErrorKind::UnexpectedEof, open, "end"));
            }
            return match on {
                Some(o) => Ok((StepKind::Match { on: o, cases }, output, q)),
                None => Err(error(ParseErrorKind::MissingAttribute, open, "on")),
            };
        }
        if t.kind == TokenKind::Eof {
            return Err(error(ParseErrorKind::UnclosedBlock, open, "end"));
        }
        if attr_named(b, toks, p, "on") {
            let (v, q) = attr_value(src, b, toks, p)?;
            on = Some(v);
            p = q;
        } else if t.kind == TokenKind::As && is_attr(toks, p) {
            let (v, q) = attr_value(src, b, toks, p)?;
            output = v;
            p = q;
        } else if word_is_at(b, toks, p, "case") && !is_attr(toks, p) {
            let (c, q) = parse_case(src, b, toks, p)?;
            cases.push(c);
            p = q;
        } else {
            return Err(error(ParseErrorKind::UnexpectedToken, t.span, "on, case, as or end"));
        }
    }
}

/// Reads the names of `bindings=("a", "b")` from the `(` at `pos` to past `)`.
fn parse_bindings(src: &str, b: &[u8], toks: &Vec<Token>, pos: usize) -> (r: Result<(Vec<String>, usize), ParseError>)
    requires
        ready(src, b, toks, pos),
    ensures
        r matches Ok((_, p)) ==> pos < p < toks@.len(),
{
    if toks[pos].kind != TokenKind::LParen {
        return Err(error(ParseErrorKind::UnexpectedToken, toks[pos].span, "("));
    }
    let mut p = next(toks, pos);
    if p == pos {
        return Err(error(ParseErrorKind::UnexpectedEof, toks[pos].span, ")"));
    }
    let mut names: Vec<String> = Vec::new();
    loop
        invariant
            ready(src, b, toks, p),
            pos < p,
        decreases toks@.len() - p,
    {
        let t = toks[p];
        if t.kind == TokenKind::RParen {
            let q = next(toks, p);
            if q == p {
                return Err(error(ParseErrorKind::UnexpectedEof, t.span, ")"));
            }
            return Ok((names, q));
        }
        if t.kind == TokenKind::Comma {
            p = next(toks, p);
        } else {
            let (v, q) = string_at(src, b, toks, p)?;
            names.push(v);
            p = q;
        }
    }
}

/// Reads a `case` whose word is at `pos`: its pattern and its steps.
fn parse_case(src: &str, b: &[u8], toks: &Vec<Token>, pos: usize) -> (r: Result<(MatchCase, usize), ParseError>)
    requires
        ready(src, b, toks, pos),
    ensures
        r matches Ok((_, p)) ==> pos < p < toks@.len(),
    decreases toks@.len() - pos, 2nat,
{
    let span = toks[pos].span;
    let q = next(toks, pos);
    if q == pos {
        return Err(error(ParseErrorKind::UnexpectedEof, span, "variant or wildcard"));
    }
    let (pattern, body_start) = if word_is_at(b, toks, q, "wildcard") {
        let q2 = next(toks, q);
        if q2 == q {
            return Err(error(ParseErrorKind::UnexpectedEof, span, "steps"));
        }
        (CasePattern::Wildcard, q2)
    } else if word_is_at(b, toks, q, "variant") && !is_attr(toks, q) {
        let mut p = next(toks, q);
        if p == q {
            return Err(error(ParseErrorKind::UnexpectedEof, span, "type"));
        }
        let mut ty: Option<String> = None;
        let mut bindings: Vec<String> = Vec::new();
        while p < toks.len() && is_attr(toks, p)
            invariant
                ready(src, b, toks, p),
                pos < p,
            decreases toks@.len() - p,
        {
            if attr_named(b, toks, p, "type") {
                let (v, p2) = attr_value(src, b, toks, p)?;
                ty = Some(v);
                p = p2;
            } else if attr_named(b, toks, p, "bindings") {
                let eq = next(toks, p);
                let v = next(toks, eq);
                if v <= p {
                    return Err(error(ParseErrorKind::UnexpectedEof, span, "("));
                }
                let (names, p2) = parse_bindings(src, b, toks, v)?;
                bindings = names;
                p = p2;
            } else {
                return Err(error(ParseErrorKind::UnknownAttribute, toks[p].span, "type or bindings"));
            }
        }
        match ty {
            Some(t) => (CasePattern::Variant { ty: t, bindings }, p),
            None => {
                return Err(error(ParseErrorKind::MissingAttribute, span, "type"));
            },
        }
    } else {
        return Err(error(ParseErrorKind::UnexpectedToken, toks[q].span, "variant or wildcard"));
    };
    let (steps, q3) = parse_steps(src, b, toks, body_start, span)?;
    Ok((MatchCase { pattern, steps }, q3))
}

/// Reads a step whose `step` keyword is at `pos`.
fn parse_step(src: &str, b: &[u8], toks: &Vec<Token>, pos: usize) -> (r: Result<(Step, usize), ParseError>)
    requires
        ready(src, b, toks, pos),
        toks@[pos as int].kind == TokenKind::Step,
    ensures
        r matches Ok((_, p)) ==> pos < p < toks@.len(),
    decreases toks@.len() - pos, 0nat,
{
    let span = toks[pos].span;
    let mut p = next(toks, pos);
    let mut id: Option<String> = None;
    let mut kind: Option<String> = None;
    while p < toks.len() && is_attr(toks, p) && (toks[p].kind == TokenKind::Id || toks[p].kind == TokenKind::Kind)
        invariant
            ready(src, b, toks, p),
            pos < p,
        decreases toks@.len() - p,
    {
        let key = toks[p].kind;
        let (v, q) = attr_value(src, b, toks, p)?;
        if key == TokenKind::Id {
            id = Some(v);
        } else {
            kind = Some(v);
        }
        p = q;
    }
    let (id, kind) = match (id, kind) {
        (Some(i), Some(k)) => (i, k),
        (None, _) => {
            return Err(error(ParseErrorKind::MissingAttribute, span, "id"));
        },
        (_, None) => {
            return Err(error(ParseErrorKind::MissingAttribute, span, "kind"));
        },
    };
    let is_bind = crate::text::str_eq(kind.as_str(), "bind");
    let is_compute = crate::text::str_eq(kind.as_str(), "compute");
    let is_call = crate::text::str_eq(kind.as_str(), "call");
    let is_if = crate::text::str_eq(kind.as_str(), "if");
    let is_return = crate::text::str_eq(kind.as_str(), "return");
    if crate::text::str_eq(kind.as_str(), "match") {
        let (k, output, q) = parse_match_body(src, b, toks, p, span)?;
        return Ok((Step { id, kind: k, output, span }, q));
    }
    if !(is_bind || is_compute || is_call || is_if || is_return) {
        let (output, q) = skip_step(src, b, toks, p, span)?;
        return Ok((Step { id, kind: StepKind::Other(kind), output, span }, q));
    }
    let mut op: Option<String> = None;
    let mut inputs: Vec<StepInput> = Vec::new();
    let mut single: Option<StepInput> = None;
    let mut target: Option<String> = None;
    let mut args: Vec<(String, StepInput)> = Vec::new();
    let mut condition: Option<String> = None;
    let mut then_steps: Vec<Step> = Vec::new();
    let mut else_steps: Vec<Step> = Vec::new();
    let mut output = String::new();
    loop
        invariant
            ready(src, b, toks, p),
            pos < p,
        decreases toks@.len() - p,
    {
        let t = toks[p];
        proof {
            lemma_token_bounds(b@, toks@, p as int);
        }
        if t.kind == TokenKind::End {
            let q = next(toks, p);
            let k = if is_bind || is_return {
                match single {
                    Some(x) => if is_bind { StepKind::Bind(x) } else { StepKind::Return(x) },
                    None => {
                        return Err(error(ParseErrorKind::MissingAttribute, span, "from or lit"));
                    },
                }
            } else if is_compute {
                match op {
                    Some(o) => StepKind::Compute { op: o, inputs },
                    None => {
                        return Err(error(ParseErrorKind::MissingAttribute, span, "op"));
                    },
                }
            } else if is_call {
                match target {
                    Some(f) => StepKind::Call { target: f, args },
                    None => {
                        return Err(error(ParseErrorKind::MissingAttribute, span, "fn"));
                    },
                }
            } else {
                match condition {
                    Some(c) => StepKind::If { condition: c, then_steps, else_steps },
                    None => {
                        return Err(error(ParseErrorKind::MissingAttribute, span, "condition"));
                    },
                }
            };
            return Ok((Step { id, kind: k, output, span }, q));
        }
        if t.kind == TokenKind::Eof {
            return Err(error(ParseErrorKind::UnclosedBlock, span, "end"));
        }
        let attr = is_attr(toks, p);
        if attr && t.kind == TokenKind::Op {
            let (v, q) = attr_word(src, b, toks, p)?;
            op = Some(v);
            p = q;
        } else if attr && t.kind == TokenKind::As {
            let (v, q) = attr_value(src, b, toks, p)?;
            output = v;
            p = q;
        } else if attr && t.kind == TokenKind::From {
            let (v, q) = attr_value(src, b, toks, p)?;
            single = Some(StepInput::Var(v));
            p = q;
        } else if attr && t.kind == TokenKind::Lit {
            let (l, q) = attr_literal(src, b, toks, p)?;
            single = Some(StepInput::Lit(l));
            p = q;
        } else if t.kind == TokenKind::Input {
            let q = next(toks, p);
            if attr_named(b, toks, q, "var") || (q < toks.len() && toks[q].kind == TokenKind::Var && is_attr(toks, q)) {
                let (v, q2) = attr_value(src, b, toks, q)?;
                inputs.push(StepInput::Var(v));
                p = q2;
            } else if q < toks.len() && toks[q].kind == TokenKind::Lit && is_attr(toks, q) {
                let (l, q2) = attr_literal(src, b, toks, q)?;
                inputs.push(StepInput::Lit(l));
                p = q2;
            } else {
                return Err(error(ParseErrorKind::UnexpectedToken, toks[q].span, "var or lit"));
            }
        } else if attr && word_is(b, &t, "fn") {
            let (v, q) = attr_value(src, b, toks, p)?;
            target = Some(v);
            p = q;
        } else if attr && word_is(b, &t, "condition") {
            let (v, q) = attr_value(src, b, toks, p)?;
            condition = Some(v);
            p = q;
        } else if !attr && word_is(b, &t, "arg") {
            let q = next(toks, p);
            if !attr_named(b, toks, q, "name") {
                return Err(error(ParseErrorKind::MissingAttribute, t.span, "name"));
            }
            let (name, q2) = attr_value(src, b, toks, q)?;
            if toks[q2].kind == TokenKind::From && is_attr(toks, q2) {
                let (v, q3) = attr_value(src, b, toks, q2)?;
                args.push((name, StepInput::Var(v)));
                p = q3;
            } else if toks[q2].kind == TokenKind::Lit && is_attr(toks, q2) {
                let (l, q3) = attr_literal(src, b, toks, q2)?;
                args.push((name, StepInput::Lit(l)));
                p = q3;
            } else {
                return Err(error(ParseErrorKind::MissingAttribute, t.span, "from or lit"));
            }
        } else if !attr && (word_is(b, &t, "then") || word_is(b, &t, "else")) {
            let q = next(toks, p);
            let (steps, q2) = parse_steps(src, b, toks, q, t.span)?;
            if word_is(b, &t, "then") {
                then_steps = steps;
            } else {
                else_steps = steps;
            }
            p = q2;
        } else {
            return Err(error(ParseErrorKind::UnexpectedToken, t.span, "step attribute or end"));
        }
    }
}

/// The characters of an optional string.
pub open spec fn opt_string(o: Option<String>) -> Option<Seq<char>> {
    match o {
        Some(s) => Some(s@),
        None => None,
    }
}

/// At `i` stands a snippet with nothing but its header:
/// `snippet id="…" kind="…" end`, not followed by `=`.
pub open spec fn header_only(t: Seq<Token>, i: int) -> bool {
    &&& 0 <= i
    &&& i + 8 < t.len()
    &&& t[i].kind == TokenKind::Snippet
    &&& t[i + 1].kind == TokenKind::Id
    &&& t[i + 2].kind == TokenKind::Eq
    &&& string_token(t, i + 3)
    &&& t[i + 4].kind == TokenKind::Kind
    &&& t[i + 5].kind == TokenKind::Eq
    &&& string_token(t, i + 6)
    &&& t[i + 7].kind == TokenKind::End
    &&& t[i + 8].kind != TokenKind::Eq
}

/// At `i` stands a snippet header `snippet id="…" kind="…"` after which the
/// input ends, so that the snippet is never closed.
pub open spec fn header_unclosed(t: Seq<Token>, i: int) -> bool {
    &&& 0 <= i
    &&& i + 7 < t.len()
    &&& t[i].kind == TokenKind::Snippet
    &&& t[i + 1].kind == TokenKind::Id
    &&& t[i + 2].kind == TokenKind::Eq
    &&& string_token(t, i + 3)
    &&& t[i + 4].kind == TokenKind::Kind
    &&& t[i + 5].kind == TokenKind::Eq
    &&& string_token(t, i + 6)
    &&& t[i + 7].kind == TokenKind::Eof
}

/// At `i` stands a snippet whose header gives a kind but no id:
/// `snippet kind="…"` and then a token that is no attribute.
pub open spec fn header_without_id(t: Seq<Token>, i: int) -> bool {
    &&& 0 <= i
    &&& i + 5 < t.len()
    &&& t[i].kind == TokenKind::Snippet
    &&& t[i + 1].kind == TokenKind::Kind
    &&& t[i + 2].kind == TokenKind::Eq
    &&& string_token(t, i + 3)
    &&& t[i + 5].kind != TokenKind::Eq
    &&& t[i + 4].kind != TokenKind::Eof
}

/// Reads a snippet whose `snippet` keyword is at `pos`.
fn parse_snippet(src: &str, b: &[u8], toks: &Vec<Token>, pos: usize) -> (r: Result<(Snippet, usize), ParseError>)
    requires
        ready(src, b, toks, pos),
    ensures
        r matches Ok((_, p)) ==> pos < p < toks@.len(),
        src.is_ascii() && header_only(toks@, pos as int) ==> (r matches Ok((sn, p)) && p == pos + 8
            && sn.id@ == string_value(src@, toks@[pos + 3]) && sn.kind@ == string_value(
            src@,
            toks@[pos + 6],
        ) && sn.sections@.len() == 0),
        src.is_ascii() && header_without_id(toks@, pos as int) ==> (r matches Err(e) && e.kind
            == ParseErrorKind::MissingAttribute && e.span == toks@[pos as int].span),
        src.is_ascii() && header_unclosed(toks@, pos as int) ==> (r matches Err(e) && e.kind
            == ParseErrorKind::UnclosedBlock && e.span == toks@[pos as int].span),
{
    let ghost hu = src.is_ascii() && header_unclosed(toks@, pos as int);
    let ghost ho = src.is_ascii() && header_only(toks@, pos as int);
    let ghost hn = src.is_ascii() && header_without_id(toks@, pos as int);
    let span = toks[pos].span;
    let mut p = next(toks, pos);
    let mut id: Option<String> = None;
    let mut kind: Option<String> = None;
    while is_attr(toks, p)
        invariant
            ready(src, b, toks, p),
            pos <= p,
            span == toks@[pos as int].span,
            ho == (src.is_ascii() && header_only(toks@, pos as int)),
            hn == (src.is_ascii() && header_without_id(toks@, pos as int)),
            ho ==> (p == pos + 1 && id is None && kind is None) || (p == pos + 4 && opt_string(id)
                == Some(string_value(src@, toks@[pos + 3])) && kind is None) || (p == pos + 7
                && opt_string(id) == Some(string_value(src@, toks@[pos + 3])) && opt_string(kind)
                == Some(string_value(src@, toks@[pos + 6]))),
            hn ==> (p == pos + 1 && id is None) || (p == pos + 4 && id is None),
            hu == (src.is_ascii() && header_unclosed(toks@, pos as int)),
            hu ==> (p == pos + 1 && id is None && kind is None) || (p == pos + 4 && id is Some
                && kind is None) || (p == pos + 7 && id is Some && kind is Some),
        decreases toks@.len() - p,
    {
        let t = toks[p];
        let (v, q) = attr_value(src, b, toks, p)?;
        if t.kind == TokenKind::Id {
            id = Some(v);
        } else if t.kind == TokenKind::Kind {
            kind = Some(v);
        } else {
            return Err(error(ParseErrorKind::UnknownAttribute, t.span, "id or kind"));
        }
        p = q;
    }
    proof {
        if ho || hu {
            assert(p == pos + 7);
        }
    }
    proof {
        if ho || hu {
            assert(p == pos + 7);
        }
    }
    let (id, kind) = match (id, kind) {
        (Some(i), Some(k)) => (i, k),
        (None, _) => {
            return Err(error(ParseErrorKind::MissingAttribute, span, "id"));
        },
        (_, None) => {
            return Err(error(ParseErrorKind::MissingAttribute, span, "kind"));
        },
    };
    let mut sections: Vec<Section> = Vec::new();
    loop
        invariant
            ready(src, b, toks, p),
            pos <= p,
            !hn,
            hn == (src.is_ascii() && header_without_id(toks@, pos as int)),
            hu == (src.is_ascii() && header_unclosed(toks@, pos as int)),
            hu ==> p == pos + 7,
            span == toks@[pos as int].span,
            ho == (src.is_ascii() && header_only(toks@, pos as int)),
            ho ==> p == pos + 7
                && sections@.len() == 0 && id@ == string_value(src@, toks@[pos + 3]) && kind@
                == string_value(src@, toks@[pos + 6]),
        decreases toks@.len() - p,
    {
        let t = toks[p];
        if t.kind == TokenKind::End {
            let q = next(toks, p);
            if q == p {
                return Err(error(ParseErrorKind::UnexpectedEof, t.span, "end"));
            }
            return Ok((Snippet { id, kind, sections, span }, q));
        }
        if t.kind == TokenKind::Eof {
            return Err(error(ParseErrorKind::UnclosedBlock, span, "end"));
        }
        let q = next(toks, p);
        proof {
            lemma_token_bounds(b@, toks@, p as int);
        }
        if t.kind == TokenKind::Requires || t.kind == TokenKind::Tests || t.kind == TokenKind::Effects
            || t.kind == TokenKind::Relations {
            let (s, q2) = parse_section(src, b, toks, q, t.kind, t.span)?;
            sections.push(s);
            p = q2;
        } else if t.kind == TokenKind::Ident && word_is(b, &t, "content") {
            let (text, q2) = string_at(src, b, toks, q)?;
            if toks[q2].kind != TokenKind::End {
                return Err(error(ParseErrorKind::UnexpectedToken, toks[q2].span, "end"));
            }
            sections.push(Section::Content(text));
            p = next(toks, q2);
        } else if t.kind == TokenKind::Signature && word_is_at(b, toks, q, "fn") && !is_attr(toks, q) {
            let (sig, q2) = parse_fn_signature(src, b, toks, q)?;
            if toks[q2].kind != TokenKind::End {
                return Err(error(ParseErrorKind::UnexpectedToken, toks[q2].span, "end"));
            }
            sections.push(Section::Signature(sig));
            p = next(toks, q2);
        } else if t.kind == TokenKind::Body {
            let (steps, q2) = parse_steps(src, b, toks, q, t.span)?;
            sections.push(Section::Body(steps));
            p = q2;
        } else if t.kind == TokenKind::Signature && (word_is_at(b, toks, q, "struct") || word_is_at(b, toks, q, "enum")) && !is_attr(toks, q) {
            let kw = toks[q];
            let q1 = next(toks, q);
            let q2 = if word_is_at(b, toks, q, "struct") {
                let (name, fields, q2) = parse_fields_block(src, b, toks, q1, kw.span)?;
                sections.push(Section::StructDecl(StructSignature { name, fields }));
                q2
            } else {
                let (e, q2) = parse_enum_signature(src, b, toks, q1, kw.span)?;
                sections.push(Section::EnumDecl(e));
                q2
            };
            if q2 <= q || toks[q2].kind != TokenKind::End {
                return Err(error(ParseErrorKind::UnexpectedToken, toks[q2].span, "end"));
            }
            p = next(toks, q2);
        } else if t.kind == TokenKind::Signature || t.kind == TokenKind::Metadata {
            let q2 = skip_block(src, b, toks, q, t.span)?;
            sections.push(Section::Other);
            p = q2;
        } else {
            return Err(error(ParseErrorKind::UnexpectedToken, t.span, "section or end"));
        }
    }
}

proof fn lemma_tokens_wf(b: Seq<u8>, t: Seq<Token>)
    requires
        b.len() <= usize::MAX,
        t == lex_from(b, 0),
    ensures
        wf_tokens(b, t),
{
    lemma_lexer_totality(b);
}

fn has_snippet(v: &Vec<Snippet>, id: &String) -> (r: bool)
    ensures
        r == exists|i: int| 0 <= i < v@.len() && (#[trigger] v@[i]).id@ == id@,
{
    let mut i: usize = 0;
    while i < v.len()
        invariant
            i <= v@.len(),
            forall|k: int| 0 <= k < i ==> (#[trigger] v@[k]).id@ != id@,
        decreases v@.len() - i,
    {
        if crate::text::str_eq(v[i].id.as_str(), id.as_str()) {
            assert(v@[i as int].id@ == id@);
            return true;
        }
        i = i + 1;
    }
    false
}

/// From `i` on, the stream is a run of header-only snippets up to `Eof`.
pub open spec fn all_headers(t: Seq<Token>, i: int) -> bool
    decreases t.len() - i,
{
    if i < 0 || i >= t.len() {
        false
    } else if t[i].kind == TokenKind::Eof {
        true
    } else {
        header_only(t, i) && all_headers(t, i + 8)
    }
}

/// The ids that the header-only snippets from `i` on declare, in order.
pub open spec fn declared_ids(src: Seq<char>, t: Seq<Token>, i: int) -> Seq<Seq<char>>
    decreases t.len() - i,
{
    if i < 0 || i + 8 >= t.len() || t[i].kind == TokenKind::Eof {
        Seq::empty()
    } else {
        seq![string_value(src, t[i + 3])] + declared_ids(src, t, i + 8)
    }
}

/// The ids of a sequence of snippets.
pub open spec fn snippet_ids(v: Seq<Snippet>) -> Seq<Seq<char>> {
    v.map_values(|s: Snippet| s.id@)
}

/// Parses a source text. A text that starts with a snippet is read as
/// snippets, whose ids are pairwise distinct; any other non-empty text is
/// the legacy form, whose declarations are not read.
pub fn parse(source: &str) -> (r: Result<Program, ParseError>)
    ensures
        r matches Ok(Program::Snippets(v)) ==> unique_snippet_ids(v@),
        lex_from(bytes(source@), 0)[0].kind == TokenKind::Eof ==> (r matches Ok(
            Program::Snippets(v),
        ) && v@.len() == 0),
        r matches Ok(Program::Legacy) ==> lex_from(bytes(source@), 0)[0].kind
            != TokenKind::Snippet,
        source.is_ascii() && all_headers(lex_from(bytes(source@), 0), 0) ==> (r matches Ok(
            Program::Snippets(v),
        ) && snippet_ids(v@) == declared_ids(source@, lex_from(bytes(source@), 0), 0)) || (
        r matches Err(e) && e.kind == ParseErrorKind::DuplicateSnippet),
        source.is_ascii() && header_without_id(lex_from(bytes(source@), 0), 0) ==> (r matches Err(e)
            && e.kind == ParseErrorKind::MissingAttribute && e.span == lex_from(bytes(source@), 0)[0].span),
        source.is_ascii() && header_unclosed(lex_from(bytes(source@), 0), 0) ==> (r matches Err(e)
            && e.kind == ParseErrorKind::UnclosedBlock && e.span == lex_from(bytes(source@), 0)[0].span),
{
    let toks = tokenize(source);
    let b = source.as_bytes();
    // Brings the bound `b.len() <= usize::MAX` into the proof below.
    let n = b.len();
    proof {
        lemma_tokens_wf(b@, toks@);
    }
    let mut p: usize = 0;
    if toks[0].kind != TokenKind::Snippet && toks[0].kind != TokenKind::Eof {
        return Ok(Program::Legacy);
    }
    let mut snippets: Vec<Snippet> = Vec::new();
    if toks[0].kind == TokenKind::Eof {
        assert(snippet_ids(snippets@) =~= Seq::<Seq<char>>::empty());
        return Ok(Program::Snippets(snippets));
    }
    let ghost ah = source.is_ascii() && all_headers(toks@, 0);
    let ghost mi = source.is_ascii() && header_without_id(toks@, 0);
    let ghost mu = source.is_ascii() && header_unclosed(toks@, 0);
    assert(snippet_ids(snippets@) =~= Seq::<Seq<char>>::empty());
    loop
        invariant
            ready(source, b, &toks, p),
            unique_snippet_ids(snippets@),
            ah == (source.is_ascii() && all_headers(toks@, 0)),
            mi == (source.is_ascii() && header_without_id(toks@, 0)),
            ah ==> all_headers(toks@, p as int) && snippet_ids(snippets@) + declared_ids(
                source@,
                toks@,
                p as int,
            ) == declared_ids(source@, toks@, 0),
            mi ==> p == 0,
            mu == (source.is_ascii() && header_unclosed(toks@, 0)),
            mu ==> p == 0,
            toks@ == lex_from(bytes(source@), 0),
            toks@[0].kind != TokenKind::Eof,
        decreases toks@.len() - p,
    {
        let t = toks[p];
        if t.kind == TokenKind::Eof {
            proof {
                if ah {
                    assert(declared_ids(source@, toks@, p as int) =~= Seq::<Seq<char>>::empty());
                    assert(snippet_ids(snippets@) + Seq::<Seq<char>>::empty() =~= snippet_ids(snippets@));
                }
            }
            return Ok(Program::Snippets(snippets));
        }
        if t.kind != TokenKind::Snippet {
            return Err(error(ParseErrorKind::UnexpectedToken, t.span, "snippet"));
        }
        let (s, q) = parse_snippet(source, b, &toks, p)?;
        if has_snippet(&snippets, &s.id) {
            return Err(error(ParseErrorKind::DuplicateSnippet, s.span, "a new snippet id"));
        }
        let ghost before = snippets@;
        let ghost sid = s.id@;
        snippets.push(s);
        proof {
            if ah {
                let d = declared_ids(source@, toks@, p as int);
                assert(d == seq![sid] + declared_ids(source@, toks@, q as int));
                assert(snippet_ids(snippets@) =~= snippet_ids(before).push(sid));
                assert(snippet_ids(snippets@) + declared_ids(source@, toks@, q as int)
                    =~= snippet_ids(before) + d);
            }
            assert forall|i: int, j: int| 0 <= i < snippets@.len() && 0 <= j < snippets@.len() && i != j
                implies snippets@[i].id@ != snippets@[j].id@ by {
                if i < before.len() && j < before.len() {
                    assert(before[i] == snippets@[i]);
                    assert(before[j] == snippets@[j]);
                } else if i < before.len() {
                    assert(before[i] == snippets@[i]);
                } else {
                    assert(before[j] == snippets@[j]);
                }
            }
        }
        p = q;
    }
}

} // verus!
