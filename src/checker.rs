//! The type checker. Phase A resolves the signatures of the `fn` and
//! `extern` snippets; phase B walks each function body in order, with the
//! parameters in scope, typing every step's output binding and collecting
//! every diagnostic rather than stopping at the first.

use vstd::prelude::*;
use crate::ast::{CasePattern, Literal, Param, Program, Section, Snippet, Span, Step, StepInput, StepKind};
use crate::types::{type_text, ResolvedType, SymbolId, TypeRegistry, VariantDef};
use crate::text::{copy_str, str_eq};
use crate::parser::unique_snippet_ids;

verus! {

/// A diagnostic of the checker.
#[derive(Debug)]
pub enum CheckError {
    TypeMismatch { expected: String, actual: String, span: Span },
    UndefinedVariable { name: String, span: Span },
    UnknownFunction { name: String, span: Span },
    ArgCountMismatch { expected: usize, actual: usize, span: Span },
    UnknownArgument { name: String, span: Span },
    MissingArgument { name: String, span: Span },
    IfConditionNotBool { actual: String, span: Span },
    /// A `match` on an enum without a wildcard leaves these variants out.
    NonexhaustiveMatch { missing: Vec<String>, span: Span },
}

/// The resolved signature of a function snippet.
#[derive(Debug)]
pub struct FnInfo {
    /// The snippet id, by which calls name it.
    pub id: String,
    /// Its handle: the snippet's index in the program.
    pub symbol: SymbolId,
    /// Name, type and whether it may be left out, for each parameter.
    pub params: Vec<(String, ResolvedType, bool)>,
    pub ret: ResolvedType,
}

/// What checking a program yields when it has no diagnostics.
#[derive(Debug)]
pub struct CheckResult {
    pub symbols: Vec<FnInfo>,
}

/// The primitive type that a name denotes, if any.
pub open spec fn primitive_of(name: Seq<char>) -> Option<ResolvedType> {
    if name == "Int"@ {
        Some(ResolvedType::Int)
    } else if name == "Float"@ {
        Some(ResolvedType::Float)
    } else if name == "Bool"@ {
        Some(ResolvedType::Bool)
    } else if name == "String"@ {
        Some(ResolvedType::String)
    } else if name == "Char"@ {
        Some(ResolvedType::Char)
    } else if name == "Bytes"@ {
        Some(ResolvedType::Bytes)
    } else if name == "DateTime"@ {
        Some(ResolvedType::DateTime)
    } else if name == "Unit"@ || name == "None"@ {
        Some(ResolvedType::NoneType)
    } else {
        None
    }
}

fn primitive(name: &str) -> (r: Option<ResolvedType>)
    ensures
        r == primitive_of(name@),
{
    if str_eq(name, "Int") {
        Some(ResolvedType::Int)
    } else if str_eq(name, "Float") {
        Some(ResolvedType::Float)
    } else if str_eq(name, "Bool") {
        Some(ResolvedType::Bool)
    } else if str_eq(name, "String") {
        Some(ResolvedType::String)
    } else if str_eq(name, "Char") {
        Some(ResolvedType::Char)
    } else if str_eq(name, "Bytes") {
        Some(ResolvedType::Bytes)
    } else if str_eq(name, "DateTime") {
        Some(ResolvedType::DateTime)
    } else if str_eq(name, "Unit") || str_eq(name, "None") {
        Some(ResolvedType::NoneType)
    } else {
        None
    }
}

/// The snippet id is `name` or ends with `.name`.
fn names_snippet(id: &str, name: &str) -> (r: bool) {
    let n = id.unicode_len();
    let m = name.unicode_len();
    if n == m {
        return str_eq(id, name);
    }
    if n <= m {
        return false;
    }
    if id.get_char(n - m - 1) != '.' {
        return false;
    }
    str_eq(id.substring_char(n - m, n), name)
}

/// Resolves a type as written: a primitive name, `List<T>`, `Set<T>`,
/// `Optional<T>`, the name of a snippet (a named type with that snippet's
/// handle), or anything else as `Unknown`.
fn resolve_type(text: &str, snippets: &Vec<Snippet>) -> (r: ResolvedType)
    ensures
        primitive_of(text@) matches Some(p) ==> r == p,
    decreases text@.len(),
{
    if let Some(p) = primitive(text) {
        return p;
    }
    let n = text.unicode_len();
    if n >= 3 && text.get_char(n - 1) == '>' {
        let mut k: usize = 0;
        while k < n && text.get_char(k) != '<'
            invariant
                k <= n,
                n == text@.len(),
            decreases n - k,
        {
            k = k + 1;
        }
        if k > 0 && k < n - 1 {
            let head = text.substring_char(0, k);
            let inner_text = text.substring_char(k + 1, n - 1);
            let inner = resolve_type(inner_text, snippets);
            if str_eq(head, "List") {
                return ResolvedType::List(Box::new(inner));
            } else if str_eq(head, "Set") {
                return ResolvedType::SetOf(Box::new(inner));
            } else if str_eq(head, "Optional") {
                return ResolvedType::Optional(Box::new(inner));
            } else {
                let mut args: Vec<ResolvedType> = Vec::new();
                args.push(inner);
                return named(head, args, snippets);
            }
        }
    }
    named(text, Vec::new(), snippets)
}

fn named(name: &str, args: Vec<ResolvedType>, snippets: &Vec<Snippet>) -> (r: ResolvedType) {
    let mut i: usize = 0;
    while i < snippets.len()
        invariant
            i <= snippets@.len(),
        decreases snippets@.len() - i,
    {
        if names_snippet(snippets[i].id.as_str(), name) && i <= 4294967295 {
            return ResolvedType::Named { name: copy_str(name), id: SymbolId(i as u32), args };
        }
        i = i + 1;
    }
    ResolvedType::Unknown
}

/// `t` takes no part in checking: the error sentinel or an unknown type.
pub open spec fn is_lenient(t: ResolvedType) -> bool {
    t is Error || t is Unknown
}

/// A value of type `a` may stand where `e` is expected: equal types; any
/// type where `e` or `a` is the error sentinel or unknown; a member of a
/// union; `T`, `none` or an unknown optional where `T?` is expected.
pub open spec fn assignable(e: ResolvedType, a: ResolvedType) -> bool {
    ||| is_lenient(e)
    ||| is_lenient(a)
    ||| type_text(e) == type_text(a)
    ||| (e matches ResolvedType::Optional(t) && (a is NoneType || type_text(*t) == type_text(a) || (
    a matches ResolvedType::Optional(u) && is_lenient(*u))))
    ||| (e matches ResolvedType::Union(ts) && exists|i: int|
        0 <= i < ts@.len() && (is_lenient(#[trigger] ts@[i]) || type_text(ts@[i]) == type_text(a)))
}

fn lenient(t: &ResolvedType) -> (r: bool)
    ensures
        r == is_lenient(*t),
{
    match t {
        ResolvedType::Error => true,
        ResolvedType::Unknown => true,
        _ => false,
    }
}

fn same_type(a: &ResolvedType, b: &ResolvedType) -> (r: bool)
    ensures
        r == (type_text(*a) == type_text(*b)),
{
    str_eq(a.display().as_str(), b.display().as_str())
}

/// Whether a value of type `a` may stand where `e` is expected.
pub fn is_assignable(e: &ResolvedType, a: &ResolvedType) -> (r: bool)
    ensures
        r == assignable(*e, *a),
{
    if lenient(e) || lenient(a) || same_type(e, a) {
        return true;
    }
    match e {
        ResolvedType::Optional(t) => {
            let none = match a {
                ResolvedType::NoneType => true,
                _ => false,
            };
            let inner_unknown = match a {
                ResolvedType::Optional(u) => lenient(u),
                _ => false,
            };
            none || same_type(t, a) || inner_unknown
        },
        ResolvedType::Union(ts) => {
            let mut i: usize = 0;
            while i < ts.len()
                invariant
                    i <= ts@.len(),
                    *e == ResolvedType::Union(*ts),
                    forall|k: int| 0 <= k < i ==> !(is_lenient(#[trigger] ts@[k]) || type_text(ts@[k]) == type_text(*a)),
                decreases ts@.len() - i,
            {
                if lenient(&ts[i]) || same_type(&ts[i], a) {
                    assert(is_lenient(ts@[i as int]) || type_text(ts@[i as int]) == type_text(*a));
                    return true;
                }
                i = i + 1;
            }
            false
        },
        _ => false,
    }
}

/// The type of a literal: `none` is an optional of unknown type.
pub open spec fn literal_type(l: Literal) -> ResolvedType {
    match l {
        Literal::Int(_) => ResolvedType::Int,
        Literal::Float(_) => ResolvedType::Float,
        Literal::Str(_) => ResolvedType::String,
        Literal::Bool(_) => ResolvedType::Bool,
        Literal::NoneLit => ResolvedType::Optional(Box::new(ResolvedType::Unknown)),
    }
}

fn type_of_literal(l: &Literal) -> (r: ResolvedType)
    ensures
        r == literal_type(*l),
{
    match l {
        Literal::Int(_) => ResolvedType::Int,
        Literal::Float(_) => ResolvedType::Float,
        Literal::Str(_) => ResolvedType::String,
        Literal::Bool(_) => ResolvedType::Bool,
        Literal::NoneLit => ResolvedType::Optional(Box::new(ResolvedType::Unknown)),
    }
}

/// The primitive class of a type for the operator rules.
pub open spec fn class(t: ResolvedType) -> u8 {
    match t {
        ResolvedType::Int => 1,
        ResolvedType::Float => 2,
        ResolvedType::Bool => 3,
        ResolvedType::String => 4,
        _ => 0,
    }
}

fn class_of(t: &ResolvedType) -> (r: u8)
    ensures
        r == class(*t),
{
    match t {
        ResolvedType::Int => 1,
        ResolvedType::Float => 2,
        ResolvedType::Bool => 3,
        ResolvedType::String => 4,
        _ => 0,
    }
}

/// The class of the result of a binary operator on classes `a` and `b`,
/// or 0 when the operands do not fit: arithmetic on Int×Int (and, but for
/// `mod`, on Float×Float) gives the same class; comparisons on Int, Float or
/// String pairs, and `and`/`or` on Bool pairs, give Bool.
pub open spec fn binary_rule(op: Seq<char>, a: u8, b: u8) -> u8 {
    if op == "add"@ || op == "sub"@ || op == "mul"@ || op == "div"@ {
        if a == b && (a == 1 || a == 2) { a } else { 0 }
    } else if op == "mod"@ {
        if a == 1 && b == 1 { 1 } else { 0 }
    } else if op == "less"@ || op == "less_eq"@ || op == "greater"@ || op == "greater_eq"@ {
        if a == b && (a == 1 || a == 2 || a == 4) { 3 } else { 0 }
    } else if op == "and"@ || op == "or"@ {
        if a == 3 && b == 3 { 3 } else { 0 }
    } else {
        0
    }
}

fn binary(op: &str, a: u8, b: u8) -> (r: u8)
    ensures
        r == binary_rule(op@, a, b),
{
    if str_eq(op, "add") || str_eq(op, "sub") || str_eq(op, "mul") || str_eq(op, "div") {
        if a == b && (a == 1 || a == 2) { a } else { 0 }
    } else if str_eq(op, "mod") {
        if a == 1 && b == 1 { 1 } else { 0 }
    } else if str_eq(op, "less") || str_eq(op, "less_eq") || str_eq(op, "greater") || str_eq(op, "greater_eq") {
        if a == b && (a == 1 || a == 2 || a == 4) { 3 } else { 0 }
    } else if str_eq(op, "and") || str_eq(op, "or") {
        if a == 3 && b == 3 { 3 } else { 0 }
    } else {
        0
    }
}

fn of_class(c: u8) -> (r: ResolvedType)
    ensures
        1 <= c <= 4 ==> class(r) == c,
{
    if c == 1 {
        ResolvedType::Int
    } else if c == 2 {
        ResolvedType::Float
    } else if c == 3 {
        ResolvedType::Bool
    } else if c == 4 {
        ResolvedType::String
    } else {
        ResolvedType::Error
    }
}

/// A copy of a type.
fn copy_type(t: &ResolvedType) -> (r: ResolvedType)
    ensures
        is_lenient(r) == is_lenient(*t),
        class(r) == class(*t),
        *t is NoneType ==> r is NoneType,
    decreases t,
{
    match t {
        ResolvedType::Int => ResolvedType::Int,
        ResolvedType::Float => ResolvedType::Float,
        ResolvedType::Bool => ResolvedType::Bool,
        ResolvedType::String => ResolvedType::String,
        ResolvedType::Char => ResolvedType::Char,
        ResolvedType::Bytes => ResolvedType::Bytes,
        ResolvedType::DateTime => ResolvedType::DateTime,
        ResolvedType::NoneType => ResolvedType::NoneType,
        ResolvedType::Named { name, id, args } => ResolvedType::Named {
            name: name.clone(),
            id: *id,
            args: copy_types(args),
        },
        ResolvedType::Optional(inner) => ResolvedType::Optional(Box::new(copy_type(inner))),
        ResolvedType::List(inner) => ResolvedType::List(Box::new(copy_type(inner))),
        ResolvedType::SetOf(inner) => ResolvedType::SetOf(Box::new(copy_type(inner))),
        ResolvedType::Union(ts) => ResolvedType::Union(copy_types(ts)),
        ResolvedType::Tuple(ts) => ResolvedType::Tuple(copy_types(ts)),
        ResolvedType::Function { params, ret } => ResolvedType::Function {
            params: copy_types(params),
            ret: Box::new(copy_type(ret)),
        },
        ResolvedType::Struct(fields) => ResolvedType::Struct(copy_fields(fields)),
        ResolvedType::Unknown => ResolvedType::Unknown,
        ResolvedType::Error => ResolvedType::Error,
    }
}

fn copy_types(v: &Vec<ResolvedType>) -> (r: Vec<ResolvedType>)
    decreases v,
{
    let mut out: Vec<ResolvedType> = Vec::new();
    let mut i: usize = 0;
    while i < v.len()
        invariant
            i <= v@.len(),
        decreases v@.len() - i,
    {
        proof {
            assert(decreases_to!(*v => v[i as int]));
        }
        out.push(copy_type(&v[i]));
        i = i + 1;
    }
    out
}

fn copy_fields(v: &Vec<(String, ResolvedType)>) -> (r: Vec<(String, ResolvedType)>)
    decreases v,
{
    let mut out: Vec<(String, ResolvedType)> = Vec::new();
    let mut i: usize = 0;
    while i < v.len()
        invariant
            i <= v@.len(),
        decreases v@.len() - i,
    {
        proof {
            assert(decreases_to!(*v => v[i as int]));
        }
        let t = copy_type(&v[i].1);
        out.push((v[i].0.clone(), t));
        i = i + 1;
    }
    out
}

/// Index of the innermost binding named `name`.
fn lookup(scope: &Vec<(String, ResolvedType)>, name: &str) -> (r: Option<usize>)
    ensures
        r matches Some(i) ==> i < scope@.len() && scope@[i as int].0@ == name@ && forall|k: int|
            i < k < scope@.len() ==> (#[trigger] scope@[k]).0@ != name@,
        r is None ==> forall|k: int| 0 <= k < scope@.len() ==> (#[trigger] scope@[k]).0@ != name@,
{
    let mut i = scope.len();
    while i > 0
        invariant
            i <= scope@.len(),
            forall|k: int| i <= k < scope@.len() ==> (#[trigger] scope@[k]).0@ != name@,
        decreases i,
    {
        if str_eq(scope[i - 1].0.as_str(), name) {
            return Some(i - 1);
        }
        i = i - 1;
    }
    None
}

fn bind(scope: &mut Vec<(String, ResolvedType)>, name: &String, t: ResolvedType)
    ensures
        name@ == ""@ || name@ == "_"@ ==> final(scope)@ == old(scope)@,
        !(name@ == ""@ || name@ == "_"@) ==> final(scope)@.len() == old(scope)@.len() + 1
            && final(scope)@.subrange(0, old(scope)@.len() as int) == old(scope)@,
{
    if str_eq(name.as_str(), "") || str_eq(name.as_str(), "_") {
        return;
    }
    let ghost before = scope@;
    scope.push((name.clone(), t));
    assert(scope@.subrange(0, before.len() as int) =~= before);
}

/// The type of a step input; an unbound name is reported and has the error
/// type.
fn input_type(input: &StepInput, scope: &Vec<(String, ResolvedType)>, span: Span, errors: &mut Vec<CheckError>) -> (r: ResolvedType)
    ensures
        final(errors)@.len() >= old(errors)@.len(),
        *input matches StepInput::Lit(l) ==> r == literal_type(l) && final(errors)@ == old(errors)@,
        *input matches StepInput::Var(n) ==> (match lookup_spec(scope@, n@) {
            Some(i) => class(r) == class(scope@[i].1) && is_lenient(r) == is_lenient(scope@[i].1)
                && final(errors)@ == old(errors)@,
            None => r is Error && final(errors)@.len() == old(errors)@.len() + 1,
        }),
{
    match input {
        StepInput::Lit(l) => type_of_literal(l),
        StepInput::Var(name) => match lookup(scope, name.as_str()) {
            Some(i) => {
                proof {
                    lemma_lookup_spec(scope@, name@, i as int);
                }
                copy_type(&scope[i].1)
            },
            None => {
                proof {
                    lemma_lookup_none(scope@, name@);
                }
                errors.push(CheckError::UndefinedVariable { name: name.clone(), span });
                ResolvedType::Error
            },
        },
    }
}

/// Index of the innermost binding named `name`, if any.
pub open spec fn lookup_spec(scope: Seq<(String, ResolvedType)>, name: Seq<char>) -> Option<int>
    decreases scope.len(),
{
    if scope.len() == 0 {
        None
    } else if scope.last().0@ == name {
        Some(scope.len() - 1)
    } else {
        lookup_spec(scope.drop_last(), name)
    }
}

proof fn lemma_lookup_spec(scope: Seq<(String, ResolvedType)>, name: Seq<char>, i: int)
    requires
        0 <= i < scope.len(),
        scope[i].0@ == name,
        forall|k: int| i < k < scope.len() ==> (#[trigger] scope[k]).0@ != name,
    ensures
        lookup_spec(scope, name) == Some(i),
    decreases scope.len(),
{
    if i < scope.len() - 1 {
        assert(scope[scope.len() - 1].0@ != name);
        let t = scope.drop_last();
        assert forall|k: int| i < k < t.len() implies (#[trigger] t[k]).0@ != name by {
            assert(t[k] == scope[k]);
        }
        lemma_lookup_spec(t, name, i);
    }
}

proof fn lemma_lookup_none(scope: Seq<(String, ResolvedType)>, name: Seq<char>)
    requires
        forall|k: int| 0 <= k < scope.len() ==> (#[trigger] scope[k]).0@ != name,
    ensures
        lookup_spec(scope, name) is None,
    decreases scope.len(),
{
    if scope.len() > 0 {
        let t = scope.drop_last();
        assert(scope[scope.len() - 1].0@ != name);
        assert forall|k: int| 0 <= k < t.len() implies (#[trigger] t[k]).0@ != name by {
            assert(t[k] == scope[k]);
        }
        lemma_lookup_none(t, name);
    }
}

fn mismatch(expected: &str, actual: &ResolvedType, span: Span) -> (r: CheckError) {
    CheckError::TypeMismatch { expected: copy_str(expected), actual: actual.display(), span }
}

fn both_text(a: &ResolvedType, b: &ResolvedType) -> (r: String) {
    let mut s = a.display();
    crate::text::push_str(&mut s, ", ");
    let t = b.display();
    crate::text::push_str(&mut s, t.as_str());
    s
}

/// The operator is a comparison or a logical one, whose result is `Bool`.
pub open spec fn bool_valued(op: Seq<char>) -> bool {
    op == "equals"@ || op == "not_equals"@ || op == "less"@ || op == "less_eq"@ || op == "greater"@
        || op == "greater_eq"@ || op == "and"@ || op == "or"@ || op == "not"@
}

fn is_bool_valued(op: &str) -> (r: bool)
    ensures
        r == bool_valued(op@),
{
    str_eq(op, "equals") || str_eq(op, "not_equals") || str_eq(op, "less") || str_eq(op, "less_eq")
        || str_eq(op, "greater") || str_eq(op, "greater_eq") || str_eq(op, "and") || str_eq(op, "or")
        || str_eq(op, "not")
}

/// The type of a `compute` step's result. Operands of the error type give
/// the error type without a report; unknown operands give the operator's
/// natural result; a rule that does not fit is reported as a mismatch.
fn compute_type(op: &str, ins: &Vec<ResolvedType>, span: Span, errors: &mut Vec<CheckError>) -> (r: ResolvedType)
    ensures
        final(errors)@.len() >= old(errors)@.len(),
        (exists|k: int| 0 <= k < ins@.len() && (#[trigger] ins@[k]) is Error) && ins@.len() == (if op@
            == "not"@ || op@ == "neg"@ {
            1int
        } else {
            2int
        }) ==> r is Error && final(errors)@ == old(errors)@,
{
    let unary = str_eq(op, "not") || str_eq(op, "neg");
    let want: usize = if unary { 1 } else { 2 };
    if ins.len() != want {
        errors.push(CheckError::ArgCountMismatch { expected: want, actual: ins.len(), span });
        return ResolvedType::Error;
    }
    let mut k: usize = 0;
    while k < ins.len()
        invariant
            k <= ins@.len(),
            errors@ == old(errors)@,
            forall|j: int| 0 <= j < k ==> !((#[trigger] ins@[j]) is Error),
        decreases ins@.len() - k,
    {
        match &ins[k] {
            ResolvedType::Error => {
                return ResolvedType::Error;
            },
            _ => {},
        }
        k = k + 1;
    }
    let a = &ins[0];
    if unary {
        if lenient(a) {
            return if str_eq(op, "not") { ResolvedType::Bool } else { ResolvedType::Unknown };
        }
        let c = class_of(a);
        if str_eq(op, "not") {
            if c == 3 {
                return ResolvedType::Bool;
            }
            errors.push(mismatch("Bool", a, span));
            return ResolvedType::Error;
        }
        if c == 1 || c == 2 {
            return of_class(c);
        }
        errors.push(mismatch("Int or Float", a, span));
        return ResolvedType::Error;
    }
    let b = &ins[1];
    if lenient(a) || lenient(b) {
        return if is_bool_valued(op) { ResolvedType::Bool } else { ResolvedType::Unknown };
    }
    if str_eq(op, "equals") || str_eq(op, "not_equals") {
        if same_type(a, b) {
            return ResolvedType::Bool;
        }
        errors.push(CheckError::TypeMismatch { expected: a.display(), actual: b.display(), span });
        return ResolvedType::Error;
    }
    let c = binary(op, class_of(a), class_of(b));
    if c != 0 {
        return of_class(c);
    }
    let known = str_eq(op, "add") || str_eq(op, "sub") || str_eq(op, "mul") || str_eq(op, "div")
        || str_eq(op, "mod") || str_eq(op, "less") || str_eq(op, "less_eq") || str_eq(op, "greater")
        || str_eq(op, "greater_eq") || str_eq(op, "and") || str_eq(op, "or");
    if !known {
        errors.push(CheckError::UnknownFunction { name: copy_str(op), span });
        return ResolvedType::Error;
    }
    let expected = if str_eq(op, "and") || str_eq(op, "or") {
        "Bool, Bool"
    } else if str_eq(op, "mod") {
        "Int, Int"
    } else {
        "two operands of one type"
    };
    errors.push(CheckError::TypeMismatch { expected: copy_str(expected), actual: both_text(a, b), span });
    ResolvedType::Error
}

fn find_fn(fns: &Vec<FnInfo>, id: &str) -> (r: Option<usize>)
    ensures
        r matches Some(i) ==> i < fns@.len() && fns@[i as int].id@ == id@,
        r is None ==> forall|k: int| 0 <= k < fns@.len() ==> (#[trigger] fns@[k]).id@ != id@,
{
    let mut i: usize = 0;
    while i < fns.len()
        invariant
            i <= fns@.len(),
            forall|k: int| 0 <= k < i ==> (#[trigger] fns@[k]).id@ != id@,
        decreases fns@.len() - i,
    {
        if str_eq(fns[i].id.as_str(), id) {
            return Some(i);
        }
        i = i + 1;
    }
    None
}

fn check_call(
    target: &String,
    args: &Vec<(String, StepInput)>,
    scope: &Vec<(String, ResolvedType)>,
    fns: &Vec<FnInfo>,
    span: Span,
    errors: &mut Vec<CheckError>,
) -> (r: ResolvedType)
    ensures
        final(errors)@.len() >= old(errors)@.len(),
{
    let f = match find_fn(fns, target.as_str()) {
        Some(f) => f,
        None => {
            errors.push(CheckError::UnknownFunction { name: target.clone(), span });
            return ResolvedType::Error;
        },
    };
    let info = &fns[f];
    let mut i: usize = 0;
    while i < args.len()
        invariant
            i <= args@.len(),
            f < fns@.len(),
            info == &fns@[f as int],
            errors@.len() >= old(errors)@.len(),
        decreases args@.len() - i,
    {
        let mut found: Option<usize> = None;
        let mut k: usize = 0;
        while k < info.params.len()
            invariant
                k <= info.params@.len(),
                i < args@.len(),
                found matches Some(j) ==> j < info.params@.len(),
            decreases info.params@.len() - k,
        {
            if found.is_none() && str_eq(info.params[k].0.as_str(), args[i].0.as_str()) {
                found = Some(k);
            }
            k = k + 1;
        }
        match found {
            Some(j) => {
                let t = input_type(&args[i].1, scope, span, errors);
                if !is_assignable(&info.params[j].1, &t) {
                    errors.push(CheckError::TypeMismatch {
                        expected: info.params[j].1.display(),
                        actual: t.display(),
                        span,
                    });
                }
            },
            None => {
                errors.push(CheckError::UnknownArgument { name: args[i].0.clone(), span });
            },
        }
        i = i + 1;
    }
    let mut k: usize = 0;
    while k < info.params.len()
        invariant
            k <= info.params@.len(),
            errors@.len() >= old(errors)@.len(),
        decreases info.params@.len() - k,
    {
        if !info.params[k].2 {
            let mut given = false;
            let mut i: usize = 0;
            while i < args.len()
                invariant
                    i <= args@.len(),
                    k < info.params@.len(),
                decreases args@.len() - i,
            {
                if str_eq(args[i].0.as_str(), info.params[k].0.as_str()) {
                    given = true;
                }
                i = i + 1;
            }
            if !given {
                errors.push(CheckError::MissingArgument { name: info.params[k].0.clone(), span });
            }
        }
        k = k + 1;
    }
    copy_type(&info.ret)
}

/// The step returns a literal of a primitive type other than the primitive
/// return type `ret`.
pub open spec fn returns_mismatch(step: Step, ret: ResolvedType) -> bool {
    step.kind matches StepKind::Return(StepInput::Lit(l)) && 1 <= class(ret) <= 4 && 1 <= class(
        literal_type(l),
    ) <= 4 && class(ret) != class(literal_type(l))
}

/// Primitive types of different classes are written differently, so
/// neither can stand where the other is expected.
proof fn lemma_primitive_mismatch(e: ResolvedType, a: ResolvedType)
    requires
        1 <= class(e) <= 4,
        1 <= class(a) <= 4,
        class(e) != class(a),
    ensures
        !assignable(e, a),
{
    reveal_strlit("Int");
    reveal_strlit("Float");
    reveal_strlit("Bool");
    reveal_strlit("String");
    assert(type_text(e) != type_text(a)) by {
        if type_text(e) == type_text(a) {
            assert(type_text(e).len() == type_text(a).len());
            assert(type_text(e)[0] == type_text(a)[0]);
        }
    }
}

fn check_steps(
    steps: &Vec<Step>,
    scope: &mut Vec<(String, ResolvedType)>,
    ret: &ResolvedType,
    fns: &Vec<FnInfo>,
    registry: &TypeRegistry,
    errors: &mut Vec<CheckError>,
)
    requires
        registry.wf(),
    ensures
        final(errors)@.len() >= old(errors)@.len(),
        steps@.len() > 0 && returns_mismatch(steps@[0], *ret) ==> final(errors)@.len() > old(errors)@.len(),
    decreases steps,
{
    let mut i: usize = 0;
    while i < steps.len()
        invariant
            i <= steps@.len(),
            registry.wf(),
            errors@.len() >= old(errors)@.len(),
            i > 0 && returns_mismatch(steps@[0], *ret) ==> errors@.len() > old(errors)@.len(),
        decreases steps@.len() - i,
    {
        proof {
            assert(decreases_to!(*steps => steps[i as int]));
        }
        check_step(&steps[i], scope, ret, fns, registry, errors);
        i = i + 1;
    }
}

/// Checks one step in the scope, then binds its output.
fn check_step(
    step: &Step,
    scope: &mut Vec<(String, ResolvedType)>,
    ret: &ResolvedType,
    fns: &Vec<FnInfo>,
    registry: &TypeRegistry,
    errors: &mut Vec<CheckError>,
)
    requires
        registry.wf(),
    ensures
        final(errors)@.len() >= old(errors)@.len(),
        returns_mismatch(*step, *ret) ==> final(errors)@.len() > old(errors)@.len(),
    decreases step,
{
    match &step.kind {
        StepKind::Bind(input) => {
            let t = input_type(input, scope, step.span, errors);
            bind(scope, &step.output, t);
        },
        StepKind::Compute { op, inputs } => {
            let mut ins: Vec<ResolvedType> = Vec::new();
            let mut k: usize = 0;
            while k < inputs.len()
                invariant
                    k <= inputs@.len(),
                    errors@.len() >= old(errors)@.len(),
                decreases inputs@.len() - k,
            {
                ins.push(input_type(&inputs[k], scope, step.span, errors));
                k = k + 1;
            }
            let t = compute_type(op.as_str(), &ins, step.span, errors);
            bind(scope, &step.output, t);
        },
        StepKind::Call { target, args } => {
            let t = check_call(target, args, scope, fns, step.span, errors);
            bind(scope, &step.output, t);
        },
        StepKind::If { condition, then_steps, else_steps } => {
            match lookup(scope, condition.as_str()) {
                Some(i) => {
                    let c = &scope[i].1;
                    if !(lenient(c) || class_of(c) == 3) {
                        errors.push(CheckError::IfConditionNotBool { actual: c.display(), span: step.span });
                    }
                },
                None => {
                    errors.push(CheckError::UndefinedVariable { name: condition.clone(), span: step.span });
                },
            }
            let mark = scope.len();
            check_steps(then_steps, scope, ret, fns, registry, errors);
            scope.truncate(mark);
            check_steps(else_steps, scope, ret, fns, registry, errors);
            scope.truncate(mark);
        },
        StepKind::Match { on, cases } => {
            let mut enum_name: Option<String> = None;
            match lookup(scope, on.as_str()) {
                Some(i) => match &scope[i].1 {
                    ResolvedType::Named { name, .. } => {
                        enum_name = Some(name.clone());
                    },
                    _ => {},
                },
                None => {
                    errors.push(CheckError::UndefinedVariable { name: on.clone(), span: step.span });
                },
            }
            match &enum_name {
                Some(en) => match registry.get_enum_variants(en.as_str()) {
                    Some(variants) => {
                        let missing = missing_variants(&variants, cases);
                        if missing.len() > 0 {
                            errors.push(CheckError::NonexhaustiveMatch { missing, span: step.span });
                        }
                    },
                    None => {},
                },
                None => {},
            }
            let mut c: usize = 0;
            while c < cases.len()
                invariant
                    c <= cases@.len(),
                    registry.wf(),
                    step.kind == (StepKind::Match { on: *on, cases: *cases }),
                    errors@.len() >= old(errors)@.len(),
                decreases cases@.len() - c,
            {
                let mark = scope.len();
                match &cases[c].pattern {
                    CasePattern::Variant { ty, bindings } => {
                        bind_variant_fields(scope, registry, &enum_name, ty, bindings);
                    },
                    CasePattern::Wildcard => {},
                }
                proof {
                    assert(decreases_to!(*step => step.kind));
                    assert(step.kind->cases == *cases);
                    assert(decreases_to!(step.kind => step.kind->cases));
                    assert(decreases_to!(*cases => cases[c as int]));
                    assert(decreases_to!(cases[c as int] => cases[c as int].steps));
                    assert(decreases_to!(*step => cases[c as int].steps));
                }
                check_steps(&cases[c].steps, scope, ret, fns, registry, errors);
                scope.truncate(mark);
                c = c + 1;
            }
            bind(scope, &step.output, ResolvedType::Unknown);
        },
        StepKind::Return(input) => {
            let t = input_type(input, scope, step.span, errors);
            proof {
                if returns_mismatch(*step, *ret) {
                    lemma_primitive_mismatch(*ret, t);
                }
            }
            if !is_assignable(ret, &t) {
                errors.push(CheckError::TypeMismatch { expected: ret.display(), actual: t.display(), span: step.span });
            }
        },
        StepKind::Other(_) => {
            bind(scope, &step.output, ResolvedType::Unknown);
        },
    }
}

/// The part of `Enum::Variant` after the last `:`.
fn variant_part(s: &str) -> (r: &str) {
    let n = s.unicode_len();
    let mut i = n;
    while i > 0 && s.get_char(i - 1) != ':'
        invariant
            i <= n,
            n == s@.len(),
        decreases i,
    {
        i = i - 1;
    }
    s.substring_char(i, n)
}

/// The variants that no case names, when no case is a wildcard.
fn missing_variants(variants: &Vec<String>, cases: &Vec<crate::ast::MatchCase>) -> (r: Vec<String>) {
    let mut c: usize = 0;
    while c < cases.len()
        invariant
            c <= cases@.len(),
        decreases cases@.len() - c,
    {
        match &cases[c].pattern {
            CasePattern::Wildcard => {
                return Vec::new();
            },
            _ => {},
        }
        c = c + 1;
    }
    let mut missing: Vec<String> = Vec::new();
    let mut v: usize = 0;
    while v < variants.len()
        invariant
            v <= variants@.len(),
        decreases variants@.len() - v,
    {
        let mut covered = false;
        let mut c: usize = 0;
        while c < cases.len()
            invariant
                c <= cases@.len(),
                v < variants@.len(),
            decreases cases@.len() - c,
        {
            match &cases[c].pattern {
                CasePattern::Variant { ty, .. } => {
                    if str_eq(variant_part(ty.as_str()), variants[v].as_str()) {
                        covered = true;
                    }
                },
                CasePattern::Wildcard => {},
            }
            c = c + 1;
        }
        if !covered {
            missing.push(variants[v].clone());
        }
        v = v + 1;
    }
    missing
}

/// Binds a case's names to the field types of its variant, in order; names
/// past the fields, or of an unknown variant, are bound with unknown type.
fn bind_variant_fields(
    scope: &mut Vec<(String, ResolvedType)>,
    registry: &TypeRegistry,
    enum_name: &Option<String>,
    ty: &String,
    bindings: &Vec<String>,
)
    requires
        registry.wf(),
{
    let vname = variant_part(ty.as_str());
    let mut k: usize = 0;
    while k < bindings.len()
        invariant
            k <= bindings@.len(),
            registry.wf(),
        decreases bindings@.len() - k,
    {
        let mut t = ResolvedType::Unknown;
        match enum_name {
            Some(en) => match registry.get_enum(en.as_str()) {
                Some(def) => {
                    let mut v: usize = 0;
                    while v < def.variants.len()
                        invariant
                            v <= def.variants@.len(),
                        decreases def.variants@.len() - v,
                    {
                        if str_eq(def.variants[v].name.as_str(), vname) {
                            match &def.variants[v].fields {
                                Some(fields) => {
                                    if k < fields.len() {
                                        t = copy_type(&fields[k].1);
                                    }
                                },
                                None => {},
                            }
                        }
                        v = v + 1;
                    }
                },
                None => {},
            },
            None => {},
        }
        bind(scope, &bindings[k], t);
        k = k + 1;
    }
}

fn resolve_fields(fields: &Vec<Param>, snippets: &Vec<Snippet>) -> (r: Vec<(String, ResolvedType)>) {
    let mut out: Vec<(String, ResolvedType)> = Vec::new();
    let mut k: usize = 0;
    while k < fields.len()
        invariant
            k <= fields@.len(),
        decreases fields@.len() - k,
    {
        let t = resolve_type(fields[k].ty.as_str(), snippets);
        let t = if fields[k].optional { ResolvedType::Optional(Box::new(t)) } else { t };
        out.push((fields[k].name.clone(), t));
        k = k + 1;
    }
    out
}

/// Registers the struct and enum signatures of the program's snippets.
fn register_types(snippets: &Vec<Snippet>, registry: &mut TypeRegistry)
    requires
        old(registry).wf(),
    ensures
        final(registry).wf(),
{
    let mut i: usize = 0;
    while i < snippets.len()
        invariant
            i <= snippets@.len(),
            registry.wf(),
        decreases snippets@.len() - i,
    {
        let s = &snippets[i];
        let mut j: usize = 0;
        while j < s.sections.len()
            invariant
                j <= s.sections@.len(),
                registry.wf(),
            decreases s.sections@.len() - j,
        {
            match &s.sections[j] {
                Section::StructDecl(sd) => {
                    registry.register_struct(sd.name.clone(), resolve_fields(&sd.fields, snippets));
                },
                Section::EnumDecl(ed) => {
                    let mut variants: Vec<VariantDef> = Vec::new();
                    let mut k: usize = 0;
                    while k < ed.variants.len()
                        invariant
                            k <= ed.variants@.len(),
                        decreases ed.variants@.len() - k,
                    {
                        let v = &ed.variants[k];
                        let fields = if v.fields.len() == 0 {
                            None
                        } else {
                            Some(resolve_fields(&v.fields, snippets))
                        };
                        variants.push(VariantDef { name: v.name.clone(), fields });
                        k = k + 1;
                    }
                    registry.register_enum(ed.name.clone(), variants);
                },
                _ => {},
            }
            j = j + 1;
        }
        i = i + 1;
    }
}

/// The resolved signature of a snippet, if it has one.
fn signature_of(s: &Snippet, index: usize, snippets: &Vec<Snippet>) -> (r: Option<FnInfo>)
    ensures
        r is Some <==> (has_signature(s.sections@) && index <= 4294967295),
        r matches Some(f) ==> f.id@ == s.id@ && f.symbol == SymbolId(index as u32) && (sig_return(
            s.sections@,
        ) matches Some(p) ==> class(f.ret) == class(p)),
{
    if index > 4294967295 {
        return None;
    }
    let mut i: usize = 0;
    assert(s.sections@.subrange(0, s.sections@.len() as int) =~= s.sections@);
    while i < s.sections.len()
        invariant
            i <= s.sections@.len(),
            index <= 4294967295,
            forall|k: int| 0 <= k < i ==> !(#[trigger] s.sections@[k] is Signature),
            sig_return(s.sections@) == sig_return(s.sections@.subrange(i as int, s.sections@.len() as int)),
        decreases s.sections@.len() - i,
    {
        proof {
            let rest = s.sections@.subrange(i as int, s.sections@.len() as int);
            assert(rest.drop_first() =~= s.sections@.subrange(i + 1, s.sections@.len() as int));
            assert(rest[0] == s.sections@[i as int]);
        }
        match &s.sections[i] {
            Section::Signature(sig) => {
                let mut params: Vec<(String, ResolvedType, bool)> = Vec::new();
                let mut k: usize = 0;
                while k < sig.params.len()
                    invariant
                        k <= sig.params@.len(),
                    decreases sig.params@.len() - k,
                {
                    let p = &sig.params[k];
                    params.push((p.name.clone(), resolve_type(p.ty.as_str(), snippets), p.optional));
                    k = k + 1;
                }
                let base = if sig.return_types.len() == 0 {
                    ResolvedType::NoneType
                } else if sig.return_types.len() == 1 {
                    resolve_type(sig.return_types[0].as_str(), snippets)
                } else {
                    let mut members: Vec<ResolvedType> = Vec::new();
                    let mut k: usize = 0;
                    while k < sig.return_types.len()
                        invariant
                            k <= sig.return_types@.len(),
                        decreases sig.return_types@.len() - k,
                    {
                        members.push(resolve_type(sig.return_types[k].as_str(), snippets));
                        k = k + 1;
                    }
                    ResolvedType::Union(members)
                };
                let ret = if sig.returns_optional {
                    ResolvedType::Optional(Box::new(base))
                } else {
                    base
                };
                return Some(FnInfo { id: s.id.clone(), symbol: SymbolId(index as u32), params, ret });
            },
            _ => {},
        }
        i = i + 1;
    }
    None
}

/// The primitive return type of the snippet's first function signature,
/// when it declares exactly one, not optional.
pub open spec fn sig_return(secs: Seq<Section>) -> Option<ResolvedType>
    decreases secs.len(),
{
    if secs.len() == 0 {
        None
    } else if secs[0] is Signature {
        let sig = secs[0]->Signature_0;
        if sig.return_types@.len() == 1 && !sig.returns_optional {
            primitive_of(sig.return_types@[0]@)
        } else {
            None
        }
    } else {
        sig_return(secs.drop_first())
    }
}

/// The snippet's body starts by returning a literal of a primitive type
/// other than its declared primitive return type.
pub open spec fn has_return_mismatch(s: Snippet) -> bool {
    sig_return(s.sections@) matches Some(p) && exists|j: int|
        0 <= j < s.sections@.len() && (#[trigger] s.sections@[j]) is Body && s.sections@[j]->Body_0@.len()
            > 0 && returns_mismatch(s.sections@[j]->Body_0@[0], p)
}

proof fn lemma_sig_return_has_signature(secs: Seq<Section>)
    requires
        sig_return(secs) is Some,
    ensures
        has_signature(secs),
    decreases secs.len(),
{
    if !(secs[0] is Signature) {
        lemma_sig_return_has_signature(secs.drop_first());
        let k = choose|k: int| 0 <= k < secs.drop_first().len() && #[trigger] secs.drop_first()[k] is Signature;
        assert(secs[k + 1] is Signature);
    }
}

/// Some section of the snippet is a function signature.
pub open spec fn has_signature(secs: Seq<Section>) -> bool {
    exists|k: int| 0 <= k < secs.len() && #[trigger] secs[k] is Signature
}

/// No snippet has a body.
pub open spec fn no_bodies(v: Seq<Snippet>) -> bool {
    forall|i: int, j: int|
        0 <= i < v.len() && 0 <= j < v[i].sections@.len() ==> !(#[trigger] v[i].sections@[j] is Body)
}

/// The ids of the snippets that have a function signature, in order.
pub open spec fn signature_ids(v: Seq<Snippet>) -> Seq<Seq<char>>
    decreases v.len(),
{
    if v.len() == 0 {
        Seq::empty()
    } else if has_signature(v.last().sections@) && v.len() - 1 <= 4294967295 {
        signature_ids(v.drop_last()).push(v.last().id@)
    } else {
        signature_ids(v.drop_last())
    }
}

/// The ids of resolved signatures.
pub open spec fn info_ids(v: Seq<FnInfo>) -> Seq<Seq<char>> {
    v.map_values(|f: FnInfo| f.id@)
}

/// Checks a program: registers the struct and enum types and resolves every
/// function signature, then checks every function body. Returns the
/// resolved signatures, or every diagnostic.
#[verifier::rlimit(100)]
pub fn check(program: &Program) -> (r: Result<CheckResult, Vec<CheckError>>)
    ensures
        r matches Err(v) ==> v@.len() > 0,
        program is Legacy ==> r is Ok,
        program matches Program::Snippets(v) ==> (r matches Ok(c) ==> info_ids(c.symbols@)
            == signature_ids(v@)),
        program matches Program::Snippets(v) ==> (no_bodies(v@) ==> r is Ok),
        program matches Program::Snippets(v) ==> (unique_snippet_ids(v@) && (exists|i: int|
            0 <= i < v@.len() && i <= 4294967295 && has_return_mismatch(#[trigger] v@[i])) ==> r is Err),
{
    let snippets = match program {
        Program::Snippets(s) => s,
        Program::Legacy => {
            return Ok(CheckResult { symbols: Vec::new() });
        },
    };
    let mut fns: Vec<FnInfo> = Vec::new();
    let mut i: usize = 0;
    assert(info_ids(fns@) =~= Seq::<Seq<char>>::empty());
    while i < snippets.len()
        invariant
            i <= snippets@.len(),
            info_ids(fns@) == signature_ids(snippets@.subrange(0, i as int)),
            forall|k: int|
                0 <= k < fns@.len() ==> (#[trigger] fns@[k]).symbol.0 < i && snippets@[fns@[k].symbol.0 as int].id@
                    == fns@[k].id@ && (sig_return(snippets@[fns@[k].symbol.0 as int].sections@) matches Some(p)
                    ==> class(fns@[k].ret) == class(p)),
            forall|j: int|
                0 <= j < i && has_signature(snippets@[j].sections@) && j <= 4294967295 ==> exists|k: int|
                    0 <= k < fns@.len() && (#[trigger] fns@[k]).symbol.0 == j,
        decreases snippets@.len() - i,
    {
        proof {
            let q = snippets@.subrange(0, i + 1);
            assert(q.drop_last() =~= snippets@.subrange(0, i as int));
        }
        match signature_of(&snippets[i], i, snippets) {
            Some(f) => {
                let ghost before = info_ids(fns@);
                let ghost old_fns = fns@;
                let ghost fid = f.id@;
                fns.push(f);
                assert(info_ids(fns@) =~= before.push(fid));
                proof {
                    assert forall|k: int| 0 <= k < old_fns.len() implies #[trigger] fns@[k] == old_fns[k] by {}
                    assert(fns@[old_fns.len() as int].symbol.0 == i);
                    assert forall|j: int|
                        0 <= j < i + 1 && has_signature(snippets@[j].sections@) && j <= 4294967295 implies exists|k: int|
                            0 <= k < fns@.len() && (#[trigger] fns@[k]).symbol.0 == j by {
                        if j < i {
                            let k = choose|k: int| 0 <= k < old_fns.len() && (#[trigger] old_fns[k]).symbol.0 == j;
                            assert(fns@[k] == old_fns[k]);
                        } else {
                            assert(fns@[old_fns.len() as int].symbol.0 == j);
                        }
                    }
                }
            },
            None => {},
        }
        i = i + 1;
    }
    assert(snippets@.subrange(0, i as int) =~= snippets@);
    let ghost ids = info_ids(fns@);
    let mut registry = TypeRegistry::new();
    register_types(snippets, &mut registry);
    let mut errors: Vec<CheckError> = Vec::new();
    let mut i: usize = 0;
    while i < snippets.len()
        invariant
            i <= snippets@.len(),
            registry.wf(),
            info_ids(fns@) == ids,
            no_bodies(snippets@) ==> errors@.len() == 0,
            forall|k: int|
                0 <= k < fns@.len() ==> (#[trigger] fns@[k]).symbol.0 < snippets@.len() && snippets@[fns@[k].symbol.0 as int].id@
                    == fns@[k].id@ && (sig_return(snippets@[fns@[k].symbol.0 as int].sections@) matches Some(p)
                    ==> class(fns@[k].ret) == class(p)),
            forall|j: int|
                0 <= j < snippets@.len() && has_signature(snippets@[j].sections@) && j <= 4294967295 ==> exists|k: int|
                    0 <= k < fns@.len() && (#[trigger] fns@[k]).symbol.0 == j,
            unique_snippet_ids(snippets@) && (exists|ii: int|
                0 <= ii < i && ii <= 4294967295 && has_return_mismatch(#[trigger] snippets@[ii])) ==> errors@.len() > 0,
        decreases snippets@.len() - i,
    {
        let s = &snippets[i];
        let ghost mm = unique_snippet_ids(snippets@) && i <= 4294967295 && has_return_mismatch(snippets@[i as int]);
        let ghost before_len = errors@.len();
        let mut scope: Vec<(String, ResolvedType)> = Vec::new();
        proof {
            if mm {
                lemma_sig_return_has_signature(snippets@[i as int].sections@);
            }
        }
        let found = find_fn(&fns, s.id.as_str());
        proof {
            if mm {
                let k = choose|k: int| 0 <= k < fns@.len() && (#[trigger] fns@[k]).symbol.0 == i;
                assert(fns@[k].id@ == snippets@[i as int].id@);
                if let Some(f) = found {
                    let j = fns@[f as int].symbol.0 as int;
                    assert(snippets@[j].id@ == snippets@[i as int].id@);
                    assert(j == i);
                }
            }
        }
        let ret = match found {
            Some(f) => {
                let mut k: usize = 0;
                while k < fns[f].params.len()
                    invariant
                        k <= fns@[f as int].params@.len(),
                        f < fns@.len(),
                    decreases fns@[f as int].params@.len() - k,
                {
                    scope.push((fns[f].params[k].0.clone(), copy_type(&fns[f].params[k].1)));
                    k = k + 1;
                }
                copy_type(&fns[f].ret)
            },
            None => ResolvedType::Unknown,
        };
        let ghost pi = sig_return(snippets@[i as int].sections@);
        assert(mm ==> (pi matches Some(p) && class(ret) == class(p)));
        let mut j: usize = 0;
        while j < s.sections.len()
            invariant
                j <= s.sections@.len(),
                registry.wf(),
                i < snippets@.len(),
                *s == snippets@[i as int],
                no_bodies(snippets@) ==> errors@.len() == 0,
                errors@.len() >= before_len,
                mm ==> (pi matches Some(p) && class(ret) == class(p)),
                pi == sig_return(snippets@[i as int].sections@),
                mm ==> has_return_mismatch(snippets@[i as int]),
                mm && (exists|jj: int|
                    0 <= jj < j && (#[trigger] s.sections@[jj]) is Body && s.sections@[jj]->Body_0@.len() > 0
                        && returns_mismatch(s.sections@[jj]->Body_0@[0], pi->0)) ==> errors@.len() > 0,
            decreases s.sections@.len() - j,
        {
            match &s.sections[j] {
                Section::Body(steps) => check_steps(steps, &mut scope, &ret, &fns, &registry, &mut errors),
                _ => {},
            }
            proof {
                if mm && s.sections@[j as int] is Body && s.sections@[j as int]->Body_0@.len() > 0
                    && returns_mismatch(s.sections@[j as int]->Body_0@[0], pi->0) {
                    let st = s.sections@[j as int]->Body_0@[0];
                    assert(returns_mismatch(st, ret));
                }
            }
            j = j + 1;
        }
        proof {
            if mm {
                let jj = choose|jj: int|
                    0 <= jj < s.sections@.len() && (#[trigger] s.sections@[jj]) is Body && s.sections@[jj]->Body_0@.len() > 0
                        && returns_mismatch(s.sections@[jj]->Body_0@[0], pi->0);
                assert(0 <= jj < j);
            }
            if unique_snippet_ids(snippets@) && (exists|ii: int|
                0 <= ii < i + 1 && ii <= 4294967295 && has_return_mismatch(#[trigger] snippets@[ii])) {
                let ii = choose|ii: int| 0 <= ii < i + 1 && ii <= 4294967295 && has_return_mismatch(#[trigger] snippets@[ii]);
                if ii < i {
                    assert(errors@.len() > 0);
                } else {
                    assert(mm);
                }
            }
        }
        i = i + 1;
    }
    if errors.len() == 0 {
        Ok(CheckResult { symbols: fns })
    } else {
        Err(errors)
    }
}

/// The error sentinel is compatible with every type, in either position,
/// so that a binding of the error type causes no further type mismatch.
pub proof fn lemma_error_compatible(t: ResolvedType)
    ensures
        assignable(t, ResolvedType::Error),
        assignable(ResolvedType::Error, t),
{
}

} // verus!
