//! Value types shared by the components: spans and the parts of a parsed
//! program that the requirement validator reads.

use vstd::prelude::*;

verus! {

/// A half-open byte range `[start, end)` into the source text.
#[derive(Clone, Copy, Debug, PartialEq, Eq, Structural)]
pub struct Span {
    pub start: usize,
    pub end: usize,
}

impl Span {
    pub fn new(start: usize, end: usize) -> (r: Span)
        ensures
            r.start == start,
            r.end == end,
    {
        Span { start, end }
    }
}

/// Priority of a requirement; `Critical` is the highest.
#[derive(Clone, Copy, Debug, PartialEq, Eq, Structural)]
pub enum Priority {
    Critical,
    High,
    Medium,
    Low,
}

/// Life-cycle status of a requirement.
#[derive(Clone, Copy, Debug, PartialEq, Eq, Structural)]
pub enum ReqStatus {
    Draft,
    Approved,
    Implemented,
    Tested,
}

/// Kind of a declared test.
#[derive(Clone, Copy, Debug, PartialEq, Eq, Structural)]
pub enum TestKind {
    Unit,
    Integration,
    Golden,
    Property,
}

/// A `req` entry of a `requires` section.
#[derive(Debug)]
pub struct Requirement {
    pub id: String,
    pub text: Option<String>,
    pub priority: Option<Priority>,
    pub status: Option<ReqStatus>,
    pub span: Span,
}

/// A `test` entry of a `tests` section.
#[derive(Debug)]
pub struct TestDecl {
    pub id: String,
    pub kind: TestKind,
    pub covers: Vec<String>,
    pub span: Span,
}

/// A `rel` entry of a `relations` section: an edge to another snippet.
#[derive(Debug)]
pub struct Relation {
    pub to: String,
    pub rel_type: String,
    pub span: Span,
}

/// A parameter of a function signature; its type as written.
#[derive(Debug)]
pub struct Param {
    pub name: String,
    pub ty: String,
    pub optional: bool,
}

/// The signature of a `fn` or `extern` snippet. `return_types` holds
/// the return type as written, or the members of a union return.
#[derive(Debug)]
pub struct FnSignature {
    pub name: String,
    pub params: Vec<Param>,
    pub return_types: Vec<String>,
    pub returns_optional: bool,
}

/// The signature of a `struct` snippet: its name and typed fields.
#[derive(Debug)]
pub struct StructSignature {
    pub name: String,
    pub fields: Vec<Param>,
}

/// A variant of an enum signature; `fields` is empty for a unit variant.
#[derive(Debug)]
pub struct VariantSignature {
    pub name: String,
    pub fields: Vec<Param>,
}

/// The signature of an `enum` snippet: its name and ordered variants.
#[derive(Debug)]
pub struct EnumSignature {
    pub name: String,
    pub variants: Vec<VariantSignature>,
}

/// What a `match` case matches.
#[derive(Debug)]
pub enum CasePattern {
    /// A variant, written `Enum::Variant`, with names for its fields.
    Variant { ty: String, bindings: Vec<String> },
    Wildcard,
}

/// A case of a `match` step and the steps it runs.
#[derive(Debug)]
pub struct MatchCase {
    pub pattern: CasePattern,
    pub steps: Vec<Step>,
}

/// A literal as written in a step.
#[derive(Debug)]
pub enum Literal {
    /// An integer, as its digits.
    Int(String),
    /// A float, as its digits.
    Float(String),
    Str(String),
    Bool(bool),
    NoneLit,
}

/// An input of a step: a binding or a literal.
#[derive(Debug)]
pub enum StepInput {
    Var(String),
    Lit(Literal),
}

/// What a step does.
#[derive(Debug)]
pub enum StepKind {
    Bind(StepInput),
    Compute { op: String, inputs: Vec<StepInput> },
    Call { target: String, args: Vec<(String, StepInput)> },
    If { condition: String, then_steps: Vec<Step>, else_steps: Vec<Step> },
    Match { on: String, cases: Vec<MatchCase> },
    Return(StepInput),
    /// A step of another kind (for, query), kept by its kind name.
    Other(String),
}

/// A step of a function body; `output` is its `as` binding.
#[derive(Debug)]
pub struct Step {
    pub id: String,
    pub kind: StepKind,
    pub output: String,
    pub span: Span,
}

/// A section of a snippet. Only the sections that the requirement validator
/// reads carry their contents here.
#[derive(Debug)]
pub enum Section {
    /// The signature of a function snippet.
    Signature(FnSignature),
    /// The signature of a struct snippet.
    StructDecl(StructSignature),
    /// The signature of an enum snippet.
    EnumDecl(EnumSignature),
    /// The steps of a function body.
    Body(Vec<Step>),
    Requires(Vec<Requirement>),
    Tests(Vec<TestDecl>),
    Effects(Vec<String>),
    Relations(Vec<Relation>),
    /// The text body of a data snippet.
    Content(String),
    Other,
}

/// A snippet: its dotted id, its kind name and its ordered sections.
#[derive(Debug)]
pub struct Snippet {
    pub id: String,
    pub kind: String,
    pub sections: Vec<Section>,
    pub span: Span,
}

/// A parsed program: the snippet form, or the legacy form of top-level
/// declarations, which carries no sections.
#[derive(Debug)]
pub enum Program {
    Snippets(Vec<Snippet>),
    Legacy,
}

} // verus!
