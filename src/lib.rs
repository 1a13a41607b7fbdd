//! Covenant: the toolchain core of the Covenant snippet language.
//!
//! - `lexer`: tokens of the source text, `=` for equality and `:=` for
//!   assignment;
//! - `parser`: snippets with their signatures, bodies, requirements, tests,
//!   effects, relations and contents;
//! - `types` and `checker`: resolved types, the struct and enum registry, and
//!   the type checker;
//! - `graph`: the data graph of snippets and typed relations with their
//!   inverses;
//! - `store`, `query`, `mutation`, `error`: the versioned symbol store, the
//!   query engine with its handle table, and snippet mutation;
//! - `requirements`, `validator`, `report`: requirement coverage;
//! - `optimizer`: the optimization scaffold;
//! - `ast` and `text`: shared values and string helpers.

pub mod ast;
pub mod text;
pub mod store;
pub mod error;
pub mod query;
pub mod mutation;
pub mod requirements;
pub mod validator;
pub mod lexer;
pub mod types;
pub mod parser;
pub mod graph;
pub mod checker;
pub mod optimizer;
pub mod report;
