//! Snippet mutation: validates snippet source, writes the symbol to the
//! store and rebuilds back references.

use vstd::prelude::*;
use crate::ast::Span;
use crate::store::{deleted, has_id, transposed, upserted, RuntimeSymbol, SymbolStore, SymbolView};
use crate::text::{all_space, concat, contains, copy_str, is_blank, push_str, str_contains, strs};

verus! {

/// Outcome of a mutation.
#[derive(Debug)]
pub struct MutationResult {
    pub success: bool,
    pub errors: Vec<String>,
    pub warnings: Vec<String>,
    pub new_version: u64,
}

impl MutationResult {
    /// A success at the given store version.
    pub fn ok(version: u64) -> (r: MutationResult)
        ensures
            r.success,
            r.errors@.len() == 0,
            r.warnings@.len() == 0,
            r.new_version == version,
    {
        MutationResult { success: true, errors: Vec::new(), warnings: Vec::new(), new_version: version }
    }

    /// A failure with the given errors.
    pub fn err(errors: Vec<String>) -> (r: MutationResult)
        ensures
            !r.success,
            r.errors == errors,
            r.warnings@.len() == 0,
            r.new_version == 0,
    {
        MutationResult { success: false, errors, warnings: Vec::new(), new_version: 0 }
    }

    /// The same outcome with one more warning.
    pub fn with_warning(self, warning: String) -> (r: MutationResult)
        ensures
            r.success == self.success,
            r.errors == self.errors,
            r.warnings@ == self.warnings@.push(warning),
            r.new_version == self.new_version,
    {
        let mut r = self;
        r.warnings.push(warning);
        r
    }
}

/// Outcome of a compilation.
#[derive(Debug)]
pub struct CompileResult {
    pub success: bool,
    pub errors: Vec<String>,
    /// The WebAssembly module, on success.
    pub wasm: Option<Vec<u8>>,
}

impl CompileResult {
    /// A success with the given module.
    pub fn ok(wasm: Vec<u8>) -> (r: CompileResult)
        ensures
            r.success,
            r.errors@.len() == 0,
            r.wasm == Some(wasm),
    {
        CompileResult { success: true, errors: Vec::new(), wasm: Some(wasm) }
    }

    /// A failure with the given errors.
    pub fn err(errors: Vec<String>) -> (r: CompileResult)
        ensures
            !r.success,
            r.errors == errors,
            r.wasm is None,
    {
        CompileResult { success: false, errors, wasm: None }
    }
}

/// The error that the light validation of snippet source finds first, if any.
pub open spec fn snippet_problem(src: Seq<char>) -> Option<Seq<char>> {
    if all_space(src) {
        Some("Empty source"@)
    } else if !contains(src, "snippet"@) {
        Some("Source must contain 'snippet' declaration"@)
    } else if !contains(src, "id="@) {
        Some("Snippet must have an 'id' attribute"@)
    } else if !contains(src, "kind="@) {
        Some("Snippet must have a 'kind' attribute"@)
    } else if !contains(src, "end"@) {
        Some("Snippet must be terminated with 'end'"@)
    } else {
        None
    }
}

/// The effects that snippet source declares, as far as the mutator reads them.
pub open spec fn declared_effects(src: Seq<char>) -> Seq<Seq<char>> {
    let db: Seq<Seq<char>> = if contains(src, "effect database"@) {
        seq!["database"@]
    } else {
        Seq::empty()
    };
    if contains(src, "effect network"@) {
        db.push("network"@)
    } else {
        db
    }
}

/// The symbol that `update_snippet` writes for `id` from `src`, before the
/// store stamps its version.
pub open spec fn snippet_symbol(id: Seq<char>, src: Seq<char>) -> SymbolView {
    SymbolView {
        id,
        kind: "fn"@,
        file: "<runtime>"@,
        line: 0,
        effects: declared_effects(src),
        effect_closure: declared_effects(src),
        calls: Seq::empty(),
        called_by: Seq::empty(),
        span: Span { start: 0, end: 0 },
        version: 0,
    }
}

/// Validates snippet source and applies snippet edits to a symbol store.
#[derive(Debug)]
pub struct Mutator {}

fn effect_names(source: &str) -> (r: Vec<String>)
    ensures
        strs(r@) == declared_effects(source@),
{
    let mut r: Vec<String> = Vec::new();
    if str_contains(source, "effect database") {
        r.push(copy_str("database"));
    }
    if str_contains(source, "effect network") {
        r.push(copy_str("network"));
    }
    assert(strs(r@) =~= declared_effects(source@));
    r
}

fn one_error(text: &str) -> (r: Vec<String>)
    ensures
        strs(r@) == seq![text@],
{
    let mut r: Vec<String> = Vec::new();
    r.push(copy_str(text));
    assert(strs(r@) =~= seq![text@]);
    r
}

impl Mutator {
    pub fn new() -> (r: Mutator) {
        Mutator {}
    }

    /// Checks that source looks like one snippet: not blank, and holding
    /// `snippet`, `id=`, `kind=` and `end`. The store is not touched.
    pub fn parse_snippet(&self, source: &str) -> (r: MutationResult)
        ensures
            match snippet_problem(source@) {
                Some(e) => !r.success && strs(r.errors@) == seq![e] && r.new_version == 0,
                None => r.success && r.errors@.len() == 0 && r.new_version == 0,
            },
            r.warnings@.len() == 0,
    {
        if is_blank(source) {
            return MutationResult::err(one_error("Empty source"));
        }
        if !str_contains(source, "snippet") {
            return MutationResult::err(one_error("Source must contain 'snippet' declaration"));
        }
        if !str_contains(source, "id=") {
            return MutationResult::err(one_error("Snippet must have an 'id' attribute"));
        }
        if !str_contains(source, "kind=") {
            return MutationResult::err(one_error("Snippet must have a 'kind' attribute"));
        }
        if !str_contains(source, "end") {
            return MutationResult::err(one_error("Snippet must be terminated with 'end'"));
        }
        MutationResult::ok(0)
    }

    /// Validates the source, writes the symbol for `id` with the effects it
    /// declares, and rebuilds back references. On a validation error the
    /// store is left as it was.
    pub fn update_snippet(&self, store: &mut SymbolStore, id: &str, source: &str) -> (r:
        MutationResult)
        requires
            old(store).wf(),
            old(store).spec_version() < u64::MAX,
        ensures
            final(store).wf(),
            match snippet_problem(source@) {
                Some(e) => !r.success && strs(r.errors@) == seq![e] && final(store)@ == old(
                    store,
                )@ && final(store).spec_version() == old(store).spec_version(),
                None => {
                    &&& r.success
                    &&& r.errors@.len() == 0
                    &&& r.new_version == old(store).spec_version() + 1
                    &&& final(store).spec_version() == r.new_version
                    &&& transposed(
                        upserted(
                            old(store)@,
                            SymbolView { version: r.new_version, ..snippet_symbol(id@, source@) },
                        ),
                        final(store)@,
                    )
                },
            },
    {
        let parsed = self.parse_snippet(source);
        if !parsed.success {
            return parsed;
        }
        let mut symbol = RuntimeSymbol::new(id, "fn");
        symbol.file = copy_str("<runtime>");
        let effects = effect_names(source);
        symbol.effect_closure = effect_names(source);
        symbol.effects = effects;
        assert(symbol@ == snippet_symbol(id@, source@));
        let version = store.upsert(symbol);
        store.recompute_backward_refs();
        MutationResult::ok(version)
    }

    /// Removes the symbol `id`; returns whether there was one. After a
    /// removal, back references are rebuilt.
    pub fn delete_snippet(&self, store: &mut SymbolStore, id: &str) -> (r: bool)
        requires
            old(store).wf(),
            old(store).spec_version() < u64::MAX,
        ensures
            final(store).wf(),
            r == has_id(old(store)@, id@),
            r ==> transposed(deleted(old(store)@, id@), final(store)@)
                && final(store).spec_version() == old(store).spec_version() + 1,
            !r ==> final(store)@ == old(store)@ && final(store).spec_version() == old(
                store,
            ).spec_version(),
    {
        let deleted = store.delete(id);
        if deleted {
            store.recompute_backward_refs();
        }
        deleted
    }

    /// Compiles one snippet. Compilation from the store is not available, so
    /// this reports that for the snippet.
    pub fn compile_snippet(&self, store: &SymbolStore, id: &str) -> (r: CompileResult)
        ensures
            !r.success,
            r.wasm is None,
            strs(r.errors@) == seq![
                "Compilation not yet implemented for snippet '"@ + id@ + "'"@,
            ],
    {
        let mut text = concat("Compilation not yet implemented for snippet '", id);
        push_str(&mut text, "'");
        let mut errors: Vec<String> = Vec::new();
        let ghost t = text@;
        errors.push(text);
        assert(strs(errors@) =~= seq![t]);
        CompileResult::err(errors)
    }

    /// Updates the snippet, then compiles it; a validation error of the
    /// update is reported as the compilation's.
    pub fn recompile_snippet(&self, store: &mut SymbolStore, id: &str, source: &str) -> (r:
        CompileResult)
        requires
            old(store).wf(),
            old(store).spec_version() < u64::MAX,
        ensures
            final(store).wf(),
            !r.success,
            r.wasm is None,
            match snippet_problem(source@) {
                Some(e) => strs(r.errors@) == seq![e] && final(store)@ == old(store)@,
                None => strs(r.errors@) == seq![
                    "Compilation not yet implemented for snippet '"@ + id@ + "'"@,
                ] && final(store).spec_version() == old(store).spec_version() + 1 && transposed(
                    upserted(
                        old(store)@,
                        SymbolView {
                            version: (old(store).spec_version() + 1) as u64,
                            ..snippet_symbol(id@, source@)
                        },
                    ),
                    final(store)@,
                ),
            },
    {
        let update = self.update_snippet(store, id, source);
        if !update.success {
            return CompileResult::err(update.errors);
        }
        self.compile_snippet(store, id)
    }
}

impl Default for Mutator {
    fn default() -> (r: Mutator) {
        Mutator::new()
    }
}

} // verus!
