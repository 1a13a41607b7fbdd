use covenant::mutation::{CompileResult, MutationResult, Mutator};
use covenant::store::{RuntimeSymbol, SymbolStore};

#[test]
fn mutation_test_parse_empty_source() {
    let mutator = Mutator::new();
    let result = mutator.parse_snippet("");
    assert!(!result.success);
    assert!(result.errors.iter().any(|e| e.contains("Empty")));
}

#[test]
fn test_parse_valid_snippet() {
    let mutator = Mutator::new();
    let source = r#"
            snippet id="test.foo" kind="fn"
            end
        "#;
    let result = mutator.parse_snippet(source);
    assert!(result.success, "Errors: {:?}", result.errors);
}

#[test]
fn test_parse_missing_id() {
    let mutator = Mutator::new();
    let source = r#"
            snippet kind="fn"
            end
        "#;
    let result = mutator.parse_snippet(source);
    assert!(!result.success);
    assert!(result.errors.iter().any(|e| e.contains("id")));
}

#[test]
fn test_update_snippet() {
    let mut store = SymbolStore::new();
    let mutator = Mutator::new();

    let source = r#"
            snippet id="test.foo" kind="fn"
            effects
              effect database
            end
            end
        "#;

    let result = mutator.update_snippet(&mut store, "test.foo", source);
    assert!(result.success, "Errors: {:?}", result.errors);
    assert!(store.contains("test.foo"));

    let symbol = store.get("test.foo").unwrap();
    assert!(symbol.effect_closure.contains(&"database".to_string()));
}

#[test]
fn test_delete_snippet() {
    let mut store = SymbolStore::new();
    let mutator = Mutator::new();

    store.upsert(RuntimeSymbol::new("test.foo", "fn"));
    assert!(store.contains("test.foo"));

    assert!(mutator.delete_snippet(&mut store, "test.foo"));
    assert!(!store.contains("test.foo"));

    assert!(!mutator.delete_snippet(&mut store, "test.foo"));
}

#[test]
fn parse_snippet_reports_each_missing_part() {
    let m = Mutator::new();
    assert_eq!(m.parse_snippet("  \n\t ").errors, vec!["Empty source"]);
    assert_eq!(
        m.parse_snippet("id= kind= end").errors,
        vec!["Source must contain 'snippet' declaration"]
    );
    assert_eq!(
        m.parse_snippet("snippet kind= end").errors,
        vec!["Snippet must have an 'id' attribute"]
    );
    assert_eq!(
        m.parse_snippet("snippet id= end").errors,
        vec!["Snippet must have a 'kind' attribute"]
    );
    assert_eq!(
        m.parse_snippet("snippet id=\"a\" kind=\"fn\"").errors,
        vec!["Snippet must be terminated with 'end'"]
    );
    let ok = m.parse_snippet("snippet id=\"a\" kind=\"fn\" end");
    assert!(ok.success);
    assert_eq!(ok.new_version, 0);
}

#[test]
fn update_snippet_versions_and_effects() {
    let mut store = SymbolStore::new();
    let m = Mutator::new();
    let src = "snippet id=\"a\" kind=\"fn\"\neffects\n effect network\n effect database\nend\nend";
    let r = m.update_snippet(&mut store, "a", src);
    assert!(r.success);
    assert_eq!(r.new_version, 1);
    let s = store.get("a").unwrap();
    assert_eq!(s.effects, vec!["database", "network"]);
    assert_eq!(s.file, "<runtime>");
    assert_eq!(s.kind, "fn");
    assert_eq!(s.version, 1);
    let bad = m.update_snippet(&mut store, "b", "");
    assert!(!bad.success);
    assert_eq!(store.version(), 1);
    assert!(!store.contains("b"));
}

#[test]
fn compile_and_recompile_report_not_available() {
    let mut store = SymbolStore::new();
    let m = Mutator::new();
    let c = m.compile_snippet(&store, "x.y");
    assert!(!c.success);
    assert!(c.wasm.is_none());
    assert_eq!(c.errors, vec!["Compilation not yet implemented for snippet 'x.y'"]);
    let r = m.recompile_snippet(&mut store, "x.y", "");
    assert_eq!(r.errors, vec!["Empty source"]);
    let r = m.recompile_snippet(&mut store, "x.y", "snippet id= kind= end");
    assert_eq!(r.errors, vec!["Compilation not yet implemented for snippet 'x.y'"]);
    assert!(store.contains("x.y"));
}

#[test]
fn result_constructors() {
    let ok = MutationResult::ok(7).with_warning("careful".to_string());
    assert!(ok.success);
    assert_eq!(ok.new_version, 7);
    assert_eq!(ok.warnings, vec!["careful"]);
    let err = MutationResult::err(vec!["bad".to_string()]);
    assert!(!err.success);
    assert_eq!(err.new_version, 0);
    let c = CompileResult::ok(vec![0, 97, 115, 109]);
    assert!(c.success);
    assert_eq!(c.wasm, Some(vec![0, 97, 115, 109]));
    assert!(CompileResult::err(vec![]).wasm.is_none());
}
