use covenant::store::{RuntimeSymbol, SymbolFilter, SymbolStore};

fn sym(id: &str, calls: &[&str]) -> RuntimeSymbol {
    let mut s = RuntimeSymbol::new(id, "fn");
    s.calls = calls.iter().map(|c| c.to_string()).collect();
    s
}

#[test]
fn backward_refs_are_the_transpose_of_calls() {
    let mut store = SymbolStore::new();
    store.upsert(sym("a", &["b", "c"]));
    store.upsert(sym("b", &["c"]));
    store.upsert(sym("c", &[]));
    store.upsert(sym("d", &["a", "missing"]));
    store.recompute_backward_refs();
    assert_eq!(store.get("a").unwrap().called_by, vec!["d"]);
    assert!(store.get("b").unwrap().called_by == vec!["a"]);
    assert_eq!(store.get("c").unwrap().called_by, vec!["a", "b"]);
    assert!(store.get("d").unwrap().called_by.is_empty());
    for x in ["a", "b", "c", "d"] {
        for y in ["a", "b", "c", "d"] {
            let by = store.get(x).unwrap().called_by.contains(&y.to_string());
            let calls = store.get(y).unwrap().calls.contains(&x.to_string());
            assert_eq!(by, calls);
        }
    }
    store.delete("a");
    store.recompute_backward_refs();
    assert!(store.get("c").unwrap().called_by == vec!["b"]);
}

#[test]
fn upsert_replaces_and_counts_versions() {
    let mut store = SymbolStore::new();
    assert_eq!(store.version(), 0);
    assert_eq!(store.upsert(RuntimeSymbol::new("x", "fn")), 1);
    assert_eq!(store.upsert(RuntimeSymbol::new("x", "struct")), 2);
    assert_eq!(store.len(), 1);
    assert_eq!(store.get("x").unwrap().kind, "struct");
    assert_eq!(store.get("x").unwrap().version, 2);
    assert!(!store.delete("y"));
    assert_eq!(store.version(), 2);
    assert!(store.delete("x"));
    assert_eq!(store.version(), 3);
    assert!(store.get("x").is_none());
}

#[test]
fn list_filters_and_orders_by_id() {
    let mut store = SymbolStore::new();
    store.upsert(RuntimeSymbol::new("zeta", "fn"));
    store.upsert(RuntimeSymbol::new("alpha", "struct"));
    store.upsert(RuntimeSymbol::new("Beta", "fn"));
    let all = store.list(&SymbolFilter::default());
    let ids: Vec<&str> = all.iter().map(|s| s.id.as_str()).collect();
    assert_eq!(ids, vec!["Beta", "alpha", "zeta"]);
    let mut f = SymbolFilter::default();
    f.kind = Some("fn".to_string());
    let fns = store.list(&f);
    let ids: Vec<&str> = fns.iter().map(|s| s.id.as_str()).collect();
    assert_eq!(ids, vec!["Beta", "zeta"]);
}
