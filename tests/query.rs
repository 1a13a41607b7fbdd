use covenant::query::{QueryEngine, QueryRequest, QueryStatus};
use covenant::store::{RuntimeSymbol, SymbolStore};

fn setup_store() -> SymbolStore {
    let mut store = SymbolStore::new();

    let mut fn1 = RuntimeSymbol::new("auth.login", "fn");
    fn1.effect_closure = vec!["database".into(), "network".into()];
    fn1.calls = vec!["db.query".into()];
    store.upsert(fn1);

    let mut fn2 = RuntimeSymbol::new("db.query", "fn");
    fn2.effect_closure = vec!["database".into()];
    store.upsert(fn2);

    let fn3 = RuntimeSymbol::new("math.add", "fn");
    store.upsert(fn3);

    let struct1 = RuntimeSymbol::new("types.User", "struct");
    store.upsert(struct1);

    store
}

fn request(from: &str, where_clause: Option<&str>, order_by: Option<&str>) -> QueryRequest {
    QueryRequest {
        select_clause: "all".into(),
        from_type: from.into(),
        where_clause: where_clause.map(|s| s.to_string()),
        order_by: order_by.map(|s| s.to_string()),
        limit: None,
        offset: None,
    }
}

fn ids(symbols: &[RuntimeSymbol]) -> Vec<String> {
    symbols.iter().map(|s| s.id.clone()).collect()
}

#[test]
fn test_query_all_functions() {
    let store = setup_store();
    let engine = QueryEngine::new();

    let request = QueryRequest {
        select_clause: "all".into(),
        from_type: "functions".into(),
        where_clause: None,
        order_by: None,
        limit: None,
        offset: None,
    };

    let result = engine.execute(&store, &request).ok().unwrap();
    assert_eq!(result.symbols.len(), 3);
    assert!(result.symbols.iter().all(|s| s.kind == "fn"));
}

#[test]
fn test_query_with_effect_filter() {
    let store = setup_store();
    let engine = QueryEngine::new();

    let request = QueryRequest {
        select_clause: "all".into(),
        from_type: "functions".into(),
        where_clause: Some(r#"{"has_effect": "database"}"#.into()),
        order_by: None,
        limit: None,
        offset: None,
    };

    let result = engine.execute(&store, &request).ok().unwrap();
    assert_eq!(result.symbols.len(), 2);
    assert!(result.symbols.iter().all(|s| s.effect_closure.contains(&"database".to_string())));
}

#[test]
fn test_query_with_ordering() {
    let store = setup_store();
    let engine = QueryEngine::new();

    let request = QueryRequest {
        select_clause: "all".into(),
        from_type: "functions".into(),
        where_clause: None,
        order_by: Some("id:desc".into()),
        limit: None,
        offset: None,
    };

    let result = engine.execute(&store, &request).ok().unwrap();
    assert_eq!(result.symbols[0].id, "math.add");
    assert_eq!(result.symbols[1].id, "db.query");
    assert_eq!(result.symbols[2].id, "auth.login");
}

#[test]
fn test_query_with_pagination() {
    let store = setup_store();
    let engine = QueryEngine::new();

    let request = QueryRequest {
        select_clause: "all".into(),
        from_type: "functions".into(),
        where_clause: None,
        order_by: Some("id:asc".into()),
        limit: Some(2),
        offset: Some(0),
    };

    let result = engine.execute(&store, &request).ok().unwrap();
    assert_eq!(result.symbols.len(), 2);
    assert!(result.has_more);
    assert_eq!(result.symbols[0].id, "auth.login");
    assert_eq!(result.symbols[1].id, "db.query");
}

#[test]
fn test_async_query() {
    let store = setup_store();
    let mut engine = QueryEngine::new();

    let request = QueryRequest {
        select_clause: "all".into(),
        from_type: "all".into(),
        where_clause: None,
        order_by: None,
        limit: None,
        offset: None,
    };

    let handle = engine.start_query(request);
    assert_eq!(engine.poll_query(handle), QueryStatus::Pending);

    engine.process_query(handle, &store);
    assert_eq!(engine.poll_query(handle), QueryStatus::Complete);

    let result = engine.get_result(handle).unwrap();
    assert!(result.is_ok());
    assert_eq!(result.ok().unwrap().symbols.len(), 4);
}

#[test]
fn test_cancel_query() {
    let mut engine = QueryEngine::new();

    let request = QueryRequest {
        select_clause: "all".into(),
        from_type: "all".into(),
        where_clause: None,
        order_by: None,
        limit: None,
        offset: None,
    };

    let handle = engine.start_query(request);
    engine.cancel_query(handle);

    assert_eq!(engine.poll_query(handle), QueryStatus::Cancelled);
}

#[test]
fn query_by_effect_returns_callers_in_id_order() {
    let store = setup_store();
    let engine = QueryEngine::new();
    let result = engine
        .execute(&store, &request("functions", Some(r#"{"has_effect":"database"}"#), Some("id:asc")))
        .ok()
        .unwrap();
    assert_eq!(ids(&result.symbols), vec!["auth.login", "db.query"]);
    assert!(!result.has_more);
    assert_eq!(result.version, 4);
}

#[test]
fn query_twice_gives_the_same_answer() {
    let store = setup_store();
    let engine = QueryEngine::new();
    let req = request("all", None, Some("kind:desc"));
    let a = engine.execute(&store, &req).ok().unwrap();
    let b = engine.execute(&store, &req).ok().unwrap();
    assert_eq!(ids(&a.symbols), ids(&b.symbols));
    assert_eq!(a.version, b.version);
    assert_eq!(a.has_more, b.has_more);
    assert_eq!(ids(&a.symbols), vec!["types.User", "auth.login", "db.query", "math.add"]);
}

#[test]
fn query_unknown_from_type_is_invalid() {
    let store = setup_store();
    let engine = QueryEngine::new();
    let err = engine.execute(&store, &request("widgets", None, None)).err().unwrap();
    assert_eq!(err.message(), "Invalid query: Unknown from_type: widgets");
}

#[test]
fn query_bad_order_is_invalid() {
    let store = setup_store();
    let engine = QueryEngine::new();
    let err = engine.execute(&store, &request("all", None, Some("id:sideways"))).err().unwrap();
    assert_eq!(err.message(), "Invalid query: Invalid order direction: sideways");
    let err = engine.execute(&store, &request("all", None, Some("size"))).err().unwrap();
    assert_eq!(err.message(), "Invalid query: Unknown order field: size");
}

#[test]
fn query_bad_where_json_is_invalid() {
    let store = setup_store();
    let engine = QueryEngine::new();
    let err = engine.execute(&store, &request("all", Some("{not json"), None)).err().unwrap();
    assert_eq!(err.message(), "Invalid query: Invalid where clause JSON");
}

#[test]
fn query_where_contains_and_calls() {
    let mut store = setup_store();
    store.recompute_backward_refs();
    let engine = QueryEngine::new();
    let r = engine
        .execute(
            &store,
            &request("all", Some(r#"{"contains":{"field":"effects","value":"network"}}"#), None),
        )
        .ok()
        .unwrap();
    assert_eq!(ids(&r.symbols), vec!["auth.login"]);
    let r = engine
        .execute(&store, &request("all", Some(r#"{"called_by":"auth.login"}"#), None))
        .ok()
        .unwrap();
    assert_eq!(ids(&r.symbols), vec!["db.query"]);
    let r = engine
        .execute(&store, &request("all", Some(r#"{"kind":"struct"}"#), None))
        .ok()
        .unwrap();
    assert_eq!(ids(&r.symbols), vec!["types.User"]);
}

#[test]
fn query_offset_past_end_is_empty() {
    let store = setup_store();
    let engine = QueryEngine::new();
    let mut req = request("all", None, None);
    req.offset = Some(10);
    let r = engine.execute(&store, &req).ok().unwrap();
    assert!(r.symbols.is_empty());
    assert!(!r.has_more);
    req.offset = Some(1);
    req.limit = Some(2);
    let r = engine.execute(&store, &req).ok().unwrap();
    assert_eq!(ids(&r.symbols), vec!["db.query", "math.add"]);
    assert!(r.has_more);
}

#[test]
fn query_order_by_line() {
    let mut store = SymbolStore::new();
    let mut a = RuntimeSymbol::new("a", "fn");
    a.line = 30;
    let mut b = RuntimeSymbol::new("b", "fn");
    b.line = 10;
    let mut c = RuntimeSymbol::new("c", "fn");
    c.line = 20;
    store.upsert(a);
    store.upsert(b);
    store.upsert(c);
    let engine = QueryEngine::new();
    let r = engine.execute(&store, &request("functions", None, Some("line:asc"))).ok().unwrap();
    assert_eq!(ids(&r.symbols), vec!["b", "c", "a"]);
}

#[test]
fn async_query_error_and_cleanup() {
    let store = setup_store();
    let mut engine = QueryEngine::new();
    let bad = engine.start_query(request("nothing", None, None));
    let pending = engine.start_query(request("all", None, None));
    assert_eq!(pending, bad + 1);
    engine.process_query(bad, &store);
    assert_eq!(engine.poll_query(bad), QueryStatus::Error);
    let res = engine.get_result(bad).unwrap();
    assert_eq!(res.err().unwrap(), "Invalid query: Unknown from_type: nothing");
    engine.cancel_query(bad);
    assert_eq!(engine.poll_query(bad), QueryStatus::Error);
    engine.cleanup_completed();
    assert_eq!(engine.poll_query(pending), QueryStatus::Pending);
    assert!(engine.get_result(bad).is_none());
    assert_eq!(engine.poll_query(999), QueryStatus::Error);
}

#[test]
fn cancelled_query_reports_cancellation() {
    let store = setup_store();
    let mut engine = QueryEngine::new();
    let h = engine.start_query(request("all", None, None));
    engine.cancel_query(h);
    engine.process_query(h, &store);
    assert_eq!(engine.poll_query(h), QueryStatus::Cancelled);
    assert_eq!(engine.get_result(h).unwrap().err().unwrap(), "Query cancelled");
}
