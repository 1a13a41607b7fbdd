//! The query engine: requests over the symbol store, run at once or through
//! handles that the host advances.

use vstd::prelude::*;
use crate::error::{error_text, RuntimeError};
use crate::store::{
    duplicate_all, opt_view, select, sort_symbols, sorted_by, views, FilterView, OrderField,
    SymbolFilter, SymbolStore, SymbolView,
};
use crate::text::{concat, copy_str, str_eq};
use crate::store::RuntimeSymbol;

verus! {

/// Opaque handle of an asynchronous query.
pub type QueryHandle = u64;

/// State of an asynchronous query.
#[derive(Clone, Copy, Debug, PartialEq, Eq, Structural)]
pub enum QueryStatus {
    Pending,
    Complete,
    Error,
    Cancelled,
}

/// A query over the symbol store.
#[derive(Debug)]
pub struct QueryRequest {
    /// What to select: "all" or comma-separated field names.
    pub select_clause: String,
    /// Which symbols: "functions", "structs", "enums", "modules",
    /// "databases", "externs", or "all" / "*".
    pub from_type: String,
    /// A JSON object with the fields `has_effect`, `calls`, `called_by`,
    /// `kind` and `contains: {field: "effects", value}`.
    pub where_clause: Option<String>,
    /// "field:dir" with field id, kind, file or line and dir asc or desc.
    pub order_by: Option<String>,
    pub limit: Option<u32>,
    pub offset: Option<u32>,
}

/// The answer to a query.
#[derive(Debug)]
pub struct QueryResult {
    pub symbols: Vec<RuntimeSymbol>,
    /// Store version at which the query ran.
    pub version: u64,
    /// Whether results lie beyond the returned page.
    pub has_more: bool,
}

/// The string members that a where clause names, as read from its JSON.
#[derive(Debug)]
pub struct WhereClause {
    pub has_effect: Option<String>,
    pub calls: Option<String>,
    pub called_by: Option<String>,
    pub kind: Option<String>,
    /// `contains.field`.
    pub contains_field: Option<String>,
    /// `contains.value`.
    pub contains_value: Option<String>,
}

impl WhereClause {
    /// A clause that names nothing.
    pub fn empty() -> (r: WhereClause)
        ensures
            r == empty_where(),
    {
        WhereClause {
            has_effect: None,
            calls: None,
            called_by: None,
            kind: None,
            contains_field: None,
            contains_value: None,
        }
    }
}

pub open spec fn empty_where() -> WhereClause {
    WhereClause {
        has_effect: None,
        calls: None,
        called_by: None,
        kind: None,
        contains_field: None,
        contains_value: None,
    }
}

/// The symbol kind that a `from_type` selects: `Some(None)` for every kind,
/// `None` for a name that is not known.
pub open spec fn from_kind(from: Seq<char>) -> Option<Option<Seq<char>>> {
    if from == "functions"@ {
        Some(Some("fn"@))
    } else if from == "structs"@ {
        Some(Some("struct"@))
    } else if from == "enums"@ {
        Some(Some("enum"@))
    } else if from == "modules"@ {
        Some(Some("module"@))
    } else if from == "databases"@ {
        Some(Some("database"@))
    } else if from == "externs"@ {
        Some(Some("extern"@))
    } else if from == "all"@ || from == "*"@ {
        Some(None)
    } else {
        None
    }
}

/// `o` when it is set, else `d`.
pub open spec fn or_else(o: Option<Seq<char>>, d: Option<Seq<char>>) -> Option<Seq<char>> {
    if o is Some {
        o
    } else {
        d
    }
}

/// The filter that a where clause makes of `f`: each member that it names
/// replaces the field; `contains` on `effects` sets the effect last.
pub open spec fn where_filter(f: FilterView, w: WhereClause) -> FilterView {
    let effect = or_else(opt_view(w.has_effect), f.has_effect);
    FilterView {
        kind: or_else(opt_view(w.kind), f.kind),
        has_effect: if opt_view(w.contains_field) == Some("effects"@) && w.contains_value is Some {
            opt_view(w.contains_value)
        } else {
            effect
        },
        calls_fn: or_else(opt_view(w.calls), f.calls_fn),
        called_by_fn: or_else(opt_view(w.called_by), f.called_by_fn),
    }
}

/// The filter of a request, or `None` when its `from_type` is not known.
pub open spec fn request_filter(req: QueryRequest, w: WhereClause) -> Option<FilterView> {
    match from_kind(req.from_type@) {
        Some(k) => Some(
            where_filter(FilterView { kind: k, has_effect: None, calls_fn: None, called_by_fn: None }, w),
        ),
        None => None,
    }
}

/// Index of the first ':' of `s`, if it is `k`.
pub open spec fn is_first_colon(s: Seq<char>, k: int) -> bool {
    &&& 0 <= k < s.len()
    &&& s[k] == ':'
    &&& forall|j: int| 0 <= j < k ==> s[j] != ':'
}

/// Index of the first ':' of `s`, or its length when it has none.
pub open spec fn first_colon(s: Seq<char>) -> int {
    if exists|k: int| is_first_colon(s, k) {
        choose|k: int| is_first_colon(s, k)
    } else {
        s.len() as int
    }
}

/// The first ':'-separated part of an order specification.
pub open spec fn order_field_part(s: Seq<char>) -> Seq<char> {
    s.subrange(0, first_colon(s))
}

/// The second ':'-separated part, "asc" when there is none.
pub open spec fn order_dir_part(s: Seq<char>) -> Seq<char> {
    let c = first_colon(s);
    if c < s.len() {
        let rest = s.subrange(c + 1, s.len() as int);
        rest.subrange(0, first_colon(rest))
    } else {
        "asc"@
    }
}

/// The field and direction (`true` for ascending) that an order
/// specification names; `None` when the direction or the field is unknown.
pub open spec fn order_spec(s: Seq<char>) -> Option<(OrderField, bool)> {
    let d = order_dir_part(s);
    let f = order_field_part(s);
    if d != "asc"@ && d != "desc"@ {
        None
    } else {
        let asc = d == "asc"@;
        if f == "id"@ {
            Some((OrderField::Id, asc))
        } else if f == "kind"@ {
            Some((OrderField::Kind, asc))
        } else if f == "file"@ {
            Some((OrderField::File, asc))
        } else if f == "line"@ {
            Some((OrderField::Line, asc))
        } else {
            None
        }
    }
}

/// The page of `s` that an offset and a limit pick.
pub open spec fn page(s: Seq<SymbolView>, offset: Option<u32>, limit: Option<u32>) -> Seq<SymbolView> {
    let start = if offset.unwrap_or(0) as int <= s.len() {
        offset.unwrap_or(0) as int
    } else {
        s.len() as int
    };
    let end = match limit {
        Some(l) => if start + l <= s.len() {
            start + l
        } else {
            s.len() as int
        },
        None => s.len() as int,
    };
    s.subrange(start, end)
}

/// What a request with the where clause `w` answers on the store `s`: the
/// page of results and whether more lie beyond it; `None` for an invalid
/// request.
pub open spec fn query_answer(s: Seq<SymbolView>, req: QueryRequest, w: WhereClause) -> Option<
    (Seq<SymbolView>, bool),
> {
    match request_filter(req, w) {
        None => None,
        Some(f) => {
            let listed = sorted_by(select(s, f), OrderField::Id, true);
            let ordered = match opt_view(req.order_by) {
                None => Some(sorted_by(listed, OrderField::Id, true)),
                Some(o) => match order_spec(o) {
                    Some((field, asc)) => Some(sorted_by(listed, field, asc)),
                    None => None,
                },
            };
            match ordered {
                Some(all) => {
                    let p = page(all, req.offset, req.limit);
                    let skipped = if req.offset.unwrap_or(0) as int <= all.len() {
                        req.offset.unwrap_or(0) as int
                    } else {
                        all.len() as int
                    };
                    Some((p, skipped + p.len() < all.len()))
                },
                None => None,
            }
        },
    }
}

/// `r` is what the request answers with where clause `w` on a store with
/// symbols `s` at version `version`.
pub open spec fn answers(
    r: Result<QueryResult, RuntimeError>,
    s: Seq<SymbolView>,
    version: u64,
    req: QueryRequest,
    w: WhereClause,
) -> bool {
    match query_answer(s, req, w) {
        None => r matches Err(RuntimeError::InvalidQuery(_)),
        Some((p, more)) => r matches Ok(q) && views(q.symbols@) == p && q.version == version
            && q.has_more == more,
    }
}

fn find_colon(s: &str) -> (r: usize)
    ensures
        r == first_colon(s@),
        r <= s@.len(),
{
    let n = s.unicode_len();
    let mut i: usize = 0;
    while i < n && s.get_char(i) != ':'
        invariant
            n == s@.len(),
            i <= n,
            forall|j: int| 0 <= j < i ==> s@[j] != ':',
        decreases n - i,
    {
        i = i + 1;
    }
    proof {
        if i < n {
            assert(is_first_colon(s@, i as int));
            let k = choose|k: int| is_first_colon(s@, k);
            if k < i {
                assert(s@[k] != ':');
            }
            if k > i {
                assert(s@[i as int] != ':');
            }
        } else {
            assert forall|k: int| !is_first_colon(s@, k) by {
                if 0 <= k < s@.len() {
                    assert(s@[k] != ':');
                }
            }
        }
    }
    i
}

fn invalid(what: &str, detail: &str) -> (r: RuntimeError)
    ensures
        r matches RuntimeError::InvalidQuery(m) && m@ == what@ + detail@,
{
    RuntimeError::InvalidQuery(concat(what, detail))
}

/// The field and direction that an order specification names.
pub fn parse_order(order: &str) -> (r: Result<(OrderField, bool), RuntimeError>)
    ensures
        match order_spec(order@) {
            Some(p) => r == Ok::<(OrderField, bool), RuntimeError>(p),
            None => r matches Err(RuntimeError::InvalidQuery(_)),
        },
{
    let n = order.unicode_len();
    let c = find_colon(order);
    let field = order.substring_char(0, c);
    let dir_owned;
    if c < n {
        let rest = order.substring_char(c + 1, n);
        let c2 = find_colon(rest);
        dir_owned = copy_str(rest.substring_char(0, c2));
    } else {
        dir_owned = copy_str("asc");
    }
    let dir = dir_owned.as_str();
    assert(dir@ == order_dir_part(order@));
    let asc = if str_eq(dir, "asc") {
        true
    } else if str_eq(dir, "desc") {
        false
    } else {
        return Err(invalid("Invalid order direction: ", dir));
    };
    if str_eq(field, "id") {
        Ok((OrderField::Id, asc))
    } else if str_eq(field, "kind") {
        Ok((OrderField::Kind, asc))
    } else if str_eq(field, "file") {
        Ok((OrderField::File, asc))
    } else if str_eq(field, "line") {
        Ok((OrderField::Line, asc))
    } else {
        Err(invalid("Unknown order field: ", field))
    }
}

/// The kind that a `from_type` selects.
pub fn kind_for(from: &str) -> (r: Option<Option<String>>)
    ensures
        match from_kind(from@) {
            Some(Some(k)) => r matches Some(Some(x)) && x@ == k,
            Some(None) => r matches Some(None),
            None => r is None,
        },
{
    if str_eq(from, "functions") {
        Some(Some(copy_str("fn")))
    } else if str_eq(from, "structs") {
        Some(Some(copy_str("struct")))
    } else if str_eq(from, "enums") {
        Some(Some(copy_str("enum")))
    } else if str_eq(from, "modules") {
        Some(Some(copy_str("module")))
    } else if str_eq(from, "databases") {
        Some(Some(copy_str("database")))
    } else if str_eq(from, "externs") {
        Some(Some(copy_str("extern")))
    } else if str_eq(from, "all") || str_eq(from, "*") {
        Some(None)
    } else {
        None
    }
}

fn copy_opt(o: &Option<String>) -> (r: Option<String>)
    ensures
        opt_view(r) == opt_view(*o),
{
    match o {
        Some(s) => Some(s.clone()),
        None => None,
    }
}

fn pick(o: &Option<String>, d: Option<String>) -> (r: Option<String>)
    ensures
        opt_view(r) == or_else(opt_view(*o), opt_view(d)),
{
    match o {
        Some(s) => Some(s.clone()),
        None => d,
    }
}

/// Applies a where clause to a filter.
pub fn apply_where(filter: SymbolFilter, w: &WhereClause) -> (r: SymbolFilter)
    ensures
        r@ == where_filter(filter@, *w),
{
    let effect = pick(&w.has_effect, filter.has_effect);
    let on_effects = match &w.contains_field {
        Some(f) => str_eq(f.as_str(), "effects"),
        None => false,
    };
    let has_effect = if on_effects && w.contains_value.is_some() {
        copy_opt(&w.contains_value)
    } else {
        effect
    };
    SymbolFilter {
        kind: pick(&w.kind, filter.kind),
        has_effect,
        calls_fn: pick(&w.calls, filter.calls_fn),
        called_by_fn: pick(&w.called_by, filter.called_by_fn),
    }
}

/// The symbols of `v` from index `start` up to `end`.
fn slice_symbols(v: Vec<RuntimeSymbol>, start: usize, end: usize) -> (r: Vec<RuntimeSymbol>)
    requires
        start <= end <= v@.len(),
    ensures
        views(r@) == views(v@).subrange(start as int, end as int),
{
    let mut v = v;
    let ghost all = v@;
    v.truncate(end);
    let r = v.split_off(start);
    assert(views(r@) =~= views(all).subrange(start as int, end as int));
    r
}

/// Runs a request whose where clause has been read as `w`.
pub fn run_query(store: &SymbolStore, request: &QueryRequest, w: &WhereClause) -> (r: Result<
    QueryResult,
    RuntimeError,
>)
    ensures
        answers(r, store@, store.spec_version(), *request, *w),
{
    let kind = match kind_for(request.from_type.as_str()) {
        Some(k) => k,
        None => {
            return Err(invalid("Unknown from_type: ", request.from_type.as_str()));
        },
    };
    let base = SymbolFilter { kind, has_effect: None, calls_fn: None, called_by_fn: None };
    let filter = apply_where(base, w);
    let listed = store.list(&filter);
    let ordered = match &request.order_by {
        Some(order) => match parse_order(order.as_str()) {
            Ok((field, asc)) => sort_symbols(listed, field, asc),
            Err(e) => {
                return Err(e);
            },
        },
        None => sort_symbols(listed, OrderField::Id, true),
    };
    let total = ordered.len();
    let offset: usize = match request.offset {
        Some(o) => o as usize,
        None => 0,
    };
    let start = if offset <= total {
        offset
    } else {
        total
    };
    let end = match request.limit {
        Some(l) => if l as usize <= total - start {
            start + l as usize
        } else {
            total
        },
        None => total,
    };
    let symbols = slice_symbols(ordered, start, end);
    let has_more = start + symbols.len() < total;
    Ok(QueryResult { symbols, version: store.version(), has_more })
}

/// The text is one JSON value, as `serde_json::from_str` reads it.
pub uninterp spec fn json_valid(text: Seq<char>) -> bool;

/// The string found in the JSON text by following the object keys of
/// `path`, as `serde_json::Value::get` and `as_str` find it; `None` when the
/// text is not JSON, a key is missing, a value on the way is not an object,
/// or the value found is not a string.
pub uninterp spec fn json_string_at(text: Seq<char>, path: Seq<Seq<char>>) -> Option<Seq<char>>;

/// Relies on `serde_json::from_str::<serde_json::Value>`: whether the text
/// reads as JSON, a function of the text alone.
#[verifier::external_body]
fn json_reads(text: &str) -> (r: bool)
    ensures
        r == json_valid(text@),
{
    serde_json::from_str::<serde_json::Value>(text).is_ok()
}

/// Relies on `serde_json::from_str`, `Value::get` and `Value::as_str`: the
/// string member `key` of the JSON object in the text.
#[verifier::external_body]
fn json_string_member(text: &str, key: &str) -> (r: Option<String>)
    ensures
        opt_view(r) == json_string_at(text@, seq![key@]),
{
    let v: serde_json::Value = serde_json::from_str(text).ok()?;
    v.get(key)?.as_str().map(|s| s.to_string())
}

/// Relies on `serde_json::from_str`, `Value::get` and `Value::as_str`: the
/// string member `key` of the object member `outer` of the JSON object in
/// the text.
#[verifier::external_body]
fn json_nested_string_member(text: &str, outer: &str, key: &str) -> (r: Option<String>)
    ensures
        opt_view(r) == json_string_at(text@, seq![outer@, key@]),
{
    let v: serde_json::Value = serde_json::from_str(text).ok()?;
    v.get(outer)?.get(key)?.as_str().map(|s| s.to_string())
}

/// `w` holds the members that the JSON text gives.
pub open spec fn read_from(w: WhereClause, text: Seq<char>) -> bool {
    &&& opt_view(w.has_effect) == json_string_at(text, seq!["has_effect"@])
    &&& opt_view(w.calls) == json_string_at(text, seq!["calls"@])
    &&& opt_view(w.called_by) == json_string_at(text, seq!["called_by"@])
    &&& opt_view(w.kind) == json_string_at(text, seq!["kind"@])
    &&& opt_view(w.contains_field) == json_string_at(text, seq!["contains"@, "field"@])
    &&& opt_view(w.contains_value) == json_string_at(text, seq!["contains"@, "value"@])
}

/// Reads the members of a where clause from its JSON text; text that is not
/// JSON is an invalid query.
pub fn parse_where_clause(json: &str) -> (r: Result<WhereClause, RuntimeError>)
    ensures
        json_valid(json@) ==> (r matches Ok(w) && read_from(w, json@)),
        !json_valid(json@) ==> (r matches Err(RuntimeError::InvalidQuery(m)) && m@
            == "Invalid where clause JSON"@),
{
    if !json_reads(json) {
        return Err(RuntimeError::InvalidQuery(copy_str("Invalid where clause JSON")));
    }
    Ok(
        WhereClause {
            has_effect: json_string_member(json, "has_effect"),
            calls: json_string_member(json, "calls"),
            called_by: json_string_member(json, "called_by"),
            kind: json_string_member(json, "kind"),
            contains_field: json_nested_string_member(json, "contains", "field"),
            contains_value: json_nested_string_member(json, "contains", "value"),
        },
    )
}

/// What `execute` returns: an unknown `from_type` is an invalid query; with
/// no where clause the answer is exact; with one, text that is not JSON is
/// an invalid query, and otherwise the answer is that for the members the
/// JSON gives.
pub open spec fn executes(
    r: Result<QueryResult, RuntimeError>,
    s: Seq<SymbolView>,
    version: u64,
    req: QueryRequest,
) -> bool {
    &&& (from_kind(req.from_type@) is None ==> r matches Err(RuntimeError::InvalidQuery(_)))
    &&& (req.where_clause is None ==> answers(r, s, version, req, empty_where()))
    &&& (req.where_clause matches Some(j) ==> from_kind(req.from_type@) is Some && !json_valid(j@)
        ==> r matches Err(RuntimeError::InvalidQuery(_)))
    &&& (req.where_clause matches Some(j) ==> from_kind(req.from_type@) is Some && json_valid(j@)
        ==> exists|w: WhereClause| read_from(w, j@) && answers(r, s, version, req, w))
}


/// Runs queries against a symbol store, at once or through handles.
pub struct QueryEngine {
    next_handle: u64,
    pending: Vec<AsyncQuery>,
}

fn copy_request(r: &QueryRequest) -> (c: QueryRequest)
    ensures
        c == *r,
{
    QueryRequest {
        select_clause: r.select_clause.clone(),
        from_type: r.from_type.clone(),
        where_clause: match &r.where_clause {
            Some(w) => Some(w.clone()),
            None => None,
        },
        order_by: match &r.order_by {
            Some(o) => Some(o.clone()),
            None => None,
        },
        limit: r.limit,
        offset: r.offset,
    }
}

/// A copy of a stored outcome, with the error given as its text.
fn outcome_copy(r: &Result<QueryResult, RuntimeError>) -> (c: Result<QueryResult, String>)
    ensures
        match r {
            Ok(q) => c matches Ok(x) && views(x.symbols@) == views(q.symbols@) && x.version
                == q.version && x.has_more == q.has_more,
            Err(e) => c matches Err(m) && m@ == error_text(*e),
        },
{
    match r {
        Ok(q) => Ok(
            QueryResult {
                symbols: duplicate_all(&q.symbols),
                version: q.version,
                has_more: q.has_more,
            },
        ),
        Err(e) => Err(e.message()),
    }
}

spec fn has_handle(p: Seq<AsyncQuery>, h: QueryHandle) -> bool {
    exists|i: int| 0 <= i < p.len() && (#[trigger] p[i]).handle == h
}

spec fn slot(p: Seq<AsyncQuery>, h: QueryHandle) -> int {
    choose|i: int| 0 <= i < p.len() && (#[trigger] p[i]).handle == h
}

spec fn unique_handles(p: Seq<AsyncQuery>) -> bool {
    forall|i: int, j: int|
        0 <= i < p.len() && 0 <= j < p.len() && i != j ==> p[i].handle != p[j].handle
}

spec fn statuses_of(p: Seq<AsyncQuery>) -> Map<QueryHandle, QueryStatus> {
    Map::new(|h: QueryHandle| has_handle(p, h), |h: QueryHandle| p[slot(p, h)].status)
}

proof fn lemma_slot(p: Seq<AsyncQuery>, i: int)
    requires
        unique_handles(p),
        0 <= i < p.len(),
    ensures
        has_handle(p, p[i].handle),
        slot(p, p[i].handle) == i,
{
    assert(has_handle(p, p[i].handle));
}

proof fn lemma_update(p: Seq<AsyncQuery>, i: int, q: AsyncQuery)
    requires
        unique_handles(p),
        0 <= i < p.len(),
        q.handle == p[i].handle,
    ensures
        unique_handles(p.update(i, q)),
        statuses_of(p.update(i, q)) == statuses_of(p).insert(q.handle, q.status),
        slot(p.update(i, q), q.handle) == i,
        forall|h: QueryHandle|
            h != q.handle && has_handle(p, h) ==> #[trigger] p.update(i, q)[slot(p.update(i, q), h)]
                == p[slot(p, h)],
{
    let u = p.update(i, q);
    assert forall|a: int, b: int| 0 <= a < u.len() && 0 <= b < u.len() && a != b implies u[a].handle
        != u[b].handle by {
        assert(p[a].handle != p[b].handle);
    }
    lemma_slot(u, i);
    assert forall|h: QueryHandle| has_handle(u, h) == has_handle(p, h) by {
        if has_handle(u, h) {
            let k = choose|k: int| 0 <= k < u.len() && (#[trigger] u[k]).handle == h;
            assert(p[k].handle == h);
        }
        if has_handle(p, h) {
            let k = choose|k: int| 0 <= k < p.len() && (#[trigger] p[k]).handle == h;
            assert(u[k].handle == h);
        }
    }
    assert forall|h: QueryHandle| h != q.handle && has_handle(p, h) implies #[trigger] u[slot(u, h)]
        == p[slot(p, h)] by {
        let k = slot(p, h);
        lemma_slot(p, k);
        lemma_slot(u, k);
    }
    assert(statuses_of(u) =~= statuses_of(p).insert(q.handle, q.status));
}

/// A query waiting for, or done with, its run.
struct AsyncQuery {
    handle: QueryHandle,
    request: QueryRequest,
    status: QueryStatus,
    result: Option<Result<QueryResult, RuntimeError>>,
}

impl QueryEngine {
    /// Handles are unique and below the next one.
    pub closed spec fn wf(&self) -> bool {
        &&& self.next_handle >= 1
        &&& forall|i: int|
            0 <= i < self.pending@.len() ==> #[trigger] self.pending@[i].handle
                < self.next_handle
        &&& unique_handles(self.pending@)
    }

    /// The handle that the next `start_query` returns.
    pub closed spec fn spec_next_handle(&self) -> u64 {
        self.next_handle
    }

    /// The status of each live handle.
    pub closed spec fn statuses(&self) -> Map<QueryHandle, QueryStatus> {
        statuses_of(self.pending@)
    }

    /// The request recorded under a live handle.
    pub closed spec fn stored_request(&self, h: QueryHandle) -> QueryRequest {
        self.pending@[slot(self.pending@, h)].request
    }

    /// The outcome recorded under a live handle, if it has one.
    pub closed spec fn stored_result(&self, h: QueryHandle) -> Option<
        Result<QueryResult, RuntimeError>,
    > {
        self.pending@[slot(self.pending@, h)].result
    }

    /// A query engine with no handles.
    pub fn new() -> (r: QueryEngine)
        ensures
            r.wf(),
            r.statuses() == Map::<QueryHandle, QueryStatus>::empty(),
            r.spec_next_handle() == 1,
    {
        let r = QueryEngine { next_handle: 1, pending: Vec::new() };
        assert(r.statuses() =~= Map::<QueryHandle, QueryStatus>::empty());
        r
    }

    /// Runs a query at once.
    pub fn execute(&self, store: &SymbolStore, request: &QueryRequest) -> (r: Result<
        QueryResult,
        RuntimeError,
    >)
        ensures
            executes(r, store@, store.spec_version(), *request),
    {
        if kind_for(request.from_type.as_str()).is_none() {
            return Err(invalid("Unknown from_type: ", request.from_type.as_str()));
        }
        match &request.where_clause {
            Some(json) => match parse_where_clause(json.as_str()) {
                Ok(w) => run_query(store, request, &w),
                Err(e) => Err(e),
            },
            None => {
                let w = WhereClause::empty();
                run_query(store, request, &w)
            },
        }
    }

    fn find(&self, handle: QueryHandle) -> (r: Option<usize>)
        requires
            self.wf(),
        ensures
            r matches Some(i) ==> i < self.pending@.len() && self.pending@[i as int].handle
                == handle,
            r is None ==> !has_handle(self.pending@, handle),
    {
        let mut i: usize = 0;
        while i < self.pending.len()
            invariant
                i <= self.pending@.len(),
                forall|k: int| 0 <= k < i ==> #[trigger] self.pending@[k].handle != handle,
            decreases self.pending@.len() - i,
        {
            if self.pending[i].handle == handle {
                return Some(i);
            }
            i = i + 1;
        }
        None
    }

    /// Records a query as pending and returns its new handle.
    pub fn start_query(&mut self, request: QueryRequest) -> (r: QueryHandle)
        requires
            old(self).wf(),
            old(self).spec_next_handle() < u64::MAX,
        ensures
            final(self).wf(),
            r == old(self).spec_next_handle(),
            final(self).spec_next_handle() == r + 1,
            !old(self).statuses().contains_key(r),
            final(self).statuses() == old(self).statuses().insert(r, QueryStatus::Pending),
            final(self).stored_request(r) == request,
            final(self).stored_result(r) is None,
            forall|h: QueryHandle|
                #[trigger] old(self).statuses().contains_key(h) ==> final(self).stored_request(h)
                    == old(self).stored_request(h) && final(self).stored_result(h) == old(self).stored_result(h),
    {
        let handle = self.next_handle;
        let ghost p = self.pending@;
        self.next_handle = self.next_handle + 1;
        self.pending.push(
            AsyncQuery { handle, request, status: QueryStatus::Pending, result: None },
        );
        proof {
            let u = self.pending@;
            let n = p.len() as int;
            assert(!has_handle(p, handle));
            assert forall|a: int, b: int| 0 <= a < u.len() && 0 <= b < u.len() && a != b implies u[a].handle
                != u[b].handle by {
                if a < n && b < n {
                    assert(p[a].handle != p[b].handle);
                }
            }
            lemma_slot(u, n);
            assert forall|h: QueryHandle| has_handle(u, h) == (has_handle(p, h) || h == handle) by {
                if has_handle(u, h) {
                    let k = choose|k: int| 0 <= k < u.len() && (#[trigger] u[k]).handle == h;
                    if k < n {
                        assert(p[k].handle == h);
                    }
                }
                if has_handle(p, h) {
                    let k = choose|k: int| 0 <= k < p.len() && (#[trigger] p[k]).handle == h;
                    assert(u[k].handle == h);
                }
            }
            assert forall|h: QueryHandle| h != handle && has_handle(p, h) implies #[trigger] u[slot(u, h)]
                == p[slot(p, h)] by {
                let k = slot(p, h);
                lemma_slot(p, k);
                assert(u[k] == p[k]);
                lemma_slot(u, k);
            }
            assert(self.statuses() =~= old(self).statuses().insert(handle, QueryStatus::Pending));
        }
        handle
    }

    /// The status of a handle; `Error` for one that is not live.
    pub fn poll_query(&self, handle: QueryHandle) -> (r: QueryStatus)
        requires
            self.wf(),
        ensures
            r == if self.statuses().contains_key(handle) {
                self.statuses()[handle]
            } else {
                QueryStatus::Error
            },
    {
        match self.find(handle) {
            Some(i) => {
                proof {
                    lemma_slot(self.pending@, i as int);
                }
                self.pending[i].status
            },
            None => QueryStatus::Error,
        }
    }

    /// Runs a pending query and records its outcome: `Complete` when it
    /// answered, `Error` when it failed. Any other handle is left alone.
    pub fn process_query(&mut self, handle: QueryHandle, store: &SymbolStore)
        requires
            old(self).wf(),
        ensures
            final(self).wf(),
            final(self).spec_next_handle() == old(self).spec_next_handle(),
            !(old(self).statuses().contains_key(handle) && old(self).statuses()[handle]
                == QueryStatus::Pending) ==> final(self).statuses() == old(self).statuses(),
            old(self).statuses().contains_key(handle) && old(self).statuses()[handle]
                == QueryStatus::Pending ==> {
                &&& final(self).stored_result(handle) matches Some(r)
                &&& executes(r, store@, store.spec_version(), old(self).stored_request(handle))
                &&& final(self).statuses() == old(self).statuses().insert(
                    handle,
                    if r is Ok {
                        QueryStatus::Complete
                    } else {
                        QueryStatus::Error
                    },
                )
                &&& final(self).stored_request(handle) == old(self).stored_request(handle)
            },
            forall|h: QueryHandle|
                h != handle && #[trigger] old(self).statuses().contains_key(h) ==> final(self).stored_request(h) == old(self).stored_request(h) && final(self).stored_result(h)
                    == old(self).stored_result(h),
            old(self).statuses().contains_key(handle) && old(self).statuses()[handle]
                != QueryStatus::Pending ==> final(self).stored_result(handle) == old(self).stored_result(handle) && final(self).stored_request(handle) == old(self).stored_request(handle),
    {
        let i = match self.find(handle) {
            Some(i) => i,
            None => {
                return;
            },
        };
        proof {
            lemma_slot(self.pending@, i as int);
        }
        if self.pending[i].status != QueryStatus::Pending {
            return;
        }
        let request = copy_request(&self.pending[i].request);
        let result = self.execute(store, &request);
        let status = if result.is_ok() {
            QueryStatus::Complete
        } else {
            QueryStatus::Error
        };
        let ghost p = self.pending@;
        let mut q = self.pending.remove(i);
        q.status = status;
        q.result = Some(result);
        self.pending.insert(i, q);
        proof {
            assert(self.pending@ =~= p.update(i as int, q));
            lemma_update(p, i as int, q);
        }
    }

    /// The recorded outcome of a live handle, with an error given as its
    /// text; the handle stays live.
    pub fn get_result(&mut self, handle: QueryHandle) -> (r: Option<Result<QueryResult, String>>)
        requires
            old(self).wf(),
        ensures
            *final(self) == *old(self),
            !old(self).statuses().contains_key(handle) ==> r is None,
            old(self).statuses().contains_key(handle) ==> match old(self).stored_result(handle) {
                None => r is None,
                Some(Ok(q)) => r matches Some(Ok(x)) && views(x.symbols@) == views(q.symbols@)
                    && x.version == q.version && x.has_more == q.has_more,
                Some(Err(e)) => r matches Some(Err(m)) && m@ == error_text(e),
            },
    {
        match self.find(handle) {
            Some(i) => {
                proof {
                    lemma_slot(self.pending@, i as int);
                }
                match &self.pending[i].result {
                    Some(res) => Some(outcome_copy(res)),
                    None => None,
                }
            },
            None => None,
        }
    }

    /// Cancels a pending query: it becomes `Cancelled`, with the
    /// `QueryCancelled` error as its outcome. Any other handle is left alone.
    pub fn cancel_query(&mut self, handle: QueryHandle)
        requires
            old(self).wf(),
        ensures
            final(self).wf(),
            final(self).spec_next_handle() == old(self).spec_next_handle(),
            !(old(self).statuses().contains_key(handle) && old(self).statuses()[handle]
                == QueryStatus::Pending) ==> final(self).statuses() == old(self).statuses(),
            old(self).statuses().contains_key(handle) && old(self).statuses()[handle]
                == QueryStatus::Pending ==> final(self).statuses() == old(self).statuses().insert(
                handle,
                QueryStatus::Cancelled,
            ) && final(self).stored_result(handle) matches Some(Err(RuntimeError::QueryCancelled)),
            forall|h: QueryHandle|
                h != handle && #[trigger] old(self).statuses().contains_key(h) ==> final(self).stored_request(h) == old(self).stored_request(h) && final(self).stored_result(h)
                    == old(self).stored_result(h),
            old(self).statuses().contains_key(handle) && old(self).statuses()[handle]
                != QueryStatus::Pending ==> final(self).stored_result(handle) == old(self).stored_result(handle) && final(self).stored_request(handle) == old(self).stored_request(handle),
    {
        let i = match self.find(handle) {
            Some(i) => i,
            None => {
                return;
            },
        };
        proof {
            lemma_slot(self.pending@, i as int);
        }
        if self.pending[i].status != QueryStatus::Pending {
            return;
        }
        let ghost p = self.pending@;
        let mut q = self.pending.remove(i);
        q.status = QueryStatus::Cancelled;
        q.result = Some(Err(RuntimeError::QueryCancelled));
        self.pending.insert(i, q);
        proof {
            assert(self.pending@ =~= p.update(i as int, q));
            lemma_update(p, i as int, q);
        }
    }

    /// Drops every handle that is no longer pending.
    pub fn cleanup_completed(&mut self)
        requires
            old(self).wf(),
        ensures
            final(self).wf(),
            final(self).spec_next_handle() == old(self).spec_next_handle(),
            final(self).statuses() == still_pending(old(self).statuses()),
            forall|h: QueryHandle|
                #[trigger] final(self).statuses().contains_key(h) ==> final(self).stored_request(h)
                    == old(self).stored_request(h) && final(self).stored_result(h) == old(self).stored_result(h),
    {
        let ghost p = self.pending@;
        let mut rest: Vec<AsyncQuery> = Vec::new();
        std::mem::swap(&mut rest, &mut self.pending);
        let mut kept: Vec<AsyncQuery> = Vec::new();
        let ghost mut taken: int = 0;
        while rest.len() > 0
            invariant
                unique_handles(p),
                0 <= taken <= p.len(),
                rest@ == p.subrange(taken, p.len() as int),
                forall|i: int| 0 <= i < kept@.len() ==> #[trigger] kept@[i].status
                    == QueryStatus::Pending,
                forall|i: int|
                    0 <= i < kept@.len() ==> exists|j: int|
                        0 <= j < taken && p[j] == #[trigger] kept@[i],
                forall|j: int|
                    0 <= j < taken && p[j].status == QueryStatus::Pending ==> exists|i: int|
                        0 <= i < kept@.len() && #[trigger] kept@[i] == p[j],
                unique_handles(kept@),
            decreases rest.len(),
        {
            let q = rest.remove(0);
            assert(q == p[taken]);
            if q.status == QueryStatus::Pending {
                let ghost before_push = kept@;
                proof {
                    assert forall|i: int| 0 <= i < before_push.len() implies before_push[i].handle
                        != q.handle by {
                        let j = choose|j: int| 0 <= j < taken && p[j] == before_push[i];
                        assert(p[j].handle != p[taken].handle);
                    }
                }
                kept.push(q);
                proof {
                    assert(kept@[before_push.len() as int] == p[taken]);
                    assert forall|i: int| 0 <= i < kept@.len() implies exists|j: int|
                        0 <= j < taken + 1 && p[j] == #[trigger] kept@[i] by {
                        if i < before_push.len() {
                            let j = choose|j: int| 0 <= j < taken && p[j] == before_push[i];
                            assert(p[j] == kept@[i]);
                        } else {
                            assert(p[taken] == kept@[i]);
                        }
                    }
                    assert forall|j: int|
                        0 <= j < taken + 1 && p[j].status == QueryStatus::Pending implies exists|i: int|
                        0 <= i < kept@.len() && #[trigger] kept@[i] == p[j] by {
                        if j < taken {
                            let i = choose|i: int| 0 <= i < before_push.len() && before_push[i] == p[j];
                            assert(kept@[i] == p[j]);
                        } else {
                            assert(kept@[before_push.len() as int] == p[j]);
                        }
                    }
                }
            }
            proof {
                taken = taken + 1;
                assert(rest@ =~= p.subrange(taken, p.len() as int));
            }
        }
        self.pending = kept;
        proof {
            let k = self.pending@;
            assert forall|i: int| 0 <= i < k.len() implies #[trigger] k[i].handle < self.next_handle by {
                let j = choose|j: int| 0 <= j < p.len() && p[j] == k[i];
                assert(p[j].handle < old(self).next_handle);
            }
            assert forall|h: QueryHandle| #[trigger] has_handle(k, h) == (has_handle(p, h)
                && p[slot(p, h)].status == QueryStatus::Pending) by {
                if has_handle(k, h) {
                    let i = choose|i: int| 0 <= i < k.len() && (#[trigger] k[i]).handle == h;
                    let j = choose|j: int| 0 <= j < p.len() && p[j] == k[i];
                    lemma_slot(p, j);
                }
                if has_handle(p, h) && p[slot(p, h)].status == QueryStatus::Pending {
                    let j = slot(p, h);
                    let i = choose|i: int| 0 <= i < k.len() && #[trigger] k[i] == p[j];
                    assert(k[i].handle == h);
                }
            }
            assert forall|h: QueryHandle| has_handle(k, h) implies k[slot(k, h)].status
                == QueryStatus::Pending by {
                lemma_slot(k, slot(k, h));
            }
            assert(self.statuses() =~= still_pending(old(self).statuses()));
            assert forall|h: QueryHandle| #[trigger] self.statuses().contains_key(h) implies k[slot(k, h)]
                == p[slot(p, h)] by {
                let i = slot(k, h);
                lemma_slot(k, i);
                let j = choose|j: int| 0 <= j < p.len() && p[j] == k[i];
                lemma_slot(p, j);
            }
        }
    }
}

impl Default for QueryEngine {
    fn default() -> (r: QueryEngine)
        ensures
            r.wf(),
            r.statuses() == Map::<QueryHandle, QueryStatus>::empty(),
            r.spec_next_handle() == 1,
    {
        QueryEngine::new()
    }
}

/// The entries of `m` whose status is `Pending`.
pub open spec fn still_pending(m: Map<QueryHandle, QueryStatus>) -> Map<QueryHandle, QueryStatus> {
    Map::new(
        |h: QueryHandle| m.contains_key(h) && m[h] == QueryStatus::Pending,
        |h: QueryHandle| QueryStatus::Pending,
    )
}

/// Two runs of one request, with one reading of its where clause, on one
/// store, give the same ordered symbols, version and pagination flag.
pub proof fn lemma_query_determinism(
    s: Seq<SymbolView>,
    version: u64,
    req: QueryRequest,
    w: WhereClause,
    r1: Result<QueryResult, RuntimeError>,
    r2: Result<QueryResult, RuntimeError>,
)
    requires
        answers(r1, s, version, req, w),
        answers(r2, s, version, req, w),
    ensures
        r1 is Ok <==> r2 is Ok,
        r1 matches Ok(a) ==> r2 matches Ok(b) && views(a.symbols@) == views(b.symbols@) && a.version
            == b.version && a.has_more == b.has_more,
{
}

/// Two executions of one request on one store give the same ordered
/// symbols, version and pagination flag, or both fail.
pub proof fn lemma_execute_determinism(
    s: Seq<SymbolView>,
    version: u64,
    req: QueryRequest,
    r1: Result<QueryResult, RuntimeError>,
    r2: Result<QueryResult, RuntimeError>,
)
    requires
        executes(r1, s, version, req),
        executes(r2, s, version, req),
    ensures
        r1 is Ok <==> r2 is Ok,
        r1 matches Ok(a) ==> r2 matches Ok(b) && views(a.symbols@) == views(b.symbols@) && a.version
            == b.version && a.has_more == b.has_more,
{
    match req.where_clause {
        None => {
            lemma_query_determinism(s, version, req, empty_where(), r1, r2);
        },
        Some(j) => {
            if from_kind(req.from_type@) is Some && json_valid(j@) {
                let w1 = choose|w: WhereClause| read_from(w, j@) && answers(r1, s, version, req, w);
                let w2 = choose|w: WhereClause| read_from(w, j@) && answers(r2, s, version, req, w);
                assert(request_filter(req, w1) == request_filter(req, w2));
                assert(query_answer(s, req, w1) == query_answer(s, req, w2));
                lemma_query_determinism(s, version, req, w1, r1, r2);
            }
        },
    }
}

} // verus!
