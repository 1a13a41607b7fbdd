//! The symbol store: a versioned set of runtime symbols keyed by id, with the
//! `called_by` lists rebuilt as the transpose of `calls`.

use vstd::prelude::*;
use crate::ast::Span;
use crate::text::{bytes, copy_str, copy_strings, seq_lt, str_eq, str_lt, strs, vec_contains};

verus! {

/// A symbol of the program graph as the runtime holds it.
#[derive(Debug)]
pub struct RuntimeSymbol {
    pub id: String,
    pub kind: String,
    pub file: String,
    pub line: u32,
    pub effects: Vec<String>,
    /// Transitive union of `effects` along `calls`.
    pub effect_closure: Vec<String>,
    pub calls: Vec<String>,
    /// Ids of the symbols whose `calls` name this one.
    pub called_by: Vec<String>,
    pub span: Span,
    /// Store version at which the symbol was last written.
    pub version: u64,
}

/// The mathematical value of a [`RuntimeSymbol`].
pub struct SymbolView {
    pub id: Seq<char>,
    pub kind: Seq<char>,
    pub file: Seq<char>,
    pub line: u32,
    pub effects: Seq<Seq<char>>,
    pub effect_closure: Seq<Seq<char>>,
    pub calls: Seq<Seq<char>>,
    pub called_by: Seq<Seq<char>>,
    pub span: Span,
    pub version: u64,
}

impl View for RuntimeSymbol {
    type V = SymbolView;

    open spec fn view(&self) -> SymbolView {
        SymbolView {
            id: self.id@,
            kind: self.kind@,
            file: self.file@,
            line: self.line,
            effects: strs(self.effects@),
            effect_closure: strs(self.effect_closure@),
            calls: strs(self.calls@),
            called_by: strs(self.called_by@),
            span: self.span,
            version: self.version,
        }
    }
}

/// The values of a sequence of symbols.
pub open spec fn views(s: Seq<RuntimeSymbol>) -> Seq<SymbolView> {
    s.map_values(|x: RuntimeSymbol| x@)
}

impl RuntimeSymbol {
    /// A symbol with the given id and kind and every other field empty.
    pub fn new(id: &str, kind: &str) -> (r: RuntimeSymbol)
        ensures
            r@ == (SymbolView {
                id: id@,
                kind: kind@,
                file: Seq::empty(),
                line: 0,
                effects: Seq::empty(),
                effect_closure: Seq::empty(),
                calls: Seq::empty(),
                called_by: Seq::empty(),
                span: Span { start: 0, end: 0 },
                version: 0,
            }),
    {
        let r = RuntimeSymbol {
            id: copy_str(id),
            kind: copy_str(kind),
            file: String::new(),
            line: 0,
            effects: Vec::new(),
            effect_closure: Vec::new(),
            calls: Vec::new(),
            called_by: Vec::new(),
            span: Span::new(0, 0),
            version: 0,
        };
        assert(strs(r.effects@) =~= Seq::empty());
        assert(strs(r.effect_closure@) =~= Seq::empty());
        assert(strs(r.calls@) =~= Seq::empty());
        assert(strs(r.called_by@) =~= Seq::empty());
        r
    }

    /// A copy of the symbol.
    pub fn duplicate(&self) -> (r: RuntimeSymbol)
        ensures
            r@ == self@,
    {
        RuntimeSymbol {
            id: self.id.clone(),
            kind: self.kind.clone(),
            file: self.file.clone(),
            line: self.line,
            effects: copy_strings(&self.effects),
            effect_closure: copy_strings(&self.effect_closure),
            calls: copy_strings(&self.calls),
            called_by: copy_strings(&self.called_by),
            span: self.span,
            version: self.version,
        }
    }
}

proof fn lemma_views_push(s: Seq<RuntimeSymbol>, x: RuntimeSymbol)
    ensures
        views(s.push(x)) == views(s).push(x@),
{
    assert(views(s.push(x)) =~= views(s).push(x@));
}

proof fn lemma_views_update(s: Seq<RuntimeSymbol>, i: int, x: RuntimeSymbol)
    requires
        0 <= i < s.len(),
    ensures
        views(s.update(i, x)) == views(s).update(i, x@),
{
    assert(views(s.update(i, x)) =~= views(s).update(i, x@));
}

proof fn lemma_views_remove(s: Seq<RuntimeSymbol>, i: int)
    requires
        0 <= i < s.len(),
    ensures
        views(s.remove(i)) == views(s).remove(i),
{
    assert(views(s.remove(i)) =~= views(s).remove(i));
}

proof fn lemma_views_insert(s: Seq<RuntimeSymbol>, i: int, x: RuntimeSymbol)
    requires
        0 <= i <= s.len(),
    ensures
        views(s.insert(i, x)) == views(s).insert(i, x@),
{
    assert(views(s.insert(i, x)) =~= views(s).insert(i, x@));
}

/// Copies of a sequence of symbols.
pub fn duplicate_all(v: &Vec<RuntimeSymbol>) -> (r: Vec<RuntimeSymbol>)
    ensures
        views(r@) == views(v@),
{
    let mut r: Vec<RuntimeSymbol> = Vec::new();
    let mut i: usize = 0;
    while i < v.len()
        invariant
            i <= v.len(),
            views(r@) =~= views(v@).subrange(0, i as int),
        decreases v.len() - i,
    {
        let d = v[i].duplicate();
        proof {
            lemma_views_push(r@, d);
        }
        r.push(d);
        i = i + 1;
        assert(views(r@) =~= views(v@).subrange(0, i as int));
    }
    assert(views(r@) =~= views(v@));
    r
}

/// Which symbols `SymbolStore::list` returns: each field that is set must match.
#[derive(Debug)]
pub struct SymbolFilter {
    pub kind: Option<String>,
    /// An effect that must be in the symbol's effect closure.
    pub has_effect: Option<String>,
    /// An id that must be among the symbol's `calls`.
    pub calls_fn: Option<String>,
    /// An id that must be among the symbol's `called_by`.
    pub called_by_fn: Option<String>,
}

impl Default for SymbolFilter {
    fn default() -> (r: SymbolFilter)
        ensures
            r.kind is None,
            r.has_effect is None,
            r.calls_fn is None,
            r.called_by_fn is None,
    {
        SymbolFilter { kind: None, has_effect: None, calls_fn: None, called_by_fn: None }
    }
}

/// The characters of an optional string.
pub open spec fn opt_view(o: Option<String>) -> Option<Seq<char>> {
    match o {
        Some(s) => Some(s@),
        None => None,
    }
}

/// The mathematical value of a [`SymbolFilter`].
pub struct FilterView {
    pub kind: Option<Seq<char>>,
    pub has_effect: Option<Seq<char>>,
    pub calls_fn: Option<Seq<char>>,
    pub called_by_fn: Option<Seq<char>>,
}

impl View for SymbolFilter {
    type V = FilterView;

    open spec fn view(&self) -> FilterView {
        FilterView {
            kind: opt_view(self.kind),
            has_effect: opt_view(self.has_effect),
            calls_fn: opt_view(self.calls_fn),
            called_by_fn: opt_view(self.called_by_fn),
        }
    }
}

/// `s` passes the filter `f`.
pub open spec fn matches(s: SymbolView, f: FilterView) -> bool {
    &&& (f.kind matches Some(k) ==> s.kind == k)
    &&& (f.has_effect matches Some(e) ==> s.effect_closure.contains(e))
    &&& (f.calls_fn matches Some(c) ==> s.calls.contains(c))
    &&& (f.called_by_fn matches Some(c) ==> s.called_by.contains(c))
}

/// The symbols of `s` that pass `f`, in the order of `s`.
pub open spec fn select(s: Seq<SymbolView>, f: FilterView) -> Seq<SymbolView>
    decreases s.len(),
{
    if s.len() == 0 {
        s
    } else if matches(s.last(), f) {
        select(s.drop_last(), f).push(s.last())
    } else {
        select(s.drop_last(), f)
    }
}

fn option_contains(v: &Vec<String>, o: &Option<String>) -> (r: bool)
    ensures
        r == (opt_view(*o) matches Some(x) ==> strs(v@).contains(x)),
{
    match o {
        Some(x) => vec_contains(v, x.as_str()),
        None => true,
    }
}

/// Whether the symbol passes the filter.
pub fn matches_filter(s: &RuntimeSymbol, f: &SymbolFilter) -> (r: bool)
    ensures
        r == matches(s@, f@),
{
    let kind_ok = match &f.kind {
        Some(k) => str_eq(s.kind.as_str(), k.as_str()),
        None => true,
    };
    kind_ok && option_contains(&s.effect_closure, &f.has_effect) && option_contains(
        &s.calls,
        &f.calls_fn,
    ) && option_contains(&s.called_by, &f.called_by_fn)
}

/// A field that results can be ordered by.
#[derive(Clone, Copy, Debug, PartialEq, Eq, Structural)]
pub enum OrderField {
    Id,
    Kind,
    File,
    Line,
}

/// `a`'s key is strictly below `b`'s in field `f`.
pub open spec fn key_lt(a: SymbolView, b: SymbolView, f: OrderField) -> bool {
    match f {
        OrderField::Id => seq_lt(bytes(a.id), bytes(b.id)),
        OrderField::Kind => seq_lt(bytes(a.kind), bytes(b.kind)),
        OrderField::File => seq_lt(bytes(a.file), bytes(b.file)),
        OrderField::Line => a.line < b.line,
    }
}

/// `a` goes strictly before `b` when ordering by `f` in the given direction.
pub open spec fn before(a: SymbolView, b: SymbolView, f: OrderField, asc: bool) -> bool {
    if asc {
        key_lt(a, b, f)
    } else {
        key_lt(b, a, f)
    }
}

/// `x` placed in `s` ahead of the first element that it goes strictly before.
pub open spec fn insert_ordered(x: SymbolView, s: Seq<SymbolView>, f: OrderField, asc: bool) -> Seq<
    SymbolView,
>
    decreases s.len(),
{
    if s.len() == 0 {
        seq![x]
    } else if before(x, s[0], f, asc) {
        seq![x] + s
    } else {
        seq![s[0]] + insert_ordered(x, s.drop_first(), f, asc)
    }
}

/// The stable sort of `s` by field `f`: equal keys keep their order.
pub open spec fn sorted_by(s: Seq<SymbolView>, f: OrderField, asc: bool) -> Seq<SymbolView>
    decreases s.len(),
{
    if s.len() == 0 {
        s
    } else {
        insert_ordered(s.last(), sorted_by(s.drop_last(), f, asc), f, asc)
    }
}

proof fn lemma_insert_at(x: SymbolView, s: Seq<SymbolView>, f: OrderField, asc: bool, j: int)
    requires
        0 <= j <= s.len(),
        forall|k: int| 0 <= k < j ==> !before(x, #[trigger] s[k], f, asc),
        j < s.len() ==> before(x, s[j], f, asc),
    ensures
        insert_ordered(x, s, f, asc) == s.insert(j, x),
    decreases s.len(),
{
    if s.len() == 0 {
        assert(s.insert(j, x) =~= seq![x]);
    } else if j == 0 {
        assert(s.insert(j, x) =~= seq![x] + s);
    } else {
        let t = s.drop_first();
        assert forall|k: int| 0 <= k < j - 1 implies !before(x, #[trigger] t[k], f, asc) by {
            assert(t[k] == s[k + 1]);
        }
        lemma_insert_at(x, t, f, asc, j - 1);
        assert(s.insert(j, x) =~= seq![s[0]] + t.insert(j - 1, x));
    }
}

fn lines_lt(a: u32, b: u32) -> (r: bool)
    ensures
        r == (a < b),
{
    a < b
}

/// Whether `a`'s key is strictly below `b`'s in field `f`.
pub fn key_less(a: &RuntimeSymbol, b: &RuntimeSymbol, f: OrderField) -> (r: bool)
    ensures
        r == key_lt(a@, b@, f),
{
    match f {
        OrderField::Id => str_lt(&a.id, &b.id),
        OrderField::Kind => str_lt(&a.kind, &b.kind),
        OrderField::File => str_lt(&a.file, &b.file),
        OrderField::Line => lines_lt(a.line, b.line),
    }
}

fn goes_before(a: &RuntimeSymbol, b: &RuntimeSymbol, f: OrderField, asc: bool) -> (r: bool)
    ensures
        r == before(a@, b@, f, asc),
{
    if asc {
        key_less(a, b, f)
    } else {
        key_less(b, a, f)
    }
}

/// Sorts symbols by field `f`, ascending or descending, keeping the order of
/// symbols with equal keys.
pub fn sort_symbols(v: Vec<RuntimeSymbol>, f: OrderField, asc: bool) -> (r: Vec<RuntimeSymbol>)
    ensures
        views(r@) == sorted_by(views(v@), f, asc),
{
    let ghost orig = views(v@);
    let n = v.len();
    assert(orig.len() == n);
    let mut rest = v;
    let mut r: Vec<RuntimeSymbol> = Vec::new();
    let mut i: usize = 0;
    while rest.len() > 0
        invariant
            i + rest@.len() == orig.len(),
            orig.len() <= usize::MAX,
            views(rest@) == orig.subrange(i as int, orig.len() as int),
            views(r@) == sorted_by(orig.subrange(0, i as int), f, asc),
        decreases rest.len(),
    {
        proof {
            lemma_views_remove(rest@, 0);
            assert(views(rest@)[0] == rest@[0]@);
        }
        let x = rest.remove(0);
        proof {
            assert(views(rest@) =~= orig.subrange(i + 1, orig.len() as int));
            assert(x@ == orig[i as int]);
        }
        let mut j: usize = 0;
        while j < r.len() && !goes_before(&x, &r[j], f, asc)
            invariant
                j <= r.len(),
                forall|k: int| 0 <= k < j ==> !before(x@, #[trigger] views(r@)[k], f, asc),
            decreases r.len() - j,
        {
            j = j + 1;
        }
        proof {
            lemma_insert_at(x@, views(r@), f, asc, j as int);
            lemma_views_insert(r@, j as int, x);
            let p = orig.subrange(0, i + 1);
            assert(p.drop_last() =~= orig.subrange(0, i as int));
            assert(p.last() == x@);
        }
        r.insert(j, x);
        i = i + 1;
        proof {
            assert(views(r@) =~= sorted_by(orig.subrange(0, i as int), f, asc));
        }
    }
    assert(orig.subrange(0, i as int) =~= orig);
    r
}

/// The ids of the symbols of `s` whose `calls` name `id`, in the order of `s`.
pub open spec fn callers(s: Seq<SymbolView>, id: Seq<char>) -> Seq<Seq<char>>
    decreases s.len(),
{
    if s.len() == 0 {
        Seq::empty()
    } else if s.last().calls.contains(id) {
        callers(s.drop_last(), id).push(s.last().id)
    } else {
        callers(s.drop_last(), id)
    }
}

/// Membership in [`callers`]: exactly the ids of the symbols that call `id`.
pub proof fn lemma_callers(s: Seq<SymbolView>, id: Seq<char>, b: Seq<char>)
    ensures
        callers(s, id).contains(b) <==> exists|j: int|
            0 <= j < s.len() && (#[trigger] s[j]).id == b && s[j].calls.contains(id),
    decreases s.len(),
{
    if s.len() > 0 {
        let t = s.drop_last();
        lemma_callers(t, id, b);
        if callers(s, id).contains(b) {
            if s.last().calls.contains(id) && b == s.last().id {
                assert(s[s.len() - 1].id == b);
            } else {
                if s.last().calls.contains(id) {
                    let k = choose|k: int| 0 <= k < callers(s, id).len() && callers(s, id)[k] == b;
                    assert(callers(t, id)[k] == b);
                }
                let j = choose|j: int| 0 <= j < t.len() && (#[trigger] t[j]).id == b
                    && t[j].calls.contains(id);
                assert(s[j] == t[j]);
            }
        }
        if exists|j: int| 0 <= j < s.len() && (#[trigger] s[j]).id == b && s[j].calls.contains(id) {
            let j = choose|j: int| 0 <= j < s.len() && (#[trigger] s[j]).id == b
                && s[j].calls.contains(id);
            if j == s.len() - 1 {
                assert(callers(s, id)[callers(s, id).len() - 1] == b);
            } else {
                assert(t[j] == s[j]);
                assert(callers(t, id).contains(b));
                let k = choose|k: int| 0 <= k < callers(t, id).len() && callers(t, id)[k] == b;
                if s.last().calls.contains(id) {
                    assert(callers(s, id)[k] == b);
                }
            }
        }
    }
}

/// The ids, in store order, of the symbols of `syms` whose `calls` name `id`.
fn callers_of(syms: &Vec<RuntimeSymbol>, id: &String) -> (r: Vec<String>)
    ensures
        strs(r@) == callers(views(syms@), id@),
{
    let ghost s = views(syms@);
    let mut r: Vec<String> = Vec::new();
    let mut j: usize = 0;
    while j < syms.len()
        invariant
            j <= syms.len(),
            s == views(syms@),
            strs(r@) == callers(s.subrange(0, j as int), id@),
        decreases syms.len() - j,
    {
        proof {
            let p = s.subrange(0, j + 1);
            assert(p.drop_last() =~= s.subrange(0, j as int));
            assert(p.last() == syms@[j as int]@);
        }
        if vec_contains(&syms[j].calls, id.as_str()) {
            r.push(syms[j].id.clone());
        }
        j = j + 1;
        assert(strs(r@) =~= callers(s.subrange(0, j as int), id@));
    }
    assert(s.subrange(0, j as int) =~= s);
    r
}

/// The store after a rebuild of back references: each symbol's `called_by`
/// is the list of callers in `old`, and nothing else changes.
pub open spec fn transposed(old: Seq<SymbolView>, new: Seq<SymbolView>) -> bool {
    &&& new.len() == old.len()
    &&& forall|i: int|
        0 <= i < old.len() ==> #[trigger] new[i] == (SymbolView {
            called_by: callers(old, old[i].id),
            ..old[i]
        })
}

/// An in-memory, versioned map from symbol id to symbol.
pub struct SymbolStore {
    symbols: Vec<RuntimeSymbol>,
    version: u64,
}

/// No two symbols of `s` share an id.
pub open spec fn unique_ids(s: Seq<SymbolView>) -> bool {
    forall|i: int, j: int| 0 <= i < s.len() && 0 <= j < s.len() && i != j ==> s[i].id != s[j].id
}

/// Some symbol of `s` has id `id`.
pub open spec fn has_id(s: Seq<SymbolView>, id: Seq<char>) -> bool {
    exists|i: int| 0 <= i < s.len() && (#[trigger] s[i]).id == id
}

/// `s` with the symbol that has `x`'s id replaced by `x`, or with `x` added
/// at the end when there is none.
pub open spec fn upserted(s: Seq<SymbolView>, x: SymbolView) -> Seq<SymbolView> {
    if has_id(s, x.id) {
        let i = choose|i: int| 0 <= i < s.len() && (#[trigger] s[i]).id == x.id;
        s.update(i, x)
    } else {
        s.push(x)
    }
}

/// `s` without the symbol whose id is `id`.
pub open spec fn deleted(s: Seq<SymbolView>, id: Seq<char>) -> Seq<SymbolView> {
    if has_id(s, id) {
        let i = choose|i: int| 0 <= i < s.len() && (#[trigger] s[i]).id == id;
        s.remove(i)
    } else {
        s
    }
}

impl View for SymbolStore {
    type V = Seq<SymbolView>;

    /// The symbols, in the order in which their ids were first inserted.
    closed spec fn view(&self) -> Seq<SymbolView> {
        views(self.symbols@)
    }
}

impl SymbolStore {
    /// Ids are unique.
    pub open spec fn wf(&self) -> bool {
        unique_ids(self@)
    }

    pub closed spec fn spec_version(&self) -> u64 {
        self.version
    }

    /// An empty store at version 0.
    pub fn new() -> (r: SymbolStore)
        ensures
            r.wf(),
            r@ == Seq::<SymbolView>::empty(),
            r.spec_version() == 0,
    {
        let r = SymbolStore { symbols: Vec::new(), version: 0 };
        assert(r@ =~= Seq::<SymbolView>::empty());
        r
    }

    /// The current version; every upsert and every deletion increments it.
    pub fn version(&self) -> (r: u64)
        ensures
            r == self.spec_version(),
    {
        self.version
    }

    /// The number of symbols.
    pub fn len(&self) -> (r: usize)
        ensures
            r == self@.len(),
    {
        self.symbols.len()
    }

    fn find(&self, id: &str) -> (r: Option<usize>)
        requires
            self.wf(),
        ensures
            r matches Some(i) ==> i < self@.len() && self@[i as int].id == id@,
            r is None <==> !has_id(self@, id@),
    {
        let mut i: usize = 0;
        while i < self.symbols.len()
            invariant
                i <= self.symbols.len(),
                forall|k: int| 0 <= k < i ==> (#[trigger] self@[k]).id != id@,
            decreases self.symbols.len() - i,
        {
            if str_eq(self.symbols[i].id.as_str(), id) {
                assert(self@[i as int].id == id@);
                return Some(i);
            }
            i = i + 1;
        }
        None
    }

    /// Whether a symbol with this id is stored.
    pub fn contains(&self, id: &str) -> (r: bool)
        requires
            self.wf(),
        ensures
            r == has_id(self@, id@),
    {
        self.find(id).is_some()
    }

    /// The symbol with this id, if any.
    pub fn get(&self, id: &str) -> (r: Option<&RuntimeSymbol>)
        requires
            self.wf(),
        ensures
            r is None <==> !has_id(self@, id@),
            r matches Some(s) ==> s@.id == id@ && self@.contains(s@),
    {
        match self.find(id) {
            Some(i) => {
                assert(self@[i as int] == self.symbols@[i as int]@);
                Some(&self.symbols[i])
            },
            None => None,
        }
    }

    /// Inserts the symbol, replacing the one with the same id, stamps it
    /// with the incremented version and returns that version.
    pub fn upsert(&mut self, symbol: RuntimeSymbol) -> (r: u64)
        requires
            old(self).wf(),
            old(self).spec_version() < u64::MAX,
        ensures
            final(self).wf(),
            r == old(self).spec_version() + 1,
            final(self).spec_version() == r,
            final(self)@ == upserted(old(self)@, SymbolView { version: r, ..symbol@ }),
    {
        let mut symbol = symbol;
        self.version = self.version + 1;
        symbol.version = self.version;
        let ghost x = symbol@;
        let ghost s = old(self)@;
        match self.find(symbol.id.as_str()) {
            Some(i) => {
                proof {
                    let k = choose|k: int| 0 <= k < s.len() && (#[trigger] s[k]).id == x.id;
                    assert(k == i);
                }
                proof {
                    lemma_views_update(self.symbols@, i as int, symbol);
                }
                self.symbols.set(i, symbol);
            },
            None => {
                proof {
                    lemma_views_push(self.symbols@, symbol);
                }
                self.symbols.push(symbol);
            },
        }
        self.version
    }

    /// Removes the symbol with this id; returns whether there was one. The
    /// version is incremented when a symbol is removed.
    pub fn delete(&mut self, id: &str) -> (r: bool)
        requires
            old(self).wf(),
            old(self).spec_version() < u64::MAX,
        ensures
            final(self).wf(),
            r == has_id(old(self)@, id@),
            final(self)@ == deleted(old(self)@, id@),
            final(self).spec_version() == if r {
                old(self).spec_version() + 1
            } else {
                old(self).spec_version() as int
            },
    {
        let ghost s = old(self)@;
        match self.find(id) {
            Some(i) => {
                proof {
                    let k = choose|k: int| 0 <= k < s.len() && (#[trigger] s[k]).id == id@;
                    assert(k == i);
                }
                proof {
                    lemma_views_remove(self.symbols@, i as int);
                }
                self.symbols.remove(i);
                self.version = self.version + 1;
                true
            },
            None => false,
        }
    }

    /// The symbols that pass the filter, ordered by id.
    pub fn list(&self, filter: &SymbolFilter) -> (r: Vec<RuntimeSymbol>)
        ensures
            views(r@) == sorted_by(select(self@, filter@), OrderField::Id, true),
    {
        let ghost s = self@;
        let mut picked: Vec<RuntimeSymbol> = Vec::new();
        let mut j: usize = 0;
        while j < self.symbols.len()
            invariant
                j <= self.symbols.len(),
                s == self@,
                views(picked@) == select(s.subrange(0, j as int), filter@),
            decreases self.symbols.len() - j,
        {
            proof {
                let p = s.subrange(0, j + 1);
                assert(p.drop_last() =~= s.subrange(0, j as int));
                assert(p.last() == self.symbols@[j as int]@);
            }
            if matches_filter(&self.symbols[j], filter) {
                let d = self.symbols[j].duplicate();
                proof {
                    lemma_views_push(picked@, d);
                }
                picked.push(d);
            }
            j = j + 1;
            assert(views(picked@) =~= select(s.subrange(0, j as int), filter@));
        }
        assert(s.subrange(0, j as int) =~= s);
        sort_symbols(picked, OrderField::Id, true)
    }

    /// Rebuilds every symbol's `called_by` as the transpose of `calls`.
    pub fn recompute_backward_refs(&mut self)
        requires
            old(self).wf(),
        ensures
            final(self).wf(),
            transposed(old(self)@, final(self)@),
            final(self).spec_version() == old(self).spec_version(),
    {
        let ghost s = old(self)@;
        let mut lists: Vec<Vec<String>> = Vec::new();
        let mut i: usize = 0;
        while i < self.symbols.len()
            invariant
                i <= self.symbols.len(),
                s == self@,
                lists.len() == i,
                forall|k: int| 0 <= k < i ==> strs(#[trigger] lists@[k]@) == callers(s, s[k].id),
            decreases self.symbols.len() - i,
        {
            let l = callers_of(&self.symbols, &self.symbols[i].id);
            lists.push(l);
            i = i + 1;
        }
        let mut rest = lists;
        let mut i: usize = self.symbols.len();
        while i > 0
            invariant
                i <= self.symbols.len(),
                self.symbols.len() == s.len(),
                rest.len() == i,
                self.version == old(self).version,
                forall|k: int| 0 <= k < i ==> strs(#[trigger] rest@[k]@) == callers(s, s[k].id),
                forall|k: int| 0 <= k < i ==> #[trigger] self@[k] == s[k],
                forall|k: int|
                    i <= k < s.len() ==> #[trigger] self@[k] == (SymbolView {
                        called_by: callers(s, s[k].id),
                        ..s[k]
                    }),
            decreases i,
        {
            i = i - 1;
            let l = rest.pop().unwrap();
            assert(strs(l@) == callers(s, s[i as int].id));
            let mut sym = self.symbols[i].duplicate();
            sym.called_by = l;
            let ghost before_set = self@;
            proof {
                assert(self@[i as int] == s[i as int]);
                assert(sym@ == (SymbolView {
                    called_by: callers(s, s[i as int].id),
                    ..s[i as int]
                }));
                lemma_views_update(self.symbols@, i as int, sym);
            }
            self.symbols.set(i, sym);
            assert(self@ == before_set.update(i as int, sym@));
        }
        assert(forall|k: int| 0 <= k < s.len() ==> self@[k].id == #[trigger] s[k].id);
    }
}

/// After a rebuild of back references, `b` is among the callers of `a` exactly
/// when `a` is among the calls of `b`, for every two stored symbols.
pub proof fn lemma_transpose(old: Seq<SymbolView>, new: Seq<SymbolView>, i: int, j: int)
    requires
        unique_ids(old),
        transposed(old, new),
        0 <= i < new.len(),
        0 <= j < new.len(),
    ensures
        new[i].called_by.contains(new[j].id) <==> new[j].calls.contains(new[i].id),
{
    lemma_callers(old, old[i].id, old[j].id);
    assert(new[i] == (SymbolView { called_by: callers(old, old[i].id), ..old[i] }));
    assert(new[j] == (SymbolView { called_by: callers(old, old[j].id), ..old[j] }));
}

} // verus!
