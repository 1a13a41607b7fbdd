//! The data graph that a compiled module embeds: one node per snippet, the
//! declared relations between them, and for each declared relation its
//! inverse, so that every edge can be walked from both ends. The query
//! functions mirror the graph access exports of the module.

use vstd::prelude::*;
use crate::ast::{Program, Relation, Section, Snippet};
use crate::text::{concat, contains, copy_str, push_str, str_contains, str_eq, strs};

verus! {

/// The inverse of a relation type: contains, describes, references and
/// implements pair with their `_by` forms, both ways; any other type `T`
/// has the inverse `inv_T`.
pub open spec fn inverse_name(t: Seq<char>) -> Seq<char> {
    if t == "contains"@ {
        "contained_by"@
    } else if t == "contained_by"@ {
        "contains"@
    } else if t == "describes"@ {
        "described_by"@
    } else if t == "described_by"@ {
        "describes"@
    } else if t == "references"@ {
        "referenced_by"@
    } else if t == "referenced_by"@ {
        "references"@
    } else if t == "implements"@ {
        "implemented_by"@
    } else if t == "implemented_by"@ {
        "implements"@
    } else {
        "inv_"@ + t
    }
}

/// The inverse of a relation type.
pub fn inverse_relation(t: &str) -> (r: String)
    ensures
        r@ == inverse_name(t@),
{
    if str_eq(t, "contains") {
        copy_str("contained_by")
    } else if str_eq(t, "contained_by") {
        copy_str("contains")
    } else if str_eq(t, "describes") {
        copy_str("described_by")
    } else if str_eq(t, "described_by") {
        copy_str("describes")
    } else if str_eq(t, "references") {
        copy_str("referenced_by")
    } else if str_eq(t, "referenced_by") {
        copy_str("references")
    } else if str_eq(t, "implements") {
        copy_str("implemented_by")
    } else if str_eq(t, "implemented_by") {
        copy_str("implements")
    } else {
        concat("inv_", t)
    }
}

/// A directed, typed edge between two nodes, by index.
#[derive(Debug)]
pub struct GraphEdge {
    pub from: usize,
    pub to: usize,
    pub rel_type: String,
}

/// The mathematical value of a [`GraphEdge`].
pub struct EdgeView {
    pub from: usize,
    pub to: usize,
    pub rel: Seq<char>,
}

impl View for GraphEdge {
    type V = EdgeView;

    open spec fn view(&self) -> EdgeView {
        EdgeView { from: self.from, to: self.to, rel: self.rel_type@ }
    }
}

pub open spec fn edge_views(s: Seq<GraphEdge>) -> Seq<EdgeView> {
    s.map_values(|e: GraphEdge| e@)
}

/// The edge in the other direction, with the inverse type.
pub open spec fn inverse_edge(e: EdgeView) -> EdgeView {
    EdgeView { from: e.to, to: e.from, rel: inverse_name(e.rel) }
}

/// No edge occurs twice.
pub open spec fn no_duplicates(s: Seq<EdgeView>) -> bool {
    forall|i: int, j: int| 0 <= i < s.len() && 0 <= j < s.len() && i != j ==> s[i] != s[j]
}

/// The data graph of a program.
#[derive(Debug)]
pub struct DataGraph {
    /// Node ids, one per snippet, in program order.
    pub ids: Vec<String>,
    /// Node contents; empty for a snippet without a content section.
    pub contents: Vec<String>,
    /// The declared edges, each once, in declaration order.
    pub declared: Vec<GraphEdge>,
    /// The declared edges followed by the inverses that are not declared.
    pub edges: Vec<GraphEdge>,
}

/// The ids of a program's snippets, in order.
pub open spec fn program_ids(p: Program) -> Seq<Seq<char>> {
    match p {
        Program::Snippets(v) => v@.map_values(|s: Snippet| s.id@),
        Program::Legacy => Seq::empty(),
    }
}

/// Index of the first node whose id is `id`.
pub open spec fn first_index(ids: Seq<String>, id: Seq<char>, k: int) -> bool {
    0 <= k < ids.len() && ids[k]@ == id && forall|j: int| 0 <= j < k ==> ids[j]@ != id
}

fn find_node(ids: &Vec<String>, id: &str) -> (r: Option<usize>)
    ensures
        r matches Some(k) ==> first_index(ids@, id@, k as int),
        r is None ==> forall|j: int| 0 <= j < ids@.len() ==> ids@[j]@ != id@,
{
    let mut i: usize = 0;
    while i < ids.len()
        invariant
            i <= ids@.len(),
            forall|j: int| 0 <= j < i ==> ids@[j]@ != id@,
        decreases ids@.len() - i,
    {
        if str_eq(ids[i].as_str(), id) {
            return Some(i);
        }
        i = i + 1;
    }
    None
}

fn same_edge(a: &GraphEdge, from: usize, to: usize, rel: &str) -> (r: bool)
    ensures
        r == (a.from == from && a.to == to && a.rel_type@ == rel@),
{
    a.from == from && a.to == to && str_eq(a.rel_type.as_str(), rel)
}

fn has_edge(edges: &Vec<GraphEdge>, from: usize, to: usize, rel: &str) -> (r: bool)
    ensures
        r == edge_views(edges@).contains(EdgeView { from, to, rel: rel@ }),
{
    let ghost e = EdgeView { from, to, rel: rel@ };
    let mut i: usize = 0;
    while i < edges.len()
        invariant
            i <= edges@.len(),
            e == (EdgeView { from, to, rel: rel@ }),
            forall|k: int| 0 <= k < i ==> edge_views(edges@)[k] != e,
        decreases edges@.len() - i,
    {
        assert(edge_views(edges@)[i as int] == edges@[i as int]@);
        let same = same_edge(&edges[i], from, to, rel);
        if same {
            assert(edges@[i as int]@ == e);
            return true;
        }
        assert(edges@[i as int]@.from != e.from || edges@[i as int]@.to != e.to || edges@[i as int]@.rel != e.rel);
        i = i + 1;
    }
    false
}

/// Adds an edge unless it is already there.
fn add_edge(edges: &mut Vec<GraphEdge>, from: usize, to: usize, rel: String)
    requires
        no_duplicates(edge_views(old(edges)@)),
    ensures
        edge_views(final(edges)@) == add_new(edge_views(old(edges)@), EdgeView { from, to, rel: rel@ }),
        no_duplicates(edge_views(final(edges)@)),
        edge_views(final(edges)@).contains(EdgeView { from, to, rel: rel@ }),
        forall|e: EdgeView| edge_views(old(edges)@).contains(e) ==> edge_views(final(edges)@).contains(e),
        forall|e: EdgeView| #[trigger] edge_views(final(edges)@).contains(e) ==> edge_views(old(edges)@).contains(e)
            || e == (EdgeView { from, to, rel: rel@ }),
{
    let ghost e = EdgeView { from, to, rel: rel@ };
    let ghost before = edge_views(edges@);
    if !has_edge(edges, from, to, rel.as_str()) {
        edges.push(GraphEdge { from, to, rel_type: rel });
        proof {
            let after = edge_views(edges@);
            assert(after =~= before.push(e));
            assert(after[before.len() as int] == e);
            assert forall|x: EdgeView| before.contains(x) implies after.contains(x) by {
                let k = choose|k: int| 0 <= k < before.len() && before[k] == x;
                assert(after[k] == x);
            }
            assert forall|x: EdgeView| #[trigger] after.contains(x) implies before.contains(x) || x == e by {
                let k = choose|k: int| 0 <= k < after.len() && after[k] == x;
                if k < before.len() {
                    assert(before[k] == x);
                }
            }
        }
    }
}

fn content_of(s: &Snippet) -> (r: String)
    ensures
        r@ == content_text(s.sections@),
{
    let ghost secs = s.sections@;
    let mut i: usize = 0;
    assert(secs.subrange(0, secs.len() as int) =~= secs);
    while i < s.sections.len()
        invariant
            i <= secs.len(),
            secs == s.sections@,
            content_text(secs) == content_text(secs.subrange(i as int, secs.len() as int)),
        decreases s.sections@.len() - i,
    {
        proof {
            let rest = secs.subrange(i as int, secs.len() as int);
            assert(rest.drop_first() =~= secs.subrange(i + 1, secs.len() as int));
            assert(rest[0] == secs[i as int]);
        }
        match &s.sections[i] {
            Section::Content(text) => {
                return text.clone();
            },
            _ => {},
        }
        i = i + 1;
    }
    String::new()
}

/// The text of the first content section, or nothing.
pub open spec fn content_text(secs: Seq<Section>) -> Seq<char>
    decreases secs.len(),
{
    if secs.len() == 0 {
        Seq::empty()
    } else if secs[0] is Content {
        secs[0]->Content_0@
    } else {
        content_text(secs.drop_first())
    }
}

/// `s` with `e` added unless it is already there.
pub open spec fn add_new(s: Seq<EdgeView>, e: EdgeView) -> Seq<EdgeView> {
    if s.contains(e) {
        s
    } else {
        s.push(e)
    }
}

/// `s` with each edge of `ds` added in turn unless it is already there.
pub open spec fn add_all(s: Seq<EdgeView>, ds: Seq<EdgeView>) -> Seq<EdgeView>
    decreases ds.len(),
{
    if ds.len() == 0 {
        s
    } else {
        add_new(add_all(s, ds.drop_last()), ds.last())
    }
}

/// The index of the first node with id `id`.
pub open spec fn node_index(ids: Seq<String>, id: Seq<char>) -> Option<int> {
    if exists|k: int| first_index(ids, id, k) {
        Some(choose|k: int| first_index(ids, id, k))
    } else {
        None
    }
}

/// The edges of node `from`'s relations to existing nodes, added to `e`.
pub open spec fn declare_rels(e: Seq<EdgeView>, ids: Seq<String>, from: int, rels: Seq<Relation>) -> Seq<EdgeView>
    decreases rels.len(),
{
    if rels.len() == 0 {
        e
    } else {
        let p = declare_rels(e, ids, from, rels.drop_last());
        match node_index(ids, rels.last().to@) {
            Some(t) => add_new(p, EdgeView { from: from as usize, to: t as usize, rel: rels.last().rel_type@ }),
            None => p,
        }
    }
}

/// The edges of the relations sections of node `from`, added to `e`.
pub open spec fn declare_sections(e: Seq<EdgeView>, ids: Seq<String>, from: int, secs: Seq<Section>) -> Seq<EdgeView>
    decreases secs.len(),
{
    if secs.len() == 0 {
        e
    } else {
        let p = declare_sections(e, ids, from, secs.drop_last());
        match secs.last() {
            Section::Relations(rels) => declare_rels(p, ids, from, rels@),
            _ => p,
        }
    }
}

/// The declared edges of the snippets, in order, each once.
pub open spec fn declare_snippets(ids: Seq<String>, ss: Seq<Snippet>) -> Seq<EdgeView>
    decreases ss.len(),
{
    if ss.len() == 0 {
        Seq::empty()
    } else {
        declare_sections(declare_snippets(ids, ss.drop_last()), ids, ss.len() - 1, ss.last().sections@)
    }
}

/// The declared edges of a program whose nodes have ids `ids`.
pub open spec fn program_declared(p: Program, ids: Seq<String>) -> Seq<EdgeView> {
    match p {
        Program::Snippets(v) => declare_snippets(ids, v@),
        Program::Legacy => Seq::empty(),
    }
}

/// The graph's edges: the declared ones, then each inverse not yet present.
pub open spec fn all_edges(declared: Seq<EdgeView>) -> Seq<EdgeView> {
    add_all(add_all(Seq::empty(), declared), declared.map_values(|d: EdgeView| inverse_edge(d)))
}

proof fn lemma_node_index(ids: Seq<String>, id: Seq<char>, k: int)
    requires
        first_index(ids, id, k),
    ensures
        node_index(ids, id) == Some(k),
{
    let c = choose|j: int| first_index(ids, id, j);
    if c < k {
        assert(ids[c]@ == id);
    } else if c > k {
        assert(ids[k]@ == id);
    }
}

/// How an edge is written: its type, an arrow, and its target's id.
pub open spec fn edge_text(e: GraphEdge, ids: Seq<String>) -> Seq<char> {
    e.rel_type@ + "→"@ + ids[e.to as int]@
}

/// Indices of the edges of `s` that leave node `i`, in order.
pub open spec fn leaving(s: Seq<GraphEdge>, i: usize) -> Seq<usize>
    decreases s.len(),
{
    if s.len() == 0 {
        Seq::empty()
    } else if s.last().from == i {
        leaving(s.drop_last(), i).push((s.len() - 1) as usize)
    } else {
        leaving(s.drop_last(), i)
    }
}

/// Number of edges of `s` that point at node `i`.
pub open spec fn arriving(s: Seq<GraphEdge>, i: usize) -> nat
    decreases s.len(),
{
    if s.len() == 0 {
        0
    } else if s.last().to == i {
        arriving(s.drop_last(), i) + 1
    } else {
        arriving(s.drop_last(), i)
    }
}

proof fn lemma_leaving_in_range(s: Seq<GraphEdge>, i: usize, k: int)
    requires
        0 <= k < leaving(s, i).len(),
        s.len() <= usize::MAX,
    ensures
        leaving(s, i)[k] < s.len(),
    decreases s.len(),
{
    if s.len() > 0 {
        let p = leaving(s.drop_last(), i);
        if k < p.len() {
            lemma_leaving_in_range(s.drop_last(), i, k);
        }
    }
}

/// Every declared edge has its inverse in `edges`.
pub open spec fn inverses_present(declared: Seq<EdgeView>, edges: Seq<EdgeView>) -> bool {
    forall|k: int| 0 <= k < declared.len() ==> edges.contains(inverse_edge(#[trigger] declared[k]))
}

impl DataGraph {
    /// Edges are unique and each declared edge and its inverse are present.
    pub open spec fn wf(&self) -> bool {
        &&& self.ids@.len() == self.contents@.len()
        &&& no_duplicates(edge_views(self.edges@))
        &&& no_duplicates(edge_views(self.declared@))
        &&& forall|k: int|
            0 <= k < self.declared@.len() ==> edge_views(self.edges@).contains(
                #[trigger] edge_views(self.declared@)[k],
            )
        &&& inverses_present(edge_views(self.declared@), edge_views(self.edges@))
        &&& forall|k: int|
            0 <= k < self.edges@.len() ==> (#[trigger] self.edges@[k]).from < self.ids@.len()
                && self.edges@[k].to < self.ids@.len()
    }

    /// Builds the graph of a program: a node per snippet; each relation to
    /// an existing snippet becomes a declared edge (once); then each declared
    /// edge's inverse is added unless it is already an edge.
    pub fn from_program(program: &Program) -> (r: DataGraph)
        ensures
            r.wf(),
            strs(r.ids@) == program_ids(*program),
            edge_views(r.declared@) == program_declared(*program, r.ids@),
            edge_views(r.edges@) == all_edges(edge_views(r.declared@)),
            program matches Program::Snippets(v) ==> forall|i: int|
                0 <= i < v@.len() ==> (#[trigger] r.contents@[i])@ == content_text(v@[i].sections@),
    {
        let mut ids: Vec<String> = Vec::new();
        let mut contents: Vec<String> = Vec::new();
        match program {
            Program::Snippets(snippets) => {
                let mut i: usize = 0;
                while i < snippets.len()
                    invariant
                        i <= snippets@.len(),
                        ids@.len() == i,
                        contents@.len() == i,
                        strs(ids@) =~= snippets@.subrange(0, i as int).map_values(|s: Snippet| s.id@),
                        forall|k: int| 0 <= k < i ==> (#[trigger] contents@[k])@ == content_text(snippets@[k].sections@),
                    decreases snippets@.len() - i,
                {
                    let ghost before = strs(ids@);
                    ids.push(snippets[i].id.clone());
                    assert(strs(ids@) =~= before.push(snippets@[i as int].id@));
                    assert(snippets@.subrange(0, i + 1).map_values(|s: Snippet| s.id@) =~= snippets@.subrange(0, i as int).map_values(|s: Snippet| s.id@).push(snippets@[i as int].id@));
                    contents.push(content_of(&snippets[i]));
                    i = i + 1;
                }
            },
            Program::Legacy => {},
        }
        proof {
            match program {
                Program::Snippets(v) => {
                    assert(v@.subrange(0, v@.len() as int) =~= v@);
                },
                Program::Legacy => {
                    assert(strs(ids@) =~= Seq::<Seq<char>>::empty());
                },
            }
        }
        let ghost node_ids = strs(ids@);
        let mut declared: Vec<GraphEdge> = Vec::new();
        assert(edge_views(declared@) =~= Seq::<EdgeView>::empty());
        match program {
            Program::Snippets(snippets) => {
                let mut i: usize = 0;
                while i < snippets.len()
                    invariant
                        i <= snippets@.len(),
                        ids@.len() == snippets@.len(),
                        no_duplicates(edge_views(declared@)),
                        edge_views(declared@) == declare_snippets(ids@, snippets@.subrange(0, i as int)),
                        forall|k: int|
                            0 <= k < declared@.len() ==> (#[trigger] declared@[k]).from < ids@.len()
                                && declared@[k].to < ids@.len(),
                    decreases snippets@.len() - i,
                {
                    let s = &snippets[i];
                    let ghost d0 = edge_views(declared@);
                    proof {
                        let q = snippets@.subrange(0, i + 1);
                        assert(q.drop_last() =~= snippets@.subrange(0, i as int));
                    }
                    let mut j: usize = 0;
                    while j < s.sections.len()
                        invariant
                            i < ids@.len(),
                            j <= s.sections@.len(),
                            no_duplicates(edge_views(declared@)),
                            edge_views(declared@) == declare_sections(d0, ids@, i as int, s.sections@.subrange(0, j as int)),
                            forall|k: int|
                                0 <= k < declared@.len() ==> (#[trigger] declared@[k]).from < ids@.len()
                                    && declared@[k].to < ids@.len(),
                        decreases s.sections@.len() - j,
                    {
                        let ghost d1 = edge_views(declared@);
                        proof {
                            let q = s.sections@.subrange(0, j + 1);
                            assert(q.drop_last() =~= s.sections@.subrange(0, j as int));
                        }
                        match &s.sections[j] {
                            Section::Relations(rels) => {
                                let mut k: usize = 0;
                                while k < rels.len()
                                    invariant
                                        i < ids@.len(),
                                        k <= rels@.len(),
                                        no_duplicates(edge_views(declared@)),
                                        edge_views(declared@) == declare_rels(d1, ids@, i as int, rels@.subrange(0, k as int)),
                                        forall|m: int|
                                            0 <= m < declared@.len() ==> (#[trigger] declared@[m]).from
                                                < ids@.len() && declared@[m].to < ids@.len(),
                                    decreases rels@.len() - k,
                                {
                                    proof {
                                        let q = rels@.subrange(0, k + 1);
                                        assert(q.drop_last() =~= rels@.subrange(0, k as int));
                                    }
                                    match find_node(&ids, rels[k].to.as_str()) {
                                        Some(t) => {
                                            proof {
                                                lemma_node_index(ids@, rels@[k as int].to@, t as int);
                                            }
                                            let ghost before = declared@;
                                            add_edge(&mut declared, i, t, rels[k].rel_type.clone());
                                            proof {
                                                assert forall|m: int| 0 <= m < declared@.len() implies (#[trigger] declared@[m]).from
                                                    < ids@.len() && declared@[m].to < ids@.len() by {
                                                    let x = edge_views(declared@)[m];
                                                    assert(edge_views(declared@).contains(x));
                                                    if edge_views(before).contains(x) {
                                                        let q = choose|q: int| 0 <= q < before.len() && edge_views(before)[q] == x;
                                                        assert(before[q].from == x.from);
                                                    }
                                                }
                                            }
                                        },
                                        None => {
                                            proof {
                                                if node_index(ids@, rels@[k as int].to@) is Some {
                                                    let c = choose|c: int| first_index(ids@, rels@[k as int].to@, c);
                                                    assert(ids@[c]@ == rels@[k as int].to@);
                                                }
                                            }
                                        },
                                    }
                                    k = k + 1;
                                }
                                assert(rels@.subrange(0, k as int) =~= rels@);
                            },
                            _ => {},
                        }
                        j = j + 1;
                    }
                    assert(s.sections@.subrange(0, j as int) =~= s.sections@);
                    i = i + 1;
                }
                assert(snippets@.subrange(0, i as int) =~= snippets@);
            },
            Program::Legacy => {},
        }
        let ghost dv = edge_views(declared@);
        let mut edges: Vec<GraphEdge> = Vec::new();
        let mut k: usize = 0;
        assert(edge_views(edges@) =~= Seq::<EdgeView>::empty());
        while k < declared.len()
            invariant
                k <= declared@.len(),
                dv == edge_views(declared@),
                no_duplicates(edge_views(edges@)),
                edge_views(edges@) == add_all(Seq::empty(), dv.subrange(0, k as int)),
                forall|m: int| 0 <= m < k ==> edge_views(edges@).contains(#[trigger] edge_views(declared@)[m]),
                forall|m: int|
                    0 <= m < edges@.len() ==> (#[trigger] edges@[m]).from < ids@.len()
                        && edges@[m].to < ids@.len(),
                forall|m: int|
                    0 <= m < declared@.len() ==> (#[trigger] declared@[m]).from < ids@.len()
                        && declared@[m].to < ids@.len(),
            decreases declared@.len() - k,
        {
            let ghost before = edges@;
            proof {
                let q = dv.subrange(0, k + 1);
                assert(q.drop_last() =~= dv.subrange(0, k as int));
                assert(dv[k as int] == declared@[k as int]@);
            }
            add_edge(&mut edges, declared[k].from, declared[k].to, declared[k].rel_type.clone());
            proof {
                assert(edge_views(declared@)[k as int] == declared@[k as int]@);
                assert forall|m: int| 0 <= m < edges@.len() implies (#[trigger] edges@[m]).from
                    < ids@.len() && edges@[m].to < ids@.len() by {
                    let x = edge_views(edges@)[m];
                    assert(edge_views(edges@).contains(x));
                    if edge_views(before).contains(x) {
                        let q = choose|q: int| 0 <= q < before.len() && edge_views(before)[q] == x;
                        assert(before[q].from == x.from);
                    }
                }
            }
            k = k + 1;
        }
        assert(dv.subrange(0, k as int) =~= dv);
        let ghost base = edge_views(edges@);
        let ghost invs = dv.map_values(|d: EdgeView| inverse_edge(d));
        let mut k: usize = 0;
        assert(invs.subrange(0, 0) =~= Seq::<EdgeView>::empty());
        while k < declared.len()
            invariant
                k <= declared@.len(),
                dv == edge_views(declared@),
                invs == dv.map_values(|d: EdgeView| inverse_edge(d)),
                no_duplicates(edge_views(edges@)),
                edge_views(edges@) == add_all(base, invs.subrange(0, k as int)),
                forall|m: int| 0 <= m < declared@.len() ==> edge_views(edges@).contains(#[trigger] edge_views(declared@)[m]),
                forall|m: int| 0 <= m < k ==> edge_views(edges@).contains(inverse_edge(#[trigger] edge_views(declared@)[m])),
                forall|m: int|
                    0 <= m < edges@.len() ==> (#[trigger] edges@[m]).from < ids@.len()
                        && edges@[m].to < ids@.len(),
                forall|m: int|
                    0 <= m < declared@.len() ==> (#[trigger] declared@[m]).from < ids@.len()
                        && declared@[m].to < ids@.len(),
            decreases declared@.len() - k,
        {
            let ghost before = edges@;
            let inv = inverse_relation(declared[k].rel_type.as_str());
            proof {
                let q = invs.subrange(0, k + 1);
                assert(q.drop_last() =~= invs.subrange(0, k as int));
                assert(dv[k as int] == declared@[k as int]@);
                assert(invs[k as int] == inverse_edge(dv[k as int]));
            }
            add_edge(&mut edges, declared[k].to, declared[k].from, inv);
            proof {
                assert(edge_views(declared@)[k as int] == declared@[k as int]@);
                assert forall|m: int| 0 <= m < edges@.len() implies (#[trigger] edges@[m]).from
                    < ids@.len() && edges@[m].to < ids@.len() by {
                    let x = edge_views(edges@)[m];
                    assert(edge_views(edges@).contains(x));
                    if edge_views(before).contains(x) {
                        let q = choose|q: int| 0 <= q < before.len() && edge_views(before)[q] == x;
                        assert(before[q].from == x.from);
                    }
                }
            }
            k = k + 1;
        }
        assert(invs.subrange(0, k as int) =~= invs);
        assert(strs(ids@) == node_ids);
        DataGraph { ids, contents, declared, edges }
    }

    /// Number of nodes.
    pub fn node_count(&self) -> (r: usize)
        ensures
            r == self.ids@.len(),
    {
        self.ids.len()
    }

    /// Index of the first node with this id.
    pub fn find_by_id(&self, id: &str) -> (r: Option<usize>)
        ensures
            r matches Some(k) ==> first_index(self.ids@, id@, k as int),
            r is None ==> forall|j: int| 0 <= j < self.ids@.len() ==> self.ids@[j]@ != id@,
    {
        find_node(&self.ids, id)
    }

    /// The indices of the edges that leave node `i`, in edge order.
    pub fn outgoing(&self, i: usize) -> (r: Vec<usize>)
        ensures
            r@ == leaving(self.edges@, i),
    {
        let mut r: Vec<usize> = Vec::new();
        let mut m: usize = 0;
        while m < self.edges.len()
            invariant
                m <= self.edges@.len(),
                r@ == leaving(self.edges@.subrange(0, m as int), i),
            decreases self.edges@.len() - m,
        {
            proof {
                let p = self.edges@.subrange(0, m + 1);
                assert(p.drop_last() =~= self.edges@.subrange(0, m as int));
            }
            if self.edges[m].from == i {
                r.push(m);
            }
            m = m + 1;
        }
        assert(self.edges@.subrange(0, m as int) =~= self.edges@);
        r
    }

    /// Number of edges that leave node `i`: its declared relations and the
    /// inverses of those that point at it.
    pub fn outgoing_count(&self, i: usize) -> (r: usize)
        ensures
            r == leaving(self.edges@, i).len(),
    {
        self.outgoing(i).len()
    }

    /// Number of edges that point at node `i`.
    pub fn incoming_count(&self, i: usize) -> (r: usize)
        ensures
            r == arriving(self.edges@, i),
    {
        let mut n: usize = 0;
        let mut m: usize = 0;
        while m < self.edges.len()
            invariant
                m <= self.edges@.len(),
                n == arriving(self.edges@.subrange(0, m as int), i),
                n <= m,
            decreases self.edges@.len() - m,
        {
            proof {
                let p = self.edges@.subrange(0, m + 1);
                assert(p.drop_last() =~= self.edges@.subrange(0, m as int));
            }
            if self.edges[m].to == i {
                n = n + 1;
            }
            m = m + 1;
        }
        assert(self.edges@.subrange(0, m as int) =~= self.edges@);
        n
    }

    /// The `k`-th edge leaving node `i`, written "type→target_id"; `None`
    /// when `k` is past the last one.
    pub fn outgoing_rel(&self, i: usize, k: usize) -> (r: Option<String>)
        requires
            self.wf(),
        ensures
            k >= leaving(self.edges@, i).len() ==> r is None,
            k < leaving(self.edges@, i).len() ==> (r matches Some(s) && s@ == edge_text(
                self.edges@[leaving(self.edges@, i)[k as int] as int],
                self.ids@,
            )),
    {
        let out = self.outgoing(i);
        if k >= out.len() {
            return None;
        }
        // Brings the bound on the number of edges into the proof below.
        let n = self.edges.len();
        proof {
            lemma_leaving_in_range(self.edges@, i, k as int);
        }
        let e = &self.edges[out[k]];
        let mut s = e.rel_type.clone();
        push_str(&mut s, "→");
        push_str(&mut s, self.ids[e.to].as_str());
        Some(s)
    }

    /// Whether node `i`'s content holds `needle`, byte for byte.
    pub fn content_contains(&self, i: usize, needle: &str) -> (r: bool)
        ensures
            i < self.contents@.len() ==> r == contains(self.contents@[i as int]@, needle@),
            i >= self.contents@.len() ==> !r,
    {
        if i >= self.contents.len() {
            return false;
        }
        str_contains(self.contents[i].as_str(), needle)
    }
}

/// For every declared relation `(a→b, T)`, the graph holds the edge
/// `(b→a, inverse(T))`, and no edge occurs twice, so that inverse occurs
/// exactly once.
pub proof fn lemma_inverse_symmetry(g: DataGraph, k: int)
    requires
        g.wf(),
        0 <= k < g.declared@.len(),
    ensures
        edge_views(g.edges@).contains(inverse_edge(g.declared@[k]@)),
        no_duplicates(edge_views(g.edges@)),
{
    assert(edge_views(g.declared@)[k] == g.declared@[k]@);
}

} // verus!
