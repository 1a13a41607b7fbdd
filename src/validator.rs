//! Extraction of requirements and tests from a program, coverage linking,
//! the uncovered-requirement check and the summary counts.

use vstd::prelude::*;
use crate::ast::{Priority, Program, ReqStatus, Requirement, Section, Snippet, TestDecl};
use crate::requirements::{
    error_views, ord, priority_ord, CoverageSummary, ErrorView, PrioritySummary, ReqView,
    RequirementError, RequirementInfo, Severity, TestInfo, TestView, ValidatorConfig,
    default_severity,
};
use crate::store::opt_view;
use crate::text::{copy_strings, str_eq, strs, vec_contains};

verus! {

/// The values of a sequence of requirements.
pub open spec fn req_views(s: Seq<RequirementInfo>) -> Seq<ReqView> {
    s.map_values(|r: RequirementInfo| r@)
}

/// The values of a sequence of tests.
pub open spec fn test_views(s: Seq<TestInfo>) -> Seq<TestView> {
    s.map_values(|t: TestInfo| t@)
}

/// Requirements, tests and errors gathered so far.
pub struct Gathered {
    pub reqs: Seq<ReqView>,
    pub tests: Seq<TestView>,
    pub errors: Seq<ErrorView>,
}

/// No two requirements share an id.
pub open spec fn unique_reqs(s: Seq<ReqView>) -> bool {
    forall|i: int, j: int| 0 <= i < s.len() && 0 <= j < s.len() && i != j ==> s[i].id != s[j].id
}

/// No two tests share an id.
pub open spec fn unique_tests(s: Seq<TestView>) -> bool {
    forall|i: int, j: int| 0 <= i < s.len() && 0 <= j < s.len() && i != j ==> s[i].id != s[j].id
}

/// None of the errors is an uncovered requirement.
pub open spec fn no_uncovered(s: Seq<ErrorView>) -> bool {
    forall|i: int| 0 <= i < s.len() ==> !(#[trigger] s[i] is UncoveredRequirement)
}

pub open spec fn has_req(s: Seq<ReqView>, id: Seq<char>) -> bool {
    exists|i: int| 0 <= i < s.len() && (#[trigger] s[i]).id == id
}

pub open spec fn req_slot(s: Seq<ReqView>, id: Seq<char>) -> int {
    choose|i: int| 0 <= i < s.len() && (#[trigger] s[i]).id == id
}

pub open spec fn has_test(s: Seq<TestView>, id: Seq<char>) -> bool {
    exists|i: int| 0 <= i < s.len() && (#[trigger] s[i]).id == id
}

pub open spec fn test_slot(s: Seq<TestView>, id: Seq<char>) -> int {
    choose|i: int| 0 <= i < s.len() && (#[trigger] s[i]).id == id
}

/// The requirement that a `req` entry of snippet `sid` becomes: Medium and
/// Draft unless it says otherwise, and not yet covered.
pub open spec fn req_entry(r: Requirement, sid: Seq<char>) -> ReqView {
    ReqView {
        id: r.id@,
        text: opt_view(r.text),
        priority: r.priority.unwrap_or(Priority::Medium),
        status: r.status.unwrap_or(ReqStatus::Draft),
        snippet_id: sid,
        covered_by: Seq::empty(),
        span: r.span,
    }
}

/// The test that a `test` entry of snippet `sid` becomes.
pub open spec fn test_entry(t: TestDecl, sid: Seq<char>) -> TestView {
    TestView { id: t.id@, kind: t.kind, covers: strs(t.covers@), snippet_id: sid, span: t.span }
}

/// One `req` entry: added, or reported as a duplicate of the first one.
pub open spec fn gather_req(g: Gathered, r: Requirement, sid: Seq<char>) -> Gathered {
    if has_req(g.reqs, r.id@) {
        Gathered {
            errors: g.errors.push(
                ErrorView::DuplicateRequirement {
                    id: r.id@,
                    first: g.reqs[req_slot(g.reqs, r.id@)].snippet_id,
                    second: sid,
                    span: r.span,
                },
            ),
            ..g
        }
    } else {
        Gathered { reqs: g.reqs.push(req_entry(r, sid)), ..g }
    }
}

/// One `test` entry: added, or reported as a duplicate of the first one.
pub open spec fn gather_test(g: Gathered, t: TestDecl, sid: Seq<char>) -> Gathered {
    if has_test(g.tests, t.id@) {
        Gathered {
            errors: g.errors.push(
                ErrorView::DuplicateTest {
                    id: t.id@,
                    first: g.tests[test_slot(g.tests, t.id@)].snippet_id,
                    second: sid,
                    span: t.span,
                },
            ),
            ..g
        }
    } else {
        Gathered { tests: g.tests.push(test_entry(t, sid)), ..g }
    }
}

pub open spec fn gather_reqs(g: Gathered, rs: Seq<Requirement>, sid: Seq<char>) -> Gathered
    decreases rs.len(),
{
    if rs.len() == 0 {
        g
    } else {
        gather_req(gather_reqs(g, rs.drop_last(), sid), rs.last(), sid)
    }
}

pub open spec fn gather_tests(g: Gathered, ts: Seq<TestDecl>, sid: Seq<char>) -> Gathered
    decreases ts.len(),
{
    if ts.len() == 0 {
        g
    } else {
        gather_test(gather_tests(g, ts.drop_last(), sid), ts.last(), sid)
    }
}

pub open spec fn gather_section(g: Gathered, s: Section, sid: Seq<char>) -> Gathered {
    match s {
        Section::Requires(rs) => gather_reqs(g, rs@, sid),
        Section::Tests(ts) => gather_tests(g, ts@, sid),
        _ => g,
    }
}

pub open spec fn gather_sections(g: Gathered, ss: Seq<Section>, sid: Seq<char>) -> Gathered
    decreases ss.len(),
{
    if ss.len() == 0 {
        g
    } else {
        gather_section(gather_sections(g, ss.drop_last(), sid), ss.last(), sid)
    }
}

pub open spec fn gather_snippets(g: Gathered, ss: Seq<Snippet>) -> Gathered
    decreases ss.len(),
{
    if ss.len() == 0 {
        g
    } else {
        let prev = gather_snippets(g, ss.drop_last());
        gather_sections(prev, ss.last().sections@, ss.last().id@)
    }
}

pub open spec fn nothing_gathered() -> Gathered {
    Gathered { reqs: Seq::empty(), tests: Seq::empty(), errors: Seq::empty() }
}

/// Everything that extraction finds in a program, in source order; the
/// legacy form declares nothing.
pub open spec fn extracted(p: Program) -> Gathered {
    match p {
        Program::Snippets(ss) => gather_snippets(nothing_gathered(), ss@),
        Program::Legacy => nothing_gathered(),
    }
}

/// Requirements, tests and duplicate errors taken from a program.
#[derive(Debug)]
pub struct ExtractionResult {
    pub requirements: Vec<RequirementInfo>,
    pub tests: Vec<TestInfo>,
    pub errors: Vec<RequirementError>,
}

impl View for ExtractionResult {
    type V = Gathered;

    open spec fn view(&self) -> Gathered {
        Gathered {
            reqs: req_views(self.requirements@),
            tests: test_views(self.tests@),
            errors: error_views(self.errors@),
        }
    }
}

/// Ids are unique and no error is an uncovered requirement.
pub open spec fn gathered_wf(g: Gathered) -> bool {
    unique_reqs(g.reqs) && unique_tests(g.tests) && no_uncovered(g.errors)
}

impl ExtractionResult {
    pub open spec fn wf(&self) -> bool {
        gathered_wf(self@)
    }
}

proof fn lemma_req_slot(s: Seq<ReqView>, i: int)
    requires
        unique_reqs(s),
        0 <= i < s.len(),
    ensures
        has_req(s, s[i].id),
        req_slot(s, s[i].id) == i,
{
    assert(has_req(s, s[i].id));
}

proof fn lemma_test_slot(s: Seq<TestView>, i: int)
    requires
        unique_tests(s),
        0 <= i < s.len(),
    ensures
        has_test(s, s[i].id),
        test_slot(s, s[i].id) == i,
{
    assert(has_test(s, s[i].id));
}

fn find_req(reqs: &Vec<RequirementInfo>, id: &str) -> (r: Option<usize>)
    requires
        unique_reqs(req_views(reqs@)),
    ensures
        r is None <==> !has_req(req_views(reqs@), id@),
        r matches Some(i) ==> i < reqs@.len() && req_slot(req_views(reqs@), id@) == i && reqs@[i as int].id@ == id@,
{
    let ghost s = req_views(reqs@);
    let mut i: usize = 0;
    while i < reqs.len()
        invariant
            i <= reqs@.len(),
            s == req_views(reqs@),
            unique_reqs(s),
            forall|k: int| 0 <= k < i ==> (#[trigger] s[k]).id != id@,
        decreases reqs@.len() - i,
    {
        if str_eq(reqs[i].id.as_str(), id) {
            proof {
                assert(s[i as int].id == id@);
                lemma_req_slot(s, i as int);
            }
            return Some(i);
        }
        i = i + 1;
    }
    None
}

fn find_test(tests: &Vec<TestInfo>, id: &str) -> (r: Option<usize>)
    requires
        unique_tests(test_views(tests@)),
    ensures
        r is None <==> !has_test(test_views(tests@), id@),
        r matches Some(i) ==> i < tests@.len() && test_slot(test_views(tests@), id@) == i,
{
    let ghost s = test_views(tests@);
    let mut i: usize = 0;
    while i < tests.len()
        invariant
            i <= tests@.len(),
            s == test_views(tests@),
            unique_tests(s),
            forall|k: int| 0 <= k < i ==> (#[trigger] s[k]).id != id@,
        decreases tests@.len() - i,
    {
        if str_eq(tests[i].id.as_str(), id) {
            proof {
                assert(s[i as int].id == id@);
                lemma_test_slot(s, i as int);
            }
            return Some(i);
        }
        i = i + 1;
    }
    None
}

fn copy_opt_string(o: &Option<String>) -> (r: Option<String>)
    ensures
        opt_view(r) == opt_view(*o),
{
    match o {
        Some(s) => Some(s.clone()),
        None => None,
    }
}

fn add_requirement(out: &mut ExtractionResult, r: &Requirement, sid: &String)
    requires
        old(out).wf(),
    ensures
        final(out).wf(),
        final(out)@ == gather_req(old(out)@, *r, sid@),
{
    let ghost g = old(out)@;
    match find_req(&out.requirements, r.id.as_str()) {
        Some(i) => {
            let e = RequirementError::DuplicateRequirement {
                id: r.id.clone(),
                first: out.requirements[i].snippet_id.clone(),
                second: sid.clone(),
                span: r.span,
            };
            out.errors.push(e);
            proof {
                assert(error_views(out.errors@) =~= g.errors.push(e@));
                assert(out@ == gather_req(g, *r, sid@));
            }
        },
        None => {
            let info = RequirementInfo {
                id: r.id.clone(),
                text: copy_opt_string(&r.text),
                priority: match r.priority {
                    Some(p) => p,
                    None => Priority::Medium,
                },
                status: match r.status {
                    Some(s) => s,
                    None => ReqStatus::Draft,
                },
                snippet_id: sid.clone(),
                covered_by: Vec::new(),
                span: r.span,
            };
            assert(strs(info.covered_by@) =~= Seq::<Seq<char>>::empty());
            assert(info@ == req_entry(*r, sid@));
            out.requirements.push(info);
            proof {
                assert(req_views(out.requirements@) =~= g.reqs.push(info@));
                assert(out@ == gather_req(g, *r, sid@));
            }
        },
    }
}

fn add_test(out: &mut ExtractionResult, t: &TestDecl, sid: &String)
    requires
        old(out).wf(),
    ensures
        final(out).wf(),
        final(out)@ == gather_test(old(out)@, *t, sid@),
{
    let ghost g = old(out)@;
    match find_test(&out.tests, t.id.as_str()) {
        Some(i) => {
            let e = RequirementError::DuplicateTest {
                id: t.id.clone(),
                first: out.tests[i].snippet_id.clone(),
                second: sid.clone(),
                span: t.span,
            };
            out.errors.push(e);
            proof {
                assert(error_views(out.errors@) =~= g.errors.push(e@));
                assert(out@ == gather_test(g, *t, sid@));
            }
        },
        None => {
            let info = TestInfo {
                id: t.id.clone(),
                kind: t.kind,
                covers: copy_strings(&t.covers),
                snippet_id: sid.clone(),
                span: t.span,
            };
            assert(info@ == test_entry(*t, sid@));
            out.tests.push(info);
            proof {
                assert(test_views(out.tests@) =~= g.tests.push(info@));
                assert(out@ == gather_test(g, *t, sid@));
            }
        },
    }
}

fn extract_from_section(out: &mut ExtractionResult, section: &Section, sid: &String)
    requires
        old(out).wf(),
    ensures
        final(out).wf(),
        final(out)@ == gather_section(old(out)@, *section, sid@),
{
    match section {
        Section::Requires(rs) => {
            let ghost g = old(out)@;
            let mut i: usize = 0;
            while i < rs.len()
                invariant
                    i <= rs@.len(),
                    out.wf(),
                    out@ == gather_reqs(g, rs@.subrange(0, i as int), sid@),
                decreases rs@.len() - i,
            {
                proof {
                    let p = rs@.subrange(0, i + 1);
                    assert(p.drop_last() =~= rs@.subrange(0, i as int));
                }
                add_requirement(out, &rs[i], sid);
                i = i + 1;
            }
            assert(rs@.subrange(0, i as int) =~= rs@);
        },
        Section::Tests(ts) => {
            let ghost g = old(out)@;
            let mut i: usize = 0;
            while i < ts.len()
                invariant
                    i <= ts@.len(),
                    out.wf(),
                    out@ == gather_tests(g, ts@.subrange(0, i as int), sid@),
                decreases ts@.len() - i,
            {
                proof {
                    let p = ts@.subrange(0, i + 1);
                    assert(p.drop_last() =~= ts@.subrange(0, i as int));
                }
                add_test(out, &ts[i], sid);
                i = i + 1;
            }
            assert(ts@.subrange(0, i as int) =~= ts@);
        },
        _ => {},
    }
}

/// Adds the requirements and tests of one snippet, in section order.
pub fn extract_from_snippet(snippet: &Snippet, out: &mut ExtractionResult)
    requires
        old(out).wf(),
    ensures
        final(out).wf(),
        final(out)@ == gather_sections(old(out)@, snippet.sections@, snippet.id@),
{
    let ghost g = old(out)@;
    let mut i: usize = 0;
    while i < snippet.sections.len()
        invariant
            i <= snippet.sections@.len(),
            out.wf(),
            out@ == gather_sections(g, snippet.sections@.subrange(0, i as int), snippet.id@),
        decreases snippet.sections@.len() - i,
    {
        proof {
            let p = snippet.sections@.subrange(0, i + 1);
            assert(p.drop_last() =~= snippet.sections@.subrange(0, i as int));
        }
        extract_from_section(out, &snippet.sections[i], &snippet.id);
        i = i + 1;
    }
    assert(snippet.sections@.subrange(0, i as int) =~= snippet.sections@);
}

/// Every requirement and test of the program; a repeated id is reported as
/// a duplicate and the first occurrence kept.
pub fn extract(program: &Program) -> (r: ExtractionResult)
    ensures
        r.wf(),
        r@ == extracted(*program),
{
    let mut out = ExtractionResult { requirements: Vec::new(), tests: Vec::new(), errors: Vec::new() };
    assert(req_views(out.requirements@) =~= Seq::<ReqView>::empty());
    assert(test_views(out.tests@) =~= Seq::<TestView>::empty());
    assert(error_views(out.errors@) =~= Seq::<ErrorView>::empty());
    match program {
        Program::Snippets(snippets) => {
            let mut i: usize = 0;
            while i < snippets.len()
                invariant
                    i <= snippets@.len(),
                    out.wf(),
                    out@ == gather_snippets(nothing_gathered(), snippets@.subrange(0, i as int)),
                decreases snippets@.len() - i,
            {
                proof {
                    let p = snippets@.subrange(0, i + 1);
                    assert(p.drop_last() =~= snippets@.subrange(0, i as int));
                }
                extract_from_snippet(&snippets[i], &mut out);
                i = i + 1;
            }
            assert(snippets@.subrange(0, i as int) =~= snippets@);
        },
        Program::Legacy => {},
    }
    out
}

/// Requirements and errors while coverage links are built.
pub struct Linked {
    pub reqs: Seq<ReqView>,
    pub errors: Seq<ErrorView>,
}

/// Test `t` claims to cover requirement `rid`: its id joins the requirement's
/// `covered_by` once, or the claim is reported when no such requirement exists.
pub open spec fn link_cover(l: Linked, t: TestView, rid: Seq<char>) -> Linked {
    if has_req(l.reqs, rid) {
        let i = req_slot(l.reqs, rid);
        if l.reqs[i].covered_by.contains(t.id) {
            l
        } else {
            Linked {
                reqs: l.reqs.update(
                    i,
                    ReqView { covered_by: l.reqs[i].covered_by.push(t.id), ..l.reqs[i] },
                ),
                ..l
            }
        }
    } else {
        Linked {
            errors: l.errors.push(
                ErrorView::NonexistentRequirement {
                    test_id: t.id,
                    req_id: rid,
                    snippet_id: t.snippet_id,
                    span: t.span,
                },
            ),
            ..l
        }
    }
}

pub open spec fn link_covers(l: Linked, t: TestView, cs: Seq<Seq<char>>) -> Linked
    decreases cs.len(),
{
    if cs.len() == 0 {
        l
    } else {
        link_cover(link_covers(l, t, cs.drop_last()), t, cs.last())
    }
}

/// The links of every test, in order.
pub open spec fn link_tests(l: Linked, ts: Seq<TestView>) -> Linked
    decreases ts.len(),
{
    if ts.len() == 0 {
        l
    } else {
        let prev = link_tests(l, ts.drop_last());
        link_covers(prev, ts.last(), ts.last().covers)
    }
}

/// `r` is reported as uncovered: it has no test and its priority ranks at
/// or above the warning threshold.
pub open spec fn reportable(r: ReqView, cfg: ValidatorConfig) -> bool {
    r.covered_by.len() == 0 && ord(r.priority) <= ord(cfg.warning_min_priority)
}

/// The uncovered-requirement errors for `s`, in order.
pub open spec fn uncovered_of(s: Seq<ReqView>, cfg: ValidatorConfig) -> Seq<ErrorView>
    decreases s.len(),
{
    if s.len() == 0 {
        Seq::empty()
    } else if reportable(s.last(), cfg) {
        uncovered_of(s.drop_last(), cfg).push(
            ErrorView::UncoveredRequirement {
                id: s.last().id,
                priority: s.last().priority,
                snippet_id: s.last().snippet_id,
                span: s.last().span,
            },
        )
    } else {
        uncovered_of(s.drop_last(), cfg)
    }
}

/// Number of requirements with at least one test.
pub open spec fn count_covered(s: Seq<ReqView>) -> nat
    decreases s.len(),
{
    if s.len() == 0 {
        0
    } else {
        count_covered(s.drop_last()) + if s.last().covered_by.len() > 0 {
            1nat
        } else {
            0nat
        }
    }
}

/// Number of requirements of priority `p`.
pub open spec fn count_priority(s: Seq<ReqView>, p: Priority) -> nat
    decreases s.len(),
{
    if s.len() == 0 {
        0
    } else {
        count_priority(s.drop_last(), p) + if s.last().priority == p {
            1nat
        } else {
            0nat
        }
    }
}

/// Number of requirements of priority `p` with at least one test.
pub open spec fn count_priority_covered(s: Seq<ReqView>, p: Priority) -> nat
    decreases s.len(),
{
    if s.len() == 0 {
        0
    } else {
        count_priority_covered(s.drop_last(), p) + if s.last().priority == p
            && s.last().covered_by.len() > 0 {
            1nat
        } else {
            0nat
        }
    }
}

/// The mathematical value of a [`CoverageSummary`].
pub struct SummaryView {
    pub total: nat,
    pub covered: nat,
    pub uncovered: nat,
    pub by_priority: Seq<PrioritySummary>,
}

/// The counts of one priority.
pub open spec fn priority_counts(s: Seq<ReqView>, p: Priority) -> PrioritySummary {
    PrioritySummary {
        total: count_priority(s, p) as usize,
        covered: count_priority_covered(s, p) as usize,
        uncovered: (count_priority(s, p) - count_priority_covered(s, p)) as usize,
    }
}

/// The summary of a set of requirements.
pub open spec fn summary_of(s: Seq<ReqView>) -> SummaryView {
    SummaryView {
        total: s.len(),
        covered: count_covered(s),
        uncovered: (s.len() - count_covered(s)) as nat,
        by_priority: seq![
            priority_counts(s, Priority::Critical),
            priority_counts(s, Priority::High),
            priority_counts(s, Priority::Medium),
            priority_counts(s, Priority::Low),
        ],
    }
}

impl View for CoverageSummary {
    type V = SummaryView;

    open spec fn view(&self) -> SummaryView {
        SummaryView {
            total: self.total_requirements as nat,
            covered: self.covered_requirements as nat,
            uncovered: self.uncovered_requirements as nat,
            by_priority: self.by_priority@,
        }
    }
}

/// The full coverage report.
#[derive(Debug)]
pub struct CoverageReport {
    /// Requirements by first declaration, ids unique.
    pub requirements: Vec<RequirementInfo>,
    /// Tests by first declaration, ids unique.
    pub tests: Vec<TestInfo>,
    pub summary: CoverageSummary,
    pub errors: Vec<RequirementError>,
}

/// The mathematical value of a [`CoverageReport`].
pub struct ReportView {
    pub reqs: Seq<ReqView>,
    pub tests: Seq<TestView>,
    pub summary: SummaryView,
    pub errors: Seq<ErrorView>,
}

impl View for CoverageReport {
    type V = ReportView;

    open spec fn view(&self) -> ReportView {
        ReportView {
            reqs: req_views(self.requirements@),
            tests: test_views(self.tests@),
            summary: self.summary@,
            errors: error_views(self.errors@),
        }
    }
}

/// The report that validation makes of what extraction found: links built
/// test by test, then the uncovered requirements reported, then the counts.
pub open spec fn validated(g: Gathered, cfg: ValidatorConfig) -> ReportView {
    let l = link_tests(Linked { reqs: g.reqs, errors: g.errors }, g.tests);
    ReportView {
        reqs: l.reqs,
        tests: g.tests,
        summary: summary_of(l.reqs),
        errors: l.errors + uncovered_of(l.reqs, cfg),
    }
}

/// Both sequences have the same requirement ids in the same places.
pub open spec fn same_ids(a: Seq<ReqView>, b: Seq<ReqView>) -> bool {
    a.len() == b.len() && forall|k: int| 0 <= k < a.len() ==> #[trigger] a[k].id == b[k].id
}

proof fn lemma_link_cover(l: Linked, t: TestView, rid: Seq<char>)
    requires
        unique_reqs(l.reqs),
    ensures
        same_ids(l.reqs, link_cover(l, t, rid).reqs),
        no_uncovered(l.errors) ==> no_uncovered(link_cover(l, t, rid).errors),
{
    let n = link_cover(l, t, rid);
    assert forall|k: int| 0 <= k < l.reqs.len() implies #[trigger] l.reqs[k].id == n.reqs[k].id by {}
    if no_uncovered(l.errors) && !has_req(l.reqs, rid) {
        assert forall|k: int| 0 <= k < n.errors.len() implies !(#[trigger] n.errors[k] is UncoveredRequirement) by {
            if k < l.errors.len() {
                assert(n.errors[k] == l.errors[k]);
            }
        }
    }
}

proof fn lemma_same_ids_unique(a: Seq<ReqView>, b: Seq<ReqView>)
    requires
        unique_reqs(a),
        same_ids(a, b),
    ensures
        unique_reqs(b),
{
    assert forall|i: int, j: int| 0 <= i < b.len() && 0 <= j < b.len() && i != j implies b[i].id != b[j].id by {
        assert(a[i].id == b[i].id);
        assert(a[j].id == b[j].id);
    }
}

proof fn lemma_link_covers(l: Linked, t: TestView, cs: Seq<Seq<char>>)
    requires
        unique_reqs(l.reqs),
    ensures
        same_ids(l.reqs, link_covers(l, t, cs).reqs),
        no_uncovered(l.errors) ==> no_uncovered(link_covers(l, t, cs).errors),
    decreases cs.len(),
{
    if cs.len() > 0 {
        let prev = link_covers(l, t, cs.drop_last());
        lemma_link_covers(l, t, cs.drop_last());
        lemma_same_ids_unique(l.reqs, prev.reqs);
        lemma_link_cover(prev, t, cs.last());
        let n = link_covers(l, t, cs);
        assert forall|k: int| 0 <= k < l.reqs.len() implies #[trigger] l.reqs[k].id == n.reqs[k].id by {
            assert(l.reqs[k].id == prev.reqs[k].id);
        }
    }
}

/// Building links changes no requirement's id or place and reports no
/// requirement as uncovered.
pub proof fn lemma_link_tests(l: Linked, ts: Seq<TestView>)
    requires
        unique_reqs(l.reqs),
    ensures
        same_ids(l.reqs, link_tests(l, ts).reqs),
        unique_reqs(link_tests(l, ts).reqs),
        no_uncovered(l.errors) ==> no_uncovered(link_tests(l, ts).errors),
    decreases ts.len(),
{
    if ts.len() > 0 {
        let prev = link_tests(l, ts.drop_last());
        lemma_link_tests(l, ts.drop_last());
        lemma_link_covers(prev, ts.last(), ts.last().covers);
        let n = link_tests(l, ts);
        assert forall|k: int| 0 <= k < l.reqs.len() implies #[trigger] l.reqs[k].id == n.reqs[k].id by {
            assert(l.reqs[k].id == prev.reqs[k].id);
        }
        lemma_same_ids_unique(l.reqs, n.reqs);
    } else {
        assert(same_ids(l.reqs, link_tests(l, ts).reqs));
    }
}

/// `e` reports the requirement `id` as uncovered.
pub open spec fn is_uncovered_of(e: ErrorView, id: Seq<char>) -> bool {
    e matches ErrorView::UncoveredRequirement { id: x, .. } && x == id
}

/// Some error reports the requirement `id` as uncovered.
pub open spec fn reported_uncovered(errors: Seq<ErrorView>, id: Seq<char>) -> bool {
    exists|k: int|
        0 <= k < errors.len() && is_uncovered_of(#[trigger] errors[k], id)
}

proof fn lemma_uncovered_of(s: Seq<ReqView>, cfg: ValidatorConfig, id: Seq<char>)
    ensures
        reported_uncovered(uncovered_of(s, cfg), id) <==> exists|j: int|
            0 <= j < s.len() && (#[trigger] s[j]).id == id && reportable(s[j], cfg),
    decreases s.len(),
{
    if s.len() > 0 {
        let t = s.drop_last();
        lemma_uncovered_of(t, cfg, id);
        let u = uncovered_of(s, cfg);
        let ut = uncovered_of(t, cfg);
        if reported_uncovered(u, id) {
            let k = choose|k: int|
                0 <= k < u.len() && is_uncovered_of(#[trigger] u[k], id);
            if k < ut.len() {
                assert(u[k] == ut[k]);
                assert(reported_uncovered(ut, id));
                let j = choose|j: int| 0 <= j < t.len() && (#[trigger] t[j]).id == id && reportable(t[j], cfg);
                assert(s[j] == t[j]);
            } else {
                assert(s[s.len() - 1].id == id);
            }
        }
        if exists|j: int| 0 <= j < s.len() && (#[trigger] s[j]).id == id && reportable(s[j], cfg) {
            let j = choose|j: int| 0 <= j < s.len() && (#[trigger] s[j]).id == id && reportable(s[j], cfg);
            if j < s.len() - 1 {
                assert(t[j] == s[j]);
                assert(reported_uncovered(ut, id));
                let k = choose|k: int|
                    0 <= k < ut.len() && is_uncovered_of(#[trigger] ut[k], id);
                assert(u[k] == ut[k]);
            } else {
                assert(is_uncovered_of(u[u.len() - 1], id));
            }
        }
    }
}

/// A requirement of the report is reported as uncovered exactly when no test
/// covers it and its priority ranks at or above the warning threshold.
pub proof fn lemma_uncovered_threshold(g: Gathered, cfg: ValidatorConfig, i: int)
    requires
        gathered_wf(g),
        0 <= i < validated(g, cfg).reqs.len(),
    ensures
        reported_uncovered(validated(g, cfg).errors, validated(g, cfg).reqs[i].id) <==> (
        validated(g, cfg).reqs[i].covered_by.len() == 0 && ord(validated(g, cfg).reqs[i].priority)
            <= ord(cfg.warning_min_priority)),
{
    let l0 = Linked { reqs: g.reqs, errors: g.errors };
    let l = link_tests(l0, g.tests);
    lemma_link_tests(l0, g.tests);
    let r = validated(g, cfg);
    let id = l.reqs[i].id;
    let u = uncovered_of(l.reqs, cfg);
    lemma_uncovered_of(l.reqs, cfg, id);
    if reported_uncovered(r.errors, id) {
        let k = choose|k: int|
            0 <= k < r.errors.len() && is_uncovered_of(#[trigger] r.errors[k], id);
        if k < l.errors.len() {
            assert(r.errors[k] == l.errors[k]);
        } else {
            assert(r.errors[k] == u[k - l.errors.len()]);
            assert(reported_uncovered(u, id));
            let j = choose|j: int| 0 <= j < l.reqs.len() && (#[trigger] l.reqs[j]).id == id && reportable(l.reqs[j], cfg);
            assert(j == i);
        }
    }
    if reportable(l.reqs[i], cfg) {
        assert(reported_uncovered(u, id));
        let k = choose|k: int|
            0 <= k < u.len() && is_uncovered_of(#[trigger] u[k], id);
        assert(r.errors[l.errors.len() + k] == u[k]);
    }
}

fn link_one(
    requirements: &mut Vec<RequirementInfo>,
    test: &TestInfo,
    req_id: &String,
    errors: &mut Vec<RequirementError>,
)
    requires
        unique_reqs(req_views(old(requirements)@)),
    ensures
        (Linked { reqs: req_views(final(requirements)@), errors: error_views(final(errors)@) })
            == link_cover(
            Linked { reqs: req_views(old(requirements)@), errors: error_views(old(errors)@) },
            test@,
            req_id@,
        ),
{
    let ghost l = Linked { reqs: req_views(requirements@), errors: error_views(errors@) };
    match find_req(requirements, req_id.as_str()) {
        Some(i) => {
            if !vec_contains(&requirements[i].covered_by, test.id.as_str()) {
                let ghost before = requirements@;
                let mut req = requirements.remove(i);
                req.covered_by.push(test.id.clone());
                assert(strs(req.covered_by@) =~= l.reqs[i as int].covered_by.push(test.id@));
                requirements.insert(i, req);
                assert(req_views(requirements@) =~= l.reqs.update(
                    i as int,
                    ReqView { covered_by: l.reqs[i as int].covered_by.push(test.id@), ..l.reqs[i as int] },
                ));
            }
        },
        None => {
            let e = RequirementError::NonexistentRequirement {
                test_id: test.id.clone(),
                req_id: req_id.clone(),
                snippet_id: test.snippet_id.clone(),
                span: test.span,
            };
            errors.push(e);
            assert(error_views(errors@) =~= l.errors.push(e@));
        },
    }
}

/// Adds each test to the `covered_by` list of each requirement it covers,
/// once; a covered id with no requirement is reported.
pub fn build_coverage_links(
    requirements: &mut Vec<RequirementInfo>,
    tests: &Vec<TestInfo>,
    errors: &mut Vec<RequirementError>,
)
    requires
        unique_reqs(req_views(old(requirements)@)),
    ensures
        (Linked { reqs: req_views(final(requirements)@), errors: error_views(final(errors)@) })
            == link_tests(
            Linked { reqs: req_views(old(requirements)@), errors: error_views(old(errors)@) },
            test_views(tests@),
        ),
{
    let ghost l0 = Linked { reqs: req_views(requirements@), errors: error_views(errors@) };
    let ghost ts = test_views(tests@);
    let mut i: usize = 0;
    while i < tests.len()
        invariant
            i <= tests@.len(),
            ts == test_views(tests@),
            unique_reqs(l0.reqs),
            (Linked { reqs: req_views(requirements@), errors: error_views(errors@) }) == link_tests(
                l0,
                ts.subrange(0, i as int),
            ),
        decreases tests@.len() - i,
    {
        proof {
            let p = ts.subrange(0, i + 1);
            assert(p.drop_last() =~= ts.subrange(0, i as int));
            lemma_link_tests(l0, ts.subrange(0, i as int));
        }
        let test = &tests[i];
        let ghost lt = Linked { reqs: req_views(requirements@), errors: error_views(errors@) };
        let mut j: usize = 0;
        while j < test.covers.len()
            invariant
                j <= test.covers@.len(),
                unique_reqs(lt.reqs),
                (Linked { reqs: req_views(requirements@), errors: error_views(errors@) })
                    == link_covers(lt, test@, test@.covers.subrange(0, j as int)),
            decreases test.covers@.len() - j,
        {
            proof {
                let p = test@.covers.subrange(0, j + 1);
                assert(p.drop_last() =~= test@.covers.subrange(0, j as int));
                assert(p.last() == test.covers@[j as int]@);
                lemma_link_covers(lt, test@, test@.covers.subrange(0, j as int));
                lemma_same_ids_unique(lt.reqs, req_views(requirements@));
            }
            link_one(requirements, test, &test.covers[j], errors);
            j = j + 1;
        }
        assert(test@.covers.subrange(0, j as int) =~= test@.covers);
        i = i + 1;
    }
    assert(ts.subrange(0, i as int) =~= ts);
}

/// Reports each requirement that no test covers and whose priority ranks at
/// or above the warning threshold.
fn check_uncovered_requirements(
    requirements: &Vec<RequirementInfo>,
    errors: &mut Vec<RequirementError>,
    config: &ValidatorConfig,
)
    ensures
        error_views(final(errors)@) == error_views(old(errors)@) + uncovered_of(
            req_views(requirements@),
            *config,
        ),
{
    let ghost e0 = error_views(errors@);
    let ghost s = req_views(requirements@);
    let warning_threshold = priority_ord(config.warning_min_priority);
    let mut i: usize = 0;
    while i < requirements.len()
        invariant
            i <= requirements@.len(),
            s == req_views(requirements@),
            warning_threshold == ord(config.warning_min_priority),
            error_views(errors@) == e0 + uncovered_of(s.subrange(0, i as int), *config),
        decreases requirements@.len() - i,
    {
        proof {
            let p = s.subrange(0, i + 1);
            assert(p.drop_last() =~= s.subrange(0, i as int));
        }
        let req = &requirements[i];
        if req.covered_by.len() == 0 && priority_ord(req.priority) <= warning_threshold {
            let e = RequirementError::UncoveredRequirement {
                id: req.id.clone(),
                priority: req.priority,
                snippet_id: req.snippet_id.clone(),
                span: req.span,
            };
            let ghost before = error_views(errors@);
            errors.push(e);
            assert(error_views(errors@) =~= before.push(e@));
        }
        i = i + 1;
        assert(error_views(errors@) =~= e0 + uncovered_of(s.subrange(0, i as int), *config));
    }
    assert(s.subrange(0, i as int) =~= s);
}

proof fn lemma_counts_bounded(s: Seq<ReqView>, p: Priority)
    ensures
        count_covered(s) <= s.len(),
        count_priority_covered(s, p) <= count_priority(s, p),
        count_priority(s, p) <= s.len(),
    decreases s.len(),
{
    if s.len() > 0 {
        lemma_counts_bounded(s.drop_last(), p);
    }
}

fn count_for(requirements: &Vec<RequirementInfo>, p: Priority) -> (r: PrioritySummary)
    ensures
        r == priority_counts(req_views(requirements@), p),
{
    let ghost s = req_views(requirements@);
    let mut total: usize = 0;
    let mut covered: usize = 0;
    let mut i: usize = 0;
    while i < requirements.len()
        invariant
            i <= requirements@.len(),
            s == req_views(requirements@),
            total == count_priority(s.subrange(0, i as int), p),
            covered == count_priority_covered(s.subrange(0, i as int), p),
            covered <= total <= i,
        decreases requirements@.len() - i,
    {
        proof {
            let q = s.subrange(0, i + 1);
            assert(q.drop_last() =~= s.subrange(0, i as int));
        }
        if requirements[i].priority == p {
            total = total + 1;
            if requirements[i].covered_by.len() > 0 {
                covered = covered + 1;
            }
        }
        i = i + 1;
    }
    assert(s.subrange(0, i as int) =~= s);
    PrioritySummary { total, covered, uncovered: total - covered }
}

/// Counts of all requirements, of those with a test and of those without,
/// overall and per priority.
pub fn compute_summary(requirements: &Vec<RequirementInfo>) -> (r: CoverageSummary)
    ensures
        r@ == summary_of(req_views(requirements@)),
        r.covered_requirements + r.uncovered_requirements == r.total_requirements,
        r.by_priority@.len() == 4,
{
    let ghost s = req_views(requirements@);
    let mut covered: usize = 0;
    let mut i: usize = 0;
    while i < requirements.len()
        invariant
            i <= requirements@.len(),
            s == req_views(requirements@),
            covered == count_covered(s.subrange(0, i as int)),
            covered <= i,
        decreases requirements@.len() - i,
    {
        proof {
            let q = s.subrange(0, i + 1);
            assert(q.drop_last() =~= s.subrange(0, i as int));
        }
        if requirements[i].covered_by.len() > 0 {
            covered = covered + 1;
        }
        i = i + 1;
    }
    assert(s.subrange(0, i as int) =~= s);
    let total = requirements.len();
    let mut by_priority: Vec<PrioritySummary> = Vec::new();
    by_priority.push(count_for(requirements, Priority::Critical));
    by_priority.push(count_for(requirements, Priority::High));
    by_priority.push(count_for(requirements, Priority::Medium));
    by_priority.push(count_for(requirements, Priority::Low));
    let r = CoverageSummary {
        total_requirements: total,
        covered_requirements: covered,
        uncovered_requirements: total - covered,
        by_priority,
    };
    assert(r@.by_priority =~= summary_of(s).by_priority);
    r
}

/// Builds the coverage report: links, uncovered-requirement errors after
/// the extraction's own errors, and the counts.
pub fn validate(extraction: ExtractionResult, config: &ValidatorConfig) -> (r: CoverageReport)
    requires
        extraction.wf(),
    ensures
        r@ == validated(extraction@, *config),
        unique_reqs(r@.reqs),
        unique_tests(r@.tests),
        r.summary.covered_requirements + r.summary.uncovered_requirements
            == r.summary.total_requirements,
        r.summary.by_priority@.len() == 4,
{
    let ghost g = extraction@;
    let mut requirements = extraction.requirements;
    let tests = extraction.tests;
    let mut errors = extraction.errors;
    build_coverage_links(&mut requirements, &tests, &mut errors);
    proof {
        lemma_link_tests(Linked { reqs: g.reqs, errors: g.errors }, g.tests);
    }
    check_uncovered_requirements(&requirements, &mut errors, config);
    let summary = compute_summary(&requirements);
    CoverageReport { requirements, tests, summary, errors }
}

/// Extracts and validates a program, with the default thresholds unless a
/// configuration is given.
pub fn validate_program(program: &Program, config: Option<ValidatorConfig>) -> (r: CoverageReport)
    ensures
        r@ == validated(
            extracted(*program),
            match config {
                Some(c) => c,
                None => ValidatorConfig {
                    error_min_priority: Priority::Critical,
                    warning_min_priority: Priority::High,
                },
            },
        ),
{
    let config = match config {
        Some(c) => c,
        None => ValidatorConfig::default_config(),
    };
    let extraction = extract(program);
    validate(extraction, &config)
}

/// Some error has the default severity `Error`.
pub open spec fn has_error_severity(errors: Seq<ErrorView>) -> bool {
    exists|k: int| 0 <= k < errors.len() && default_severity(#[trigger] errors[k]) == Severity::Error
}

/// Whether the report holds an error of severity `Error`.
pub fn has_coverage_errors(report: &CoverageReport) -> (r: bool)
    ensures
        r == has_error_severity(report@.errors),
{
    let ghost es = error_views(report.errors@);
    let mut i: usize = 0;
    while i < report.errors.len()
        invariant
            i <= report.errors@.len(),
            es == error_views(report.errors@),
            forall|k: int| 0 <= k < i ==> default_severity(#[trigger] es[k]) != Severity::Error,
        decreases report.errors@.len() - i,
    {
        if report.errors[i].severity() == Severity::Error {
            assert(default_severity(es[i as int]) == Severity::Error);
            return true;
        }
        i = i + 1;
    }
    false
}

/// The errors of severity `Error`, in order.
pub open spec fn failures(errors: Seq<ErrorView>) -> Seq<ErrorView>
    decreases errors.len(),
{
    if errors.len() == 0 {
        errors
    } else if default_severity(errors.last()) == Severity::Error {
        failures(errors.drop_last()).push(errors.last())
    } else {
        failures(errors.drop_last())
    }
}

/// Copies of the errors that are actual failures (severity `Error`).
pub fn get_failures(report: &CoverageReport) -> (r: Vec<RequirementError>)
    ensures
        error_views(r@) == failures(report@.errors),
{
    let ghost es = error_views(report.errors@);
    let mut r: Vec<RequirementError> = Vec::new();
    let mut i: usize = 0;
    while i < report.errors.len()
        invariant
            i <= report.errors@.len(),
            es == error_views(report.errors@),
            error_views(r@) == failures(es.subrange(0, i as int)),
        decreases report.errors@.len() - i,
    {
        proof {
            let q = es.subrange(0, i + 1);
            assert(q.drop_last() =~= es.subrange(0, i as int));
        }
        if report.errors[i].severity() == Severity::Error {
            let e = report.errors[i].duplicate();
            let ghost before = error_views(r@);
            r.push(e);
            assert(error_views(r@) =~= before.push(e@));
        }
        i = i + 1;
    }
    assert(es.subrange(0, i as int) =~= es);
    r
}

/// The summary's counts add up: every requirement is covered or not.
pub proof fn lemma_coverage_law(s: Seq<ReqView>)
    requires
        s.len() <= usize::MAX,
    ensures
        summary_of(s).covered + summary_of(s).uncovered == summary_of(s).total,
        summary_of(s).covered <= summary_of(s).total,
        forall|p: Priority|
            (#[trigger] priority_counts(s, p)).covered + priority_counts(s, p).uncovered
                == priority_counts(s, p).total,
{
    lemma_counts_bounded(s, Priority::Critical);
    assert forall|p: Priority|
        (#[trigger] priority_counts(s, p)).covered + priority_counts(s, p).uncovered
            == priority_counts(s, p).total by {
        lemma_counts_bounded(s, p);
    }
}

/// The requirements of `s` that no test covers, in order.
pub open spec fn without_tests(s: Seq<ReqView>) -> Seq<ReqView>
    decreases s.len(),
{
    if s.len() == 0 {
        s
    } else if s.last().covered_by.len() == 0 {
        without_tests(s.drop_last()).push(s.last())
    } else {
        without_tests(s.drop_last())
    }
}

/// The uncovered-requirement errors of `s`, in order.
pub open spec fn only_uncovered(s: Seq<ErrorView>) -> Seq<ErrorView>
    decreases s.len(),
{
    if s.len() == 0 {
        s
    } else if s.last() is UncoveredRequirement {
        only_uncovered(s.drop_last()).push(s.last())
    } else {
        only_uncovered(s.drop_last())
    }
}

fn copy_requirement(r: &RequirementInfo) -> (c: RequirementInfo)
    ensures
        c@ == r@,
{
    RequirementInfo {
        id: r.id.clone(),
        text: copy_opt_string(&r.text),
        priority: r.priority,
        status: r.status,
        snippet_id: r.snippet_id.clone(),
        covered_by: copy_strings(&r.covered_by),
        span: r.span,
    }
}

/// The report restricted to requirements without tests and to
/// uncovered-requirement errors; it lists no tests and keeps the summary.
pub fn filter_uncovered(report: &CoverageReport) -> (r: CoverageReport)
    ensures
        r@.reqs == without_tests(report@.reqs),
        r@.tests.len() == 0,
        r@.summary == report@.summary,
        r@.errors == only_uncovered(report@.errors),
{
    let ghost rs = req_views(report.requirements@);
    let mut reqs: Vec<RequirementInfo> = Vec::new();
    let mut i: usize = 0;
    while i < report.requirements.len()
        invariant
            i <= report.requirements@.len(),
            rs == req_views(report.requirements@),
            req_views(reqs@) == without_tests(rs.subrange(0, i as int)),
        decreases report.requirements@.len() - i,
    {
        proof {
            let q = rs.subrange(0, i + 1);
            assert(q.drop_last() =~= rs.subrange(0, i as int));
        }
        if report.requirements[i].covered_by.len() == 0 {
            let c = copy_requirement(&report.requirements[i]);
            let ghost before = req_views(reqs@);
            reqs.push(c);
            assert(req_views(reqs@) =~= before.push(c@));
        }
        i = i + 1;
    }
    assert(rs.subrange(0, i as int) =~= rs);
    let ghost es = error_views(report.errors@);
    let mut errors: Vec<RequirementError> = Vec::new();
    let mut j: usize = 0;
    while j < report.errors.len()
        invariant
            j <= report.errors@.len(),
            es == error_views(report.errors@),
            error_views(errors@) == only_uncovered(es.subrange(0, j as int)),
        decreases report.errors@.len() - j,
    {
        proof {
            let q = es.subrange(0, j + 1);
            assert(q.drop_last() =~= es.subrange(0, j as int));
        }
        let keep = match &report.errors[j] {
            RequirementError::UncoveredRequirement { .. } => true,
            _ => false,
        };
        if keep {
            let e = report.errors[j].duplicate();
            let ghost before = error_views(errors@);
            errors.push(e);
            assert(error_views(errors@) =~= before.push(e@));
        }
        j = j + 1;
    }
    assert(es.subrange(0, j as int) =~= es);
    let tests: Vec<TestInfo> = Vec::new();
    assert(test_views(tests@) =~= Seq::<TestView>::empty());
    CoverageReport { requirements: reqs, tests, summary: report.summary.duplicate(), errors }
}

} // verus!
