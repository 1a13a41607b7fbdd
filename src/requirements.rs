//! Requirements, tests and the coverage report that links them, with the
//! error taxonomy of the validator.

use vstd::prelude::*;
use crate::ast::{Priority, ReqStatus, Span, TestKind};
use crate::store::opt_view;
use crate::text::{concat, push_str, strs};
use vstd::arithmetic::div_mod::{lemma_div_by_multiple, lemma_div_is_ordered};

verus! {

/// A requirement as the validator holds it.
#[derive(Debug)]
pub struct RequirementInfo {
    /// Requirement id, such as "R-001".
    pub id: String,
    pub text: Option<String>,
    pub priority: Priority,
    pub status: ReqStatus,
    /// Id of the snippet that declares it.
    pub snippet_id: String,
    /// Ids of the tests that cover it, each once.
    pub covered_by: Vec<String>,
    pub span: Span,
}

/// The mathematical value of a [`RequirementInfo`].
pub struct ReqView {
    pub id: Seq<char>,
    pub text: Option<Seq<char>>,
    pub priority: Priority,
    pub status: ReqStatus,
    pub snippet_id: Seq<char>,
    pub covered_by: Seq<Seq<char>>,
    pub span: Span,
}

impl View for RequirementInfo {
    type V = ReqView;

    open spec fn view(&self) -> ReqView {
        ReqView {
            id: self.id@,
            text: opt_view(self.text),
            priority: self.priority,
            status: self.status,
            snippet_id: self.snippet_id@,
            covered_by: strs(self.covered_by@),
            span: self.span,
        }
    }
}

/// A test as the validator holds it.
#[derive(Debug)]
pub struct TestInfo {
    /// Test id, such as "T-001".
    pub id: String,
    pub kind: TestKind,
    /// Ids of the requirements it claims to cover.
    pub covers: Vec<String>,
    /// Id of the snippet that declares it.
    pub snippet_id: String,
    pub span: Span,
}

/// The mathematical value of a [`TestInfo`].
pub struct TestView {
    pub id: Seq<char>,
    pub kind: TestKind,
    pub covers: Seq<Seq<char>>,
    pub snippet_id: Seq<char>,
    pub span: Span,
}

impl View for TestInfo {
    type V = TestView;

    open spec fn view(&self) -> TestView {
        TestView {
            id: self.id@,
            kind: self.kind,
            covers: strs(self.covers@),
            snippet_id: self.snippet_id@,
            span: self.span,
        }
    }
}

/// Counts for the requirements of one priority.
#[derive(Clone, Copy, Debug, PartialEq, Eq, Structural)]
pub struct PrioritySummary {
    pub total: usize,
    pub covered: usize,
    pub uncovered: usize,
}

/// Counts over all requirements.
#[derive(Debug)]
pub struct CoverageSummary {
    pub total_requirements: usize,
    pub covered_requirements: usize,
    pub uncovered_requirements: usize,
    /// Counts per priority, Critical, High, Medium and Low in that order.
    pub by_priority: Vec<PrioritySummary>,
}

/// The coverage percentage in hundredths of a percent, rounded down: 10000
/// when there are no requirements.
pub open spec fn percent_hundredths(covered: nat, total: nat) -> nat {
    if total == 0 {
        10000
    } else {
        (10000 * covered) / total
    }
}

impl CoverageSummary {
    /// `100 * covered / total` percent, in hundredths of a percent rounded
    /// down; 100% when there are no requirements.
    pub fn coverage_percent_hundredths(&self) -> (r: u64)
        requires
            self.covered_requirements <= self.total_requirements,
        ensures
            r == percent_hundredths(
                self.covered_requirements as nat,
                self.total_requirements as nat,
            ),
    {
        if self.total_requirements == 0 {
            10000
        } else {
            let c = self.covered_requirements as u128;
            let t = self.total_requirements as u128;
            assert(c * 10000 <= 10000 * t) by (nonlinear_arith)
                requires
                    c <= t,
            ;
            let q = (c * 10000) / t;
            proof {
                lemma_div_is_ordered(c * 10000, 10000 * t, t as int);
                lemma_div_by_multiple(10000, t as int);
            }
            assert(c * 10000 == 10000 * c);
            q as u64
        }
    }

    /// The counts for one priority.
    pub fn for_priority(&self, p: Priority) -> (r: PrioritySummary)
        requires
            self.by_priority@.len() == 4,
        ensures
            r == self.by_priority@[ord(p) as int],
    {
        self.by_priority[priority_ord(p) as usize]
    }

    /// A copy of the summary.
    pub fn duplicate(&self) -> (r: CoverageSummary)
        ensures
            r.total_requirements == self.total_requirements,
            r.covered_requirements == self.covered_requirements,
            r.uncovered_requirements == self.uncovered_requirements,
            r.by_priority@ == self.by_priority@,
    {
        let mut v: Vec<PrioritySummary> = Vec::new();
        let mut i: usize = 0;
        while i < self.by_priority.len()
            invariant
                i <= self.by_priority@.len(),
                v@ == self.by_priority@.subrange(0, i as int),
            decreases self.by_priority@.len() - i,
        {
            v.push(self.by_priority[i]);
            i = i + 1;
            assert(v@ =~= self.by_priority@.subrange(0, i as int));
        }
        assert(v@ =~= self.by_priority@);
        CoverageSummary {
            total_requirements: self.total_requirements,
            covered_requirements: self.covered_requirements,
            uncovered_requirements: self.uncovered_requirements,
            by_priority: v,
        }
    }
}

/// Rank of a priority: 0 for Critical up to 3 for Low.
pub open spec fn ord(p: Priority) -> u8 {
    match p {
        Priority::Critical => 0,
        Priority::High => 1,
        Priority::Medium => 2,
        Priority::Low => 3,
    }
}

/// Rank of a priority for comparison; a lower rank is a higher priority.
pub fn priority_ord(p: Priority) -> (r: u8)
    ensures
        r == ord(p),
{
    match p {
        Priority::Critical => 0,
        Priority::High => 1,
        Priority::Medium => 2,
        Priority::Low => 3,
    }
}

/// An error found while validating requirement coverage.
#[derive(Debug)]
pub enum RequirementError {
    /// A requirement that no test covers.
    UncoveredRequirement { id: String, priority: Priority, snippet_id: String, span: Span },
    /// A test that covers a requirement that does not exist.
    NonexistentRequirement { test_id: String, req_id: String, snippet_id: String, span: Span },
    /// A requirement id declared twice; `first` and `second` are the snippets.
    DuplicateRequirement { id: String, first: String, second: String, span: Span },
    /// A test id declared twice; `first` and `second` are the snippets.
    DuplicateTest { id: String, first: String, second: String, span: Span },
}

/// The mathematical value of a [`RequirementError`].
pub enum ErrorView {
    UncoveredRequirement { id: Seq<char>, priority: Priority, snippet_id: Seq<char>, span: Span },
    NonexistentRequirement {
        test_id: Seq<char>,
        req_id: Seq<char>,
        snippet_id: Seq<char>,
        span: Span,
    },
    DuplicateRequirement { id: Seq<char>, first: Seq<char>, second: Seq<char>, span: Span },
    DuplicateTest { id: Seq<char>, first: Seq<char>, second: Seq<char>, span: Span },
}

impl View for RequirementError {
    type V = ErrorView;

    open spec fn view(&self) -> ErrorView {
        match self {
            RequirementError::UncoveredRequirement { id, priority, snippet_id, span } => {
                ErrorView::UncoveredRequirement {
                    id: id@,
                    priority: *priority,
                    snippet_id: snippet_id@,
                    span: *span,
                }
            },
            RequirementError::NonexistentRequirement { test_id, req_id, snippet_id, span } => {
                ErrorView::NonexistentRequirement {
                    test_id: test_id@,
                    req_id: req_id@,
                    snippet_id: snippet_id@,
                    span: *span,
                }
            },
            RequirementError::DuplicateRequirement { id, first, second, span } => {
                ErrorView::DuplicateRequirement {
                    id: id@,
                    first: first@,
                    second: second@,
                    span: *span,
                }
            },
            RequirementError::DuplicateTest { id, first, second, span } => {
                ErrorView::DuplicateTest { id: id@, first: first@, second: second@, span: *span }
            },
        }
    }
}

/// The values of a sequence of errors.
pub open spec fn error_views(s: Seq<RequirementError>) -> Seq<ErrorView> {
    s.map_values(|e: RequirementError| e@)
}

/// How much an error matters.
#[derive(Clone, Copy, Debug, PartialEq, Eq, Structural)]
pub enum Severity {
    Error,
    Warning,
    Info,
}

/// Default severity: an uncovered Critical requirement is an error, a High
/// one a warning, the others information; every other kind is an error.
pub open spec fn default_severity(e: ErrorView) -> Severity {
    match e {
        ErrorView::UncoveredRequirement { priority, .. } => match priority {
            Priority::Critical => Severity::Error,
            Priority::High => Severity::Warning,
            _ => Severity::Info,
        },
        _ => Severity::Error,
    }
}

/// Severity under thresholds: an uncovered requirement ranked at or above
/// `error_min` is an error, else at or above `warning_min` a warning, else
/// information; every other kind is an error.
pub open spec fn configured_severity(e: ErrorView, error_min: Priority, warning_min: Priority) -> Severity {
    match e {
        ErrorView::UncoveredRequirement { priority, .. } => if ord(priority) <= ord(error_min) {
            Severity::Error
        } else if ord(priority) <= ord(warning_min) {
            Severity::Warning
        } else {
            Severity::Info
        },
        _ => Severity::Error,
    }
}

/// Which uncovered requirements are errors and which warnings.
#[derive(Clone, Copy, Debug, PartialEq, Eq, Structural)]
pub struct ValidatorConfig {
    /// Uncovered requirements ranked at or above this are errors.
    pub error_min_priority: Priority,
    /// Uncovered requirements ranked at or above this (and below the error
    /// threshold) are warnings; those below it are not reported.
    pub warning_min_priority: Priority,
}

impl ValidatorConfig {
    /// Critical is an error, High a warning, the rest not reported.
    pub fn default_config() -> (r: ValidatorConfig)
        ensures
            r.error_min_priority == Priority::Critical,
            r.warning_min_priority == Priority::High,
    {
        ValidatorConfig { error_min_priority: Priority::Critical, warning_min_priority: Priority::High }
    }

    /// Every uncovered requirement is an error.
    pub fn strict() -> (r: ValidatorConfig)
        ensures
            r.error_min_priority == Priority::Low,
            r.warning_min_priority == Priority::Low,
    {
        ValidatorConfig { error_min_priority: Priority::Low, warning_min_priority: Priority::Low }
    }
}

impl Default for ValidatorConfig {
    fn default() -> (r: ValidatorConfig)
        ensures
            r.error_min_priority == Priority::Critical,
            r.warning_min_priority == Priority::High,
    {
        ValidatorConfig::default_config()
    }
}

/// Stable code of each error kind.
pub open spec fn error_code(e: ErrorView) -> Seq<char> {
    match e {
        ErrorView::UncoveredRequirement { .. } => "E-REQ-001"@,
        ErrorView::NonexistentRequirement { .. } => "E-REQ-002"@,
        ErrorView::DuplicateRequirement { .. } => "E-REQ-003"@,
        ErrorView::DuplicateTest { .. } => "E-REQ-004"@,
    }
}

/// Name of a priority.
pub open spec fn priority_name(p: Priority) -> Seq<char> {
    match p {
        Priority::Critical => "Critical"@,
        Priority::High => "High"@,
        Priority::Medium => "Medium"@,
        Priority::Low => "Low"@,
    }
}

/// The name of a priority.
pub fn priority_label(p: Priority) -> (r: &'static str)
    ensures
        r@ == priority_name(p),
{
    match p {
        Priority::Critical => "Critical",
        Priority::High => "High",
        Priority::Medium => "Medium",
        Priority::Low => "Low",
    }
}

impl RequirementError {
    /// The error's stable code.
    pub fn code(&self) -> (r: &'static str)
        ensures
            r@ == error_code(self@),
    {
        match self {
            RequirementError::UncoveredRequirement { .. } => "E-REQ-001",
            RequirementError::NonexistentRequirement { .. } => "E-REQ-002",
            RequirementError::DuplicateRequirement { .. } => "E-REQ-003",
            RequirementError::DuplicateTest { .. } => "E-REQ-004",
        }
    }

    /// Severity with the default thresholds.
    pub fn severity(&self) -> (r: Severity)
        ensures
            r == default_severity(self@),
    {
        match self {
            RequirementError::UncoveredRequirement { priority, .. } => match priority {
                Priority::Critical => Severity::Error,
                Priority::High => Severity::Warning,
                _ => Severity::Info,
            },
            RequirementError::NonexistentRequirement { .. } => Severity::Error,
            RequirementError::DuplicateRequirement { .. } => Severity::Error,
            RequirementError::DuplicateTest { .. } => Severity::Error,
        }
    }

    /// The source span the error points at.
    pub fn span(&self) -> (r: Span)
        ensures
            r == match self@ {
                ErrorView::UncoveredRequirement { span, .. } => span,
                ErrorView::NonexistentRequirement { span, .. } => span,
                ErrorView::DuplicateRequirement { span, .. } => span,
                ErrorView::DuplicateTest { span, .. } => span,
            },
    {
        match self {
            RequirementError::UncoveredRequirement { span, .. } => *span,
            RequirementError::NonexistentRequirement { span, .. } => *span,
            RequirementError::DuplicateRequirement { span, .. } => *span,
            RequirementError::DuplicateTest { span, .. } => *span,
        }
    }

    /// Severity under the thresholds of a configuration.
    pub fn severity_with_config(&self, config: &ValidatorConfig) -> (r: Severity)
        ensures
            r == configured_severity(
                self@,
                config.error_min_priority,
                config.warning_min_priority,
            ),
    {
        match self {
            RequirementError::UncoveredRequirement { priority, .. } => {
                let prio = priority_ord(*priority);
                let error_threshold = priority_ord(config.error_min_priority);
                let warning_threshold = priority_ord(config.warning_min_priority);
                if prio <= error_threshold {
                    Severity::Error
                } else if prio <= warning_threshold {
                    Severity::Warning
                } else {
                    Severity::Info
                }
            },
            RequirementError::NonexistentRequirement { .. } => Severity::Error,
            RequirementError::DuplicateRequirement { .. } => Severity::Error,
            RequirementError::DuplicateTest { .. } => Severity::Error,
        }
    }

    /// A copy of the error.
    pub fn duplicate(&self) -> (r: RequirementError)
        ensures
            r@ == self@,
    {
        match self {
            RequirementError::UncoveredRequirement { id, priority, snippet_id, span } => {
                RequirementError::UncoveredRequirement {
                    id: id.clone(),
                    priority: *priority,
                    snippet_id: snippet_id.clone(),
                    span: *span,
                }
            },
            RequirementError::NonexistentRequirement { test_id, req_id, snippet_id, span } => {
                RequirementError::NonexistentRequirement {
                    test_id: test_id.clone(),
                    req_id: req_id.clone(),
                    snippet_id: snippet_id.clone(),
                    span: *span,
                }
            },
            RequirementError::DuplicateRequirement { id, first, second, span } => {
                RequirementError::DuplicateRequirement {
                    id: id.clone(),
                    first: first.clone(),
                    second: second.clone(),
                    span: *span,
                }
            },
            RequirementError::DuplicateTest { id, first, second, span } => {
                RequirementError::DuplicateTest {
                    id: id.clone(),
                    first: first.clone(),
                    second: second.clone(),
                    span: *span,
                }
            },
        }
    }

    /// The text that describes the error.
    pub fn message(&self) -> (r: String)
        ensures
            r@ == error_message(self@),
    {
        match self {
            RequirementError::UncoveredRequirement { id, priority, snippet_id, .. } => {
                let mut s = concat("uncovered requirement '", id.as_str());
                push_str(&mut s, "' (priority: ");
                push_str(&mut s, priority_label(*priority));
                push_str(&mut s, ") in snippet '");
                push_str(&mut s, snippet_id.as_str());
                push_str(&mut s, "'");
                s
            },
            RequirementError::NonexistentRequirement { test_id, req_id, snippet_id, .. } => {
                let mut s = concat("test '", test_id.as_str());
                push_str(&mut s, "' references nonexistent requirement '");
                push_str(&mut s, req_id.as_str());
                push_str(&mut s, "' in snippet '");
                push_str(&mut s, snippet_id.as_str());
                push_str(&mut s, "'");
                s
            },
            RequirementError::DuplicateRequirement { id, first, second, .. } => {
                let mut s = concat("duplicate requirement ID '", id.as_str());
                push_str(&mut s, "' found in snippets '");
                push_str(&mut s, first.as_str());
                push_str(&mut s, "' and '");
                push_str(&mut s, second.as_str());
                push_str(&mut s, "'");
                s
            },
            RequirementError::DuplicateTest { id, first, second, .. } => {
                let mut s = concat("duplicate test ID '", id.as_str());
                push_str(&mut s, "' found in snippets '");
                push_str(&mut s, first.as_str());
                push_str(&mut s, "' and '");
                push_str(&mut s, second.as_str());
                push_str(&mut s, "'");
                s
            },
        }
    }
}

/// The text of each error kind.
pub open spec fn error_message(e: ErrorView) -> Seq<char> {
    match e {
        ErrorView::UncoveredRequirement { id, priority, snippet_id, .. } => "uncovered requirement '"@
            + id + "' (priority: "@ + priority_name(priority) + ") in snippet '"@ + snippet_id
            + "'"@,
        ErrorView::NonexistentRequirement { test_id, req_id, snippet_id, .. } => "test '"@ + test_id
            + "' references nonexistent requirement '"@ + req_id + "' in snippet '"@ + snippet_id
            + "'"@,
        ErrorView::DuplicateRequirement { id, first, second, .. } => "duplicate requirement ID '"@
            + id + "' found in snippets '"@ + first + "' and '"@ + second + "'"@,
        ErrorView::DuplicateTest { id, first, second, .. } => "duplicate test ID '"@ + id
            + "' found in snippets '"@ + first + "' and '"@ + second + "'"@,
    }
}

} // verus!
