use covenant::ast::{Priority, Program, ReqStatus, Requirement, Section, Snippet, Span, TestDecl, TestKind};
use covenant::report::ReportFormat;
use covenant::requirements::{
    CoverageSummary, RequirementError, RequirementInfo, Severity, TestInfo, ValidatorConfig,
};
use covenant::validator::{
    build_coverage_links, compute_summary, extract, filter_uncovered, get_failures,
    has_coverage_errors, validate, validate_program, CoverageReport,
};

fn make_req(id: &str, priority: Priority) -> RequirementInfo {
    RequirementInfo {
        id: id.to_string(),
        text: Some(format!("Requirement {}", id)),
        priority,
        status: ReqStatus::Draft,
        snippet_id: "test.fn".to_string(),
        covered_by: Vec::new(),
        span: Span { start: 0, end: 0 },
    }
}

fn make_test(id: &str, covers: Vec<&str>) -> TestInfo {
    TestInfo {
        id: id.to_string(),
        kind: TestKind::Unit,
        covers: covers.into_iter().map(String::from).collect(),
        snippet_id: "test.fn".to_string(),
        span: Span { start: 0, end: 0 },
    }
}

fn find<'a>(reqs: &'a [RequirementInfo], id: &str) -> &'a RequirementInfo {
    reqs.iter().find(|r| r.id == id).unwrap()
}

fn req(id: &str, priority: Option<Priority>) -> Requirement {
    Requirement { id: id.to_string(), text: None, priority, status: None, span: Span::new(1, 2) }
}

fn test_decl(id: &str, covers: &[&str]) -> TestDecl {
    TestDecl {
        id: id.to_string(),
        kind: TestKind::Unit,
        covers: covers.iter().map(|c| c.to_string()).collect(),
        span: Span::new(3, 4),
    }
}

fn snippet(id: &str, sections: Vec<Section>) -> Snippet {
    Snippet { id: id.to_string(), kind: "fn".to_string(), sections, span: Span::new(0, 0) }
}

#[test]
fn test_coverage_links_single() {
    let mut requirements = vec![make_req("R-001", Priority::High)];
    let tests = vec![make_test("T-001", vec!["R-001"])];
    let mut errors = Vec::new();
    build_coverage_links(&mut requirements, &tests, &mut errors);

    assert!(errors.is_empty());
    assert_eq!(find(&requirements, "R-001").covered_by, vec!["T-001"]);
}

#[test]
fn test_coverage_links_multiple_tests() {
    let mut requirements = vec![make_req("R-001", Priority::High)];
    let tests = vec![make_test("T-001", vec!["R-001"]), make_test("T-002", vec!["R-001"])];
    let mut errors = Vec::new();
    build_coverage_links(&mut requirements, &tests, &mut errors);

    assert!(errors.is_empty());
    let covered = &find(&requirements, "R-001").covered_by;
    assert_eq!(covered.len(), 2);
    assert!(covered.contains(&"T-001".to_string()));
    assert!(covered.contains(&"T-002".to_string()));
}

#[test]
fn validator_test_nonexistent_requirement_reference() {
    let mut requirements = Vec::new();
    let tests = vec![make_test("T-001", vec!["R-001"])];
    let mut errors = Vec::new();
    build_coverage_links(&mut requirements, &tests, &mut errors);

    assert_eq!(errors.len(), 1);
    assert!(matches!(&errors[0],
        RequirementError::NonexistentRequirement { test_id, req_id, .. }
        if test_id == "T-001" && req_id == "R-001"
    ));
}

#[test]
fn test_summary_all_covered() {
    let mut req = make_req("R-001", Priority::High);
    req.covered_by = vec!["T-001".to_string()];
    let requirements = vec![req];

    let summary = compute_summary(&requirements);

    assert_eq!(summary.total_requirements, 1);
    assert_eq!(summary.covered_requirements, 1);
    assert_eq!(summary.uncovered_requirements, 0);
    assert_eq!(summary.coverage_percent_hundredths(), 10000);
}

#[test]
fn test_summary_none_covered() {
    let requirements = vec![make_req("R-001", Priority::High), make_req("R-002", Priority::Low)];

    let summary = compute_summary(&requirements);

    assert_eq!(summary.total_requirements, 2);
    assert_eq!(summary.covered_requirements, 0);
    assert_eq!(summary.uncovered_requirements, 2);
    assert_eq!(summary.coverage_percent_hundredths(), 0);
}

#[test]
fn test_summary_partial_coverage() {
    let mut req1 = make_req("R-001", Priority::High);
    req1.covered_by = vec!["T-001".to_string()];
    let requirements = vec![req1, make_req("R-002", Priority::Low)];

    let summary = compute_summary(&requirements);

    assert_eq!(summary.total_requirements, 2);
    assert_eq!(summary.covered_requirements, 1);
    assert_eq!(summary.uncovered_requirements, 1);
    assert_eq!(summary.coverage_percent_hundredths(), 5000);
}

#[test]
fn test_summary_by_priority() {
    let requirements = vec![
        make_req("R-001", Priority::Critical),
        make_req("R-002", Priority::High),
        make_req("R-003", Priority::High),
    ];

    let summary = compute_summary(&requirements);

    assert_eq!(summary.for_priority(Priority::Critical).total, 1);
    assert_eq!(summary.for_priority(Priority::High).total, 2);
    assert_eq!(summary.for_priority(Priority::Medium).total, 0);
    assert_eq!(summary.for_priority(Priority::Low).total, 0);
}

#[test]
fn test_summary_empty() {
    let requirements = Vec::new();
    let summary = compute_summary(&requirements);

    assert_eq!(summary.total_requirements, 0);
    assert_eq!(summary.coverage_percent_hundredths(), 10000);
}

#[test]
fn test_filter_uncovered() {
    let mut req1 = make_req("R-001", Priority::High);
    req1.covered_by = vec!["T-001".to_string()];
    let requirements = vec![req1, make_req("R-002", Priority::Low)];

    let report = CoverageReport {
        requirements,
        tests: Vec::new(),
        summary: CoverageSummary {
            total_requirements: 2,
            covered_requirements: 1,
            uncovered_requirements: 1,
            by_priority: Vec::new(),
        },
        errors: vec![RequirementError::UncoveredRequirement {
            id: "R-002".to_string(),
            priority: Priority::Low,
            snippet_id: "test.fn".to_string(),
            span: Span { start: 0, end: 0 },
        }],
    };

    let filtered = filter_uncovered(&report);

    assert_eq!(filtered.requirements.len(), 1);
    assert!(filtered.requirements.iter().any(|r| r.id == "R-002"));
    assert!(!filtered.requirements.iter().any(|r| r.id == "R-001"));
}

#[test]
fn test_format_parsing() {
    assert_eq!("text".parse::<ReportFormat>().unwrap(), ReportFormat::Text);
    assert_eq!("txt".parse::<ReportFormat>().unwrap(), ReportFormat::Text);
    assert_eq!("json".parse::<ReportFormat>().unwrap(), ReportFormat::Json);
    assert_eq!("markdown".parse::<ReportFormat>().unwrap(), ReportFormat::Markdown);
    assert_eq!("md".parse::<ReportFormat>().unwrap(), ReportFormat::Markdown);
    assert!("invalid".parse::<ReportFormat>().is_err());
}

#[test]
fn format_names_ignore_letter_case() {
    assert_eq!("JSON".parse::<ReportFormat>().unwrap(), ReportFormat::Json);
    assert_eq!("MarkDown".parse::<ReportFormat>().unwrap(), ReportFormat::Markdown);
    assert_eq!(
        "Html".parse::<ReportFormat>().err().unwrap(),
        "Unknown format: Html. Expected: text, json, or markdown"
    );
}

#[test]
fn coverage_scenario_two_snippets() {
    let program = Program::Snippets(vec![
        snippet("a.fn", vec![Section::Requires(vec![req("R-001", Some(Priority::High))])]),
        snippet(
            "b.fn",
            vec![Section::Tests(vec![
                test_decl("T-001", &["R-001"]),
                test_decl("T-002", &["R-NONEXISTENT"]),
            ])],
        ),
    ]);
    let report = validate_program(&program, None);
    assert_eq!(find(&report.requirements, "R-001").covered_by, vec!["T-001"]);
    assert_eq!(report.errors.len(), 1);
    assert!(matches!(&report.errors[0],
        RequirementError::NonexistentRequirement { test_id, req_id, snippet_id, .. }
        if test_id == "T-002" && req_id == "R-NONEXISTENT" && snippet_id == "b.fn"));
    assert_eq!(report.summary.coverage_percent_hundredths(), 10000);
    assert!(has_coverage_errors(&report));
    assert_eq!(get_failures(&report).len(), 1);
}

#[test]
fn duplicates_keep_the_first_and_are_reported() {
    let program = Program::Snippets(vec![
        snippet(
            "a.fn",
            vec![
                Section::Requires(vec![req("R-001", None)]),
                Section::Tests(vec![test_decl("T-001", &[])]),
            ],
        ),
        snippet(
            "b.fn",
            vec![
                Section::Requires(vec![req("R-001", Some(Priority::Low))]),
                Section::Tests(vec![test_decl("T-001", &["R-001"])]),
            ],
        ),
    ]);
    let ex = extract(&program);
    assert_eq!(ex.requirements.len(), 1);
    assert_eq!(ex.requirements[0].priority, Priority::Medium);
    assert_eq!(ex.requirements[0].status, ReqStatus::Draft);
    assert_eq!(ex.requirements[0].snippet_id, "a.fn");
    assert_eq!(ex.tests.len(), 1);
    assert_eq!(ex.errors.len(), 2);
    assert!(matches!(&ex.errors[0],
        RequirementError::DuplicateRequirement { id, first, second, .. }
        if id == "R-001" && first == "a.fn" && second == "b.fn"));
    assert_eq!(ex.errors[0].code(), "E-REQ-003");
    assert_eq!(ex.errors[1].code(), "E-REQ-004");
    assert_eq!(
        ex.errors[1].message(),
        "duplicate test ID 'T-001' found in snippets 'a.fn' and 'b.fn'"
    );
    assert!(extract(&Program::Legacy).requirements.is_empty());
}

#[test]
fn uncovered_threshold_follows_warning_priority() {
    let program = Program::Snippets(vec![snippet(
        "a.fn",
        vec![
            Section::Requires(vec![
                req("R-C", Some(Priority::Critical)),
                req("R-H", Some(Priority::High)),
                req("R-M", Some(Priority::Medium)),
                req("R-L", Some(Priority::Low)),
                req("R-COV", Some(Priority::Critical)),
            ]),
            Section::Tests(vec![test_decl("T-1", &["R-COV", "R-COV"])]),
        ],
    )]);
    let report = validate(extract(&program), &ValidatorConfig::default_config());
    let uncovered: Vec<&str> = report
        .errors
        .iter()
        .filter_map(|e| match e {
            RequirementError::UncoveredRequirement { id, .. } => Some(id.as_str()),
            _ => None,
        })
        .collect();
    assert_eq!(uncovered, vec!["R-C", "R-H"]);
    assert_eq!(find(&report.requirements, "R-COV").covered_by, vec!["T-1"]);
    let strict = validate_program(&program, Some(ValidatorConfig::strict()));
    assert_eq!(strict.errors.len(), 4);
    assert!(strict.errors.iter().all(|e| e.severity_with_config(&ValidatorConfig::strict()) == Severity::Error));
    let sev: Vec<Severity> = strict.errors.iter().map(|e| e.severity()).collect();
    assert_eq!(sev, vec![Severity::Error, Severity::Warning, Severity::Info, Severity::Info]);
    assert_eq!(strict.summary.covered_requirements + strict.summary.uncovered_requirements, 5);
    assert_eq!(strict.summary.coverage_percent_hundredths(), 2000);
    assert_eq!(
        strict.errors[0].message(),
        "uncovered requirement 'R-C' (priority: Critical) in snippet 'a.fn'"
    );
    assert_eq!(strict.errors[0].span(), Span::new(1, 2));
    let only = filter_uncovered(&strict);
    assert_eq!(only.requirements.len(), 4);
    assert!(only.tests.is_empty());
    assert_eq!(only.errors.len(), 4);
}

#[test]
fn configured_severity_thresholds() {
    let cfg = ValidatorConfig { error_min_priority: Priority::High, warning_min_priority: Priority::Medium };
    let e = |p| RequirementError::UncoveredRequirement {
        id: "R".to_string(),
        priority: p,
        snippet_id: "s".to_string(),
        span: Span::new(0, 0),
    };
    assert_eq!(e(Priority::High).severity_with_config(&cfg), Severity::Error);
    assert_eq!(e(Priority::Medium).severity_with_config(&cfg), Severity::Warning);
    assert_eq!(e(Priority::Low).severity_with_config(&cfg), Severity::Info);
    assert_eq!(covenant::requirements::priority_ord(Priority::Low), 3);
}
