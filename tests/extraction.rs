use covenant::ast::Priority;
use covenant::parser::parse;
use covenant::requirements::RequirementError;
use covenant::validator::{extract, has_coverage_errors, validate_program};

#[test]
fn test_extract_empty_snippets_program() {
    let source = "";
    // Empty source should parse as empty program
    let result = parse(source);
    // Parser may fail on empty, which is fine
    if let Ok(program) = result {
        let extraction = extract(&program);
        assert!(extraction.requirements.is_empty());
        assert!(extraction.tests.is_empty());
    }
}

#[test]
fn test_extract_requirements_only() {
    let source = r#"
snippet id="test.fn" kind="fn"

requires
  req id="R-001"
text "First requirement"
priority high
  end
  req id="R-002"
text "Second requirement"
priority low
  end
end

signature
  fn name="test_fn"
returns type="Unit"
  end
end

body
end

end
"#;
    let program = parse(source).ok().unwrap();
    let extraction = extract(&program);

    assert_eq!(extraction.requirements.len(), 2);
    assert!(extraction.requirements.iter().any(|r| r.id == "R-001"));
    assert!(extraction.requirements.iter().any(|r| r.id == "R-002"));
    assert!(extraction.tests.is_empty());
    assert!(extraction.errors.is_empty());

    let r1 = extraction.requirements.iter().find(|r| r.id == "R-001").unwrap();
    assert_eq!(r1.priority, Priority::High);
    assert_eq!(r1.text, Some("First requirement".to_string()));
}

#[test]
fn test_extract_tests_only() {
    let source = r#"
snippet id="test.fn" kind="fn"

signature
  fn name="test_fn"
returns type="Unit"
  end
end

body
end

tests
  test id="T-001" kind="unit" covers="R-001"
  end
  test id="T-002" kind="integration"
  end
end

end
"#;
    let program = parse(source).ok().unwrap();
    let extraction = extract(&program);

    assert!(extraction.requirements.is_empty());
    assert_eq!(extraction.tests.len(), 2);
    assert!(extraction.tests.iter().any(|t| t.id == "T-001"));
    assert!(extraction.tests.iter().any(|t| t.id == "T-002"));

    let t1 = extraction.tests.iter().find(|t| t.id == "T-001").unwrap();
    assert_eq!(t1.covers, vec!["R-001".to_string()]);
}

#[test]
fn test_extract_from_multiple_snippets() {
    let source = r#"
snippet id="a.fn" kind="fn"

requires
  req id="R-A-001"
text "Requirement A"
  end
end

signature
  fn name="fn_a"
returns type="Unit"
  end
end

body
end

end

snippet id="b.fn" kind="fn"

requires
  req id="R-B-001"
text "Requirement B"
  end
end

signature
  fn name="fn_b"
returns type="Unit"
  end
end

body
end

tests
  test id="T-B-001" kind="unit" covers="R-B-001"
  end
end

end
"#;
    let program = parse(source).ok().unwrap();
    let extraction = extract(&program);

    assert_eq!(extraction.requirements.len(), 2);
    assert_eq!(extraction.tests.len(), 1);
    assert!(extraction.requirements.iter().any(|r| r.id == "R-A-001"));
    assert!(extraction.requirements.iter().any(|r| r.id == "R-B-001"));
    assert!(extraction.tests.iter().any(|t| t.id == "T-B-001"));
}

#[test]
fn test_duplicate_requirement_detection() {
    let source = r#"
snippet id="a.fn" kind="fn"

requires
  req id="R-001"
text "First"
  end
end

signature
  fn name="fn_a"
returns type="Unit"
  end
end

body
end

end

snippet id="b.fn" kind="fn"

requires
  req id="R-001"
text "Duplicate"
  end
end

signature
  fn name="fn_b"
returns type="Unit"
  end
end

body
end

end
"#;
    let program = parse(source).ok().unwrap();
    let extraction = extract(&program);

    // First occurrence should be in requirements
    assert_eq!(extraction.requirements.len(), 1);

    // Should have duplicate error
    assert_eq!(extraction.errors.len(), 1);
    assert!(matches!(&extraction.errors[0],
        RequirementError::DuplicateRequirement { id, first, second, .. }
        if id == "R-001" && first == "a.fn" && second == "b.fn"
    ));
}

#[test]
fn test_duplicate_test_detection() {
    let source = r#"
snippet id="a.fn" kind="fn"

signature
  fn name="fn_a"
returns type="Unit"
  end
end

body
end

tests
  test id="T-001" kind="unit"
  end
end

end

snippet id="b.fn" kind="fn"

signature
  fn name="fn_b"
returns type="Unit"
  end
end

body
end

tests
  test id="T-001" kind="integration"
  end
end

end
"#;
    let program = parse(source).ok().unwrap();
    let extraction = extract(&program);

    // First occurrence should be in tests
    assert_eq!(extraction.tests.len(), 1);

    // Should have duplicate error
    assert_eq!(extraction.errors.len(), 1);
    assert!(matches!(&extraction.errors[0],
        RequirementError::DuplicateTest { id, .. }
        if id == "T-001"
    ));
}

#[test]
fn test_extract_single_requirement() {
    let source = r#"
snippet id="test.fn" kind="fn"

requires
  req id="R-001"
text "Test requirement"
priority high
  end
end

signature
  fn name="test_fn"
returns type="Unit"
  end
end

body
end

end
"#;
    let program = parse(source).ok().unwrap();
    let report = validate_program(&program, None);
    assert_eq!(report.requirements.len(), 1);
    assert!(report.requirements.iter().any(|r| r.id == "R-001"));
}

#[test]
fn test_covered_requirement() {
    let source = r#"
snippet id="test.fn" kind="fn"

requires
  req id="R-001"
text "Test requirement"
  end
end

signature
  fn name="test_fn"
returns type="Unit"
  end
end

body
end

tests
  test id="T-001" kind="unit" covers="R-001"
  end
end

end
"#;
    let program = parse(source).ok().unwrap();
    let report = validate_program(&program, None);
    assert_eq!(report.summary.covered_requirements, 1);
    assert_eq!(report.summary.uncovered_requirements, 0);
    assert!(report.requirements.iter().find(|r| r.id == "R-001").unwrap().covered_by.contains(&"T-001".to_string()));
}

#[test]
fn test_uncovered_critical_requirement() {
    let source = r#"
snippet id="test.fn" kind="fn"

requires
  req id="R-001"
text "Critical requirement"
priority critical
  end
end

signature
  fn name="test_fn"
returns type="Unit"
  end
end

body
end

end
"#;
    let program = parse(source).ok().unwrap();
    let report = validate_program(&program, None);
    assert_eq!(report.summary.uncovered_requirements, 1);
    assert!(has_coverage_errors(&report));
}

#[test]
fn lib_test_nonexistent_requirement_reference() {
    let source = r#"
snippet id="test.fn" kind="fn"

signature
  fn name="test_fn"
returns type="Unit"
  end
end

body
end

tests
  test id="T-001" kind="unit" covers="R-NONEXISTENT"
  end
end

end
"#;
    let program = parse(source).ok().unwrap();
    let report = validate_program(&program, None);
    assert!(report.errors.iter().any(|e| matches!(e,
        RequirementError::NonexistentRequirement { req_id, .. }
        if req_id == "R-NONEXISTENT"
    )));
}
