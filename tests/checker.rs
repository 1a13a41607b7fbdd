use covenant::checker::{check, CheckError};
use covenant::parser::parse;

/// Helper to check that parsing and type checking produces errors
fn check_source_has_errors(source: &str) -> Vec<CheckError> {
    let program = parse(source).expect("parse failed");
    match check(&program) {
        Ok(_) => vec![],
        Err(errors) => errors,
    }
}

/// Helper to check that parsing and type checking succeeds
fn check_source_ok(source: &str) {
    let program = parse(source).expect("parse failed");
    let result = check(&program);
    assert!(result.is_ok(), "Expected check to succeed, got errors: {:?}", result.err());
}

// === Type Mismatch Tests ===

#[test]
fn test_return_type_mismatch() {
    let source = r#"
snippet id="test.fn" kind="fn"
signature
  fn name="test_fn"
    returns type="Int"
  end
end
body
  step id="s1" kind="return"
    lit="not an int"
    as="_"
  end
end
end
"#;
    let errors = check_source_has_errors(source);
    // Should have type mismatch error: returning String when Int expected
    assert!(!errors.is_empty(), "Expected type mismatch error");
}

#[test]
fn test_correct_return_type() {
    let source = r#"
snippet id="test.fn" kind="fn"
signature
  fn name="test_fn"
    returns type="Int"
  end
end
body
  step id="s1" kind="return"
    lit=42
    as="_"
  end
end
end
"#;
    check_source_ok(source);
}

// === Undefined Variable Tests ===

#[test]
fn test_undefined_variable_in_return() {
    let source = r#"
snippet id="test.fn" kind="fn"
signature
  fn name="test_fn"
    returns type="Int"
  end
end
body
  step id="s1" kind="return"
    from="undefined_var"
    as="_"
  end
end
end
"#;
    let errors = check_source_has_errors(source);
    assert!(!errors.is_empty(), "Expected undefined variable error");
}

#[test]
fn test_undefined_variable_in_compute() {
    let source = r#"
snippet id="test.fn" kind="fn"
signature
  fn name="test_fn"
    param name="x" type="Int"
    returns type="Int"
  end
end
body
  step id="s1" kind="compute"
    op=add
    input var="x"
    input var="y"
    as="result"
  end
  step id="s2" kind="return"
    from="result"
    as="_"
  end
end
end
"#;
    let errors = check_source_has_errors(source);
    assert!(!errors.is_empty(), "Expected undefined variable 'y' error");
}

// === Compute Operation Type Tests ===

#[test]
fn test_compute_add_int_int() {
    let source = r#"
snippet id="test.fn" kind="fn"
signature
  fn name="test_fn"
    param name="a" type="Int"
    param name="b" type="Int"
    returns type="Int"
  end
end
body
  step id="s1" kind="compute"
    op=add
    input var="a"
    input var="b"
    as="result"
  end
  step id="s2" kind="return"
    from="result"
    as="_"
  end
end
end
"#;
    check_source_ok(source);
}

#[test]
fn test_compute_equals_returns_bool() {
    let source = r#"
snippet id="test.fn" kind="fn"
signature
  fn name="test_fn"
    param name="a" type="Int"
    param name="b" type="Int"
    returns type="Bool"
  end
end
body
  step id="s1" kind="compute"
    op=equals
    input var="a"
    input var="b"
    as="result"
  end
  step id="s2" kind="return"
    from="result"
    as="_"
  end
end
end
"#;
    check_source_ok(source);
}

// === If Statement Tests ===

#[test]
fn test_if_condition_bool() {
    let source = r#"
snippet id="test.fn" kind="fn"
signature
  fn name="test_fn"
    param name="x" type="Int"
    returns type="Int"
  end
end
body
  step id="s1" kind="compute"
    op=less
    input var="x"
    input lit=0
    as="is_negative"
  end
  step id="s2" kind="if"
    condition="is_negative"
    then
      step id="s2a" kind="return"
        lit=0
        as="_"
      end
    end
    else
      step id="s2b" kind="return"
        from="x"
        as="_"
      end
    end
    as="_"
  end
end
end
"#;
    check_source_ok(source);
}

// === Call Argument Type Tests ===

#[test]
fn test_call_correct_arg_type() {
    let source = r#"
snippet id="math.double" kind="fn"
signature
  fn name="double"
    param name="x" type="Int"
    returns type="Int"
  end
end
body
  step id="s1" kind="compute"
    op=mul
    input var="x"
    input lit=2
    as="result"
  end
  step id="s2" kind="return"
    from="result"
    as="_"
  end
end
end

snippet id="test.fn" kind="fn"
signature
  fn name="test_fn"
    param name="n" type="Int"
    returns type="Int"
  end
end
body
  step id="s1" kind="call"
    fn="math.double"
    arg name="x" from="n"
    as="result"
  end
  step id="s2" kind="return"
    from="result"
    as="_"
  end
end
end
"#;
    check_source_ok(source);
}

// === Multiple Snippets Interaction ===

#[test]
fn test_cross_snippet_call() {
    let source = r#"
snippet id="math.add" kind="fn"
signature
  fn name="add"
    param name="a" type="Int"
    param name="b" type="Int"
    returns type="Int"
  end
end
body
  step id="s1" kind="compute"
    op=add
    input var="a"
    input var="b"
    as="result"
  end
  step id="s2" kind="return"
    from="result"
    as="_"
  end
end
end

snippet id="app.main" kind="fn"
signature
  fn name="main"
    returns type="Int"
  end
end
body
  step id="s1" kind="call"
    fn="math.add"
    arg name="a" lit=1
    arg name="b" lit=2
    as="result"
  end
  step id="s2" kind="return"
    from="result"
    as="_"
  end
end
end
"#;
    check_source_ok(source);
}

// === Union Type Tests ===

#[test]
fn test_union_return_type() {
    let source = r#"
snippet id="test.fn" kind="fn"
signature
  fn name="test_fn"
    param name="x" type="Int"
    returns union
      type="Int"
      type="String"
    end
  end
end
body
  step id="s1" kind="return"
    from="x"
    as="_"
  end
end
end
"#;
    check_source_ok(source);
}

// === Bind Step Tests ===

#[test]
fn test_bind_literal() {
    let source = r#"
snippet id="test.fn" kind="fn"
signature
  fn name="test_fn"
    returns type="Int"
  end
end
body
  step id="s1" kind="bind"
    lit=42
    as="x"
  end
  step id="s2" kind="return"
    from="x"
    as="_"
  end
end
end
"#;
    check_source_ok(source);
}

#[test]
fn test_bind_from_param() {
    let source = r#"
snippet id="test.fn" kind="fn"
signature
  fn name="test_fn"
    param name="input" type="Int"
    returns type="Int"
  end
end
body
  step id="s1" kind="bind"
    from="input"
    as="x"
  end
  step id="s2" kind="return"
    from="x"
    as="_"
  end
end
end
"#;
    check_source_ok(source);
}

fn errors_of(source: &str) -> Vec<CheckError> {
    check_source_has_errors(source)
}

#[test]
fn return_of_string_where_int_declared_is_one_mismatch() {
    let source = r#"
snippet id="math.add" kind="fn"
signature
  fn name="add"
    param name="a" type="Int"
    param name="b" type="Int"
    returns type="Int"
  end
end
body
  step id="s1" kind="compute"
    op=add
    input var="a"
    input var="b"
    as="result"
  end
  step id="s2" kind="return"
    lit="not an int"
    as="_"
  end
end
end
"#;
    let errors = errors_of(source);
    assert_eq!(errors.len(), 1);
    match &errors[0] {
        CheckError::TypeMismatch { expected, actual, .. } => {
            assert_eq!(expected, "Int");
            assert_eq!(actual, "String");
        }
        other => panic!("unexpected {:?}", other),
    }
}

#[test]
fn checker_reports_each_problem() {
    let source = r#"
snippet id="t.callee" kind="fn"
signature
  fn name="callee"
    param name="x" type="Int"
    param name="y" type="String" optional
    returns type="Bool"
  end
end
body
end
end

snippet id="t.caller" kind="fn"
signature
  fn name="caller"
    param name="s" type="String"
    returns type="Int"
  end
end
body
  step id="s1" kind="call"
    fn="t.callee"
    arg name="z" from="s"
    as="r"
  end
  step id="s2" kind="call"
    fn="t.missing"
    as="q"
  end
  step id="s3" kind="compute"
    op=add
    input var="s"
    input lit=1
    as="bad"
  end
  step id="s4" kind="compute"
    op=add
    input var="bad"
    input lit=2
    as="quiet"
  end
  step id="s5" kind="if"
    condition="s"
    then
    end
    as="_"
  end
end
end
"#;
    let errors = errors_of(source);
    let kinds: Vec<&str> = errors
        .iter()
        .map(|e| match e {
            CheckError::TypeMismatch { .. } => "mismatch",
            CheckError::UndefinedVariable { .. } => "undefined",
            CheckError::UnknownFunction { .. } => "unknown_fn",
            CheckError::ArgCountMismatch { .. } => "arity",
            CheckError::UnknownArgument { .. } => "unknown_arg",
            CheckError::MissingArgument { .. } => "missing_arg",
            CheckError::IfConditionNotBool { .. } => "if_not_bool",
            CheckError::NonexhaustiveMatch { .. } => "nonexhaustive",
        })
        .collect();
    assert_eq!(kinds, vec!["unknown_arg", "missing_arg", "unknown_fn", "mismatch", "if_not_bool"]);
}

#[test]
fn optional_and_none_are_compatible() {
    let source = r#"
snippet id="t.f" kind="fn"
signature
  fn name="f"
    returns type="String" optional
  end
end
body
  step id="s1" kind="return"
    lit=none
    as="_"
  end
end
end
"#;
    check_source_ok(source);
    let source = r#"
snippet id="t.g" kind="fn"
signature
  fn name="g"
    param name="xs" type="List<Int>"
    returns type="List<Int>"
  end
end
body
  step id="s1" kind="return"
    from="xs"
    as="_"
  end
end
end
"#;
    check_source_ok(source);
}

const RESULT_ENUM: &str = r#"
snippet id="types.Result" kind="enum"
signature
  enum name="Result"
    variant name="Ok"
      field name="value" type="Int"
    end
    variant name="Err"
      field name="message" type="String"
    end
  end
end
end
"#;

#[test]
fn match_without_wildcard_must_cover_every_variant() {
    let source = format!(
        "{}{}",
        RESULT_ENUM,
        r#"
snippet id="t.m" kind="fn"
signature
  fn name="m"
    param name="r" type="Result"
    returns type="Int"
  end
end
body
  step id="s1" kind="match"
    on="r"
    case variant type="Result::Ok" bindings=("v")
      step id="s1a" kind="return"
        from="v"
        as="_"
      end
    end
    as="_"
  end
end
end
"#
    );
    let errors = errors_of(&source);
    assert_eq!(errors.len(), 1);
    match &errors[0] {
        CheckError::NonexhaustiveMatch { missing, .. } => assert_eq!(missing, &vec!["Err".to_string()]),
        other => panic!("unexpected {:?}", other),
    }
}

#[test]
fn match_bindings_take_the_variant_field_types() {
    let source = format!(
        "{}{}",
        RESULT_ENUM,
        r#"
snippet id="t.m" kind="fn"
signature
  fn name="m"
    param name="r" type="Result"
    returns type="Int"
  end
end
body
  step id="s1" kind="match"
    on="r"
    case variant type="Result::Ok" bindings=("v")
      step id="s1a" kind="return"
        from="v"
        as="_"
      end
    end
    case variant type="Result::Err" bindings=("m")
      step id="s1b" kind="return"
        from="m"
        as="_"
      end
    end
    as="_"
  end
end
end
"#
    );
    let errors = errors_of(&source);
    assert_eq!(errors.len(), 1);
    match &errors[0] {
        CheckError::TypeMismatch { expected, actual, .. } => {
            assert_eq!(expected, "Int");
            assert_eq!(actual, "String");
        }
        other => panic!("unexpected {:?}", other),
    }
    let with_wildcard = source.replace(
        "case variant type=\"Result::Err\" bindings=(\"m\")\n      step id=\"s1b\" kind=\"return\"\n        from=\"m\"",
        "case wildcard\n      step id=\"s1b\" kind=\"return\"\n        lit=0",
    );
    check_source_ok(&with_wildcard);
}
