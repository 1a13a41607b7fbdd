use covenant::ast::Program;
use covenant::parser::{parse, ParseErrorKind};

#[test]
fn test_parse_hello_world() {
    let source = r#"
        main()
            import { println } from console
        {
            println("Hello, world!")
        }
    "#;
    let result = parse(source);
    assert!(result.is_ok(), "Failed to parse: {:?}", result.as_ref().err().map(|e| e.kind));
}

#[test]
fn test_parse_struct() {
    let source = r#"
        struct User {
            id: Int,
            name: String,
        }
    "#;
    let result = parse(source);
    assert!(result.is_ok(), "Failed to parse: {:?}", result.as_ref().err().map(|e| e.kind));
}

#[test]
fn test_parse_pure_function() {
    let source = r#"
        double(x: Int) -> Int {
            x * 2
        }
    "#;
    let result = parse(source);
    assert!(result.is_ok(), "Failed to parse: {:?}", result.as_ref().err().map(|e| e.kind));
}

// === Snippet Kind Tests ===

#[test]
fn test_parse_snippet_fn() {
    let source = r#"
snippet id="math.add" kind="fn"

signature
  fn name="add"
param name="a" type="Int"
param name="b" type="Int"
returns type="Int"
  end
end

body
  step id="s1" kind="compute"
op=add
input var="a"
input var="b"
as="result"
  end
  step id="s2" kind="return"
from="result"
as="_"
  end
end

end
"#;
    let result = parse(source);
    assert!(result.is_ok(), "Failed to parse fn snippet: {:?}", result.as_ref().err().map(|e| e.kind));
    let program = result.unwrap();
    if let Program::Snippets(snippets) = program {
        assert_eq!(snippets.len(), 1);
        assert_eq!(snippets[0].id, "math.add");
    } else {
        panic!("Expected Snippets program");
    }
}

#[test]
fn test_parse_extern_snippet() {
    let source = r#"
snippet id="io.print" kind="extern"

effects
  effect console
end

signature
  fn name="print"
param name="msg" type="String"
returns type="Unit"
  end
end

metadata
  contract="console.log@1"
end

end
"#;
    let result = parse(source);
    assert!(result.is_ok(), "Failed to parse extern snippet: {:?}", result.as_ref().err().map(|e| e.kind));
}

#[test]
fn test_parse_struct_snippet() {
    let source = r#"
snippet id="types.User" kind="struct"

signature
  struct name="User"
field name="id" type="Int"
field name="name" type="String"
field name="email" type="String" optional
  end
end

end
"#;
    let result = parse(source);
    assert!(result.is_ok(), "Failed to parse struct snippet: {:?}", result.as_ref().err().map(|e| e.kind));
}

#[test]
fn test_parse_enum_snippet() {
    let source = r#"
snippet id="types.Result" kind="enum"

signature
  enum name="Result"
variant name="Ok"
  field name="value" type="Int"
end
variant name="Err"
  field name="message" type="String"
end
  end
end

end
"#;
    let result = parse(source);
    assert!(result.is_ok(), "Failed to parse enum snippet: {:?}", result.as_ref().err().map(|e| e.kind));
}

// === Step Kind Tests ===

#[test]
fn test_parse_compute_step() {
    let source = r#"
snippet id="test.fn" kind="fn"
signature
  fn name="test_fn"
param name="x" type="Int"
returns type="Int"
  end
end
body
  step id="s1" kind="compute"
op=add
input var="x"
input lit=1
as="result"
  end
  step id="s2" kind="return"
from="result"
as="_"
  end
end
end
"#;
    let result = parse(source);
    assert!(result.is_ok(), "Failed to parse compute step: {:?}", result.as_ref().err().map(|e| e.kind));
}

#[test]
fn test_parse_call_step() {
    let source = r#"
snippet id="test.fn" kind="fn"
signature
  fn name="test_fn"
param name="x" type="Int"
returns type="Int"
  end
end
body
  step id="s1" kind="call"
fn="math.double"
arg name="x" from="x"
as="result"
  end
  step id="s2" kind="return"
from="result"
as="_"
  end
end
end
"#;
    let result = parse(source);
    assert!(result.is_ok(), "Failed to parse call step: {:?}", result.as_ref().err().map(|e| e.kind));
}

#[test]
fn test_parse_if_step() {
    let source = r#"
snippet id="test.fn" kind="fn"
signature
  fn name="test_fn"
param name="x" type="Int"
returns type="Int"
  end
end
body
  step id="s1" kind="compute"
op=less
input var="x"
input lit=0
as="is_negative"
  end
  step id="s2" kind="if"
condition="is_negative"
then
  step id="s2a" kind="return"
    lit=0
    as="_"
  end
end
else
  step id="s2b" kind="return"
    from="x"
    as="_"
  end
end
as="_"
  end
end
end
"#;
    let result = parse(source);
    assert!(result.is_ok(), "Failed to parse if step: {:?}", result.as_ref().err().map(|e| e.kind));
}

#[test]
fn test_parse_match_step() {
    let source = r#"
snippet id="test.fn" kind="fn"
signature
  fn name="test_fn"
param name="value" type="Result"
returns type="Int"
  end
end
body
  step id="s1" kind="match"
on="value"
case variant type="Result::Ok" bindings=("v")
  step id="s1a" kind="return"
    from="v"
    as="_"
  end
end
case wildcard
  step id="s1b" kind="return"
    lit=0
    as="_"
  end
end
as="_"
  end
end
end
"#;
    let result = parse(source);
    assert!(result.is_ok(), "Failed to parse match step: {:?}", result.as_ref().err().map(|e| e.kind));
}

#[test]
fn test_parse_for_step() {
    let source = r#"
snippet id="test.fn" kind="fn"
signature
  fn name="test_fn"
param name="items" type="List<Int>"
returns type="List<Int>"
  end
end
body
  step id="s1" kind="call"
fn="new_list"
as="result"
  end
  step id="s2" kind="for"
var="item" in="items"
step id="s2a" kind="call"
  fn="push"
  arg name="list" from="result"
  arg name="item" from="item"
  as="result"
end
as="_"
  end
  step id="s3" kind="return"
from="result"
as="_"
  end
end
end
"#;
    let result = parse(source);
    assert!(result.is_ok(), "Failed to parse for step: {:?}", result.as_ref().err().map(|e| e.kind));
}

// === Query Tests ===

#[test]
fn test_parse_query_covenant_dialect() {
    let source = r#"
snippet id="test.fn" kind="fn"
effects
  effect database
end
signature
  fn name="test_fn"
returns type="List<User>"
  end
end
body
  step id="s1" kind="query"
target="project"
select all
from="users"
where
  equals field="active" lit=true
end
order by="name" dir="asc"
limit=10
as="result"
  end
  step id="s2" kind="return"
from="result"
as="_"
  end
end
end
"#;
    let result = parse(source);
    assert!(result.is_ok(), "Failed to parse Covenant query: {:?}", result.as_ref().err().map(|e| e.kind));
}

#[test]
fn test_parse_query_sql_dialect() {
    let source = r#"
snippet id="test.fn" kind="fn"
effects
  effect database
end
signature
  fn name="test_fn"
param name="user_id" type="Int"
returns type="List<Order>"
  end
end
body
  step id="s1" kind="query"
dialect="postgres"
target="app_db"
body
  SELECT * FROM orders WHERE user_id = :user_id
end
params
  param name="user_id" from="user_id"
end
returns collection of="Order"
as="orders"
  end
  step id="s2" kind="return"
from="orders"
as="_"
  end
end
end
"#;
    let result = parse(source);
    assert!(result.is_ok(), "Failed to parse SQL dialect query: {:?}", result.as_ref().err().map(|e| e.kind));
}

// === Type Syntax Tests ===

#[test]
fn test_parse_optional_type() {
    let source = r#"
snippet id="test.fn" kind="fn"
signature
  fn name="test_fn"
param name="value" type="Json"
returns type="String" optional
  end
end
body
  step id="s1" kind="return"
lit=none
as="_"
  end
end
end
"#;
    let result = parse(source);
    assert!(result.is_ok(), "Failed to parse optional type: {:?}", result.as_ref().err().map(|e| e.kind));
}

#[test]
fn test_parse_list_type() {
    let source = r#"
snippet id="test.fn" kind="fn"
signature
  fn name="test_fn"
param name="items" type="List<Int>"
returns type="List<String>"
  end
end
body
  step id="s1" kind="return"
lit=none
as="_"
  end
end
end
"#;
    let result = parse(source);
    assert!(result.is_ok(), "Failed to parse List type: {:?}", result.as_ref().err().map(|e| e.kind));
}

#[test]
fn test_parse_union_type() {
    let source = r#"
snippet id="test.fn" kind="fn"
signature
  fn name="test_fn"
returns union
  type="Int"
  type="String"
  type="Error"
end
  end
end
body
  step id="s1" kind="return"
lit=0
as="_"
  end
end
end
"#;
    let result = parse(source);
    assert!(result.is_ok(), "Failed to parse union type: {:?}", result.as_ref().err().map(|e| e.kind));
}

// === Section Tests ===

#[test]
fn test_parse_snippet_with_all_sections() {
    let source = r#"
snippet id="test.fn" kind="fn"

effects
  effect database
  effect network
end

requires
  req id="R-001"
text "Must handle null input"
priority high
  end
end

signature
  fn name="test_fn"
param name="x" type="Int"
returns type="Int"
  end
end

body
  step id="s1" kind="return"
from="x"
as="_"
  end
end

tests
  test id="T-001" kind="unit" covers="R-001"
  end
end

metadata
  author="test"
  version="1.0"
end

end
"#;
    let result = parse(source);
    assert!(result.is_ok(), "Failed to parse snippet with all sections: {:?}", result.as_ref().err().map(|e| e.kind));
}

// === Multiple Snippets ===

#[test]
fn test_parse_multiple_snippets() {
    let source = r#"
snippet id="math.add" kind="fn"
signature
  fn name="add"
param name="a" type="Int"
param name="b" type="Int"
returns type="Int"
  end
end
body
  step id="s1" kind="compute"
op=add
input var="a"
input var="b"
as="result"
  end
  step id="s2" kind="return"
from="result"
as="_"
  end
end
end

snippet id="math.sub" kind="fn"
signature
  fn name="sub"
param name="a" type="Int"
param name="b" type="Int"
returns type="Int"
  end
end
body
  step id="s1" kind="compute"
op=sub
input var="a"
input var="b"
as="result"
  end
  step id="s2" kind="return"
from="result"
as="_"
  end
end
end
"#;
    let result = parse(source);
    assert!(result.is_ok(), "Failed to parse multiple snippets: {:?}", result.as_ref().err().map(|e| e.kind));
    let program = result.unwrap();
    if let Program::Snippets(snippets) = program {
        assert_eq!(snippets.len(), 2);
    } else {
        panic!("Expected Snippets program");
    }
}

// === Error Cases ===

#[test]
fn lib_test_parse_empty_source() {
    let result = parse("");
    assert!(result.is_ok(), "Empty source should parse successfully");
    let program = result.unwrap();
    match program {
        Program::Snippets(snippets) => assert!(snippets.is_empty()),
        Program::Legacy => panic!("Expected Snippets program"),
    }
}

#[test]
fn test_parse_comments_only() {
    let source = r#"
// This is a comment
// Another comment
"#;
    let result = parse(source);
    assert!(result.is_ok(), "Comments-only should parse successfully");
}

#[test]
fn test_parse_unclosed_snippet() {
    let source = r#"
snippet id="test.fn" kind="fn"
signature
  fn name="test"
returns type="Int"
  end
end
body
end
"#;
    // Missing final "end" for snippet
    let result = parse(source);
    assert!(result.is_err(), "Unclosed snippet should fail to parse");
}

#[test]
fn test_parse_missing_snippet_id() {
    let source = r#"
snippet kind="fn"
signature
  fn name="test"
returns type="Int"
  end
end
body
end
end
"#;
    let result = parse(source);
    assert!(result.is_err(), "Missing snippet id should fail to parse");
}

#[test]
fn parse_reads_requirements_tests_and_effects() {
    let source = r#"
snippet id="a.fn" kind="fn"
effects
  effect database
  effect network
end
requires
  req id="R-1"
    text "Handles \"quoted\" input"
    priority critical
    status approved
  end
end
tests
  test id="T-1" kind="golden" covers="R-1"
  end
end
end
"#;
    let program = parse(source).ok().unwrap();
    let snippets = match program {
        Program::Snippets(s) => s,
        Program::Legacy => panic!("Expected Snippets program"),
    };
    assert_eq!(snippets[0].id, "a.fn");
    assert_eq!(snippets[0].kind, "fn");
    assert_eq!(snippets[0].sections.len(), 3);
    match &snippets[0].sections[0] {
        covenant::ast::Section::Effects(e) => assert_eq!(e, &vec!["database".to_string(), "network".to_string()]),
        _ => panic!("Expected effects"),
    }
    match &snippets[0].sections[1] {
        covenant::ast::Section::Requires(r) => {
            assert_eq!(r[0].id, "R-1");
            assert_eq!(r[0].text.as_deref(), Some("Handles \"quoted\" input"));
            assert_eq!(r[0].priority, Some(covenant::ast::Priority::Critical));
            assert_eq!(r[0].status, Some(covenant::ast::ReqStatus::Approved));
        }
        _ => panic!("Expected requires"),
    }
    match &snippets[0].sections[2] {
        covenant::ast::Section::Tests(t) => {
            assert_eq!(t[0].kind, covenant::ast::TestKind::Golden);
            assert_eq!(t[0].covers, vec!["R-1".to_string()]);
        }
        _ => panic!("Expected tests"),
    }
}

#[test]
fn parse_rejects_a_repeated_snippet_id() {
    let source = "snippet id=\"a\" kind=\"fn\" end\nsnippet id=\"a\" kind=\"fn\" end";
    let err = parse(source).err().unwrap();
    assert_eq!(err.kind, ParseErrorKind::DuplicateSnippet);
    let ok = parse("snippet id=\"a\" kind=\"fn\" end\nsnippet id=\"b\" kind=\"data\" end").ok().unwrap();
    match ok {
        Program::Snippets(s) => assert_eq!(s.len(), 2),
        Program::Legacy => panic!("Expected Snippets program"),
    }
}

#[test]
fn parse_errors_have_kinds() {
    let e = parse("snippet id=\"a\" kind=\"fn\" color=\"red\" end").err().unwrap();
    assert_eq!(e.kind, ParseErrorKind::UnknownAttribute);
    let e = parse("snippet id=\"a\" end").err().unwrap();
    assert_eq!(e.kind, ParseErrorKind::MissingAttribute);
    assert_eq!((e.span.start, e.span.end), (0, 7));
    let e = parse("snippet id=\"a\" kind=\"fn\" body step id=\"s\" kind=\"bind\" from=\"x\" end").err().unwrap();
    assert_eq!(e.kind, ParseErrorKind::UnclosedBlock);
    let e = parse("snippet id=\"a\" kind=\"fn\" body step id=\"s\" end end end").err().unwrap();
    assert_eq!(e.kind, ParseErrorKind::MissingAttribute);
    let e = parse("snippet id=\"a\" kind=\"fn\" end end").err().unwrap();
    assert_eq!(e.kind, ParseErrorKind::UnexpectedToken);
}

#[test]
fn fn_snippet_parses_to_one_snippet_with_two_steps() {
    let source = r#"
snippet id="math.add" kind="fn"
signature
  fn name="add"
    param name="a" type="Int"
    param name="b" type="Int"
    returns type="Int"
  end
end
body
  step id="s1" kind="compute"
    op=add
    input var="a"
    input var="b"
    as="result"
  end
  step id="s2" kind="return"
    from="result"
    as="_"
  end
end
end
"#;
    let snippets = match parse(source).unwrap() {
        Program::Snippets(s) => s,
        Program::Legacy => panic!("Expected Snippets program"),
    };
    assert_eq!(snippets.len(), 1);
    let mut steps = 0;
    let mut params = 0;
    for section in &snippets[0].sections {
        match section {
            covenant::ast::Section::Body(b) => steps = b.len(),
            covenant::ast::Section::Signature(sig) => {
                params = sig.params.len();
                assert_eq!(sig.name, "add");
                assert_eq!(sig.return_types, vec!["Int".to_string()]);
            }
            _ => {}
        }
    }
    assert_eq!(steps, 2);
    assert_eq!(params, 2);
}

#[test]
fn header_only_snippets_keep_their_ids_in_order() {
    let program = parse("snippet id=\"b.one\" kind=\"data\" end\nsnippet id=\"a.two\" kind=\"fn\" end").unwrap();
    match program {
        Program::Snippets(s) => {
            let ids: Vec<&str> = s.iter().map(|x| x.id.as_str()).collect();
            assert_eq!(ids, vec!["b.one", "a.two"]);
            assert_eq!(s[1].kind, "fn");
        }
        Program::Legacy => panic!("Expected Snippets program"),
    }
}

#[test]
fn header_without_end_is_unclosed() {
    let e = parse("snippet id=\"a\" kind=\"fn\"").err().unwrap();
    assert_eq!(e.kind, ParseErrorKind::UnclosedBlock);
    assert_eq!((e.span.start, e.span.end), (0, 7));
}
