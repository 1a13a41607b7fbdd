use covenant::optimizer::{optimize, OptLevel, OptSettings, OptimizableIR};
use covenant::types::{ResolvedType, SymbolId, TypeRegistry, VariantDef};

#[test]
fn display_of_composite_types() {
    let t = ResolvedType::Function {
        params: vec![
            ResolvedType::Int,
            ResolvedType::Optional(Box::new(ResolvedType::String)),
            ResolvedType::List(Box::new(ResolvedType::Bool)),
        ],
        ret: Box::new(ResolvedType::Union(vec![ResolvedType::Int, ResolvedType::Error])),
    };
    assert_eq!(t.display(), "(Int, String?, Bool[]) -> Int | <error>");
    let n = ResolvedType::Named {
        name: "Map".to_string(),
        id: SymbolId(3),
        args: vec![ResolvedType::String, ResolvedType::SetOf(Box::new(ResolvedType::Char))],
    };
    assert_eq!(n.display(), "Map<String, Set<Char>>");
    let s = ResolvedType::Struct(vec![
        ("a".to_string(), ResolvedType::Float),
        ("b".to_string(), ResolvedType::Tuple(vec![ResolvedType::Bytes, ResolvedType::NoneType])),
    ]);
    assert_eq!(s.display(), "{ a: Float, b: (Bytes, none) }");
    assert_eq!(ResolvedType::Unknown.display(), "?");
    assert!(ResolvedType::Error.is_error());
    assert!(ResolvedType::Optional(Box::new(ResolvedType::Int)).is_optional());
    assert!(!ResolvedType::Int.is_optional());
}

#[test]
fn registry_lookups() {
    let mut reg = TypeRegistry::new();
    reg.register_struct(
        "User".to_string(),
        vec![("id".to_string(), ResolvedType::Int), ("name".to_string(), ResolvedType::String)],
    );
    reg.register_enum(
        "Result".to_string(),
        vec![
            VariantDef { name: "Ok".to_string(), fields: None },
            VariantDef { name: "Err".to_string(), fields: Some(vec![("message".to_string(), ResolvedType::String)]) },
        ],
    );
    assert_eq!(reg.get_struct("User").unwrap().fields.len(), 2);
    assert!(reg.get_struct("Result").is_none());
    assert_eq!(reg.get_enum("Result").unwrap().variants.len(), 2);
    assert_eq!(reg.get_enum_variants("Result").unwrap(), vec!["Ok", "Err"]);
    assert!(reg.get_enum_variants("User").is_none());
    assert_eq!(reg.get_struct_field("User", "name").unwrap().display(), "String");
    assert!(reg.get_struct_field("User", "email").is_none());
    reg.register_struct("User".to_string(), vec![]);
    assert!(reg.get_struct("User").unwrap().fields.is_empty());
}

#[test]
fn test_opt_level_0_no_optimization() {
    let mut ir = OptimizableIR { steps: Vec::new() };
    let settings = OptSettings { level: OptLevel::O0, emit_warnings: true };
    let result = optimize(&mut ir, &settings);
    assert!(!result.modified, "O0 should not modify IR");
}
