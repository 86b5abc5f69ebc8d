use unison::codegen::RustGenerator;
use unison::schema::{Field, FieldType, TypeRegistry};

fn field_of(type_str: &str) -> Field {
    Field {
        name: "f".to_string(),
        field_type_str: type_str.to_string(),
        required: true,
        default_str: None,
        min: None,
        max: None,
        min_length: Some(1),
        max_length: Some(64),
        pattern: Some("^a".to_string()),
        description: None,
    }
}

#[test]
fn test_field_type_primitives() {
    assert!(matches!(field_of("string").field_type(), FieldType::String));
    assert!(matches!(field_of("int").field_type(), FieldType::Int));
    assert!(matches!(field_of("float").field_type(), FieldType::Float));
    assert!(matches!(field_of("bool").field_type(), FieldType::Bool));
    assert!(matches!(field_of("json").field_type(), FieldType::Json));
    assert!(matches!(field_of("object").field_type(), FieldType::Object));
}

#[test]
fn test_field_type_custom() {
    match field_of("Timestamp").field_type() {
        FieldType::Custom(name) => assert_eq!(name, "Timestamp"),
        other => panic!("expected custom type, got {:?}", other),
    }
}

#[test]
fn test_field_constraints() {
    let c = field_of("int").constraints();
    assert_eq!(c.min, None);
    assert_eq!(c.max, None);
    assert_eq!(c.min_length, Some(1));
    assert_eq!(c.max_length, Some(64));
    assert_eq!(c.pattern.as_deref(), Some("^a"));
}

#[test]
fn test_to_rust_type_primitives() {
    let reg = TypeRegistry::new();
    assert_eq!(FieldType::String.to_rust_type(&reg), "String");
    assert_eq!(FieldType::Int.to_rust_type(&reg), "i64");
    assert_eq!(FieldType::Float.to_rust_type(&reg), "f64");
    assert_eq!(FieldType::Bool.to_rust_type(&reg), "bool");
    assert_eq!(FieldType::Json.to_rust_type(&reg), "serde_json::Value");
    assert_eq!(FieldType::Object.to_rust_type(&reg), "serde_json::Value");
}

#[test]
fn test_to_rust_type_composites() {
    let reg = TypeRegistry::new();
    let arr = FieldType::Array(Box::new(FieldType::Int));
    assert_eq!(arr.to_rust_type(&reg), "Vec<i64>");
    let map = FieldType::Dict(Box::new(FieldType::String), Box::new(FieldType::Bool));
    assert_eq!(map.to_rust_type(&reg), "HashMap<String, bool>");
    let nested = FieldType::Array(Box::new(FieldType::Array(Box::new(FieldType::String))));
    assert_eq!(nested.to_rust_type(&reg), "Vec<Vec<String>>");
}

#[test]
fn test_to_rust_type_registry_lookup() {
    let mut reg = TypeRegistry::new();
    reg.register("Timestamp", "chrono::DateTime<chrono::Utc>", "string");
    let t = FieldType::Custom("Timestamp".to_string());
    assert_eq!(t.to_rust_type(&reg), "chrono::DateTime<chrono::Utc>");
    assert_eq!(t.to_typescript_type(&reg), "string");
    let unknown = FieldType::Custom("Other".to_string());
    assert_eq!(unknown.to_rust_type(&reg), "Other");
}

#[test]
fn test_to_typescript_type_mapping() {
    let reg = TypeRegistry::new();
    assert_eq!(FieldType::String.to_typescript_type(&reg), "string");
    assert_eq!(FieldType::Int.to_typescript_type(&reg), "number");
    assert_eq!(FieldType::Float.to_typescript_type(&reg), "number");
    assert_eq!(FieldType::Bool.to_typescript_type(&reg), "boolean");
    assert_eq!(FieldType::Json.to_typescript_type(&reg), "any");
    let arr = FieldType::Array(Box::new(FieldType::Int));
    assert_eq!(arr.to_typescript_type(&reg), "number[]");
    let map = FieldType::Dict(Box::new(FieldType::String), Box::new(FieldType::Int));
    assert_eq!(map.to_typescript_type(&reg), "Record<string, number>");
    let en = FieldType::Enum(vec!["pending".to_string(), "active".to_string()]);
    assert_eq!(en.to_typescript_type(&reg), "'pending' | 'active'");
}

#[test]
fn test_format_code_replacements() {
    let gen = RustGenerator::new();
    assert_eq!(gen.format_code("let a = 1 ;"), "let a = 1;");
    assert_eq!(gen.format_code("a  b"), "a b");
    assert_eq!(gen.format_code("x{ y"), "x{\n    y");
    assert_eq!(gen.format_code("x }"), "x\n}");
    assert_eq!(gen.format_code("a, b"), "a,\n    b");
    assert_eq!(gen.format_code("plain"), "plain");
}
