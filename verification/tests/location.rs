use fastxml::error::{ErrorLevel, StructuredError, ValidationError, ValidationErrorType};
use fastxml::location::{
    find_schema_location, location_pairs_of, merge_by_message, schema_locations, with_validation,
    SchemaLoad, SourceOutcome,
};

fn attrs(list: &[(&str, &str)]) -> Vec<(String, String)> {
    list.iter().map(|(k, v)| (k.to_string(), v.to_string())).collect()
}

#[test]
fn schema_location_attribute_found_first() {
    let a = attrs(&[("id", "1"), ("schemaLocation", "a b"), ("xsi:schemaLocation", "c d")]);
    assert_eq!(find_schema_location(&a), Some("a b".to_string()));
    assert_eq!(find_schema_location(&attrs(&[("id", "1")])), None);
}

#[test]
fn schema_location_pairs() {
    let pairs = location_pairs_of("  http://a/ns  http://a/s.xsd\n http://b/ns\thttp://b/s.xsd http://c ");
    assert_eq!(
        pairs,
        vec![
            ("http://a/ns".to_string(), "http://a/s.xsd".to_string()),
            ("http://b/ns".to_string(), "http://b/s.xsd".to_string()),
        ]
    );
    assert!(location_pairs_of("   ").is_empty());
    let a = attrs(&[("xsi:schemaLocation", "n1 l1 n2 l2")]);
    assert_eq!(schema_locations(&a).len(), 2);
    assert_eq!(schema_locations(&a)[1].1, "l2");
    assert!(schema_locations(&attrs(&[])).is_empty());
}

#[test]
fn lenient_loading_outcomes() {
    let mut load = SchemaLoad::new();
    load.lenient_source("http://x/a.xsd", SourceOutcome::FetchFailed);
    assert!(!load.loaded_any);
    assert!(load.warnings.is_empty());
    load.lenient_source("http://x/b.xsd", SourceOutcome::ParseFailed("bad".to_string()));
    assert_eq!(load.warnings.len(), 1);
    assert_eq!(load.warnings[0].message, "Warning: Failed to parse schema http://x/b.xsd: bad");
    assert_eq!(load.warnings[0].level, ErrorLevel::Warning);
    assert_eq!(load.warnings[0].error_type, ValidationErrorType::SchemaNotFound);
    assert!(!load.lenient_sources_done());
    assert_eq!(load.warnings[1].message, "No schemas could be loaded from xsi:schemaLocation");

    let mut ok = SchemaLoad::new();
    ok.lenient_source("http://x/c.xsd", SourceOutcome::Loaded);
    assert!(ok.lenient_sources_done());
    assert!(ok.warnings.is_empty());
    assert!(!ok.lenient_compiled(Some("cycle".to_string())));
    assert_eq!(ok.warnings[0].message, "Warning: Failed to compile schemas: cycle");
    assert!(ok.lenient_compiled(None));
}

#[test]
fn strict_loading_outcomes() {
    let mut load = SchemaLoad::new();
    assert!(load.strict_source("u1", SourceOutcome::Loaded).is_ok());
    assert!(load.loaded_any);
    assert!(load.strict_source("u2", SourceOutcome::ParseFailed("e".to_string())).is_ok());
    assert_eq!(load.warnings[0].message, "Failed to parse schema u2: e");
    match load.strict_source("u3", SourceOutcome::FetchFailed) {
        Err(ValidationError::SchemaNotFound { uri }) => assert_eq!(uri, "u3"),
        _ => panic!("expected SchemaNotFound"),
    }
}

#[test]
fn validation_outcome_after_warnings() {
    let w = vec![StructuredError::new("w".to_string(), ValidationErrorType::SchemaNotFound)
        .with_level(ErrorLevel::Warning)];
    let ok = with_validation(w.clone(), Ok(vec![StructuredError::new("e".to_string(), ValidationErrorType::Other)]));
    assert_eq!(ok.len(), 2);
    assert_eq!(ok[1].message, "e");
    let failed = with_validation(w, Err("broken".to_string()));
    assert_eq!(failed.len(), 2);
    assert_eq!(failed[1].message, "Validation error: broken");
    assert_eq!(failed[1].level, ErrorLevel::Error);
    assert_eq!(failed[1].error_type, ValidationErrorType::Other);
}

#[test]
fn shared_errors_keep_one_per_message() {
    let mut shared = vec![StructuredError::new("a".to_string(), ValidationErrorType::Other)];
    let new = vec![
        StructuredError::new("a".to_string(), ValidationErrorType::Other),
        StructuredError::new("b".to_string(), ValidationErrorType::Other),
        StructuredError::new("b".to_string(), ValidationErrorType::Other),
    ];
    merge_by_message(&mut shared, &new);
    assert_eq!(shared.len(), 2);
    assert_eq!(shared[1].message, "b");
}
