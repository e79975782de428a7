use std::sync::Arc;

use fastxml::error::{ErrorLevel, StructuredError, ValidationError, ValidationErrorType};
use fastxml::facade::{Report, Validator};
use fastxml::schema::{CompiledSchema, ElementDef};
use fastxml::ValidationMode;

fn entry(level: ErrorLevel) -> StructuredError {
    StructuredError::new("m".to_string(), ValidationErrorType::Other).with_level(level)
}

#[test]
fn report_accessors() {
    let r = Report::new(vec![
        entry(ErrorLevel::Warning),
        entry(ErrorLevel::Error),
        entry(ErrorLevel::Fatal),
    ]);
    assert!(!r.is_valid());
    assert!(!r.is_clean());
    assert_eq!(r.error_count(), 2);
    assert_eq!(r.warning_count(), 1);
    assert_eq!(r.errors().len(), 2);
    assert_eq!(r.warnings().len(), 1);
    assert_eq!(r.entries().len(), 3);
    assert_eq!(r.error_count() + r.warning_count(), r.entries().len());
    assert_eq!(r.into_entries().len(), 3);

    let w = Report::new(vec![entry(ErrorLevel::Warning)]);
    assert!(w.is_valid());
    assert!(!w.is_clean());
    let c = Report::new(vec![]);
    assert!(c.is_valid() && c.is_clean());
}

#[test]
fn run_without_schema_needs_a_fetcher() {
    match Validator::from_reader("<root/>").run() {
        Err(ValidationError::InvalidOperation(m)) => {
            assert!(m.contains("requires the `ureq` feature"))
        }
        other => panic!("unexpected {:?}", other.map(|r| r.error_count())),
    }
}

#[test]
fn run_with_schema() {
    let mut s = CompiledSchema::new();
    s.elements.insert("root".to_string(), ElementDef::new("root"));
    let schema = Arc::new(s);
    let r = Validator::from_reader("<root><x/><y/></root>").schema(schema.clone()).run().unwrap();
    assert_eq!(r.error_count(), 2);
    let r = Validator::from_reader("<root><x/><y/></root>")
        .schema(schema.clone())
        .max_errors(1)
        .run()
        .unwrap();
    assert_eq!(r.error_count(), 1);
    let r = Validator::from_reader("<root><x/></root>")
        .schema(schema)
        .mode(ValidationMode::Lenient)
        .run()
        .unwrap();
    assert!(r.is_clean());
}

#[test]
fn aggregated_errors_collapse_repeats() {
    let xml = "<root>\n<x/>\n<x/>\n<x/>\n</root>";
    let mut schema = CompiledSchema::new();
    schema.elements.insert("known".to_string(), ElementDef::new("known"));
    let schema = Arc::new(schema);
    let plain = Validator::from_reader(xml).schema(Arc::clone(&schema)).run().unwrap();
    assert_eq!(plain.entries().len(), 4);
    let report = Validator::from_reader(xml).schema(schema).aggregate_errors().run().unwrap();
    assert_eq!(report.entries().len(), 2);
    let x = &report.entries()[1];
    assert_eq!(x.count, 3);
    assert_eq!(x.line, Some(2));
    assert_eq!(x.more_positions, vec![(Some(3), Some(1)), (Some(4), Some(1))]);
}

#[test]
fn aggregated_errors_respect_the_cap() {
    let xml = "<root><x/><y/><x/><z/></root>";
    let mut schema = CompiledSchema::new();
    schema.elements.insert("known".to_string(), ElementDef::new("known"));
    let report = Validator::from_reader(xml)
        .schema(Arc::new(schema))
        .max_errors(2)
        .aggregate_errors()
        .run()
        .unwrap();
    assert_eq!(report.entries().len(), 2);
    assert_eq!(report.entries()[1].count, 2);
}

#[test]
fn malformed_text_is_a_syntax_error() {
    let r = Validator::from_reader("<a><b></a>").schema(Arc::new(CompiledSchema::new())).run();
    assert!(matches!(r, Err(ValidationError::Syntax { .. })));
}

#[test]
fn from_and_from_reader_agree() {
    let xml = "<root><x/></root>";
    let mut schema = CompiledSchema::new();
    schema.elements.insert("known".to_string(), ElementDef::new("known"));
    let schema = Arc::new(schema);
    let a = Validator::from(xml).schema(Arc::clone(&schema)).run().unwrap();
    let b = Validator::from_reader(xml).schema(Arc::clone(&schema)).run().unwrap();
    let c = Validator::from_reader(xml).schema(schema).mode(ValidationMode::Strict).run().unwrap();
    assert_eq!(a.entries().len(), b.entries().len());
    assert_eq!(b.entries().len(), c.entries().len());
    for (x, y) in a.entries().iter().zip(b.entries().iter()) {
        assert_eq!(x.message, y.message);
    }
}
