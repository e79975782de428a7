use std::sync::Arc;

use fastxml::automaton::{ChildStep, FinishError, StepResult};
use fastxml::error::{StructuredError, ValidationErrorType};
use fastxml::schema::{CompiledSchema, ContentModelType, ElementDef, FlattenedChildren};
use fastxml::skeleton::ElementSkeleton;
use fastxml::two_pass::{TwoPassSchemaValidator, ValidationOptions};

fn step(name: &str, line: usize, result: StepResult) -> ChildStep {
    ChildStep { name: name.to_string(), prefix: None, line: Some(line), column: Some(3), result }
}

fn flat_with(names: &[&str]) -> FlattenedChildren {
    let mut f = FlattenedChildren::with_content_model(ContentModelType::Sequence);
    for n in names {
        f.constraints.insert(n.to_string(), (1, Some(1)));
        f.ordered_elements.push(n.to_string());
    }
    f
}

fn run(
    v: &TwoPassSchemaValidator,
    node: &ElementSkeleton,
    flat: &FlattenedChildren,
    steps: Vec<ChildStep>,
    finish: Option<FinishError>,
    nilled: bool,
) -> Vec<StructuredError> {
    let mut errors = Vec::new();
    v.automaton_errors(node, flat, &steps, &finish, nilled, &mut errors);
    errors
}

#[test]
fn automaton_too_many_and_not_expected() {
    let v = TwoPassSchemaValidator::new(Arc::new(CompiledSchema::new()));
    let node = ElementSkeleton::new("root".into(), None, Some(1), Some(1));
    let flat = flat_with(&["a", "b"]);
    let steps = vec![
        step("a", 2, StepResult::Matched),
        step("a", 3, StepResult::TooMany { max: 1 }),
        step("b", 4, StepResult::NotExpected { expected: vec!["c".to_string(), "d".to_string()] }),
        step("x", 5, StepResult::NotExpected { expected: vec![] }),
        step("b", 6, StepResult::NotExpected { expected: vec![] }),
    ];
    let errors = run(&v, &node, &flat, steps, None, false);
    assert_eq!(errors.len(), 3);
    assert_eq!(errors[0].message, "element 'a' occurs more than the allowed 1 time(s) in 'root'");
    assert_eq!(errors[0].error_type, ValidationErrorType::TooManyOccurrences);
    assert_eq!(errors[0].line, Some(3));
    assert_eq!(errors[0].node_name.as_deref(), Some("a"));
    assert_eq!(errors[1].message, "element 'b' is not expected here in 'root' (expected: c, d)");
    assert_eq!(errors[1].error_type, ValidationErrorType::InvalidContent);
    assert_eq!(errors[1].expected.as_deref(), Some("c, d"));
    assert_eq!(errors[1].found.as_deref(), Some("b"));
    assert_eq!(errors[1].line, Some(4));
    assert_eq!(errors[2].message, "element 'b' is not expected here in 'root' (expected: no further elements)");
}

#[test]
fn automaton_declared_globally_counts_as_declared() {
    let mut s = CompiledSchema::new();
    s.elements.insert("g".to_string(), ElementDef::new("g"));
    let v = TwoPassSchemaValidator::new(Arc::new(s));
    let node = ElementSkeleton::new("root".into(), None, None, None);
    let flat = flat_with(&[]);
    let steps = vec![step("g", 2, StepResult::NotExpected { expected: vec!["h".to_string()] })];
    let errors = run(&v, &node, &flat, steps, None, false);
    assert_eq!(errors.len(), 1);
    assert_eq!(errors[0].message, "element 'g' is not expected here in 'root' (expected: h)");
}

#[test]
fn automaton_finish_errors() {
    let v = TwoPassSchemaValidator::new(Arc::new(CompiledSchema::new()));
    let mut node = ElementSkeleton::new("root".into(), None, Some(7), Some(2));
    let flat = flat_with(&["a", "b"]);
    let too_few = Some(FinishError::TooFew { name: "a".to_string(), min: 2, found: 1 });
    let errors = run(&v, &node, &flat, vec![], too_few, false);
    assert_eq!(errors.len(), 1);
    assert_eq!(errors[0].message, "element a in 'root' occurs 1 time(s), but minimum is 2");
    assert_eq!(errors[0].error_type, ValidationErrorType::TooFewOccurrences);
    assert_eq!(errors[0].line, Some(7));
    assert_eq!(errors[0].node_name.as_deref(), Some("root"));

    let missing = Some(FinishError::Missing { expected: vec!["a".to_string(), "b".to_string()] });
    let errors = run(&v, &node, &flat, vec![], missing.clone(), false);
    assert_eq!(errors[0].message, "element 'root' has incomplete content (expected: a, b)");
    assert_eq!(errors[0].error_type, ValidationErrorType::MissingRequiredElement);
    assert_eq!(errors[0].expected.as_deref(), Some("a, b"));

    node.increment_child("b");
    let errors = run(&v, &node, &flat, vec![], missing, false);
    assert_eq!(errors[0].message, "element 'root' has incomplete content: more of a, b required");
    assert_eq!(errors[0].error_type, ValidationErrorType::TooFewOccurrences);
}

#[test]
fn automaton_nilled_and_skipped_checks() {
    let node = ElementSkeleton::new("root".into(), None, None, None);
    let flat = flat_with(&["a"]);
    let v = TwoPassSchemaValidator::new(Arc::new(CompiledSchema::new()));
    let steps = vec![step("a", 2, StepResult::TooMany { max: 1 })];
    let finish = Some(FinishError::Missing { expected: vec!["a".to_string()] });
    assert!(run(&v, &node, &flat, steps.clone(), finish.clone(), true).is_empty());

    let skip = ValidationOptions { skip_min_occurs: true, skip_max_occurs: true, ..ValidationOptions::default() };
    let v = TwoPassSchemaValidator::new(Arc::new(CompiledSchema::new())).with_options(skip);
    assert!(run(&v, &node, &flat, steps.clone(), finish.clone(), false).is_empty());

    let v = TwoPassSchemaValidator::new(Arc::new(CompiledSchema::new())).with_max_errors(1);
    let errors = run(&v, &node, &flat, steps, finish, false);
    assert_eq!(errors.len(), 1);
    assert_eq!(errors[0].error_type, ValidationErrorType::TooManyOccurrences);
}
