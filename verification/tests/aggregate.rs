use fastxml::aggregate::add_aggregated;
use fastxml::error::{StructuredError, ValidationErrorType};

fn err(m: &str, node: &str, line: usize) -> StructuredError {
    StructuredError::new(m.to_string(), ValidationErrorType::InvalidContent)
        .with_node_name(node.to_string())
        .with_line(line)
        .with_column(4)
}

#[test]
fn collapse_records_on_the_same_entry() {
    let mut errors = vec![err("first", "a", 1), err("second", "b", 2)];
    add_aggregated(&mut errors, err("second", "b", 9), 0);
    assert_eq!(errors.len(), 2);
    assert_eq!(errors[0].count, 1);
    assert_eq!(errors[1].count, 2);
    assert_eq!(errors[1].line, Some(2));
    assert_eq!(errors[1].more_positions, vec![(Some(9), Some(4))]);
}

#[test]
fn collapse_keeps_errors_with_another_node_apart() {
    let mut errors = vec![err("same", "a", 1)];
    add_aggregated(&mut errors, err("same", "b", 2), 0);
    assert_eq!(errors.len(), 2);
    assert_eq!(errors[1].node_name.as_deref(), Some("b"));
}

#[test]
fn collapse_drops_new_error_at_the_cap() {
    let mut errors = vec![err("one", "a", 1)];
    add_aggregated(&mut errors, err("two", "a", 2), 1);
    assert_eq!(errors.len(), 1);
    add_aggregated(&mut errors, err("one", "a", 3), 1);
    assert_eq!(errors[0].count, 2);
}
