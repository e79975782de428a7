use fastxml::constraints::{validate_identity_constraints, ConstraintTask, DocIdState, FieldOutcome};
use fastxml::schema::{CompiledConstraint, CompiledConstraintType};

fn constraint(name: &str, t: CompiledConstraintType, refer: Option<&str>) -> CompiledConstraint {
    CompiledConstraint {
        name: name.to_string(),
        constraint_type: t,
        selector_xpath: ".//item".to_string(),
        field_xpaths: vec!["@id".to_string()],
        refer: refer.map(|r| r.to_string()),
    }
}

fn v(s: &str) -> FieldOutcome {
    FieldOutcome::Value(s.to_string())
}

#[test]
fn key_and_unique_violations() {
    let tasks = vec![
        ConstraintTask {
            constraint: constraint("k", CompiledConstraintType::Key, None),
            rows: vec![vec![v("a")], vec![v("b")], vec![v("a")], vec![FieldOutcome::Absent]],
        },
        ConstraintTask {
            constraint: constraint("u", CompiledConstraintType::Unique, None),
            rows: vec![vec![FieldOutcome::Absent], vec![FieldOutcome::Multiple], vec![v("x"), v("y")], vec![v("x"), v("y")]],
        },
    ];
    let errors = validate_identity_constraints(&tasks);
    assert_eq!(
        errors,
        vec![
            "key 'k': duplicate tuple [a]".to_string(),
            "key 'k': a field has no value for a selected node".to_string(),
            "unique 'u': a field matches more than one node".to_string(),
            "unique 'u': duplicate tuple [x, y]".to_string(),
        ]
    );
}

#[test]
fn keyrefs_resolve_against_keys() {
    let tasks = vec![
        ConstraintTask {
            constraint: constraint("r", CompiledConstraintType::KeyRef, Some("t:k")),
            rows: vec![vec![v("a")], vec![v("z")], vec![FieldOutcome::Absent]],
        },
        ConstraintTask {
            constraint: constraint("t:k", CompiledConstraintType::Key, None),
            rows: vec![vec![v("a")]],
        },
        ConstraintTask {
            constraint: constraint("dangling", CompiledConstraintType::KeyRef, Some("nothing")),
            rows: vec![vec![v("q")]],
        },
    ];
    let errors = validate_identity_constraints(&tasks);
    assert_eq!(errors, vec!["keyref 'r': tuple [z] does not match any 'k' key".to_string()]);
}

#[test]
fn uniqueness_is_per_scope() {
    let tasks = vec![
        ConstraintTask {
            constraint: constraint("u", CompiledConstraintType::Unique, None),
            rows: vec![vec![v("a")]],
        },
        ConstraintTask {
            constraint: constraint("u", CompiledConstraintType::Unique, None),
            rows: vec![vec![v("a")]],
        },
    ];
    assert!(validate_identity_constraints(&tasks).is_empty());
}

#[test]
fn duplicate_ids_are_reported() {
    let mut ids = DocIdState::default();
    let e1 = ids.record(vec!["a".to_string(), "b".to_string()], vec!["c".to_string()], Some(1), Some(2));
    assert!(e1.is_empty());
    let e2 = ids.record(vec!["b".to_string(), "d".to_string(), "d".to_string()], vec![], None, None);
    assert_eq!(
        e2,
        vec!["duplicate ID value 'b'".to_string(), "duplicate ID value 'd'".to_string()]
    );
    assert_eq!(ids.seen_ids, vec!["a", "b", "d"]);
    assert_eq!(ids.pending_idrefs, vec![("c".to_string(), Some(1), Some(2))]);
}
