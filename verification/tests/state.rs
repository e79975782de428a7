use fastxml::state::{ElementContext, Namespace, ValidationState};

fn ns_of(ctx: &ElementContext) -> Option<&str> {
    ctx.namespace.as_deref().map(|s| s.as_str())
}

#[test]
fn state_test_element_context_new() {
    let ctx = ElementContext::from_str("test", Some("http://example.com"));
    assert_eq!(ctx.name.as_str(), "test");
    assert_eq!(ns_of(&ctx), Some("http://example.com"));
    assert!(ctx.child_counts.is_empty());
    assert!(ctx.text_content.is_empty());
    assert!(!ctx.schema_validated);
    assert!(ctx.type_ref.is_none());
    assert!(ctx.flattened_children.is_none());
}

#[test]
fn test_element_context_new_without_namespace() {
    let ctx = ElementContext::from_str("test", None);
    assert_eq!(ctx.name.as_str(), "test");
    assert!(ctx.namespace.is_none());
}

#[test]
fn test_element_context_increment_child() {
    let mut ctx = ElementContext::from_str("parent", None);
    assert_eq!(ctx.increment_child("child"), 1);
    assert_eq!(ctx.increment_child("child"), 2);
    assert_eq!(ctx.increment_child("other"), 1);
    assert_eq!(ctx.increment_child("child"), 3);
}

#[test]
fn test_element_context_get_child_count() {
    let mut ctx = ElementContext::from_str("parent", None);
    assert_eq!(ctx.get_child_count("child"), 0);
    ctx.increment_child("child");
    assert_eq!(ctx.get_child_count("child"), 1);
    ctx.increment_child("child");
    assert_eq!(ctx.get_child_count("child"), 2);
    assert_eq!(ctx.get_child_count("other"), 0);
}

#[test]
fn state_test_validation_state_new() {
    let state = ValidationState::new();
    assert!(state.element_stack.is_empty());
    assert_eq!(state.depth, 0);
    assert_eq!(state.namespace_stack.len(), 1);
}

#[test]
fn state_test_validation_state_push_pop_element() {
    let mut state = ValidationState::new();
    state.push_element_str("root", None);
    assert_eq!(state.depth, 1);
    assert_eq!(state.element_stack.len(), 1);

    state.push_element_str("child", Some("http://ns"));
    assert_eq!(state.depth, 2);
    assert_eq!(state.element_stack.len(), 2);

    let popped = state.pop_element();
    assert!(popped.is_some());
    assert_eq!(popped.unwrap().name.as_str(), "child");
    assert_eq!(state.depth, 1);

    let popped = state.pop_element();
    assert!(popped.is_some());
    assert_eq!(popped.unwrap().name.as_str(), "root");
    assert_eq!(state.depth, 0);
}

#[test]
fn test_validation_state_child_count_increment() {
    let mut state = ValidationState::new();
    state.push_element_str("parent", None);
    state.push_element_str("child1", None);
    state.pop_element();
    state.push_element_str("child1", None);
    state.pop_element();
    state.push_element_str("child2", None);
    state.pop_element();

    let parent = state.pop_element().unwrap();
    assert_eq!(parent.get_child_count("child1"), 2);
    assert_eq!(parent.get_child_count("child2"), 1);
}

#[test]
fn test_validation_state_current_element() {
    let mut state = ValidationState::new();
    assert!(state.current_element().is_none());

    state.push_element_str("root", None);
    assert!(state.current_element().is_some());
    assert_eq!(state.current_element().unwrap().name.as_str(), "root");
}

#[test]
fn test_validation_state_current_element_mut() {
    let mut state = ValidationState::new();
    state.push_element_str("root", None);
    if let Some(ctx) = state.current_element_mut() {
        ctx.text_content.push_str("hello");
    }
    assert_eq!(state.current_element().unwrap().text_content, "hello");
}

#[test]
fn test_validation_state_push_pop_namespaces() {
    let mut state = ValidationState::new();
    assert_eq!(state.namespace_stack.len(), 1);

    let decls = vec![Namespace::new("ns".to_string(), "http://example.com".to_string())];
    state.push_namespaces(&decls);
    assert_eq!(state.namespace_stack.len(), 2);
    assert_eq!(state.resolve_prefix("ns"), Some("http://example.com"));

    state.pop_namespaces();
    assert_eq!(state.namespace_stack.len(), 1);
}

#[test]
fn test_validation_state_resolve_prefix() {
    let mut state = ValidationState::new();
    assert!(state.resolve_prefix("ns").is_none());

    let decls = vec![Namespace::new("ns".to_string(), "http://example.com".to_string())];
    state.push_namespaces(&decls);
    assert_eq!(state.resolve_prefix("ns"), Some("http://example.com"));
    assert!(state.resolve_prefix("other").is_none());
}

#[test]
fn test_validation_state_element_path_empty() {
    let state = ValidationState::new();
    assert_eq!(state.element_path(), "/");
}

#[test]
fn state_test_validation_state_element_path() {
    let mut state = ValidationState::new();
    state.push_element_str("root", None);
    assert_eq!(state.element_path(), "/root");

    state.push_element_str("child", None);
    assert_eq!(state.element_path(), "/root/child");

    state.push_element_str("grandchild", None);
    assert_eq!(state.element_path(), "/root/child/grandchild");
}

#[test]
fn test_validation_state_pop_empty() {
    let mut state = ValidationState::new();
    assert!(state.pop_element().is_none());
    assert_eq!(state.depth, 0);
}

#[test]
fn test_namespace_stack_pop_minimum() {
    let mut state = ValidationState::new();
    assert_eq!(state.namespace_stack.len(), 1);
    state.pop_namespaces();
    assert_eq!(state.namespace_stack.len(), 1);
    state.pop_namespaces();
    assert_eq!(state.namespace_stack.len(), 1);
}

#[test]
fn test_get_child_count_matches_local_name_with_prefix() {
    let mut ctx = ElementContext::from_str("parent", None);
    ctx.increment_child("gml:LinearRing");
    assert_eq!(ctx.get_child_count("gml:LinearRing"), 1);
    assert_eq!(
        ctx.get_child_count("LinearRing"),
        1,
        "get_child_count should match local name 'LinearRing' for prefixed child 'gml:LinearRing'"
    );
}

#[test]
fn test_get_child_count_matches_local_name_multiple_prefixes() {
    let mut ctx = ElementContext::from_str("parent", None);
    ctx.increment_child("gml:Ring");
    ctx.increment_child("ns:Ring");
    assert_eq!(ctx.get_child_count("gml:Ring"), 1);
    assert_eq!(ctx.get_child_count("ns:Ring"), 1);
    assert_eq!(
        ctx.get_child_count("Ring"),
        2,
        "get_child_count with local name should sum all prefixed variants"
    );
}

#[test]
fn tests_test_validation_state_new() {
    let state = ValidationState::new();
    assert!(state.element_stack.is_empty());
    assert_eq!(state.depth, 0);
    assert_eq!(state.namespace_stack.len(), 1);
}

#[test]
fn tests_test_validation_state_push_pop_element() {
    let mut state = ValidationState::new();
    state.push_element_str("root", None);
    assert_eq!(state.depth, 1);
    assert_eq!(state.element_stack.len(), 1);
    assert_eq!(state.element_stack[0].name.as_str(), "root");

    state.push_element_str("child", Some("http://example.com"));
    assert_eq!(state.depth, 2);
    assert_eq!(state.element_stack.len(), 2);

    let popped = state.pop_element().unwrap();
    assert_eq!(popped.name.as_str(), "child");
    assert_eq!(state.depth, 1);
}

#[test]
fn tests_test_validation_state_element_path() {
    let mut state = ValidationState::new();
    assert_eq!(state.element_path(), "/");
    state.push_element_str("root", None);
    assert_eq!(state.element_path(), "/root");
    state.push_element_str("child", None);
    assert_eq!(state.element_path(), "/root/child");
}

#[test]
fn tests_test_element_context_new() {
    let ctx = ElementContext::from_str("test", Some("http://example.com"));
    assert_eq!(ctx.name.as_str(), "test");
    assert_eq!(ns_of(&ctx), Some("http://example.com"));
    assert!(ctx.child_counts.is_empty());
    assert!(ctx.text_content.is_empty());
    assert!(!ctx.schema_validated);
}

#[test]
fn tests_test_element_context_child_counts() {
    let mut ctx = ElementContext::from_str("parent", None);
    assert_eq!(ctx.get_child_count("child1"), 0);
    assert_eq!(ctx.increment_child("child1"), 1);
    assert_eq!(ctx.get_child_count("child1"), 1);
    assert_eq!(ctx.increment_child("child1"), 2);
    assert_eq!(ctx.get_child_count("child1"), 2);
    assert_eq!(ctx.increment_child("child2"), 1);
    assert_eq!(ctx.get_child_count("child2"), 1);
}

#[test]
fn streaming_test_validation_state_new() {
    let state = ValidationState::new();
    assert!(state.element_stack.is_empty());
    assert_eq!(state.depth, 0);
    assert_eq!(state.namespace_stack.len(), 1);
}

#[test]
fn streaming_test_validation_state_push_pop_element() {
    let mut state = ValidationState::new();
    state.push_element_str("root", None);
    assert_eq!(state.depth, 1);
    assert_eq!(state.element_stack.len(), 1);
    assert_eq!(state.element_stack[0].name.as_str(), "root");

    state.push_element_str("child", Some("http://example.com"));
    assert_eq!(state.depth, 2);
    assert_eq!(state.element_stack.len(), 2);

    let popped = state.pop_element().unwrap();
    assert_eq!(popped.name.as_str(), "child");
    assert_eq!(state.depth, 1);
}

#[test]
fn streaming_test_validation_state_element_path() {
    let mut state = ValidationState::new();
    assert_eq!(state.element_path(), "/");
    state.push_element_str("root", None);
    assert_eq!(state.element_path(), "/root");
    state.push_element_str("child", None);
    assert_eq!(state.element_path(), "/root/child");
}

#[test]
fn streaming_test_element_context_new() {
    let ctx = ElementContext::from_str("test", Some("http://example.com"));
    assert_eq!(ctx.name.as_str(), "test");
    assert_eq!(ctx.namespace.as_deref().cloned(), Some("http://example.com".to_string()));
    assert!(ctx.child_counts.is_empty());
    assert!(ctx.text_content.is_empty());
    assert!(!ctx.schema_validated);
}

#[test]
fn streaming_test_element_context_child_counts() {
    let mut ctx = ElementContext::from_str("parent", None);
    assert_eq!(ctx.get_child_count("child1"), 0);
    assert_eq!(ctx.increment_child("child1"), 1);
    assert_eq!(ctx.get_child_count("child1"), 1);
    assert_eq!(ctx.increment_child("child1"), 2);
    assert_eq!(ctx.get_child_count("child1"), 2);
    assert_eq!(ctx.increment_child("child2"), 1);
    assert_eq!(ctx.get_child_count("child2"), 1);
}

#[test]
fn inner_scopes_shadow_outer_bindings() {
    let mut state = ValidationState::new();
    state.push_namespaces(&[Namespace::new("p".to_string(), "urn:outer".to_string())]);
    state.push_namespaces(&[
        Namespace::new("q".to_string(), "urn:q".to_string()),
        Namespace::new("p".to_string(), "urn:inner".to_string()),
    ]);
    assert_eq!(state.resolve_prefix("p"), Some("urn:inner"));
    assert_eq!(state.resolve_prefix("q"), Some("urn:q"));
    state.pop_namespaces();
    assert_eq!(state.resolve_prefix("p"), Some("urn:outer"));
    assert_eq!(state.resolve_prefix("q"), None);
}
