use fastxml::error::{StructuredError, ValidationErrorType};
use std::sync::Arc;

use fastxml::schema::{CompiledSchema, ComplexType, ContentModel, ElementDef, TypeDef};
use fastxml::skeleton::{DocumentSkeleton, ElementSkeleton};
use fastxml::two_pass::TwoPassSchemaValidator;
use fastxml::validation::build_skeleton;
use fastxml::ValidationMode;

#[test]
fn tests_test_element_skeleton_new() {
    let skeleton = ElementSkeleton::new("test".into(), None, Some(1), Some(5));
    assert_eq!(skeleton.name.as_str(), "test");
    assert!(skeleton.prefix.is_none());
    assert_eq!(skeleton.line, Some(1));
    assert_eq!(skeleton.column, Some(5));
    assert!(skeleton.child_counts.is_empty());
    assert!(skeleton.text_content.is_empty());
}

#[test]
fn tests_test_two_pass_validator_empty_schema() {
    let xml = r#"<root><child/></root>"#;
    let schema = CompiledSchema::new();
    let errors = TwoPassSchemaValidator::new(Arc::new(schema)).validate(xml).unwrap();
    assert!(errors.is_empty());
}

#[test]
fn tests_test_two_pass_validator_unknown_element_strict() {
    let xml = r#"<unknown/>"#;
    let mut schema = CompiledSchema::new();
    schema.elements.insert("known".to_string(), ElementDef::new("known"));
    let errors = TwoPassSchemaValidator::new(Arc::new(schema)).validate(xml).unwrap();
    assert!(!errors.is_empty());
    assert!(errors[0].message.contains("unknown"));
}

#[test]
fn tests_test_two_pass_validator_unknown_element_lenient() {
    let xml = r#"<unknown/>"#;
    let mut schema = CompiledSchema::new();
    schema.elements.insert("known".to_string(), ElementDef::new("known"));
    let errors = TwoPassSchemaValidator::new(Arc::new(schema))
        .with_mode(ValidationMode::Lenient)
        .validate(xml)
        .unwrap();
    assert!(errors.is_empty());
}

#[test]
fn tests_test_two_pass_validator_min_occurs() {
    let xml = r#"<parent></parent>"#;
    let mut schema = CompiledSchema::new();
    let complex_type = ComplexType {
        name: "ParentType".to_string(),
        base_type: None,
        content: ContentModel::Sequence(vec![
            ElementDef::new("required_child").with_occurs(1, Some(1)),
        ]),
        attributes: Vec::new(),
        is_abstract: false,
        mixed: false,
        ..ComplexType::new("ParentType")
    };
    schema.elements.insert(
        "parent".to_string(),
        ElementDef::new("parent").with_type("ParentType"),
    );
    schema.types.insert("ParentType".to_string(), TypeDef::Complex(complex_type));
    let errors = TwoPassSchemaValidator::new(Arc::new(schema)).validate(xml).unwrap();
    assert!(!errors.is_empty());
    assert!(errors[0].message.contains("required_child"));
}

#[test]
fn tests_test_two_pass_validator_max_occurs() {
    let xml = r#"<parent><child/><child/><child/></parent>"#;
    let mut schema = CompiledSchema::new();
    let complex_type = ComplexType {
        name: "ParentType".to_string(),
        base_type: None,
        content: ContentModel::Sequence(vec![ElementDef::new("child").with_occurs(0, Some(2))]),
        attributes: Vec::new(),
        is_abstract: false,
        mixed: false,
        ..ComplexType::new("ParentType")
    };
    schema.elements.insert(
        "parent".to_string(),
        ElementDef::new("parent").with_type("ParentType"),
    );
    schema.types.insert("ParentType".to_string(), TypeDef::Complex(complex_type));
    schema.elements.insert("child".to_string(), ElementDef::new("child"));
    let errors = TwoPassSchemaValidator::new(Arc::new(schema)).validate(xml).unwrap();
    assert!(!errors.is_empty());
    assert!(errors[0].message.contains("maximum"));
}

#[test]
fn tests_test_two_pass_validator_choice_content_model() {
    let xml = r#"<boundedBy><Envelope/></boundedBy>"#;
    let mut schema = CompiledSchema::new();
    let mut choice_type = ComplexType::new("BoundingShapeType");
    choice_type.content = ContentModel::Choice(vec![
        ElementDef::new("Envelope").with_type("xs:string"),
        ElementDef::new("Null").with_type("xs:string"),
    ]);
    schema.types.insert("BoundingShapeType".to_string(), TypeDef::Complex(choice_type));
    schema.elements.insert(
        "boundedBy".to_string(),
        ElementDef::new("boundedBy").with_type("BoundingShapeType"),
    );
    schema.elements.insert("Envelope".to_string(), ElementDef::new("Envelope"));
    schema.elements.insert("Null".to_string(), ElementDef::new("Null"));
    let errors = TwoPassSchemaValidator::new(Arc::new(schema)).validate(xml).unwrap();
    assert!(errors.is_empty());
}

#[test]
fn tests_test_two_pass_validator_substitution_group() {
    let xml = r#"<parent><ReliefFeature/></parent>"#;
    let mut schema = CompiledSchema::new();
    let mut parent_type = ComplexType::new("ParentType");
    parent_type.content = ContentModel::Sequence(vec![
        ElementDef::new("_CityObject").with_type("AbstractCityObjectType"),
    ]);
    schema.types.insert("ParentType".to_string(), TypeDef::Complex(parent_type));
    let abstract_type = ComplexType::new("AbstractCityObjectType");
    schema.types.insert(
        "AbstractCityObjectType".to_string(),
        TypeDef::Complex(abstract_type),
    );
    let mut head_elem = ElementDef::new("_CityObject");
    head_elem.is_abstract = true;
    head_elem.type_ref = Some("AbstractCityObjectType".to_string());
    schema.elements.insert("_CityObject".to_string(), head_elem);
    let mut substitute_elem = ElementDef::new("ReliefFeature");
    substitute_elem.substitution_group = Some("_CityObject".to_string());
    schema.elements.insert("ReliefFeature".to_string(), substitute_elem);
    schema.elements.insert(
        "parent".to_string(),
        ElementDef::new("parent").with_type("ParentType"),
    );
    schema
        .substitution_groups
        .insert("_CityObject".to_string(), vec!["ReliefFeature".to_string()]);
    schema
        .substitution_group_heads
        .insert("ReliefFeature".to_string(), "_CityObject".to_string());
    schema
        .transitive_substitution_groups
        .insert("_CityObject".to_string(), vec!["ReliefFeature".to_string()]);
    let errors = TwoPassSchemaValidator::new(Arc::new(schema)).validate(xml).unwrap();
    assert!(
        errors.is_empty(),
        "Substitution group member should satisfy min_occurs, errors: {:?}",
        errors
    );
}

#[test]
fn tests_test_two_pass_validator_with_max_errors() {
    let xml = r#"<root><a/><b/><c/><d/><e/></root>"#;
    let mut schema = CompiledSchema::new();
    schema.elements.insert("root".to_string(), ElementDef::new("root"));
    let errors = TwoPassSchemaValidator::new(Arc::new(schema))
        .with_max_errors(2)
        .validate(xml)
        .unwrap();
    assert_eq!(errors.len(), 2);
}

#[test]
fn tests_test_two_pass_validator_type_inheritance() {
    let xml = r#"<root><baseElement>content</baseElement></root>"#;
    let mut schema = CompiledSchema::new();
    let mut base_type = ComplexType::new("BaseType");
    base_type.content = ContentModel::Sequence(vec![
        ElementDef::new("baseElement").with_type("xs:string").optional(),
    ]);
    schema.types.insert("BaseType".to_string(), TypeDef::Complex(base_type));
    let mut extended_type = ComplexType::new("ExtendedType");
    extended_type.content = ContentModel::ComplexExtension {
        base_type: "BaseType".to_string(),
        elements: vec![],
    };
    schema.types.insert("ExtendedType".to_string(), TypeDef::Complex(extended_type));
    schema.elements.insert(
        "root".to_string(),
        ElementDef::new("root").with_type("ExtendedType"),
    );
    schema.elements.insert(
        "baseElement".to_string(),
        ElementDef::new("baseElement").with_type("xs:string"),
    );
    let errors = TwoPassSchemaValidator::new(Arc::new(schema)).validate(xml).unwrap();
    assert!(
        errors.is_empty(),
        "Should accept inherited elements, errors: {:?}",
        errors
    );
}

#[test]
fn tests_test_document_skeleton_new() {
    let skeleton = DocumentSkeleton::new();
    assert!(skeleton.nodes.is_empty());
    assert!(skeleton.root_index.is_none());
}

#[test]
fn tests_test_skeleton_builder_simple() {
    let xml = r#"<root><child>text</child></root>"#;
    let skeleton = build_skeleton(xml).unwrap();
    assert_eq!(skeleton.nodes.len(), 2);
    assert_eq!(skeleton.root_index, Some(0));
    let root = skeleton.get_node(0).unwrap();
    assert_eq!(root.name.as_str(), "root");
    assert_eq!(root.get_child_count("child"), 1);
    assert_eq!(root.children_indices.len(), 1);
    let child = skeleton.get_node(1).unwrap();
    assert_eq!(child.name.as_str(), "child");
    assert_eq!(child.text_content, "text");
}

#[test]
fn tests_test_skeleton_builder_nested() {
    let xml = r#"<root><a><b><c/></b></a></root>"#;
    let skeleton = build_skeleton(xml).unwrap();
    assert_eq!(skeleton.nodes.len(), 4);
    let root = skeleton.get_node(0).unwrap();
    assert_eq!(root.name.as_str(), "root");
    assert_eq!(root.children_indices, vec![1]);
    let a = skeleton.get_node(1).unwrap();
    assert_eq!(a.name.as_str(), "a");
    assert_eq!(a.children_indices, vec![2]);
    let b = skeleton.get_node(2).unwrap();
    assert_eq!(b.name.as_str(), "b");
    assert_eq!(b.children_indices, vec![3]);
    let c = skeleton.get_node(3).unwrap();
    assert_eq!(c.name.as_str(), "c");
    assert!(c.children_indices.is_empty());
}

#[test]
fn tests_test_element_skeleton_child_counts() {
    let mut skeleton = ElementSkeleton::new("parent".into(), None, None, None);
    assert_eq!(skeleton.get_child_count("child"), 0);
    assert_eq!(skeleton.increment_child("child"), 1);
    assert_eq!(skeleton.get_child_count("child"), 1);
    assert_eq!(skeleton.increment_child("child"), 2);
    assert_eq!(skeleton.get_child_count("child"), 2);
    assert_eq!(skeleton.increment_child("other"), 1);
    assert_eq!(skeleton.get_child_count("other"), 1);
}

#[test]
fn skeleton_text_goes_to_innermost_open_element() {
    let xml = r#"<root>a<x>b</x>c<![CDATA[d]]></root>"#;
    let skeleton = build_skeleton(xml).unwrap();
    assert_eq!(skeleton.nodes.len(), 2);
    assert_eq!(skeleton.get_node(0).unwrap().text_content, "acd");
    assert_eq!(skeleton.get_node(1).unwrap().text_content, "b");
}

#[test]
fn skeleton_children_in_document_order_with_counts() {
    let xml = r#"<root><a/><b/><a/></root>"#;
    let skeleton = build_skeleton(xml).unwrap();
    let root = skeleton.get_node(0).unwrap();
    assert_eq!(root.children_indices, vec![1, 2, 3]);
    assert_eq!(root.get_child_count("a"), 2);
    assert_eq!(root.get_child_count("b"), 1);
    assert_eq!(root.get_child_count("c"), 0);
    assert!(skeleton.get_node(4).is_none());
}

#[test]
fn skeleton_keeps_prefix_and_position() {
    let xml = "<p:root>\n  <p:item/>\n</p:root>";
    let skeleton = build_skeleton(xml).unwrap();
    let item = skeleton.get_node(1).unwrap();
    assert_eq!(item.name.as_str(), "item");
    assert_eq!(item.prefix.as_deref(), Some("p"));
    assert_eq!(item.line, Some(2));
    assert_eq!(item.column, Some(3));
}

#[test]
fn skeleton_of_malformed_text_fails() {
    assert!(build_skeleton("<root><a></root>").is_err());
    assert!(build_skeleton("<root>").is_err());
    assert!(build_skeleton("text only").is_err());
}

#[test]
fn validate_malformed_text_fails() {
    let schema = CompiledSchema::new();
    let v = TwoPassSchemaValidator::new(Arc::new(schema));
    assert!(v.validate("<a><b></a>").is_err());
}

#[test]
fn same_document_gives_same_errors() {
    let xml = r#"<root><unknown/><known>t</known><unknown/></root>"#;
    let mut schema = CompiledSchema::new();
    schema.elements.insert("known".to_string(), ElementDef::new("known"));
    let v = TwoPassSchemaValidator::new(Arc::new(schema));
    let first = v.validate(xml).unwrap();
    let second = v.validate(xml).unwrap();
    assert_eq!(first.len(), second.len());
    assert_eq!(first.len(), 3);
    for (a, b) in first.iter().zip(second.iter()) {
        assert_eq!(a.message, b.message);
        assert_eq!(a.line, b.line);
        assert_eq!(a.column, b.column);
    }
}

#[test]
fn node_check_leaves_an_over_full_list_alone() {
    let xml = r#"<unknown/>"#;
    let mut schema = CompiledSchema::new();
    schema.elements.insert("known".to_string(), ElementDef::new("known"));
    let v = TwoPassSchemaValidator::new(Arc::new(schema)).with_max_errors(1);
    let skeleton = build_skeleton(xml).unwrap();
    let mut errors = vec![
        StructuredError::new("a".to_string(), ValidationErrorType::Other),
        StructuredError::new("b".to_string(), ValidationErrorType::Other),
    ];
    v.validate_node_recursive(&skeleton, 0, None, &mut errors);
    assert_eq!(errors.len(), 2);
    assert_eq!(errors[1].message, "b");
}
