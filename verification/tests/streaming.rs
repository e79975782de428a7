use std::sync::Arc;

use fastxml::error::{ErrorLevel, StructuredError, ValidationErrorType};
use fastxml::schema::{CompiledSchema, ComplexType, ContentModel, ElementDef, SimpleType, TypeDef};
use fastxml::state::Namespace;
use fastxml::streaming::StreamingSchemaValidator;
use fastxml::xml::XmlEvent;
use fastxml::ValidationMode;

fn start(name: &str, line: Option<usize>) -> XmlEvent {
    XmlEvent::StartElement {
        name: name.to_string(),
        prefix: None,
        namespace: None,
        attributes: vec![],
        namespace_decls: vec![],
        line,
        column: None,
    }
}

fn end(name: &str) -> XmlEvent {
    XmlEvent::EndElement { name: name.to_string(), prefix: None }
}

#[test]
fn streaming_test_streaming_validator_new() {
    let schema = CompiledSchema::new();
    let validator = StreamingSchemaValidator::new(Arc::new(schema));
    assert!(validator.is_valid());
    assert!(validator.is_clean());
    assert_eq!(validator.error_count(), 0);
}

#[test]
fn streaming_test_streaming_validator_with_mode() {
    let schema = CompiledSchema::new();
    let validator = StreamingSchemaValidator::with_mode(Arc::new(schema), ValidationMode::Lenient);
    assert!(validator.is_valid());
}

#[test]
fn streaming_test_streaming_validator_max_errors() {
    let schema = CompiledSchema::new();
    let mut validator = StreamingSchemaValidator::new(Arc::new(schema));
    validator.set_max_errors(2);
    validator.add_error(StructuredError::new("error1".to_string(), ValidationErrorType::Other));
    validator.add_error(StructuredError::new("error2".to_string(), ValidationErrorType::Other));
    validator.add_error(StructuredError::new("error3".to_string(), ValidationErrorType::Other));
    assert_eq!(validator.errors().len(), 2);
}

#[test]
fn streaming_test_streaming_validator_make_error() {
    let schema = CompiledSchema::new();
    let validator = StreamingSchemaValidator::new(Arc::new(schema));
    let error = validator.make_error(ValidationErrorType::UnknownElement, "test error".to_string());
    assert_eq!(error.message, "test error");
    assert_eq!(error.error_type, ValidationErrorType::UnknownElement);
}

#[test]
fn streaming_test_streaming_validator_errors_and_warnings() {
    let schema = CompiledSchema::new();
    let mut validator = StreamingSchemaValidator::new(Arc::new(schema));
    validator.add_error(
        StructuredError::new("error1".to_string(), ValidationErrorType::Other).with_level(ErrorLevel::Error),
    );
    validator.add_error(
        StructuredError::new("warning1".to_string(), ValidationErrorType::Other).with_level(ErrorLevel::Warning),
    );
    validator.add_error(
        StructuredError::new("error2".to_string(), ValidationErrorType::Other).with_level(ErrorLevel::Error),
    );
    assert_eq!(validator.error_count(), 2);
    assert_eq!(validator.warning_count(), 1);
    assert_eq!(validator.errors_only().len(), 2);
    assert_eq!(validator.warnings().len(), 1);
    assert!(!validator.is_valid());
    assert!(!validator.is_clean());
}

#[test]
fn streaming_test_streaming_validator_with_schema_elements() {
    let mut schema = CompiledSchema::new();
    schema.elements.insert("root".to_string(), ElementDef::new("root").with_type("xs:string"));
    schema.types.insert("xs:string".to_string(), TypeDef::Simple(SimpleType::new("xs:string", "xs:anySimpleType")));
    let mut validator = StreamingSchemaValidator::new(Arc::new(schema));
    let _ = validator.handle(&start("root", Some(1)));
    assert!(validator.is_valid());
}

#[test]
fn streaming_test_streaming_validator_unknown_element_strict() {
    let mut schema = CompiledSchema::new();
    schema.elements.insert("known".to_string(), ElementDef::new("known"));
    let mut validator = StreamingSchemaValidator::new(Arc::new(schema));
    let _ = validator.handle(&start("unknown", Some(1)));
    assert!(!validator.is_valid());
    assert!(validator.errors().iter().any(|e| e.message.contains("unknown")));
}

#[test]
fn streaming_test_streaming_validator_unknown_element_lenient() {
    let mut schema = CompiledSchema::new();
    schema.elements.insert("known".to_string(), ElementDef::new("known"));
    let mut validator = StreamingSchemaValidator::with_mode(Arc::new(schema), ValidationMode::Lenient);
    let _ = validator.handle(&start("unknown", Some(1)));
    assert!(validator.is_valid());
}

#[test]
fn streaming_test_streaming_validator_text_content() {
    let schema = CompiledSchema::new();
    let mut validator = StreamingSchemaValidator::new(Arc::new(schema));
    let _ = validator.handle(&start("test", None));
    let _ = validator.handle(&XmlEvent::Text("content".to_string()));
    let ctx = validator.state.current_element().unwrap();
    assert_eq!(ctx.text_content, "content");
}

#[test]
fn streaming_test_streaming_validator_cdata_content() {
    let schema = CompiledSchema::new();
    let mut validator = StreamingSchemaValidator::new(Arc::new(schema));
    let _ = validator.handle(&start("test", None));
    let _ = validator.handle(&XmlEvent::CData("cdata content".to_string()));
    let ctx = validator.state.current_element().unwrap();
    assert_eq!(ctx.text_content, "cdata content");
}

#[test]
fn streaming_test_streaming_validator_finish_unclosed_element() {
    let schema = CompiledSchema::new();
    let mut validator = StreamingSchemaValidator::new(Arc::new(schema));
    let _ = validator.handle(&start("unclosed", None));
    let _ = validator.finish();
    assert!(!validator.is_valid());
    assert!(validator.errors().iter().any(|e| e.message.contains("not closed")));
}

#[test]
fn streaming_test_streaming_validator_into_errors() {
    let schema = CompiledSchema::new();
    let mut validator = StreamingSchemaValidator::new(Arc::new(schema));
    validator.add_error(StructuredError::new("test error".to_string(), ValidationErrorType::Other));
    let errors = validator.into_errors();
    assert_eq!(errors.len(), 1);
    assert_eq!(errors[0].message, "test error");
}

#[test]
fn streaming_test_streaming_validator_min_occurs() {
    let mut schema = CompiledSchema::new();
    let complex_type = ComplexType {
        name: "ParentType".to_string(),
        base_type: None,
        content: ContentModel::Sequence(vec![ElementDef::new("required_child").with_occurs(1, Some(1))]),
        attributes: Vec::new(),
        is_abstract: false,
        mixed: false,
        ..ComplexType::new("ParentType")
    };
    schema.elements.insert("parent".to_string(), ElementDef::new("parent").with_type("ParentType"));
    schema.types.insert("ParentType".to_string(), TypeDef::Complex(complex_type));
    let mut validator = StreamingSchemaValidator::new(Arc::new(schema));
    let _ = validator.handle(&start("parent", Some(1)));
    let _ = validator.handle(&end("parent"));
    assert!(!validator.is_valid());
    assert!(validator.errors().iter().any(|e| e.message.contains("required_child")));
}

#[test]
fn streaming_test_streaming_validator() {
    let schema = CompiledSchema::new();
    let mut validator = StreamingSchemaValidator::new(Arc::new(schema));
    validator.handle(&start("root", Some(1))).unwrap();
    validator.handle(&end("root")).unwrap();
    validator.handle(&XmlEvent::Eof).unwrap();
    validator.finish().unwrap();
    assert!(validator.is_valid());
}

#[test]
fn streaming_test_streaming_validator_set_max_errors() {
    let schema = CompiledSchema::new();
    let mut validator = StreamingSchemaValidator::new(Arc::new(schema));
    validator.set_max_errors(5);
    assert!(validator.is_valid());
}

#[test]
fn streaming_test_streaming_validator_errors_methods() {
    let schema = CompiledSchema::new();
    let validator = StreamingSchemaValidator::new(Arc::new(schema));
    assert!(validator.errors().is_empty());
    assert!(validator.errors_only().is_empty());
    assert!(validator.warnings().is_empty());
    assert_eq!(validator.error_count(), 0);
    assert_eq!(validator.warning_count(), 0);
}

#[test]
fn streaming_test_streaming_validator_is_clean() {
    let schema = CompiledSchema::new();
    let validator = StreamingSchemaValidator::new(Arc::new(schema));
    assert!(validator.is_clean());
}

#[test]
fn streaming_test_streaming_validator_with_prefix() {
    let schema = CompiledSchema::new();
    let mut validator = StreamingSchemaValidator::new(Arc::new(schema));
    validator
        .handle(&XmlEvent::StartElement {
            name: "root".to_string(),
            prefix: Some("ns".to_string()),
            namespace: Some("http://example.com".to_string()),
            attributes: vec![],
            namespace_decls: vec![Namespace::new("ns".to_string(), "http://example.com".to_string())],
            line: None,
            column: None,
        })
        .unwrap();
    validator
        .handle(&XmlEvent::EndElement { name: "root".to_string(), prefix: Some("ns".to_string()) })
        .unwrap();
    validator.finish().unwrap();
    assert!(validator.is_valid());
}

#[test]
fn streaming_test_streaming_validator_with_attributes() {
    let schema = CompiledSchema::new();
    let mut validator = StreamingSchemaValidator::new(Arc::new(schema));
    validator
        .handle(&XmlEvent::StartElement {
            name: "root".to_string(),
            prefix: None,
            namespace: None,
            attributes: vec![
                ("id".to_string(), "1".to_string()),
                ("xmlns:ns".to_string(), "http://example.com".to_string()),
                ("xsi:schemaLocation".to_string(), "http://example.com schema.xsd".to_string()),
            ],
            namespace_decls: vec![],
            line: None,
            column: None,
        })
        .unwrap();
    validator.handle(&end("root")).unwrap();
    validator.finish().unwrap();
    assert!(validator.is_valid());
}

#[test]
fn streaming_test_streaming_validator_nested_elements() {
    let schema = CompiledSchema::new();
    let mut validator = StreamingSchemaValidator::new(Arc::new(schema));
    validator.handle(&start("root", None)).unwrap();
    validator.handle(&start("child", None)).unwrap();
    validator.handle(&start("grandchild", None)).unwrap();
    validator.handle(&XmlEvent::Text("content".to_string())).unwrap();
    validator.handle(&end("grandchild")).unwrap();
    validator.handle(&end("child")).unwrap();
    validator.handle(&end("root")).unwrap();
    validator.finish().unwrap();
    assert!(validator.is_valid());
}

#[test]
fn streaming_test_streaming_validator_other_events() {
    let schema = CompiledSchema::new();
    let mut validator = StreamingSchemaValidator::new(Arc::new(schema));
    validator
        .handle(&XmlEvent::ProcessingInstruction {
            target: "xml".to_string(),
            content: Some("version=\"1.0\"".to_string()),
        })
        .unwrap();
    validator.handle(&XmlEvent::Comment("This is a comment".to_string())).unwrap();
    validator.handle(&start("root", None)).unwrap();
    validator.handle(&end("root")).unwrap();
    validator.finish().unwrap();
    assert!(validator.is_valid());
}

#[test]
fn streaming_test_inherited_elements_from_base_type() {
    let mut schema = CompiledSchema::new();
    let mut base_type = ComplexType::new("BaseType");
    base_type.content =
        ContentModel::Sequence(vec![ElementDef::new("baseElement").with_type("xs:string").optional()]);
    schema.types.insert("BaseType".to_string(), TypeDef::Complex(base_type));
    let mut extended_type = ComplexType::new("ExtendedType");
    extended_type.content = ContentModel::ComplexExtension {
        base_type: "BaseType".to_string(),
        elements: vec![ElementDef::new("extElement").with_type("xs:integer").optional()],
    };
    schema.types.insert("ExtendedType".to_string(), TypeDef::Complex(extended_type));
    schema.elements.insert("root".to_string(), ElementDef::new("root").with_type("ExtendedType"));
    let mut validator = StreamingSchemaValidator::new(Arc::new(schema));
    validator.handle(&start("root", Some(1))).unwrap();
    validator.handle(&start("baseElement", Some(2))).unwrap();
    validator.handle(&XmlEvent::Text("inherited content".to_string())).unwrap();
    validator.handle(&end("baseElement")).unwrap();
    validator.handle(&start("extElement", Some(3))).unwrap();
    validator.handle(&XmlEvent::Text("42".to_string())).unwrap();
    validator.handle(&end("extElement")).unwrap();
    validator.handle(&end("root")).unwrap();
    validator.finish().unwrap();
    let errors: Vec<_> = validator.errors().iter().filter(|e| e.message.contains("baseElement")).collect();
    assert!(
        errors.is_empty(),
        "Inherited element 'baseElement' should be recognized, but got errors: {:?}",
        errors
    );
    assert!(
        validator.is_valid(),
        "Validation should pass for inherited elements, but got errors: {:?}",
        validator.errors()
    );
}

#[test]
fn streaming_test_multi_level_inheritance() {
    let mut schema = CompiledSchema::new();
    let mut grandparent_type = ComplexType::new("GrandparentType");
    grandparent_type.content =
        ContentModel::Sequence(vec![ElementDef::new("grandparentElem").with_type("xs:string").optional()]);
    schema.types.insert("GrandparentType".to_string(), TypeDef::Complex(grandparent_type));
    let mut parent_type = ComplexType::new("ParentType");
    parent_type.content = ContentModel::ComplexExtension {
        base_type: "GrandparentType".to_string(),
        elements: vec![ElementDef::new("parentElem").with_type("xs:string").optional()],
    };
    schema.types.insert("ParentType".to_string(), TypeDef::Complex(parent_type));
    let mut child_type = ComplexType::new("ChildType");
    child_type.content = ContentModel::ComplexExtension {
        base_type: "ParentType".to_string(),
        elements: vec![ElementDef::new("childElem").with_type("xs:string").optional()],
    };
    schema.types.insert("ChildType".to_string(), TypeDef::Complex(child_type));
    schema.elements.insert("root".to_string(), ElementDef::new("root").with_type("ChildType"));
    let mut validator = StreamingSchemaValidator::new(Arc::new(schema));
    validator.handle(&start("root", Some(1))).unwrap();
    validator.handle(&start("grandparentElem", Some(2))).unwrap();
    validator.handle(&XmlEvent::Text("gp".to_string())).unwrap();
    validator.handle(&end("grandparentElem")).unwrap();
    validator.handle(&start("parentElem", Some(3))).unwrap();
    validator.handle(&XmlEvent::Text("p".to_string())).unwrap();
    validator.handle(&end("parentElem")).unwrap();
    validator.handle(&start("childElem", Some(4))).unwrap();
    validator.handle(&XmlEvent::Text("c".to_string())).unwrap();
    validator.handle(&end("childElem")).unwrap();
    validator.handle(&end("root")).unwrap();
    validator.finish().unwrap();
    assert!(
        validator.is_valid(),
        "Multi-level inheritance should work, but got errors: {:?}",
        validator.errors()
    );
}

#[test]
fn streaming_test_substitution_group_basic() {
    let mut schema = CompiledSchema::new();
    let mut parent_type = ComplexType::new("ParentType");
    parent_type.content =
        ContentModel::Sequence(vec![ElementDef::new("_CityObject").with_type("AbstractCityObjectType")]);
    schema.types.insert("ParentType".to_string(), TypeDef::Complex(parent_type));
    let abstract_type = ComplexType::new("AbstractCityObjectType");
    schema.types.insert("AbstractCityObjectType".to_string(), TypeDef::Complex(abstract_type));
    let concrete_type = ComplexType::new("ReliefFeatureType");
    schema.types.insert("ReliefFeatureType".to_string(), TypeDef::Complex(concrete_type));
    let mut head_elem = ElementDef::new("_CityObject");
    head_elem.is_abstract = true;
    head_elem.type_ref = Some("AbstractCityObjectType".to_string());
    schema.elements.insert("_CityObject".to_string(), head_elem);
    let mut substitute_elem = ElementDef::new("ReliefFeature");
    substitute_elem.type_ref = Some("ReliefFeatureType".to_string());
    substitute_elem.substitution_group = Some("_CityObject".to_string());
    schema.elements.insert("ReliefFeature".to_string(), substitute_elem);
    schema.elements.insert("parent".to_string(), ElementDef::new("parent").with_type("ParentType"));
    schema.substitution_groups.insert("_CityObject".to_string(), vec!["ReliefFeature".to_string()]);
    let mut validator = StreamingSchemaValidator::new(Arc::new(schema));
    validator.handle(&start("parent", Some(1))).unwrap();
    validator.handle(&start("ReliefFeature", Some(2))).unwrap();
    validator.handle(&end("ReliefFeature")).unwrap();
    validator.handle(&end("parent")).unwrap();
    validator.finish().unwrap();
    let errors: Vec<_> = validator
        .errors()
        .iter()
        .filter(|e| e.message.contains("ReliefFeature") && e.message.contains("not declared"))
        .collect();
    assert!(
        errors.is_empty(),
        "Substitution group member 'ReliefFeature' should be accepted in place of '_CityObject', but got errors: {:?}",
        errors
    );
    assert!(
        validator.is_valid(),
        "Validation should pass for substitution group members, but got errors: {:?}",
        validator.errors()
    );
}

#[test]
fn streaming_test_substitution_group_max_occurs() {
    let mut schema = CompiledSchema::new();
    let mut parent_type = ComplexType::new("ParentType");
    parent_type.content = ContentModel::Sequence(vec![ElementDef::new("_CityObject")
        .with_type("AbstractCityObjectType")
        .with_occurs(0, Some(2))]);
    schema.types.insert("ParentType".to_string(), TypeDef::Complex(parent_type));
    let abstract_type = ComplexType::new("AbstractCityObjectType");
    schema.types.insert("AbstractCityObjectType".to_string(), TypeDef::Complex(abstract_type));
    let relief_type = ComplexType::new("ReliefFeatureType");
    schema.types.insert("ReliefFeatureType".to_string(), TypeDef::Complex(relief_type));
    let building_type = ComplexType::new("BuildingType");
    schema.types.insert("BuildingType".to_string(), TypeDef::Complex(building_type));
    let mut head_elem = ElementDef::new("_CityObject");
    head_elem.is_abstract = true;
    head_elem.type_ref = Some("AbstractCityObjectType".to_string());
    schema.elements.insert("_CityObject".to_string(), head_elem);
    let mut relief_elem = ElementDef::new("ReliefFeature");
    relief_elem.type_ref = Some("ReliefFeatureType".to_string());
    relief_elem.substitution_group = Some("_CityObject".to_string());
    schema.elements.insert("ReliefFeature".to_string(), relief_elem);
    let mut building_elem = ElementDef::new("Building");
    building_elem.type_ref = Some("BuildingType".to_string());
    building_elem.substitution_group = Some("_CityObject".to_string());
    schema.elements.insert("Building".to_string(), building_elem);
    schema.elements.insert("parent".to_string(), ElementDef::new("parent").with_type("ParentType"));
    schema.substitution_groups.insert(
        "_CityObject".to_string(),
        vec!["ReliefFeature".to_string(), "Building".to_string()],
    );
    let mut validator = StreamingSchemaValidator::new(Arc::new(schema));
    validator.handle(&start("parent", Some(1))).unwrap();
    for (i, name) in ["ReliefFeature", "Building", "ReliefFeature"].iter().enumerate() {
        validator.handle(&start(name, Some(i + 2))).unwrap();
        validator.handle(&end(name)).unwrap();
    }
    validator.handle(&end("parent")).unwrap();
    validator.finish().unwrap();
    let errors: Vec<_> = validator
        .errors()
        .iter()
        .filter(|e| e.message.contains("occurs") && e.message.contains("maximum"))
        .collect();
    assert!(
        !errors.is_empty(),
        "Should have a max_occurs error when 3 substitutes are used but max is 2, errors: {:?}",
        validator.errors()
    );
}

#[test]
fn streaming_test_choice_content_model_basic() {
    let mut schema = CompiledSchema::new();
    let mut choice_type = ComplexType::new("BoundingShapeType");
    choice_type.content = ContentModel::Choice(vec![
        ElementDef::new("Envelope").with_type("xs:string"),
        ElementDef::new("Null").with_type("xs:string"),
    ]);
    schema.types.insert("BoundingShapeType".to_string(), TypeDef::Complex(choice_type));
    schema.elements.insert("boundedBy".to_string(), ElementDef::new("boundedBy").with_type("BoundingShapeType"));
    let mut validator = StreamingSchemaValidator::new(Arc::new(schema));
    validator.handle(&start("boundedBy", Some(1))).unwrap();
    validator.handle(&start("Envelope", Some(2))).unwrap();
    validator.handle(&end("Envelope")).unwrap();
    validator.handle(&end("boundedBy")).unwrap();
    validator.finish().unwrap();
    let errors: Vec<_> = validator
        .errors()
        .iter()
        .filter(|e| e.message.contains("Null") && e.message.contains("requires"))
        .collect();
    assert!(
        errors.is_empty(),
        "Choice content model should accept any ONE of the choices, not require ALL. Got errors: {:?}",
        errors
    );
    assert!(
        validator.is_valid(),
        "Validation should pass when one choice element is present, but got errors: {:?}",
        validator.errors()
    );
}

fn sequence_type(name: &str, children: Vec<ElementDef>) -> ComplexType {
    let mut t = ComplexType::new(name);
    t.content = ContentModel::Sequence(children);
    t
}

#[test]
fn streaming_unknown_element_entry_is_exact() {
    let mut schema = CompiledSchema::new();
    schema.elements.insert("known".to_string(), ElementDef::new("known"));
    let mut validator = StreamingSchemaValidator::new(Arc::new(schema));
    validator
        .handle(&XmlEvent::StartElement {
            name: "unknown".to_string(),
            prefix: Some("p".to_string()),
            namespace: None,
            attributes: vec![],
            namespace_decls: vec![],
            line: Some(7),
            column: Some(3),
        })
        .unwrap();
    let errors = validator.errors();
    assert_eq!(errors.len(), 1);
    assert_eq!(errors[0].message, "element 'p:unknown' is not declared in schema");
    assert_eq!(errors[0].error_type, ValidationErrorType::UnknownElement);
    assert_eq!(errors[0].node_name.as_deref(), Some("p:unknown"));
    assert_eq!(errors[0].element_path.as_deref(), Some("/unknown"));
    assert_eq!(errors[0].line, Some(7));
    assert_eq!(errors[0].column, None);
}

#[test]
fn streaming_max_occurs_entry_is_exact() {
    let mut schema = CompiledSchema::new();
    let parent = sequence_type("ParentType", vec![ElementDef::new("child").with_occurs(0, Some(1))]);
    schema.types.insert("ParentType".to_string(), TypeDef::Complex(parent));
    schema.elements.insert("parent".to_string(), ElementDef::new("parent").with_type("ParentType"));
    let mut validator = StreamingSchemaValidator::new(Arc::new(schema));
    validator.handle(&start("parent", Some(1))).unwrap();
    validator.handle(&start("child", Some(2))).unwrap();
    validator.handle(&end("child")).unwrap();
    assert!(validator.is_clean());
    validator.handle(&start("child", Some(3))).unwrap();
    let errors = validator.errors();
    assert_eq!(errors.len(), 1);
    assert_eq!(errors[0].message, "element 'child' (or substitutes) occurs 2 times, but maximum is 1");
    assert_eq!(errors[0].error_type, ValidationErrorType::TooManyOccurrences);
    assert_eq!(errors[0].node_name.as_deref(), Some("child"));
    assert_eq!(errors[0].element_path.as_deref(), Some("/parent/child"));
    assert_eq!(errors[0].line, Some(3));
}

#[test]
fn streaming_min_occurs_entries_are_exact() {
    let mut schema = CompiledSchema::new();
    let parent = sequence_type(
        "ParentType",
        vec![ElementDef::new("a").with_occurs(1, Some(1)), ElementDef::new("b").with_occurs(2, None)],
    );
    schema.types.insert("ParentType".to_string(), TypeDef::Complex(parent));
    schema.elements.insert("parent".to_string(), ElementDef::new("parent").with_type("ParentType"));
    let mut validator = StreamingSchemaValidator::new(Arc::new(schema));
    validator.handle(&start("parent", Some(1))).unwrap();
    validator.handle(&start("b", Some(2))).unwrap();
    validator.handle(&end("b")).unwrap();
    validator.handle(&end("parent")).unwrap();
    let errors = validator.errors();
    assert_eq!(errors.len(), 2);
    assert_eq!(errors[0].message, "element 'parent' requires child 'a' at least 1 time(s), but found 0");
    assert_eq!(errors[0].error_type, ValidationErrorType::MissingRequiredElement);
    assert_eq!(errors[0].expected.as_deref(), Some("at least 1 occurrence(s) of 'a'"));
    assert_eq!(errors[0].found.as_deref(), Some("0 occurrence(s)"));
    assert_eq!(errors[0].element_path.as_deref(), Some("/"));
    assert_eq!(errors[1].message, "element 'parent' requires child 'b' at least 2 time(s), but found 1");
    assert_eq!(errors[1].error_type, ValidationErrorType::TooFewOccurrences);
    assert_eq!(errors[1].found.as_deref(), Some("1 occurrence(s)"));
}

#[test]
fn streaming_choice_without_any_child_is_reported() {
    let mut schema = CompiledSchema::new();
    let mut choice_type = ComplexType::new("BoundingShapeType");
    choice_type.content = ContentModel::Choice(vec![ElementDef::new("Envelope"), ElementDef::new("Null")]);
    schema.types.insert("BoundingShapeType".to_string(), TypeDef::Complex(choice_type));
    schema.elements.insert("boundedBy".to_string(), ElementDef::new("boundedBy").with_type("BoundingShapeType"));
    let mut validator = StreamingSchemaValidator::new(Arc::new(schema));
    validator.handle(&start("boundedBy", Some(1))).unwrap();
    validator.handle(&end("boundedBy")).unwrap();
    let errors = validator.errors();
    assert_eq!(errors.len(), 1);
    assert_eq!(errors[0].message, "element 'boundedBy' requires one of: Envelope, Null");
    assert_eq!(errors[0].expected.as_deref(), Some("one of: Envelope, Null"));
    assert_eq!(errors[0].found.as_deref(), Some("none"));
    assert_eq!(errors[0].error_type, ValidationErrorType::MissingRequiredElement);
}

#[test]
fn streaming_text_checks() {
    let mut schema = CompiledSchema::new();
    let mut code = SimpleType::new("CodeType", "xs:string");
    code.max_length = Some(3);
    schema.types.insert("CodeType".to_string(), TypeDef::Simple(code));
    schema.types.insert("ParentType".to_string(), TypeDef::Complex(sequence_type("ParentType", vec![])));
    schema.elements.insert("code".to_string(), ElementDef::new("code").with_type("CodeType"));
    schema.elements.insert("parent".to_string(), ElementDef::new("parent").with_type("ParentType"));
    let mut validator = StreamingSchemaValidator::new(Arc::new(schema));
    validator.handle(&start("code", Some(1))).unwrap();
    validator.handle(&XmlEvent::Text("ab".to_string())).unwrap();
    validator.handle(&XmlEvent::CData("cd".to_string())).unwrap();
    assert_eq!(validator.state.current_element().unwrap().text_content, "abcd");
    validator.handle(&end("code")).unwrap();
    validator.handle(&start("parent", Some(2))).unwrap();
    validator.handle(&XmlEvent::Text("  \n".to_string())).unwrap();
    validator.handle(&end("parent")).unwrap();
    validator.handle(&start("parent", Some(3))).unwrap();
    validator.handle(&XmlEvent::Text(" x ".to_string())).unwrap();
    validator.handle(&end("parent")).unwrap();
    let errors = validator.errors();
    assert_eq!(errors.len(), 2);
    assert_eq!(errors[0].message, "invalid content for element 'code': value length 4 exceeds maximum length 3");
    assert_eq!(errors[0].error_type, ValidationErrorType::InvalidContent);
    assert_eq!(errors[1].message, "element 'parent' has element-only content but contains text");
    assert_eq!(errors[1].line, Some(3));
}

#[test]
fn streaming_finish_reports_innermost_first() {
    let schema = CompiledSchema::new();
    let mut validator = StreamingSchemaValidator::new(Arc::new(schema));
    validator.handle(&start("a", Some(1))).unwrap();
    validator.handle(&start("b", Some(2))).unwrap();
    validator.finish().unwrap();
    let errors = validator.errors();
    assert_eq!(errors.len(), 2);
    assert_eq!(errors[0].message, "element 'b' is not closed");
    assert_eq!(errors[1].message, "element 'a' is not closed");
    assert_eq!(errors[0].error_type, ValidationErrorType::UnclosedElement);
    assert_eq!(errors[0].line, None);
    assert_eq!(errors[0].element_path, None);
    assert!(validator.state.current_element().is_none());
}

#[test]
fn streaming_transitive_members_follow_name_variants() {
    let mut schema = CompiledSchema::new();
    schema.substitution_groups.insert("gml:_Feature".to_string(), vec!["core:_CityObject".to_string()]);
    schema.substitution_groups.insert("_CityObject".to_string(), vec!["Building".to_string(), "Relief".to_string()]);
    schema.substitution_groups.insert("Relief".to_string(), vec!["Building".to_string(), "Tin".to_string()]);
    let validator = StreamingSchemaValidator::new(Arc::new(schema));
    assert_eq!(
        validator.get_all_substitution_members("_Feature"),
        vec!["core:_CityObject".to_string(), "Building".to_string(), "Relief".to_string(), "Tin".to_string()]
    );
    assert_eq!(
        validator.get_all_substitution_members("x:Relief"),
        vec!["Building".to_string(), "Tin".to_string()]
    );
    assert!(validator.get_all_substitution_members("Tin").is_empty());
}

#[test]
fn streaming_substitution_group_head_lookup() {
    let mut schema = CompiledSchema::new();
    let mut member = ElementDef::new("Building");
    member.substitution_group = Some("_Site".to_string());
    schema.elements.insert("Building".to_string(), member);
    schema.substitution_groups.insert("_CityObject".to_string(), vec!["Tunnel".to_string()]);
    let validator = StreamingSchemaValidator::new(Arc::new(schema));
    assert_eq!(validator.find_substitution_group_head("Building").as_deref(), Some("_Site"));
    assert_eq!(validator.find_substitution_group_head("Tunnel").as_deref(), Some("_CityObject"));
    assert_eq!(validator.find_substitution_group_head("Bridge"), None);
}

#[test]
fn streaming_local_declaration_is_used() {
    let mut schema = CompiledSchema::new();
    let inner = sequence_type("", vec![ElementDef::new("d")]);
    let mut c = ElementDef::new("c");
    c.inline_type = Some(Box::new(TypeDef::Complex(inner)));
    schema.types.insert("RootType".to_string(), TypeDef::Complex(sequence_type("RootType", vec![c])));
    schema.elements.insert("root".to_string(), ElementDef::new("root").with_type("RootType"));
    let mut validator = StreamingSchemaValidator::new(Arc::new(schema));
    validator.handle(&start("root", Some(1))).unwrap();
    validator.handle(&start("c", Some(2))).unwrap();
    assert!(validator.state.current_element().unwrap().schema_validated);
    validator.handle(&end("c")).unwrap();
    validator.handle(&end("root")).unwrap();
    let errors = validator.errors();
    assert_eq!(errors.len(), 1);
    assert_eq!(errors[0].message, "element 'c' requires child 'd' at least 1 time(s), but found 0");
    assert_eq!(errors[0].element_path.as_deref(), Some("/root"));
}

#[test]
fn streaming_entry_limit_applies_to_events() {
    let mut schema = CompiledSchema::new();
    schema.elements.insert("known".to_string(), ElementDef::new("known"));
    let mut validator = StreamingSchemaValidator::new(Arc::new(schema));
    validator.set_max_errors(1);
    validator.handle(&start("x", None)).unwrap();
    validator.handle(&start("y", None)).unwrap();
    assert_eq!(validator.errors().len(), 1);
    assert_eq!(validator.errors()[0].message, "element 'x' is not declared in schema");
}

#[test]
fn streaming_namespace_scopes_follow_tags() {
    let schema = CompiledSchema::new();
    let mut validator = StreamingSchemaValidator::new(Arc::new(schema));
    validator
        .handle(&XmlEvent::StartElement {
            name: "root".to_string(),
            prefix: Some("ns".to_string()),
            namespace: Some("urn:a".to_string()),
            attributes: vec![],
            namespace_decls: vec![Namespace::new("ns".to_string(), "urn:a".to_string())],
            line: None,
            column: None,
        })
        .unwrap();
    assert_eq!(validator.state.resolve_prefix("ns"), Some("urn:a"));
    assert_eq!(
        validator.state.current_element().unwrap().namespace.as_deref().map(|s| s.as_str()),
        Some("urn:a")
    );
    validator.handle(&XmlEvent::EndElement { name: "root".to_string(), prefix: Some("ns".to_string()) }).unwrap();
    assert_eq!(validator.state.resolve_prefix("ns"), None);
}

#[test]
fn streaming_runs_on_tokenized_documents() {
    let mut schema = CompiledSchema::new();
    let parent = sequence_type("ParentType", vec![ElementDef::new("child").with_occurs(1, Some(1))]);
    schema.types.insert("ParentType".to_string(), TypeDef::Complex(parent));
    schema.elements.insert("parent".to_string(), ElementDef::new("parent").with_type("ParentType"));
    let mut validator = StreamingSchemaValidator::new(Arc::new(schema));
    let events = fastxml::xml::parse_events("<parent>\n<child/>\n<child/>\n</parent>").unwrap();
    for event in &events {
        validator.handle(event).unwrap();
    }
    validator.finish().unwrap();
    let errors = validator.errors();
    assert_eq!(errors.len(), 1);
    assert_eq!(errors[0].message, "element 'child' (or substitutes) occurs 2 times, but maximum is 1");
    assert_eq!(errors[0].line, Some(3));
}

#[test]
fn streaming_transitive_members_depth_first() {
    let mut schema = CompiledSchema::new();
    schema.substitution_groups.insert("H".to_string(), vec!["A".to_string(), "B".to_string()]);
    schema.substitution_groups.insert("A".to_string(), vec!["C".to_string()]);
    schema.substitution_groups.insert("C".to_string(), vec!["H".to_string(), "D".to_string()]);
    let validator = StreamingSchemaValidator::new(Arc::new(schema));
    assert_eq!(
        validator.get_all_substitution_members("H"),
        vec!["A".to_string(), "C".to_string(), "H".to_string(), "D".to_string(), "B".to_string()]
    );
}

#[test]
fn streaming_open_close_restores_stack() {
    let schema = CompiledSchema::new();
    let mut validator = StreamingSchemaValidator::new(Arc::new(schema));
    validator.handle(&start("root", Some(1))).unwrap();
    let depth = validator.state.depth;
    let scopes = validator.state.namespace_stack.len();
    validator.handle(&start("item", Some(2))).unwrap();
    validator.handle(&end("item")).unwrap();
    assert_eq!(validator.state.element_stack.len(), 1);
    assert_eq!(validator.state.depth, depth);
    assert_eq!(validator.state.namespace_stack.len(), scopes);
    assert_eq!(validator.state.element_stack[0].get_child_count("item"), 1);
    validator.handle(&start("item", Some(3))).unwrap();
    validator.handle(&end("item")).unwrap();
    assert_eq!(validator.state.element_stack[0].get_child_count("item"), 2);
}
