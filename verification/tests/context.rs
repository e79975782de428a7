use fastxml::context::XmlSchemaValidationContext;
use fastxml::schema::CompiledSchema;

#[test]
fn test_xml_schema_validation_context_validate_empty_doc() {
    let schema = CompiledSchema::new();
    let ctx = XmlSchemaValidationContext::new(schema);
    let errors = ctx.validate("<root/>").unwrap();
    assert!(errors.is_empty());
}

#[test]
fn test_xml_schema_validation_context_validate_with_text() {
    let schema = CompiledSchema::new();
    let ctx = XmlSchemaValidationContext::new(schema);
    let errors = ctx.validate("<root>some text content</root>").unwrap();
    assert!(errors.is_empty());
}

#[test]
fn test_xml_schema_validation_context_validate_nested() {
    let schema = CompiledSchema::new();
    let ctx = XmlSchemaValidationContext::new(schema);
    let errors = ctx.validate("<root><child><grandchild/></child></root>").unwrap();
    assert!(errors.is_empty());
}

#[test]
fn context_rejects_malformed_text() {
    let ctx = XmlSchemaValidationContext::new(CompiledSchema::new());
    assert!(ctx.validate("<root><child></root>").is_err());
}
