use std::sync::Arc;

use fastxml::schema::{CompiledSchema, ComplexType, ContentModel, ElementDef, SimpleType, TypeDef};
use fastxml::two_pass::TwoPassSchemaValidator;
use fastxml::ValidationMode;

fn with_parent(content: ContentModel) -> CompiledSchema {
    let mut s = CompiledSchema::new();
    let mut t = ComplexType::new("ParentType");
    t.content = content;
    s.types.insert("ParentType".to_string(), TypeDef::Complex(t));
    s.elements.insert("parent".to_string(), ElementDef::new("parent").with_type("ParentType"));
    s
}

fn messages(schema: CompiledSchema, xml: &str) -> Vec<String> {
    TwoPassSchemaValidator::new(Arc::new(schema))
        .validate(xml)
        .unwrap()
        .into_iter()
        .map(|e| e.message)
        .collect()
}

#[test]
fn occurrence_messages() {
    let s = with_parent(ContentModel::Sequence(vec![
        ElementDef::new("a").with_occurs(2, Some(3)),
        ElementDef::new("b").with_occurs(0, Some(1)),
    ]));
    let m = messages(s, "<parent><a/><b/><b/></parent>");
    assert_eq!(
        m,
        vec![
            "element 'parent' requires child 'a' at least 2 time(s), but found 1".to_string(),
            "element 'b' (or substitutes) occurs 2 times, but maximum is 1".to_string(),
        ]
    );
}

#[test]
fn choice_requires_one_alternative() {
    let s = with_parent(ContentModel::Choice(vec![ElementDef::new("x"), ElementDef::new("y")]));
    let errors = TwoPassSchemaValidator::new(Arc::new(s)).validate("<parent/>").unwrap();
    assert_eq!(errors.len(), 1);
    assert_eq!(errors[0].message, "element 'parent' requires one of: x, y");
    assert_eq!(errors[0].expected.as_deref(), Some("one of: x, y"));
    assert_eq!(errors[0].found.as_deref(), Some("none"));
}

#[test]
fn sequence_order_message() {
    let s = with_parent(ContentModel::Sequence(vec![
        ElementDef::new("a").optional(),
        ElementDef::new("b").optional(),
    ]));
    let m = messages(s, "<parent><b/><a/></parent>");
    assert_eq!(
        m,
        vec!["element 'a' in 'parent' appears out of sequence order (expected after 'a')".to_string()]
    );
}

#[test]
fn element_only_content_rejects_text() {
    let s = with_parent(ContentModel::Sequence(vec![]));
    assert_eq!(
        messages(s, "<parent>  text </parent>"),
        vec!["element 'parent' has element-only content but contains text".to_string()]
    );
    let s2 = with_parent(ContentModel::Sequence(vec![]));
    assert!(messages(s2, "<parent> \n\t</parent>").is_empty());
}

#[test]
fn simple_content_is_checked() {
    let mut s = CompiledSchema::new();
    s.types.insert("xs:integer".to_string(), TypeDef::Simple(SimpleType::new("xs:integer", "xs:decimal")));
    let mut small = SimpleType::new("Small", "xs:integer");
    small.max_inclusive = Some("9".to_string());
    s.types.insert("Small".to_string(), TypeDef::Simple(small));
    s.elements.insert("n".to_string(), ElementDef::new("n").with_type("Small"));
    let mut nil = ElementDef::new("m").with_type("Small");
    nil.nillable = true;
    s.elements.insert("m".to_string(), nil);
    let v = TwoPassSchemaValidator::new(Arc::new(s));
    let e = v.validate("<n>12</n>").unwrap();
    assert_eq!(e[0].message, "element 'n': value '12' is greater than maximum 9");
    let e = v.validate("<n>x</n>").unwrap();
    assert_eq!(e[0].message, "element 'n': value 'x' is not a valid xs:integer");
    let e = v.validate("<n> 7 </n>").unwrap();
    assert!(e.is_empty());
    let e = v.validate("<n></n>").unwrap();
    assert_eq!(e[0].message, "element 'n': value '' is not a valid xs:integer");
    assert!(v.validate("<m></m>").unwrap().is_empty());
}

#[test]
fn prefixed_declarations_are_found() {
    let mut s = CompiledSchema::new();
    s.elements.insert("p:item".to_string(), ElementDef::new("item"));
    let v = TwoPassSchemaValidator::new(Arc::new(s));
    assert!(v.validate("<p:item/>").unwrap().is_empty());
    let e = v.validate("<q:other/>").unwrap();
    assert_eq!(e[0].message, "element 'q:other' is not declared in schema");
    assert_eq!(e[0].node_name.as_deref(), Some("q:other"));
    assert_eq!(e[0].line, Some(1));
    assert_eq!(e[0].column, Some(1));
}

#[test]
fn children_listed_by_the_parent_are_not_unknown() {
    let mut s = with_parent(ContentModel::Sequence(vec![ElementDef::new("local").optional()]));
    s.elements.insert("other".to_string(), ElementDef::new("other"));
    assert!(messages(s, "<parent><local/></parent>").is_empty());
}

#[test]
fn lenient_mode_reports_no_unknown_elements() {
    let mut s = CompiledSchema::new();
    s.elements.insert("root".to_string(), ElementDef::new("root"));
    let v = TwoPassSchemaValidator::new(Arc::new(s)).with_mode(ValidationMode::Lenient);
    assert!(v.validate("<root><a/><b><c/></b></root>").unwrap().is_empty());
}

#[test]
fn capped_run_is_a_prefix_of_the_full_run() {
    let mut s = CompiledSchema::new();
    s.elements.insert("root".to_string(), ElementDef::new("root"));
    let schema = Arc::new(s);
    let xml = "<root><a/><b/><c/></root>";
    let full = TwoPassSchemaValidator::new(schema.clone()).validate(xml).unwrap();
    let capped = TwoPassSchemaValidator::new(schema).with_max_errors(2).validate(xml).unwrap();
    assert_eq!(full.len(), 3);
    assert_eq!(capped.len(), 2);
    for (c, f) in capped.iter().zip(full.iter()) {
        assert_eq!(c.message, f.message);
    }
}

#[test]
fn malformed_documents_are_refused() {
    let v = TwoPassSchemaValidator::new(Arc::new(CompiledSchema::new()));
    assert!(v.validate("<a><b></a>").is_err());
    assert!(v.validate("<a>").is_err());
    assert!(v.validate("text<a/>").is_err());
}
