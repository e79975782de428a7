use std::sync::Arc;

use fastxml::context::XmlSchemaValidationContext;
use fastxml::error::{ErrorLevel, ValidationErrorType};
use fastxml::facade::Validator;
use fastxml::schema::{AttributeDef, CompiledSchema, ComplexType, ContentModel, ElementDef, TypeDef};

fn attr(name: &str, type_ref: Option<&str>, required: bool) -> AttributeDef {
    AttributeDef {
        name: name.to_string(),
        type_ref: type_ref.map(|t| t.to_string()),
        inline_type: None,
        required,
        fixed: None,
        is_ref: false,
    }
}

/// `item` has type `Item`: attribute `id` (xs:ID), required `kind`, and
/// `ref` (xs:IDREF); `list` holds any number of items.
fn schema() -> CompiledSchema {
    let mut s = CompiledSchema::new();
    let mut item = ComplexType::new("Item");
    item.attributes = vec![attr("id", Some("xs:ID"), false), attr("kind", None, true), attr("ref", Some("xs:IDREF"), false)];
    let mut list = ComplexType::new("List");
    list.content = ContentModel::Sequence(vec![ElementDef::new("item").with_type("Item").with_occurs(0, None)]);
    s.types.insert("Item".to_string(), TypeDef::Complex(item));
    s.types.insert("List".to_string(), TypeDef::Complex(list));
    s.elements.insert("item".to_string(), ElementDef::new("item").with_type("Item"));
    s.elements.insert("list".to_string(), ElementDef::new("list").with_type("List"));
    s
}

#[test]
fn front_door_reports_attribute_errors() {
    let xml = "<list>\n<item id=\"a\" kind=\"k\" color=\"red\"/>\n<item id=\"b\"/>\n</list>";
    let report = Validator::from_reader(xml).schema(Arc::new(schema())).run().unwrap();
    let msgs: Vec<&str> = report.entries().iter().map(|e| e.message.as_str()).collect();
    assert!(msgs.iter().any(|m| m.starts_with("element 'item': attribute 'color'")), "{:?}", msgs);
    assert!(msgs.iter().any(|m| m.contains("required attribute 'kind' is missing")), "{:?}", msgs);
    let first = report
        .entries()
        .iter()
        .find(|e| e.message.contains("color"))
        .unwrap();
    assert_eq!(first.error_type, ValidationErrorType::InvalidAttributeValue);
    assert_eq!(first.line, Some(2));
    assert_eq!(first.node_name.as_deref(), Some("item"));
    assert_eq!(first.level, ErrorLevel::Error);
}

#[test]
fn front_door_checks_ids_across_the_document() {
    let xml = "<list><item id=\"a\" kind=\"k\"/><item id=\"a\" kind=\"k\" ref=\"z\"/></list>";
    let report = Validator::from_reader(xml).schema(Arc::new(schema())).run().unwrap();
    let msgs: Vec<&str> = report.entries().iter().map(|e| e.message.as_str()).collect();
    assert_eq!(msgs, ["duplicate ID value 'a'", "IDREF 'z' does not match any ID in the document"]);
    assert!(report.entries().iter().all(|e| e.error_type == ValidationErrorType::IdentityConstraint));
}

#[test]
fn valid_attributes_give_no_entry() {
    let xml = "<list><item id=\"a\" kind=\"k\"/><item id=\"b\" kind=\"k\" ref=\"a\"/></list>";
    let report = Validator::from_reader(xml).schema(Arc::new(schema())).run().unwrap();
    assert!(report.is_clean());
    let ctx = XmlSchemaValidationContext::new(schema());
    assert!(ctx.validate(xml).unwrap().is_empty());
}

#[test]
fn context_reports_undeclared_attribute() {
    let ctx = XmlSchemaValidationContext::new(schema());
    let errors = ctx.validate("<list><item kind=\"k\" extra=\"1\"/></list>").unwrap();
    assert_eq!(errors.len(), 1);
    assert!(errors[0].message.contains("extra"));
}

#[test]
fn xsi_type_refused_and_substituted() {
    let mut s = schema();
    let mut special = ComplexType::new("Special");
    special.content = ContentModel::ComplexExtension { base_type: "Item".to_string(), elements: vec![] };
    special.base_type = Some("Item".to_string());
    special.attributes = vec![attr("level", None, true)];
    s.types.insert("Special".to_string(), TypeDef::Complex(special));
    let schema = Arc::new(s);
    let bad = "<list xmlns:xsi=\"http://www.w3.org/2001/XMLSchema-instance\"><item kind=\"k\" xsi:type=\"Nope\"/></list>";
    let report = Validator::from_reader(bad).schema(Arc::clone(&schema)).run().unwrap();
    let msgs: Vec<&str> = report.entries().iter().map(|e| e.message.as_str()).collect();
    assert_eq!(msgs, ["element 'item': xsi:type 'Nope' is not defined in schema"]);
    let sub = "<list xmlns:xsi=\"http://www.w3.org/2001/XMLSchema-instance\"><item kind=\"k\" xsi:type=\"Special\"/></list>";
    let report = Validator::from_reader(sub).schema(schema).run().unwrap();
    let msgs: Vec<&str> = report.entries().iter().map(|e| e.message.as_str()).collect();
    assert_eq!(msgs.len(), 1, "{:?}", msgs);
    assert!(msgs[0].contains("required attribute 'level' is missing"), "{:?}", msgs);
}

fn run_messages(s: CompiledSchema, xml: &str) -> Vec<(String, ValidationErrorType, Option<String>, Option<usize>)> {
    let report = Validator::from_reader(xml).schema(Arc::new(s)).run().unwrap();
    report
        .entries()
        .iter()
        .map(|e| (e.message.clone(), e.error_type, e.node_name.clone(), e.line))
        .collect()
}

#[test]
fn abstract_element_is_refused() {
    let mut s = CompiledSchema::new();
    let mut a = ElementDef::new("a");
    a.is_abstract = true;
    s.elements.insert("a".to_string(), a);
    let got = run_messages(s, "<a/>");
    assert_eq!(
        got,
        vec![(
            "element 'a' is abstract and cannot be used directly".to_string(),
            ValidationErrorType::InvalidContent,
            Some("a".to_string()),
            Some(1)
        )]
    );
}

#[test]
fn nil_on_element_not_nillable_is_refused() {
    let mut s = CompiledSchema::new();
    s.elements.insert("a".to_string(), ElementDef::new("a"));
    let got = run_messages(s, "<a xsi:nil=\"true\"/>");
    assert_eq!(
        got,
        vec![(
            "element 'a' is not nillable but has xsi:nil=\"true\"".to_string(),
            ValidationErrorType::InvalidAttributeValue,
            Some("a".to_string()),
            Some(1)
        )]
    );
}

#[test]
fn nilled_element_must_be_empty() {
    let mut s = CompiledSchema::new();
    let mut a = ElementDef::new("a");
    a.nillable = true;
    s.elements.insert("a".to_string(), a);
    let got = run_messages(s, "<a xsi:nil=\" true \">x</a>");
    assert_eq!(
        got,
        vec![(
            "element 'a' has xsi:nil=\"true\" but is not empty".to_string(),
            ValidationErrorType::InvalidContent,
            Some("a".to_string()),
            Some(1)
        )]
    );
}

#[test]
fn nilled_element_with_only_whitespace_is_clean() {
    let mut s = CompiledSchema::new();
    let mut a = ElementDef::new("a");
    a.nillable = true;
    s.elements.insert("a".to_string(), a);
    assert!(run_messages(s, "<a xsi:nil=\"true\">  \n </a>").is_empty());
}

#[test]
fn nil_false_is_not_checked() {
    let mut s = CompiledSchema::new();
    s.elements.insert("a".to_string(), ElementDef::new("a"));
    assert!(run_messages(s, "<a xsi:nil=\"false\">x</a>").is_empty());
}

#[test]
fn start_tag_entries_carry_the_element_path() {
    let mut s = CompiledSchema::new();
    let mut a = ElementDef::new("a");
    a.is_abstract = true;
    a.nillable = true;
    s.elements.insert("a".to_string(), a);
    s.elements.insert("r".to_string(), ElementDef::new("r"));
    let report = Validator::from_reader("<r><a xsi:nil=\"true\">x</a></r>").schema(Arc::new(s)).run().unwrap();
    let got: Vec<(&str, Option<&str>)> = report
        .entries()
        .iter()
        .map(|e| (e.message.as_str(), e.element_path.as_deref()))
        .collect();
    assert_eq!(
        got,
        vec![
            ("element 'a' is abstract and cannot be used directly", Some("/r/a")),
            ("element 'a' has xsi:nil=\"true\" but is not empty", Some("/r")),
        ]
    );
}

#[test]
fn id_entries_carry_the_path_and_unresolved_ones_do_not() {
    let xml = "<list><item id=\"a\" kind=\"k\"/><item id=\"a\" kind=\"k\" ref=\"z\"/></list>";
    let report = Validator::from_reader(xml).schema(Arc::new(schema())).run().unwrap();
    let paths: Vec<Option<&str>> = report.entries().iter().map(|e| e.element_path.as_deref()).collect();
    assert_eq!(paths, vec![Some("/list/item"), None]);
}
