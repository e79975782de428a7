use fastxml::attributes::{
    collect_attributes, is_exempt_attribute, validate_attribute_value, validate_element_attributes,
};
use fastxml::schema::{
    AttributeDef, CompiledSchema, ComplexType, ContentModel, ProcessContents, SimpleType, TypeDef,
    WildcardConstraint, WildcardNamespace,
};

fn attr(name: &str, type_ref: Option<&str>) -> AttributeDef {
    AttributeDef {
        name: name.to_string(),
        type_ref: type_ref.map(|t| t.to_string()),
        inline_type: None,
        required: false,
        fixed: None,
        is_ref: false,
    }
}

/// `Base` declares `id` (xs:ID) and `size` (xs:integer); `Derived` extends
/// it with a required `kind` and a fixed `version`, and redeclares `size`.
fn schema() -> CompiledSchema {
    let mut s = CompiledSchema::new();
    s.types.insert("xs:integer".to_string(), TypeDef::Simple(SimpleType::new("xs:integer", "xs:decimal")));
    let mut base = ComplexType::new("Base");
    base.attributes = vec![attr("id", Some("xs:ID")), attr("size", Some("xs:integer"))];
    let mut derived = ComplexType::new("Derived");
    derived.content = ContentModel::ComplexExtension { base_type: "Base".to_string(), elements: vec![] };
    let mut kind = attr("kind", None);
    kind.required = true;
    let mut version = attr("version", None);
    version.fixed = Some("1.0".to_string());
    let mut short = SimpleType::new("", "xs:string");
    short.max_length = Some(3);
    let mut size = attr("size", None);
    size.inline_type = Some(short);
    derived.attributes = vec![kind, version, size];
    s.types.insert("Base".to_string(), TypeDef::Complex(base));
    s.types.insert("Derived".to_string(), TypeDef::Complex(derived));
    s
}

fn derived(s: &CompiledSchema) -> &ComplexType {
    match s.get_type("Derived") {
        Some(TypeDef::Complex(c)) => c,
        _ => panic!("Derived is a complex type"),
    }
}

#[test]
fn derived_declarations_shadow_base_ones() {
    let s = schema();
    let defs = collect_attributes(&s, derived(&s));
    let names: Vec<&str> = defs.iter().map(|d| d.name.as_str()).collect();
    assert_eq!(names, ["kind", "version", "size", "id"]);
    assert!(defs[2].inline_type.is_some());
}

#[test]
fn attribute_errors_and_ids() {
    let s = schema();
    let attrs = [
        ("kind", None, "a"),
        ("version", None, "2.0"),
        ("size", None, "long"),
        ("id", None, " x1 "),
        ("other", None, "v"),
        ("xmlns:p", None, "urn:p"),
        ("xsi:type", None, "Derived"),
        ("xml:lang", Some("http://www.w3.org/XML/1998/namespace"), "en"),
    ];
    let out = validate_element_attributes(&s, derived(&s), &attrs);
    assert_eq!(
        out.errors,
        vec![
            "attribute 'version' must have the fixed value '1.0', found '2.0'".to_string(),
            "attribute 'size': value length 4 exceeds maximum length 3".to_string(),
            "attribute 'other' is not allowed".to_string(),
        ]
    );
    assert_eq!(out.ids, vec!["x1".to_string()]);
    assert!(out.idrefs.is_empty());
}

#[test]
fn missing_required_attribute() {
    let s = schema();
    let out = validate_element_attributes(&s, derived(&s), &[("p:version", None, "1.0")]);
    assert_eq!(out.errors, vec!["required attribute 'kind' is missing".to_string()]);
}

#[test]
fn wildcards_admit_undeclared_attributes() {
    let mut s = schema();
    let mut open = ComplexType::new("Open");
    open.attr_wildcard = Some(WildcardConstraint {
        namespace: WildcardNamespace::Any,
        process_contents: ProcessContents::Strict,
        min_occurs: 0,
        max_occurs: None,
        target_namespace: None,
    });
    s.attributes.insert("g".to_string(), attr("g", Some("xs:integer")));
    s.types.insert("Open".to_string(), TypeDef::Complex(open));
    let open = match s.get_type("Open") {
        Some(TypeDef::Complex(c)) => c,
        _ => panic!("Open is a complex type"),
    };
    let out = validate_element_attributes(&s, open, &[("g", None, "x"), ("h", None, "1")]);
    assert_eq!(
        out.errors,
        vec![
            "attribute 'g': value 'x' is not a valid xs:integer".to_string(),
            "attribute 'h' matched a strict wildcard but is not declared".to_string(),
        ]
    );
}

#[test]
fn any_type_places_no_constraint() {
    let s = schema();
    let any = ComplexType::new("anyType");
    let out = validate_element_attributes(&s, &any, &[("whatever", None, "1")]);
    assert!(out.errors.is_empty());
}

#[test]
fn attribute_values() {
    let s = schema();
    let a = attr("n", Some("xs:integer"));
    assert_eq!(validate_attribute_value(&s, &a, "42"), None);
    assert_eq!(
        validate_attribute_value(&s, &a, "4x"),
        Some("attribute 'n': value '4x' is not a valid xs:integer".to_string())
    );
    let untyped = attr("u", None);
    assert_eq!(validate_attribute_value(&s, &untyped, "anything"), None);
}

#[test]
fn exempt_attributes() {
    assert!(is_exempt_attribute("xmlns"));
    assert!(is_exempt_attribute("xmlns:gml"));
    assert!(is_exempt_attribute("xsi:nil"));
    assert!(is_exempt_attribute("p:schemaLocation"));
    assert!(!is_exempt_attribute("noNamespaceSchemaLocation"));
    assert!(!is_exempt_attribute("xmlnsx"));
    assert!(!is_exempt_attribute("id"));
}
