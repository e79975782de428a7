use fastxml::schema::{
    BlockSet, CompiledSchema, ComplexType, ContentModel, DerivationMethod, ElementDef, TypeDef,
};
use fastxml::xsi_type::resolve_xsi_type;

/// B (blocks extension), De extends B, Dr restricts B, and a root element
/// whose items are of type B.
fn schema() -> CompiledSchema {
    let mut s = CompiledSchema::new();
    let foo = || ElementDef::new("foo").with_type("xs:string").optional();
    let mut b = ComplexType::new("B");
    b.block = BlockSet { extension: true, restriction: false };
    b.content = ContentModel::Sequence(vec![foo()]);
    let mut de = ComplexType::new("De");
    de.base_type = Some("B".to_string());
    de.derivation = Some(DerivationMethod::Extension);
    de.content = ContentModel::ComplexExtension { base_type: "B".to_string(), elements: vec![] };
    let mut dr = ComplexType::new("Dr");
    dr.base_type = Some("B".to_string());
    dr.derivation = Some(DerivationMethod::Restriction);
    dr.content = ContentModel::Sequence(vec![foo()]);
    let mut root = ComplexType::new("");
    root.content = ContentModel::Sequence(vec![ElementDef::new("item").with_type("B")]);
    s.types.insert("B".to_string(), TypeDef::Complex(b));
    s.types.insert("De".to_string(), TypeDef::Complex(de));
    s.types.insert("Dr".to_string(), TypeDef::Complex(dr));
    let mut r = ElementDef::new("root");
    r.inline_type = Some(Box::new(TypeDef::Complex(root)));
    s.elements.insert("root".to_string(), r);
    s
}

#[test]
fn extension_blocked_by_declared_type() {
    let s = schema();
    let result = resolve_xsi_type(&s, Some("B"), "De", |_| None);
    assert!(result.is_err(), "extension is blocked, got {:?}", result);
}

#[test]
fn restriction_allowed() {
    let s = schema();
    let result = resolve_xsi_type(&s, Some("B"), "Dr", |_| None);
    assert_eq!(result.as_deref(), Ok("Dr"));
}

#[test]
fn unknown_type_rejected() {
    let s = schema();
    assert!(resolve_xsi_type(&s, Some("B"), "NoSuchType", |_| None).is_err());
}

#[test]
fn same_type_allowed() {
    let s = schema();
    assert_eq!(resolve_xsi_type(&s, Some("B"), "B", |_| None).as_deref(), Ok("B"));
}

#[test]
fn xsi_type_messages() {
    let s = schema();
    assert_eq!(
        resolve_xsi_type(&s, Some("B"), "De", |_| None),
        Err("xsi:type 'De' uses extension derivation, which is blocked by type 'B'".to_string())
    );
    assert_eq!(
        resolve_xsi_type(&s, Some("B"), " NoSuchType ", |_| None),
        Err("xsi:type 'NoSuchType' is not defined in schema".to_string())
    );
    assert_eq!(
        resolve_xsi_type(&s, Some("De"), "Dr", |_| None),
        Err("xsi:type 'Dr' is not derived from declared type 'De'".to_string())
    );
    assert_eq!(resolve_xsi_type(&s, None, "De", |_| None), Ok("De".to_string()));
    assert_eq!(resolve_xsi_type(&s, Some("xs:anyType"), "De", |_| None), Ok("De".to_string()));
    assert_eq!(resolve_xsi_type(&s, Some("B"), "p:Dr", |_| None), Ok("Dr".to_string()));
}

#[test]
fn xsi_type_resolved_through_the_instance_namespace() {
    let mut s = schema();
    s.type_namespaces.push(("urn:x".to_string(), "Local".to_string(), "Dr".to_string()));
    let ok = resolve_xsi_type(&s, Some("B"), "x:Local", |p| {
        if p == "x" { Some("urn:x".to_string()) } else { None }
    });
    assert_eq!(ok, Ok("Local".to_string()));
    let unbound = resolve_xsi_type(&s, Some("B"), "x:Local", |_| None);
    assert!(unbound.is_err());
}
