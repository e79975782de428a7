use fastxml::identity::{field_steps_match, parse_field, parse_selector, selector_matches};

#[test]
fn parses_selectors() {
    let p = parse_selector(".//tn:key").unwrap();
    assert!(p[0].descendant);
    assert_eq!(p[0].steps, ["key"]);

    let p = parse_selector("a/b | c").unwrap();
    assert_eq!(p.len(), 2);
    assert!(!p[0].descendant);
    assert_eq!(p[0].steps, ["a", "b"]);
    assert_eq!(p[1].steps, ["c"]);

    assert!(parse_selector("a[@x]").is_some());
}

#[test]
fn parses_fields() {
    let f = parse_field(".").unwrap();
    assert!(f.steps.is_empty() && f.attr.is_none());

    let f = parse_field("@val").unwrap();
    assert_eq!(f.attr.as_deref(), Some("val"));

    let f = parse_field("a/b/@val").unwrap();
    assert_eq!(f.steps, ["a", "b"]);
    assert_eq!(f.attr.as_deref(), Some("val"));
}

#[test]
fn matches_paths() {
    let sel = parse_selector(".//uid").unwrap();
    assert!(selector_matches(&sel, &["uid"]));
    assert!(selector_matches(&sel, &["a", "uid"]));
    assert!(!selector_matches(&sel, &["uid", "a"]));

    let sel = parse_selector("a/b").unwrap();
    assert!(selector_matches(&sel, &["a", "b"]));
    assert!(!selector_matches(&sel, &["b"]));
}

#[test]
fn unsupported_selectors_and_fields_are_refused() {
    assert!(parse_selector("@a").is_none());
    assert!(parse_selector("a//b").is_none());
    assert!(parse_selector(".").is_none());
    assert!(parse_selector("a | ").is_none());
    assert!(parse_field("a//b").is_none());
    assert!(parse_field("@a/b").is_none());
    assert!(parse_field("a/./b").is_none());
}

#[test]
fn selector_prefixes_and_axes() {
    let p = parse_selector("./child::ns:item").unwrap();
    assert!(!p[0].descendant);
    assert_eq!(p[0].steps, ["item"]);
    let f = parse_field(" ./x:a/attribute::y:id ").unwrap();
    assert_eq!(f.steps, ["a"]);
    assert_eq!(f.attr.as_deref(), Some("id"));
}

#[test]
fn wildcard_steps_match_any_name() {
    let sel = parse_selector("*/b").unwrap();
    assert!(selector_matches(&sel, &["x", "b"]));
    assert!(!selector_matches(&sel, &["x", "c"]));
    let f = parse_field("*/v").unwrap();
    assert!(field_steps_match(&f, &["anything", "v"]));
    assert!(!field_steps_match(&f, &["v"]));
}
