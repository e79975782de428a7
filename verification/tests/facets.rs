use fastxml::facets::{parse_small_integer, FacetConstraints, FacetValidator};

#[test]
fn length_facets() {
    let c = FacetConstraints::new().with_min_length(2).with_max_length(4);
    let v = FacetValidator::new(&c);
    assert!(v.validate("abc").is_ok());
    assert_eq!(v.validate("a"), Err("value length 1 is less than minimum length 2".to_string()));
    assert_eq!(v.validate("abcde"), Err("value length 5 exceeds maximum length 4".to_string()));
    let exact = FacetConstraints::new().with_length(2);
    assert_eq!(
        FacetValidator::new(&exact).validate("äöü"),
        Err("value length 3 does not equal required length 2".to_string())
    );
}

#[test]
fn enumeration_facet() {
    let c = FacetConstraints::new().with_enumeration(vec!["red".to_string(), "blue".to_string()]);
    let v = FacetValidator::new(&c);
    assert!(v.validate("blue").is_ok());
    assert_eq!(v.validate("green"), Err("value 'green' is not one of the enumerated values".to_string()));
}

#[test]
fn inclusive_bounds() {
    let c = FacetConstraints::new()
        .with_min_inclusive("-5".to_string())
        .with_max_inclusive("+10".to_string());
    let v = FacetValidator::new(&c);
    assert!(v.validate("-5").is_ok());
    assert!(v.validate("10").is_ok());
    assert_eq!(v.validate("-6"), Err("value '-6' is less than minimum -5".to_string()));
    assert_eq!(v.validate("11"), Err("value '11' is greater than maximum +10".to_string()));
    assert!(v.validate("abc").is_ok());
}

#[test]
fn small_integers() {
    assert_eq!(parse_small_integer("0"), Some(0));
    assert_eq!(parse_small_integer("-42"), Some(-42));
    assert_eq!(parse_small_integer("+007"), Some(7));
    assert_eq!(parse_small_integer("999999999999999999"), Some(999_999_999_999_999_999));
    assert_eq!(parse_small_integer("1000000000000000000"), None);
    assert_eq!(parse_small_integer(""), None);
    assert_eq!(parse_small_integer("-"), None);
    assert_eq!(parse_small_integer("1.0"), None);
}
