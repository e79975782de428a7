use fastxml::text::{
    is_blank, local_name, split_char, split_first_colon, split_whitespace_str, trim_str,
};
use fastxml::xml::{parse_events, XmlEvent};

#[test]
fn string_helpers() {
    assert_eq!(trim_str("\u{3000} a b \n"), "a b");
    assert_eq!(split_char("a||b", '|'), vec!["a", "", "b"]);
    assert_eq!(split_char("", '|'), vec![""]);
    assert_eq!(split_whitespace_str("  x \t y\n"), vec!["x", "y"]);
    assert_eq!(local_name("a:b:c"), "c");
    assert_eq!(split_first_colon("a:b:c"), Some(("a".to_string(), "b:c".to_string())));
    assert!(is_blank(" \u{a0}\u{2003}"));
    assert!(!is_blank(" x "));
}

#[test]
fn tokenizer_events() {
    let events = parse_events("<?xml version=\"1.0\"?><p:a x='1 &amp; 2'>t&lt;<![CDATA[<c>]]><b/></p:a>").unwrap();
    assert_eq!(events.len(), 6);
    match &events[0] {
        XmlEvent::StartElement { name, prefix, namespace, attributes, namespace_decls, line, column } => {
            assert_eq!(name, "a");
            assert_eq!(prefix.as_deref(), Some("p"));
            assert_eq!(attributes, &vec![("x".to_string(), "1 & 2".to_string())]);
            assert_eq!((*line, *column), (Some(1), Some(22)));
            assert!(namespace.is_none());
            assert!(namespace_decls.is_empty());
        }
        other => panic!("unexpected {:?}", other),
    }
    match &events[1] {
        XmlEvent::Text(t) => assert_eq!(t, "t<"),
        other => panic!("unexpected {:?}", other),
    }
    match &events[2] {
        XmlEvent::CData(t) => assert_eq!(t, "<c>"),
        other => panic!("unexpected {:?}", other),
    }
}
