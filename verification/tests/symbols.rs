use std::sync::Arc;

use fastxml::symbols::SymbolTable;

#[test]
fn intern_is_idempotent() {
    let mut t = SymbolTable::default();
    let a = t.intern("gml:Point");
    let b = t.intern("gml:Point");
    assert_eq!(a, b);
}

#[test]
fn prefixed_links_to_local() {
    let mut t = SymbolTable::default();
    let q = t.intern("gml:Point");
    let l = t.intern("Point");
    assert_eq!(t.local(q), l);
    assert!(t.has_prefix(q));
    assert!(!t.has_prefix(l));
    assert_eq!(t.local(l), l);
}

#[test]
fn arc_is_pooled() {
    let mut t = SymbolTable::default();
    let a = t.intern("dem:lod");
    let b = t.intern("dem:lod");
    assert!(Arc::ptr_eq(t.arc(a), t.arc(b)));
    assert_eq!(t.arc(a).as_str(), "dem:lod");
}

#[test]
fn unprefixed_local_is_self() {
    let mut t = SymbolTable::default();
    let a = t.intern("root");
    assert_eq!(t.local(a), a);
    assert!(!t.has_prefix(a));
}

#[test]
fn pairs_are_interned_once() {
    let mut t = SymbolTable::default();
    let ns = t.intern("urn:x");
    let l = t.intern("Point");
    let p = t.intern_pair(ns, l);
    assert_eq!(t.intern_pair(ns, l), p);
    assert_ne!(p, l);
    assert_eq!(t.local(p), l);
    assert_eq!(t.arc(p).as_str(), "Point");
    assert_eq!(t.len(), 4);
}

#[test]
fn empty_parts_are_not_split() {
    let mut t = SymbolTable::default();
    let a = t.intern(":x");
    let b = t.intern("x:");
    assert!(!t.has_prefix(a) && !t.has_prefix(b));
    let c = t.intern("a:b:c");
    let bc = t.intern("b:c");
    let cc = t.intern("c");
    assert_eq!(t.local(c), bc);
    assert_eq!(t.local(bc), cc);
    assert_eq!(t.len(), 5);
}
