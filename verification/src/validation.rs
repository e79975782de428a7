//! Pass 2 of two-pass validation: resolving declarations and child tables,
//! checking text content, and walking the skeleton.
use std::sync::Arc;
use vstd::prelude::*;

use crate::schema::{
    CompiledSchema, ComplexType, ContentModel, ContentModelType, ElementDef, FlattenedChildren,
    TypeDef,
};
use crate::error::{ErrorLevel, StructuredError, ValidationErrorType};
use crate::facets::{violation, FacetConstraints, FacetValidator, facet_violation};
use crate::namemap::insert_entries;
use crate::primitive::{invalid_value_message, kind_accepts, kind_of_type_name, PrimitiveKind};
use crate::schema::SimpleType;
use crate::skeleton::ElementSkeleton;
use crate::two_pass::{
    cap, errors_view, lemma_cap_append, over_cap, max_errors, min_errors, node_error, ostr, sequence_errors,
    view_error, ErrorView,
};
use crate::mode::ValidationMode;
use crate::namemap::lookup_entries;
use crate::skeleton::{
    build_all, builder_view, builds, lemma_count_named_view, node_view, nodes_view, overflow_at, overflows,
    DocumentSkeleton, NodeView, SkeletonBuilder,
};
use crate::error::{count_overflow, ValidationError};
use crate::xml::{event_view, events_view, parse_events, tokens, EventView, XmlEvent};
use vstd::utf8::encode_utf8;
use crate::text::{after_first_colon, blank, has_colon, is_blank, split_first_colon, str_eq};
use crate::two_pass::{flat_view, FlatView, TwoPassSchemaValidator};

verus! {

/// The names under which types are defined, in table order.
pub open spec fn type_keys(schema: CompiledSchema) -> Seq<Seq<char>> {
    schema.types.entries@.map_values(|e: (String, TypeDef)| e.0@)
}

/// The views of a list of names.
pub open spec fn names_view(v: Seq<String>) -> Seq<Seq<char>> {
    v.map_values(|s: String| s@)
}

/// How many of `keys` are not yet in `visited`.
pub open spec fn unvisited(keys: Seq<Seq<char>>, visited: Seq<Seq<char>>) -> nat
    decreases keys.len(),
{
    if keys.len() == 0 {
        0
    } else {
        unvisited(keys.drop_last(), visited) + if visited.contains(keys.last()) {
            0nat
        } else {
            1nat
        }
    }
}

/// Visiting a name never raises the count of unvisited keys, and visiting
/// a new key lowers it.
pub proof fn lemma_unvisited_push(keys: Seq<Seq<char>>, visited: Seq<Seq<char>>, k: Seq<char>)
    ensures
        unvisited(keys, visited.push(k)) <= unvisited(keys, visited),
        !visited.contains(k) && keys.contains(k) ==> unvisited(keys, visited.push(k))
            < unvisited(keys, visited),
    decreases keys.len(),
{
    if keys.len() > 0 {
        let d = keys.drop_last();
        let l = keys.last();
        lemma_unvisited_push(d, visited, k);
        if visited.contains(l) {
            let w = choose|i: int| 0 <= i < visited.len() && visited[i] == l;
            assert(visited.push(k)[w] == l);
        }
        if l == k {
            assert(visited.push(k)[visited.len() as int] == k);
        }
        if visited.push(k).contains(l) && l != k {
            let w = choose|i: int| 0 <= i < visited.push(k).len() && visited.push(k)[i] == l;
            assert(visited[w] == l);
        }
        if keys.contains(k) && l != k {
            let w = choose|i: int| 0 <= i < keys.len() && keys[i] == k;
            assert(d[w] == k);
        }
    }
}

/// A name that a lookup finds is one of the type keys.
pub proof fn lemma_lookup_key(schema: CompiledSchema, k: Seq<char>)
    requires
        schema.types.lookup(k) is Some,
    ensures
        type_keys(schema).contains(k),
{
    let s = schema.types.entries@;
    let i = choose|i: int| crate::namemap::last_key_at(s, k, i);
    assert(type_keys(schema)[i] == k);
}

/// The element declarations a content model contributes, base types first
/// (each base type is entered at most once).
pub open spec fn collect_elems(
    schema: CompiledSchema,
    content: ContentModel,
    visited: Seq<Seq<char>>,
) -> Seq<ElementDef>
    decreases unvisited(type_keys(schema), visited),
{
    match content {
        ContentModel::Sequence(es) => es@,
        ContentModel::Choice(es) => es@,
        ContentModel::All(es) => es@,
        ContentModel::ComplexExtension { base_type, elements } => {
            let base = if visited.contains(base_type@) {
                Seq::empty()
            } else {
                match schema.types.lookup(base_type@) {
                    Some(TypeDef::Complex(bc)) => {
                        proof {
                            lemma_lookup_key(schema, base_type@);
                            lemma_unvisited_push(type_keys(schema), visited, base_type@);
                        }
                        collect_elems(schema, bc.content, visited.push(base_type@))
                    },
                    _ => Seq::empty(),
                }
            };
            base + elements@
        },
        _ => Seq::empty(),
    }
}

/// The declarations behind a list of references.
pub open spec fn deref_elems(s: Seq<&ElementDef>) -> Seq<ElementDef> {
    s.map_values(|e: &ElementDef| *e)
}

/// The content model kind a complex type's children are checked under.
pub open spec fn model_of(content: ContentModel) -> ContentModelType {
    match content {
        ContentModel::Sequence(_) => ContentModelType::Sequence,
        ContentModel::Choice(_) => ContentModelType::Choice,
        ContentModel::All(_) => ContentModelType::All,
        ContentModel::ComplexExtension { .. } => ContentModelType::Sequence,
        ContentModel::Empty => ContentModelType::Empty,
        ContentModel::SimpleContent { .. } => ContentModelType::Empty,
        ContentModel::Any { .. } => ContentModelType::Sequence,
    }
}

/// The occurrence table built by inserting each declaration in turn.
pub open spec fn constraint_entries(es: Seq<ElementDef>) -> Seq<(String, (u32, Option<u32>))>
    decreases es.len(),
{
    if es.len() == 0 {
        Seq::empty()
    } else {
        let e = es.last();
        insert_entries(constraint_entries(es.drop_last()), e.name, (e.min_occurs, e.max_occurs))
    }
}

/// The names of a list of declarations.
pub open spec fn element_names(es: Seq<ElementDef>) -> Seq<String> {
    es.map_values(|e: ElementDef| e.name)
}

/// The child table computed for a complex type.
pub open spec fn computed_view(schema: CompiledSchema, c: ComplexType) -> FlatView {
    let es = collect_elems(schema, c.content, Seq::empty());
    FlatView { model: model_of(c.content), entries: constraint_entries(es), ordered: element_names(es) }
}

/// The child table of an element's anonymous complex type, if it has one.
pub open spec fn inline_view(schema: CompiledSchema, elem: ElementDef) -> Option<FlatView> {
    match elem.inline_type {
        Some(b) => match *b {
            TypeDef::Complex(c) => Some(computed_view(schema, c)),
            _ => None,
        },
        None => None,
    }
}

/// The child table of an element: the cached table of its named type (by
/// the name as written, then by the part after the first `:`), else the
/// table computed from the named complex type, else that of its anonymous
/// complex type.
pub open spec fn flattened_for(schema: CompiledSchema, elem: ElementDef) -> Option<FlatView> {
    match elem.type_ref {
        Some(t) => match schema.type_children_cache.lookup(t@) {
            Some(a) => Some(flat_view(*a)),
            None => match (if has_colon(t@) {
                schema.type_children_cache.lookup(after_first_colon(t@))
            } else {
                None
            }) {
                Some(a) => Some(flat_view(*a)),
                None => match schema.types.lookup(t@) {
                    Some(TypeDef::Complex(c)) => Some(computed_view(schema, c)),
                    _ => inline_view(schema, elem),
                },
            },
        },
        None => inline_view(schema, elem),
    }
}

/// The global declaration of an element: by its local name, then by
/// `prefix:name` when it has a non-empty prefix.
pub open spec fn lookup_elem(schema: CompiledSchema, name: Seq<char>, prefix: Option<Seq<char>>) -> Option<
    ElementDef,
> {
    match schema.elements.lookup(name) {
        Some(e) => Some(e),
        None => match prefix {
            Some(p) => if p.len() > 0 {
                schema.elements.lookup(p + ":"@ + name)
            } else {
                None
            },
            None => None,
        },
    }
}

/// Whether `name` is among `visited`.
pub(crate) fn contains_name(visited: &Vec<String>, name: &str) -> (r: bool)
    ensures
        r == names_view(visited@).contains(name@),
{
    let mut i: usize = 0;
    while i < visited.len()
        invariant
            i <= visited@.len(),
            forall|k: int| 0 <= k < i ==> visited@[k]@ != name@,
        decreases visited@.len() - i,
    {
        if str_eq(visited[i].as_str(), name) {
            assert(names_view(visited@)[i as int] == name@);
            return true;
        }
        i = i + 1;
    }
    proof {
        if names_view(visited@).contains(name@) {
            let w = choose|k: int|
                0 <= k < names_view(visited@).len() && names_view(visited@)[k] == name@;
            assert(visited@[w]@ == name@);
        }
    }
    false
}

/// Appends references to each of `es`.
fn push_refs<'s>(out: &mut Vec<&'s ElementDef>, es: &'s Vec<ElementDef>)
    ensures
        deref_elems(final(out)@) == deref_elems(old(out)@) + es@,
{
    let ghost start = deref_elems(out@);
    let mut i: usize = 0;
    while i < es.len()
        invariant
            i <= es@.len(),
            deref_elems(out@) == start + es@.take(i as int),
        decreases es@.len() - i,
    {
        let ghost prev = out@;
        out.push(&es[i]);
        proof {
            assert(deref_elems(out@) =~= deref_elems(prev).push(es@[i as int]));
            assert(es@.take(i + 1) =~= es@.take(i as int).push(es@[i as int]));
            assert(deref_elems(out@) =~= start + es@.take(i + 1));
        }
        i = i + 1;
    }
    assert(es@.take(es@.len() as int) =~= es@);
}

/// The element declarations of a complex type, base types first; a base
/// type named in `visited` is not entered again.
pub fn collect_elements_in<'s>(
    schema: &'s CompiledSchema,
    complex: &'s ComplexType,
    visited: &mut Vec<String>,
) -> (r: Vec<&'s ElementDef>)
    ensures
        deref_elems(r@) == collect_elems(*schema, complex.content, names_view(old(visited)@)),
    decreases unvisited(type_keys(*schema), names_view(old(visited)@)),
{
    let mut elements: Vec<&'s ElementDef> = Vec::new();
    let ghost v0 = names_view(visited@);
    match &complex.content {
        ContentModel::Sequence(es) => {
            push_refs(&mut elements, es);
            assert(deref_elems(elements@) =~= es@);
        },
        ContentModel::Choice(es) => {
            push_refs(&mut elements, es);
            assert(deref_elems(elements@) =~= es@);
        },
        ContentModel::All(es) => {
            push_refs(&mut elements, es);
            assert(deref_elems(elements@) =~= es@);
        },
        ContentModel::ComplexExtension { base_type, elements: ext } => {
            if !contains_name(visited, base_type.as_str()) {
                let b = base_type.clone();
                visited.push(b);
                proof {
                    assert(names_view(visited@) =~= v0.push(base_type@));
                }
                match schema.get_type(base_type.as_str()) {
                    Some(TypeDef::Complex(bc)) => {
                        proof {
                            lemma_lookup_key(*schema, base_type@);
                            lemma_unvisited_push(type_keys(*schema), v0, base_type@);
                        }
                        elements = collect_elements_in(schema, bc, visited);
                    },
                    _ => {},
                }
            }
            let ghost before = deref_elems(elements@);
            push_refs(&mut elements, ext);
        },
        _ => {},
    }
    elements
}

/// The child table of a complex type: its content model kind and the
/// occurrence bounds of every declaration, inherited ones included.
pub fn flatten_complex(schema: &CompiledSchema, complex: &ComplexType) -> (f: FlattenedChildren)
    ensures
        flat_view(f) == computed_view(*schema, *complex),
        f.wildcard is None,
{
    let content_model_type = match &complex.content {
        ContentModel::Sequence(_) => ContentModelType::Sequence,
        ContentModel::Choice(_) => ContentModelType::Choice,
        ContentModel::All(_) => ContentModelType::All,
        ContentModel::ComplexExtension { .. } => ContentModelType::Sequence,
        ContentModel::Empty => ContentModelType::Empty,
        ContentModel::SimpleContent { .. } => ContentModelType::Empty,
        ContentModel::Any { .. } => ContentModelType::Sequence,
    };
    let mut flattened = FlattenedChildren::with_content_model(content_model_type);
    let mut visited: Vec<String> = Vec::new();
    proof {
        assert(names_view(visited@) =~= Seq::<Seq<char>>::empty());
    }
    let elements = collect_elements_in(schema, complex, &mut visited);
    let ghost es = deref_elems(elements@);
    let mut ordered: Vec<String> = Vec::new();
    let mut i: usize = 0;
    while i < elements.len()
        invariant
            i <= elements@.len(),
            es == deref_elems(elements@),
            flattened.constraints.entries@ == constraint_entries(es.take(i as int)),
            ordered@ == element_names(es.take(i as int)),
            flattened.content_model_type == content_model_type,
            flattened.wildcard is None,
        decreases elements@.len() - i,
    {
        let e = elements[i];
        flattened.constraints.insert(e.name.clone(), (e.min_occurs, e.max_occurs));
        ordered.push(e.name.clone());
        proof {
            assert(es.take(i + 1).drop_last() =~= es.take(i as int));
            assert(es[i as int] == *e);
            assert(element_names(es.take(i + 1)) =~= element_names(es.take(i as int)).push(
                e.name,
            ));
        }
        i = i + 1;
    }
    proof {
        assert(es.take(es.len() as int) =~= es);
    }
    flattened.ordered_elements = ordered;
    flattened
}


impl TwoPassSchemaValidator {
    /// Looks up an element definition in the schema.
    pub fn lookup_element(&self, name: &str, prefix: Option<&str>) -> (r: Option<&ElementDef>)
        ensures
            match r {
                Some(e) => lookup_elem(self.sch(), name@, opt_chars(prefix)) == Some(*e),
                None => lookup_elem(self.sch(), name@, opt_chars(prefix)) is None,
            },
    {
        if let Some(e) = self.schema.get_element(name) {
            return Some(e);
        }
        if let Some(p) = prefix {
            if p.unicode_len() > 0 {
                let mut q = String::from_str(p);
                q.append(":");
                q.append(name);
                proof {
                    reveal_strlit(":");
                }
                return self.schema.get_element(q.as_str());
            }
        }
        None
    }

    /// Collects all child elements from a complex type, including inherited
    /// elements.
    pub fn collect_elements_with_inheritance<'s>(
        &'s self,
        complex: &'s ComplexType,
        visited: &mut Vec<String>,
    ) -> (r: Vec<&'s ElementDef>)
        ensures
            deref_elems(r@) == collect_elems(self.sch(), complex.content, names_view(old(visited)@)),
    {
        collect_elements_in(&*self.schema, complex, visited)
    }

    /// Computes flattened children for a complex type.
    pub fn compute_flattened_children(&self, complex: &ComplexType) -> (f: FlattenedChildren)
        ensures
            flat_view(f) == computed_view(self.sch(), *complex),
            f.wildcard is None,
    {
        flatten_complex(&*self.schema, complex)
    }

    /// Gets flattened children for an element from the schema cache.
    pub fn get_flattened_children_for_element(&self, elem: &ElementDef) -> (r: Option<
        Arc<FlattenedChildren>,
    >)
        ensures
            match r {
                Some(a) => flattened_for(self.sch(), *elem) == Some(flat_view(*a)),
                None => flattened_for(self.sch(), *elem) is None,
            },
    {
        if let Some(type_ref) = &elem.type_ref {
            if let Some(cached) = self.schema.type_children_cache.get(type_ref.as_str()) {
                return Some(cached.clone());
            }
            if let Some((_prefix, local)) = split_first_colon(type_ref.as_str()) {
                if let Some(cached) = self.schema.type_children_cache.get(local.as_str()) {
                    return Some(cached.clone());
                }
            }
            if let Some(TypeDef::Complex(complex)) = self.schema.get_type(type_ref.as_str()) {
                return Some(Arc::new(self.compute_flattened_children(complex)));
            }
        }
        if let Some(inline_type) = &elem.inline_type {
            if let TypeDef::Complex(complex) = &**inline_type {
                return Some(Arc::new(self.compute_flattened_children(complex)));
            }
        }
        None
    }
}

/// The view of an optional string slice.
pub open spec fn opt_chars(s: Option<&str>) -> Option<Seq<char>> {
    match s {
        Some(x) => Some(x@),
        None => None,
    }
}


/// The primitive kind a simple type's values are checked against: its own
/// name when that names a built-in type, else that of its base type,
/// following user-defined simple base types for at most `fuel` steps.
/// String types resolve to no kind (their lexical space is unconstrained).
pub open spec fn resolve_kind(schema: CompiledSchema, s: SimpleType, fuel: nat) -> Option<
    PrimitiveKind,
>
    decreases fuel,
{
    match kind_of_type_name(s.name@) {
        Some(k) => if k == PrimitiveKind::String {
            None
        } else {
            Some(k)
        },
        None => match s.base_type {
            None => None,
            Some(b) => match kind_of_type_name(b@) {
                Some(k) => if k == PrimitiveKind::String {
                    None
                } else {
                    Some(k)
                },
                None => if fuel == 0 {
                    None
                } else {
                    match schema.types.lookup(b@) {
                        Some(TypeDef::Simple(bs)) => resolve_kind(schema, bs, (fuel - 1) as nat),
                        _ => None,
                    }
                },
            },
        },
    }
}

/// The kind resolved with one step per defined type.
pub open spec fn kind_of_simple(schema: CompiledSchema, s: SimpleType) -> Option<PrimitiveKind> {
    resolve_kind(schema, s, schema.types.entries@.len() as nat)
}

fn resolve_from(schema: &CompiledSchema, s: &SimpleType, fuel: usize) -> (r: Option<PrimitiveKind>)
    ensures
        r == resolve_kind(*schema, *s, fuel as nat),
    decreases fuel,
{
    if let Some(k) = PrimitiveKind::from_type_name(s.name.as_str()) {
        return if k == PrimitiveKind::String {
            None
        } else {
            Some(k)
        };
    }
    match &s.base_type {
        None => None,
        Some(b) => match PrimitiveKind::from_type_name(b.as_str()) {
            Some(k) => if k == PrimitiveKind::String {
                None
            } else {
                Some(k)
            },
            None => {
                if fuel == 0 {
                    return None;
                }
                match schema.get_type(b.as_str()) {
                    Some(TypeDef::Simple(bs)) => resolve_from(schema, bs, fuel - 1),
                    _ => None,
                }
            },
        },
    }
}

impl PrimitiveKind {
    /// The built-in primitive a simple type's values must belong to, if any.
    pub fn resolve(schema: &CompiledSchema, simple: &SimpleType) -> (r: Option<PrimitiveKind>)
        ensures
            r == kind_of_simple(*schema, *simple),
    {
        resolve_from(schema, simple, schema.types.len())
    }
}

/// A `u32` facet value as a `usize`.
pub open spec fn widen(x: Option<u32>) -> Option<usize> {
    match x {
        Some(n) => Some(n as usize),
        None => None,
    }
}

/// The first facet of a simple type that `v` violates.
pub open spec fn simple_violation(s: SimpleType, v: Seq<char>) -> Option<Seq<char>> {
    violation(None, widen(s.min_length), widen(s.max_length), s.enumeration@, s.min_inclusive, s.max_inclusive, v)
}

/// The errors for a node's text checked against a simple type: the first
/// violated facet (non-empty text only), then the primitive lexical check
/// (skipped for empty text of a nillable element).
pub open spec fn simple_errors(
    schema: CompiledSchema,
    node: ElementSkeleton,
    s: SimpleType,
    nillable: bool,
) -> Seq<ErrorView> {
    let t = node.text_content@;
    let facet = if t.len() > 0 {
        match simple_violation(s, t) {
            Some(m) => seq![
                node_error(
                    node,
                    ValidationErrorType::InvalidTextContent,
                    "element '"@ + node.name@ + "': "@ + m,
                    node.name@,
                    None,
                    None,
                ),
            ],
            None => Seq::empty(),
        }
    } else {
        Seq::empty()
    };
    let prim = if t.len() == 0 && nillable {
        Seq::empty()
    } else {
        match kind_of_simple(schema, s) {
            Some(k) => if kind_accepts(k, encode_utf8(t)) {
                Seq::empty()
            } else {
                seq![
                    node_error(
                        node,
                        ValidationErrorType::InvalidTextContent,
                        "element '"@ + node.name@ + "': "@ + invalid_value_message(k, t),
                        node.name@,
                        None,
                        None,
                    ),
                ]
            },
            None => Seq::empty(),
        }
    };
    facet + prim
}

/// The type an element is declared with: its named type (when defined) or
/// its anonymous type.
pub open spec fn elem_type(schema: CompiledSchema, elem: ElementDef) -> Option<TypeDef> {
    match elem.type_ref {
        Some(t) => schema.types.lookup(t@),
        None => match elem.inline_type {
            Some(b) => Some(*b),
            None => None,
        },
    }
}

/// The errors for a node's text content against its declaration: simple
/// types (directly or as simple content) are checked value-wise; element-only
/// complex types must not hold non-whitespace text.
pub open spec fn text_errors(schema: CompiledSchema, node: ElementSkeleton, elem: ElementDef) -> Seq<
    ErrorView,
> {
    match elem_type(schema, elem) {
        Some(TypeDef::Simple(s)) => simple_errors(schema, node, s, elem.nillable),
        Some(TypeDef::Complex(c)) => match c.content {
            ContentModel::SimpleContent { base_type } => match schema.types.lookup(base_type@) {
                Some(TypeDef::Simple(s)) => simple_errors(schema, node, s, elem.nillable),
                _ => Seq::empty(),
            },
            ContentModel::Empty => Seq::empty(),
            ContentModel::Any { .. } => Seq::empty(),
            _ => if !c.mixed && !blank(node.text_content@) {
                seq![
                    node_error(
                        node,
                        ValidationErrorType::InvalidContent,
                        "element '"@ + node.name@ + "' has element-only content but contains text"@,
                        node.name@,
                        None,
                        None,
                    ),
                ]
            } else {
                Seq::empty()
            },
        },
        None => Seq::empty(),
    }
}

/// `element '<name>': <m>`
fn element_message(name: &str, m: &str) -> (r: String)
    ensures
        r@ == "element '"@ + name@ + "': "@ + m@,
{
    proof {
        reveal_strlit("element '");
        reveal_strlit("': ");
    }
    let mut s = String::from_str("element '");
    s.append(name);
    s.append("': ");
    s.append(m);
    s
}

/// Copies a list of strings.
fn copy_strings(v: &Vec<String>) -> (r: Vec<String>)
    ensures
        r@ == v@,
{
    let mut r: Vec<String> = Vec::new();
    let mut i: usize = 0;
    while i < v.len()
        invariant
            i <= v@.len(),
            r@ == v@.take(i as int),
        decreases v@.len() - i,
    {
        r.push(v[i].clone());
        proof {
            assert(v@.take(i + 1) =~= v@.take(i as int).push(v@[i as int]));
        }
        i = i + 1;
    }
    assert(v@.take(v@.len() as int) =~= v@);
    r
}

/// `e0` is its own cap when it fits.
proof fn lemma_cap_fits(e0: Seq<ErrorView>, max: usize)
    requires
        max == 0 || e0.len() <= max,
    ensures
        cap(e0 + Seq::<ErrorView>::empty(), max) == e0,
{
    assert(e0 + Seq::<ErrorView>::empty() =~= e0);
}

/// The facet constraints a simple type declares.
pub fn facet_constraints_of(simple: &SimpleType) -> (c: FacetConstraints)
    ensures
        c.value_kind is None,
        c.item_kind is None,
        !c.is_list,
        c.length is None,
        c.min_length == widen(simple.min_length),
        c.max_length == widen(simple.max_length),
        c.min_inclusive == simple.min_inclusive,
        c.max_inclusive == simple.max_inclusive,
        c.enumeration@ == simple.enumeration@,
        c.patterns@ == (match simple.pattern {
            Some(p) => seq![p],
            None => Seq::empty(),
        }),
        forall|v: Seq<char>| #[trigger]
            facet_violation(c, v) == simple_violation(*simple, v),
{
    let mut constraints = FacetConstraints::new();
    if let Some(min_len) = simple.min_length {
        constraints = constraints.with_min_length(min_len as usize);
    }
    if let Some(max_len) = simple.max_length {
        constraints = constraints.with_max_length(max_len as usize);
    }
    if let Some(min_inc) = &simple.min_inclusive {
        constraints = constraints.with_min_inclusive(min_inc.clone());
    }
    if let Some(max_inc) = &simple.max_inclusive {
        constraints = constraints.with_max_inclusive(max_inc.clone());
    }
    if simple.enumeration.len() > 0 {
        constraints = constraints.with_enumeration(copy_strings(&simple.enumeration));
    }
    if let Some(pattern) = &simple.pattern {
        constraints = constraints.with_pattern(pattern.clone());
    }
    proof {
        if simple.enumeration@.len() == 0 {
            assert(constraints.enumeration@ =~= simple.enumeration@);
        }
        if simple.pattern is None {
            assert(constraints.patterns@ =~= Seq::<String>::empty());
        }
    }
    constraints
}


impl FacetConstraints {
    /// The facets of a simple type, with its resolved primitive kind.
    pub fn from_simple_type(schema: &CompiledSchema, simple: &SimpleType) -> (c: FacetConstraints)
        ensures
            forall|v: Seq<char>| #[trigger] facet_violation(c, v) == simple_violation(*simple, v),
            c.value_kind == kind_of_simple(*schema, *simple),
            c.item_kind is None,
            !c.is_list,
    {
        let mut c = facet_constraints_of(simple);
        c.value_kind = PrimitiveKind::resolve(schema, simple);
        c
    }
}

impl TwoPassSchemaValidator {
    /// Creates the facet constraints of a simple type.
    pub fn create_facet_constraints(&self, simple: &SimpleType) -> (c: FacetConstraints)
        ensures
            c.length is None,
            c.min_length == widen(simple.min_length),
            c.max_length == widen(simple.max_length),
            c.min_inclusive == simple.min_inclusive,
            c.max_inclusive == simple.max_inclusive,
            c.enumeration@ == simple.enumeration@,
            c.patterns@ == (match simple.pattern {
                Some(p) => seq![p],
                None => Seq::empty(),
            }),
            forall|v: Seq<char>| #[trigger]
                facet_violation(c, v) == simple_violation(*simple, v),
    {
        facet_constraints_of(simple)
    }

    /// Validates text content against simple type facets and (where the
    /// type resolves to a built-in XSD primitive) its lexical space.
    pub fn validate_simple_type_facets(
        &self,
        node: &ElementSkeleton,
        simple: &SimpleType,
        nillable: bool,
        errors: &mut Vec<StructuredError>,
    )
        ensures
            over_cap(self.max_errors, old(errors)@.len()) ==> final(errors)@ == old(errors)@,
            !over_cap(self.max_errors, old(errors)@.len()) ==> errors_view(final(errors)@) == cap(
                errors_view(old(errors)@) + simple_errors(self.sch(), *node, *simple, nillable),
                self.max_errors,
            ),
            !over_cap(self.max_errors, old(errors)@.len()) ==> (self.max_errors == 0 || final(errors)@.len()
                <= self.max_errors),
    {
        if self.max_errors > 0 && errors.len() > self.max_errors {
            return;
        }
        let ghost e0 = errors_view(errors@);
        let ghost t = node.text_content@;
        let ghost facet: Seq<ErrorView> = if t.len() > 0 {
            match simple_violation(*simple, t) {
                Some(m) => seq![
                    node_error(
                        *node,
                        ValidationErrorType::InvalidTextContent,
                        "element '"@ + node.name@ + "': "@ + m,
                        node.name@,
                        None,
                        None,
                    ),
                ],
                None => Seq::empty(),
            }
        } else {
            Seq::empty()
        };
        let text = node.text_content.as_str();
        let empty = text.unicode_len() == 0;
        if !empty {
            let constraints = self.create_facet_constraints(simple);
            let validator = FacetValidator::new(&constraints);
            match validator.validate(text) {
                Err(facet_error) => {
                    let msg = element_message(node.name.as_str(), facet_error.as_str());
                    let error = self.make_error(ValidationErrorType::InvalidTextContent, msg, node)
                        .with_node_name(node.name.clone()).with_level(ErrorLevel::Error);
                    self.push_error(errors, error);
                    proof {
                        assert(facet_violation(constraints, t) == simple_violation(*simple, t));
                        assert(view_error(error) == facet[0]);
                        assert(e0.push(view_error(error)) =~= e0 + facet);
                    }
                },
                Ok(()) => {
                    proof {
                        assert(facet_violation(constraints, t) == simple_violation(*simple, t));
                        assert(e0 + facet =~= e0);
                    }
                },
            }
        } else {
            assert(e0 + facet =~= e0);
        }
        let ghost e1 = errors_view(errors@);
        assert(e1 == cap(e0 + facet, self.max_errors));
        if empty && nillable {
            proof {
                lemma_cap_fits(e1, self.max_errors);
                lemma_cap_append(e0, facet, Seq::empty(), self.max_errors);
                assert(facet + Seq::<ErrorView>::empty() =~= facet);
                assert(simple_errors(self.sch(), *node, *simple, nillable) =~= facet);
                assert(e0 + facet + Seq::<ErrorView>::empty() =~= e0 + facet);
            }
            return;
        }
        let ghost prim: Seq<ErrorView> = match kind_of_simple(self.sch(), *simple) {
            Some(k) => if kind_accepts(k, encode_utf8(t)) {
                Seq::empty()
            } else {
                seq![
                    node_error(
                        *node,
                        ValidationErrorType::InvalidTextContent,
                        "element '"@ + node.name@ + "': "@ + invalid_value_message(k, t),
                        node.name@,
                        None,
                        None,
                    ),
                ]
            },
            None => Seq::empty(),
        };
        proof {
            assert(simple_errors(self.sch(), *node, *simple, nillable) == facet + prim);
            lemma_cap_append(e0, facet, prim, self.max_errors);
        }
        match PrimitiveKind::resolve(&self.schema, simple) {
            Some(kind) => {
                match kind.validate(text) {
                    Err(prim_error) => {
                        let msg = element_message(node.name.as_str(), prim_error.as_str());
                        let error = self.make_error(
                            ValidationErrorType::InvalidTextContent,
                            msg,
                            node,
                        ).with_node_name(node.name.clone()).with_level(ErrorLevel::Error);
                        self.push_error(errors, error);
                        proof {
                            assert(view_error(error) == prim[0]);
                            assert(e1.push(view_error(error)) =~= e1 + prim);
                            assert(e0 + facet + prim =~= e0 + (facet + prim));
                        }
                    },
                    Ok(()) => {
                        proof {
                            lemma_cap_fits(e1, self.max_errors);
                            assert(e0 + facet + prim =~= e0 + (facet + prim));
                        }
                    },
                }
            },
            None => {
                proof {
                    lemma_cap_fits(e1, self.max_errors);
                    assert(e0 + facet + prim =~= e0 + (facet + prim));
                }
            },
        }
    }
}


impl TwoPassSchemaValidator {
    /// Validates text content against the element's type.
    pub fn validate_text_content(
        &self,
        node: &ElementSkeleton,
        elem: &ElementDef,
        errors: &mut Vec<StructuredError>,
    )
        ensures
            over_cap(self.max_errors, old(errors)@.len()) ==> final(errors)@ == old(errors)@,
            !over_cap(self.max_errors, old(errors)@.len()) ==> errors_view(final(errors)@) == cap(
                errors_view(old(errors)@) + text_errors(self.sch(), *node, *elem),
                self.max_errors,
            ),
            !over_cap(self.max_errors, old(errors)@.len()) ==> (self.max_errors == 0 || final(errors)@.len()
                <= self.max_errors),
    {
        if self.max_errors > 0 && errors.len() > self.max_errors {
            return;
        }
        let ghost e0 = errors_view(errors@);
        let type_def: Option<&TypeDef> = match &elem.type_ref {
            Some(t) => self.schema.get_type(t.as_str()),
            None => match &elem.inline_type {
                Some(b) => Some(&**b),
                None => None,
            },
        };
        proof {
            lemma_cap_fits(e0, self.max_errors);
        }
        match type_def {
            Some(TypeDef::Simple(simple)) => {
                self.validate_simple_type_facets(node, simple, elem.nillable, errors);
            },
            Some(TypeDef::Complex(complex)) => {
                match &complex.content {
                    ContentModel::SimpleContent { base_type } => {
                        match self.schema.get_type(base_type.as_str()) {
                            Some(TypeDef::Simple(simple)) => {
                                self.validate_simple_type_facets(
                                    node,
                                    simple,
                                    elem.nillable,
                                    errors,
                                );
                            },
                            _ => {},
                        }
                    },
                    ContentModel::Empty => {},
                    ContentModel::Any { .. } => {},
                    _ => {
                        if !complex.mixed && !is_blank(node.text_content.as_str()) {
                            proof {
                                reveal_strlit("element '");
                                reveal_strlit("' has element-only content but contains text");
                            }
                            let mut msg = String::from_str("element '");
                            msg.append(node.name.as_str());
                            msg.append("' has element-only content but contains text");
                            let error = self.make_error(
                                ValidationErrorType::InvalidContent,
                                msg,
                                node,
                            ).with_node_name(node.name.clone()).with_level(ErrorLevel::Error);
                            self.push_error(errors, error);
                            proof {
                                let te = text_errors(self.sch(), *node, *elem);
                                assert(te[0] == view_error(error));
                                assert(e0.push(view_error(error)) =~= e0 + te);
                            }
                        }
                    },
                }
            },
            None => {},
        }
    }
}


/// A node's name as written: `prefix:name`, or `name` alone.
pub open spec fn written_name(node: ElementSkeleton) -> Seq<char> {
    match node.prefix {
        Some(p) => p@ + ":"@ + node.name@,
        None => node.name@,
    }
}

/// Whether a parent's child table lists `name`.
pub open spec fn allowed_by(parent: Option<FlatView>, name: Seq<char>) -> bool {
    match parent {
        Some(f) => lookup_entries(f.entries, name) is Some,
        None => false,
    }
}

/// The errors a node contributes before its children: for a declared
/// element, its occurrence, order and text checks; for an undeclared one, an
/// "unknown element" error in strict mode when the schema declares elements
/// and the parent's table does not list it.
pub open spec fn own_errors(
    v: TwoPassSchemaValidator,
    nodes: Seq<ElementSkeleton>,
    node: ElementSkeleton,
    parent: Option<FlatView>,
) -> Seq<ErrorView> {
    let schema = v.sch();
    match lookup_elem(schema, node.name@, ostr(node.prefix)) {
        Some(elem) => declared_errors(v, nodes, node, elem),
        None => if allowed_by(parent, node.name@) {
            Seq::empty()
        } else if v.mode == ValidationMode::Strict && schema.elements.entries@.len() > 0 {
            seq![
                node_error(
                    node,
                    ValidationErrorType::UnknownElement,
                    "element '"@ + written_name(node) + "' is not declared in schema"@,
                    written_name(node),
                    None,
                    None,
                ),
            ]
        } else {
            Seq::empty()
        },
    }
}

/// The errors of a declared element: occurrences and order of its children
/// (when it has a child table), then its text.
pub open spec fn declared_errors(
    v: TwoPassSchemaValidator,
    nodes: Seq<ElementSkeleton>,
    node: ElementSkeleton,
    elem: ElementDef,
) -> Seq<ErrorView> {
    let schema = v.sch();
    let structural = match flattened_for(schema, elem) {
        Some(f) => min_errors(schema, v.options, node, f) + max_errors(schema, v.options, node, f)
            + sequence_errors(nodes, node, f),
        None => Seq::empty(),
    };
    structural + text_errors(schema, node, elem)
}

/// The view of an optional shared child table.
pub open spec fn opt_arc_flat(p: Option<Arc<FlattenedChildren>>) -> Option<FlatView> {
    match p {
        Some(f) => Some(flat_view(*f)),
        None => None,
    }
}

/// The child table a node's children are checked against.
pub open spec fn table_for_children(v: TwoPassSchemaValidator, node: ElementSkeleton) -> Option<
    FlatView,
> {
    match lookup_elem(v.sch(), node.name@, ostr(node.prefix)) {
        Some(elem) => flattened_for(v.sch(), elem),
        None => None,
    }
}

/// All errors of the subtree rooted at node `i`, in document order.
pub open spec fn tree_errors(
    v: TwoPassSchemaValidator,
    nodes: Seq<ElementSkeleton>,
    i: int,
    parent: Option<FlatView>,
) -> Seq<ErrorView>
    decreases nodes.len() - i, 1int, 0int,
{
    if 0 <= i < nodes.len() {
        own_errors(v, nodes, nodes[i], parent) + children_errors(
            v,
            nodes,
            i,
            table_for_children(v, nodes[i]),
            nodes[i].children_indices@.len() as int,
        )
    } else {
        Seq::empty()
    }
}

/// The errors of the subtrees of the first `k` children of node `i`.
pub open spec fn children_errors(
    v: TwoPassSchemaValidator,
    nodes: Seq<ElementSkeleton>,
    i: int,
    table: Option<FlatView>,
    k: int,
) -> Seq<ErrorView>
    decreases nodes.len() - i, 0int, k,
{
    if 0 <= i < nodes.len() && 0 < k <= nodes[i].children_indices@.len() {
        let c = nodes[i].children_indices@[k - 1] as int;
        children_errors(v, nodes, i, table, k - 1) + if i < c < nodes.len() {
            tree_errors(v, nodes, c, table)
        } else {
            Seq::empty()
        }
    } else {
        Seq::empty()
    }
}

/// The view of an optional child table.
pub open spec fn opt_flat(p: Option<&FlattenedChildren>) -> Option<FlatView> {
    match p {
        Some(f) => Some(flat_view(*f)),
        None => None,
    }
}

impl TwoPassSchemaValidator {
    /// The checks of a declared element; returns its child table.
    fn validate_declared(
        &self,
        skeleton: &DocumentSkeleton,
        node: &ElementSkeleton,
        elem: &ElementDef,
        errors: &mut Vec<StructuredError>,
    ) -> (r: Option<Arc<FlattenedChildren>>)
        requires
            self.max_errors == 0 || old(errors)@.len() <= self.max_errors,
        ensures
            errors_view(final(errors)@) == cap(
                errors_view(old(errors)@) + declared_errors(*self, skeleton.nodes@, *node, *elem),
                self.max_errors,
            ),
            self.max_errors == 0 || final(errors)@.len() <= self.max_errors,
            opt_arc_flat(r) == flattened_for(self.sch(), *elem),
    {
        let ghost e0 = errors_view(errors@);
        let ghost nodes = skeleton.nodes@;
        let flattened = self.get_flattened_children_for_element(elem);
        let ghost structural: Seq<ErrorView> = Seq::empty();
        match &flattened {
            Some(fc) => {
                let f: &FlattenedChildren = &**fc;
                let ghost m = min_errors(self.sch(), self.options, *node, flat_view(*f));
                let ghost x = max_errors(self.sch(), self.options, *node, flat_view(*f));
                let ghost q = sequence_errors(nodes, *node, flat_view(*f));
                self.validate_min_occurs_batch(node, f, errors);
                self.validate_max_occurs_batch(node, f, errors);
                proof {
                    lemma_cap_append(e0, m, x, self.max_errors);
                }
                self.validate_sequence_order(skeleton, node, f, errors);
                proof {
                    lemma_cap_append(e0, m + x, q, self.max_errors);
                    assert(e0 + m + x + q =~= e0 + (m + x) + q);
                    assert(e0 + (m + x) + q =~= e0 + (m + x + q));
                    structural = m + x + q;
                }
            },
            None => {
                proof {
                    lemma_cap_fits(e0, self.max_errors);
                }
            },
        }
        let ghost t = text_errors(self.sch(), *node, *elem);
        self.validate_text_content(node, elem, errors);
        proof {
            lemma_cap_append(e0, structural, t, self.max_errors);
            assert(declared_errors(*self, nodes, *node, *elem) == structural + t);
        }
        flattened
    }

    /// The checks of one node before its children; returns the child table
    /// for its children.
    fn validate_own(
        &self,
        skeleton: &DocumentSkeleton,
        node: &ElementSkeleton,
        parent_allowed_children: Option<&FlattenedChildren>,
        errors: &mut Vec<StructuredError>,
    ) -> (r: Option<Arc<FlattenedChildren>>)
        requires
            self.max_errors == 0 || old(errors)@.len() <= self.max_errors,
        ensures
            errors_view(final(errors)@) == cap(
                errors_view(old(errors)@) + own_errors(
                    *self,
                    skeleton.nodes@,
                    *node,
                    opt_flat(parent_allowed_children),
                ),
                self.max_errors,
            ),
            self.max_errors == 0 || final(errors)@.len() <= self.max_errors,
            opt_arc_flat(r) == table_for_children(*self, *node),
    {
        let ghost e0 = errors_view(errors@);
        let prefix: Option<&str> = match &node.prefix {
            Some(p) => Some(p.as_str()),
            None => None,
        };
        proof {
            assert(opt_chars(prefix) == ostr(node.prefix));
        }
        let elem_def = self.lookup_element(node.name.as_str(), prefix);
        match elem_def {
            Some(elem) => self.validate_declared(skeleton, node, elem, errors),
            None => {
                let schema_has_elements = !self.schema.elements.is_empty();
                let is_allowed_by_parent = match parent_allowed_children {
                    Some(fc) => fc.constraints.contains_key(node.name.as_str()),
                    None => false,
                };
                let ghost own = own_errors(
                    *self,
                    skeleton.nodes@,
                    *node,
                    opt_flat(parent_allowed_children),
                );
                if is_allowed_by_parent {
                    proof {
                        lemma_cap_fits(e0, self.max_errors);
                    }
                } else if self.mode == ValidationMode::Strict && schema_has_elements {
                    proof {
                        reveal_strlit("element '");
                        reveal_strlit("' is not declared in schema");
                        reveal_strlit(":");
                    }
                    let qname = match &node.prefix {
                        Some(p) => {
                            let mut q = String::from_str(p.as_str());
                            q.append(":");
                            q.append(node.name.as_str());
                            q
                        },
                        None => node.name.clone(),
                    };
                    let mut msg = String::from_str("element '");
                    msg.append(qname.as_str());
                    msg.append("' is not declared in schema");
                    let error = self.make_error(ValidationErrorType::UnknownElement, msg, node)
                        .with_node_name(qname).with_level(ErrorLevel::Error);
                    self.push_error(errors, error);
                    proof {
                        assert(own[0] == view_error(error));
                        assert(e0.push(view_error(error)) =~= e0 + own);
                    }
                } else {
                    proof {
                        lemma_cap_fits(e0, self.max_errors);
                    }
                }
                None
            },
        }
    }

    /// Checks one node (declaration, occurrences, order, text), then its
    /// children against the node's own child table.
    pub fn validate_node_recursive(
        &self,
        skeleton: &DocumentSkeleton,
        node_index: usize,
        parent_allowed_children: Option<&FlattenedChildren>,
        errors: &mut Vec<StructuredError>,
    )
        requires
            skeleton.wf(),
        ensures
            over_cap(self.max_errors, old(errors)@.len()) ==> final(errors)@ == old(errors)@,
            !over_cap(self.max_errors, old(errors)@.len()) ==> errors_view(final(errors)@) == cap(
                errors_view(old(errors)@) + tree_errors(
                    *self,
                    skeleton.nodes@,
                    node_index as int,
                    opt_flat(parent_allowed_children),
                ),
                self.max_errors,
            ),
            !over_cap(self.max_errors, old(errors)@.len()) ==> (self.max_errors == 0 || final(errors)@.len()
                <= self.max_errors),
        decreases skeleton.nodes@.len() - node_index,
    {
        let ghost e0 = errors_view(errors@);
        let ghost nodes = skeleton.nodes@;
        let ghost all = tree_errors(
            *self,
            nodes,
            node_index as int,
            opt_flat(parent_allowed_children),
        );
        if self.max_errors > 0 && errors.len() >= self.max_errors {
            proof {
                if e0.len() == self.max_errors {
                    assert((e0 + all).take(self.max_errors as int) =~= e0);
                }
            }
            return;
        }
        let node = match skeleton.get_node(node_index) {
            Some(n) => n,
            None => {
                proof {
                    lemma_cap_fits(e0, self.max_errors);
                }
                return;
            },
        };
        let ghost own = own_errors(*self, nodes, *node, opt_flat(parent_allowed_children));
        let allowed_children = self.validate_own(skeleton, node, parent_allowed_children, errors);
        let allowed_ref: Option<&FlattenedChildren> = match &allowed_children {
            Some(a) => Some(&**a),
            None => None,
        };
        let ghost table = opt_flat(allowed_ref);
        assert(table == table_for_children(*self, *node));
        let children = &node.children_indices;
        let mut k: usize = 0;
        while k < children.len()
            invariant
                skeleton.wf(),
                nodes == skeleton.nodes@,
                0 <= node_index < nodes.len(),
                *node == nodes[node_index as int],
                children@ == node.children_indices@,
                k <= children@.len(),
                table == opt_flat(allowed_ref),
                self.max_errors == 0 || errors@.len() <= self.max_errors,
                errors_view(errors@) == cap(
                    e0 + own + children_errors(*self, nodes, node_index as int, table, k as int),
                    self.max_errors,
                ),
            decreases children@.len() - k,
        {
            let child_index = children[k];
            assert(node_index < child_index < nodes.len());
            let ghost before = children_errors(*self, nodes, node_index as int, table, k as int);
            let ghost sub = tree_errors(*self, nodes, child_index as int, table);
            self.validate_node_recursive(skeleton, child_index, allowed_ref, errors);
            proof {
                lemma_cap_append(e0, own + before, sub, self.max_errors);
                assert(e0 + own + before =~= e0 + (own + before));
                assert(children_errors(*self, nodes, node_index as int, table, k + 1) == before
                    + sub);
                assert(e0 + (own + before) + sub =~= e0 + own + (before + sub));
            }
            k = k + 1;
        }
        proof {
            assert(all == own + children_errors(
                *self,
                nodes,
                node_index as int,
                table,
                children@.len() as int,
            ));
            assert(e0 + own + children_errors(
                *self,
                nodes,
                node_index as int,
                table,
                children@.len() as int,
            ) =~= e0 + all);
        }
    }
}


/// All errors of a skeleton: those of the tree under its root.
pub open spec fn skeleton_errors(v: TwoPassSchemaValidator, s: DocumentSkeleton) -> Seq<ErrorView> {
    match s.root_index {
        Some(r) => tree_errors(v, s.nodes@, r as int, None),
        None => Seq::empty(),
    }
}

/// The errors of the element tree that the events build (the same for
/// every skeleton built from them).
pub open spec fn document_errors(v: TwoPassSchemaValidator, es: Seq<EventView>) -> Seq<ErrorView> {
    skeleton_errors(v, choose|s: DocumentSkeleton| builds(s, es))
}

/// Pass 1: builds the document skeleton of an XML text. Fails when the
/// text is not well-formed, or when an element cannot be counted among its
/// siblings.
pub fn build_skeleton(xml: &str) -> (r: Result<DocumentSkeleton, ValidationError>)
    ensures
        match r {
            Ok(s) => tokens(xml@) matches Some(es) && !overflows(es) && builds(s, es),
            Err(e) => match tokens(xml@) {
                None => e is Syntax,
                Some(es) => overflows(es) && count_overflow(e),
            },
        },
{
    let events = match parse_events(xml) {
        Ok(events) => events,
        Err(e) => return Err(e),
    };
    let ghost ev = events_view(events@);
    let mut builder = SkeletonBuilder::new();
    proof {
        assert(ev.take(0) =~= Seq::<EventView>::empty());
        assert(builder_view(builder).nodes =~= Seq::<NodeView>::empty());
        assert(builder_view(builder).open =~= Seq::<usize>::empty());
        assert(builder_view(builder) == build_all(ev.take(0)));
    }
    let mut i: usize = 0;
    while i < events.len()
        invariant
            i <= events@.len(),
            ev == events_view(events@),
            tokens(xml@) == Some(ev),
            builder.inv(),
            builder_view(builder) == build_all(ev.take(i as int)),
            forall|j: int| 0 <= j < i ==> !#[trigger] overflow_at(ev, j),
        decreases events@.len() - i,
    {
        let ghost b0 = builder;
        proof {
            assert(ev.take(i + 1).drop_last() =~= ev.take(i as int));
            assert(ev.take(i + 1).last() == ev[i as int]);
            assert(ev[i as int] == event_view(events@[i as int]));
            if b0.stack@.len() > 0 {
                let p = b0.stack@.last() as int;
                assert(b0.stack@[b0.stack@.len() - 1] < b0.skeleton.nodes@.len());
                assert(nodes_view(b0.skeleton.nodes@)[p] == node_view(b0.skeleton.nodes@[p]));
                match events@[i as int] {
                    XmlEvent::StartElement { name, .. } => {
                        lemma_count_named_view(
                            b0.skeleton.nodes@,
                            b0.skeleton.nodes@[p].children_indices@,
                            name@,
                        );
                    },
                    _ => {},
                }
            }
        }
        match builder.handle(&events[i]) {
            Ok(()) => {},
            Err(e) => {
                proof {
                    assert(overflow_at(ev, i as int));
                }
                return Err(e);
            },
        }
        proof {
            assert(!overflow_at(ev, i as int));
        }
        i = i + 1;
    }
    proof {
        assert(ev.take(events@.len() as int) =~= ev);
    }
    Ok(builder.into_skeleton())
}

impl TwoPassSchemaValidator {
    /// Pass 2: validates a skeleton, from its root.
    pub fn validate_with_skeleton(&self, skeleton: &DocumentSkeleton) -> (r: Result<
        Vec<StructuredError>,
        ValidationError,
    >)
        requires
            skeleton.wf(),
        ensures
            r matches Ok(errors) && errors_view(errors@) == cap(
                skeleton_errors(*self, *skeleton),
                self.max_errors,
            ),
    {
        let mut errors: Vec<StructuredError> = Vec::new();
        proof {
            assert(errors_view(errors@) =~= Seq::<ErrorView>::empty());
        }
        if let Some(root_index) = skeleton.root_index {
            self.validate_node_recursive(skeleton, root_index, None, &mut errors);
            proof {
                assert(Seq::<ErrorView>::empty() + skeleton_errors(*self, *skeleton)
                    =~= skeleton_errors(*self, *skeleton));
            }
        }
        Ok(errors)
    }

    /// Performs two-pass validation of an XML text: builds its skeleton,
    /// then checks the skeleton. Fails when the text is not well-formed.
    pub fn validate(&self, xml: &str) -> (r: Result<Vec<StructuredError>, ValidationError>)
        ensures
            match r {
                Ok(errors) => tokens(xml@) matches Some(es) && !overflows(es) && (exists|s: DocumentSkeleton|
                    #[trigger] builds(s, es)) && errors_view(errors@) == cap(
                        document_errors(*self, es),
                        self.max_errors,
                    ),
                Err(e) => match tokens(xml@) {
                    None => e is Syntax,
                    Some(es) => overflows(es) && count_overflow(e),
                },
            },
    {
        let skeleton = match build_skeleton(xml) {
            Ok(s) => s,
            Err(e) => return Err(e),
        };
        proof {
            let es = tokens(xml@)->0;
            crate::agreement::lemma_builds_same_errors(
                *self,
                skeleton,
                choose|s: DocumentSkeleton| builds(s, es),
                es,
            );
        }
        self.validate_with_skeleton(&skeleton)
    }
}

} // verus!
