//! The start-tag, attribute, `xsi:type` and ID checks of a document, in document
//! order: each start tag's `xsi:type` is resolved against the declared type
//! (a refused substitution is an error); an element declared abstract is
//! refused, and so is `xsi:nil="true"` on a declaration that is not
//! nillable, or on an element that then has content; an element whose (substituted or
//! declared) type is complex has its attributes checked against that type
//! (namespaces resolved through the declarations in scope), its `xs:ID` values checked for uniqueness across the
//! document, and its `xs:IDREF` values kept; at the end every IDREF that
//! matches no ID is reported. An entry made at a start tag carries the path
//! of the open elements up to and including it, one made at an end tag the
//! path without it; the unresolved IDREFs carry none.
use vstd::prelude::*;

use crate::attributes::{element_attrs, outcome_view, triple_view, validate_element_attributes};
use crate::constraints::{record_ids, DocIdState};
use crate::error::{ErrorLevel, StructuredError, ValidationErrorType};
use crate::schema::{ComplexType, CompiledSchema, TypeDef};
use crate::state::{bindings_of, resolve_in, scopes_view, Namespace, ValidationState};
use crate::text::{before_first_colon, has_colon, split_first_colon, str_eq, strings_view};
use crate::two_pass::{errors_view, view_error, ErrorView, TwoPassSchemaValidator};
use crate::validation::{elem_type, lookup_elem};
use crate::schema::ElementDef;
use crate::xsi_type::{qname_prefix, resolve_xsi_type_in, xsi_outcome};
use crate::streaming::{qualified, qualified_name};
use crate::text::{blank, is_blank, trim, trim_str};
use crate::xml::{event_view, events_view, opt_string_view, EventView, XmlEvent};

verus! {

/// The pass in progress: the namespace scopes (outermost first), the IDs
/// seen, the IDREFs kept with their positions, and the entries so far.
pub struct AttrPass {
    /// Namespace declarations of each open scope.
    pub scopes: Seq<Seq<(Seq<char>, Seq<char>)>>,
    /// `xs:ID` values seen.
    pub seen: Seq<Seq<char>>,
    /// `xs:IDREF` values with the position of their element.
    pub pending: Seq<(Seq<char>, Option<usize>, Option<usize>)>,
    /// Entries so far.
    pub errors: Seq<ErrorView>,
    /// The open elements, outermost first: qualified name, whether it
    /// carries `xsi:nil="true"`, and whether it has content so far (a child
    /// element, or text that is not all whitespace).
    pub open: Seq<(Seq<char>, bool, bool)>,
    /// Line of the latest start tag.
    pub line: Option<usize>,
    /// Column of the latest start tag.
    pub column: Option<usize>,
}

/// Whether some attribute is `xsi:nil` with the value `true` (surrounding
/// whitespace aside).
pub open spec fn nil_attr(attrs: Seq<(Seq<char>, Seq<char>)>) -> bool {
    exists|i: int| #![trigger attrs[i]] 0 <= i < attrs.len() && attrs[i].0 == "xsi:nil"@ && trim(attrs[i].1) == "true"@
}

/// An entry about element `q` with message `m`.
pub open spec fn element_entry(
    t: ValidationErrorType,
    q: Seq<char>,
    line: Option<usize>,
    column: Option<usize>,
    path: Seq<char>,
    m: Seq<char>,
) -> ErrorView {
    ErrorView {
        error_type: t,
        message: m,
        level: ErrorLevel::Error,
        line,
        column,
        node_name: Some(q),
        expected: None,
        found: None,
        count: 1,
        element_path: Some(path),
        more_positions: Seq::empty(),
    }
}

/// The entry for an element declared abstract.
pub open spec fn abstract_entry(q: Seq<char>, line: Option<usize>, column: Option<usize>, path: Seq<char>) -> ErrorView {
    element_entry(
        ValidationErrorType::InvalidContent,
        q,
        line,
        column,
        path,
        "element '"@ + q + "' is abstract and cannot be used directly"@,
    )
}

/// The entry for `xsi:nil="true"` on an element not declared nillable.
pub open spec fn not_nillable_entry(q: Seq<char>, line: Option<usize>, column: Option<usize>, path: Seq<char>) -> ErrorView {
    element_entry(
        ValidationErrorType::InvalidAttributeValue,
        q,
        line,
        column,
        path,
        "element '"@ + q + "' is not nillable but has xsi:nil=\"true\""@,
    )
}

/// The entry for a nilled element that has content.
pub open spec fn nil_content_entry(q: Seq<char>, line: Option<usize>, column: Option<usize>, path: Seq<char>) -> ErrorView {
    element_entry(
        ValidationErrorType::InvalidContent,
        q,
        line,
        column,
        path,
        "element '"@ + q + "' has xsi:nil=\"true\" but is not empty"@,
    )
}

/// The declaration checks of a start tag whose declaration is `decl`: an
/// abstract declaration is refused, and so is `xsi:nil="true"` (`nilled`)
/// on a declaration that is not nillable; an undeclared element gets
/// neither entry.
pub open spec fn decl_errors(
    decl: Option<ElementDef>,
    q: Seq<char>,
    nilled: bool,
    line: Option<usize>,
    column: Option<usize>,
    path: Seq<char>,
) -> Seq<ErrorView> {
    match decl {
        Some(e) => (if e.is_abstract {
            seq![abstract_entry(q, line, column, path)]
        } else {
            Seq::<ErrorView>::empty()
        }) + (if nilled && !e.nillable {
            seq![not_nillable_entry(q, line, column, path)]
        } else {
            Seq::<ErrorView>::empty()
        }),
        None => Seq::empty(),
    }
}

/// The declaration checks of a start tag.
pub open spec fn start_errors(
    schema: CompiledSchema,
    name: Seq<char>,
    prefix: Option<Seq<char>>,
    attrs: Seq<(Seq<char>, Seq<char>)>,
    line: Option<usize>,
    column: Option<usize>,
    path: Seq<char>,
) -> Seq<ErrorView> {
    decl_errors(lookup_elem(schema, name, prefix), qualified(name, prefix), nil_attr(attrs), line, column, path)
}

/// The names of the open elements, each after a `/`.
pub open spec fn path_segments(open: Seq<(Seq<char>, bool, bool)>) -> Seq<char>
    decreases open.len(),
{
    if open.len() == 0 {
        Seq::empty()
    } else {
        path_segments(open.drop_last()) + "/"@ + open.last().0
    }
}

/// The element path of the open elements (`/` when none is open).
pub open spec fn path_of(open: Seq<(Seq<char>, bool, bool)>) -> Seq<char> {
    if open.len() == 0 {
        "/"@
    } else {
        path_segments(open)
    }
}

/// The open elements with the innermost one marked as having content.
pub open spec fn mark_filled(open: Seq<(Seq<char>, bool, bool)>) -> Seq<(Seq<char>, bool, bool)> {
    if open.len() > 0 {
        open.drop_last().push((open.last().0, open.last().1, true))
    } else {
        open
    }
}

/// The entry for closing the innermost open element: when it is nilled
/// and has content.
pub open spec fn end_errors(open: Seq<(Seq<char>, bool, bool)>, line: Option<usize>, column: Option<usize>) -> Seq<
    ErrorView,
> {
    if open.len() > 0 && open.last().1 && open.last().2 {
        seq![nil_content_entry(open.last().0, line, column, path_of(open.drop_last()))]
    } else {
        Seq::empty()
    }
}

/// The complex type an element is declared with, if any.
pub open spec fn declared_complex(schema: CompiledSchema, name: Seq<char>, prefix: Option<Seq<char>>) -> Option<
    ComplexType,
> {
    match lookup_elem(schema, name, prefix) {
        Some(elem) => match elem_type(schema, elem) {
            Some(TypeDef::Complex(c)) => Some(c),
            _ => None,
        },
        None => None,
    }
}

/// The value of the first attribute named `xsi:type`.
pub open spec fn xsi_type_attr(attrs: Seq<(Seq<char>, Seq<char>)>) -> Option<Seq<char>>
    decreases attrs.len(),
{
    if attrs.len() == 0 {
        None
    } else if attrs[0].0 == "xsi:type"@ {
        Some(attrs[0].1)
    } else {
        xsi_type_attr(attrs.drop_first())
    }
}

/// The named type an element is declared with, if any.
pub open spec fn declared_type_ref(schema: CompiledSchema, name: Seq<char>, prefix: Option<Seq<char>>) -> Option<
    Seq<char>,
> {
    match lookup_elem(schema, name, prefix) {
        Some(elem) => match elem.type_ref {
            Some(t) => Some(t@),
            None => None,
        },
        None => None,
    }
}

/// The outcome of an element's `xsi:type` attribute, when it has one: the
/// substituted type, or why the substitution is refused.
pub open spec fn xsi_result(
    schema: CompiledSchema,
    name: Seq<char>,
    prefix: Option<Seq<char>>,
    scopes: Seq<Seq<(Seq<char>, Seq<char>)>>,
    attrs: Seq<(Seq<char>, Seq<char>)>,
) -> Option<Result<Seq<char>, Seq<char>>> {
    match xsi_type_attr(attrs) {
        Some(t) => Some(
            xsi_outcome(
                schema,
                declared_type_ref(schema, name, prefix),
                t,
                resolve_in(scopes, qname_prefix(trim(t))),
            ),
        ),
        None => None,
    }
}

/// The complex type an element's attributes are checked against: the
/// substituted type when `xsi:type` is accepted, else the declared one.
pub open spec fn attr_complex(
    schema: CompiledSchema,
    name: Seq<char>,
    prefix: Option<Seq<char>>,
    scopes: Seq<Seq<(Seq<char>, Seq<char>)>>,
    attrs: Seq<(Seq<char>, Seq<char>)>,
) -> Option<ComplexType> {
    match xsi_result(schema, name, prefix, scopes, attrs) {
        Some(Ok(k)) => match schema.types.lookup(k) {
            Some(TypeDef::Complex(c)) => Some(c),
            _ => None,
        },
        _ => declared_complex(schema, name, prefix),
    }
}

/// The entry for a refused `xsi:type`, if any.
pub open spec fn xsi_errors(
    schema: CompiledSchema,
    name: Seq<char>,
    prefix: Option<Seq<char>>,
    scopes: Seq<Seq<(Seq<char>, Seq<char>)>>,
    attrs: Seq<(Seq<char>, Seq<char>)>,
    line: Option<usize>,
    column: Option<usize>,
    path: Seq<char>,
) -> Seq<ErrorView> {
    match xsi_result(schema, name, prefix, scopes, attrs) {
        Some(Err(m)) => seq![attr_entry(qualified(name, prefix), line, column, path, m)],
        _ => Seq::empty(),
    }
}

/// Each attribute with the namespace of its prefix (none when unprefixed).
pub open spec fn attr_triples(scopes: Seq<Seq<(Seq<char>, Seq<char>)>>, attrs: Seq<(Seq<char>, Seq<char>)>) -> Seq<
    (Seq<char>, Option<Seq<char>>, Seq<char>),
> {
    attrs.map_values(
        |a: (Seq<char>, Seq<char>)|
            (a.0, if has_colon(a.0) {
                resolve_in(scopes, before_first_colon(a.0))
            } else {
                None
            }, a.1),
    )
}

/// An attribute error of element `name`.
pub open spec fn attr_entry(
    name: Seq<char>,
    line: Option<usize>,
    column: Option<usize>,
    path: Seq<char>,
    m: Seq<char>,
) -> ErrorView {
    ErrorView {
        error_type: ValidationErrorType::InvalidAttributeValue,
        message: "element '"@ + name + "': "@ + m,
        level: ErrorLevel::Error,
        line,
        column,
        node_name: Some(name),
        expected: None,
        found: None,
        count: 1,
        element_path: Some(path),
        more_positions: Seq::empty(),
    }
}

/// An identity error at a position.
pub open spec fn id_entry(
    line: Option<usize>,
    column: Option<usize>,
    path: Option<Seq<char>>,
    m: Seq<char>,
) -> ErrorView {
    ErrorView {
        error_type: ValidationErrorType::IdentityConstraint,
        message: m,
        level: ErrorLevel::Error,
        line,
        column,
        node_name: None,
        expected: None,
        found: None,
        count: 1,
        element_path: path,
        more_positions: Seq::empty(),
    }
}

/// The pass after one more event.
pub open spec fn attr_step(schema: CompiledSchema, p: AttrPass, e: EventView) -> AttrPass {
    match e {
        EventView::Start { name, prefix, attributes, namespace_decls, line, column, .. } => {
            let scopes = p.scopes.push(namespace_decls);
            let open = mark_filled(p.open).push((qualified(name, prefix), nil_attr(attributes), false));
            let path = path_of(open);
            let x = p.errors + xsi_errors(schema, name, prefix, scopes, attributes, line, column, path)
                + start_errors(schema, name, prefix, attributes, line, column, path);
            match attr_complex(schema, name, prefix, scopes, attributes) {
                Some(c) => {
                    let o = element_attrs(schema, c, attr_triples(scopes, attributes));
                    let (dups, seen) = record_ids(p.seen, o.ids);
                    AttrPass {
                        scopes,
                        seen,
                        pending: p.pending + o.idrefs.map_values(
                            |r: Seq<char>| (r, line, column),
                        ),
                        errors: x + o.errors.map_values(
                            |m: Seq<char>| attr_entry(name, line, column, path, m),
                        ) + dups.map_values(|m: Seq<char>| id_entry(line, column, Some(path), m)),
                        open,
                        line,
                        column,
                    }
                },
                None => AttrPass { scopes, errors: x, open, line, column, ..p },
            }
        },
        EventView::End { .. } => AttrPass {
            scopes: if p.scopes.len() > 1 {
                p.scopes.drop_last()
            } else {
                p.scopes
            },
            errors: p.errors + end_errors(p.open, p.line, p.column),
            open: if p.open.len() > 0 {
                p.open.drop_last()
            } else {
                p.open
            },
            ..p
        },
        EventView::Text(t) => if blank(t) {
            p
        } else {
            AttrPass { open: mark_filled(p.open), ..p }
        },
        EventView::CData(t) => if blank(t) {
            p
        } else {
            AttrPass { open: mark_filled(p.open), ..p }
        },
        _ => p,
    }
}

/// The pass over a list of events, from one empty scope.
pub open spec fn attr_run(schema: CompiledSchema, es: Seq<EventView>) -> AttrPass
    decreases es.len(),
{
    if es.len() == 0 {
        AttrPass {
            scopes: seq![Seq::empty()],
            seen: Seq::empty(),
            pending: Seq::empty(),
            errors: Seq::empty(),
            open: Seq::empty(),
            line: None,
            column: None,
        }
    } else {
        attr_step(schema, attr_run(schema, es.drop_last()), es.last())
    }
}

/// The entries for the kept IDREFs that match no seen ID, in order.
pub open spec fn unresolved(seen: Seq<Seq<char>>, pending: Seq<(Seq<char>, Option<usize>, Option<usize>)>) -> Seq<
    ErrorView,
>
    decreases pending.len(),
{
    if pending.len() == 0 {
        Seq::empty()
    } else {
        let (r, l, c) = pending.last();
        unresolved(seen, pending.drop_last()) + if seen.contains(r) {
            Seq::<ErrorView>::empty()
        } else {
            seq![id_entry(l, c, None, "IDREF '"@ + r + "' does not match any ID in the document"@)]
        }
    }
}

/// All attribute and ID entries of a document with events `es`.
pub open spec fn attr_errors(schema: CompiledSchema, es: Seq<EventView>) -> Seq<ErrorView> {
    let p = attr_run(schema, es);
    p.errors + unresolved(p.seen, p.pending)
}

/// The view of kept IDREFs.
pub open spec fn pending_view(v: Seq<(String, Option<usize>, Option<usize>)>) -> Seq<
    (Seq<char>, Option<usize>, Option<usize>),
> {
    v.map_values(|t: (String, Option<usize>, Option<usize>)| (t.0@, t.1, t.2))
}

/// The value of the first attribute named `xsi:type`.
fn find_xsi_type(attrs: &Vec<(String, String)>) -> (r: Option<&str>)
    ensures
        match r {
            Some(t) => xsi_type_attr(crate::xml::attrs_view(attrs@)) == Some(t@),
            None => xsi_type_attr(crate::xml::attrs_view(attrs@)) is None,
        },
{
    proof {
        reveal_strlit("xsi:type");
    }
    let ghost av = crate::xml::attrs_view(attrs@);
    let mut k: usize = 0;
    assert(av.skip(0) =~= av);
    while k < attrs.len()
        invariant
            k <= attrs@.len(),
            av == crate::xml::attrs_view(attrs@),
            xsi_type_attr(av) == xsi_type_attr(av.skip(k as int)),
        decreases attrs@.len() - k,
    {
        assert(av.skip(k as int).drop_first() =~= av.skip(k + 1));
        assert(av.skip(k as int)[0] == av[k as int]);
        if str_eq(attrs[k].0.as_str(), "xsi:type") {
            return Some(attrs[k].1.as_str());
        }
        k = k + 1;
    }
    None
}

/// Appends the entries for `msgs`, each made by `f` from its message.
fn push_attr_entries(
    errors: &mut Vec<StructuredError>,
    msgs: &Vec<String>,
    name: &str,
    line: Option<usize>,
    column: Option<usize>,
    path: &str,
)
    ensures
        errors_view(final(errors)@) == errors_view(old(errors)@) + strings_view(msgs@).map_values(
            |m: Seq<char>| attr_entry(name@, line, column, path@, m),
        ),
{
    proof {
        reveal_strlit("element '");
        reveal_strlit("': ");
    }
    let ghost e0 = errors_view(errors@);
    let mut k: usize = 0;
    while k < msgs.len()
        invariant
            k <= msgs@.len(),
            errors_view(errors@) == e0 + strings_view(msgs@).take(k as int).map_values(
                |m: Seq<char>| attr_entry(name@, line, column, path@, m),
            ),
        decreases msgs@.len() - k,
    {
        let mut m = String::from_str("element '");
        m.append(name);
        m.append("': ");
        m.append(msgs[k].as_str());
        let mut e = StructuredError::new(m, ValidationErrorType::InvalidAttributeValue);
        if let Some(l) = line {
            e = e.with_line(l);
        }
        if let Some(c) = column {
            e = e.with_column(c);
        }
        e = e.with_node_name(String::from_str(name));
        e = e.with_element_path(String::from_str(path));
        let ghost before = errors@;
        errors.push(e);
        proof {
            assert(view_error(e) == attr_entry(name@, line, column, path@, msgs@[k as int]@));
            assert(strings_view(msgs@).take(k + 1) =~= strings_view(msgs@).take(k as int).push(
                msgs@[k as int]@,
            ));
            assert(errors_view(errors@) =~= errors_view(before).push(view_error(e)));
        }
        k = k + 1;
    }
    assert(strings_view(msgs@).take(msgs@.len() as int) =~= strings_view(msgs@));
}

/// Appends an identity entry for each of `msgs`.
fn push_id_entries(
    errors: &mut Vec<StructuredError>,
    msgs: &Vec<String>,
    line: Option<usize>,
    column: Option<usize>,
    path: &str,
)
    ensures
        errors_view(final(errors)@) == errors_view(old(errors)@) + strings_view(msgs@).map_values(
            |m: Seq<char>| id_entry(line, column, Some(path@), m),
        ),
{
    let ghost e0 = errors_view(errors@);
    let mut k: usize = 0;
    while k < msgs.len()
        invariant
            k <= msgs@.len(),
            errors_view(errors@) == e0 + strings_view(msgs@).take(k as int).map_values(
                |m: Seq<char>| id_entry(line, column, Some(path@), m),
            ),
        decreases msgs@.len() - k,
    {
        let mut e = StructuredError::new(msgs[k].clone(), ValidationErrorType::IdentityConstraint);
        if let Some(l) = line {
            e = e.with_line(l);
        }
        if let Some(c) = column {
            e = e.with_column(c);
        }
        e = e.with_element_path(String::from_str(path));
        let ghost before = errors@;
        errors.push(e);
        proof {
            assert(view_error(e) == id_entry(line, column, Some(path@), msgs@[k as int]@));
            assert(strings_view(msgs@).take(k + 1) =~= strings_view(msgs@).take(k as int).push(
                msgs@[k as int]@,
            ));
            assert(errors_view(errors@) =~= errors_view(before).push(view_error(e)));
        }
        k = k + 1;
    }
    assert(strings_view(msgs@).take(msgs@.len() as int) =~= strings_view(msgs@));
}

/// The view of the open elements.
pub open spec fn open_view(v: Seq<(String, bool, bool)>) -> Seq<(Seq<char>, bool, bool)> {
    v.map_values(|t: (String, bool, bool)| (t.0@, t.1, t.2))
}

/// Whether some attribute is `xsi:nil` with the value `true`.
fn has_nil(attrs: &Vec<(String, String)>) -> (r: bool)
    ensures
        r == nil_attr(crate::xml::attrs_view(attrs@)),
{
    proof {
        reveal_strlit("xsi:nil");
        reveal_strlit("true");
    }
    let ghost av = crate::xml::attrs_view(attrs@);
    let mut k: usize = 0;
    while k < attrs.len()
        invariant
            k <= attrs@.len(),
            av == crate::xml::attrs_view(attrs@),
            forall|j: int| #![trigger av[j]] 0 <= j < k ==> !(av[j].0 == "xsi:nil"@ && trim(av[j].1) == "true"@),
        decreases attrs@.len() - k,
    {
        assert(av[k as int] == (attrs@[k as int].0@, attrs@[k as int].1@));
        if str_eq(attrs[k].0.as_str(), "xsi:nil") {
            let t = trim_str(attrs[k].1.as_str());
            if str_eq(t.as_str(), "true") {
                return true;
            }
        }
        k = k + 1;
    }
    false
}

/// An error about element `q` with message `m`.
fn element_error(
    t: ValidationErrorType,
    q: &str,
    line: Option<usize>,
    column: Option<usize>,
    path: &str,
    m: String,
) -> (e: StructuredError)
    ensures
        view_error(e) == element_entry(t, q@, line, column, path@, m@),
{
    let mut e = StructuredError::new(m, t);
    if let Some(l) = line {
        e = e.with_line(l);
    }
    if let Some(c) = column {
        e = e.with_column(c);
    }
    e = e.with_node_name(String::from_str(q));
    e.with_element_path(String::from_str(path))
}

/// The error for an element declared abstract.
fn abstract_error(q: &str, line: Option<usize>, column: Option<usize>, path: &str) -> (e: StructuredError)
    ensures
        view_error(e) == abstract_entry(q@, line, column, path@),
{
    proof {
        reveal_strlit("element '");
        reveal_strlit("' is abstract and cannot be used directly");
    }
    let mut m = String::from_str("element '");
    m.append(q);
    m.append("' is abstract and cannot be used directly");
    element_error(ValidationErrorType::InvalidContent, q, line, column, path, m)
}

/// The error for `xsi:nil="true"` on an element not declared nillable.
fn not_nillable_error(q: &str, line: Option<usize>, column: Option<usize>, path: &str) -> (e: StructuredError)
    ensures
        view_error(e) == not_nillable_entry(q@, line, column, path@),
{
    proof {
        reveal_strlit("element '");
        reveal_strlit("' is not nillable but has xsi:nil=\"true\"");
    }
    let mut m = String::from_str("element '");
    m.append(q);
    m.append("' is not nillable but has xsi:nil=\"true\"");
    element_error(ValidationErrorType::InvalidAttributeValue, q, line, column, path, m)
}

/// The error for a nilled element that has content.
fn nil_content_error(q: &str, line: Option<usize>, column: Option<usize>, path: &str) -> (e: StructuredError)
    ensures
        view_error(e) == nil_content_entry(q@, line, column, path@),
{
    proof {
        reveal_strlit("element '");
        reveal_strlit("' has xsi:nil=\"true\" but is not empty");
    }
    let mut m = String::from_str("element '");
    m.append(q);
    m.append("' has xsi:nil=\"true\" but is not empty");
    element_error(ValidationErrorType::InvalidContent, q, line, column, path, m)
}

/// The element path of the open elements.
fn open_path(open: &Vec<(String, bool, bool)>) -> (r: String)
    ensures
        r@ == path_of(open_view(open@)),
{
    proof {
        reveal_strlit("/");
    }
    if open.len() == 0 {
        return String::from_str("/");
    }
    let ghost ov = open_view(open@);
    let mut out = String::new();
    let mut k: usize = 0;
    while k < open.len()
        invariant
            k <= open@.len(),
            ov == open_view(open@),
            out@ == path_segments(ov.take(k as int)),
        decreases open@.len() - k,
    {
        proof {
            assert(ov.take(k + 1).drop_last() =~= ov.take(k as int));
            assert(ov.take(k + 1).last() == (open@[k as int].0@, open@[k as int].1, open@[k as int].2));
        }
        out.append("/");
        out.append(open[k].0.as_str());
        k = k + 1;
    }
    assert(ov.take(ov.len() as int) =~= ov);
    out
}

/// Marks the innermost open element as having content.
fn mark_open_filled(open: &mut Vec<(String, bool, bool)>)
    ensures
        open_view(final(open)@) == mark_filled(open_view(old(open)@)),
{
    if open.len() > 0 {
        let ghost o0 = open@;
        let t = open.pop().unwrap();
        open.push((t.0, t.1, true));
        proof {
            assert(o0.drop_last() == open@.drop_last());
            assert(open_view(o0).drop_last() =~= open_view(o0.drop_last()));
            assert(open_view(o0).last() == (t.0@, t.1, t.2));
            assert(open_view(open@) =~= open_view(o0).drop_last().push((t.0@, t.1, true)));
        }
    }
}

/// Appends the declaration checks of a start tag.
fn push_decl_errors(
    errors: &mut Vec<StructuredError>,
    decl: Option<&ElementDef>,
    q: &str,
    nilled: bool,
    line: Option<usize>,
    column: Option<usize>,
    path: &str,
)
    ensures
        errors_view(final(errors)@) == errors_view(old(errors)@) + decl_errors(
            match decl {
                Some(d) => Some(*d),
                None => None,
            },
            q@,
            nilled,
            line,
            column,
            path@,
        ),
{
    let ghost ex = errors_view(errors@);
    match decl {
        Some(d) => {
            if d.is_abstract {
                let e = abstract_error(q, line, column, path);
                errors.push(e);
            }
            let ghost ea = errors_view(errors@);
            if nilled && !d.nillable {
                let e = not_nillable_error(q, line, column, path);
                errors.push(e);
            }
            proof {
                assert(ea =~= ex + (if d.is_abstract {
                    seq![abstract_entry(q@, line, column, path@)]
                } else {
                    Seq::<ErrorView>::empty()
                }));
                assert(errors_view(errors@) =~= ex + decl_errors(Some(*d), q@, nilled, line, column, path@));
            }
        },
        None => {
            assert(errors_view(errors@) =~= ex + Seq::<ErrorView>::empty());
        },
    }
}

/// Closes the innermost open element, appending the entry for a nilled
/// element that has content.
fn close_open(
    open: &mut Vec<(String, bool, bool)>,
    errors: &mut Vec<StructuredError>,
    line: Option<usize>,
    column: Option<usize>,
)
    ensures
        errors_view(final(errors)@) == errors_view(old(errors)@) + end_errors(open_view(old(open)@), line, column),
        open_view(final(open)@) == if open_view(old(open)@).len() > 0 {
            open_view(old(open)@).drop_last()
        } else {
            open_view(old(open)@)
        },
{
    let ghost ex = errors_view(errors@);
    let ghost ov = open_view(open@);
    let ghost o0 = open@;
    if open.len() > 0 {
        let t = open.pop().unwrap();
        if t.1 && t.2 {
            let path = open_path(open);
            proof {
                assert(open_view(open@) =~= ov.drop_last());
            }
            let e = nil_content_error(t.0.as_str(), line, column, path.as_str());
            errors.push(e);
        }
        proof {
            assert(ov.last() == (t.0@, t.1, t.2));
            assert(open_view(open@) =~= ov.drop_last());
        }
    }
    assert(errors_view(errors@) =~= ex + end_errors(ov, line, column));
}

/// The attribute and ID entries of a document with the given events, in
/// document order, then the unresolved IDREFs.
#[verifier::rlimit(100)]
#[verifier::spinoff_prover]
pub fn attribute_errors(v: &TwoPassSchemaValidator, events: &Vec<XmlEvent>) -> (r: Vec<StructuredError>)
    ensures
        errors_view(r@) == attr_errors(v.sch(), events_view(events@)),
{
    let ghost es = events_view(events@);
    let ghost schema = v.sch();
    let mut state = ValidationState::new();
    let mut ids = DocIdState::default();
    let mut errors: Vec<StructuredError> = Vec::new();
    let mut open: Vec<(String, bool, bool)> = Vec::new();
    let mut cur_line: Option<usize> = None;
    let mut cur_col: Option<usize> = None;
    proof {
        assert(open_view(open@) =~= Seq::<(Seq<char>, bool, bool)>::empty());
        assert(es.take(0) =~= Seq::<EventView>::empty());
        assert(bindings_of(state.namespace_stack@[0]) =~= Seq::<(Seq<char>, Seq<char>)>::empty());
        assert(scopes_view(state.namespace_stack@) =~= seq![Seq::<(Seq<char>, Seq<char>)>::empty()]);
        assert(strings_view(ids.seen_ids@) =~= Seq::<Seq<char>>::empty());
        assert(pending_view(ids.pending_idrefs@) =~= Seq::<(Seq<char>, Option<usize>, Option<usize>)>::empty());
        assert(errors_view(errors@) =~= Seq::<ErrorView>::empty());
    }
    let mut i: usize = 0;
    while i < events.len()
        invariant
            i <= events@.len(),
            es == events_view(events@),
            schema == v.sch(),
            state.namespace_stack@.len() >= 1,
            ({
                let p = attr_run(schema, es.take(i as int));
                &&& scopes_view(state.namespace_stack@) == p.scopes
                &&& strings_view(ids.seen_ids@) == p.seen
                &&& pending_view(ids.pending_idrefs@) == p.pending
                &&& errors_view(errors@) == p.errors
                &&& open_view(open@) == p.open
                &&& cur_line == p.line
                &&& cur_col == p.column
            }),
        decreases events@.len() - i,
    {
        let ghost p0 = attr_run(schema, es.take(i as int));
        proof {
            assert(es.take(i + 1).drop_last() =~= es.take(i as int));
            assert(es.take(i + 1).last() == event_view(events@[i as int]));
        }
        match &events[i] {
            XmlEvent::StartElement { name, prefix, attributes, namespace_decls, line, column, .. } => {
                state.push_namespaces(namespace_decls.as_slice());
                let ghost scopes = scopes_view(state.namespace_stack@);
                let pre: Option<&str> = match prefix {
                    Some(p) => Some(p.as_str()),
                    None => None,
                };
                proof {
                    assert(crate::validation::opt_chars(pre) == opt_string_view(*prefix));
                    assert(namespace_decls@.map_values(|d: Namespace| (d.prefix@, d.uri@))
                        == event_view(events@[i as int])->Start_namespace_decls);
                }
                let elem = v.lookup_element(name.as_str(), pre);
                let declared: Option<&ComplexType> = match elem {
                    Some(elem) => {
                        let td: Option<&TypeDef> = match &elem.type_ref {
                            Some(t) => v.schema.get_type(t.as_str()),
                            None => match &elem.inline_type {
                                Some(b) => Some(&**b),
                                None => None,
                            },
                        };
                        match td {
                            Some(TypeDef::Complex(c)) => Some(c),
                            _ => None,
                        }
                    },
                    None => None,
                };
                let declared_ref: Option<&str> = match elem {
                    Some(e) => match &e.type_ref {
                        Some(t) => Some(t.as_str()),
                        None => None,
                    },
                    None => None,
                };
                let nilled = has_nil(attributes);
                let q = qualified_name(name.as_str(), pre);
                mark_open_filled(&mut open);
                open.push((String::from_str(q.as_str()), nilled, false));
                let path = open_path(&open);
                proof {
                    let ev = event_view(events@[i as int]);
                    assert(ev->Start_attributes == crate::xml::attrs_view(attributes@));
                    assert(crate::validation::opt_chars(pre) == opt_string_view(*prefix));
                    assert(open_view(open@) == mark_filled(p0.open).push(
                        (qualified(name@, opt_string_view(*prefix)), nil_attr(ev->Start_attributes), false),
                    ));
                }
                let xsi = find_xsi_type(attributes);
                let mut substituted: Option<String> = None;
                let mut refused = false;
                match xsi {
                    Some(t) => {
                        let tt = trim_str(t);
                        let p: String = match split_first_colon(tt.as_str()) {
                            Some((p, _l)) => p,
                            None => String::new(),
                        };
                        proof {
                            assert(p@ == qname_prefix(trim(t@)));
                        }
                        let uri: Option<String> = match state.resolve_prefix(p.as_str()) {
                            Some(u) => Some(String::from_str(u)),
                            None => None,
                        };
                        match resolve_xsi_type_in(&v.schema, declared_ref, t, uri) {
                            Ok(k) => {
                                substituted = Some(k);
                            },
                            Err(m) => {
                                refused = true;
                                let mut msg = String::from_str("element '");
                                msg.append(q.as_str());
                                msg.append("': ");
                                msg.append(m.as_str());
                                let mut e = StructuredError::new(msg, ValidationErrorType::InvalidAttributeValue);
                                if let Some(l) = *line {
                                    e = e.with_line(l);
                                }
                                if let Some(c) = *column {
                                    e = e.with_column(c);
                                }
                                e = e.with_node_name(String::from_str(q.as_str()));
                                e = e.with_element_path(String::from_str(path.as_str()));
                                let ghost before = errors@;
                                errors.push(e);
                                proof {
                                    reveal_strlit("element '");
                                    reveal_strlit("': ");
                                    assert(errors_view(errors@) =~= errors_view(before).push(view_error(e)));
                                }
                            },
                        }
                    },
                    None => {},
                }
                let complex: Option<&ComplexType> = match &substituted {
                    Some(k) => match v.schema.get_type(k.as_str()) {
                        Some(TypeDef::Complex(c)) => Some(c),
                        _ => None,
                    },
                    None => declared,
                };
                proof {
                    let ev = event_view(events@[i as int]);
                    assert(ev->Start_attributes == crate::xml::attrs_view(attributes@));
                    assert(xsi_errors(schema, name@, opt_string_view(*prefix), scopes, ev->Start_attributes, *line, *column, path@)
                        == if refused {
                            seq![view_error(errors@.last())]
                        } else {
                            Seq::<ErrorView>::empty()
                        });
                }
                push_decl_errors(&mut errors, elem, q.as_str(), nilled, *line, *column, path.as_str());
                cur_line = *line;
                cur_col = *column;
                match complex {
                    Some(c) => {
                        let mut triples: Vec<(&str, Option<&str>, &str)> = Vec::new();
                        let mut k: usize = 0;
                        while k < attributes.len()
                            invariant
                                k <= attributes@.len(),
                                scopes == scopes_view(state.namespace_stack@),
                                triples@.map_values(|t: (&str, Option<&str>, &str)| triple_view(t))
                                    == attr_triples(scopes, crate::xml::attrs_view(attributes@)).take(k as int),
                            decreases attributes@.len() - k,
                        {
                            let an = attributes[k].0.as_str();
                            let ns: Option<&str> = match split_first_colon(an) {
                                Some((p, _l)) => state.resolve_prefix(p.as_str()),
                                None => None,
                            };
                            let ghost before = triples@;
                            let t = (an, ns, attributes[k].1.as_str());
                            triples.push(t);
                            proof {
                                let av = crate::xml::attrs_view(attributes@);
                                assert(av[k as int] == (attributes@[k as int].0@, attributes@[k as int].1@));
                                assert(triple_view(t) == attr_triples(scopes, av)[k as int]);
                                let m1 = triples@.map_values(|t: (&str, Option<&str>, &str)| triple_view(t));
                                let want = attr_triples(scopes, av).take(k + 1);
                                assert(triples@ == before.push(t));
                                assert(av.len() == attributes@.len());
                                assert(attr_triples(scopes, av).len() == av.len());
                                assert(before.map_values(|t: (&str, Option<&str>, &str)| triple_view(t)).len()
                                    == before.len());
                                assert(before.len() == k);
                                assert forall|j: int| 0 <= j < k + 1 implies m1[j] == want[j] by {
                                    if j < k {
                                        assert(before.map_values(|t: (&str, Option<&str>, &str)| triple_view(t))[j]
                                            == attr_triples(scopes, av).take(k as int)[j]);
                                        assert(triples@[j] == before[j]);
                                    }
                                }
                                assert(triples@.map_values(|t: (&str, Option<&str>, &str)| triple_view(t))
                                    =~= attr_triples(scopes, crate::xml::attrs_view(attributes@)).take(
                                    k + 1,
                                ));
                            }
                            k = k + 1;
                        }
                        proof {
                            assert(attr_triples(scopes, crate::xml::attrs_view(attributes@)).take(
                                attributes@.len() as int,
                            ) =~= attr_triples(scopes, crate::xml::attrs_view(attributes@)));
                        }
                        let o = validate_element_attributes(&v.schema, c, triples.as_slice());
                        push_attr_entries(&mut errors, &o.errors, name.as_str(), *line, *column, path.as_str());
                        let ghost pend0 = ids.pending_idrefs@;
                        let dups = ids.record(o.ids, o.idrefs, *line, *column);
                        push_id_entries(&mut errors, &dups, *line, *column, path.as_str());
                        proof {
                            let ov = outcome_view(o);
                            let pv = pending_view(ids.pending_idrefs@);
                            let want = pending_view(pend0) + ov.idrefs.map_values(
                                |r: Seq<char>| (r, *line, *column),
                            );
                            assert(pv.len() == want.len());
                            assert forall|j: int| 0 <= j < pv.len() implies pv[j] == want[j] by {
                                if j < pend0.len() {
                                    assert(ids.pending_idrefs@[j] == pend0[j]);
                                } else {
                                    let q = j - pend0.len();
                                    assert(ids.pending_idrefs@[pend0.len() + q] == (o.idrefs@[q], *line, *column));
                                }
                            }
                            assert(pv =~= want);
                        }
                    },
                    None => {},
                }
                proof {
                    let ev = event_view(events@[i as int]);
                    let p1 = attr_step(schema, p0, ev);
                    assert(open_view(open@) == p1.open);
                    assert(errors_view(errors@) == p1.errors);
                    assert(cur_line == p1.line);
                }
            },
            XmlEvent::EndElement { .. } => {
                close_open(&mut open, &mut errors, cur_line, cur_col);
                state.pop_namespaces();
                proof {
                    if scopes_view(state.namespace_stack@).len() > 0 {
                    }
                    assert(scopes_view(state.namespace_stack@) =~= if p0.scopes.len() > 1 {
                        p0.scopes.drop_last()
                    } else {
                        p0.scopes
                    });
                }
            },
            XmlEvent::Text(t) => {
                if !is_blank(t.as_str()) {
                    mark_open_filled(&mut open);
                }
            },
            XmlEvent::CData(t) => {
                if !is_blank(t.as_str()) {
                    mark_open_filled(&mut open);
                }
            },
            _ => {},
        }
        i = i + 1;
    }
    proof {
        assert(es.take(es.len() as int) =~= es);
    }
    let ghost p = attr_run(schema, es);
    let ghost e0 = errors_view(errors@);
    let mut k: usize = 0;
    proof {
        assert(pending_view(ids.pending_idrefs@).take(0) =~= Seq::<(Seq<char>, Option<usize>, Option<usize>)>::empty());
        assert(e0 + Seq::<ErrorView>::empty() =~= e0);
    }
    while k < ids.pending_idrefs.len()
        invariant
            k <= ids.pending_idrefs@.len(),
            errors_view(errors@) == e0 + unresolved(
                strings_view(ids.seen_ids@),
                pending_view(ids.pending_idrefs@).take(k as int),
            ),
        decreases ids.pending_idrefs@.len() - k,
    {
        proof {
            reveal_strlit("IDREF '");
            reveal_strlit("' does not match any ID in the document");
            assert(pending_view(ids.pending_idrefs@).take(k + 1).drop_last() =~= pending_view(
                ids.pending_idrefs@,
            ).take(k as int));
        }
        let (r, l, c) = (&ids.pending_idrefs[k].0, ids.pending_idrefs[k].1, ids.pending_idrefs[k].2);
        if !crate::constraints::contains_string(&ids.seen_ids, r.as_str()) {
            let mut m = String::from_str("IDREF '");
            m.append(r.as_str());
            m.append("' does not match any ID in the document");
            let mut e = StructuredError::new(m, ValidationErrorType::IdentityConstraint);
            if let Some(x) = l {
                e = e.with_line(x);
            }
            if let Some(y) = c {
                e = e.with_column(y);
            }
            let ghost before = errors@;
            errors.push(e);
            proof {
                assert(errors_view(errors@) =~= errors_view(before).push(view_error(e)));
            }
        }
        k = k + 1;
    }
    proof {
        assert(pending_view(ids.pending_idrefs@).take(ids.pending_idrefs@.len() as int) =~= pending_view(
            ids.pending_idrefs@,
        ));
    }
    errors
}

} // verus!
