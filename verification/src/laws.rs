//! Properties that hold across the library's operations.
use vstd::prelude::*;

use crate::error::{level_is_error, ErrorLevel, StructuredError, ValidationErrorType};
use crate::facade::{engine_of, errors_in, run_entries, warnings_in, Validator};
use crate::attr_pass::{
    attr_complex, attr_entry, attr_errors, attr_run, attr_triples, id_entry, mark_filled, nil_attr, path_of, unresolved,
    xsi_errors,
};
use crate::aggregate::{aggregate_add, aggregated, first_same, lemma_first_same};
use crate::attributes::element_attrs;
use std::sync::Arc;
use crate::mode::ValidationMode;
use crate::numeric::{
    all_digits, class_accepts, double_special, is_digit_byte, is_exp_byte, is_sign_byte,
    is_trimmed_span, is_ws_byte, mantissa_lexical, integer_lexical, strip_sign, NumClass,
};
use crate::primitive::{kind_accepts, PrimitiveKind};
use crate::schema::ElementDef;
use crate::skeleton::{builds, DocumentSkeleton, ElementSkeleton};
use crate::xml::EventView;
use crate::validation::document_errors;
use crate::two_pass::{
    cap, max_errors, max_errors_seq, min_errors, min_errors_seq, sequence_errors,
    ErrorView, FlatView, TwoPassSchemaValidator,
};
use crate::validation::{
    children_errors, declared_errors, own_errors, skeleton_errors,
    table_for_children, text_errors, tree_errors,
};
use crate::xsi_type::xsi_outcome;
use crate::schema::CompiledSchema;
use crate::state::{counts_after, counts_of, same_but_counts, scopes_view, ElementContext, Namespace};
use crate::streaming::{
    ended, started, StreamingSchemaValidator,
    appended, collects, end_text_errors, min_occurs_errors, no_children, resolved, start_errors,
    table_of,
};
use crate::constraints::record_ids;
use crate::attributes::{add_new, attr_defs, collect_defs, has_name};
use crate::schema::AttributeDef;
use crate::text::{local_part, trim};

verus! {

/// The primitive kind a numeric family stands for.
pub open spec fn kind_of_class(c: NumClass) -> PrimitiveKind {
    match c {
        NumClass::Double => PrimitiveKind::Double,
        NumClass::Decimal => PrimitiveKind::Decimal,
        NumClass::Integer => PrimitiveKind::Integer,
    }
}

/// A mantissa holds no whitespace byte.
proof fn lemma_mantissa_no_ws(s: Seq<u8>)
    requires
        mantissa_lexical(s),
    ensures
        forall|k: int| 0 <= k < s.len() ==> !#[trigger] is_ws_byte(s[k]),
{
    if !(s.len() > 0 && all_digits(s)) {
        let d = choose|d: int|
            #![trigger s[d]]
            0 <= d < s.len() && s[d] == 46u8 && all_digits(s.subrange(0, d)) && all_digits(
                s.subrange(d + 1, s.len() as int),
            ) && (d >= 1 || s.len() - d - 1 >= 1);
        assert forall|k: int| 0 <= k < s.len() implies !#[trigger] is_ws_byte(s[k]) by {
            if k < d {
                assert(s.subrange(0, d)[k] == s[k]);
                assert(is_digit_byte(s.subrange(0, d)[k]));
            } else if k > d {
                assert(s.subrange(d + 1, s.len() as int)[k - d - 1] == s[k]);
                assert(is_digit_byte(s.subrange(d + 1, s.len() as int)[k - d - 1]));
            }
        }
    } else {
        assert forall|k: int| 0 <= k < s.len() implies !#[trigger] is_ws_byte(s[k]) by {
            assert(is_digit_byte(s[k]));
        }
    }
}

/// Dropping a leading sign keeps the other bytes.
proof fn lemma_sign_no_ws(s: Seq<u8>)
    requires
        forall|k: int| 0 <= k < strip_sign(s).len() ==> !#[trigger] is_ws_byte(strip_sign(s)[k]),
    ensures
        forall|k: int| 0 <= k < s.len() ==> !#[trigger] is_ws_byte(s[k]),
{
    if s.len() > 0 && is_sign_byte(s[0]) {
        assert forall|k: int| 0 <= k < s.len() implies !#[trigger] is_ws_byte(s[k]) by {
            if k > 0 {
                assert(strip_sign(s)[k - 1] == s[k]);
            }
        }
    } else {
        assert(strip_sign(s) == s);
        assert forall|k: int| 0 <= k < s.len() implies !#[trigger] is_ws_byte(s[k]) by {
            assert(strip_sign(s)[k] == s[k]);
        }
    }
}

/// The fast scanners reject every token that holds XML whitespace.
pub proof fn law_fast_token_rejects_whitespace(c: NumClass, tok: Seq<u8>, k: int)
    requires
        0 <= k < tok.len(),
        is_ws_byte(tok[k]),
    ensures
        !class_accepts(c, tok),
{
    if class_accepts(c, tok) {
        let r = strip_sign(tok);
        match c {
            NumClass::Integer => {
                assert forall|j: int| 0 <= j < r.len() implies !#[trigger] is_ws_byte(r[j]) by {
                    assert(is_digit_byte(r[j]));
                }
                lemma_sign_no_ws(tok);
            },
            NumClass::Decimal => {
                lemma_mantissa_no_ws(r);
                lemma_sign_no_ws(tok);
            },
            NumClass::Double => {
                if double_special(tok) {
                } else if mantissa_lexical(r) {
                    lemma_mantissa_no_ws(r);
                    lemma_sign_no_ws(tok);
                } else {
                    let p = choose|p: int|
                        #![trigger r[p]]
                        0 <= p < r.len() && is_exp_byte(r[p]) && mantissa_lexical(r.subrange(0, p))
                            && integer_lexical(r.subrange(p + 1, r.len() as int));
                    let a = r.subrange(0, p);
                    let b = r.subrange(p + 1, r.len() as int);
                    lemma_mantissa_no_ws(a);
                    assert forall|j: int| 0 <= j < strip_sign(b).len() implies !#[trigger] is_ws_byte(strip_sign(b)[j]) by {
                        assert(is_digit_byte(strip_sign(b)[j]));
                    }
                    lemma_sign_no_ws(b);
                    assert forall|j: int| 0 <= j < r.len() implies !#[trigger] is_ws_byte(r[j]) by {
                        if j < p {
                            assert(a[j] == r[j]);
                        } else if j > p {
                            assert(b[j - p - 1] == r[j]);
                        }
                    }
                    lemma_sign_no_ws(tok);
                }
            },
        }
        assert(!is_ws_byte(tok[k]));
    }
}

/// The per-token fast scanner agrees with the primitive kind's lexical
/// check on every whitespace-free token.
pub proof fn law_fast_token_matches_kind(c: NumClass, tok: Seq<u8>)
    requires
        forall|k: int| 0 <= k < tok.len() ==> !#[trigger] is_ws_byte(tok[k]),
    ensures
        class_accepts(c, tok) == kind_accepts(kind_of_class(c), tok),
{
    if tok.len() == 0 {
        assert(!class_accepts(c, tok));
    } else {
        assert(is_trimmed_span(tok, 0, tok.len() as int));
        assert(tok.subrange(0, tok.len() as int) =~= tok);
        assert forall|i: int, j: int| #[trigger] is_trimmed_span(tok, i, j) implies i == 0 && j
            == tok.len() by {
            if i > 0 {
                assert(is_ws_byte(tok[0]));
            }
            if j < tok.len() {
                assert(is_ws_byte(tok[tok.len() - 1]));
            }
        }
    }
}

/// Every entry is either an error or a warning: the two counts add up to
/// the number of entries.
pub proof fn law_entries_partition(s: Seq<StructuredError>)
    ensures
        errors_in(s).len() + warnings_in(s).len() == s.len(),
    decreases s.len(),
{
    if s.len() > 0 {
        law_entries_partition(s.drop_last());
        assert(level_is_error(s.last().level) || s.last().level == ErrorLevel::Warning);
    }
}

/// A report without entries has no errors.
pub proof fn law_clean_is_valid(s: Seq<StructuredError>)
    requires
        s.len() == 0,
    ensures
        errors_in(s).len() == 0,
{
}

/// The same validator with another error cap, as a value.
pub open spec fn with_cap(v: TwoPassSchemaValidator, m: usize) -> TwoPassSchemaValidator {
    TwoPassSchemaValidator { max_errors: m, ..v }
}

/// The full error list does not depend on the error cap.
proof fn lemma_tree_cap_free(
    v: TwoPassSchemaValidator,
    m: usize,
    nodes: Seq<ElementSkeleton>,
    i: int,
    parent: Option<FlatView>,
)
    ensures
        tree_errors(with_cap(v, m), nodes, i, parent) == tree_errors(v, nodes, i, parent),
    decreases nodes.len() - i, 1int, 0int,
{
    if 0 <= i < nodes.len() {
        assert(own_errors(with_cap(v, m), nodes, nodes[i], parent) == own_errors(
            v,
            nodes,
            nodes[i],
            parent,
        ));
        lemma_children_cap_free(
            v,
            m,
            nodes,
            i,
            table_for_children(v, nodes[i]),
            nodes[i].children_indices@.len() as int,
        );
    }
}

/// The children's error lists do not depend on the error cap.
proof fn lemma_children_cap_free(
    v: TwoPassSchemaValidator,
    m: usize,
    nodes: Seq<ElementSkeleton>,
    i: int,
    table: Option<FlatView>,
    k: int,
)
    ensures
        children_errors(with_cap(v, m), nodes, i, table, k) == children_errors(
            v,
            nodes,
            i,
            table,
            k,
        ),
    decreases nodes.len() - i, 0int, k,
{
    if 0 <= i < nodes.len() && 0 < k <= nodes[i].children_indices@.len() {
        let c = nodes[i].children_indices@[k - 1] as int;
        lemma_children_cap_free(v, m, nodes, i, table, k - 1);
        if i < c < nodes.len() {
            lemma_tree_cap_free(v, m, nodes, c, table);
        }
    }
}

/// A run capped at `m` errors reports exactly the first `m` errors of the
/// uncapped run (all of them when there are fewer, or when `m` is 0).
pub proof fn law_cap_is_prefix(v: TwoPassSchemaValidator, s: DocumentSkeleton, m: usize)
    ensures
        cap(skeleton_errors(with_cap(v, m), s), m) == if m == 0 || skeleton_errors(v, s).len()
            <= m {
            skeleton_errors(v, s)
        } else {
            skeleton_errors(v, s).take(m as int)
        },
        m > 0 ==> cap(skeleton_errors(with_cap(v, m), s), m).len() <= m,
{
    if let Some(r) = s.root_index {
        lemma_tree_cap_free(v, m, s.nodes@, r as int, None);
    }
}

/// With a schema that declares no elements, no document has errors.
proof fn lemma_tree_empty_schema(
    v: TwoPassSchemaValidator,
    nodes: Seq<ElementSkeleton>,
    i: int,
    parent: Option<FlatView>,
)
    requires
        v.sch().elements.entries@.len() == 0,
    ensures
        tree_errors(v, nodes, i, parent) == Seq::<ErrorView>::empty(),
    decreases nodes.len() - i, 1int, 0int,
{
    if 0 <= i < nodes.len() {
        assert(!(exists|j: int| crate::namemap::last_key_at(v.sch().elements.entries@, nodes[i].name@, j)));
        lemma_children_empty_schema(
            v,
            nodes,
            i,
            table_for_children(v, nodes[i]),
            nodes[i].children_indices@.len() as int,
        );
        assert(own_errors(v, nodes, nodes[i], parent) =~= Seq::<ErrorView>::empty());
        assert(tree_errors(v, nodes, i, parent) =~= Seq::<ErrorView>::empty());
    }
}

/// With a schema that declares no elements, no subtree has errors.
proof fn lemma_children_empty_schema(
    v: TwoPassSchemaValidator,
    nodes: Seq<ElementSkeleton>,
    i: int,
    table: Option<FlatView>,
    k: int,
)
    requires
        v.sch().elements.entries@.len() == 0,
    ensures
        children_errors(v, nodes, i, table, k) == Seq::<ErrorView>::empty(),
    decreases nodes.len() - i, 0int, k,
{
    if 0 <= i < nodes.len() && 0 < k <= nodes[i].children_indices@.len() {
        let c = nodes[i].children_indices@[k - 1] as int;
        lemma_children_empty_schema(v, nodes, i, table, k - 1);
        if i < c < nodes.len() {
            lemma_tree_empty_schema(v, nodes, c, table);
        }
        assert(children_errors(v, nodes, i, table, k) =~= Seq::<ErrorView>::empty());
    }
}

/// A schema that declares no elements reports no errors for any document.
pub proof fn law_empty_schema_no_errors(v: TwoPassSchemaValidator, s: DocumentSkeleton)
    requires
        v.sch().elements.entries@.len() == 0,
    ensures
        skeleton_errors(v, s) == Seq::<ErrorView>::empty(),
{
    if let Some(r) = s.root_index {
        lemma_tree_empty_schema(v, s.nodes@, r as int, None);
    }
}

/// No entry reports an undeclared element.
pub open spec fn no_unknown(s: Seq<ErrorView>) -> bool {
    forall|k: int| 0 <= k < s.len() ==> (#[trigger] s[k]).error_type != ValidationErrorType::UnknownElement
}

proof fn lemma_no_unknown_concat(a: Seq<ErrorView>, b: Seq<ErrorView>)
    requires
        no_unknown(a),
        no_unknown(b),
    ensures
        no_unknown(a + b),
{
    assert forall|k: int| 0 <= k < (a + b).len() implies (#[trigger] (a + b)[k]).error_type
        != ValidationErrorType::UnknownElement by {
        if k < a.len() {
            assert((a + b)[k] == a[k]);
        } else {
            assert((a + b)[k] == b[k - a.len()]);
        }
    }
}

proof fn lemma_min_seq_no_unknown(
    v: TwoPassSchemaValidator,
    node: ElementSkeleton,
    c: Seq<(String, (u32, Option<u32>))>,
)
    ensures
        no_unknown(min_errors_seq(v.sch(), v.options, node, c)),
    decreases c.len(),
{
    if c.len() > 0 {
        lemma_min_seq_no_unknown(v, node, c.drop_last());
    }
}

proof fn lemma_max_seq_no_unknown(
    v: TwoPassSchemaValidator,
    node: ElementSkeleton,
    c: Seq<(String, (u32, Option<u32>))>,
)
    ensures
        no_unknown(max_errors_seq(v.sch(), v.options, node, c)),
    decreases c.len(),
{
    if c.len() > 0 {
        lemma_max_seq_no_unknown(v, node, c.drop_last());
    }
}

/// The checks of a declared element never report an undeclared element.
proof fn lemma_declared_no_unknown(
    v: TwoPassSchemaValidator,
    nodes: Seq<ElementSkeleton>,
    node: ElementSkeleton,
    elem: ElementDef,
)
    ensures
        no_unknown(declared_errors(v, nodes, node, elem)),
{
    let schema = v.sch();
    let t = text_errors(schema, node, elem);
    match crate::validation::flattened_for(schema, elem) {
        Some(f) => {
            lemma_min_seq_no_unknown(v, node, f.entries);
            lemma_max_seq_no_unknown(v, node, f.entries);
            let m = min_errors(schema, v.options, node, f);
            let x = max_errors(schema, v.options, node, f);
            let q = sequence_errors(nodes, node, f);
            assert(no_unknown(m));
            assert(no_unknown(x));
            assert(no_unknown(q));
            lemma_no_unknown_concat(m, x);
            lemma_no_unknown_concat(m + x, q);
            assert(no_unknown(t));
            lemma_no_unknown_concat(m + x + q, t);
        },
        None => {
            assert(no_unknown(t));
            lemma_no_unknown_concat(Seq::empty(), t);
        },
    }
}

proof fn lemma_tree_lenient(
    v: TwoPassSchemaValidator,
    nodes: Seq<ElementSkeleton>,
    i: int,
    parent: Option<FlatView>,
)
    requires
        v.mode == ValidationMode::Lenient,
    ensures
        no_unknown(tree_errors(v, nodes, i, parent)),
    decreases nodes.len() - i, 1int, 0int,
{
    if 0 <= i < nodes.len() {
        let node = nodes[i];
        match crate::validation::lookup_elem(v.sch(), node.name@, crate::two_pass::ostr(node.prefix)) {
            Some(elem) => {
                lemma_declared_no_unknown(v, nodes, node, elem);
            },
            None => {},
        }
        lemma_children_lenient(
            v,
            nodes,
            i,
            table_for_children(v, node),
            node.children_indices@.len() as int,
        );
        lemma_no_unknown_concat(
            own_errors(v, nodes, node, parent),
            children_errors(
                v,
                nodes,
                i,
                table_for_children(v, node),
                node.children_indices@.len() as int,
            ),
        );
    }
}

proof fn lemma_children_lenient(
    v: TwoPassSchemaValidator,
    nodes: Seq<ElementSkeleton>,
    i: int,
    table: Option<FlatView>,
    k: int,
)
    requires
        v.mode == ValidationMode::Lenient,
    ensures
        no_unknown(children_errors(v, nodes, i, table, k)),
    decreases nodes.len() - i, 0int, k,
{
    if 0 <= i < nodes.len() && 0 < k <= nodes[i].children_indices@.len() {
        let c = nodes[i].children_indices@[k - 1] as int;
        lemma_children_lenient(v, nodes, i, table, k - 1);
        if i < c < nodes.len() {
            lemma_tree_lenient(v, nodes, c, table);
            lemma_no_unknown_concat(
                children_errors(v, nodes, i, table, k - 1),
                tree_errors(v, nodes, c, table),
            );
        } else {
            lemma_no_unknown_concat(children_errors(v, nodes, i, table, k - 1), Seq::empty());
        }
    }
}

/// Lenient mode never reports an element as undeclared.
pub proof fn law_lenient_reports_no_unknown_elements(v: TwoPassSchemaValidator, s: DocumentSkeleton)
    requires
        v.mode == ValidationMode::Lenient,
    ensures
        no_unknown(skeleton_errors(v, s)),
{
    if let Some(r) = s.root_index {
        lemma_tree_lenient(v, s.nodes@, r as int, None);
    }
}

/// Every type derives from `xs:anyType` (and every simple type from
/// `xs:anySimpleType`): a defined `xsi:type` is always accepted for them.
pub proof fn law_any_type_accepts_defined_types(
    schema: crate::schema::CompiledSchema,
    declared: Seq<char>,
    raw: Seq<char>,
    uri: Option<Seq<char>>,
)
    requires
        local_part(declared) == "anyType"@ || local_part(declared) == "anySimpleType"@,
        schema.types.lookup(trim(raw)) is Some,
    ensures
        xsi_outcome(schema, Some(declared), raw, uri) == Ok::<Seq<char>, Seq<char>>(trim(raw)),
{
}

/// A defined `xsi:type` naming the declared type itself is accepted.
pub proof fn law_same_type_accepted(
    schema: crate::schema::CompiledSchema,
    declared: Seq<char>,
    raw: Seq<char>,
    uri: Option<Seq<char>>,
)
    requires
        schema.types.lookup(trim(raw)) is Some,
        local_part(trim(raw)) == local_part(declared),
    ensures
        xsi_outcome(schema, Some(declared), raw, uri) == Ok::<Seq<char>, Seq<char>>(trim(raw)),
{
}


/// Recording IDs keeps each ID once: every recorded ID is seen afterwards,
/// the seen IDs stay free of repeats, and each recorded ID either is new or
/// yields one duplicate error.
pub proof fn law_record_ids(seen: Seq<Seq<char>>, ids: Seq<Seq<char>>)
    requires
        seen.no_duplicates(),
    ensures
        record_ids(seen, ids).1.no_duplicates(),
        forall|k: int| 0 <= k < ids.len() ==> record_ids(seen, ids).1.contains(#[trigger] ids[k]),
        forall|x: Seq<char>| seen.contains(x) ==> #[trigger] record_ids(seen, ids).1.contains(x),
        record_ids(seen, ids).0.len() + record_ids(seen, ids).1.len() == seen.len() + ids.len(),
    decreases ids.len(),
{
    if ids.len() > 0 {
        let d = ids.drop_last();
        law_record_ids(seen, d);
        let s = record_ids(seen, d).1;
        let id = ids.last();
        if !s.contains(id) {
            assert forall|x: Seq<char>| s.contains(x) implies #[trigger] s.push(id).contains(x) by {
                let w = choose|w: int| 0 <= w < s.len() && s[w] == x;
                assert(s.push(id)[w] == x);
            }
            assert(s.push(id)[s.len() as int] == id);
            assert forall|i: int, j: int|
                0 <= i < s.push(id).len() && 0 <= j < s.push(id).len() && i != j implies s.push(
                id,
            )[i] != s.push(id)[j] by {
                if i < s.len() && j < s.len() {
                } else if i == s.len() {
                    assert(s[j] != id);
                } else {
                    assert(s[i] != id);
                }
            }
        }
        assert forall|k: int| 0 <= k < ids.len() implies record_ids(seen, ids).1.contains(
            #[trigger] ids[k],
        ) by {
            if k < d.len() {
                assert(d[k] == ids[k]);
                assert(s.contains(d[k]));
            }
        }
    }
}


/// No two declarations share a name.
pub open spec fn names_distinct(s: Seq<AttributeDef>) -> bool {
    forall|i: int, j: int| 0 <= i < j < s.len() ==> #[trigger] s[i].name@ != #[trigger] s[j].name@
}

proof fn lemma_add_new_distinct(out: Seq<AttributeDef>, attrs: Seq<AttributeDef>)
    requires
        names_distinct(out),
    ensures
        names_distinct(add_new(out, attrs)),
    decreases attrs.len(),
{
    if attrs.len() > 0 {
        lemma_add_new_distinct(out, attrs.drop_last());
        let o = add_new(out, attrs.drop_last());
        let a = attrs.last();
        if !has_name(o, a.name@) {
            assert forall|i: int, j: int| 0 <= i < j < o.push(a).len() implies #[trigger] o.push(
                a,
            )[i].name@ != #[trigger] o.push(a)[j].name@ by {
                if j == o.len() {
                    assert(o[i].name@ != a.name@);
                } else {
                    assert(o.push(a)[i] == o[i] && o.push(a)[j] == o[j]);
                }
            }
        }
    }
}

proof fn lemma_collect_defs_distinct(
    schema: crate::schema::CompiledSchema,
    c: crate::schema::ComplexType,
    out: Seq<AttributeDef>,
    fuel: nat,
)
    requires
        names_distinct(out),
    ensures
        names_distinct(collect_defs(schema, c, out, fuel)),
    decreases fuel,
{
    if fuel > 0 {
        lemma_add_new_distinct(out, c.attributes@);
        let o = add_new(out, c.attributes@);
        match crate::attributes::attr_base(c) {
            Some(b) => match schema.types.lookup(b@) {
                Some(crate::schema::TypeDef::Complex(bc)) => {
                    lemma_collect_defs_distinct(schema, bc, o, (fuel - 1) as nat);
                },
                _ => {},
            },
            None => {},
        }
    }
}

/// A derived type's attribute declaration shadows a base declaration of the
/// same name: the collected declarations have distinct names.
pub proof fn law_attribute_declarations_distinct(
    schema: crate::schema::CompiledSchema,
    c: crate::schema::ComplexType,
)
    ensures
        names_distinct(attr_defs(schema, c)),
{
    lemma_collect_defs_distinct(schema, c, Seq::empty(), 16);
}

/// In lenient mode the streaming validator never reports an element as
/// undeclared: no entry a start tag adds is an unknown-element entry.
pub proof fn law_streaming_lenient_no_unknown(
    schema: CompiledSchema,
    line: Option<usize>,
    stack: Seq<ElementContext>,
    name: Seq<char>,
    qname: Seq<char>,
)
    ensures
        forall|k: int|
            0 <= k < start_errors(schema, ValidationMode::Lenient, line, stack, name, qname).len()
                ==> (#[trigger] start_errors(schema, ValidationMode::Lenient, line, stack, name, qname)[k]).error_type
                != ValidationErrorType::UnknownElement,
{
}

/// Adding entries under a limit keeps the earlier entries in front; with
/// no limit every entry is kept, and under a limit the collected entries
/// never grow past it.
pub proof fn law_streaming_limit(s: Seq<ErrorView>, new: Seq<ErrorView>, max: usize)
    ensures
        appended(s, new, max).len() >= s.len(),
        appended(s, new, max).take(s.len() as int) == s,
        max == 0 ==> appended(s, new, max) == s + new,
        max > 0 && s.len() <= max ==> appended(s, new, max).len() <= max,
    decreases new.len(),
{
    if new.len() == 0 {
        assert(s.take(s.len() as int) =~= s);
        assert(s + new =~= s);
    } else {
        law_streaming_limit(s, new.drop_last(), max);
        let a = appended(s, new.drop_last(), max);
        if collects(a.len(), max) {
            assert(a.push(new.last()).take(s.len() as int) =~= a.take(s.len() as int));
        }
        if max == 0 {
            assert(s + new =~= (s + new.drop_last()).push(new.last()));
        }
    }
}

/// With a schema that declares no elements, a start tag gets no entry as
/// long as no open element carries a child table (which is how that schema
/// leaves every element).
pub proof fn law_streaming_empty_schema_start(
    schema: CompiledSchema,
    mode: ValidationMode,
    line: Option<usize>,
    stack: Seq<ElementContext>,
    name: Seq<char>,
    qname: Seq<char>,
)
    requires
        schema.elements.entries@.len() == 0,
        forall|i: int| 0 <= i < stack.len() ==> (#[trigger] stack[i]).flattened_children is None,
    ensures
        start_errors(schema, mode, line, stack, name, qname).len() == 0,
        resolved(schema, stack, name, qname) is None,
{
    assert(schema.elements.lookup(qname) is None);
    assert(schema.elements.lookup(name) is None);
    if stack.len() >= 2 {
        assert(stack[stack.len() - 2].flattened_children is None);
    }
}

/// With a schema that declares no elements, closing an element that was
/// given no type and no child table adds no entry.
pub proof fn law_streaming_empty_schema_end(
    schema: CompiledSchema,
    line: Option<usize>,
    stack: Seq<ElementContext>,
    ctx: ElementContext,
)
    requires
        schema.elements.entries@.len() == 0,
        ctx.type_ref is None,
        ctx.flattened_children is None,
    ensures
        end_text_errors(schema, line, stack, ctx).len() == 0,
        min_occurs_errors(schema, line, stack, ctx).len() == 0,
{
    assert(schema.elements.lookup(ctx.name@) is None);
    if stack.len() >= 2 {
        assert(schema.elements.lookup(stack[stack.len() - 2].name@) is None);
    }
    assert(table_of(ctx) == no_children());
}

/// A document's errors depend on its events alone: any two skeletons built
/// from the same events give the same errors.
pub proof fn law_same_events_same_errors(
    v: TwoPassSchemaValidator,
    s1: DocumentSkeleton,
    s2: DocumentSkeleton,
    es: Seq<EventView>,
)
    requires
        builds(s1, es),
        builds(s2, es),
    ensures
        skeleton_errors(v, s1) == skeleton_errors(v, s2),
        skeleton_errors(v, s1) == document_errors(v, es),
{
    crate::agreement::lemma_builds_same_errors(v, s1, s2, es);
    crate::agreement::lemma_builds_same_errors(v, s1, choose|s: DocumentSkeleton| builds(s, es), es);
}

/// A start tag followed by its end tag leaves the streaming validator's
/// open elements, depth and namespace scopes as they were, except that the
/// parent (when there is one) has counted one more child of that name.
pub proof fn law_streaming_open_close(
    v0: StreamingSchemaValidator,
    v1: StreamingSchemaValidator,
    v2: StreamingSchemaValidator,
    name: Seq<char>,
    prefix: Option<Seq<char>>,
    namespace: Option<Seq<char>>,
    decls: Seq<Namespace>,
    line: Option<usize>,
)
    requires
        v0.state.namespace_stack@.len() >= 1,
        started(v0, v1, name, prefix, namespace, decls, line),
        ended(v1, v2),
    ensures
        ({
            let s0 = v0.state.element_stack@;
            let s2 = v2.state.element_stack@;
            let n = s0.len();
            &&& s2.len() == n
            &&& forall|i: int| 0 <= i < n - 1 ==> #[trigger] s2[i] == s0[i]
            &&& n > 0 ==> same_but_counts(s2[n - 1], s0[n - 1])
            &&& n > 0 ==> counts_of(s2[n - 1].child_counts) == counts_after(counts_of(s0[n - 1].child_counts), name)
        }),
        v2.state.depth == v0.state.depth,
        scopes_view(v2.state.namespace_stack@) == scopes_view(v0.state.namespace_stack@),
{
    let s0 = v0.state.element_stack@;
    let s1 = v1.state.element_stack@;
    let s2 = v2.state.element_stack@;
    assert(s2 == s1.drop_last());
    assert forall|i: int| 0 <= i < s0.len() - 1 implies #[trigger] s2[i] == s0[i] by {
        assert(s2[i] == s1[i]);
    }
    if s0.len() > 0 {
        assert(s2[s0.len() - 1] == s1[s0.len() - 1]);
    }
    assert(scopes_view(v1.state.namespace_stack@).len() == v1.state.namespace_stack@.len());
    assert(scopes_view(v2.state.namespace_stack@) =~= scopes_view(v1.state.namespace_stack@).drop_last());
}

/// The front door's default mode is strict: a validator as `from_reader`
/// makes it is unchanged by `.mode(ValidationMode::Strict)`, so both run the
/// same engine on the same document and give the same entries.
pub proof fn law_default_mode_is_strict(v: Validator, s: Arc<CompiledSchema>, es: Seq<EventView>)
    requires
        v.mode == ValidationMode::Strict,
    ensures
        (Validator { mode: ValidationMode::Strict, ..v }) == v,
        document_errors(engine_of(s, v.mode, v.max_errors), es) == document_errors(
            engine_of(s, ValidationMode::Strict, v.max_errors),
            es,
        ),
{
}

/// The attribute and ID pass never reports an element as undeclared.
proof fn lemma_attr_run_no_unknown(schema: CompiledSchema, es: Seq<EventView>)
    ensures
        no_unknown(attr_run(schema, es).errors),
    decreases es.len(),
{
    if es.len() > 0 {
        lemma_attr_run_no_unknown(schema, es.drop_last());
        let p = attr_run(schema, es.drop_last());
        match es.last() {
            EventView::Start { name, prefix, attributes, namespace_decls, line, column, .. } => {
                let scopes = p.scopes.push(namespace_decls);
                let open = mark_filled(p.open).push((crate::streaming::qualified(name, prefix), nil_attr(attributes), false));
                let path = path_of(open);
                let w = xsi_errors(schema, name, prefix, scopes, attributes, line, column, path);
                assert(no_unknown(w));
                lemma_no_unknown_concat(p.errors, w);
                match attr_complex(schema, name, prefix, scopes, attributes) {
                    Some(c) => {
                        let o = element_attrs(schema, c, attr_triples(scopes, attributes));
                        let (dups, seen) = record_ids(p.seen, o.ids);
                        let x = o.errors.map_values(|m: Seq<char>| attr_entry(name, line, column, path, m));
                        let y = dups.map_values(|m: Seq<char>| id_entry(line, column, Some(path), m));
                        assert(no_unknown(x));
                        assert(no_unknown(y));
                        lemma_no_unknown_concat(p.errors + w, x);
                        lemma_no_unknown_concat(p.errors + w + x, y);
                    },
                    None => {},
                }
            },
            _ => {},
        }
    }
}

/// Unresolved IDREFs are identity errors.
proof fn lemma_unresolved_no_unknown(
    seen: Seq<Seq<char>>,
    pending: Seq<(Seq<char>, Option<usize>, Option<usize>)>,
)
    ensures
        no_unknown(unresolved(seen, pending)),
    decreases pending.len(),
{
    if pending.len() > 0 {
        lemma_unresolved_no_unknown(seen, pending.drop_last());
        let (r, l, c) = pending.last();
        let t = if seen.contains(r) {
            Seq::<ErrorView>::empty()
        } else {
            seq![id_entry(l, c, None, "IDREF '"@ + r + "' does not match any ID in the document"@)]
        };
        assert(no_unknown(t));
        lemma_no_unknown_concat(unresolved(seen, pending.drop_last()), t);
    }
}

/// Collapsing keeps only entries of the kinds it was given.
proof fn lemma_aggregated_no_unknown(s: Seq<ErrorView>, new: Seq<ErrorView>, max: usize)
    requires
        no_unknown(s),
        no_unknown(new),
    ensures
        no_unknown(aggregated(s, new, max)),
    decreases new.len(),
{
    if new.len() > 0 {
        let d = new.drop_last();
        assert forall|k: int| 0 <= k < d.len() implies (#[trigger] d[k]).error_type
            != ValidationErrorType::UnknownElement by {
            assert(d[k] == new[k]);
        }
        lemma_aggregated_no_unknown(s, d, max);
        let a = aggregated(s, d, max);
        let e = new.last();
        assert(e == new[new.len() - 1]);
        let r = aggregate_add(a, e, max);
        lemma_first_same(a, e);
        assert forall|k: int| 0 <= k < r.len() implies (#[trigger] r[k]).error_type
            != ValidationErrorType::UnknownElement by {
            match first_same(a, e) {
                Some(i) => {
                    if k != i {
                        assert(r[k] == a[k]);
                    } else {
                        assert(a[i].error_type != ValidationErrorType::UnknownElement);
                    }
                },
                None => {
                    if k < a.len() {
                        assert(r[k] == a[k]);
                    }
                },
            }
        }
    }
}

/// A lenient run of the front door never reports an element as
/// undeclared, with or without collapsing and under any cap.
pub proof fn law_lenient_run_no_unknown(
    s: Arc<CompiledSchema>,
    max: Option<usize>,
    aggregate: bool,
    es: Seq<EventView>,
)
    ensures
        no_unknown(run_entries(s, ValidationMode::Lenient, max, aggregate, es)),
{
    let v = engine_of(s, ValidationMode::Lenient, None);
    law_lenient_reports_no_unknown_elements(v, choose|sk: DocumentSkeleton| builds(sk, es));
    let d = document_errors(v, es);
    lemma_attr_run_no_unknown(v.sch(), es);
    let p = attr_run(v.sch(), es);
    lemma_unresolved_no_unknown(p.seen, p.pending);
    lemma_no_unknown_concat(p.errors, unresolved(p.seen, p.pending));
    lemma_no_unknown_concat(d, attr_errors(v.sch(), es));
    let all = d + attr_errors(v.sch(), es);
    let m = engine_of(s, ValidationMode::Lenient, max).max_errors;
    if aggregate {
        lemma_aggregated_no_unknown(Seq::empty(), all, m);
    } else {
        let c = cap(all, m);
        assert forall|k: int| 0 <= k < c.len() implies (#[trigger] c[k]).error_type
            != ValidationErrorType::UnknownElement by {
            assert(c[k] == all[k]);
        }
    }
}

/// `Validator::from(text)` and `Validator::from_reader(text)` build the
/// same validator (strict, no schema, no cap, no collapsing), so every run
/// built on them gives the same result.
pub proof fn law_from_is_from_reader<'a>(source: &'a str, v: Validator<'a>)
    requires
        v.source == source,
        v.schema is None,
        v.mode == ValidationMode::Strict,
        v.max_errors is None,
        !v.aggregate,
    ensures
        v == <Validator<'a> as vstd::std_specs::convert::FromSpec<&'a str>>::from_spec(source),
{
}

} // verus!
