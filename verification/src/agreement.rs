//! Two skeletons built from the same events give the same errors: the checks
//! read a node only through its view and its child counts.
use vstd::prelude::*;

use crate::schema::CompiledSchema;
use crate::skeleton::{builds, DocumentSkeleton, count_of, lemma_count_named_view, node_view, nodes_view, ElementSkeleton};
use crate::two_pass::{
    max_errors_seq, min_errors_seq, none_present, order_violation, sum_counts, total_count,
    FlatView, TwoPassSchemaValidator, ValidationOptions,
};
use crate::validation::{children_errors, skeleton_errors, table_for_children, tree_errors};
use crate::xml::EventView;

verus! {

/// Two nodes that agree on everything the checks read: the view and the
/// child counts.
pub open spec fn alike(a: ElementSkeleton, b: ElementSkeleton) -> bool {
    &&& node_view(a) == node_view(b)
    &&& forall|k: Seq<char>| #[trigger] count_of(a.child_counts, k) == count_of(b.child_counts, k)
}

/// Two node lists that agree node by node.
pub open spec fn all_alike(n1: Seq<ElementSkeleton>, n2: Seq<ElementSkeleton>) -> bool {
    &&& n1.len() == n2.len()
    &&& forall|i: int| 0 <= i < n1.len() ==> alike(#[trigger] n1[i], n2[i])
}

/// Alike nodes have the same name, prefix, position, children and text.
proof fn lemma_alike_fields(a: ElementSkeleton, b: ElementSkeleton)
    requires
        alike(a, b),
    ensures
        a.name@ == b.name@,
        a.line == b.line,
        a.column == b.column,
        a.children_indices@ == b.children_indices@,
        a.text_content@ == b.text_content@,
        crate::two_pass::ostr(a.prefix) == crate::two_pass::ostr(b.prefix),
        a.prefix is Some <==> b.prefix is Some,
        a.prefix is Some ==> a.prefix->0@ == b.prefix->0@,
{
    assert(node_view(a).name == node_view(b).name);
    assert(node_view(a).prefix == node_view(b).prefix);
    assert(node_view(a).children == node_view(b).children);
    assert(node_view(a).text == node_view(b).text);
}

proof fn lemma_sum_counts_alike(a: ElementSkeleton, b: ElementSkeleton, names: Seq<String>)
    requires
        alike(a, b),
    ensures
        sum_counts(a, names) == sum_counts(b, names),
    decreases names.len(),
{
    if names.len() > 0 {
        lemma_sum_counts_alike(a, b, names.drop_last());
        assert(count_of(a.child_counts, names.last()@) == count_of(b.child_counts, names.last()@));
    }
}

proof fn lemma_total_alike(
    schema: CompiledSchema,
    options: ValidationOptions,
    a: ElementSkeleton,
    b: ElementSkeleton,
)
    requires
        alike(a, b),
    ensures
        forall|c: Seq<char>| #[trigger] total_count(schema, options, a, c) == total_count(schema, options, b, c),
{
    assert forall|c: Seq<char>| #[trigger] total_count(schema, options, a, c) == total_count(schema, options, b, c) by {
        lemma_sum_counts_alike(a, b, crate::two_pass::members_of(schema, c));
        assert(count_of(a.child_counts, c) == count_of(b.child_counts, c));
        assert(count_of(a.child_counts, crate::text::after_first_colon(c)) == count_of(
            b.child_counts,
            crate::text::after_first_colon(c),
        ));
    }
}

proof fn lemma_min_seq_alike(
    schema: CompiledSchema,
    options: ValidationOptions,
    a: ElementSkeleton,
    b: ElementSkeleton,
    c: Seq<(String, (u32, Option<u32>))>,
)
    requires
        alike(a, b),
    ensures
        min_errors_seq(schema, options, a, c) == min_errors_seq(schema, options, b, c),
    decreases c.len(),
{
    lemma_alike_fields(a, b);
    lemma_total_alike(schema, options, a, b);
    if c.len() > 0 {
        lemma_min_seq_alike(schema, options, a, b, c.drop_last());
        assert(total_count(schema, options, a, c.last().0@) == total_count(schema, options, b, c.last().0@));
    }
}

proof fn lemma_max_seq_alike(
    schema: CompiledSchema,
    options: ValidationOptions,
    a: ElementSkeleton,
    b: ElementSkeleton,
    c: Seq<(String, (u32, Option<u32>))>,
)
    requires
        alike(a, b),
    ensures
        max_errors_seq(schema, options, a, c) == max_errors_seq(schema, options, b, c),
    decreases c.len(),
{
    lemma_alike_fields(a, b);
    lemma_total_alike(schema, options, a, b);
    if c.len() > 0 {
        lemma_max_seq_alike(schema, options, a, b, c.drop_last());
        assert(total_count(schema, options, a, c.last().0@) == total_count(schema, options, b, c.last().0@));
    }
}

proof fn lemma_order_alike(
    n1: Seq<ElementSkeleton>,
    n2: Seq<ElementSkeleton>,
    idxs: Seq<usize>,
    k: int,
    ordered: Seq<String>,
    e: int,
)
    requires
        all_alike(n1, n2),
    ensures
        order_violation(n1, idxs, k, ordered, e) == order_violation(n2, idxs, k, ordered, e),
    decreases idxs.len() - k,
{
    if 0 <= k < idxs.len() {
        if idxs[k] < n1.len() {
            let j = idxs[k] as int;
            assert(alike(n1[j], n2[j]));
            lemma_alike_fields(n1[j], n2[j]);
            let a = n1[j].name@;
            match crate::two_pass::first_from(ordered, a, e) {
                Some(p) => lemma_order_alike(n1, n2, idxs, k + 1, ordered, p),
                None => lemma_order_alike(n1, n2, idxs, k + 1, ordered, e),
            }
        } else {
            lemma_order_alike(n1, n2, idxs, k + 1, ordered, e);
        }
    }
}

proof fn lemma_own_alike(
    v: TwoPassSchemaValidator,
    n1: Seq<ElementSkeleton>,
    n2: Seq<ElementSkeleton>,
    a: ElementSkeleton,
    b: ElementSkeleton,
    parent: Option<FlatView>,
)
    requires
        all_alike(n1, n2),
        alike(a, b),
    ensures
        crate::validation::own_errors(v, n1, a, parent) == crate::validation::own_errors(v, n2, b, parent),
        table_for_children(v, a) == table_for_children(v, b),
{
    lemma_alike_fields(a, b);
    let schema = v.sch();
    lemma_total_alike(schema, v.options, a, b);
    assert(crate::validation::written_name(a) == crate::validation::written_name(b));
    match crate::validation::lookup_elem(schema, a.name@, crate::two_pass::ostr(a.prefix)) {
        Some(elem) => {
            match crate::validation::flattened_for(schema, elem) {
                Some(f) => {
                    lemma_min_seq_alike(schema, v.options, a, b, f.entries);
                    lemma_max_seq_alike(schema, v.options, a, b, f.entries);
                    lemma_order_alike(n1, n2, a.children_indices@, 0, f.ordered, 0);
                    assert(none_present(schema, v.options, a, f.entries) == none_present(
                        schema,
                        v.options,
                        b,
                        f.entries,
                    ));
                },
                None => {},
            }
        },
        None => {},
    }
}

proof fn lemma_tree_alike(
    v: TwoPassSchemaValidator,
    n1: Seq<ElementSkeleton>,
    n2: Seq<ElementSkeleton>,
    i: int,
    parent: Option<FlatView>,
)
    requires
        all_alike(n1, n2),
    ensures
        tree_errors(v, n1, i, parent) == tree_errors(v, n2, i, parent),
    decreases n1.len() - i, 1int, 0int,
{
    if 0 <= i < n1.len() {
        assert(alike(n1[i], n2[i]));
        lemma_alike_fields(n1[i], n2[i]);
        lemma_own_alike(v, n1, n2, n1[i], n2[i], parent);
        lemma_children_alike(
            v,
            n1,
            n2,
            i,
            table_for_children(v, n1[i]),
            n1[i].children_indices@.len() as int,
        );
    }
}

proof fn lemma_children_alike(
    v: TwoPassSchemaValidator,
    n1: Seq<ElementSkeleton>,
    n2: Seq<ElementSkeleton>,
    i: int,
    table: Option<FlatView>,
    k: int,
)
    requires
        all_alike(n1, n2),
    ensures
        children_errors(v, n1, i, table, k) == children_errors(v, n2, i, table, k),
    decreases n1.len() - i, 0int, k,
{
    if 0 <= i < n1.len() {
        assert(alike(n1[i], n2[i]));
        lemma_alike_fields(n1[i], n2[i]);
        if 0 < k <= n1[i].children_indices@.len() {
            lemma_children_alike(v, n1, n2, i, table, k - 1);
            let c = n1[i].children_indices@[k - 1] as int;
            if i < c < n1.len() {
                lemma_tree_alike(v, n1, n2, c, table);
            }
        }
    }
}

/// Node lists with equal views whose child counts agree with their listed
/// children are alike node by node.
pub proof fn lemma_consistent_alike(
    n1: Seq<ElementSkeleton>,
    n2: Seq<ElementSkeleton>,
)
    requires
        nodes_view(n1) == nodes_view(n2),
        forall|i: int, name: Seq<char>|
            0 <= i < n1.len() ==> #[trigger] count_of(n1[i].child_counts, name)
                == crate::skeleton::count_named(n1, n1[i].children_indices@, name),
        forall|i: int, name: Seq<char>|
            0 <= i < n2.len() ==> #[trigger] count_of(n2[i].child_counts, name)
                == crate::skeleton::count_named(n2, n2[i].children_indices@, name),
    ensures
        all_alike(n1, n2),
{
    assert(n1.len() == nodes_view(n1).len());
    assert(n2.len() == nodes_view(n2).len());
    assert forall|i: int| 0 <= i < n1.len() implies alike(#[trigger] n1[i], n2[i]) by {
        assert(nodes_view(n1)[i] == node_view(n1[i]));
        assert(nodes_view(n2)[i] == node_view(n2[i]));
        assert forall|k: Seq<char>| #[trigger] count_of(n1[i].child_counts, k) == count_of(
            n2[i].child_counts,
            k,
        ) by {
            lemma_count_named_view(n1, n1[i].children_indices@, k);
            lemma_count_named_view(n2, n2[i].children_indices@, k);
            assert(node_view(n1[i]).children == node_view(n2[i]).children);
        }
    }
}

/// Alike node lists give the same errors from every node.
pub proof fn lemma_all_alike_errors(
    v: TwoPassSchemaValidator,
    n1: Seq<ElementSkeleton>,
    n2: Seq<ElementSkeleton>,
    i: int,
)
    requires
        all_alike(n1, n2),
    ensures
        tree_errors(v, n1, i, None) == tree_errors(v, n2, i, None),
{
    lemma_tree_alike(v, n1, n2, i, None);
}

/// Skeletons built from the same events give the same errors.
pub proof fn lemma_builds_same_errors(
    v: TwoPassSchemaValidator,
    s1: DocumentSkeleton,
    s2: DocumentSkeleton,
    es: Seq<EventView>,
)
    requires
        builds(s1, es),
        builds(s2, es),
    ensures
        skeleton_errors(v, s1) == skeleton_errors(v, s2),
{
    lemma_consistent_alike(s1.nodes@, s2.nodes@);
    match s1.root_index {
        Some(r) => lemma_all_alike_errors(v, s1.nodes@, s2.nodes@, r as int),
        None => {},
    }
}

} // verus!
