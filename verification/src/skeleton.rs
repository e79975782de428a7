//! Element and document skeletons for two-pass validation, and the builder
//! that produces them from parsing events.
use vstd::prelude::*;

use crate::error::{too_many_children, ValidationError};
use crate::namemap::NameMap;
use crate::xml::{event_view, opt_string_view, EventView, XmlEvent};

verus! {

/// A lightweight skeleton of an element for batch validation.
#[derive(Debug, Clone)]
pub struct ElementSkeleton {
    /// Element name (local name)
    pub name: String,
    /// Element prefix (if any)
    pub prefix: Option<String>,
    /// Child element occurrence counts by local name
    pub child_counts: NameMap<u32>,
    /// Indices of child skeleton nodes in the flat storage
    pub children_indices: Vec<usize>,
    /// Line number for error reporting (1-indexed)
    pub line: Option<usize>,
    /// Column number for error reporting (1-indexed, in characters)
    pub column: Option<usize>,
    /// Collected text content
    pub text_content: String,
}

/// The count stored for a child name (0 when absent).
pub open spec fn count_of(m: NameMap<u32>, name: Seq<char>) -> int {
    match m.lookup(name) {
        Some(c) => c as int,
        None => 0,
    }
}

impl ElementSkeleton {
    /// Creates a new element skeleton.
    pub fn new(
        name: String,
        prefix: Option<String>,
        line: Option<usize>,
        column: Option<usize>,
    ) -> (s: ElementSkeleton)
        ensures
            s.name == name,
            s.prefix == prefix,
            s.line == line,
            s.column == column,
            s.child_counts.entries@.len() == 0,
            s.children_indices@.len() == 0,
            s.text_content@.len() == 0,
    {
        ElementSkeleton {
            name,
            prefix,
            child_counts: NameMap::new(),
            children_indices: Vec::new(),
            line,
            column,
            text_content: String::new(),
        }
    }

    /// Increments the count for a child element and returns the new count.
    pub fn increment_child(&mut self, child_name: &str) -> (r: u32)
        requires
            count_of(old(self).child_counts, child_name@) < u32::MAX,
        ensures
            r == count_of(old(self).child_counts, child_name@) + 1,
            forall|k: Seq<char>| #[trigger]
                count_of(final(self).child_counts, k) == if k == child_name@ {
                    count_of(old(self).child_counts, k) + 1
                } else {
                    count_of(old(self).child_counts, k)
                },
            final(self).name == old(self).name,
            final(self).prefix == old(self).prefix,
            final(self).children_indices == old(self).children_indices,
            final(self).line == old(self).line,
            final(self).column == old(self).column,
            final(self).text_content == old(self).text_content,
    {
        let c = self.get_child_count(child_name) + 1;
        self.child_counts.insert(String::from_str(child_name), c);
        c
    }

    /// Gets the count for a child element (0 when it never occurred).
    pub fn get_child_count(&self, child_name: &str) -> (r: u32)
        ensures
            r == count_of(self.child_counts, child_name@),
    {
        match self.child_counts.get(child_name) {
            Some(c) => *c,
            None => 0,
        }
    }
}

/// A document skeleton containing all element skeletons in a flat structure.
#[derive(Debug)]
pub struct DocumentSkeleton {
    /// Flat storage of all element skeletons
    pub nodes: Vec<ElementSkeleton>,
    /// Index of the root element (if any)
    pub root_index: Option<usize>,
}

/// Number of the listed children of `nodes` named `name`.
pub open spec fn count_named(nodes: Seq<ElementSkeleton>, idxs: Seq<usize>, name: Seq<char>) -> int
    decreases idxs.len(),
{
    if idxs.len() == 0 {
        0
    } else {
        count_named(nodes, idxs.drop_last(), name) + if 0 <= idxs.last() < nodes.len()
            && nodes[idxs.last() as int].name@ == name {
            1int
        } else {
            0int
        }
    }
}

impl DocumentSkeleton {
    /// Every child index points to a later node, so the nodes form a forest
    /// walked in increasing index order, and the root is a node.
    pub open spec fn wf(&self) -> bool {
        &&& forall|i: int, k: int|
            0 <= i < self.nodes@.len() && 0 <= k < self.nodes@[i].children_indices@.len() ==> i
                < #[trigger] self.nodes@[i].children_indices@[k] < self.nodes@.len()
        &&& self.root_index matches Some(r) ==> r < self.nodes@.len()
    }

    /// Each node's child counts agree with its listed children.
    pub open spec fn counts_consistent(&self) -> bool {
        forall|i: int, name: Seq<char>|
            0 <= i < self.nodes@.len() ==> #[trigger] count_of(self.nodes@[i].child_counts, name)
                == count_named(self.nodes@, self.nodes@[i].children_indices@, name)
    }

    /// Creates a new empty document skeleton.
    pub fn new() -> (s: DocumentSkeleton)
        ensures
            s.nodes@.len() == 0,
            s.root_index is None,
            s.wf(),
    {
        DocumentSkeleton { nodes: Vec::new(), root_index: None }
    }

    /// Gets a reference to a node by index.
    pub fn get_node(&self, index: usize) -> (r: Option<&ElementSkeleton>)
        ensures
            match r {
                Some(n) => index < self.nodes@.len() && *n == self.nodes@[index as int],
                None => index >= self.nodes@.len(),
            },
    {
        if index < self.nodes.len() {
            Some(&self.nodes[index])
        } else {
            None
        }
    }
}

/// A node just created for a start tag.
pub open spec fn fresh_node(
    n: ElementSkeleton,
    name: String,
    prefix: Option<String>,
    line: Option<usize>,
    column: Option<usize>,
) -> bool {
    &&& n.name == name
    &&& n.prefix == prefix
    &&& n.line == line
    &&& n.column == column
    &&& n.child_counts.entries@.len() == 0
    &&& n.children_indices@.len() == 0
    &&& n.text_content@.len() == 0
}

/// `p1` is `p0` with one more child: node `c`, named `name`.
pub open spec fn child_added(p1: ElementSkeleton, p0: ElementSkeleton, c: usize, name: Seq<char>) -> bool {
    &&& p1 == (ElementSkeleton {
        child_counts: p1.child_counts,
        children_indices: p1.children_indices,
        ..p0
    })
    &&& p1.children_indices@ == p0.children_indices@.push(c)
    &&& forall|k: Seq<char>| #[trigger]
        count_of(p1.child_counts, k) == if k == name {
            count_of(p0.child_counts, k) + 1
        } else {
            count_of(p0.child_counts, k)
        }
}

/// The effect of a start tag on the builder: a new node (the root when no
/// node is open, else the last child of the innermost open node) becomes
/// the innermost open node.
pub open spec fn start_applied(
    b0: SkeletonBuilder,
    b1: SkeletonBuilder,
    name: String,
    prefix: Option<String>,
    line: Option<usize>,
    column: Option<usize>,
) -> bool {
    let nodes0 = b0.skeleton.nodes@;
    let nodes1 = b1.skeleton.nodes@;
    let n = nodes0.len();
    let st = b0.stack@;
    &&& nodes1.len() == n + 1
    &&& fresh_node(nodes1[n as int], name, prefix, line, column)
    &&& b1.stack@ == st.push(n as usize)
    &&& if st.len() > 0 {
        let p = st.last() as int;
        &&& child_added(nodes1[p], nodes0[p], n as usize, name@)
        &&& forall|i: int| 0 <= i < n && i != p ==> #[trigger] nodes1[i] == nodes0[i]
        &&& b1.skeleton.root_index == b0.skeleton.root_index
    } else {
        &&& forall|i: int| 0 <= i < n ==> #[trigger] nodes1[i] == nodes0[i]
        &&& b1.skeleton.root_index == Some(n as usize)
    }
}

/// The effect of character data on the builder: it is appended to the text
/// of the innermost open node (and dropped when none is open).
pub open spec fn text_applied(b0: SkeletonBuilder, b1: SkeletonBuilder, text: Seq<char>) -> bool {
    let st = b0.stack@;
    &&& b1.stack == b0.stack
    &&& b1.skeleton.root_index == b0.skeleton.root_index
    &&& if st.len() == 0 {
        b1.skeleton.nodes == b0.skeleton.nodes
    } else {
        let c = st.last() as int;
        let nodes0 = b0.skeleton.nodes@;
        &&& b1.skeleton.nodes@ == nodes0.update(c, b1.skeleton.nodes@[c])
        &&& b1.skeleton.nodes@[c] == (ElementSkeleton { text_content: b1.skeleton.nodes@[c].text_content, ..nodes0[c] })
        &&& b1.skeleton.nodes@[c].text_content@ == nodes0[c].text_content@ + text
    }
}

/// What the checks read of a skeleton node, as plain values.
pub struct NodeView {
    /// Local name.
    pub name: Seq<char>,
    /// Prefix.
    pub prefix: Option<Seq<char>>,
    /// Line.
    pub line: Option<usize>,
    /// Column.
    pub column: Option<usize>,
    /// Indices of the child nodes, in document order.
    pub children: Seq<usize>,
    /// Collected character data.
    pub text: Seq<char>,
}

/// The view of a node.
pub open spec fn node_view(n: ElementSkeleton) -> NodeView {
    NodeView {
        name: n.name@,
        prefix: opt_string_view(n.prefix),
        line: n.line,
        column: n.column,
        children: n.children_indices@,
        text: n.text_content@,
    }
}

/// The views of a node list.
pub open spec fn nodes_view(nodes: Seq<ElementSkeleton>) -> Seq<NodeView> {
    nodes.map_values(|n: ElementSkeleton| node_view(n))
}

/// A skeleton under construction: the nodes, the root, and the indices of
/// the open nodes (outermost first).
pub struct Building {
    /// The nodes so far.
    pub nodes: Seq<NodeView>,
    /// The root, once a start tag was seen.
    pub root: Option<usize>,
    /// The open nodes.
    pub open: Seq<usize>,
}

/// The skeleton after applying one more event: a start tag adds a node (the
/// root, or the last child of the innermost open node) and opens it; an end
/// tag closes the innermost node; character data is appended to the
/// innermost node's text; other events change nothing.
pub open spec fn build_step(b: Building, e: EventView) -> Building {
    match e {
        EventView::Start { name, prefix, line, column, .. } => {
            let n = b.nodes.len();
            let node = NodeView { name, prefix, line, column, children: Seq::empty(), text: Seq::empty() };
            if b.open.len() > 0 {
                let p = b.open.last() as int;
                Building {
                    nodes: b.nodes.update(p, NodeView { children: b.nodes[p].children.push(n as usize), ..b.nodes[p] }).push(node),
                    root: b.root,
                    open: b.open.push(n as usize),
                }
            } else {
                Building { nodes: b.nodes.push(node), root: Some(n as usize), open: b.open.push(n as usize) }
            }
        },
        EventView::End { .. } => if b.open.len() > 0 {
            Building { open: b.open.drop_last(), ..b }
        } else {
            b
        },
        EventView::Text(t) => text_step(b, t),
        EventView::CData(t) => text_step(b, t),
        _ => b,
    }
}

/// Character data appended to the innermost open node.
pub open spec fn text_step(b: Building, t: Seq<char>) -> Building {
    if b.open.len() > 0 {
        let c = b.open.last() as int;
        Building { nodes: b.nodes.update(c, NodeView { text: b.nodes[c].text + t, ..b.nodes[c] }), ..b }
    } else {
        b
    }
}

/// The skeleton built from a list of events.
pub open spec fn build_all(es: Seq<EventView>) -> Building
    decreases es.len(),
{
    if es.len() == 0 {
        Building { nodes: Seq::empty(), root: None, open: Seq::empty() }
    } else {
        build_step(build_all(es.drop_last()), es.last())
    }
}

/// Number of the listed nodes named `name`.
pub open spec fn named_among(nodes: Seq<NodeView>, idxs: Seq<usize>, name: Seq<char>) -> int
    decreases idxs.len(),
{
    if idxs.len() == 0 {
        0
    } else {
        named_among(nodes, idxs.drop_last(), name) + if 0 <= idxs.last() < nodes.len()
            && nodes[idxs.last() as int].name == name {
            1int
        } else {
            0int
        }
    }
}

/// The event at `k` is a start tag whose parent already holds `u32::MAX`
/// children of that name, so the new element cannot be counted.
pub open spec fn overflow_at(es: Seq<EventView>, k: int) -> bool {
    let b = build_all(es.take(k));
    &&& es[k] is Start
    &&& b.open.len() > 0
    &&& named_among(b.nodes, b.nodes[b.open.last() as int].children, es[k]->Start_name) >= u32::MAX
}

/// Some event of the list is a start tag that cannot be counted.
pub open spec fn overflows(es: Seq<EventView>) -> bool {
    exists|k: int| 0 <= k < es.len() && #[trigger] overflow_at(es, k)
}

/// `s` is the skeleton built from `es`: consistent, with the nodes, the root
/// and the child counts that the events give.
pub open spec fn builds(s: DocumentSkeleton, es: Seq<EventView>) -> bool {
    &&& s.wf()
    &&& s.counts_consistent()
    &&& nodes_view(s.nodes@) == build_all(es).nodes
    &&& s.root_index == build_all(es).root
}

/// Counting children by name reads only the names, so it agrees on the views.
pub proof fn lemma_count_named_view(nodes: Seq<ElementSkeleton>, idxs: Seq<usize>, name: Seq<char>)
    ensures
        count_named(nodes, idxs, name) == named_among(nodes_view(nodes), idxs, name),
    decreases idxs.len(),
{
    if idxs.len() > 0 {
        lemma_count_named_view(nodes, idxs.drop_last(), name);
        let l = idxs.last() as int;
        if 0 <= l < nodes.len() {
            assert(nodes_view(nodes)[l] == node_view(nodes[l]));
        }
    }
}

/// The names of the start tags among the events, in order.
pub open spec fn start_tag_names(es: Seq<EventView>) -> Seq<Seq<char>>
    decreases es.len(),
{
    if es.len() == 0 {
        Seq::empty()
    } else {
        match es.last() {
            EventView::Start { name, .. } => start_tag_names(es.drop_last()).push(name),
            _ => start_tag_names(es.drop_last()),
        }
    }
}

/// The names of a list of node views.
pub open spec fn view_names(nodes: Seq<NodeView>) -> Seq<Seq<char>> {
    nodes.map_values(|n: NodeView| n.name)
}

/// The skeleton holds one node per start tag, named as the tag, in
/// document order; every open node and the root are among its nodes.
pub proof fn law_skeleton_nodes_are_start_tags(es: Seq<EventView>)
    ensures
        view_names(build_all(es).nodes) == start_tag_names(es),
        forall|k: int| 0 <= k < build_all(es).open.len() ==> #[trigger] build_all(es).open[k] < build_all(es).nodes.len(),
        build_all(es).root matches Some(r) ==> r < build_all(es).nodes.len(),
        (build_all(es).nodes.len() > 0) == (build_all(es).root is Some),
    decreases es.len(),
{
    if es.len() > 0 {
        let d = es.drop_last();
        law_skeleton_nodes_are_start_tags(d);
        let b = build_all(d);
        let e = es.last();
        let n = build_all(es);
        assert(n == build_step(b, e));
        match e {
            EventView::Start { name, .. } => {
                if b.open.len() > 0 {
                    assert(b.open[b.open.len() - 1] < b.nodes.len());
                }
                assert(view_names(n.nodes) =~= view_names(b.nodes).push(name));
            },
            EventView::End { .. } => {
                assert(view_names(n.nodes) =~= view_names(b.nodes));
            },
            EventView::Text(t) => {
                if b.open.len() > 0 {
                    assert(b.open[b.open.len() - 1] < b.nodes.len());
                }
                assert(view_names(n.nodes) =~= view_names(b.nodes));
            },
            EventView::CData(t) => {
                if b.open.len() > 0 {
                    assert(b.open[b.open.len() - 1] < b.nodes.len());
                }
                assert(view_names(n.nodes) =~= view_names(b.nodes));
            },
            _ => {},
        }
    }
}

/// Every start tag that opens while no element is open is the first start
/// tag: the document has one root element.
pub open spec fn one_root(es: Seq<EventView>) -> bool {
    forall|k: int|
        0 <= k < es.len() && #[trigger] es[k] is Start && build_all(es.take(k)).open.len() == 0
            ==> build_all(es.take(k)).nodes.len() == 0
}

/// With one root element, the root is the first node.
pub proof fn law_single_root_is_first_node(es: Seq<EventView>)
    requires
        one_root(es),
    ensures
        build_all(es).root matches Some(r) ==> r == 0,
    decreases es.len(),
{
    if es.len() > 0 {
        let d = es.drop_last();
        let l = es.len() - 1;
        assert(es.take(l) =~= d);
        assert forall|k: int|
            0 <= k < d.len() && #[trigger] d[k] is Start && build_all(d.take(k)).open.len() == 0 implies build_all(
            d.take(k),
        ).nodes.len() == 0 by {
            assert(d.take(k) =~= es.take(k));
            assert(es[k] == d[k]);
        }
        law_single_root_is_first_node(d);
        assert(build_all(es) == build_step(build_all(d), es.last()));
        if es.last() is Start && build_all(d).open.len() == 0 {
            assert(es[l] is Start);
        }
    }
}

/// How many times `x` occurs among `names`.
pub open spec fn occurrences(names: Seq<Seq<char>>, x: Seq<char>) -> int
    decreases names.len(),
{
    if names.len() == 0 {
        0
    } else {
        occurrences(names.drop_last(), x) + if names.last() == x {
            1int
        } else {
            0int
        }
    }
}

/// Starting from a fresh node (no counts) and counting one child per name in
/// turn, as `increment_child` does, each name's count is the number of times
/// it was counted: exact names, no prefix folding.
pub proof fn law_child_count_is_increments(counts: Seq<NameMap<u32>>, names: Seq<Seq<char>>)
    requires
        counts.len() == names.len() + 1,
        counts[0].entries@.len() == 0,
        forall|i: int, k: Seq<char>|
            0 <= i < names.len() ==> #[trigger] count_of(counts[i + 1], k) == if k == names[i] {
                count_of(counts[i], k) + 1
            } else {
                count_of(counts[i], k)
            },
    ensures
        forall|x: Seq<char>| #[trigger] count_of(counts.last(), x) == occurrences(names, x),
    decreases names.len(),
{
    if names.len() == 0 {
        assert forall|x: Seq<char>| #[trigger] count_of(counts.last(), x) == occurrences(names, x) by {
            assert(counts[0].lookup(x) is None);
        }
    } else {
        let c2 = counts.drop_last();
        let n2 = names.drop_last();
        assert forall|i: int, k: Seq<char>|
            0 <= i < n2.len() implies #[trigger] count_of(c2[i + 1], k) == if k == n2[i] {
                count_of(c2[i], k) + 1
            } else {
                count_of(c2[i], k)
            } by {
            assert(c2[i + 1] == counts[i + 1] && c2[i] == counts[i] && n2[i] == names[i]);
            assert(count_of(counts[i + 1], k) == if k == names[i] {
                count_of(counts[i], k) + 1
            } else {
                count_of(counts[i], k)
            });
        }
        law_child_count_is_increments(c2, n2);
        let l = names.len() - 1;
        assert forall|x: Seq<char>| #[trigger] count_of(counts.last(), x) == occurrences(names, x) by {
            assert(count_of(counts[l + 1], x) == if x == names[l] {
                count_of(counts[l], x) + 1
            } else {
                count_of(counts[l], x)
            });
            assert(c2.last() == counts[l]);
            assert(count_of(c2.last(), x) == occurrences(n2, x));
        }
    }
}

/// The view of a builder's state.
pub open spec fn builder_view(b: SkeletonBuilder) -> Building {
    Building { nodes: nodes_view(b.skeleton.nodes@), root: b.skeleton.root_index, open: b.stack@ }
}

/// A start tag applied to the builder is a build step.
pub proof fn lemma_start_view(
    b0: SkeletonBuilder,
    b1: SkeletonBuilder,
    name: String,
    prefix: Option<String>,
    line: Option<usize>,
    column: Option<usize>,
    e: EventView,
)
    requires
        b0.inv(),
        start_applied(b0, b1, name, prefix, line, column),
        e matches EventView::Start { name: n, prefix: p, line: l, column: c, .. } && n == name@ && p
            == opt_string_view(prefix) && l == line && c == column,
    ensures
        builder_view(b1) == build_step(builder_view(b0), e),
{
    let nodes0 = b0.skeleton.nodes@;
    let nodes1 = b1.skeleton.nodes@;
    let n = nodes0.len();
    let v0 = builder_view(b0);
    let expect = build_step(v0, e);
    let node = NodeView {
        name: name@,
        prefix: opt_string_view(prefix),
        line,
        column,
        children: Seq::empty(),
        text: Seq::empty(),
    };
    assert(v0.nodes.len() == n);
    assert(node_view(nodes1[n as int]) == node) by {
        assert(nodes1[n as int].children_indices@ =~= Seq::<usize>::empty());
        assert(nodes1[n as int].text_content@ =~= Seq::<char>::empty());
    }
    if b0.stack@.len() > 0 {
        let p = b0.stack@.last() as int;
        assert(b0.stack@[b0.stack@.len() - 1] < n);
        let pv = NodeView { children: v0.nodes[p].children.push(n as usize), ..v0.nodes[p] };
        assert(expect.nodes == v0.nodes.update(p, pv).push(node));
        assert(node_view(nodes1[p]) == pv);
        assert forall|i: int| 0 <= i < nodes1.len() implies nodes_view(nodes1)[i] == expect.nodes[i] by {
            if i < n && i != p {
                assert(nodes1[i] == nodes0[i]);
            }
        }
    } else {
        assert(expect.nodes == v0.nodes.push(node));
        assert forall|i: int| 0 <= i < nodes1.len() implies nodes_view(nodes1)[i] == expect.nodes[i] by {
            if i < n {
                assert(nodes1[i] == nodes0[i]);
            }
        }
    }
    assert(nodes_view(nodes1) =~= expect.nodes);
}

/// Character data applied to the builder is a build step.
pub proof fn lemma_text_view(b0: SkeletonBuilder, b1: SkeletonBuilder, t: Seq<char>)
    requires
        b0.inv(),
        text_applied(b0, b1, t),
    ensures
        builder_view(b1) == text_step(builder_view(b0), t),
{
    let nodes0 = b0.skeleton.nodes@;
    let nodes1 = b1.skeleton.nodes@;
    let expect = text_step(builder_view(b0), t);
    if b0.stack@.len() > 0 {
        let c = b0.stack@.last() as int;
        assert(b0.stack@[b0.stack@.len() - 1] < nodes0.len());
        assert(expect.nodes.len() == nodes0.len());
        assert forall|i: int| 0 <= i < nodes1.len() implies nodes_view(nodes1)[i] == expect.nodes[i] by {
            if i != c {
                assert(nodes1[i] == nodes0[i]);
            }
        }
        assert(nodes_view(nodes1) =~= expect.nodes);
    }
}

/// Builder for creating a document skeleton during the first pass.
pub struct SkeletonBuilder {
    /// The document skeleton being built
    pub skeleton: DocumentSkeleton,
    /// Stack of node indices representing the current path
    pub stack: Vec<usize>,
}

impl SkeletonBuilder {
    /// The builder's state is consistent.
    pub open spec fn inv(&self) -> bool {
        &&& self.skeleton.wf()
        &&& self.skeleton.counts_consistent()
        &&& forall|k: int| 0 <= k < self.stack@.len() ==> #[trigger] self.stack@[k]
            < self.skeleton.nodes@.len()
        &&& (self.skeleton.nodes@.len() > 0 <==> self.skeleton.root_index is Some)
    }

    /// Creates a new skeleton builder.
    pub fn new() -> (b: SkeletonBuilder)
        ensures
            b.inv(),
            b.skeleton.nodes@.len() == 0,
            b.stack@.len() == 0,
    {
        SkeletonBuilder { skeleton: DocumentSkeleton::new(), stack: Vec::new() }
    }

    /// Consumes the builder and returns the built skeleton.
    pub fn into_skeleton(self) -> (s: DocumentSkeleton)
        ensures
            s == self.skeleton,
    {
        self.skeleton
    }

    /// Applies one event: a start tag adds a node (the root, or a child of
    /// the innermost open node), an end tag closes the innermost node, and
    /// character data is appended to the innermost node's text; other events
    /// change nothing. Fails, changing nothing, only when a child count would
    /// exceed `u32::MAX`.
    pub fn handle(&mut self, event: &XmlEvent) -> (r: Result<(), ValidationError>)
        requires
            old(self).inv(),
        ensures
            final(self).inv(),
            match event {
                XmlEvent::StartElement { name, prefix, line, column, .. } => if old(self).stack@.len() > 0
                    && count_of(
                    old(self).skeleton.nodes@[old(self).stack@.last() as int].child_counts,
                    name@,
                ) == u32::MAX {
                    too_many_children(r) && *final(self) == *old(self)
                } else {
                    r is Ok && start_applied(*old(self), *final(self), *name, *prefix, *line, *column)
                },
                XmlEvent::EndElement { .. } => r is Ok && final(self).skeleton == old(self).skeleton
                    && final(self).stack@ == if old(self).stack@.len() > 0 {
                    old(self).stack@.drop_last()
                } else {
                    old(self).stack@
                },
                XmlEvent::Text(t) => r is Ok && text_applied(*old(self), *final(self), t@),
                XmlEvent::CData(t) => r is Ok && text_applied(*old(self), *final(self), t@),
                _ => r is Ok && *final(self) == *old(self),
            },
            r is Ok ==> builder_view(*final(self)) == build_step(builder_view(*old(self)), event_view(*event)),
            r is Ok && event is StartElement && old(self).stack@.len() == 0
                ==> final(self).skeleton.nodes@.len() == old(self).skeleton.nodes@.len() + 1,
    {
        match event {
            XmlEvent::StartElement { name, prefix, line, column, .. } => {
                let node_index = self.skeleton.nodes.len();
                let node = ElementSkeleton::new(name.clone(), prefix.clone(), *line, *column);
                if self.stack.len() > 0 {
                    let parent_idx = self.stack[self.stack.len() - 1];
                    assert(self.stack@[self.stack@.len() - 1] == parent_idx);
                    if self.skeleton.nodes[parent_idx].get_child_count(name.as_str())
                        == u32::MAX {
                        return Err(
                            ValidationError::InvalidOperation(
                                String::from_str("too many child elements"),
                            ),
                        );
                    }
                    let ghost old_nodes = self.skeleton.nodes@;
                    self.skeleton.nodes.push(node);
                    let ghost mid_nodes = self.skeleton.nodes@;
                    self.skeleton.nodes[parent_idx].increment_child(name.as_str());
                    self.skeleton.nodes[parent_idx].children_indices.push(node_index);
                    proof {
                        let nn = self.skeleton.nodes@;
                        let n = old_nodes.len() as int;
                        let p = parent_idx as int;
                        assert forall|i: int| 0 <= i < old_nodes.len() implies #[trigger] nn[i].name
                            == old_nodes[i].name by {
                            if i != p {
                                assert(nn[i] == mid_nodes[i]);
                            }
                            assert(mid_nodes[i] == old_nodes[i]);
                        }
                        assert forall|i: int, k: int|
                            0 <= i < nn.len() && 0 <= k < nn[i].children_indices@.len() implies i
                            < #[trigger] nn[i].children_indices@[k] < nn.len() by {
                            if i == p {
                                if k < old_nodes[p].children_indices@.len() {
                                    assert(nn[i].children_indices@[k]
                                        == old_nodes[p].children_indices@[k]);
                                }
                            } else if i < n {
                                assert(nn[i] == old_nodes[i]);
                            }
                        }
                        assert forall|i: int, nm: Seq<char>|
                            0 <= i < nn.len() implies #[trigger] count_of(nn[i].child_counts, nm)
                            == count_named(nn, nn[i].children_indices@, nm) by {
                            if i == n {
                                assert(nn[i] == mid_nodes[i]);
                                assert(nn[i].children_indices@.len() == 0);
                            } else {
                                let oi = old_nodes[i].children_indices@;
                                assert forall|k: int| 0 <= k < oi.len() implies #[trigger] oi[k]
                                    < old_nodes.len() by {
                                    assert(old_nodes[i].children_indices@[k] == oi[k]);
                                }
                                lemma_count_named_extend(old_nodes, nn, oi, nm);
                                assert(count_of(old_nodes[i].child_counts, nm) == count_named(
                                    old_nodes,
                                    oi,
                                    nm,
                                ));
                                if i == p {
                                    assert(nn[i].children_indices@.drop_last() =~= oi);
                                    assert(nn[n].name == name);
                                } else {
                                    assert(nn[i] == old_nodes[i]);
                                }
                            }
                        }
                    }
                } else {
                    let ghost old_nodes = self.skeleton.nodes@;
                    self.skeleton.nodes.push(node);
                    self.skeleton.root_index = Some(node_index);
                    proof {
                        assert forall|i: int, nm: Seq<char>|
                            0 <= i < self.skeleton.nodes@.len() implies #[trigger] count_of(
                            self.skeleton.nodes@[i].child_counts,
                            nm,
                        ) == count_named(
                            self.skeleton.nodes@,
                            self.skeleton.nodes@[i].children_indices@,
                            nm,
                        ) by {
                            if i < old_nodes.len() {
                                lemma_count_named_extend(
                                    old_nodes,
                                    self.skeleton.nodes@,
                                    self.skeleton.nodes@[i].children_indices@,
                                    nm,
                                );
                            }
                        }
                    }
                }
                self.stack.push(node_index);
                proof {
                    lemma_start_view(*old(self), *self, *name, *prefix, *line, *column, event_view(*event));
                }
                Ok(())
            },
            XmlEvent::EndElement { .. } => {
                self.stack.pop();
                Ok(())
            },
            XmlEvent::Text(text) | XmlEvent::CData(text) => {
                if self.stack.len() > 0 {
                    let current_idx = self.stack[self.stack.len() - 1];
                    let ghost old_nodes = self.skeleton.nodes@;
                    self.skeleton.nodes[current_idx].text_content.append(text.as_str());
                    proof {
                        assert forall|i: int| 0 <= i < old_nodes.len() implies #[trigger] self.skeleton.nodes@[i].name
                            == old_nodes[i].name && self.skeleton.nodes@[i].children_indices
                            == old_nodes[i].children_indices && self.skeleton.nodes@[i].child_counts
                            == old_nodes[i].child_counts by {
                            if i != current_idx {
                                assert(self.skeleton.nodes@[i] == old_nodes[i]);
                            }
                        }
                        assert forall|i: int, nm: Seq<char>|
                            0 <= i < self.skeleton.nodes@.len() implies #[trigger] count_of(
                            self.skeleton.nodes@[i].child_counts,
                            nm,
                        ) == count_named(
                            self.skeleton.nodes@,
                            self.skeleton.nodes@[i].children_indices@,
                            nm,
                        ) by {
                            let oi = old_nodes[i].children_indices@;
                            assert forall|k: int| 0 <= k < oi.len() implies #[trigger] oi[k]
                                < old_nodes.len() by {
                                assert(old_nodes[i].children_indices@[k] == oi[k]);
                            }
                            lemma_count_named_extend(old_nodes, self.skeleton.nodes@, oi, nm);
                        }
                    }
                }
                proof {
                    lemma_text_view(*old(self), *self, text@);
                }
                Ok(())
            },
            _ => Ok(()),
        }
    }
}

/// Counting children by name only depends on the names of the listed nodes.
pub proof fn lemma_count_named_extend(
    old_nodes: Seq<ElementSkeleton>,
    new_nodes: Seq<ElementSkeleton>,
    idxs: Seq<usize>,
    nm: Seq<char>,
)
    requires
        new_nodes.len() >= old_nodes.len(),
        forall|i: int| 0 <= i < old_nodes.len() ==> #[trigger] new_nodes[i].name == old_nodes[i].name,
        forall|k: int| 0 <= k < idxs.len() ==> #[trigger] idxs[k] < old_nodes.len(),
    ensures
        count_named(new_nodes, idxs, nm) == count_named(old_nodes, idxs, nm),
    decreases idxs.len(),
{
    if idxs.len() > 0 {
        let d = idxs.drop_last();
        assert forall|k: int| 0 <= k < d.len() implies #[trigger] d[k] < old_nodes.len() by {
            assert(d[k] == idxs[k]);
        }
        lemma_count_named_extend(old_nodes, new_nodes, d, nm);
        assert(idxs.last() == idxs[idxs.len() - 1]);
    }
}

} // verus!
