//! Validation state kept while streaming: the stack of open elements with
//! their child counts, and the namespace bindings in scope.
use smallvec::SmallVec;
use std::sync::Arc;
use vstd::prelude::*;

use crate::schema::{ContentModelType, FlattenedChildren, ProcessContents, TypeDef};
use crate::namemap::lookup_entries;
use crate::text::{after_first_colon, has_colon, split_first_colon, str_eq, contains_colon};
use crate::two_pass::{flat_view, sat, FlatView};

verus! {

/// Child counts as stored: (child name, count), in first-seen order, kept
/// inline for the first few children (`smallvec::SmallVec`).
#[verifier::external_body]
#[derive(Debug)]
pub struct ChildCounts {
    inner: SmallVec<[(Arc<String>, u32); 8]>,
}

/// Namespace bindings of one scope: (prefix, URI), in declaration order,
/// kept inline for the first few (`smallvec::SmallVec`).
#[verifier::external_body]
#[derive(Debug)]
pub struct ScopeBindings {
    inner: SmallVec<[(String, String); 4]>,
}

/// The (name, count) pairs a child-count vector holds, in order.
pub uninterp spec fn counts_of(v: ChildCounts) -> Seq<(Seq<char>, u32)>;

/// The (prefix, URI) pairs a scope holds, in order.
pub uninterp spec fn bindings_of(v: ScopeBindings) -> Seq<(Seq<char>, Seq<char>)>;

impl ChildCounts {
    /// No counts (`SmallVec::new`).
    #[verifier::external_body]
    pub(crate) fn new() -> (v: ChildCounts)
        ensures
            counts_of(v).len() == 0,
    {
        ChildCounts { inner: SmallVec::new() }
    }

    /// Number of entries (`SmallVec::len`).
    #[verifier::external_body]
    pub(crate) fn len(&self) -> (r: usize)
        ensures
            r == counts_of(*self).len(),
    {
        self.inner.len()
    }

    /// Whether there is no entry (`SmallVec::is_empty`).
    #[verifier::external_body]
    pub fn is_empty(&self) -> (r: bool)
        ensures
            r == (counts_of(*self).len() == 0),
    {
        self.inner.is_empty()
    }

    /// The entry at `i` (indexing).
    #[verifier::external_body]
    fn at(&self, i: usize) -> (r: (&Arc<String>, u32))
        requires
            i < counts_of(*self).len(),
        ensures
            r.0@ == counts_of(*self)[i as int].0,
            r.1 == counts_of(*self)[i as int].1,
    {
        let e = &self.inner[i];
        (&e.0, e.1)
    }

    /// Sets the count of the entry at `i` (indexing).
    #[verifier::external_body]
    fn set_count(&mut self, i: usize, c: u32)
        requires
            i < counts_of(*old(self)).len(),
        ensures
            counts_of(*final(self)) == counts_of(*old(self)).update(
                i as int,
                (counts_of(*old(self))[i as int].0, c),
            ),
    {
        self.inner[i].1 = c;
    }

    /// Appends an entry (`SmallVec::push`).
    #[verifier::external_body]
    fn push(&mut self, name: Arc<String>, c: u32)
        requires
            counts_of(*old(self)).len() < usize::MAX,
        ensures
            counts_of(*final(self)) == counts_of(*old(self)).push((name@, c)),
    {
        self.inner.push((name, c));
    }
}

impl ScopeBindings {
    /// No bindings (`SmallVec::new`).
    #[verifier::external_body]
    pub(crate) fn new() -> (v: ScopeBindings)
        ensures
            bindings_of(v).len() == 0,
    {
        ScopeBindings { inner: SmallVec::new() }
    }

    /// Number of bindings (`SmallVec::len`).
    #[verifier::external_body]
    pub(crate) fn len(&self) -> (r: usize)
        ensures
            r == bindings_of(*self).len(),
    {
        self.inner.len()
    }

    /// The binding at `i` (indexing).
    #[verifier::external_body]
    fn at(&self, i: usize) -> (r: (&String, &String))
        requires
            i < bindings_of(*self).len(),
        ensures
            r.0@ == bindings_of(*self)[i as int].0,
            r.1@ == bindings_of(*self)[i as int].1,
    {
        let e = &self.inner[i];
        (&e.0, &e.1)
    }

    /// Appends a binding (`SmallVec::push`).
    #[verifier::external_body]
    fn push(&mut self, prefix: String, uri: String)
        requires
            bindings_of(*old(self)).len() < usize::MAX,
        ensures
            bindings_of(*final(self)) == bindings_of(*old(self)).push((prefix@, uri@)),
    {
        self.inner.push((prefix, uri));
    }
}

/// A namespace declaration: a prefix (empty for the default namespace)
/// bound to a URI.
#[derive(Debug, Clone)]
pub struct Namespace {
    /// The prefix.
    pub prefix: String,
    /// The namespace URI.
    pub uri: String,
}

impl Namespace {
    /// A declaration binding `prefix` to `uri`.
    pub fn new(prefix: String, uri: String) -> (n: Namespace)
        ensures
            n.prefix == prefix,
            n.uri == uri,
    {
        Namespace { prefix, uri }
    }

    /// The prefix.
    pub fn prefix(&self) -> (r: &str)
        ensures
            r@ == self.prefix@,
    {
        self.prefix.as_str()
    }

    /// The namespace URI.
    pub fn uri(&self) -> (r: &str)
        ensures
            r@ == self.uri@,
    {
        self.uri.as_str()
    }
}

/// Context for an element being validated.
#[derive(Debug)]
pub struct ElementContext {
    /// Element name.
    pub name: Arc<String>,
    /// Element namespace URI.
    pub namespace: Option<Arc<String>>,
    /// Child element occurrence counts.
    pub child_counts: ChildCounts,
    /// Text content collected.
    pub text_content: String,
    /// Whether this element has been validated against the schema.
    pub schema_validated: bool,
    /// Type reference for this element (if known from the schema).
    pub type_ref: Option<String>,
    /// Child table of the element's type.
    pub flattened_children: Option<Arc<FlattenedChildren>>,
    /// Current position in the expected sequence.
    pub sequence_index: usize,
    /// Whether the element's declaration is `nillable="true"`.
    pub nillable: bool,
    /// Whether the instance element carries `xsi:nil="true"`.
    pub nilled: bool,
    /// Default value from the element declaration.
    pub default_value: Option<String>,
    /// Fixed value from the element declaration.
    pub fixed_value: Option<String>,
    /// Anonymous type of the element declaration.
    pub inline_type: Option<TypeDef>,
    /// Set when the element was admitted by a lax / skip wildcard.
    pub wildcard_mode: Option<ProcessContents>,
}

/// The position of the first entry named `n`, if any.
pub open spec fn first_named(c: Seq<(Seq<char>, u32)>, n: Seq<char>) -> Option<int> {
    if exists|i: int| 0 <= i < c.len() && c[i].0 == n && forall|j: int| 0 <= j < i ==> #[trigger] c[j].0 != n {
        Some(choose|i: int| 0 <= i < c.len() && c[i].0 == n && forall|j: int| 0 <= j < i ==> #[trigger] c[j].0 != n)
    } else {
        None
    }
}

/// Whether an entry counts towards `child`: the same name, or (for an
/// unprefixed `child`) a prefixed name whose part after the first `:` is
/// `child`.
pub open spec fn counts_towards(entry: Seq<char>, child: Seq<char>) -> bool {
    entry == child || (!has_colon(child) && has_colon(entry) && after_first_colon(entry) == child)
}

/// The total count of the entries that count towards `child`.
pub open spec fn child_total(c: Seq<(Seq<char>, u32)>, child: Seq<char>) -> int
    decreases c.len(),
{
    if c.len() == 0 {
        0
    } else {
        child_total(c.drop_last(), child) + if counts_towards(c.last().0, child) {
            c.last().1 as int
        } else {
            0
        }
    }
}

/// The counts after one more child named `n`.
pub open spec fn counts_after(c: Seq<(Seq<char>, u32)>, n: Seq<char>) -> Seq<(Seq<char>, u32)> {
    match first_named(c, n) {
        Some(i) => c.update(i, (n, (c[i].1 + 1) as u32)),
        None => c.push((n, 1u32)),
    }
}

/// The count an increment returns.
pub open spec fn count_after(c: Seq<(Seq<char>, u32)>, n: Seq<char>) -> u32 {
    match first_named(c, n) {
        Some(i) => (c[i].1 + 1) as u32,
        None => 1u32,
    }
}

/// An increment of `n` does not overflow.
pub open spec fn can_increment(c: Seq<(Seq<char>, u32)>, n: Seq<char>) -> bool {
    match first_named(c, n) {
        Some(i) => c[i].1 < u32::MAX,
        None => c.len() < usize::MAX,
    }
}

/// The view of an optional child table.
pub open spec fn opt_arc_view(f: Option<Arc<FlattenedChildren>>) -> Option<FlatView> {
    match f {
        Some(a) => Some(flat_view(*a)),
        None => None,
    }
}

/// A context for `name` with nothing recorded yet.
pub open spec fn fresh_context(c: ElementContext, name: Arc<String>, namespace: Option<Arc<String>>) -> bool {
    &&& c.name == name
    &&& c.namespace == namespace
    &&& counts_of(c.child_counts).len() == 0
    &&& c.text_content@.len() == 0
    &&& !c.schema_validated
    &&& c.type_ref is None
    &&& c.flattened_children is None
    &&& c.sequence_index == 0
    &&& !c.nillable
    &&& !c.nilled
    &&& c.default_value is None
    &&& c.fixed_value is None
    &&& c.inline_type is None
    &&& c.wildcard_mode is None
}

/// `a` and `b` agree on everything but the child counts.
pub open spec fn same_but_counts(a: ElementContext, b: ElementContext) -> bool {
    a == ElementContext { child_counts: a.child_counts, ..b }
}

impl ElementContext {
    /// A context for an element with nothing recorded yet.
    pub fn new(name: Arc<String>, namespace: Option<Arc<String>>) -> (c: ElementContext)
        ensures
            fresh_context(c, name, namespace),
            c.name == name,
            c.namespace == namespace,
            counts_of(c.child_counts).len() == 0,
            c.text_content@.len() == 0,
            !c.schema_validated,
            c.type_ref is None,
            c.flattened_children is None,
            c.sequence_index == 0,
            !c.nillable,
            !c.nilled,
            c.default_value is None,
            c.fixed_value is None,
            c.inline_type is None,
            c.wildcard_mode is None,
    {
        ElementContext {
            name,
            namespace,
            child_counts: ChildCounts::new(),
            text_content: String::new(),
            schema_validated: false,
            type_ref: None,
            flattened_children: None,
            sequence_index: 0,
            nillable: false,
            nilled: false,
            default_value: None,
            fixed_value: None,
            inline_type: None,
            wildcard_mode: None,
        }
    }

    /// A context from string slices.
    pub fn from_str(name: &str, namespace: Option<&str>) -> (c: ElementContext)
        ensures
            c.name@ == name@,
            match c.namespace {
                Some(n) => namespace matches Some(m) && n@ == m@,
                None => namespace is None,
            },
            counts_of(c.child_counts).len() == 0,
            c.text_content@.len() == 0,
            !c.schema_validated,
            c.type_ref is None,
            c.flattened_children is None,
    {
        let ns = match namespace {
            Some(n) => Some(Arc::new(String::from_str(n))),
            None => None,
        };
        ElementContext::new(Arc::new(String::from_str(name)), ns)
    }

    /// Counts one more child named `child_name` and returns its count.
    pub fn increment_child(&mut self, child_name: &str) -> (r: u32)
        requires
            can_increment(counts_of(old(self).child_counts), child_name@),
        ensures
            counts_of(final(self).child_counts) == counts_after(
                counts_of(old(self).child_counts),
                child_name@,
            ),
            r == count_after(counts_of(old(self).child_counts), child_name@),
            same_but_counts(*final(self), *old(self)),
            final(self).name == old(self).name,
            final(self).text_content == old(self).text_content,
            final(self).flattened_children == old(self).flattened_children,
    {
        let ghost c0 = counts_of(self.child_counts);
        let n = self.child_counts.len();
        let mut i: usize = 0;
        while i < n
            invariant
                i <= n,
                n == c0.len(),
                c0 == counts_of(self.child_counts),
                *self == *old(self),
                c0 == counts_of(old(self).child_counts),
                can_increment(c0, child_name@),
                forall|j: int| 0 <= j < i ==> #[trigger] c0[j].0 != child_name@,
            decreases n - i,
        {
            let (name, count) = self.child_counts.at(i);
            if str_eq(name.as_str(), child_name) {
                proof {
                    assert(first_named(c0, child_name@) == Some(i as int)) by {
                        let c = choose|k: int|
                            0 <= k < c0.len() && c0[k].0 == child_name@ && forall|j: int|
                                0 <= j < k ==> #[trigger] c0[j].0 != child_name@;
                        if c < i {
                        }
                        if i < c {
                            assert(c0[i as int].0 != child_name@);
                        }
                    }
                }
                self.child_counts.set_count(i, count + 1);
                return count + 1;
            }
            i = i + 1;
        }
        self.child_counts.push(Arc::new(String::from_str(child_name)), 1);
        1
    }

    /// Counts one more child named `child_name` (shared name).
    pub fn increment_child_arc(&mut self, child_name: &Arc<String>) -> (r: u32)
        requires
            can_increment(counts_of(old(self).child_counts), child_name@),
        ensures
            counts_of(final(self).child_counts) == counts_after(
                counts_of(old(self).child_counts),
                child_name@,
            ),
            r == count_after(counts_of(old(self).child_counts), child_name@),
            same_but_counts(*final(self), *old(self)),
            final(self).name == old(self).name,
            final(self).text_content == old(self).text_content,
            final(self).flattened_children == old(self).flattened_children,
    {
        self.increment_child(child_name.as_str())
    }

    /// The count of children named `child_name`; an unprefixed name also
    /// counts prefixed children with that local name.
    pub fn get_child_count(&self, child_name: &str) -> (r: u32)
        requires
            child_total(counts_of(self.child_counts), child_name@) <= u32::MAX,
        ensures
            r == child_total(counts_of(self.child_counts), child_name@),
    {
        let ghost c = counts_of(self.child_counts);
        let n = self.child_counts.len();
        let has_prefix = contains_colon(child_name);
        let mut total: u32 = 0;
        let mut i: usize = 0;
        while i < n
            invariant
                i <= n,
                n == c.len(),
                c == counts_of(self.child_counts),
                has_prefix == has_colon(child_name@),
                child_total(c, child_name@) <= u32::MAX,
                total == child_total(c.take(i as int), child_name@),
            decreases n - i,
        {
            let (name, count) = self.child_counts.at(i);
            proof {
                assert(c.take(i + 1).drop_last() =~= c.take(i as int));
                lemma_child_total_prefix(c, child_name@, i + 1);
            }
            if str_eq(name.as_str(), child_name) {
                total = total + count;
            } else if !has_prefix {
                match split_first_colon(name.as_str()) {
                    Some((_p, local)) => {
                        if str_eq(local.as_str(), child_name) {
                            total = total + count;
                        }
                    },
                    None => {},
                }
            }
            i = i + 1;
        }
        proof {
            assert(c.take(n as int) =~= c);
        }
        total
    }

    /// The count of children named `child_name` as `get_child_count` gives
    /// it, saturated at `u64::MAX`.
    pub(crate) fn saturating_child_count(&self, child_name: &str) -> (r: u64)
        ensures
            r == sat(child_total(counts_of(self.child_counts), child_name@)),
    {
        let ghost c = counts_of(self.child_counts);
        let n = self.child_counts.len();
        let has_prefix = contains_colon(child_name);
        let mut total: u64 = 0;
        let mut i: usize = 0;
        proof {
            lemma_child_total_nonneg(c.take(0), child_name@);
        }
        while i < n
            invariant
                i <= n,
                n == c.len(),
                c == counts_of(self.child_counts),
                has_prefix == has_colon(child_name@),
                total == sat(child_total(c.take(i as int), child_name@)),
                child_total(c.take(i as int), child_name@) >= 0,
            decreases n - i,
        {
            let (name, count) = self.child_counts.at(i);
            proof {
                assert(c.take(i + 1).drop_last() =~= c.take(i as int));
            }
            if str_eq(name.as_str(), child_name) {
                total = total.saturating_add(count as u64);
            } else if !has_prefix {
                match split_first_colon(name.as_str()) {
                    Some((_p, local)) => {
                        if str_eq(local.as_str(), child_name) {
                            total = total.saturating_add(count as u64);
                        }
                    },
                    None => {},
                }
            }
            i = i + 1;
        }
        proof {
            assert(c.take(n as int) =~= c);
        }
        total
    }

    /// Whether one more child named `child_name` can be counted.
    pub(crate) fn can_count_child(&self, child_name: &str) -> (r: bool)
        ensures
            r == can_increment(counts_of(self.child_counts), child_name@),
    {
        let ghost c0 = counts_of(self.child_counts);
        let n = self.child_counts.len();
        let mut i: usize = 0;
        while i < n
            invariant
                i <= n,
                n == c0.len(),
                c0 == counts_of(self.child_counts),
                forall|j: int| 0 <= j < i ==> #[trigger] c0[j].0 != child_name@,
            decreases n - i,
        {
            let (name, count) = self.child_counts.at(i);
            if str_eq(name.as_str(), child_name) {
                proof {
                    assert(first_named(c0, child_name@) == Some(i as int)) by {
                        let c = choose|k: int|
                            0 <= k < c0.len() && c0[k].0 == child_name@ && forall|j: int|
                                0 <= j < k ==> #[trigger] c0[j].0 != child_name@;
                        if c < i {
                        }
                        if i < c {
                            assert(c0[i as int].0 != child_name@);
                        }
                    }
                }
                return count < u32::MAX;
            }
            i = i + 1;
        }
        n < usize::MAX
    }

    /// The content model type of the child table, or `Empty` without one.
    pub fn content_model_type(&self) -> (r: ContentModelType)
        ensures
            r == match opt_arc_view(self.flattened_children) {
                Some(f) => f.model,
                None => ContentModelType::Empty,
            },
    {
        match &self.flattened_children {
            Some(f) => f.content_model_type,
            None => ContentModelType::Empty,
        }
    }

    /// Whether a child named `child_name` is listed by the child table.
    pub fn expects_child(&self, child_name: &str) -> (r: bool)
        ensures
            r == match opt_arc_view(self.flattened_children) {
                Some(f) => lookup_entries(f.entries, child_name@) is Some,
                None => false,
            },
    {
        match &self.flattened_children {
            Some(f) => f.constraints.contains_key(child_name),
            None => false,
        }
    }

    /// The occurrence bounds the child table gives `child_name`.
    pub fn get_child_constraint(&self, child_name: &str) -> (r: Option<(u32, Option<u32>)>)
        ensures
            r == match opt_arc_view(self.flattened_children) {
                Some(f) => lookup_entries(f.entries, child_name@),
                None => None,
            },
    {
        match &self.flattened_children {
            Some(f) => match f.constraints.get(child_name) {
                Some(c) => Some(*c),
                None => None,
            },
            None => None,
        }
    }

    /// The child table's entries (none without a table).
    pub fn expected_children(&self) -> (r: Vec<(&String, &(u32, Option<u32>))>)
        ensures
            r@.len() == match opt_arc_view(self.flattened_children) {
                Some(f) => f.entries.len(),
                None => 0,
            },
            forall|i: int|
                0 <= i < r@.len() ==> match opt_arc_view(self.flattened_children) {
                    Some(f) => *(#[trigger] r@[i]).0 == f.entries[i].0 && *r@[i].1 == f.entries[i].1,
                    None => false,
                },
    {
        let mut out: Vec<(&String, &(u32, Option<u32>))> = Vec::new();
        match &self.flattened_children {
            Some(f) => {
                let e = &f.constraints.entries;
                let mut i: usize = 0;
                while i < e.len()
                    invariant
                        i <= e@.len(),
                        e@ == f.constraints.entries@,
                        out@.len() == i,
                        forall|k: int|
                            0 <= k < i ==> *(#[trigger] out@[k]).0 == e@[k].0 && *out@[k].1 == e@[k].1,
                    decreases e@.len() - i,
                {
                    let (k, v) = &e[i];
                    out.push((k, v));
                    i = i + 1;
                }
            },
            None => {},
        }
        out
    }
}

/// Totals are never negative.
pub proof fn lemma_child_total_nonneg(c: Seq<(Seq<char>, u32)>, child: Seq<char>)
    ensures
        child_total(c, child) >= 0,
    decreases c.len(),
{
    if c.len() > 0 {
        lemma_child_total_nonneg(c.drop_last(), child);
    }
}

/// The total of a prefix grows by the entry it adds.
proof fn lemma_child_total_prefix(c: Seq<(Seq<char>, u32)>, child: Seq<char>, k: int)
    requires
        0 <= k <= c.len(),
    ensures
        child_total(c.take(k), child) <= child_total(c, child),
    decreases c.len() - k,
{
    if k < c.len() {
        lemma_child_total_prefix(c, child, k + 1);
        assert(c.take(k + 1).drop_last() =~= c.take(k));
    } else {
        assert(c.take(k) =~= c);
    }
}

/// Validation state during streaming.
#[derive(Debug)]
pub struct ValidationState {
    /// The open elements, outermost first.
    pub element_stack: Vec<ElementContext>,
    /// Current depth.
    pub depth: usize,
    /// Namespace bindings of each scope (only the declarations each scope
    /// adds); the outermost scope is never removed.
    pub namespace_stack: Vec<ScopeBindings>,
}

/// The URI a prefix is bound to in the scopes `0..k`, innermost first;
/// within a scope the first declaration of the prefix wins.
pub open spec fn resolve_in(scopes: Seq<Seq<(Seq<char>, Seq<char>)>>, p: Seq<char>) -> Option<Seq<char>>
    decreases scopes.len(),
{
    if scopes.len() == 0 {
        None
    } else {
        let s = scopes.last();
        if exists|i: int| 0 <= i < s.len() && s[i].0 == p {
            Some(s[choose|i: int| 0 <= i < s.len() && s[i].0 == p && forall|j: int| 0 <= j < i ==> #[trigger] s[j].0 != p].1)
        } else {
            resolve_in(scopes.drop_last(), p)
        }
    }
}

/// The bindings of each scope.
pub open spec fn scopes_view(v: Seq<ScopeBindings>) -> Seq<Seq<(Seq<char>, Seq<char>)>> {
    v.map_values(|s: ScopeBindings| bindings_of(s))
}

/// `/name1/name2/...` for the open elements, or `/` when none is open.
pub open spec fn path_of(stack: Seq<ElementContext>) -> Seq<char>
    decreases stack.len(),
{
    if stack.len() == 0 {
        Seq::empty()
    } else {
        path_of(stack.drop_last()) + "/"@ + stack.last().name@
    }
}

/// The path text of a stack of open elements: `/a/b`, or `/` when empty.
pub open spec fn stack_path(stack: Seq<ElementContext>) -> Seq<char> {
    if stack.len() == 0 {
        "/"@
    } else {
        path_of(stack)
    }
}

impl ValidationState {
    /// The path text of the open elements: `/a/b`, or `/` when none is open.
    pub open spec fn path_view(&self) -> Seq<char> {
        stack_path(self.element_stack@)
    }

    /// A state with no open element and one (empty) namespace scope.
    pub fn new() -> (s: ValidationState)
        ensures
            s.element_stack@.len() == 0,
            s.depth == 0,
            s.namespace_stack@.len() == 1,
            bindings_of(s.namespace_stack@[0]).len() == 0,
    {
        let mut ns: Vec<ScopeBindings> = Vec::new();
        ns.push(ScopeBindings::new());
        ValidationState { element_stack: Vec::new(), depth: 0, namespace_stack: ns }
    }

    /// Opens an element: the parent (if any) counts it as a child.
    pub fn push_element(&mut self, name: Arc<String>, namespace: Option<Arc<String>>)
        requires
            old(self).depth < usize::MAX,
            old(self).element_stack@.len() > 0 ==> can_increment(
                counts_of(old(self).element_stack@.last().child_counts),
                name@,
            ),
        ensures
            final(self).depth == old(self).depth + 1,
            final(self).element_stack@.len() == old(self).element_stack@.len() + 1,
            final(self).element_stack@.last().name == name,
            final(self).element_stack@.last().namespace == namespace,
            counts_of(final(self).element_stack@.last().child_counts).len() == 0,
            fresh_context(final(self).element_stack@.last(), name, namespace),
            old(self).element_stack@.len() > 0 ==> same_but_counts(
                final(self).element_stack@[old(self).element_stack@.len() - 1],
                old(self).element_stack@.last(),
            ),
            old(self).element_stack@.len() > 0 ==> counts_of(
                final(self).element_stack@[old(self).element_stack@.len() - 1].child_counts,
            ) == counts_after(counts_of(old(self).element_stack@.last().child_counts), name@),
            forall|i: int|
                0 <= i < old(self).element_stack@.len() - 1 ==> #[trigger] final(self).element_stack@[i] == old(self).element_stack@[i],
            final(self).namespace_stack == old(self).namespace_stack,
            path_of(final(self).element_stack@) == path_of(old(self).element_stack@) + "/"@
                + name@,
    {
        let ghost old_stack = self.element_stack@;
        let n = self.element_stack.len();
        if n > 0 {
            let mut parent = self.element_stack.pop().unwrap();
            parent.increment_child_arc(&name);
            self.element_stack.push(parent);
            proof {
                assert(self.element_stack@.drop_last() =~= old_stack.drop_last());
            }
        }
        self.element_stack.push(ElementContext::new(name, namespace));
        self.depth = self.depth + 1;
        proof {
            let s = self.element_stack@;
            assert(s.drop_last().len() == old_stack.len());
            if old_stack.len() > 0 {
                assert(s.drop_last().drop_last() =~= old_stack.drop_last());
                assert(s.drop_last().last().name == old_stack.last().name);
            } else {
                assert(s.drop_last() =~= old_stack);
            }
            assert(path_of(s.drop_last()) == path_of(old_stack));
        }
    }

    /// Opens an element named by string slices.
    pub fn push_element_str(&mut self, name: &str, namespace: Option<&str>)
        requires
            old(self).depth < usize::MAX,
            old(self).element_stack@.len() > 0 ==> can_increment(
                counts_of(old(self).element_stack@.last().child_counts),
                name@,
            ),
        ensures
            final(self).depth == old(self).depth + 1,
            final(self).element_stack@.len() == old(self).element_stack@.len() + 1,
            final(self).element_stack@.last().name@ == name@,
            path_of(final(self).element_stack@) == path_of(old(self).element_stack@) + "/"@
                + name@,
            old(self).element_stack@.len() > 0 ==> counts_of(
                final(self).element_stack@[old(self).element_stack@.len() - 1].child_counts,
            ) == counts_after(counts_of(old(self).element_stack@.last().child_counts), name@),
            final(self).namespace_stack == old(self).namespace_stack,
    {
        let ns = match namespace {
            Some(n) => Some(Arc::new(String::from_str(n))),
            None => None,
        };
        self.push_element(Arc::new(String::from_str(name)), ns);
    }

    /// Closes the innermost element and returns its context.
    pub fn pop_element(&mut self) -> (r: Option<ElementContext>)
        ensures
            final(self).depth == if old(self).depth == 0 {
                0
            } else {
                (old(self).depth - 1) as usize
            },
            match r {
                Some(c) => old(self).element_stack@.len() > 0 && c == old(self).element_stack@.last() && final(self).element_stack@ == old(self).element_stack@.drop_last(),
                None => old(self).element_stack@.len() == 0 && final(self).element_stack@ == old(self).element_stack@,
            },
            final(self).namespace_stack == old(self).namespace_stack,
    {
        self.depth = self.depth.saturating_sub(1);
        self.element_stack.pop()
    }

    /// The innermost open element.
    pub fn current_element(&self) -> (r: Option<&ElementContext>)
        ensures
            match r {
                Some(c) => self.element_stack@.len() > 0 && *c == self.element_stack@.last(),
                None => self.element_stack@.len() == 0,
            },
    {
        let n = self.element_stack.len();
        if n == 0 {
            None
        } else {
            Some(&self.element_stack[n - 1])
        }
    }

    /// The innermost open element, for updating.
    pub fn current_element_mut(&mut self) -> (r: Option<&mut ElementContext>)
        ensures
            match r {
                Some(c) => old(self).element_stack@.len() > 0 && *c == old(self).element_stack@.last() && final(self).element_stack@ == old(self).element_stack@.update(old(self).element_stack@.len() - 1, *final(c)),
                None => old(self).element_stack@.len() == 0 && *final(self) == *old(self),
            },
            final(self).depth == old(self).depth,
            final(self).namespace_stack == old(self).namespace_stack,
    {
        let n = self.element_stack.len();
        if n == 0 {
            None
        } else {
            Some(&mut self.element_stack[n - 1])
        }
    }

    /// Opens a namespace scope with the given declarations.
    pub fn push_namespaces(&mut self, decls: &[Namespace])
        ensures
            final(self).namespace_stack@.len() == old(self).namespace_stack@.len() + 1,
            scopes_view(final(self).namespace_stack@) == scopes_view(old(self).namespace_stack@).push(
                decls@.map_values(|d: Namespace| (d.prefix@, d.uri@)),
            ),
            final(self).element_stack == old(self).element_stack,
            final(self).depth == old(self).depth,
    {
        let mut scope = ScopeBindings::new();
        let mut i: usize = 0;
        while i < decls.len()
            invariant
                i <= decls@.len(),
                bindings_of(scope) == decls@.take(i as int).map_values(
                    |d: Namespace| (d.prefix@, d.uri@),
                ),
            decreases decls@.len() - i,
        {
            proof {
                assert(decls@.take(i + 1).map_values(|d: Namespace| (d.prefix@, d.uri@))
                    =~= decls@.take(i as int).map_values(|d: Namespace| (d.prefix@, d.uri@)).push(
                    (decls@[i as int].prefix@, decls@[i as int].uri@),
                ));
            }
            scope.push(String::from_str(decls[i].prefix()), String::from_str(decls[i].uri()));
            i = i + 1;
        }
        proof {
            assert(decls@.take(decls@.len() as int) =~= decls@);
        }
        let ghost before = self.namespace_stack@;
        self.namespace_stack.push(scope);
        proof {
            assert(scopes_view(self.namespace_stack@) =~= scopes_view(before).push(bindings_of(scope)));
        }
    }

    /// Closes the innermost namespace scope (the outermost one stays).
    pub fn pop_namespaces(&mut self)
        ensures
            final(self).namespace_stack@ == if old(self).namespace_stack@.len() > 1 {
                old(self).namespace_stack@.drop_last()
            } else {
                old(self).namespace_stack@
            },
            final(self).element_stack == old(self).element_stack,
            final(self).depth == old(self).depth,
    {
        if self.namespace_stack.len() > 1 {
            self.namespace_stack.pop();
        }
    }

    /// Resolves a prefix, searching from the innermost scope outwards.
    pub fn resolve_prefix(&self, prefix: &str) -> (r: Option<&str>)
        ensures
            match r {
                Some(u) => resolve_in(scopes_view(self.namespace_stack@), prefix@) == Some(u@),
                None => resolve_in(scopes_view(self.namespace_stack@), prefix@) is None,
            },
    {
        let ghost all = scopes_view(self.namespace_stack@);
        let mut k: usize = self.namespace_stack.len();
        proof {
            assert(all.take(k as int) =~= all);
        }
        while k > 0
            invariant
                k <= self.namespace_stack@.len(),
                all == scopes_view(self.namespace_stack@),
                resolve_in(all, prefix@) == resolve_in(all.take(k as int), prefix@),
            decreases k,
        {
            let scope = &self.namespace_stack[k - 1];
            let ghost s = bindings_of(*scope);
            proof {
                assert(all.take(k as int).last() == s);
                assert(all.take(k as int).drop_last() =~= all.take(k - 1));
            }
            let n = scope.len();
            let mut i: usize = 0;
            while i < n
                invariant
                    i <= n,
                    n == s.len(),
                    s == bindings_of(*scope),
                    0 < k <= self.namespace_stack@.len(),
                    all == scopes_view(self.namespace_stack@),
                    resolve_in(all, prefix@) == resolve_in(all.take(k as int), prefix@),
                    all.take(k as int).last() == s,
                    forall|j: int| 0 <= j < i ==> #[trigger] s[j].0 != prefix@,
                decreases n - i,
            {
                let (p, u) = scope.at(i);
                if str_eq(p.as_str(), prefix) {
                    proof {
                        let c = choose|c: int|
                            0 <= c < s.len() && s[c].0 == prefix@ && forall|j: int|
                                0 <= j < c ==> #[trigger] s[j].0 != prefix@;
                        assert(s[i as int].0 == prefix@);
                        if c < i {
                        }
                        if i < c {
                            assert(s[i as int].0 != prefix@);
                        }
                    }
                    return Some(u.as_str());
                }
                i = i + 1;
            }
            k = k - 1;
        }
        proof {
            assert(all.take(0) =~= Seq::<Seq<(Seq<char>, Seq<char>)>>::empty());
        }
        None
    }

    /// The path of the open elements: `/root/child/...`, or `/` when none
    /// is open.
    pub fn element_path(&self) -> (r: String)
        ensures
            r@ == self.path_view(),
    {
        proof {
            reveal_strlit("/");
        }
        if self.element_stack.len() == 0 {
            return String::from_str("/");
        }
        let mut path = String::new();
        let mut i: usize = 0;
        while i < self.element_stack.len()
            invariant
                i <= self.element_stack@.len(),
                path@ == path_of(self.element_stack@.take(i as int)),
            decreases self.element_stack@.len() - i,
        {
            proof {
                reveal_strlit("/");
                assert(self.element_stack@.take(i + 1).drop_last() =~= self.element_stack@.take(
                    i as int,
                ));
            }
            path.append("/");
            path.append(self.element_stack[i].name.as_str());
            i = i + 1;
        }
        proof {
            assert(self.element_stack@.take(self.element_stack@.len() as int) =~= self.element_stack@);
        }
        path
    }
}

} // verus!
