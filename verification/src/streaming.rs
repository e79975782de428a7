//! A streaming schema validator: it consumes parsing events one at a time
//! and checks each element against the schema as it opens and closes,
//! keeping only the stack of open elements.
use std::sync::Arc;
use vstd::prelude::*;

use crate::error::{too_many_children, ErrorLevel, StructuredError, ValidationError, ValidationErrorType};
use crate::facade::{
    count_errors, count_warnings, deref_entries, error_entries, errors_in, warning_entries,
    warnings_in,
};
use crate::mode::ValidationMode;
use crate::schema::{
    CompiledSchema, ComplexType, ContentModel, ContentModelType, ElementDef, FlattenedChildren,
    SimpleType, TypeDef,
};
use crate::facets::FacetValidator;
use crate::state::{bindings_of, can_increment, counts_after, same_but_counts, scopes_view, Namespace, child_total, counts_of, lemma_child_total_nonneg, opt_arc_view, stack_path, ElementContext, ValidationState};
use crate::text::{after_first_colon, blank, has_colon, is_blank, split_first_colon, str_eq};
use crate::validation::{
    facet_constraints_of, opt_chars, simple_violation,
    collect_elems, collect_elements_in, computed_view, contains_name, deref_elems, elem_type,
    flatten_complex, names_view, unvisited,
};
use crate::xml::{opt_string_view, XmlEvent};
use crate::groups::{
    direct_of, lemma_start_ok, lemma_step_decreases, lemma_step_ok, members_list, pending, start_walk,
    walk, walk_ok, walk_step, Walk,
};
use crate::two_pass::{
    constraint_keys, errors_view, flat_view, join_keys, join_names, sat, view_error, ErrorView,
    FlatView,
};
use crate::messages::{dec, decimal_string};
use crate::namemap::lookup_entries;

verus! {

/// Whether one more entry is kept when `n` are collected under the limit
/// `max` (0 = unlimited).
pub open spec fn collects(n: nat, max: usize) -> bool {
    max == 0 || n < max
}

/// The entries after adding each of `new` in turn under the limit `max`:
/// an entry is kept while fewer than `max` are collected.
pub open spec fn appended(s: Seq<ErrorView>, new: Seq<ErrorView>, max: usize) -> Seq<ErrorView>
    decreases new.len(),
{
    if new.len() == 0 {
        s
    } else {
        let a = appended(s, new.drop_last(), max);
        if collects(a.len(), max) {
            a.push(new.last())
        } else {
            a
        }
    }
}

/// The state a validator starts in: no open element and one empty
/// namespace scope.
pub open spec fn initial_state(s: ValidationState) -> bool {
    &&& s.element_stack@.len() == 0
    &&& s.depth == 0
    &&& s.namespace_stack@.len() == 1
    &&& bindings_of(s.namespace_stack@[0]).len() == 0
}

/// An error-level entry made while `path` is open, at `line`.
pub open spec fn stream_error(
    line: Option<usize>,
    path: Seq<char>,
    t: ValidationErrorType,
    message: Seq<char>,
    node_name: Seq<char>,
    expected: Option<Seq<char>>,
    found: Option<Seq<char>>,
) -> ErrorView {
    ErrorView {
        error_type: t,
        message,
        level: ErrorLevel::Error,
        line,
        column: None,
        node_name: Some(node_name),
        expected,
        found,
        count: 1,
        element_path: Some(path),
        more_positions: Seq::empty(),
    }
}

/// Streaming schema validator.
///
/// Validates XML documents against a schema during streaming parsing.
pub struct StreamingSchemaValidator {
    /// The compiled schema.
    pub schema: Arc<CompiledSchema>,
    /// The open elements and namespace scopes.
    pub state: ValidationState,
    /// Collected entries.
    pub errors: Vec<StructuredError>,
    /// Line of the most recent start tag, when the producer gave one.
    pub current_line: Option<usize>,
    /// Validation mode (strict or lenient).
    pub mode: ValidationMode,
    /// Maximum number of entries to collect (0 = unlimited).
    pub max_errors: usize,
}

impl StreamingSchemaValidator {
    /// The schema, as a value.
    pub open spec fn sch(&self) -> CompiledSchema {
        *self.schema
    }

    /// Creates a new streaming validator in strict mode.
    pub fn new(schema: Arc<CompiledSchema>) -> (v: Self)
        ensures
            v.schema == schema,
            initial_state(v.state),
            v.errors@.len() == 0,
            v.current_line is None,
            v.mode == ValidationMode::Strict,
            v.max_errors == 0,
    {
        StreamingSchemaValidator {
            schema,
            state: ValidationState::new(),
            errors: Vec::new(),
            current_line: None,
            mode: ValidationMode::Strict,
            max_errors: 0,
        }
    }

    /// Creates a new streaming validator with the given mode.
    pub fn with_mode(schema: Arc<CompiledSchema>, mode: ValidationMode) -> (v: Self)
        ensures
            v.schema == schema,
            initial_state(v.state),
            v.errors@.len() == 0,
            v.current_line is None,
            v.mode == mode,
            v.max_errors == 0,
    {
        let v = Self::new(schema);
        StreamingSchemaValidator { mode, ..v }
    }

    /// Sets the maximum number of entries to collect (0 = unlimited).
    pub fn set_max_errors(&mut self, max: usize)
        ensures
            *final(self) == (StreamingSchemaValidator { max_errors: max, ..*old(self) }),
    {
        self.max_errors = max;
    }

    /// All collected entries.
    pub fn errors(&self) -> (r: &[StructuredError])
        ensures
            r@ == self.errors@,
    {
        self.errors.as_slice()
    }

    /// Only the error-level entries.
    pub fn errors_only(&self) -> (r: Vec<&StructuredError>)
        ensures
            deref_entries(r@) == errors_in(self.errors@),
    {
        error_entries(self.errors.as_slice())
    }

    /// Only the warning-level entries.
    pub fn warnings(&self) -> (r: Vec<&StructuredError>)
        ensures
            deref_entries(r@) == warnings_in(self.errors@),
    {
        warning_entries(self.errors.as_slice())
    }

    /// Takes ownership of the collected entries.
    pub fn into_errors(self) -> (r: Vec<StructuredError>)
        ensures
            r@ == self.errors@,
    {
        self.errors
    }

    /// True if no error-level entry was collected (warnings are allowed).
    pub fn is_valid(&self) -> (r: bool)
        ensures
            r == (errors_in(self.errors@).len() == 0),
    {
        count_errors(self.errors.as_slice()) == 0
    }

    /// True if nothing was collected.
    pub fn is_clean(&self) -> (r: bool)
        ensures
            r == (self.errors@.len() == 0),
    {
        self.errors.len() == 0
    }

    /// Number of error-level entries.
    pub fn error_count(&self) -> (r: usize)
        ensures
            r == errors_in(self.errors@).len(),
    {
        count_errors(self.errors.as_slice())
    }

    /// Number of warning-level entries.
    pub fn warning_count(&self) -> (r: usize)
        ensures
            r == warnings_in(self.errors@).len(),
    {
        count_warnings(self.errors.as_slice())
    }

    /// Whether another entry is kept.
    fn should_collect_more(&self) -> (r: bool)
        ensures
            r == collects(self.errors@.len(), self.max_errors),
    {
        self.max_errors == 0 || self.errors.len() < self.max_errors
    }

    /// Records an entry unless the limit is reached.
    pub fn add_error(&mut self, error: StructuredError)
        ensures
            final(self).errors@ == if collects(old(self).errors@.len(), old(self).max_errors) {
                old(self).errors@.push(error)
            } else {
                old(self).errors@
            },
            *final(self) == (StreamingSchemaValidator { errors: final(self).errors, ..*old(self) }),
    {
        if self.should_collect_more() {
            self.errors.push(error);
        }
    }

    /// An error-level entry at the current line, with the path of the open
    /// elements.
    pub fn make_error(&self, error_type: ValidationErrorType, message: String) -> (e:
        StructuredError)
        ensures
            e.message == message,
            e.error_type == error_type,
            e.level == ErrorLevel::Error,
            e.line == self.current_line,
            e.column is None,
            e.node_name is None,
            e.expected is None,
            e.found is None,
            e.count == 1,
            e.element_path matches Some(p) && p@ == self.state.path_view(),
            e.more_positions@ == Seq::<(Option<usize>, Option<usize>)>::empty(),
    {
        let mut error = StructuredError::new(message, error_type);
        if let Some(line) = self.current_line {
            error = error.with_line(line);
        }
        error.with_element_path(self.state.element_path())
    }

    /// Looks up a global element declaration: by the qualified name, then by
    /// the local name.
    pub fn lookup_element(&self, name: &str, qname: &str) -> (r: Option<&ElementDef>)
        ensures
            match r {
                Some(e) => declared(self.sch(), name@, qname@) == Some(*e),
                None => declared(self.sch(), name@, qname@) is None,
            },
    {
        match self.schema.get_element(qname) {
            Some(e) => Some(e),
            None => self.schema.get_element(name),
        }
    }
}

/// The global declaration under `qname`, else under `name`.
pub open spec fn declared(schema: CompiledSchema, name: Seq<char>, qname: Seq<char>) -> Option<
    ElementDef,
> {
    match schema.elements.lookup(qname) {
        Some(e) => Some(e),
        None => schema.elements.lookup(name),
    }
}

/// The prefixed keys of a group table whose local part is `local`, in
/// table order.
pub open spec fn prefixed_keys(entries: Seq<(String, Vec<String>)>, local: Seq<char>) -> Seq<
    Seq<char>,
>
    decreases entries.len(),
{
    if entries.len() == 0 {
        Seq::empty()
    } else {
        let rest = prefixed_keys(entries.drop_last(), local);
        let k = entries.last().0@;
        if has_colon(k) && after_first_colon(k) == local {
            rest.push(k)
        } else {
            rest
        }
    }
}

/// The names a head is looked up under: the name itself, then its local
/// part when it is prefixed, or every prefixed group key with that local
/// part when it is not.
pub open spec fn name_variants(schema: CompiledSchema, x: Seq<char>) -> Seq<Seq<char>> {
    seq![x] + if has_colon(x) {
        seq![after_first_colon(x)]
    } else {
        prefixed_keys(schema.substitution_groups.entries@, x)
    }
}

/// The direct members listed under the given head names, in order.
pub open spec fn direct_members(schema: CompiledSchema, vs: Seq<Seq<char>>) -> Seq<String>
    decreases vs.len(),
{
    if vs.len() == 0 {
        Seq::empty()
    } else {
        direct_members(schema, vs.drop_last()) + match schema.substitution_groups.lookup(
            vs.last(),
        ) {
            Some(ms) => ms@,
            None => Seq::empty(),
        }
    }
}

/// Every member name of a group table, in table order.
pub open spec fn all_members(entries: Seq<(String, Vec<String>)>) -> Seq<Seq<char>>
    decreases entries.len(),
{
    if entries.len() == 0 {
        Seq::empty()
    } else {
        all_members(entries.drop_last()) + names_view(entries.last().1@)
    }
}

/// Every member listed under entry `i` is among all members.
pub proof fn lemma_entry_members(entries: Seq<(String, Vec<String>)>, i: int, t: int)
    requires
        0 <= i < entries.len(),
        0 <= t < entries[i].1@.len(),
    ensures
        all_members(entries).contains(entries[i].1@[t]@),
    decreases entries.len(),
{
    let d = entries.drop_last();
    let tail = names_view(entries.last().1@);
    assert(all_members(entries) == all_members(d) + tail);
    if i == entries.len() - 1 {
        assert((all_members(d) + tail)[all_members(d).len() + t] == tail[t]);
    } else {
        lemma_entry_members(d, i, t);
        let w = choose|w: int| 0 <= w < all_members(d).len() && all_members(d)[w] == d[i].1@[t]@;
        assert((all_members(d) + tail)[w] == all_members(d)[w]);
    }
}

/// The direct members of any names are among all members.
pub proof fn lemma_direct_in(schema: CompiledSchema, vs: Seq<Seq<char>>)
    ensures
        forall|t: int|
            0 <= t < direct_members(schema, vs).len() ==> all_members(
                schema.substitution_groups.entries@,
            ).contains(#[trigger] direct_members(schema, vs)[t]@),
    decreases vs.len(),
{
    if vs.len() > 0 {
        let entries = schema.substitution_groups.entries@;
        lemma_direct_in(schema, vs.drop_last());
        let a = direct_members(schema, vs.drop_last());
        let b = match schema.substitution_groups.lookup(vs.last()) {
            Some(ms) => ms@,
            None => Seq::empty(),
        };
        assert(direct_members(schema, vs) == a + b);
        assert forall|t: int| 0 <= t < (a + b).len() implies all_members(entries).contains(
            #[trigger] (a + b)[t]@,
        ) by {
            if t < a.len() {
                assert((a + b)[t] == a[t]);
            } else {
                let k = vs.last();
                let i = choose|i: int| crate::namemap::last_key_at(entries, k, i);
                assert(b == entries[i].1@);
                lemma_entry_members(entries, i, t - a.len());
            }
        }
    }
}

/// Every one of `items` is listed in `acc` (by name).
pub open spec fn listed(acc: Seq<String>, items: Seq<String>) -> bool {
    forall|t: int| 0 <= t < items.len() ==> names_view(acc).contains(#[trigger] items[t]@)
}

/// No name is listed twice.
pub open spec fn distinct_names(acc: Seq<String>) -> bool {
    forall|i: int, j: int| 0 <= i < j < acc.len() ==> #[trigger] acc[i]@ != #[trigger] acc[j]@
}

/// The member at position `k` is a direct member of the head, or of a
/// member listed before it.
pub open spec fn found_from(schema: CompiledSchema, head: Seq<char>, acc: Seq<String>, k: int) -> bool {
    ||| names_view(direct_members(schema, name_variants(schema, head))).contains(acc[k]@)
    ||| exists|j: int|
        0 <= j < k && names_view(direct_members(schema, name_variants(schema, #[trigger] acc[j]@))).contains(
            acc[k]@,
        )
}

/// The first group (in table order) listing `name` as a member.
pub open spec fn group_containing(entries: Seq<(String, Vec<String>)>, name: Seq<char>) -> Option<
    String,
>
    decreases entries.len(),
{
    if entries.len() == 0 {
        None
    } else if names_view(entries[0].1@).contains(name) {
        Some(entries[0].0)
    } else {
        group_containing(entries.drop_first(), name)
    }
}

/// The substitution group head of an element: the group its declaration
/// names, else the first group listing it.
pub open spec fn subst_head(schema: CompiledSchema, name: Seq<char>) -> Option<String> {
    match schema.elements.lookup(name) {
        Some(e) => match e.substitution_group {
            Some(g) => Some(g),
            None => group_containing(schema.substitution_groups.entries@, name),
        },
        None => group_containing(schema.substitution_groups.entries@, name),
    }
}

/// The frames of an exec walk: each list from its position on.
pub open spec fn frames_of(lists: Seq<Vec<String>>, pos: Seq<usize>) -> Seq<Seq<String>> {
    Seq::new(lists.len(), |i: int| lists[i]@.skip(pos[i] as int))
}

/// The walk an exec state stands for.
pub open spec fn walk_state(members: Seq<String>, visited: Seq<String>, lists: Seq<Vec<String>>, pos: Seq<usize>) -> Walk {
    Walk { members, visited: names_view(visited), frames: frames_of(lists, pos) }
}

impl StreamingSchemaValidator {
    /// The names a head is looked up under.
    fn head_variants(&self, head: &str) -> (r: Vec<String>)
        ensures
            names_view(r@) == name_variants(self.sch(), head@),
    {
        let mut out: Vec<String> = Vec::new();
        out.push(String::from_str(head));
        match split_first_colon(head) {
            Some((_p, local)) => {
                out.push(local);
                assert(names_view(out@) =~= name_variants(self.sch(), head@));
            },
            None => {
                let entries = &self.schema.substitution_groups.entries;
                let mut k: usize = 0;
                assert(names_view(out@) =~= seq![head@] + prefixed_keys(entries@.take(0), head@));
                while k < entries.len()
                    invariant
                        k <= entries@.len(),
                        entries@ == self.sch().substitution_groups.entries@,
                        !has_colon(head@),
                        names_view(out@) == seq![head@] + prefixed_keys(entries@.take(k as int), head@),
                    decreases entries@.len() - k,
                {
                    let ghost prev = out@;
                    proof {
                        assert(entries@.take(k + 1).drop_last() =~= entries@.take(k as int));
                    }
                    match split_first_colon(entries[k].0.as_str()) {
                        Some((_p, local)) => {
                            if str_eq(local.as_str(), head) {
                                out.push(entries[k].0.clone());
                                assert(names_view(out@) =~= names_view(prev).push(entries@[k as int].0@));
                            }
                        },
                        None => {},
                    }
                    k = k + 1;
                }
                assert(entries@.take(entries@.len() as int) =~= entries@);
            },
        }
        out
    }

    /// The direct members of `x`, under every name it is looked up under,
    /// in order.
    fn direct_list(&self, x: &str) -> (r: Vec<String>)
        ensures
            r@ == direct_of(self.sch(), x@),
    {
        let vs = self.head_variants(x);
        let ghost vv = names_view(vs@);
        let mut acc: Vec<String> = Vec::new();
        let mut k: usize = 0;
        assert(vv.take(0) =~= Seq::<Seq<char>>::empty());
        while k < vs.len()
            invariant
                k <= vs@.len(),
                vv == names_view(vs@),
                acc@ == direct_members(self.sch(), vv.take(k as int)),
            decreases vs@.len() - k,
        {
            let ghost before = acc@;
            proof {
                assert(vv.take(k + 1).drop_last() =~= vv.take(k as int));
                assert(vv.take(k + 1).last() == vs@[k as int]@);
            }
            match self.schema.substitution_groups.get(vs[k].as_str()) {
                Some(ms) => {
                    let mut t: usize = 0;
                    assert(before + ms@.take(0) =~= before);
                    while t < ms.len()
                        invariant
                            t <= ms@.len(),
                            acc@ == before + ms@.take(t as int),
                        decreases ms@.len() - t,
                    {
                        acc.push(ms[t].clone());
                        assert(before + ms@.take(t + 1) =~= (before + ms@.take(t as int)).push(ms@[t as int]));
                        t = t + 1;
                    }
                    assert(ms@.take(ms@.len() as int) =~= ms@);
                },
                None => {
                    assert(before + Seq::<String>::empty() =~= before);
                },
            }
            k = k + 1;
        }
        assert(vv.take(vv.len() as int) =~= vv);
        acc
    }

    /// Gets all substitution group members for a head element, including
    /// transitive members: a member that heads a group brings its members,
    /// found depth first. A prefixed name also finds the groups of its local
    /// part, and an unprefixed one those of prefixed keys with that local
    /// part.
    pub fn get_all_substitution_members(&self, head_name: &str) -> (r: Vec<String>)
        ensures
            r@ == members_list(self.sch(), head_name@),
    {
        let ghost u = all_members(self.sch().substitution_groups.entries@);
        let mut members: Vec<String> = Vec::new();
        let mut visited: Vec<String> = Vec::new();
        visited.push(String::from_str(head_name));
        let mut lists: Vec<Vec<String>> = Vec::new();
        let mut pos: Vec<usize> = Vec::new();
        lists.push(self.direct_list(head_name));
        pos.push(0);
        proof {
            lemma_start_ok(self.sch(), head_name@);
            assert(names_view(visited@) =~= seq![head_name@]);
            assert(frames_of(lists@, pos@) =~= seq![direct_of(self.sch(), head_name@)]) by {
                assert(lists@[0]@.skip(0) =~= lists@[0]@);
            }
            assert(walk_state(members@, visited@, lists@, pos@) == start_walk(self.sch(), head_name@));
        }
        while lists.len() > 0
            invariant
                lists@.len() == pos@.len(),
                forall|i: int| 0 <= i < lists@.len() ==> #[trigger] pos@[i] <= lists@[i]@.len(),
                u == all_members(self.sch().substitution_groups.entries@),
                walk_ok(self.sch(), walk_state(members@, visited@, lists@, pos@)),
                walk(self.sch(), walk_state(members@, visited@, lists@, pos@)) == members_list(
                    self.sch(),
                    head_name@,
                ),
            decreases unvisited(u, names_view(visited@)), pending(frames_of(lists@, pos@)), lists@.len(),
        {
            let ghost w = walk_state(members@, visited@, lists@, pos@);
            proof {
                lemma_step_decreases(self.sch(), w);
                lemma_step_ok(self.sch(), w);
            }
            let top = lists.len() - 1;
            let p = pos[top];
            if p >= lists[top].len() {
                lists.pop();
                pos.pop();
                proof {
                    assert(frames_of(lists@, pos@) =~= w.frames.drop_last()) by {
                        assert forall|i: int| 0 <= i < lists@.len() implies frames_of(lists@, pos@)[i]
                            == w.frames.drop_last()[i] by {}
                    }
                    assert(w.frames.last() =~= Seq::<String>::empty());
                }
            } else {
                let m = lists[top][p].clone();
                let ghost lists0 = lists@;
                let ghost pos0 = pos@;
                pos.set(top, p + 1);
                proof {
                    assert(w.frames.last()[0] == m) by {
                        assert(w.frames[top as int] == lists0[top as int]@.skip(p as int));
                    }
                    assert(frames_of(lists@, pos@) =~= w.frames.drop_last().push(w.frames.last().drop_first())) by {
                        assert forall|i: int| 0 <= i < lists@.len() implies frames_of(lists@, pos@)[i]
                            =~= w.frames.drop_last().push(w.frames.last().drop_first())[i] by {
                            if i == top {
                                assert(lists0[i]@.skip(p + 1) =~= lists0[i]@.skip(p as int).drop_first());
                            }
                        }
                    }
                }
                if !contains_name(&members, m.as_str()) {
                    members.push(m.clone());
                }
                if !contains_name(&visited, m.as_str()) {
                    visited.push(m.clone());
                    let d = self.direct_list(m.as_str());
                    let ghost lists1 = lists@;
                    let ghost pos1 = pos@;
                    lists.push(d);
                    pos.push(0);
                    proof {
                        assert(names_view(visited@) =~= w.visited.push(m@));
                        assert(frames_of(lists@, pos@) =~= frames_of(lists1, pos1).push(direct_of(self.sch(), m@))) by {
                            assert(lists@[lists1.len() as int]@.skip(0) =~= lists@[lists1.len() as int]@);
                            assert forall|i: int| 0 <= i < lists1.len() implies frames_of(lists@, pos@)[i]
                                == frames_of(lists1, pos1)[i] by {}
                        }
                    }
                } else {
                    proof {
                        assert(w.visited.contains(m@));
                    }
                }
                proof {
                    assert(members@ == walk_step(self.sch(), w).members);
                }
            }
            proof {
                assert(walk_state(members@, visited@, lists@, pos@) == walk_step(self.sch(), w));
            }
        }
        proof {
            assert(frames_of(lists@, pos@).len() == 0);
        }
        members
    }

    /// Finds the substitution group head of an element.
    pub fn find_substitution_group_head(&self, element_name: &str) -> (r: Option<String>)
        ensures
            r == subst_head(self.sch(), element_name@),
    {
        if let Some(elem) = self.schema.get_element(element_name) {
            if let Some(sg) = &elem.substitution_group {
                return Some(sg.clone());
            }
        }
        let entries = &self.schema.substitution_groups.entries;
        let mut k: usize = 0;
        assert(entries@.skip(0) =~= entries@);
        while k < entries.len()
            invariant
                k <= entries@.len(),
                entries@ == self.sch().substitution_groups.entries@,
                subst_head(self.sch(), element_name@) == group_containing(entries@, element_name@),
                group_containing(entries@, element_name@) == group_containing(
                    entries@.skip(k as int),
                    element_name@,
                ),
            decreases entries@.len() - k,
        {
            proof {
                assert(entries@.skip(k as int)[0] == entries@[k as int]);
                assert(entries@.skip(k as int).drop_first() =~= entries@.skip(k + 1));
            }
            if contains_name(&entries[k].1, element_name) {
                return Some(entries[k].0.clone());
            }
            k = k + 1;
        }
        None
    }
}

/// A child table with no entries.
pub open spec fn no_children() -> FlatView {
    FlatView { model: ContentModelType::Empty, entries: Seq::empty(), ordered: Seq::empty() }
}

/// The child table of a declaration's type: computed for a complex type,
/// empty otherwise.
pub open spec fn decl_table(schema: CompiledSchema, e: ElementDef) -> FlatView {
    match elem_type(schema, e) {
        Some(TypeDef::Complex(c)) => computed_view(schema, c),
        _ => no_children(),
    }
}

/// The first declaration named `name` among `es`.
pub open spec fn first_decl(es: Seq<ElementDef>, name: Seq<char>) -> Option<ElementDef>
    decreases es.len(),
{
    if es.len() == 0 {
        None
    } else if es[0].name@ == name {
        Some(es[0])
    } else {
        first_decl(es.drop_first(), name)
    }
}

/// What the global declaration of `parent` says of a child named `name`:
/// the child's named type and child table (none and empty when the
/// parent's type declares no such child).
pub open spec fn inline_info(schema: CompiledSchema, parent: Seq<char>, name: Seq<char>) -> (
    Option<String>,
    FlatView,
) {
    match schema.elements.lookup(parent) {
        Some(pe) => match elem_type(schema, pe) {
            Some(TypeDef::Complex(c)) => match first_decl(
                collect_elems(schema, c.content, Seq::empty()),
                name,
            ) {
                Some(e) => (e.type_ref, decl_table(schema, e)),
                None => (None, no_children()),
            },
            _ => (None, no_children()),
        },
        None => (None, no_children()),
    }
}

/// [`inline_info`] for the parent of the innermost open element.
pub open spec fn inline_info_at(schema: CompiledSchema, stack: Seq<ElementContext>, name: Seq<char>) -> (
    Option<String>,
    FlatView,
) {
    if stack.len() < 2 {
        (None, no_children())
    } else {
        inline_info(schema, stack[stack.len() - 2].name@, name)
    }
}

/// The parent of the innermost open element lists a child named `name`.
pub open spec fn expected_by_parent(stack: Seq<ElementContext>, name: Seq<char>) -> bool {
    stack.len() >= 2 && match opt_arc_view(stack[stack.len() - 2].flattened_children) {
        Some(f) => lookup_entries(f.entries, name) is Some,
        None => false,
    }
}

/// The sum of the child totals of the listed names.
pub open spec fn members_total(c: Seq<(Seq<char>, u32)>, ms: Seq<String>) -> int
    decreases ms.len(),
{
    if ms.len() == 0 {
        0
    } else {
        members_total(c, ms.drop_last()) + child_total(c, ms.last()@)
    }
}

/// Occurrences of `name` among an element's children: the name as written,
/// its local part when prefixed, and every transitive substitution group
/// member.
pub open spec fn occurrences(schema: CompiledSchema, ctx: ElementContext, name: Seq<char>) -> int {
    let c = counts_of(ctx.child_counts);
    child_total(c, name) + (if has_colon(name) {
        child_total(c, after_first_colon(name))
    } else {
        0
    }) + members_total(c, members_list(schema, name))
}

/// Totals are never negative.
pub proof fn lemma_members_total_nonneg(c: Seq<(Seq<char>, u32)>, ms: Seq<String>)
    ensures
        members_total(c, ms) >= 0,
    decreases ms.len(),
{
    if ms.len() > 0 {
        lemma_members_total_nonneg(c, ms.drop_last());
        lemma_child_total_nonneg(c, ms.last()@);
    }
}

/// Occurrence counts are never negative.
pub proof fn lemma_occurrences_nonneg(schema: CompiledSchema, ctx: ElementContext, name: Seq<char>)
    ensures
        occurrences(schema, ctx, name) >= 0,
{
    let c = counts_of(ctx.child_counts);
    lemma_child_total_nonneg(c, name);
    lemma_child_total_nonneg(c, after_first_colon(name));
    lemma_members_total_nonneg(c, members_list(schema, name));
}

/// Adding one entry under the limit, seen through the entry views.
pub proof fn lemma_add_one(errs: Seq<StructuredError>, e: StructuredError, max: usize)
    ensures
        errors_view(
            if collects(errs.len(), max) {
                errs.push(e)
            } else {
                errs
            },
        ) == appended(errors_view(errs), seq![view_error(e)], max),
{
    assert(seq![view_error(e)].drop_last() =~= Seq::<ErrorView>::empty());
    assert(appended(errors_view(errs), Seq::<ErrorView>::empty(), max) == errors_view(errs));
    assert(errors_view(errs.push(e)) =~= errors_view(errs).push(view_error(e)));
}

/// The entry a max-occurs check adds when the innermost open element is
/// one too many under its parent: the bound is looked up under the
/// element's substitution group head (or its own name), and the count
/// includes the head's substitutes.
pub open spec fn max_occurs_errors(
    schema: CompiledSchema,
    line: Option<usize>,
    stack: Seq<ElementContext>,
    child: Seq<char>,
) -> Seq<ErrorView> {
    if stack.len() < 2 {
        Seq::empty()
    } else {
        let parent = stack[stack.len() - 2];
        let cname = match subst_head(schema, child) {
            Some(h) => h@,
            None => child,
        };
        match opt_arc_view(parent.flattened_children) {
            Some(f) => match lookup_entries(f.entries, cname) {
                Some((_, Some(max))) => {
                    let total = occurrences(schema, parent, cname);
                    if total > max {
                        seq![
                            stream_error(
                                line,
                                stack_path(stack),
                                ValidationErrorType::TooManyOccurrences,
                                "element '"@ + cname + "' (or substitutes) occurs "@ + dec(
                                    sat(total) as nat,
                                ) + " times, but maximum is "@ + dec(max as nat),
                                child,
                                None,
                                None,
                            ),
                        ]
                    } else {
                        Seq::empty()
                    }
                },
                _ => Seq::empty(),
            },
            None => Seq::empty(),
        }
    }
}

/// A context after schema information was attached to it.
pub open spec fn typed(c: ElementContext, c0: ElementContext, type_ref: Option<String>, t: FlatView) -> bool {
    &&& c == (ElementContext {
        schema_validated: true,
        type_ref,
        flattened_children: c.flattened_children,
        ..c0
    })
    &&& c.flattened_children matches Some(a) && flat_view(*a) == t && a.wildcard is None
}

impl StreamingSchemaValidator {
    /// Collects the element declarations of a complex type, inherited ones
    /// first.
    pub fn collect_elements_with_inheritance<'s>(
        &'s self,
        complex: &'s ComplexType,
        visited: &mut Vec<String>,
    ) -> (r: Vec<&'s ElementDef>)
        ensures
            deref_elems(r@) == collect_elems(self.sch(), complex.content, names_view(old(visited)@)),
    {
        collect_elements_in(&*self.schema, complex, visited)
    }

    /// The child table of a complex type, inherited children included.
    pub fn extract_child_constraints_from_complex(&self, complex: &ComplexType) -> (f:
        FlattenedChildren)
        ensures
            flat_view(f) == computed_view(self.sch(), *complex),
            f.wildcard is None,
    {
        flatten_complex(&*self.schema, complex)
    }

    /// The child table of a declaration's type (its named type, or its
    /// anonymous type when it names none).
    pub fn get_child_constraints_for_element(&self, elem: &ElementDef) -> (f: FlattenedChildren)
        ensures
            flat_view(f) == decl_table(self.sch(), *elem),
            f.wildcard is None,
    {
        let type_def: Option<&TypeDef> = match &elem.type_ref {
            Some(t) => self.schema.get_type(t.as_str()),
            None => match &elem.inline_type {
                Some(b) => Some(&**b),
                None => None,
            },
        };
        match type_def {
            Some(TypeDef::Complex(complex)) => self.extract_child_constraints_from_complex(complex),
            _ => {
                let f = FlattenedChildren::with_content_model(ContentModelType::Empty);
                assert(flat_view(f) =~= no_children());
                f
            },
        }
    }

    /// What the parent of the innermost open element declares of a child
    /// named `name`: its named type and child table.
    pub fn get_inline_element_info(&self, name: &str) -> (r: (Option<String>, FlattenedChildren))
        ensures
            (r.0, flat_view(r.1)) == inline_info_at(self.sch(), self.state.element_stack@, name@),
            r.1.wildcard is None,
    {
        let n = self.state.element_stack.len();
        let empty = FlattenedChildren::with_content_model(ContentModelType::Empty);
        assert(flat_view(empty) =~= no_children());
        if n < 2 {
            return (None, empty);
        }
        let parent_name: &str = self.state.element_stack[n - 2].name.as_str();
        assert(parent_name@ == self.state.element_stack@[n - 2].name@);
        let parent_elem = match self.schema.get_element(parent_name) {
            Some(e) => e,
            None => return (None, empty),
        };
        let type_def: Option<&TypeDef> = match &parent_elem.type_ref {
            Some(t) => self.schema.get_type(t.as_str()),
            None => match &parent_elem.inline_type {
                Some(b) => Some(&**b),
                None => None,
            },
        };
        let complex = match type_def {
            Some(TypeDef::Complex(c)) => c,
            _ => return (None, empty),
        };
        assert(elem_type(self.sch(), *parent_elem) == Some(TypeDef::Complex(*complex)));
        let mut visited: Vec<String> = Vec::new();
        assert(names_view(visited@) =~= Seq::<Seq<char>>::empty());
        let elements = self.collect_elements_with_inheritance(complex, &mut visited);
        let ghost es = deref_elems(elements@);
        assert(es == collect_elems(self.sch(), complex.content, Seq::empty()));
        let ghost target = inline_info_at(self.sch(), self.state.element_stack@, name@);
        assert(target == match first_decl(es, name@) {
            Some(e) => (e.type_ref, decl_table(self.sch(), e)),
            None => (None, no_children()),
        });
        let mut i: usize = 0;
        assert(es.skip(0) =~= es);
        while i < elements.len()
            invariant
                i <= elements@.len(),
                es == deref_elems(elements@),
                target == inline_info_at(self.sch(), self.state.element_stack@, name@),
                target == match first_decl(es, name@) {
                    Some(e) => (e.type_ref, decl_table(self.sch(), e)),
                    None => (None, no_children()),
                },
                first_decl(es, name@) == first_decl(es.skip(i as int), name@),
            decreases elements@.len() - i,
        {
            let e = elements[i];
            proof {
                assert(es.skip(i as int)[0] == *e);
                assert(es.skip(i as int).drop_first() =~= es.skip(i + 1));
            }
            if str_eq(e.name.as_str(), name) {
                let tr: Option<String> = match &e.type_ref {
                    Some(t) => Some(t.clone()),
                    None => None,
                };
                assert(first_decl(es, name@) == Some(*e));
                assert(tr == e.type_ref);
                let t = self.get_child_constraints_for_element(e);
                return (tr, t);
            }
            i = i + 1;
        }
        proof {
            assert(es.skip(i as int) =~= Seq::<ElementDef>::empty());
        }
        (None, empty)
    }

    /// Whether the parent of the innermost open element lists a child named
    /// `name`.
    pub fn is_element_expected_by_parent(&self, name: &str) -> (r: bool)
        ensures
            r == expected_by_parent(self.state.element_stack@, name@),
    {
        let n = self.state.element_stack.len();
        if n < 2 {
            return false;
        }
        self.state.element_stack[n - 2].expects_child(name)
    }

    /// Occurrences of `name` among the children of `ctx` (saturated at
    /// `u64::MAX`).
    pub fn count_occurrences(&self, ctx: &ElementContext, name: &str) -> (r: u64)
        ensures
            r == sat(occurrences(self.sch(), *ctx, name@)),
    {
        let ghost c = counts_of(ctx.child_counts);
        let mut total: u64 = ctx.saturating_child_count(name);
        let ghost mut exact: int = child_total(c, name@);
        proof {
            lemma_child_total_nonneg(c, name@);
        }
        match split_first_colon(name) {
            Some((_p, local)) => {
                total = total.saturating_add(ctx.saturating_child_count(local.as_str()));
                proof {
                    lemma_child_total_nonneg(c, local@);
                    exact = exact + child_total(c, local@);
                }
            },
            None => {},
        }
        let members = self.get_all_substitution_members(name);
        let mut i: usize = 0;
        while i < members.len()
            invariant
                i <= members@.len(),
                c == counts_of(ctx.child_counts),
                exact == child_total(c, name@) + (if has_colon(name@) {
                    child_total(c, after_first_colon(name@))
                } else {
                    0
                }) + members_total(c, members@.take(i as int)),
                exact >= 0,
                total == sat(exact),
            decreases members@.len() - i,
        {
            proof {
                assert(members@.take(i + 1).drop_last() =~= members@.take(i as int));
                lemma_child_total_nonneg(c, members@[i as int]@);
                exact = exact + child_total(c, members@[i as int]@);
            }
            total = total.saturating_add(ctx.saturating_child_count(members[i].as_str()));
            i = i + 1;
        }
        proof {
            assert(members@.take(members@.len() as int) =~= members@);
        }
        total
    }

    /// Checks the maximum occurrence bound of the innermost open element
    /// under its parent.
    fn validate_max_occurs(&mut self, child_name: &str)
        ensures
            errors_view(final(self).errors@) == appended(
                errors_view(old(self).errors@),
                max_occurs_errors(
                    old(self).sch(),
                    old(self).current_line,
                    old(self).state.element_stack@,
                    child_name@,
                ),
                old(self).max_errors,
            ),
            *final(self) == (StreamingSchemaValidator { errors: final(self).errors, ..*old(self) }),
    {
        let ghost errs = max_occurs_errors(
            self.sch(),
            self.current_line,
            self.state.element_stack@,
            child_name@,
        );
        let n = self.state.element_stack.len();
        if n < 2 {
            return;
        }
        let head_name = self.find_substitution_group_head(child_name);
        let constraint_name: String = match head_name {
            Some(h) => h,
            None => String::from_str(child_name),
        };
        let ghost parent = self.state.element_stack@[n - 2];
        assert(constraint_name@ == match subst_head(self.sch(), child_name@) {
            Some(h) => h@,
            None => child_name@,
        });
        let bound = self.state.element_stack[n - 2].get_child_constraint(constraint_name.as_str());
        if let Some((_, Some(max))) = bound {
            let total = self.count_occurrences(
                &self.state.element_stack[n - 2],
                constraint_name.as_str(),
            );
            let ghost occ = occurrences(self.sch(), parent, constraint_name@);
            proof {
                lemma_occurrences_nonneg(self.sch(), parent, constraint_name@);
            }
            assert(total == sat(occ));
            if total > max as u64 {
                assert(occ > max);
                let mut msg = String::from_str("element '");
                msg.append(constraint_name.as_str());
                msg.append("' (or substitutes) occurs ");
                msg.append(decimal_string(total).as_str());
                msg.append(" times, but maximum is ");
                msg.append(decimal_string(max as u64).as_str());
                proof {
                    reveal_strlit("element '");
                    reveal_strlit("' (or substitutes) occurs ");
                    reveal_strlit(" times, but maximum is ");
                }
                let error = self.make_error(ValidationErrorType::TooManyOccurrences, msg)
                    .with_node_name(String::from_str(child_name))
                    .with_level(ErrorLevel::Error);
                proof {
                    assert(errs == seq![view_error(error)]);
                    lemma_add_one(self.errors@, error, self.max_errors);
                }
                self.add_error(error);
            } else {
                assert(!(occ > max));
                assert(errs =~= Seq::<ErrorView>::empty());
            }
        } else {
            assert(errs =~= Seq::<ErrorView>::empty());
        }
    }
}

/// The qualified name of a tag: `prefix:name` for a non-empty prefix.
pub open spec fn qualified(name: Seq<char>, prefix: Option<Seq<char>>) -> Seq<char> {
    match prefix {
        Some(p) => if p.len() > 0 {
            p + ":"@ + name
        } else {
            name
        },
        None => name,
    }
}

/// What the innermost open element is checked with: the named type and
/// child table of its global declaration, else those its parent's type
/// declares for it; `None` when the schema does not know it.
pub open spec fn resolved(
    schema: CompiledSchema,
    stack: Seq<ElementContext>,
    name: Seq<char>,
    qname: Seq<char>,
) -> Option<(Option<String>, FlatView)> {
    match declared(schema, name, qname) {
        Some(e) => Some((e.type_ref, decl_table(schema, e))),
        None => if expected_by_parent(stack, name) {
            Some(inline_info_at(schema, stack, name))
        } else {
            None
        },
    }
}

/// The entries a start tag adds once its element is open: a max-occurs
/// violation for a known element; for an unknown one, in strict mode and
/// with a schema that declares elements, an unknown-element entry.
pub open spec fn start_errors(
    schema: CompiledSchema,
    mode: ValidationMode,
    line: Option<usize>,
    stack: Seq<ElementContext>,
    name: Seq<char>,
    qname: Seq<char>,
) -> Seq<ErrorView> {
    match resolved(schema, stack, name, qname) {
        Some(_) => max_occurs_errors(schema, line, stack, name),
        None => if mode == ValidationMode::Strict && schema.elements.entries@.len() > 0 {
            seq![
                stream_error(
                    line,
                    stack_path(stack),
                    ValidationErrorType::UnknownElement,
                    "element '"@ + qname + "' is not declared in schema"@,
                    qname,
                    None,
                    None,
                ),
            ]
        } else {
            Seq::empty()
        },
    }
}

/// The qualified name of a tag.
pub fn qualified_name(name: &str, prefix: Option<&str>) -> (r: String)
    ensures
        r@ == qualified(name@, opt_chars(prefix)),
{
    match prefix {
        Some(p) => if p.unicode_len() > 0 {
            let mut q = String::from_str(p);
            q.append(":");
            q.append(name);
            proof {
                reveal_strlit(":");
            }
            q
        } else {
            String::from_str(name)
        },
        None => String::from_str(name),
    }
}

impl StreamingSchemaValidator {
    /// Checks a start tag once its element is open: resolves the element
    /// against the schema, records its type and child table, and checks its
    /// occurrence bound under the parent.
    fn validate_element(&mut self, name: &str, prefix: Option<&str>)
        requires
            old(self).state.element_stack@.len() > 0,
        ensures
            ({
                let q = qualified(name@, opt_chars(prefix));
                let stack = old(self).state.element_stack@;
                let n = stack.len();
                &&& errors_view(final(self).errors@) == appended(
                    errors_view(old(self).errors@),
                    start_errors(old(self).sch(), old(self).mode, old(self).current_line, stack, name@, q),
                    old(self).max_errors,
                )
                &&& final(self).state.element_stack@.len() == n
                &&& forall|i: int| 0 <= i < n - 1 ==> #[trigger] final(self).state.element_stack@[i] == stack[i]
                &&& match resolved(old(self).sch(), stack, name@, q) {
                    Some((tr, t)) => typed(final(self).state.element_stack@[n - 1], stack[n - 1], tr, t),
                    None => final(self).state.element_stack@[n - 1] == stack[n - 1],
                }
                &&& final(self).state.depth == old(self).state.depth
                &&& final(self).state.namespace_stack == old(self).state.namespace_stack
                &&& final(self).schema == old(self).schema
                &&& final(self).current_line == old(self).current_line
                &&& final(self).mode == old(self).mode
                &&& final(self).max_errors == old(self).max_errors
            }),
    {
        let q = qualified_name(name, prefix);
        let ghost stack = self.state.element_stack@;
        let ghost errs = start_errors(self.sch(), self.mode, self.current_line, stack, name@, q@);
        let expected = self.is_element_expected_by_parent(name);
        let schema_has_elements = !self.schema.elements.is_empty();
        let info: Option<(Option<String>, FlattenedChildren)> = match self.lookup_element(
            name,
            q.as_str(),
        ) {
            Some(elem) => {
                let tr: Option<String> = match &elem.type_ref {
                    Some(t) => Some(t.clone()),
                    None => None,
                };
                Some((tr, self.get_child_constraints_for_element(elem)))
            },
            None => if expected {
                Some(self.get_inline_element_info(name))
            } else {
                None
            },
        };
        match info {
            Some((type_ref, table)) => {
                self.validate_max_occurs(name);
                let ghost mid = self.state.element_stack@;
                match self.state.current_element_mut() {
                    Some(ctx) => {
                        ctx.schema_validated = true;
                        ctx.type_ref = type_ref;
                        ctx.flattened_children = Some(Arc::new(table));
                    },
                    None => {},
                }
            },
            None => {
                if self.mode == ValidationMode::Strict && schema_has_elements {
                    let mut msg = String::from_str("element '");
                    msg.append(q.as_str());
                    msg.append("' is not declared in schema");
                    proof {
                        reveal_strlit("element '");
                        reveal_strlit("' is not declared in schema");
                    }
                    let error = self.make_error(ValidationErrorType::UnknownElement, msg)
                        .with_node_name(q)
                        .with_level(ErrorLevel::Error);
                    proof {
                        assert(errs == seq![view_error(error)]);
                        lemma_add_one(self.errors@, error, self.max_errors);
                    }
                    self.add_error(error);
                } else {
                    proof {
                        assert(errs =~= Seq::<ErrorView>::empty());
                        assert(appended(errors_view(self.errors@), errs, self.max_errors) == errors_view(self.errors@));
                    }
                }
            },
        }
    }
}

/// The anonymous type the schema gives an element named `name`: that of
/// its global declaration, else that of the declaration the type of the
/// innermost open element's parent makes for it.
pub open spec fn element_inline_type(
    schema: CompiledSchema,
    stack: Seq<ElementContext>,
    name: Seq<char>,
) -> Option<TypeDef> {
    let global = match schema.elements.lookup(name) {
        Some(e) => match e.inline_type {
            Some(b) => Some(*b),
            None => None,
        },
        None => None,
    };
    match global {
        Some(t) => Some(t),
        None => if stack.len() < 2 {
            None
        } else {
            match schema.elements.lookup(stack[stack.len() - 2].name@) {
                Some(pe) => match elem_type(schema, pe) {
                    Some(TypeDef::Complex(c)) => match first_decl(
                        collect_elems(schema, c.content, Seq::empty()),
                        name,
                    ) {
                        Some(e) => match e.inline_type {
                            Some(b) => Some(*b),
                            None => None,
                        },
                        None => None,
                    },
                    _ => None,
                },
                None => None,
            }
        },
    }
}

/// The entry for text that violates a simple type's facets.
pub open spec fn facet_errors(
    line: Option<usize>,
    stack: Seq<ElementContext>,
    ctx: ElementContext,
    s: SimpleType,
) -> Seq<ErrorView> {
    match simple_violation(s, ctx.text_content@) {
        Some(m) => seq![
            stream_error(
                line,
                stack_path(stack),
                ValidationErrorType::InvalidContent,
                "invalid content for element '"@ + ctx.name@ + "': "@ + m,
                ctx.name@,
                None,
                None,
            ),
        ],
        None => Seq::empty(),
    }
}

/// The entries for an element's text against a type: simple types (directly
/// or as simple content) check their facets; other non-mixed complex types
/// allow only whitespace.
pub open spec fn typedef_errors(
    schema: CompiledSchema,
    line: Option<usize>,
    stack: Seq<ElementContext>,
    ctx: ElementContext,
    td: TypeDef,
) -> Seq<ErrorView> {
    match td {
        TypeDef::Simple(s) => facet_errors(line, stack, ctx, s),
        TypeDef::Complex(c) => match c.content {
            ContentModel::SimpleContent { base_type } => match schema.types.lookup(base_type@) {
                Some(TypeDef::Simple(s)) => facet_errors(line, stack, ctx, s),
                _ => Seq::empty(),
            },
            _ => if !c.mixed && !blank(ctx.text_content@) {
                seq![
                    stream_error(
                        line,
                        stack_path(stack),
                        ValidationErrorType::InvalidContent,
                        "element '"@ + ctx.name@ + "' has element-only content but contains text"@,
                        ctx.name@,
                        None,
                        None,
                    ),
                ]
            } else {
                Seq::empty()
            },
        },
    }
}

/// The entries for the text of a closed element (none without text): it is
/// checked against its named type when that is defined, else against the
/// anonymous type the schema gives it.
pub open spec fn end_text_errors(
    schema: CompiledSchema,
    line: Option<usize>,
    stack: Seq<ElementContext>,
    ctx: ElementContext,
) -> Seq<ErrorView> {
    if ctx.text_content@.len() == 0 {
        Seq::empty()
    } else {
        let named = match ctx.type_ref {
            Some(t) => schema.types.lookup(t@),
            None => None,
        };
        match named {
            Some(td) => typedef_errors(schema, line, stack, ctx, td),
            None => match element_inline_type(schema, stack, ctx.name@) {
                Some(td) => typedef_errors(schema, line, stack, ctx, td),
                None => Seq::empty(),
            },
        }
    }
}

/// The anonymous type the schema gives an element named `name`.
pub fn get_element_inline_type<'a>(
    schema: &'a CompiledSchema,
    stack: &[ElementContext],
    name: &str,
) -> (r: Option<&'a TypeDef>)
    ensures
        match r {
            Some(t) => element_inline_type(*schema, stack@, name@) == Some(*t),
            None => element_inline_type(*schema, stack@, name@) is None,
        },
{
    if let Some(elem) = schema.get_element(name) {
        if let Some(b) = &elem.inline_type {
            return Some(&**b);
        }
    }
    let n = stack.len();
    if n < 2 {
        return None;
    }
    let parent_name: &str = stack[n - 2].name.as_str();
    let parent_elem = match schema.get_element(parent_name) {
        Some(e) => e,
        None => return None,
    };
    let type_def: Option<&TypeDef> = match &parent_elem.type_ref {
        Some(t) => schema.get_type(t.as_str()),
        None => match &parent_elem.inline_type {
            Some(b) => Some(&**b),
            None => None,
        },
    };
    let complex = match type_def {
        Some(TypeDef::Complex(c)) => c,
        _ => return None,
    };
    let mut visited: Vec<String> = Vec::new();
    assert(names_view(visited@) =~= Seq::<Seq<char>>::empty());
    let elements = collect_elements_in(schema, complex, &mut visited);
    let ghost es = deref_elems(elements@);
    let ghost target = element_inline_type(*schema, stack@, name@);
    assert(target == match first_decl(es, name@) {
        Some(e) => match e.inline_type {
            Some(b) => Some(*b),
            None => None,
        },
        None => None,
    });
    let mut i: usize = 0;
    assert(es.skip(0) =~= es);
    while i < elements.len()
        invariant
            i <= elements@.len(),
            es == deref_elems(elements@),
            target == element_inline_type(*schema, stack@, name@),
            target == match first_decl(es, name@) {
                Some(e) => match e.inline_type {
                    Some(b) => Some(*b),
                    None => None,
                },
                None => None,
            },
            first_decl(es, name@) == first_decl(es.skip(i as int), name@),
        decreases elements@.len() - i,
    {
        let e = elements[i];
        proof {
            assert(es.skip(i as int)[0] == *e);
            assert(es.skip(i as int).drop_first() =~= es.skip(i + 1));
        }
        if str_eq(e.name.as_str(), name) {
            return match &e.inline_type {
                Some(b) => Some(&**b),
                None => None,
            };
        }
        i = i + 1;
    }
    proof {
        assert(es.skip(i as int) =~= Seq::<ElementDef>::empty());
    }
    None
}


impl StreamingSchemaValidator {
    /// Appends character data to the innermost open element.
    fn validate_text_content(&mut self, text: &str)
        ensures
            final(self).state.element_stack@.len() == old(self).state.element_stack@.len(),
            old(self).state.element_stack@.len() > 0 ==> {
                let n = old(self).state.element_stack@.len();
                &&& final(self).state.element_stack@ == old(self).state.element_stack@.update(
                    n - 1,
                    final(self).state.element_stack@[n - 1],
                )
                &&& final(self).state.element_stack@[n - 1] == (ElementContext {
                    text_content: final(self).state.element_stack@[n - 1].text_content,
                    ..old(self).state.element_stack@[n - 1]
                })
                &&& final(self).state.element_stack@[n - 1].text_content@ == old(
                    self,
                ).state.element_stack@[n - 1].text_content@ + text@
            },
            old(self).state.element_stack@.len() == 0 ==> final(self).state == old(self).state,
            final(self).state.depth == old(self).state.depth,
            final(self).state.namespace_stack == old(self).state.namespace_stack,
            *final(self) == (StreamingSchemaValidator { state: final(self).state, ..*old(self) }),
    {
        match self.state.current_element_mut() {
            Some(ctx) => {
                ctx.text_content.append(text);
            },
            None => {},
        }
    }

    /// Checks text against a simple type's facets.
    fn check_facets(&mut self, ctx: &ElementContext, simple: &SimpleType)
        ensures
            errors_view(final(self).errors@) == appended(
                errors_view(old(self).errors@),
                facet_errors(old(self).current_line, old(self).state.element_stack@, *ctx, *simple),
                old(self).max_errors,
            ),
            *final(self) == (StreamingSchemaValidator { errors: final(self).errors, ..*old(self) }),
    {
        let constraints = facet_constraints_of(simple);
        let validator = FacetValidator::new(&constraints);
        let ghost errs = facet_errors(self.current_line, self.state.element_stack@, *ctx, *simple);
        match validator.validate(ctx.text_content.as_str()) {
            Err(facet_error) => {
                let mut msg = String::from_str("invalid content for element '");
                msg.append(ctx.name.as_str());
                msg.append("': ");
                msg.append(facet_error.as_str());
                proof {
                    reveal_strlit("invalid content for element '");
                    reveal_strlit("': ");
                }
                let error = self.make_error(ValidationErrorType::InvalidContent, msg)
                    .with_node_name(String::from_str(ctx.name.as_str()))
                    .with_level(ErrorLevel::Error);
                proof {
                    assert(errs == seq![view_error(error)]);
                    lemma_add_one(self.errors@, error, self.max_errors);
                }
                self.add_error(error);
            },
            Ok(()) => {
                proof {
                    assert(errs =~= Seq::<ErrorView>::empty());
                    assert(appended(errors_view(self.errors@), errs, self.max_errors) == errors_view(self.errors@));
                }
            },
        }
    }

    /// Validates text content against a specific type definition.
    fn validate_text_against_type_def(&mut self, ctx: &ElementContext, type_def: &TypeDef)
        ensures
            errors_view(final(self).errors@) == appended(
                errors_view(old(self).errors@),
                typedef_errors(old(self).sch(), old(self).current_line, old(self).state.element_stack@, *ctx, *type_def),
                old(self).max_errors,
            ),
            *final(self) == (StreamingSchemaValidator { errors: final(self).errors, ..*old(self) }),
    {
        let ghost errs = typedef_errors(self.sch(), self.current_line, self.state.element_stack@, *ctx, *type_def);
        match type_def {
            TypeDef::Simple(simple) => {
                self.check_facets(ctx, simple);
            },
            TypeDef::Complex(complex) => {
                match &complex.content {
                    ContentModel::SimpleContent { base_type } => {
                        let schema = self.schema.clone();
                        match schema.get_type(base_type.as_str()) {
                            Some(TypeDef::Simple(simple)) => {
                                self.check_facets(ctx, simple);
                            },
                            _ => {
                                proof {
                                    assert(errs =~= Seq::<ErrorView>::empty());
                                    assert(appended(errors_view(self.errors@), errs, self.max_errors) == errors_view(self.errors@));
                                }
                            },
                        }
                    },
                    _ => {
                        if !complex.mixed && !is_blank(ctx.text_content.as_str()) {
                            let mut msg = String::from_str("element '");
                            msg.append(ctx.name.as_str());
                            msg.append("' has element-only content but contains text");
                            proof {
                                reveal_strlit("element '");
                                reveal_strlit("' has element-only content but contains text");
                            }
                            let error = self.make_error(ValidationErrorType::InvalidContent, msg)
                                .with_node_name(String::from_str(ctx.name.as_str()))
                                .with_level(ErrorLevel::Error);
                            proof {
                                assert(errs == seq![view_error(error)]);
                                lemma_add_one(self.errors@, error, self.max_errors);
                            }
                            self.add_error(error);
                        } else {
                            proof {
                                assert(errs =~= Seq::<ErrorView>::empty());
                                assert(appended(errors_view(self.errors@), errs, self.max_errors) == errors_view(self.errors@));
                            }
                        }
                    },
                }
            },
        }
    }

    /// Checks the text of a closed element against its type.
    fn validate_text_content_against_type(&mut self, ctx: &ElementContext)
        ensures
            errors_view(final(self).errors@) == appended(
                errors_view(old(self).errors@),
                end_text_errors(old(self).sch(), old(self).current_line, old(self).state.element_stack@, *ctx),
                old(self).max_errors,
            ),
            *final(self) == (StreamingSchemaValidator { errors: final(self).errors, ..*old(self) }),
    {
        let ghost errs = end_text_errors(self.sch(), self.current_line, self.state.element_stack@, *ctx);
        if ctx.text_content.unicode_len() == 0 {
            proof {
                assert(errs =~= Seq::<ErrorView>::empty());
                assert(appended(errors_view(self.errors@), errs, self.max_errors) == errors_view(self.errors@));
            }
            return;
        }
        let schema = self.schema.clone();
        if let Some(type_ref) = &ctx.type_ref {
            if let Some(td) = schema.get_type(type_ref.as_str()) {
                self.validate_text_against_type_def(ctx, td);
                return;
            }
        }
        match get_element_inline_type(&*schema, self.state.element_stack.as_slice(), ctx.name.as_str()) {
            Some(td) => {
                self.validate_text_against_type_def(ctx, td);
            },
            None => {
                proof {
                    assert(errs =~= Seq::<ErrorView>::empty());
                    assert(appended(errors_view(self.errors@), errs, self.max_errors) == errors_view(self.errors@));
                }
            },
        }
    }
}

/// The child table of a context (empty without one).
pub open spec fn table_of(ctx: ElementContext) -> FlatView {
    match opt_arc_view(ctx.flattened_children) {
        Some(f) => f,
        None => no_children(),
    }
}

/// The entry for one table row whose required count is not met.
pub open spec fn required_error(
    schema: CompiledSchema,
    line: Option<usize>,
    stack: Seq<ElementContext>,
    ctx: ElementContext,
    row: (String, (u32, Option<u32>)),
) -> Seq<ErrorView> {
    let child = row.0@;
    let min = row.1.0;
    let occ = occurrences(schema, ctx, child);
    if min > 0 && occ < min {
        let found = dec(sat(occ) as nat);
        seq![
            stream_error(
                line,
                stack_path(stack),
                if occ == 0 {
                    ValidationErrorType::MissingRequiredElement
                } else {
                    ValidationErrorType::TooFewOccurrences
                },
                "element '"@ + ctx.name@ + "' requires child '"@ + child + "' at least "@ + dec(
                    min as nat,
                ) + " time(s), but found "@ + found,
                ctx.name@,
                Some("at least "@ + dec(min as nat) + " occurrence(s) of '"@ + child + "'"@),
                Some(found + " occurrence(s)"@),
            ),
        ]
    } else {
        Seq::empty()
    }
}

/// The entries for the rows of a table, in order.
pub open spec fn required_errors(
    schema: CompiledSchema,
    line: Option<usize>,
    stack: Seq<ElementContext>,
    ctx: ElementContext,
    rows: Seq<(String, (u32, Option<u32>))>,
) -> Seq<ErrorView>
    decreases rows.len(),
{
    if rows.len() == 0 {
        Seq::empty()
    } else {
        required_errors(schema, line, stack, ctx, rows.drop_last()) + required_error(
            schema,
            line,
            stack,
            ctx,
            rows.last(),
        )
    }
}

/// The entries for the required children of a closed element: a choice
/// needs one of its children (counting substitutes); other content models
/// need each child's minimum.
pub open spec fn min_occurs_errors(
    schema: CompiledSchema,
    line: Option<usize>,
    stack: Seq<ElementContext>,
    ctx: ElementContext,
) -> Seq<ErrorView> {
    let t = table_of(ctx);
    if t.model == ContentModelType::Choice {
        if t.entries.len() > 0 && forall|k: int|
            0 <= k < t.entries.len() ==> occurrences(schema, ctx, #[trigger] t.entries[k].0@) == 0 {
            let j = join_names(constraint_keys(t.entries));
            seq![
                stream_error(
                    line,
                    stack_path(stack),
                    ValidationErrorType::MissingRequiredElement,
                    "element '"@ + ctx.name@ + "' requires one of: "@ + j,
                    ctx.name@,
                    Some("one of: "@ + j),
                    Some("none"@),
                ),
            ]
        } else {
            Seq::empty()
        }
    } else {
        required_errors(schema, line, stack, ctx, t.entries)
    }
}

/// Appending in two steps is appending the concatenation.
pub proof fn lemma_appended_concat(s: Seq<ErrorView>, a: Seq<ErrorView>, b: Seq<ErrorView>, max: usize)
    ensures
        appended(appended(s, a, max), b, max) == appended(s, a + b, max),
    decreases b.len(),
{
    if b.len() == 0 {
        assert(a + b =~= a);
    } else {
        lemma_appended_concat(s, a, b.drop_last(), max);
        assert((a + b).drop_last() =~= a + b.drop_last());
        assert((a + b).last() == b.last());
    }
}

impl StreamingSchemaValidator {
    /// Checks that the required children of a closed element are present.
    fn validate_min_occurs(&mut self, ctx: &ElementContext)
        ensures
            errors_view(final(self).errors@) == appended(
                errors_view(old(self).errors@),
                min_occurs_errors(old(self).sch(), old(self).current_line, old(self).state.element_stack@, *ctx),
                old(self).max_errors,
            ),
            *final(self) == (StreamingSchemaValidator { errors: final(self).errors, ..*old(self) }),
    {
        let ghost errs = min_occurs_errors(self.sch(), self.current_line, self.state.element_stack@, *ctx);
        let ghost e0 = errors_view(self.errors@);
        let ghost t = table_of(*ctx);
        let table = match &ctx.flattened_children {
            Some(f) => f.clone(),
            None => {
                proof {
                    assert(t =~= no_children());
                    assert(errs =~= Seq::<ErrorView>::empty());
                    assert(appended(e0, errs, self.max_errors) == e0);
                }
                return;
            },
        };
        assert(flat_view(*table) == t);
        let rows = &table.constraints.entries;
        if ctx.content_model_type() == ContentModelType::Choice {
            let mut any_present = false;
            let mut i: usize = 0;
            while i < rows.len()
                invariant
                    i <= rows@.len(),
                    rows@ == t.entries,
                    !any_present ==> forall|k: int|
                        0 <= k < i ==> occurrences(self.sch(), *ctx, #[trigger] t.entries[k].0@) == 0,
                    any_present ==> exists|k: int|
                        0 <= k < t.entries.len() && occurrences(self.sch(), *ctx, #[trigger] t.entries[k].0@) != 0,
                ensures
                    !any_present ==> i == rows@.len(),
                    !any_present ==> forall|k: int|
                        0 <= k < i ==> occurrences(self.sch(), *ctx, #[trigger] t.entries[k].0@) == 0,
                    any_present ==> exists|k: int|
                        0 <= k < t.entries.len() && occurrences(self.sch(), *ctx, #[trigger] t.entries[k].0@) != 0,
                decreases rows@.len() - i,
            {
                let count = self.count_occurrences(ctx, rows[i].0.as_str());
                proof {
                    lemma_occurrences_nonneg(self.sch(), *ctx, t.entries[i as int].0@);
                }
                if count > 0 {
                    any_present = true;
                    break;
                }
                i = i + 1;
            }
            if !any_present && rows.len() > 0 {
                let choices = join_keys(rows);
                let mut msg = String::from_str("element '");
                msg.append(ctx.name.as_str());
                msg.append("' requires one of: ");
                msg.append(choices.as_str());
                let mut expected = String::from_str("one of: ");
                expected.append(choices.as_str());
                proof {
                    reveal_strlit("element '");
                    reveal_strlit("' requires one of: ");
                    reveal_strlit("one of: ");
                    reveal_strlit("none");
                }
                let error = self.make_error(ValidationErrorType::MissingRequiredElement, msg)
                    .with_node_name(String::from_str(ctx.name.as_str()))
                    .with_expected(expected)
                    .with_found(String::from_str("none"))
                    .with_level(ErrorLevel::Error);
                proof {
                    assert(errs == seq![view_error(error)]);
                    lemma_add_one(self.errors@, error, self.max_errors);
                }
                self.add_error(error);
            } else {
                proof {
                    assert(errs =~= Seq::<ErrorView>::empty());
                    assert(appended(e0, errs, self.max_errors) == e0);
                }
            }
            return;
        }
        let mut i: usize = 0;
        assert(t.entries.take(0) =~= Seq::<(String, (u32, Option<u32>))>::empty());
        while i < rows.len()
            invariant
                i <= rows@.len(),
                rows@ == t.entries,
                errors_view(self.errors@) == appended(
                    e0,
                    required_errors(self.sch(), self.current_line, self.state.element_stack@, *ctx, t.entries.take(i as int)),
                    self.max_errors,
                ),
                self.schema == old(self).schema,
                self.state == old(self).state,
                self.current_line == old(self).current_line,
                self.mode == old(self).mode,
                self.max_errors == old(self).max_errors,
            decreases rows@.len() - i,
        {
            let ghost before = errors_view(self.errors@);
            let ghost row = t.entries[i as int];
            let ghost piece = required_error(self.sch(), self.current_line, self.state.element_stack@, *ctx, row);
            proof {
                assert(t.entries.take(i + 1).drop_last() =~= t.entries.take(i as int));
                assert(t.entries.take(i + 1).last() == row);
                lemma_appended_concat(
                    e0,
                    required_errors(self.sch(), self.current_line, self.state.element_stack@, *ctx, t.entries.take(i as int)),
                    piece,
                    self.max_errors,
                );
            }
            let child = &rows[i].0;
            let min_occurs = (rows[i].1).0;
            if min_occurs > 0 {
                let actual = self.count_occurrences(ctx, child.as_str());
                let ghost occ = occurrences(self.sch(), *ctx, child@);
                proof {
                    lemma_occurrences_nonneg(self.sch(), *ctx, child@);
                }
                if actual < min_occurs as u64 {
                    let error_type = if actual == 0 {
                        ValidationErrorType::MissingRequiredElement
                    } else {
                        ValidationErrorType::TooFewOccurrences
                    };
                    let count_text = decimal_string(actual);
                    let min_text = decimal_string(min_occurs as u64);
                    let mut msg = String::from_str("element '");
                    msg.append(ctx.name.as_str());
                    msg.append("' requires child '");
                    msg.append(child.as_str());
                    msg.append("' at least ");
                    msg.append(min_text.as_str());
                    msg.append(" time(s), but found ");
                    msg.append(count_text.as_str());
                    let mut expected = String::from_str("at least ");
                    expected.append(min_text.as_str());
                    expected.append(" occurrence(s) of '");
                    expected.append(child.as_str());
                    expected.append("'");
                    let mut found = count_text;
                    found.append(" occurrence(s)");
                    proof {
                        reveal_strlit("element '");
                        reveal_strlit("' requires child '");
                        reveal_strlit("' at least ");
                        reveal_strlit(" time(s), but found ");
                        reveal_strlit("at least ");
                        reveal_strlit(" occurrence(s) of '");
                        reveal_strlit("'");
                        reveal_strlit(" occurrence(s)");
                    }
                    let error = self.make_error(error_type, msg)
                        .with_node_name(String::from_str(ctx.name.as_str()))
                        .with_expected(expected)
                        .with_found(found)
                        .with_level(ErrorLevel::Error);
                    proof {
                        assert(piece == seq![view_error(error)]);
                        lemma_add_one(self.errors@, error, self.max_errors);
                    }
                    self.add_error(error);
                } else {
                    proof {
                        assert(piece =~= Seq::<ErrorView>::empty());
                        assert(appended(before, piece, self.max_errors) == before);
                    }
                }
            } else {
                proof {
                    assert(piece =~= Seq::<ErrorView>::empty());
                    assert(appended(before, piece, self.max_errors) == before);
                }
            }
            i = i + 1;
        }
        proof {
            assert(t.entries.take(rows@.len() as int) =~= t.entries);
        }
    }
}

/// Two stacks that differ at most in the innermost element's details (not
/// its name) give the same start-tag outcome.
pub proof fn lemma_same_but_last(
    schema: CompiledSchema,
    mode: ValidationMode,
    line: Option<usize>,
    s1: Seq<ElementContext>,
    s2: Seq<ElementContext>,
    name: Seq<char>,
    qname: Seq<char>,
)
    requires
        s1.len() == s2.len(),
        s1.len() > 0,
        forall|i: int| 0 <= i < s1.len() - 1 ==> #[trigger] s1[i] == s2[i],
        s1.last().name == s2.last().name,
    ensures
        start_errors(schema, mode, line, s1, name, qname) == start_errors(schema, mode, line, s2, name, qname),
        resolved(schema, s1, name, qname) == resolved(schema, s2, name, qname),
{
    assert(s1.drop_last() =~= s2.drop_last());
    assert(stack_path(s1) == stack_path(s2));
    if s1.len() >= 2 {
        assert(s1[s1.len() - 2] == s2[s2.len() - 2]);
    }
}

/// A newly opened context for `name`, with the schema information `info`
/// attached when the schema knows the element.
pub open spec fn opened(
    c: ElementContext,
    name: Seq<char>,
    namespace: Option<Seq<char>>,
    info: Option<(Option<String>, FlatView)>,
) -> bool {
    &&& c.name@ == name
    &&& match c.namespace {
        Some(a) => namespace == Some(a@),
        None => namespace is None,
    }
    &&& counts_of(c.child_counts).len() == 0
    &&& c.text_content@.len() == 0
    &&& c.sequence_index == 0
    &&& !c.nillable
    &&& !c.nilled
    &&& c.default_value is None
    &&& c.fixed_value is None
    &&& c.inline_type is None
    &&& c.wildcard_mode is None
    &&& match info {
        Some((tr, t)) => {
            &&& c.schema_validated
            &&& c.type_ref == tr
            &&& c.flattened_children matches Some(a) && flat_view(*a) == t && a.wildcard is None
        },
        None => !c.schema_validated && c.type_ref is None && c.flattened_children is None,
    }
}

/// A start tag named `name` can be counted: the depth and the parent's
/// count of such children stay within their integer types.
pub open spec fn start_fits(s: ValidationState, name: Seq<char>) -> bool {
    &&& s.depth < usize::MAX
    &&& s.element_stack@.len() > 0 ==> can_increment(counts_of(s.element_stack@.last().child_counts), name)
}

/// The effect of a start tag on a validator whose limits it fits: the
/// element is opened (its parent counts it) in a new namespace scope with
/// the tag's declarations, resolved against the schema, and the entries
/// [`start_errors`] gives are added.
pub open spec fn started(
    v0: StreamingSchemaValidator,
    v1: StreamingSchemaValidator,
    name: Seq<char>,
    prefix: Option<Seq<char>>,
    namespace: Option<Seq<char>>,
    decls: Seq<Namespace>,
    line: Option<usize>,
) -> bool {
    let s0 = v0.state.element_stack@;
    let s1 = v1.state.element_stack@;
    let n = s0.len();
    let q = qualified(name, prefix);
    &&& s1.len() == n + 1
    &&& forall|i: int| 0 <= i < n - 1 ==> #[trigger] s1[i] == s0[i]
    &&& n > 0 ==> same_but_counts(s1[n - 1], s0[n - 1])
    &&& n > 0 ==> counts_of(s1[n - 1].child_counts) == counts_after(counts_of(s0[n - 1].child_counts), name)
    &&& opened(s1[n as int], name, namespace, resolved(v0.sch(), s1, name, q))
    &&& errors_view(v1.errors@) == appended(
        errors_view(v0.errors@),
        start_errors(v0.sch(), v0.mode, line, s1, name, q),
        v0.max_errors,
    )
    &&& v1.state.depth == v0.state.depth + 1
    &&& scopes_view(v1.state.namespace_stack@) == scopes_view(v0.state.namespace_stack@).push(
        decls.map_values(|d: Namespace| (d.prefix@, d.uri@)),
    )
    &&& v1.current_line == line
    &&& v1.schema == v0.schema
    &&& v1.mode == v0.mode
    &&& v1.max_errors == v0.max_errors
}

/// The effect of an end tag: the innermost element (if any) is closed, its
/// text and required children are checked, and its namespace scope ends.
pub open spec fn ended(v0: StreamingSchemaValidator, v1: StreamingSchemaValidator) -> bool {
    let s0 = v0.state.element_stack@;
    &&& if s0.len() == 0 {
        &&& v1.state.element_stack@ == s0
        &&& v1.errors@ == v0.errors@
    } else {
        &&& v1.state.element_stack@ == s0.drop_last()
        &&& errors_view(v1.errors@) == appended(
            errors_view(v0.errors@),
            end_text_errors(v0.sch(), v0.current_line, s0.drop_last(), s0.last())
                + min_occurs_errors(v0.sch(), v0.current_line, s0.drop_last(), s0.last()),
            v0.max_errors,
        )
    }
    &&& v1.state.depth == if v0.state.depth == 0 {
        0
    } else {
        (v0.state.depth - 1) as usize
    }
    &&& v1.state.namespace_stack@ == if v0.state.namespace_stack@.len() > 1 {
        v0.state.namespace_stack@.drop_last()
    } else {
        v0.state.namespace_stack@
    }
    &&& v1.current_line == v0.current_line
    &&& v1.schema == v0.schema
    &&& v1.mode == v0.mode
    &&& v1.max_errors == v0.max_errors
}

/// The effect of character data: it is appended to the text of the
/// innermost open element (and dropped when none is open).
pub open spec fn text_added(v0: StreamingSchemaValidator, v1: StreamingSchemaValidator, text: Seq<char>) -> bool {
    let s0 = v0.state.element_stack@;
    let n = s0.len();
    &&& v1 == (StreamingSchemaValidator { state: v1.state, ..v0 })
    &&& v1.state.depth == v0.state.depth
    &&& v1.state.namespace_stack == v0.state.namespace_stack
    &&& if n == 0 {
        v1.state == v0.state
    } else {
        &&& v1.state.element_stack@ == s0.update(n - 1, v1.state.element_stack@[n - 1])
        &&& v1.state.element_stack@[n - 1] == (ElementContext {
            text_content: v1.state.element_stack@[n - 1].text_content,
            ..s0[n - 1]
        })
        &&& v1.state.element_stack@[n - 1].text_content@ == s0[n - 1].text_content@ + text
    }
}

/// The entry for an element left open at the end of the input.
pub open spec fn unclosed_error(c: ElementContext) -> ErrorView {
    ErrorView {
        error_type: ValidationErrorType::UnclosedElement,
        message: "element '"@ + c.name@ + "' is not closed"@,
        level: ErrorLevel::Error,
        line: None,
        column: None,
        node_name: Some(c.name@),
        expected: None,
        found: None,
        count: 1,
        element_path: None,
        more_positions: Seq::empty(),
    }
}

/// The entries for the elements left open, innermost first.
pub open spec fn unclosed_errors(stack: Seq<ElementContext>) -> Seq<ErrorView>
    decreases stack.len(),
{
    if stack.len() == 0 {
        Seq::empty()
    } else {
        seq![unclosed_error(stack.last())] + unclosed_errors(stack.drop_last())
    }
}

impl StreamingSchemaValidator {
    /// Closes the innermost element and checks its text and required
    /// children.
    fn validate_element_end(&mut self)
        ensures
            ({
                let s0 = old(self).state.element_stack@;
                &&& if s0.len() == 0 {
                    &&& final(self).state.element_stack@ == s0
                    &&& final(self).errors@ == old(self).errors@
                } else {
                    &&& final(self).state.element_stack@ == s0.drop_last()
                    &&& errors_view(final(self).errors@) == appended(
                        errors_view(old(self).errors@),
                        end_text_errors(old(self).sch(), old(self).current_line, s0.drop_last(), s0.last())
                            + min_occurs_errors(old(self).sch(), old(self).current_line, s0.drop_last(), s0.last()),
                        old(self).max_errors,
                    )
                }
                &&& final(self).state.depth == if old(self).state.depth == 0 {
                    0
                } else {
                    (old(self).state.depth - 1) as usize
                }
                &&& final(self).state.namespace_stack == old(self).state.namespace_stack
                &&& final(self).current_line == old(self).current_line
                &&& final(self).schema == old(self).schema
                &&& final(self).mode == old(self).mode
                &&& final(self).max_errors == old(self).max_errors
            }),
    {
        let ghost e0 = errors_view(self.errors@);
        match self.state.pop_element() {
            Some(ctx) => {
                let ghost a = end_text_errors(self.sch(), self.current_line, self.state.element_stack@, ctx);
                let ghost b = min_occurs_errors(self.sch(), self.current_line, self.state.element_stack@, ctx);
                self.validate_text_content_against_type(&ctx);
                self.validate_min_occurs(&ctx);
                proof {
                    lemma_appended_concat(e0, a, b, self.max_errors);
                }
            },
            None => {},
        }
    }

    /// Handles one parsing event. A start tag opens and checks its element,
    /// an end tag closes and checks the innermost one, and character data
    /// is collected for the innermost one; other events change nothing.
    /// Attributes are not checked. Fails (changing nothing) only when a start
    /// tag cannot be counted (see [`start_fits`]).
    pub fn handle(&mut self, event: &XmlEvent) -> (r: Result<(), ValidationError>)
        ensures
            match event {
                XmlEvent::StartElement { name, prefix, namespace, namespace_decls, line, .. } => if start_fits(old(self).state, name@) {
                    r is Ok && started(
                        *old(self),
                        *final(self),
                        name@,
                        opt_string_view(*prefix),
                        opt_string_view(*namespace),
                        namespace_decls@,
                        *line,
                    )
                } else {
                    too_many_children(r) && *final(self) == *old(self)
                },
                XmlEvent::EndElement { .. } => r is Ok && ended(*old(self), *final(self)),
                XmlEvent::Text(t) => r is Ok && text_added(*old(self), *final(self), t@),
                XmlEvent::CData(t) => r is Ok && text_added(*old(self), *final(self), t@),
                _ => r is Ok && *final(self) == *old(self),
            },
    {
        match event {
            XmlEvent::StartElement { name, prefix, namespace, namespace_decls, line, .. } => {
                let n = self.state.element_stack.len();
                if self.state.depth == usize::MAX || (n > 0
                    && !self.state.element_stack[n - 1].can_count_child(name.as_str())) {
                    return Err(ValidationError::InvalidOperation(String::from_str("too many child elements")));
                }
                let ghost v0 = *self;
                self.current_line = *line;
                self.state.push_namespaces(namespace_decls.as_slice());
                let ns: Option<Arc<String>> = match namespace {
                    Some(u) => Some(Arc::new(u.clone())),
                    None => None,
                };
                self.state.push_element(Arc::new(name.clone()), ns);
                let ghost v_pushed = *self;
                let p: Option<&str> = match prefix {
                    Some(x) => Some(x.as_str()),
                    None => None,
                };
                assert(opt_chars(p) == opt_string_view(*prefix));
                self.validate_element(name.as_str(), p);
                proof {
                    let q = qualified(name@, opt_string_view(*prefix));
                    lemma_same_but_last(
                        v0.sch(),
                        v0.mode,
                        *line,
                        v_pushed.state.element_stack@,
                        self.state.element_stack@,
                        name@,
                        q,
                    );
                }
                Ok(())
            },
            XmlEvent::EndElement { .. } => {
                self.validate_element_end();
                self.state.pop_namespaces();
                Ok(())
            },
            XmlEvent::Text(t) => {
                self.validate_text_content(t.as_str());
                Ok(())
            },
            XmlEvent::CData(t) => {
                self.validate_text_content(t.as_str());
                Ok(())
            },
            _ => Ok(()),
        }
    }

    /// Ends the input: every element still open gets an entry, innermost
    /// first, and is closed.
    pub fn finish(&mut self) -> (r: Result<(), ValidationError>)
        ensures
            r is Ok,
            final(self).state.element_stack@.len() == 0,
            errors_view(final(self).errors@) == appended(
                errors_view(old(self).errors@),
                unclosed_errors(old(self).state.element_stack@),
                old(self).max_errors,
            ),
            final(self).state.namespace_stack == old(self).state.namespace_stack,
            final(self).current_line == old(self).current_line,
            final(self).schema == old(self).schema,
            final(self).mode == old(self).mode,
            final(self).max_errors == old(self).max_errors,
    {
        let ghost s0 = self.state.element_stack@;
        let ghost e0 = errors_view(self.errors@);
        let ghost mut done: Seq<ErrorView> = Seq::empty();
        proof {
            assert(done + unclosed_errors(s0) =~= unclosed_errors(s0));
        }
        loop
            invariant
                done + unclosed_errors(self.state.element_stack@) == unclosed_errors(s0),
                errors_view(self.errors@) == appended(e0, done, self.max_errors),
                self.state.namespace_stack == old(self).state.namespace_stack,
                self.current_line == old(self).current_line,
                self.schema == old(self).schema,
                self.mode == old(self).mode,
                self.max_errors == old(self).max_errors,
            ensures
                self.state.element_stack@.len() == 0,
                errors_view(self.errors@) == appended(e0, unclosed_errors(s0), self.max_errors),
                self.state.namespace_stack == old(self).state.namespace_stack,
                self.current_line == old(self).current_line,
                self.schema == old(self).schema,
                self.mode == old(self).mode,
                self.max_errors == old(self).max_errors,
            decreases self.state.element_stack@.len(),
        {
            let ghost cur = self.state.element_stack@;
            match self.state.pop_element() {
                Some(ctx) => {
                    let mut msg = String::from_str("element '");
                    msg.append(ctx.name.as_str());
                    msg.append("' is not closed");
                    proof {
                        reveal_strlit("element '");
                        reveal_strlit("' is not closed");
                    }
                    let error = StructuredError::new(msg, ValidationErrorType::UnclosedElement)
                        .with_node_name(String::from_str(ctx.name.as_str()))
                        .with_level(ErrorLevel::Error);
                    proof {
                        assert(view_error(error) == unclosed_error(ctx));
                        lemma_add_one(self.errors@, error, self.max_errors);
                        lemma_appended_concat(e0, done, seq![view_error(error)], self.max_errors);
                        assert(unclosed_errors(cur) == seq![unclosed_error(ctx)] + unclosed_errors(cur.drop_last()));
                        assert(done + seq![unclosed_error(ctx)] + unclosed_errors(cur.drop_last()) =~= done + unclosed_errors(cur));
                        done = done + seq![unclosed_error(ctx)];
                    }
                    self.add_error(error);
                },
                None => {
                    proof {
                        assert(unclosed_errors(cur) =~= Seq::<ErrorView>::empty());
                        assert(done =~= done + unclosed_errors(cur));
                    }
                    break;
                },
            }
        }
        Ok(())
    }
}

} // verus!
