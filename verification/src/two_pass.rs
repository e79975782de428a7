//! Two-pass schema validation: pass 1 builds a [`DocumentSkeleton`] of the
//! document, pass 2 checks every element of the skeleton against the schema
//! (declaration, child occurrence bounds, sequence order, text content).
use std::sync::Arc;
use vstd::prelude::*;

use crate::error::{ErrorLevel, StructuredError, ValidationErrorType};
use crate::messages::{dec, decimal_string};
use crate::mode::ValidationMode;
use crate::schema::{CompiledSchema, ContentModelType, FlattenedChildren};
use crate::skeleton::{count_of, DocumentSkeleton, ElementSkeleton};
use crate::text::{after_first_colon, has_colon, split_first_colon};

verus! {

/// Options for controlling which validations are performed.
#[derive(Debug, Clone, Copy, PartialEq, Eq, Structural)]
pub struct ValidationOptions {
    /// Skip minOccurs validation (required child element checks).
    pub skip_min_occurs: bool,
    /// Skip maxOccurs validation (element count limit checks).
    pub skip_max_occurs: bool,
    /// Skip substitution group resolution in occurrence counting.
    pub skip_substitution_groups: bool,
    /// Collapse identical errors into one entry with a count.
    pub aggregate_errors: bool,
}

impl Default for ValidationOptions {
    /// All validations enabled, no aggregation.
    fn default() -> (o: Self)
        ensures
            !o.skip_min_occurs,
            !o.skip_max_occurs,
            !o.skip_substitution_groups,
            !o.aggregate_errors,
    {
        ValidationOptions {
            skip_min_occurs: false,
            skip_max_occurs: false,
            skip_substitution_groups: false,
            aggregate_errors: false,
        }
    }
}

/// What a validation entry says, as plain values.
pub struct ErrorView {
    /// Classification.
    pub error_type: ValidationErrorType,
    /// Message.
    pub message: Seq<char>,
    /// Severity.
    pub level: ErrorLevel,
    /// Line.
    pub line: Option<usize>,
    /// Column.
    pub column: Option<usize>,
    /// Offending node name.
    pub node_name: Option<Seq<char>>,
    /// Expected content.
    pub expected: Option<Seq<char>>,
    /// Found content.
    pub found: Option<Seq<char>>,
    /// Occurrence count.
    pub count: usize,
    /// Element path.
    pub element_path: Option<Seq<char>>,
    /// Positions of the further occurrences.
    pub more_positions: Seq<(Option<usize>, Option<usize>)>,
}

/// The view of an optional string.
pub open spec fn ostr(s: Option<String>) -> Option<Seq<char>> {
    match s {
        Some(x) => Some(x@),
        None => None,
    }
}

/// The plain-value view of an entry.
pub open spec fn view_error(e: StructuredError) -> ErrorView {
    ErrorView {
        error_type: e.error_type,
        message: e.message@,
        level: e.level,
        line: e.line,
        column: e.column,
        node_name: ostr(e.node_name),
        expected: ostr(e.expected),
        found: ostr(e.found),
        count: e.count,
        element_path: ostr(e.element_path),
        more_positions: e.more_positions@,
    }
}

/// The plain-value view of a list of entries.
pub open spec fn errors_view(v: Seq<StructuredError>) -> Seq<ErrorView> {
    v.map_values(|e: StructuredError| view_error(e))
}

/// The first `max` entries (all of them when `max` is 0).
pub open spec fn cap(s: Seq<ErrorView>, max: usize) -> Seq<ErrorView> {
    if max == 0 || s.len() <= max {
        s
    } else {
        s.take(max as int)
    }
}

/// Capping twice is capping once.
pub proof fn lemma_cap_append(a: Seq<ErrorView>, b: Seq<ErrorView>, c: Seq<ErrorView>, max: usize)
    ensures
        cap(cap(a + b, max) + c, max) == cap(a + b + c, max),
{
    if max == 0 {
        assert((a + b) + c =~= a + b + c);
    } else if (a + b).len() <= max {
        assert((a + b) + c =~= a + b + c);
    } else {
        assert((a + b).take(max as int) =~= (a + b + c).take(max as int));
        assert(((a + b).take(max as int) + c).take(max as int) =~= (a + b).take(max as int));
    }
}

/// The list already holds more entries than the cap allows (a cap of 0
/// is no cap).
pub open spec fn over_cap(max: usize, n: nat) -> bool {
    max > 0 && n > max
}

/// An error-level entry at a node's position.
pub open spec fn node_error(
    node: ElementSkeleton,
    t: ValidationErrorType,
    message: Seq<char>,
    node_name: Seq<char>,
    expected: Option<Seq<char>>,
    found: Option<Seq<char>>,
) -> ErrorView {
    ErrorView {
        error_type: t,
        message,
        level: ErrorLevel::Error,
        line: node.line,
        column: node.column,
        node_name: Some(node_name),
        expected,
        found,
        count: 1,
        element_path: None,
        more_positions: Seq::empty(),
    }
}

/// The members of the substitution group headed by `head` (looked up by the
/// name as written, then by the part after its first `:`).
pub open spec fn members_of(schema: CompiledSchema, head: Seq<char>) -> Seq<String> {
    match schema.transitive_substitution_groups.lookup(head) {
        Some(v) => v@,
        None => if has_colon(head) {
            match schema.transitive_substitution_groups.lookup(after_first_colon(head)) {
                Some(v) => v@,
                None => Seq::empty(),
            }
        } else {
            Seq::empty()
        },
    }
}

/// Sum of the node's child counts for the listed names.
pub open spec fn sum_counts(node: ElementSkeleton, names: Seq<String>) -> int
    decreases names.len(),
{
    if names.len() == 0 {
        0
    } else {
        sum_counts(node, names.drop_last()) + count_of(node.child_counts, names.last()@)
    }
}

/// Counts are never negative.
pub proof fn lemma_sum_counts_nonneg(node: ElementSkeleton, names: Seq<String>)
    ensures
        sum_counts(node, names) >= 0,
    decreases names.len(),
{
    if names.len() > 0 {
        lemma_sum_counts_nonneg(node, names.drop_last());
    }
}

/// Totals are never negative.
pub proof fn lemma_total_nonneg(
    schema: CompiledSchema,
    options: ValidationOptions,
    node: ElementSkeleton,
    child: Seq<char>,
)
    ensures
        total_count(schema, options, node, child) >= 0,
{
    lemma_sum_counts_nonneg(node, members_of(schema, child));
}

/// Occurrences of `child` under `node`: the name as written, its local part
/// when it is prefixed, and (unless skipped) every substitution group member.
pub open spec fn total_count(
    schema: CompiledSchema,
    options: ValidationOptions,
    node: ElementSkeleton,
    child: Seq<char>,
) -> int {
    count_of(node.child_counts, child) + (if has_colon(child) {
        count_of(node.child_counts, after_first_colon(child))
    } else {
        0
    }) + (if options.skip_substitution_groups {
        0
    } else {
        sum_counts(node, members_of(schema, child))
    })
}

/// A count as reported: saturated at `u64::MAX`.
pub open spec fn sat(n: int) -> u64 {
    if n > u64::MAX {
        u64::MAX
    } else {
        n as u64
    }
}

/// `items` joined with `", "`.
pub open spec fn join_names(items: Seq<String>) -> Seq<char>
    decreases items.len(),
{
    if items.len() == 0 {
        Seq::empty()
    } else if items.len() == 1 {
        items[0]@
    } else {
        join_names(items.drop_last()) + ", "@ + items.last()@
    }
}

/// The keys of a constraint table, in order.
pub open spec fn constraint_keys(c: Seq<(String, (u32, Option<u32>))>) -> Seq<String> {
    c.map_values(|e: (String, (u32, Option<u32>))| e.0)
}

/// No key of the table occurs under the node.
pub open spec fn none_present(
    schema: CompiledSchema,
    options: ValidationOptions,
    node: ElementSkeleton,
    c: Seq<(String, (u32, Option<u32>))>,
) -> bool {
    forall|k: int| 0 <= k < c.len() ==> total_count(schema, options, node, #[trigger] c[k].0@) == 0
}

/// What the checks read of a [`FlattenedChildren`]: the content model
/// kind, the occurrence table and the declared child order.
#[verifier::ext_equal]
pub struct FlatView {
    /// Content model kind.
    pub model: ContentModelType,
    /// Occurrence bounds per child name, in table order.
    pub entries: Seq<(String, (u32, Option<u32>))>,
    /// Child names in declared order.
    pub ordered: Seq<String>,
}

/// The view of a flattened child table.
pub open spec fn flat_view(f: FlattenedChildren) -> FlatView {
    FlatView {
        model: f.content_model_type,
        entries: f.constraints.entries@,
        ordered: f.ordered_elements@,
    }
}

/// The errors for required children that occur too few times, in table order.
pub open spec fn min_errors_seq(
    schema: CompiledSchema,
    options: ValidationOptions,
    node: ElementSkeleton,
    c: Seq<(String, (u32, Option<u32>))>,
) -> Seq<ErrorView>
    decreases c.len(),
{
    if c.len() == 0 {
        Seq::empty()
    } else {
        let prev = min_errors_seq(schema, options, node, c.drop_last());
        let (name, (min, _)) = c.last();
        let actual = total_count(schema, options, node, name@);
        if min > 0 && actual < min {
            let a = sat(actual) as nat;
            prev.push(
                node_error(
                    node,
                    if actual == 0 {
                        ValidationErrorType::MissingRequiredElement
                    } else {
                        ValidationErrorType::TooFewOccurrences
                    },
                    "element '"@ + node.name@ + "' requires child '"@ + name@ + "' at least "@
                        + dec(min as nat) + " time(s), but found "@ + dec(a),
                    node.name@,
                    Some("at least "@ + dec(min as nat) + " occurrence(s) of '"@ + name@ + "'"@),
                    Some(dec(a) + " occurrence(s)"@),
                ),
            )
        } else {
            prev
        }
    }
}

/// The minimum-occurrence errors for a node: for a choice, one error when
/// none of the alternatives occurs; otherwise one per under-represented child.
pub open spec fn min_errors(
    schema: CompiledSchema,
    options: ValidationOptions,
    node: ElementSkeleton,
    f: FlatView,
) -> Seq<ErrorView> {
    let c = f.entries;
    if options.skip_min_occurs {
        Seq::empty()
    } else if f.model == ContentModelType::Choice {
        if none_present(schema, options, node, c) && c.len() > 0 {
            let choices = join_names(constraint_keys(c));
            seq![
                node_error(
                    node,
                    ValidationErrorType::MissingRequiredElement,
                    "element '"@ + node.name@ + "' requires one of: "@ + choices,
                    node.name@,
                    Some("one of: "@ + choices),
                    Some("none"@),
                ),
            ]
        } else {
            Seq::empty()
        }
    } else {
        min_errors_seq(schema, options, node, c)
    }
}

/// The errors for children that occur more often than allowed, in table order.
pub open spec fn max_errors_seq(
    schema: CompiledSchema,
    options: ValidationOptions,
    node: ElementSkeleton,
    c: Seq<(String, (u32, Option<u32>))>,
) -> Seq<ErrorView>
    decreases c.len(),
{
    if c.len() == 0 {
        Seq::empty()
    } else {
        let prev = max_errors_seq(schema, options, node, c.drop_last());
        let (name, (_, max)) = c.last();
        let total = total_count(schema, options, node, name@);
        match max {
            Some(m) => if total > m {
                prev.push(
                    node_error(
                        node,
                        ValidationErrorType::TooManyOccurrences,
                        "element '"@ + name@ + "' (or substitutes) occurs "@ + dec(
                            sat(total) as nat,
                        ) + " times, but maximum is "@ + dec(m as nat),
                        name@,
                        None,
                        None,
                    ),
                )
            } else {
                prev
            },
            None => prev,
        }
    }
}

/// A listed name's count is part of the sum over the list.
pub proof fn lemma_listed_count_in_sum(node: ElementSkeleton, names: Seq<String>, i: int)
    requires
        0 <= i < names.len(),
    ensures
        sum_counts(node, names) >= count_of(node.child_counts, names[i]@),
    decreases names.len(),
{
    lemma_sum_counts_nonneg(node, names.drop_last());
    if i < names.len() - 1 {
        lemma_listed_count_in_sum(node, names.drop_last(), i);
        assert(names.drop_last()[i] == names[i]);
    }
    let m = names.last()@;
    if count_of(node.child_counts, m) < 0 {
        match node.child_counts.lookup(m) {
            Some(c) => {},
            None => {},
        }
    }
}

/// The too-many entry of row `name` with bound `max` and total `total`.
pub open spec fn is_too_many_entry(e: ErrorView, name: Seq<char>, total: int, max: u32) -> bool {
    &&& e.error_type == ValidationErrorType::TooManyOccurrences
    &&& e.node_name == Some(name)
    &&& e.message == "element '"@ + name + "' (or substitutes) occurs "@ + dec(sat(total) as nat)
        + " times, but maximum is "@ + dec(max as nat)
}

/// Every row whose total exceeds its bound has its too-many entry, and
/// every entry is the too-many entry of a row whose total exceeds its bound.
proof fn lemma_max_errors_seq_rows(
    schema: CompiledSchema,
    options: ValidationOptions,
    node: ElementSkeleton,
    c: Seq<(String, (u32, Option<u32>))>,
)
    ensures
        forall|j: int|
            0 <= j < c.len() && (#[trigger] c[j]).1.1 is Some && total_count(schema, options, node, c[j].0@)
                > c[j].1.1->0 ==> exists|k: int|
                0 <= k < max_errors_seq(schema, options, node, c).len() && is_too_many_entry(
                    #[trigger] max_errors_seq(schema, options, node, c)[k],
                    c[j].0@,
                    total_count(schema, options, node, c[j].0@),
                    c[j].1.1->0,
                ),
        forall|k: int|
            0 <= k < max_errors_seq(schema, options, node, c).len() ==> exists|j: int|
                0 <= j < c.len() && (#[trigger] c[j]).1.1 is Some && total_count(schema, options, node, c[j].0@)
                    > c[j].1.1->0 && is_too_many_entry(
                    #[trigger] max_errors_seq(schema, options, node, c)[k],
                    c[j].0@,
                    total_count(schema, options, node, c[j].0@),
                    c[j].1.1->0,
                ),
    decreases c.len(),
{
    if c.len() > 0 {
        let d = c.drop_last();
        lemma_max_errors_seq_rows(schema, options, node, d);
        let prev = max_errors_seq(schema, options, node, d);
        let cur = max_errors_seq(schema, options, node, c);
        assert(forall|k: int| 0 <= k < prev.len() ==> cur[k] == prev[k]);
        assert forall|j: int|
            0 <= j < c.len() && (#[trigger] c[j]).1.1 is Some && total_count(schema, options, node, c[j].0@)
                > c[j].1.1->0 implies exists|k: int|
                0 <= k < cur.len() && is_too_many_entry(
                    #[trigger] cur[k],
                    c[j].0@,
                    total_count(schema, options, node, c[j].0@),
                    c[j].1.1->0,
                ) by {
            if j < d.len() {
                assert(d[j] == c[j]);
                let k = choose|k: int|
                    0 <= k < prev.len() && is_too_many_entry(
                        #[trigger] prev[k],
                        d[j].0@,
                        total_count(schema, options, node, d[j].0@),
                        d[j].1.1->0,
                    );
                assert(cur[k] == prev[k]);
            } else {
                assert(cur[prev.len() as int] == cur.last());
            }
        }
        assert forall|k: int| 0 <= k < cur.len() implies exists|j: int|
            0 <= j < c.len() && (#[trigger] c[j]).1.1 is Some && total_count(schema, options, node, c[j].0@)
                > c[j].1.1->0 && is_too_many_entry(
                #[trigger] cur[k],
                c[j].0@,
                total_count(schema, options, node, c[j].0@),
                c[j].1.1->0,
            ) by {
            if k < prev.len() {
                let j = choose|j: int|
                    0 <= j < d.len() && (#[trigger] d[j]).1.1 is Some && total_count(schema, options, node, d[j].0@)
                        > d[j].1.1->0 && is_too_many_entry(
                        #[trigger] prev[k],
                        d[j].0@,
                        total_count(schema, options, node, d[j].0@),
                        d[j].1.1->0,
                    );
                assert(c[j] == d[j]);
            } else {
                let j = c.len() - 1;
                assert(c[j] == c.last());
            }
        }
    }
}

/// The maximum check counts substitutes: for a row of the child table
/// with bound `max`, when the node holds more than `max` children named as
/// the row, as its local part, or as any transitive substitution-group member
/// of it (members not skipped), one `TooManyOccurrences` entry for the row
/// reports the total; and every entry reported is such a row's.
pub proof fn law_max_occurs_counts_substitutes(
    schema: CompiledSchema,
    options: ValidationOptions,
    node: ElementSkeleton,
    f: FlatView,
    j: int,
)
    requires
        !options.skip_max_occurs,
        0 <= j < f.entries.len(),
        f.entries[j].1.1 is Some,
    ensures
        ({
            let name = f.entries[j].0@;
            let max = f.entries[j].1.1->0;
            let direct = count_of(node.child_counts, name);
            let total = direct + (if has_colon(name) {
                count_of(node.child_counts, after_first_colon(name))
            } else {
                0
            }) + (if options.skip_substitution_groups {
                0
            } else {
                sum_counts(node, members_of(schema, name))
            });
            &&& total > max ==> exists|k: int|
                0 <= k < max_errors(schema, options, node, f).len() && is_too_many_entry(
                    #[trigger] max_errors(schema, options, node, f)[k],
                    name,
                    total,
                    max,
                )
            &&& direct > max ==> total > max
            &&& forall|i: int|
                0 <= i < members_of(schema, name).len() && !options.skip_substitution_groups
                    && count_of(node.child_counts, #[trigger] members_of(schema, name)[i]@) > max
                    ==> total > max
        }),
        forall|k: int|
            0 <= k < max_errors(schema, options, node, f).len() ==> exists|i: int|
                0 <= i < f.entries.len() && (#[trigger] f.entries[i]).1.1 is Some && total_count(
                    schema,
                    options,
                    node,
                    f.entries[i].0@,
                ) > f.entries[i].1.1->0 && is_too_many_entry(
                    #[trigger] max_errors(schema, options, node, f)[k],
                    f.entries[i].0@,
                    total_count(schema, options, node, f.entries[i].0@),
                    f.entries[i].1.1->0,
                ),
{
    let name = f.entries[j].0@;
    lemma_max_errors_seq_rows(schema, options, node, f.entries);
    lemma_sum_counts_nonneg(node, members_of(schema, name));
    assert(count_of(node.child_counts, name) >= 0 && (has_colon(name) ==> count_of(
        node.child_counts,
        after_first_colon(name),
    ) >= 0)) by {
        match node.child_counts.lookup(name) {
            Some(c) => {},
            None => {},
        }
        if has_colon(name) {
            match node.child_counts.lookup(after_first_colon(name)) {
                Some(c) => {},
                None => {},
            }
        }
    }
    assert forall|i: int|
        0 <= i < members_of(schema, name).len() && !options.skip_substitution_groups && count_of(
            node.child_counts,
            #[trigger] members_of(schema, name)[i]@,
        ) > f.entries[j].1.1->0 implies sum_counts(node, members_of(schema, name)) > f.entries[j].1.1->0 by {
        lemma_listed_count_in_sum(node, members_of(schema, name), i);
    }
    let total = total_count(schema, options, node, name);
    assert(max_errors(schema, options, node, f) == max_errors_seq(schema, options, node, f.entries));
    if total > f.entries[j].1.1->0 {
        let e = f.entries[j];
        assert(e.1.1 is Some);
    }
}

/// The maximum-occurrence errors for a node.
pub open spec fn max_errors(
    schema: CompiledSchema,
    options: ValidationOptions,
    node: ElementSkeleton,
    f: FlatView,
) -> Seq<ErrorView> {
    if options.skip_max_occurs {
        Seq::empty()
    } else {
        max_errors_seq(schema, options, node, f.entries)
    }
}

/// Two-pass streaming schema validator.
pub struct TwoPassSchemaValidator {
    /// The schema documents are checked against.
    pub schema: Arc<CompiledSchema>,
    /// Which checks run.
    pub options: ValidationOptions,
    /// Strict or lenient.
    pub mode: ValidationMode,
    /// Maximum number of errors to collect (0 = unlimited).
    pub max_errors: usize,
}

impl TwoPassSchemaValidator {
    /// The schema, as a value.
    pub open spec fn sch(&self) -> CompiledSchema {
        *self.schema
    }

    /// Creates a new two-pass validator: strict, all checks, no error cap.
    pub fn new(schema: Arc<CompiledSchema>) -> (v: Self)
        ensures
            v.schema == schema,
            v.options == (ValidationOptions {
                skip_min_occurs: false,
                skip_max_occurs: false,
                skip_substitution_groups: false,
                aggregate_errors: false,
            }),
            v.mode == ValidationMode::Strict,
            v.max_errors == 0,
    {
        TwoPassSchemaValidator {
            schema,
            options: ValidationOptions::default(),
            mode: ValidationMode::Strict,
            max_errors: 0,
        }
    }

    /// Sets the validation mode.
    pub fn with_mode(self, mode: ValidationMode) -> (v: Self)
        ensures
            v == (TwoPassSchemaValidator { mode, ..self }),
    {
        TwoPassSchemaValidator { mode, ..self }
    }

    /// Sets the validation options.
    pub fn with_options(self, options: ValidationOptions) -> (v: Self)
        ensures
            v == (TwoPassSchemaValidator { options, ..self }),
    {
        TwoPassSchemaValidator { options, ..self }
    }

    /// Sets the maximum number of errors to collect.
    pub fn with_max_errors(self, max: usize) -> (v: Self)
        ensures
            v == (TwoPassSchemaValidator { max_errors: max, ..self }),
    {
        TwoPassSchemaValidator { max_errors: max, ..self }
    }

    /// Checks if we should add more errors.
    pub fn should_add_error(&self, errors: &Vec<StructuredError>) -> (r: bool)
        ensures
            r == (self.max_errors == 0 || errors@.len() < self.max_errors),
    {
        self.max_errors == 0 || errors.len() < self.max_errors
    }

    /// Appends an error unless the cap is reached.
    pub fn push_error(&self, errors: &mut Vec<StructuredError>, error: StructuredError)
        ensures
            over_cap(self.max_errors, old(errors)@.len()) ==> final(errors)@ == old(errors)@,
            !over_cap(self.max_errors, old(errors)@.len()) ==> errors_view(final(errors)@) == cap(
                errors_view(old(errors)@).push(view_error(error)),
                self.max_errors,
            ),
            !over_cap(self.max_errors, old(errors)@.len()) ==> (self.max_errors == 0 || final(errors)@.len()
                <= self.max_errors),
    {
        let ghost before = errors@;
        if self.should_add_error(errors) {
            errors.push(error);
            assert(errors_view(errors@) =~= errors_view(before).push(view_error(error)));
        } else {
            proof {
                if before.len() == self.max_errors {
                    assert(errors_view(before).push(view_error(error)).take(self.max_errors as int)
                        =~= errors_view(before));
                }
            }
        }
    }

    /// Creates an error-level entry at the node's position.
    pub fn make_error(
        &self,
        error_type: ValidationErrorType,
        message: String,
        node: &ElementSkeleton,
    ) -> (e: StructuredError)
        ensures
            e.error_type == error_type,
            e.message == message,
            e.level == ErrorLevel::Error,
            e.line == node.line,
            e.column == node.column,
            e.node_name is None,
            e.expected is None,
            e.found is None,
            e.count == 1,
            e.element_path is None,
            e.more_positions@ == Seq::<(Option<usize>, Option<usize>)>::empty(),
    {
        let mut error = StructuredError::new(message, error_type);
        if let Some(line) = node.line {
            error = error.with_line(line);
        }
        if let Some(column) = node.column {
            error = error.with_column(column);
        }
        error
    }

    /// Gets all substitution group members for a head element.
    /// `None` stands for an empty member list.
    pub fn get_all_substitution_members(&self, head_name: &str) -> (r: Option<&Vec<String>>)
        ensures
            match r {
                Some(m) => m@ == members_of(self.sch(), head_name@),
                None => members_of(self.sch(), head_name@).len() == 0,
            },
    {
        match self.schema.transitive_substitution_groups.get(head_name) {
            Some(m) => Some(m),
            None => {
                match split_first_colon(head_name) {
                    Some((_prefix, local)) => self.schema.transitive_substitution_groups.get(
                        local.as_str(),
                    ),
                    None => None,
                }
            },
        }
    }

    /// Gets the total count for an element including substitution group
    /// members (saturating at `u64::MAX`).
    pub fn get_total_count(&self, node: &ElementSkeleton, child_name: &str) -> (r: u64)
        ensures
            r == sat(total_count(self.sch(), self.options, *node, child_name@)),
    {
        let mut count: u64 = node.get_child_count(child_name) as u64;
        let ghost mut exact: int = count as int;
        match split_first_colon(child_name) {
            Some((_prefix, local)) => {
                count = count + node.get_child_count(local.as_str()) as u64;
                proof {
                    exact = exact + count_of(node.child_counts, local@);
                }
            },
            None => {},
        }
        if !self.options.skip_substitution_groups {
            let members: &Vec<String> = match self.get_all_substitution_members(child_name) {
                Some(m) => m,
                None => {
                    proof {
                        assert(members_of(self.sch(), child_name@) =~= Seq::<String>::empty());
                    }
                    return count;
                },
            };
            let mut i: usize = 0;
            while i < members.len()
                invariant
                    i <= members@.len(),
                    count == sat(exact),
                    exact == count_of(node.child_counts, child_name@) + (if has_colon(
                        child_name@,
                    ) {
                        count_of(node.child_counts, after_first_colon(child_name@))
                    } else {
                        0
                    }) + sum_counts(*node, members@.take(i as int)),
                    exact >= 0,
                decreases members@.len() - i,
            {
                let c = node.get_child_count(members[i].as_str()) as u64;
                count = count.saturating_add(c);
                proof {
                    assert(members@.take(i + 1).drop_last() =~= members@.take(i as int));
                    exact = exact + count_of(node.child_counts, members@[i as int]@);
                }
                i = i + 1;
            }
            assert(members@.take(members@.len() as int) =~= members@);
        }
        count
    }
}

/// `items` keys joined with `", "`.
pub(crate) fn join_keys(c: &Vec<(String, (u32, Option<u32>))>) -> (r: String)
    ensures
        r@ == join_names(constraint_keys(c@)),
{
    let mut out = String::new();
    let mut i: usize = 0;
    while i < c.len()
        invariant
            i <= c@.len(),
            out@ == join_names(constraint_keys(c@).take(i as int)),
        decreases c@.len() - i,
    {
        let ghost keys = constraint_keys(c@);
        if i > 0 {
            out.append(", ");
        }
        out.append(c[i].0.as_str());
        proof {
            assert(keys.take(i + 1).drop_last() =~= keys.take(i as int));
            if i == 0 {
                assert(keys.take(1)[0] == c@[0].0);
            }
        }
        i = i + 1;
    }
    assert(constraint_keys(c@).take(c@.len() as int) =~= constraint_keys(c@));
    out
}

impl TwoPassSchemaValidator {
    /// Batch validates min_occurs for all children.
    pub fn validate_min_occurs_batch(
        &self,
        node: &ElementSkeleton,
        flattened: &FlattenedChildren,
        errors: &mut Vec<StructuredError>,
    )
        ensures
            over_cap(self.max_errors, old(errors)@.len()) ==> final(errors)@ == old(errors)@,
            !over_cap(self.max_errors, old(errors)@.len()) ==> errors_view(final(errors)@) == cap(
                errors_view(old(errors)@) + min_errors(
                    self.sch(),
                    self.options,
                    *node,
                    flat_view(*flattened),
                ),
                self.max_errors,
            ),
            !over_cap(self.max_errors, old(errors)@.len()) ==> (self.max_errors == 0 || final(errors)@.len()
                <= self.max_errors),
    {
        if self.max_errors > 0 && errors.len() > self.max_errors {
            return;
        }
        let ghost e0 = errors_view(errors@);
        let c = &flattened.constraints.entries;
        if self.options.skip_min_occurs {
            assert(e0 + Seq::<ErrorView>::empty() =~= e0);
            return;
        }
        if flattened.content_model_type == ContentModelType::Choice {
            let mut any = false;
            let mut i: usize = 0;
            while i < c.len()
                invariant
                    i <= c@.len(),
                    !any ==> forall|k: int|
                        0 <= k < i ==> total_count(self.sch(), self.options, *node, #[trigger] c@[k].0@)
                            == 0,
                    any ==> !none_present(self.sch(), self.options, *node, c@),
                decreases c@.len() - i,
            {
                let t = self.get_total_count(node, c[i].0.as_str());
                proof {
                    lemma_total_nonneg(self.sch(), self.options, *node, c@[i as int].0@);
                }
                if !any && t > 0 {
                    any = true;
                }
                i = i + 1;
            }
            if !any && c.len() > 0 {
                let choices = join_keys(c);
                let mut msg = String::from_str("element '");
                msg.append(node.name.as_str());
                msg.append("' requires one of: ");
                msg.append(choices.as_str());
                let mut expected = String::from_str("one of: ");
                expected.append(choices.as_str());
                proof {
                    assert(msg@ =~= "element '"@ + node.name@ + "' requires one of: "@ + choices@);
                    assert(forall|k: int| 0 <= k < c@.len() ==> total_count(self.sch(), self.options, *node, #[trigger] c@[k].0@) == 0);
                    assert(none_present(self.sch(), self.options, *node, c@));
                }
                let error = self.make_error(ValidationErrorType::MissingRequiredElement, msg, node)
                    .with_node_name(node.name.clone()).with_expected(expected).with_found(
                    String::from_str("none"),
                ).with_level(ErrorLevel::Error);
                self.push_error(errors, error);
            } else {
                assert(e0 + Seq::<ErrorView>::empty() =~= e0);
            }
            return;
        }
        let mut i: usize = 0;
        while i < c.len()
            invariant
                i <= c@.len(),
                self.max_errors == 0 || errors@.len() <= self.max_errors,
                errors_view(errors@) == cap(
                    e0 + min_errors_seq(self.sch(), self.options, *node, c@.take(i as int)),
                    self.max_errors,
                ),
                !self.options.skip_min_occurs,
                flattened.content_model_type != ContentModelType::Choice,
            decreases c@.len() - i,
        {
            let ghost before = errors_view(errors@);
            let name = &c[i].0;
            let min_occurs = c[i].1.0;
            proof {
                assert(c@.take(i + 1).drop_last() =~= c@.take(i as int));
            }
            proof {
                assert(c@.take(i + 1).last() == c@[i as int]);
                lemma_total_nonneg(self.sch(), self.options, *node, c@[i as int].0@);
            }
            if min_occurs > 0 {
                let actual = self.get_total_count(node, name.as_str());
                if actual < min_occurs as u64 {
                    let error_type = if actual == 0 {
                        ValidationErrorType::MissingRequiredElement
                    } else {
                        ValidationErrorType::TooFewOccurrences
                    };
                    let min_s = decimal_string(min_occurs as u64);
                    let act_s = decimal_string(actual);
                    let mut msg = String::from_str("element '");
                    msg.append(node.name.as_str());
                    msg.append("' requires child '");
                    msg.append(name.as_str());
                    msg.append("' at least ");
                    msg.append(min_s.as_str());
                    msg.append(" time(s), but found ");
                    msg.append(act_s.as_str());
                    let mut expected = String::from_str("at least ");
                    expected.append(min_s.as_str());
                    expected.append(" occurrence(s) of '");
                    expected.append(name.as_str());
                    expected.append("'");
                    let mut found = act_s;
                    found.append(" occurrence(s)");
                    let error = self.make_error(error_type, msg, node).with_node_name(
                        node.name.clone(),
                    ).with_expected(expected).with_found(found).with_level(ErrorLevel::Error);
                    proof {
                        assert(msg@ =~= "element '"@ + node.name@ + "' requires child '"@ + name@
                            + "' at least "@ + dec(min_occurs as nat) + " time(s), but found "@
                            + dec(actual as nat));
                        assert(expected@ =~= "at least "@ + dec(min_occurs as nat)
                            + " occurrence(s) of '"@ + name@ + "'"@);
                    }
                    self.push_error(errors, error);
                    proof {
                        let e = view_error(error);
                        lemma_cap_append(
                            e0,
                            min_errors_seq(self.sch(), self.options, *node, c@.take(i as int)),
                            seq![e],
                            self.max_errors,
                        );
                        assert(min_errors_seq(self.sch(), self.options, *node, c@.take(i + 1))
                            =~= min_errors_seq(
                            self.sch(),
                            self.options,
                            *node,
                            c@.take(i as int),
                        ).push(e));
                        assert(e0 + min_errors_seq(
                            self.sch(),
                            self.options,
                            *node,
                            c@.take(i as int),
                        ) + seq![e] =~= e0 + min_errors_seq(
                            self.sch(),
                            self.options,
                            *node,
                            c@.take(i + 1),
                        ));
                        assert(before.push(e) =~= before + seq![e]);
                    }
                }
            }
            i = i + 1;
        }
        assert(c@.take(c@.len() as int) =~= c@);
    }
}

impl TwoPassSchemaValidator {
    /// Batch validates max_occurs for all children.
    pub fn validate_max_occurs_batch(
        &self,
        node: &ElementSkeleton,
        flattened: &FlattenedChildren,
        errors: &mut Vec<StructuredError>,
    )
        ensures
            over_cap(self.max_errors, old(errors)@.len()) ==> final(errors)@ == old(errors)@,
            !over_cap(self.max_errors, old(errors)@.len()) ==> errors_view(final(errors)@) == cap(
                errors_view(old(errors)@) + max_errors(
                    self.sch(),
                    self.options,
                    *node,
                    flat_view(*flattened),
                ),
                self.max_errors,
            ),
            !over_cap(self.max_errors, old(errors)@.len()) ==> (self.max_errors == 0 || final(errors)@.len()
                <= self.max_errors),
    {
        if self.max_errors > 0 && errors.len() > self.max_errors {
            return;
        }
        let ghost e0 = errors_view(errors@);
        let c = &flattened.constraints.entries;
        if self.options.skip_max_occurs {
            assert(e0 + Seq::<ErrorView>::empty() =~= e0);
            return;
        }
        let mut i: usize = 0;
        while i < c.len()
            invariant
                i <= c@.len(),
                self.max_errors == 0 || errors@.len() <= self.max_errors,
                errors_view(errors@) == cap(
                    e0 + max_errors_seq(self.sch(), self.options, *node, c@.take(i as int)),
                    self.max_errors,
                ),
            decreases c@.len() - i,
        {
            let ghost before = errors_view(errors@);
            let name = &c[i].0;
            proof {
                assert(c@.take(i + 1).drop_last() =~= c@.take(i as int));
                assert(c@.take(i + 1).last() == c@[i as int]);
                lemma_total_nonneg(self.sch(), self.options, *node, c@[i as int].0@);
            }
            if let Some(max) = c[i].1.1 {
                let total = self.get_total_count(node, name.as_str());
                if total > max as u64 {
                    let tot_s = decimal_string(total);
                    let max_s = decimal_string(max as u64);
                    let mut msg = String::from_str("element '");
                    msg.append(name.as_str());
                    msg.append("' (or substitutes) occurs ");
                    msg.append(tot_s.as_str());
                    msg.append(" times, but maximum is ");
                    msg.append(max_s.as_str());
                    proof {
                        assert(msg@ =~= "element '"@ + name@ + "' (or substitutes) occurs "@ + dec(
                            total as nat,
                        ) + " times, but maximum is "@ + dec(max as nat));
                    }
                    let error = self.make_error(ValidationErrorType::TooManyOccurrences, msg, node)
                        .with_node_name(name.clone()).with_level(ErrorLevel::Error);
                    self.push_error(errors, error);
                    proof {
                        let e = view_error(error);
                        let prev = max_errors_seq(self.sch(), self.options, *node, c@.take(i as int));
                        lemma_cap_append(e0, prev, seq![e], self.max_errors);
                        assert(max_errors_seq(self.sch(), self.options, *node, c@.take(i + 1))
                            =~= prev.push(e));
                        assert(e0 + prev + seq![e] =~= e0 + prev.push(e));
                        assert(before.push(e) =~= before + seq![e]);
                    }
                }
            }
            i = i + 1;
        }
        assert(c@.take(c@.len() as int) =~= c@);
    }
}

/// `p` is the first position at or after `from` where `ordered` holds `a`.
pub open spec fn first_at(ordered: Seq<String>, a: Seq<char>, from: int, p: int) -> bool {
    &&& from <= p < ordered.len()
    &&& ordered[p]@ == a
    &&& forall|q: int| from <= q < p ==> #[trigger] ordered[q]@ != a
}

/// The first position at or after `from` holding `a`.
pub open spec fn first_from(ordered: Seq<String>, a: Seq<char>, from: int) -> Option<int> {
    if exists|p: int| first_at(ordered, a, from, p) {
        Some(choose|p: int| first_at(ordered, a, from, p))
    } else {
        None
    }
}

/// `a` occurs in `ordered` before position `upto`.
pub open spec fn occurs_before(ordered: Seq<String>, a: Seq<char>, upto: int) -> bool {
    exists|p: int| 0 <= p < upto && p < ordered.len() && #[trigger] ordered[p]@ == a
}

/// Walks the children from `k` on, matching each child name to the first
/// declared position at or after the current one `e`. Returns the first child
/// that only occurs earlier in the declared order, with the position reached.
pub open spec fn order_violation(
    nodes: Seq<ElementSkeleton>,
    idxs: Seq<usize>,
    k: int,
    ordered: Seq<String>,
    e: int,
) -> Option<(Seq<char>, int)>
    decreases idxs.len() - k,
{
    if k >= idxs.len() || k < 0 {
        None
    } else if idxs[k] >= nodes.len() {
        order_violation(nodes, idxs, k + 1, ordered, e)
    } else {
        let a = nodes[idxs[k] as int].name@;
        match first_from(ordered, a, e) {
            Some(p) => order_violation(nodes, idxs, k + 1, ordered, p),
            None => if occurs_before(ordered, a, e) {
                Some((a, e))
            } else {
                order_violation(nodes, idxs, k + 1, ordered, e)
            },
        }
    }
}

/// The sequence-order error of a node, if any.
pub open spec fn sequence_errors(
    nodes: Seq<ElementSkeleton>,
    node: ElementSkeleton,
    f: FlatView,
) -> Seq<ErrorView> {
    let ordered = f.ordered;
    if f.model != ContentModelType::Sequence || ordered.len() == 0 {
        Seq::empty()
    } else {
        match order_violation(nodes, node.children_indices@, 0, ordered, 0) {
            None => Seq::empty(),
            Some((a, e)) => seq![
                node_error(
                    node,
                    ValidationErrorType::InvalidContent,
                    "element '"@ + a + "' in '"@ + node.name@
                        + "' appears out of sequence order (expected after '"@ + (if e > 0 {
                        ordered[e - 1]@
                    } else {
                        "(beginning)"@
                    }) + "')"@,
                    node.name@,
                    None,
                    None,
                ),
            ],
        }
    }
}

/// Finds the first position at or after `from` holding `a`.
fn find_from(ordered: &Vec<String>, a: &str, from: usize) -> (r: Option<usize>)
    requires
        from <= ordered@.len(),
    ensures
        match r {
            Some(p) => first_from(ordered@, a@, from as int) == Some(p as int),
            None => first_from(ordered@, a@, from as int) is None,
        },
{
    let mut p = from;
    while p < ordered.len()
        invariant
            from <= p <= ordered@.len(),
            forall|q: int| from <= q < p ==> #[trigger] ordered@[q]@ != a@,
        decreases ordered@.len() - p,
    {
        if crate::text::str_eq(ordered[p].as_str(), a) {
            proof {
                assert(first_at(ordered@, a@, from as int, p as int));
                let c = choose|c: int| first_at(ordered@, a@, from as int, c);
                if c < p {
                    assert(ordered@[c]@ != a@);
                }
                if p < c {
                    assert(ordered@[p as int]@ != a@);
                }
            }
            return Some(p);
        }
        p = p + 1;
    }
    None
}

/// Whether `a` occurs before position `upto`.
fn find_before(ordered: &Vec<String>, a: &str, upto: usize) -> (r: bool)
    requires
        upto <= ordered@.len(),
    ensures
        r == occurs_before(ordered@, a@, upto as int),
{
    let mut p: usize = 0;
    while p < upto
        invariant
            p <= upto <= ordered@.len(),
            forall|q: int| 0 <= q < p ==> #[trigger] ordered@[q]@ != a@,
        decreases upto - p,
    {
        if crate::text::str_eq(ordered[p].as_str(), a) {
            return true;
        }
        p = p + 1;
    }
    false
}

impl TwoPassSchemaValidator {
    /// Validates that child elements appear in the correct sequence order.
    pub fn validate_sequence_order(
        &self,
        skeleton: &DocumentSkeleton,
        node: &ElementSkeleton,
        flattened: &FlattenedChildren,
        errors: &mut Vec<StructuredError>,
    )
        ensures
            over_cap(self.max_errors, old(errors)@.len()) ==> final(errors)@ == old(errors)@,
            !over_cap(self.max_errors, old(errors)@.len()) ==> errors_view(final(errors)@) == cap(
                errors_view(old(errors)@) + sequence_errors(skeleton.nodes@, *node, flat_view(*flattened)),
                self.max_errors,
            ),
            !over_cap(self.max_errors, old(errors)@.len()) ==> (self.max_errors == 0 || final(errors)@.len()
                <= self.max_errors),
    {
        if self.max_errors > 0 && errors.len() > self.max_errors {
            return;
        }
        let ghost e0 = errors_view(errors@);
        let ordered = &flattened.ordered_elements;
        if flattened.content_model_type != ContentModelType::Sequence || ordered.len() == 0 {
            assert(e0 + Seq::<ErrorView>::empty() =~= e0);
            return;
        }
        let idxs = &node.children_indices;
        let ghost start = errors@;
        let mut expected_index: usize = 0;
        let mut k: usize = 0;
        while k < idxs.len()
            invariant
                k <= idxs@.len(),
                expected_index <= ordered@.len(),
                ordered@.len() > 0,
                order_violation(skeleton.nodes@, idxs@, 0, ordered@, 0) == order_violation(
                    skeleton.nodes@,
                    idxs@,
                    k as int,
                    ordered@,
                    expected_index as int,
                ),
                errors_view(errors@) == e0,
                errors@ == start,
                self.max_errors == 0 || errors@.len() <= self.max_errors,
                flattened.content_model_type == ContentModelType::Sequence,
                ordered@ == flattened.ordered_elements@,
                idxs@ == node.children_indices@,
                e0 == errors_view(old(errors)@),
            decreases idxs@.len() - k,
        {
            let idx = idxs[k];
            let ghost ov = order_violation(skeleton.nodes@, idxs@, 0, ordered@, 0);
            if let Some(child) = skeleton.get_node(idx) {
                let a = child.name.as_str();
                match find_from(ordered, a, expected_index) {
                    Some(pos) => {
                        proof {
                            assert(order_violation(
                                skeleton.nodes@,
                                idxs@,
                                k as int,
                                ordered@,
                                expected_index as int,
                            ) == order_violation(
                                skeleton.nodes@,
                                idxs@,
                                k + 1,
                                ordered@,
                                pos as int,
                            ));
                        }
                        expected_index = pos;
                    },
                    None => {
                        if find_before(ordered, a, expected_index) {
                            let mut msg = String::from_str("element '");
                            msg.append(a);
                            msg.append("' in '");
                            msg.append(node.name.as_str());
                            msg.append("' appears out of sequence order (expected after '");
                            if expected_index > 0 {
                                msg.append(ordered[expected_index - 1].as_str());
                            } else {
                                msg.append("(beginning)");
                            }
                            msg.append("')");
                            proof {
                                assert(msg@ =~= "element '"@ + a@ + "' in '"@ + node.name@
                                    + "' appears out of sequence order (expected after '"@ + (
                                if expected_index > 0 {
                                    ordered@[expected_index - 1]@
                                } else {
                                    "(beginning)"@
                                }) + "')"@);
                            }
                            let error = self.make_error(
                                ValidationErrorType::InvalidContent,
                                msg,
                                node,
                            ).with_node_name(node.name.clone()).with_level(ErrorLevel::Error);
                            self.push_error(errors, error);
                            proof {
                                assert(view_error(error) == node_error(
                                    *node,
                                    ValidationErrorType::InvalidContent,
                                    msg@,
                                    node.name@,
                                    None,
                                    None,
                                ));
                                assert(e0.push(view_error(error)) =~= e0 + seq![view_error(error)]);
                                assert(order_violation(
                                    skeleton.nodes@,
                                    idxs@,
                                    k as int,
                                    ordered@,
                                    expected_index as int,
                                ) == Some((a@, expected_index as int)));
                                let ov = order_violation(
                                    skeleton.nodes@,
                                    node.children_indices@,
                                    0,
                                    flattened.ordered_elements@,
                                    0,
                                );
                                assert(ov == Some((a@, expected_index as int)));
                                assert(flattened.ordered_elements@.len() > 0);
                                let ord = flattened.ordered_elements@;
                                let e = expected_index as int;
                                let m = "element '"@ + a@ + "' in '"@ + node.name@
                                    + "' appears out of sequence order (expected after '"@ + (if e
                                    > 0 {
                                    ord[e - 1]@
                                } else {
                                    "(beginning)"@
                                }) + "')"@;
                                assert(msg@ == m);
                                assert(sequence_errors(skeleton.nodes@, *node, flat_view(*flattened))[0]
                                    == view_error(error));
                                assert(sequence_errors(skeleton.nodes@, *node, flat_view(*flattened)) =~= seq![
                                    view_error(error),
                                ]);
                            }
                            return;
                        }
                        proof {
                            assert(order_violation(
                                skeleton.nodes@,
                                idxs@,
                                k as int,
                                ordered@,
                                expected_index as int,
                            ) == order_violation(
                                skeleton.nodes@,
                                idxs@,
                                k + 1,
                                ordered@,
                                expected_index as int,
                            ));
                        }
                    },
                }
            } else {
                proof {
                    assert(order_violation(
                        skeleton.nodes@,
                        idxs@,
                        k as int,
                        ordered@,
                        expected_index as int,
                    ) == order_violation(
                        skeleton.nodes@,
                        idxs@,
                        k + 1,
                        ordered@,
                        expected_index as int,
                    ));
                }
            }
            k = k + 1;
        }
        assert(e0 + Seq::<ErrorView>::empty() =~= e0);
    }
}

} // verus!
