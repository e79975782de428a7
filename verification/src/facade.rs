//! The [`Validator`] entry point and its [`Report`] result.
use std::sync::Arc;
use vstd::prelude::*;

use crate::error::{count_overflow, level_is_error, ErrorLevel, StructuredError, ValidationError};
use crate::mode::ValidationMode;
use crate::schema::CompiledSchema;
use crate::two_pass::{cap, errors_view, ErrorView, TwoPassSchemaValidator, ValidationOptions};
use crate::validation::document_errors;
use crate::skeleton::{builds, overflows, DocumentSkeleton};
use crate::xml::{tokens, EventView};
use crate::aggregate::{aggregate_all, aggregated};
use crate::attr_pass::{attr_errors, attribute_errors};
use crate::xml::parse_events;

verus! {

/// The error-level entries of a list, in order.
pub open spec fn errors_in(s: Seq<StructuredError>) -> Seq<StructuredError>
    decreases s.len(),
{
    if s.len() == 0 {
        Seq::empty()
    } else if level_is_error(s.last().level) {
        errors_in(s.drop_last()).push(s.last())
    } else {
        errors_in(s.drop_last())
    }
}

/// The warning-level entries of a list, in order.
pub open spec fn warnings_in(s: Seq<StructuredError>) -> Seq<StructuredError>
    decreases s.len(),
{
    if s.len() == 0 {
        Seq::empty()
    } else if s.last().level == ErrorLevel::Warning {
        warnings_in(s.drop_last()).push(s.last())
    } else {
        warnings_in(s.drop_last())
    }
}

/// The entries behind a list of references.
pub open spec fn deref_entries(s: Seq<&StructuredError>) -> Seq<StructuredError> {
    s.map_values(|e: &StructuredError| *e)
}

/// The error-level entries of a list, in order.
pub fn error_entries(entries: &[StructuredError]) -> (r: Vec<&StructuredError>)
    ensures
        deref_entries(r@) == errors_in(entries@),
{
    let mut out: Vec<&StructuredError> = Vec::new();
    let mut i: usize = 0;
    while i < entries.len()
        invariant
            i <= entries@.len(),
            deref_entries(out@) == errors_in(entries@.take(i as int)),
        decreases entries@.len() - i,
    {
        let e = &entries[i];
        let ghost prev = out@;
        proof {
            assert(entries@.take(i + 1).drop_last() =~= entries@.take(i as int));
        }
        if e.is_error() {
            out.push(e);
            proof {
                assert(deref_entries(out@) =~= deref_entries(prev).push(*e));
            }
        }
        i = i + 1;
    }
    proof {
        assert(entries@.take(entries@.len() as int) =~= entries@);
    }
    out
}

/// The warning-level entries of a list, in order.
pub fn warning_entries(entries: &[StructuredError]) -> (r: Vec<&StructuredError>)
    ensures
        deref_entries(r@) == warnings_in(entries@),
{
    let mut out: Vec<&StructuredError> = Vec::new();
    let mut i: usize = 0;
    while i < entries.len()
        invariant
            i <= entries@.len(),
            deref_entries(out@) == warnings_in(entries@.take(i as int)),
        decreases entries@.len() - i,
    {
        let e = &entries[i];
        let ghost prev = out@;
        proof {
            assert(entries@.take(i + 1).drop_last() =~= entries@.take(i as int));
        }
        if e.is_warning() {
            out.push(e);
            proof {
                assert(deref_entries(out@) =~= deref_entries(prev).push(*e));
            }
        }
        i = i + 1;
    }
    proof {
        assert(entries@.take(entries@.len() as int) =~= entries@);
    }
    out
}

/// The number of error-level entries of a list.
pub fn count_errors(entries: &[StructuredError]) -> (r: usize)
    ensures
        r == errors_in(entries@).len(),
{
    let mut n: usize = 0;
    let mut i: usize = 0;
    while i < entries.len()
        invariant
            i <= entries@.len(),
            n == errors_in(entries@.take(i as int)).len(),
            n <= i,
        decreases entries@.len() - i,
    {
        proof {
            assert(entries@.take(i + 1).drop_last() =~= entries@.take(i as int));
        }
        if entries[i].is_error() {
            n = n + 1;
        }
        i = i + 1;
    }
    proof {
        assert(entries@.take(entries@.len() as int) =~= entries@);
    }
    n
}

/// The number of warning-level entries of a list.
pub fn count_warnings(entries: &[StructuredError]) -> (r: usize)
    ensures
        r == warnings_in(entries@).len(),
{
    let mut n: usize = 0;
    let mut i: usize = 0;
    while i < entries.len()
        invariant
            i <= entries@.len(),
            n == warnings_in(entries@.take(i as int)).len(),
            n <= i,
        decreases entries@.len() - i,
    {
        proof {
            assert(entries@.take(i + 1).drop_last() =~= entries@.take(i as int));
        }
        if entries[i].is_warning() {
            n = n + 1;
        }
        i = i + 1;
    }
    proof {
        assert(entries@.take(entries@.len() as int) =~= entries@);
    }
    n
}

/// The outcome of a validation run: the collected entries (errors and
/// warnings alike) with accessors.
#[derive(Debug, Clone)]
pub struct Report {
    entries: Vec<StructuredError>,
}

impl Report {
    /// The collected entries, in order.
    pub closed spec fn entries_spec(&self) -> Seq<StructuredError> {
        self.entries@
    }

    /// A report of the given entries.
    pub fn new(entries: Vec<StructuredError>) -> (r: Report)
        ensures
            r.entries_spec() == entries@,
    {
        Report { entries }
    }

    /// True if there are no error-level entries (warnings are allowed).
    pub fn is_valid(&self) -> (r: bool)
        ensures
            r == (errors_in(self.entries_spec()).len() == 0),
            r == forall|i: int|
                0 <= i < self.entries_spec().len() ==> !level_is_error(
                    #[trigger] self.entries_spec()[i].level,
                ),
    {
        let n = self.error_count();
        proof {
            lemma_errors_in_empty(self.entries@);
        }
        n == 0
    }

    /// True if there are no entries at all.
    pub fn is_clean(&self) -> (r: bool)
        ensures
            r == (self.entries_spec().len() == 0),
    {
        self.entries.len() == 0
    }

    /// All collected entries, errors and warnings alike.
    pub fn entries(&self) -> (r: &[StructuredError])
        ensures
            r@ == self.entries_spec(),
    {
        self.entries.as_slice()
    }

    /// Only the error-level entries.
    pub fn errors(&self) -> (r: Vec<&StructuredError>)
        ensures
            deref_entries(r@) == errors_in(self.entries_spec()),
    {
        error_entries(self.entries.as_slice())
    }

    /// Only the warning-level entries.
    pub fn warnings(&self) -> (r: Vec<&StructuredError>)
        ensures
            deref_entries(r@) == warnings_in(self.entries_spec()),
    {
        warning_entries(self.entries.as_slice())
    }

    /// Number of error-level entries.
    pub fn error_count(&self) -> (r: usize)
        ensures
            r == errors_in(self.entries_spec()).len(),
    {
        count_errors(self.entries.as_slice())
    }

    /// Number of warning-level entries.
    pub fn warning_count(&self) -> (r: usize)
        ensures
            r == warnings_in(self.entries_spec()).len(),
    {
        count_warnings(self.entries.as_slice())
    }

    /// Consumes the report, returning all collected entries.
    pub fn into_entries(self) -> (r: Vec<StructuredError>)
        ensures
            r@ == self.entries_spec(),
    {
        self.entries
    }
}

/// No error-level entry is left out: the list has none exactly when no
/// entry is an error.
pub proof fn lemma_errors_in_empty(s: Seq<StructuredError>)
    ensures
        (errors_in(s).len() == 0) == forall|i: int|
            0 <= i < s.len() ==> !level_is_error(#[trigger] s[i].level),
    decreases s.len(),
{
    if s.len() > 0 {
        lemma_errors_in_empty(s.drop_last());
        if errors_in(s).len() == 0 {
            assert forall|i: int| 0 <= i < s.len() implies !level_is_error(#[trigger] s[i].level) by {
                if i < s.len() - 1 {
                    assert(s.drop_last()[i] == s[i]);
                }
            }
        } else if forall|i: int| 0 <= i < s.len() ==> !level_is_error(#[trigger] s[i].level) {
            assert(!level_is_error(s[s.len() - 1].level));
            assert forall|i: int| 0 <= i < s.drop_last().len() implies !level_is_error(
                #[trigger] s.drop_last()[i].level,
            ) by {
                assert(s.drop_last()[i] == s[i]);
            }
        }
    }
}

/// A front door for schema validation: `from_reader(text)`, then optional
/// `schema` / `mode` / `max_errors`, then `run()`.
pub struct Validator<'a> {
    /// The document text.
    pub source: &'a str,
    /// The compiled schema to check against; without one, the schema would
    /// be resolved from `xsi:schemaLocation`.
    pub schema: Option<Arc<CompiledSchema>>,
    /// Strict or lenient.
    pub mode: ValidationMode,
    /// Cap on collected errors.
    pub max_errors: Option<usize>,
    /// Collapse repeated errors into one entry with a count.
    pub aggregate: bool,
}

/// The message of a run that would need the default schema fetcher.
pub open spec fn no_fetcher_message() -> Seq<char> {
    "resolving xsi:schemaLocation with the default fetcher requires the `ureq` feature; enable it, call .schema(...) with an explicit schema, or use .run_with(fetcher)"@
}

/// The entries of a run with an explicit schema on a document with events
/// `es`: the element errors of its tree, then its start-tag, attribute and
/// ID errors in document order; all of them under the cap, or, when repeats are
/// collapsed, collapsed with each new one kept under the cap.
pub open spec fn run_entries(
    schema: Arc<CompiledSchema>,
    mode: ValidationMode,
    max: Option<usize>,
    aggregate: bool,
    es: Seq<EventView>,
) -> Seq<ErrorView> {
    let all = document_errors(engine_of(schema, mode, None), es) + attr_errors(*schema, es);
    if aggregate {
        aggregated(Seq::empty(), all, engine_of(schema, mode, max).max_errors)
    } else {
        cap(all, engine_of(schema, mode, max).max_errors)
    }
}

/// The engine a validator with an explicit schema runs.
pub open spec fn engine_of(schema: Arc<CompiledSchema>, mode: ValidationMode, max: Option<usize>) -> TwoPassSchemaValidator {
    TwoPassSchemaValidator {
        schema,
        options: ValidationOptions {
            skip_min_occurs: false,
            skip_max_occurs: false,
            skip_substitution_groups: false,
            aggregate_errors: false,
        },
        mode,
        max_errors: match max {
            Some(m) => m,
            None => 0,
        },
    }
}

impl<'a> From<&'a str> for Validator<'a> {
    /// A validator for a document's text: strict, with no schema, no error
    /// cap and no collapsing (the same as [`Validator::from_reader`]).
    fn from(source: &'a str) -> (v: Validator<'a>) {
        Validator {
            source,
            schema: None,
            mode: ValidationMode::Strict,
            max_errors: None,
            aggregate: false,
        }
    }
}

impl<'a> vstd::std_specs::convert::FromSpecImpl<&'a str> for Validator<'a> {
    open spec fn obeys_from_spec() -> bool {
        true
    }

    open spec fn from_spec(source: &'a str) -> Validator<'a> {
        Validator {
            source,
            schema: None,
            mode: ValidationMode::Strict,
            max_errors: None,
            aggregate: false,
        }
    }
}

impl<'a> Validator<'a> {
    /// A validator for a document's text (as read by the caller), strict,
    /// with no schema and no error cap.
    pub fn from_reader(source: &'a str) -> (v: Validator<'a>)
        ensures
            v.source == source,
            v.schema is None,
            v.mode == ValidationMode::Strict,
            v.max_errors is None,
            !v.aggregate,
    {
        Validator {
            source,
            schema: None,
            mode: ValidationMode::default(),
            max_errors: None,
            aggregate: false,
        }
    }

    /// Validates against an explicit, already-compiled schema.
    pub fn schema(self, schema: Arc<CompiledSchema>) -> (v: Validator<'a>)
        ensures
            v == (Validator { schema: Some(schema), ..self }),
    {
        Validator { schema: Some(schema), ..self }
    }

    /// Sets the validation mode.
    pub fn mode(self, mode: ValidationMode) -> (v: Validator<'a>)
        ensures
            v == (Validator { mode, ..self }),
    {
        Validator { mode, ..self }
    }

    /// Caps the number of collected errors.
    pub fn max_errors(self, max: usize) -> (v: Validator<'a>)
        ensures
            v == (Validator { max_errors: Some(max), ..self }),
    {
        Validator { max_errors: Some(max), ..self }
    }

    /// Collapses repeated errors (same message and node) into one entry
    /// whose count records the occurrences and whose further positions are
    /// kept.
    pub fn aggregate_errors(self) -> (v: Validator<'a>)
        ensures
            v == (Validator { aggregate: true, ..self }),
    {
        Validator { aggregate: true, ..self }
    }

    /// Runs validation and returns a [`Report`]. With an explicit schema the
    /// document is checked by the two-pass engine (element declarations,
    /// occurrences, sequence order and text), then its start tags (abstract
    /// declarations, `xsi:nil`, `xsi:type`), attributes and ID / IDREF
    /// values are checked in document order (repeats collapsed when
    /// [`aggregate_errors`](Self::aggregate_errors) was called); without one the schema
    /// would have to be fetched from `xsi:schemaLocation`, which needs a
    /// fetcher, and the run fails with `InvalidOperation`.
    pub fn run(self) -> (r: Result<Report, ValidationError>)
        ensures
            self.schema is None ==> (r matches Err(ValidationError::InvalidOperation(m)) && m@
                == no_fetcher_message()),
            self.schema matches Some(s) ==> match r {
                Ok(rep) => tokens(self.source@) matches Some(es) && !overflows(es) && (exists|sk: DocumentSkeleton|
                    #[trigger] builds(sk, es)) && errors_view(rep.entries_spec()) == run_entries(
                        s,
                        self.mode,
                        self.max_errors,
                        self.aggregate,
                        es,
                    ),
                Err(e) => match tokens(self.source@) {
                    None => e is Syntax,
                    Some(es) => overflows(es) && count_overflow(e),
                },
            },
    {
        match self.schema {
            Some(schema) => {
                let engine = TwoPassSchemaValidator::new(schema).with_mode(self.mode);
                let entries = match engine.validate(self.source) {
                    Ok(entries) => entries,
                    Err(e) => return Err(e),
                };
                let events = match parse_events(self.source) {
                    Ok(events) => events,
                    Err(e) => return Err(e),
                };
                let mut all = entries;
                let mut attrs = attribute_errors(&engine, &events);
                let ghost d = errors_view(all@);
                let ghost a = errors_view(attrs@);
                all.append(&mut attrs);
                proof {
                    assert(errors_view(all@) =~= d + a);
                    assert(cap(d, 0) == d);
                }
                let max = match self.max_errors {
                    Some(m) => m,
                    None => 0,
                };
                if self.aggregate {
                    Ok(Report::new(aggregate_all(all, max)))
                } else {
                    if max > 0 {
                        let ghost before = all@;
                        all.truncate(max);
                        proof {
                            if max <= before.len() {
                                assert(errors_view(all@) =~= errors_view(before).take(max as int));
                            }
                        }
                    }
                    Ok(Report::new(all))
                }
            },
            None => {
                proof {
                    reveal_strlit(
                        "resolving xsi:schemaLocation with the default fetcher requires the `ureq` feature; enable it, call .schema(...) with an explicit schema, or use .run_with(fetcher)",
                    );
                }
                Err(
                    ValidationError::InvalidOperation(
                        String::from_str(
                            "resolving xsi:schemaLocation with the default fetcher requires the `ureq` feature; enable it, call .schema(...) with an explicit schema, or use .run_with(fetcher)",
                        ),
                    ),
                )
            },
        }
    }
}

} // verus!
