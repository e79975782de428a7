//! Validation against the schemas a document names in `xsi:schemaLocation`:
//! which locations it names, and what each fetch, parse, compile and
//! validation outcome contributes. Fetching, parsing and compiling are done
//! by the caller, which hands each outcome back.
use vstd::prelude::*;

use crate::error::{ErrorLevel, StructuredError, ValidationError, ValidationErrorType};
use crate::text::{split_whitespace_str, str_eq, strings_view, ws_words};
use crate::two_pass::{errors_view, ErrorView};

verus! {

/// The value of the first attribute named `xsi:schemaLocation` or
/// `schemaLocation`.
pub open spec fn location_attr(attrs: Seq<(String, String)>) -> Option<Seq<char>>
    decreases attrs.len(),
{
    if attrs.len() == 0 {
        None
    } else if attrs[0].0@ == "xsi:schemaLocation"@ || attrs[0].0@ == "schemaLocation"@ {
        Some(attrs[0].1@)
    } else {
        location_attr(attrs.drop_first())
    }
}

/// The (namespace, location) pairs of a list of words: each complete pair
/// in turn; a last word without a partner is ignored.
pub open spec fn location_pairs(ws: Seq<Seq<char>>) -> Seq<(Seq<char>, Seq<char>)>
    decreases ws.len(),
{
    if ws.len() < 2 {
        Seq::empty()
    } else {
        seq![(ws[0], ws[1])] + location_pairs(ws.subrange(2, ws.len() as int))
    }
}

/// The view of a list of string pairs.
pub open spec fn pairs_view(v: Seq<(String, String)>) -> Seq<(Seq<char>, Seq<char>)> {
    v.map_values(|p: (String, String)| (p.0@, p.1@))
}

/// The (namespace, location) pairs a start tag's attributes name.
pub open spec fn named_locations(attrs: Seq<(String, String)>) -> Seq<(Seq<char>, Seq<char>)> {
    match location_attr(attrs) {
        Some(v) => location_pairs(ws_words(v)),
        None => Seq::empty(),
    }
}

/// The value of the `xsi:schemaLocation` (or `schemaLocation`) attribute.
pub fn find_schema_location(attrs: &[(String, String)]) -> (r: Option<String>)
    ensures
        match r {
            Some(v) => location_attr(attrs@) == Some(v@),
            None => location_attr(attrs@) is None,
        },
{
    proof {
        reveal_strlit("xsi:schemaLocation");
        reveal_strlit("schemaLocation");
    }
    let mut k: usize = 0;
    assert(attrs@.skip(0) =~= attrs@);
    while k < attrs.len()
        invariant
            k <= attrs@.len(),
            location_attr(attrs@) == location_attr(attrs@.skip(k as int)),
        decreases attrs@.len() - k,
    {
        assert(attrs@.skip(k as int).drop_first() =~= attrs@.skip(k + 1));
        assert(attrs@.skip(k as int)[0] == attrs@[k as int]);
        if str_eq(attrs[k].0.as_str(), "xsi:schemaLocation") || str_eq(
            attrs[k].0.as_str(),
            "schemaLocation",
        ) {
            return Some(attrs[k].1.clone());
        }
        k = k + 1;
    }
    None
}

/// The (namespace, location) pairs of a `schemaLocation` value.
pub fn location_pairs_of(value: &str) -> (r: Vec<(String, String)>)
    ensures
        pairs_view(r@) == location_pairs(ws_words(value@)),
{
    let words = split_whitespace_str(value);
    let ghost ws = strings_view(words@);
    let mut out: Vec<(String, String)> = Vec::new();
    let mut k: usize = 0;
    assert(ws.subrange(0, ws.len() as int) =~= ws);
    assert(pairs_view(out@) =~= Seq::<(Seq<char>, Seq<char>)>::empty());
    while words.len() - k >= 2
        invariant
            ws == strings_view(words@),
            k <= words@.len(),
            pairs_view(out@) + location_pairs(ws.subrange(k as int, ws.len() as int)) == location_pairs(
                ws,
            ),
        decreases words@.len() - k,
    {
        let ghost rest = ws.subrange(k as int, ws.len() as int);
        let ghost prev = pairs_view(out@);
        assert(rest.subrange(2, rest.len() as int) =~= ws.subrange(k + 2, ws.len() as int));
        assert(rest[0] == words@[k as int]@ && rest[1] == words@[k + 1]@);
        out.push((words[k].clone(), words[k + 1].clone()));
        assert(pairs_view(out@) =~= prev.push((rest[0], rest[1])));
        assert(prev.push((rest[0], rest[1])) + location_pairs(ws.subrange(k + 2, ws.len() as int))
            =~= prev + (seq![(rest[0], rest[1])] + location_pairs(rest.subrange(2, rest.len() as int))));
        k = k + 2;
    }
    proof {
        let rest = ws.subrange(k as int, ws.len() as int);
        assert(rest.len() < 2);
        assert(pairs_view(out@) + Seq::<(Seq<char>, Seq<char>)>::empty() =~= pairs_view(out@));
    }
    out
}

/// The (namespace, location) pairs a start tag's attributes name in
/// `xsi:schemaLocation` (none without that attribute).
pub fn schema_locations(attrs: &[(String, String)]) -> (r: Vec<(String, String)>)
    ensures
        pairs_view(r@) == named_locations(attrs@),
{
    match find_schema_location(attrs) {
        Some(v) => location_pairs_of(v.as_str()),
        None => {
            let r: Vec<(String, String)> = Vec::new();
            assert(pairs_view(r@) =~= Seq::<(Seq<char>, Seq<char>)>::empty());
            r
        },
    }
}

/// What fetching and parsing one schema location gave.
pub enum SourceOutcome {
    /// Fetched and parsed into the resolver.
    Loaded,
    /// Fetched, but parsing failed with this message.
    ParseFailed(String),
    /// The fetch failed.
    FetchFailed,
}

/// Schemas being loaded: whether any was loaded, and the warnings so far.
pub struct SchemaLoad {
    /// Some location was loaded.
    pub loaded_any: bool,
    /// Warnings collected so far.
    pub warnings: Vec<StructuredError>,
}

/// A warning that a schema could not be used.
pub open spec fn schema_warning(m: Seq<char>) -> ErrorView {
    ErrorView {
        error_type: ValidationErrorType::SchemaNotFound,
        message: m,
        level: ErrorLevel::Warning,
        line: None,
        column: None,
        node_name: None,
        expected: None,
        found: None,
        count: 1,
        element_path: None,
        more_positions: Seq::empty(),
    }
}

/// The error entry for a validation that failed with `m`.
pub open spec fn failed_validation(m: Seq<char>) -> ErrorView {
    ErrorView {
        error_type: ValidationErrorType::Other,
        message: "Validation error: "@ + m,
        level: ErrorLevel::Error,
        line: None,
        column: None,
        node_name: None,
        expected: None,
        found: None,
        count: 1,
        element_path: None,
        more_positions: Seq::empty(),
    }
}

/// A warning-level entry of type `SchemaNotFound`.
fn warning(message: String) -> (e: StructuredError)
    ensures
        crate::two_pass::view_error(e) == schema_warning(message@),
{
    StructuredError::new(message, ValidationErrorType::SchemaNotFound).with_level(ErrorLevel::Warning)
}

/// A copy of an optional string.
fn copy_opt(s: &Option<String>) -> (r: Option<String>)
    ensures
        crate::two_pass::ostr(r) == crate::two_pass::ostr(*s),
{
    match s {
        Some(x) => Some(x.clone()),
        None => None,
    }
}

/// A copy of a list of positions.
fn copy_positions(v: &Vec<(Option<usize>, Option<usize>)>) -> (r: Vec<(Option<usize>, Option<usize>)>)
    ensures
        r@ == v@,
{
    let mut r: Vec<(Option<usize>, Option<usize>)> = Vec::new();
    let mut k: usize = 0;
    while k < v.len()
        invariant
            k <= v@.len(),
            r@ == v@.take(k as int),
        decreases v@.len() - k,
    {
        let p = v[k];
        r.push(p);
        assert(r@ =~= v@.take(k + 1));
        k = k + 1;
    }
    assert(v@.take(v@.len() as int) =~= v@);
    r
}

/// A copy of an entry.
pub(crate) fn copy_entry(e: &StructuredError) -> (r: StructuredError)
    ensures
        crate::two_pass::view_error(r) == crate::two_pass::view_error(*e),
{
    StructuredError {
        message: e.message.clone(),
        error_type: e.error_type,
        level: e.level,
        line: e.line,
        column: e.column,
        node_name: copy_opt(&e.node_name),
        expected: copy_opt(&e.expected),
        found: copy_opt(&e.found),
        count: e.count,
        element_path: copy_opt(&e.element_path),
        more_positions: copy_positions(&e.more_positions),
    }
}

/// `a` followed by `b`.
fn joined(a: &str, b: &str) -> (r: String)
    ensures
        r@ == a@ + b@,
{
    let mut s = String::from_str(a);
    s.append(b);
    s
}

impl SchemaLoad {
    /// Nothing loaded, no warning.
    pub fn new() -> (s: SchemaLoad)
        ensures
            !s.loaded_any,
            s.warnings@.len() == 0,
    {
        SchemaLoad { loaded_any: false, warnings: Vec::new() }
    }

    /// One location's outcome while streaming: a loaded schema counts, a
    /// parse failure adds the warning `Warning: Failed to parse schema
    /// <location>: <message>`, and a failed fetch is skipped.
    pub fn lenient_source(&mut self, location: &str, outcome: SourceOutcome)
        ensures
            match outcome {
                SourceOutcome::Loaded => final(self).loaded_any && final(self).warnings == old(
                    self,
                ).warnings,
                SourceOutcome::ParseFailed(m) => final(self).loaded_any == old(self).loaded_any
                    && errors_view(final(self).warnings@) == errors_view(old(self).warnings@).push(
                    schema_warning("Warning: Failed to parse schema "@ + location@ + ": "@ + m@),
                ),
                SourceOutcome::FetchFailed => *final(self) == *old(self),
            },
    {
        match outcome {
            SourceOutcome::Loaded => {
                self.loaded_any = true;
            },
            SourceOutcome::ParseFailed(m) => {
                let a = joined("Warning: Failed to parse schema ", location);
                let b = joined(a.as_str(), ": ");
                let c = joined(b.as_str(), m.as_str());
                let ghost before = self.warnings@;
                self.warnings.push(warning(c));
                assert(errors_view(self.warnings@) =~= errors_view(before).push(
                    schema_warning(c@),
                ));
            },
            SourceOutcome::FetchFailed => {},
        }
    }

    /// One location's outcome for a document: a loaded schema counts, a
    /// parse failure adds the warning `Failed to parse schema <location>:
    /// <message>`, and a failed fetch ends the run with `SchemaNotFound`
    /// for that location.
    pub fn strict_source(&mut self, location: &str, outcome: SourceOutcome) -> (r: Result<(), ValidationError>)
        ensures
            match outcome {
                SourceOutcome::Loaded => r is Ok && final(self).loaded_any && final(self).warnings
                    == old(self).warnings,
                SourceOutcome::ParseFailed(m) => r is Ok && final(self).loaded_any == old(
                    self,
                ).loaded_any && errors_view(final(self).warnings@) == errors_view(
                    old(self).warnings@,
                ).push(schema_warning("Failed to parse schema "@ + location@ + ": "@ + m@)),
                SourceOutcome::FetchFailed => *final(self) == *old(self) && (r matches Err(
                    ValidationError::SchemaNotFound { uri },
                ) && uri@ == location@),
            },
    {
        match outcome {
            SourceOutcome::Loaded => {
                self.loaded_any = true;
                Ok(())
            },
            SourceOutcome::ParseFailed(m) => {
                let a = joined("Failed to parse schema ", location);
                let b = joined(a.as_str(), ": ");
                let c = joined(b.as_str(), m.as_str());
                let ghost before = self.warnings@;
                self.warnings.push(warning(c));
                assert(errors_view(self.warnings@) =~= errors_view(before).push(
                    schema_warning(c@),
                ));
                Ok(())
            },
            SourceOutcome::FetchFailed => Err(
                ValidationError::SchemaNotFound { uri: String::from_str(location) },
            ),
        }
    }

    /// After every location while streaming: when none was loaded, adds
    /// the warning `No schemas could be loaded from xsi:schemaLocation` and
    /// returns `false` (the built-in schema is used); otherwise returns
    /// `true` (the loaded schemas are compiled).
    pub fn lenient_sources_done(&mut self) -> (compile: bool)
        ensures
            compile == old(self).loaded_any,
            final(self).loaded_any == old(self).loaded_any,
            compile ==> final(self).warnings == old(self).warnings,
            !compile ==> errors_view(final(self).warnings@) == errors_view(old(self).warnings@).push(
                schema_warning("No schemas could be loaded from xsi:schemaLocation"@),
            ),
    {
        if self.loaded_any {
            true
        } else {
            let ghost before = self.warnings@;
            self.warnings.push(
                warning(String::from_str("No schemas could be loaded from xsi:schemaLocation")),
            );
            assert(errors_view(self.warnings@) =~= errors_view(before).push(
                schema_warning("No schemas could be loaded from xsi:schemaLocation"@),
            ));
            false
        }
    }

    /// The compile outcome while streaming: a failure adds the warning
    /// `Warning: Failed to compile schemas: <message>` and returns `false`
    /// (the built-in schema is used); success returns `true`.
    pub fn lenient_compiled(&mut self, failure: Option<String>) -> (use_compiled: bool)
        ensures
            use_compiled == failure is None,
            final(self).loaded_any == old(self).loaded_any,
            match failure {
                None => final(self).warnings == old(self).warnings,
                Some(m) => errors_view(final(self).warnings@) == errors_view(old(self).warnings@).push(
                    schema_warning("Warning: Failed to compile schemas: "@ + m@),
                ),
            },
    {
        match failure {
            None => true,
            Some(m) => {
                let c = joined("Warning: Failed to compile schemas: ", m.as_str());
                let ghost before = self.warnings@;
                self.warnings.push(warning(c));
                assert(errors_view(self.warnings@) =~= errors_view(before).push(
                    schema_warning(c@),
                ));
                false
            },
        }
    }
}

/// The entries of a document's run against the loaded schemas: the
/// warnings, then the validation's entries, or, when the validation failed
/// with message `m`, the error `Validation error: <m>`.
pub fn with_validation(
    warnings: Vec<StructuredError>,
    result: Result<Vec<StructuredError>, String>,
) -> (r: Vec<StructuredError>)
    ensures
        errors_view(r@) == errors_view(warnings@) + match result {
            Ok(es) => errors_view(es@),
            Err(m) => seq![failed_validation(m@)],
        },
{
    let mut out = warnings;
    let ghost w = errors_view(out@);
    match result {
        Ok(es) => {
            let mut k: usize = 0;
            while k < es.len()
                invariant
                    k <= es@.len(),
                    errors_view(out@) == w + errors_view(es@).take(k as int),
                decreases es@.len() - k,
            {
                let ghost prev = out@;
                out.push(copy_entry(&es[k]));
                assert(errors_view(out@) =~= errors_view(prev).push(
                    crate::two_pass::view_error(es@[k as int]),
                ));
                assert(errors_view(es@).take(k + 1) =~= errors_view(es@).take(k as int).push(
                    crate::two_pass::view_error(es@[k as int]),
                ));
                k = k + 1;
            }
            assert(errors_view(es@).take(es@.len() as int) =~= errors_view(es@));
        },
        Err(m) => {
            let e = StructuredError::new(joined("Validation error: ", m.as_str()), ValidationErrorType::Other);
            out.push(e);
            assert(errors_view(out@) =~= w + seq![failed_validation(m@)]);
        },
    }
    out
}

/// Adds each of `new` whose message no collected entry has yet (the
/// shared collection of a streaming run keeps one entry per message).
pub fn merge_by_message(shared: &mut Vec<StructuredError>, new: &Vec<StructuredError>)
    ensures
        errors_view(final(shared)@) == merged(errors_view(old(shared)@), errors_view(new@)),
{
    let ghost s0 = errors_view(shared@);
    let mut k: usize = 0;
    while k < new.len()
        invariant
            k <= new@.len(),
            errors_view(shared@) == merged(s0, errors_view(new@).take(k as int)),
        decreases new@.len() - k,
    {
        let ghost before = shared@;
        assert(errors_view(new@).take(k + 1).drop_last() =~= errors_view(new@).take(k as int));
        assert(errors_view(new@).take(k + 1).last() == crate::two_pass::view_error(new@[k as int]));
        let mut seen = false;
        let mut j: usize = 0;
        while j < shared.len()
            invariant
                j <= shared@.len(),
                k < new@.len(),
                shared@ == before,
                seen == exists|i: int| 0 <= i < j && #[trigger] shared@[i].message@ == new@[k as int].message@,
            decreases shared@.len() - j,
        {
            if str_eq(shared[j].message.as_str(), new[k].message.as_str()) {
                seen = true;
            }
            j = j + 1;
        }
        proof {
            assert(has_message(errors_view(before), new@[k as int].message@) == seen) by {
                if seen {
                    let i = choose|i: int| 0 <= i < before.len() && #[trigger] before[i].message@ == new@[k as int].message@;
                    assert(errors_view(before)[i].message == new@[k as int].message@);
                }
                if has_message(errors_view(before), new@[k as int].message@) {
                    let i = choose|i: int| 0 <= i < errors_view(before).len() && #[trigger] errors_view(before)[i].message == new@[k as int].message@;
                    assert(before[i].message@ == new@[k as int].message@);
                }
            }
        }
        if !seen {
            shared.push(copy_entry(&new[k]));
            assert(errors_view(shared@) =~= errors_view(before).push(crate::two_pass::view_error(new@[k as int])));
        }
        k = k + 1;
    }
    assert(errors_view(new@).take(new@.len() as int) =~= errors_view(new@));
}

/// Some entry carries message `m`.
pub open spec fn has_message(s: Seq<ErrorView>, m: Seq<char>) -> bool {
    exists|i: int| 0 <= i < s.len() && #[trigger] s[i].message == m
}

/// `s` followed by each of `new` whose message is not yet present.
pub open spec fn merged(s: Seq<ErrorView>, new: Seq<ErrorView>) -> Seq<ErrorView>
    decreases new.len(),
{
    if new.len() == 0 {
        s
    } else {
        let a = merged(s, new.drop_last());
        if has_message(a, new.last().message) {
            a
        } else {
            a.push(new.last())
        }
    }
}

} // verus!
