//! The entries a content-model automaton's verdicts give an element: each
//! child is stepped through the automaton of its parent's type (matched,
//! over its bound, or not expected there), and the automaton is asked at
//! the end whether the content is complete. The automaton itself is the
//! caller's; this module turns its verdicts into entries.
use vstd::prelude::*;

use crate::error::{ErrorLevel, StructuredError, ValidationErrorType};
use crate::messages::{dec, decimal_string};
use crate::schema::{CompiledSchema, FlattenedChildren};
use crate::skeleton::ElementSkeleton;
use crate::streaming::{qualified, qualified_name};
use crate::two_pass::{
    cap, errors_view, join_names, lemma_cap_append, ostr, over_cap, sat, total_count, view_error, ErrorView,
    TwoPassSchemaValidator, ValidationOptions,
};

verus! {

/// The automaton's verdict on one child.
#[derive(Debug, Clone)]
pub enum StepResult {
    /// The child fits the content model here.
    Matched,
    /// The child's particle is already used `max` times.
    TooMany {
        /// The particle's bound.
        max: u32,
    },
    /// The child cannot come here; `expected` lists what could.
    NotExpected {
        /// The names the automaton would accept here.
        expected: Vec<String>,
    },
}

/// A child element with the automaton's verdict on it.
#[derive(Debug, Clone)]
pub struct ChildStep {
    /// Local name.
    pub name: String,
    /// Prefix, if any.
    pub prefix: Option<String>,
    /// Line of the child's start tag.
    pub line: Option<usize>,
    /// Column of the child's start tag.
    pub column: Option<usize>,
    /// The verdict.
    pub result: StepResult,
}

/// Why the automaton refuses to end where the children left it.
#[derive(Debug, Clone)]
pub enum FinishError {
    /// Particle `name` occurred `found` times, fewer than `min`.
    TooFew {
        /// The particle's name.
        name: String,
        /// Its lower bound.
        min: u32,
        /// How often it occurred.
        found: u32,
    },
    /// More content is required; `expected` lists what could come next.
    Missing {
        /// The names the automaton would accept next.
        expected: Vec<String>,
    },
}

/// Whether a child is declared: in its parent's child table under its
/// qualified or local name, or as a global element.
pub open spec fn declared_child(
    schema: CompiledSchema,
    flat: FlattenedChildren,
    q: Seq<char>,
    local: Seq<char>,
) -> bool {
    ||| flat.constraints.lookup(q) is Some
    ||| flat.constraints.lookup(local) is Some
    ||| schema.elements.lookup(q) is Some
}

/// The list shown for a child that is not expected.
pub open spec fn expected_text(e: Seq<String>) -> Seq<char> {
    if join_names(e).len() == 0 {
        "no further elements"@
    } else {
        join_names(e)
    }
}

/// An entry at a position, about `node`.
pub open spec fn entry(
    t: ValidationErrorType,
    m: Seq<char>,
    line: Option<usize>,
    column: Option<usize>,
    node: Seq<char>,
    expected: Option<Seq<char>>,
    found: Option<Seq<char>>,
) -> ErrorView {
    ErrorView {
        error_type: t,
        message: m,
        level: ErrorLevel::Error,
        line,
        column,
        node_name: Some(node),
        expected,
        found,
        count: 1,
        element_path: None,
        more_positions: Seq::empty(),
    }
}

/// The entries of one child's verdict in element `node`: one over its
/// bound is reported unless maximum checks are skipped; one not expected
/// is reported when it is declared (an undeclared child has its own entry
/// from the declaration checks).
pub open spec fn step_entries(
    schema: CompiledSchema,
    options: ValidationOptions,
    flat: FlattenedChildren,
    node: ElementSkeleton,
    c: ChildStep,
) -> Seq<ErrorView> {
    let q = qualified(c.name@, ostr(c.prefix));
    let n = node.name@;
    match c.result {
        StepResult::Matched => Seq::empty(),
        StepResult::TooMany { max } => if options.skip_max_occurs {
            Seq::empty()
        } else {
            seq![
                entry(
                    ValidationErrorType::TooManyOccurrences,
                    "element '"@ + q + "' occurs more than the allowed "@ + dec(max as nat) + " time(s) in '"@ + n
                        + "'"@,
                    c.line,
                    c.column,
                    q,
                    None,
                    None,
                ),
            ]
        },
        StepResult::NotExpected { expected } => if declared_child(schema, flat, q, c.name@) {
            let l = expected_text(expected@);
            seq![
                entry(
                    ValidationErrorType::InvalidContent,
                    "element '"@ + q + "' is not expected here in '"@ + n + "' (expected: "@ + l + ")"@,
                    c.line,
                    c.column,
                    q,
                    Some(l),
                    Some(q),
                ),
            ]
        } else {
            Seq::empty()
        },
    }
}

/// The entries of all children's verdicts, in order.
pub open spec fn steps_entries(
    schema: CompiledSchema,
    options: ValidationOptions,
    flat: FlattenedChildren,
    node: ElementSkeleton,
    steps: Seq<ChildStep>,
) -> Seq<ErrorView>
    decreases steps.len(),
{
    if steps.len() == 0 {
        Seq::empty()
    } else {
        steps_entries(schema, options, flat, node, steps.drop_last()) + step_entries(
            schema,
            options,
            flat,
            node,
            steps.last(),
        )
    }
}

/// Whether some of `names` occurs under `node` (substitution group members
/// counted as the options say).
pub open spec fn any_occurred(
    schema: CompiledSchema,
    options: ValidationOptions,
    node: ElementSkeleton,
    names: Seq<String>,
) -> bool {
    exists|i: int| 0 <= i < names.len() && sat(total_count(schema, options, node, #[trigger] names[i]@)) > 0
}

/// The entry of the automaton's refusal to end, unless minimum checks are
/// skipped: a particle short of its bound, or missing content (fewer
/// occurrences when one of the expected names did occur, a missing element
/// otherwise).
pub open spec fn finish_entries(
    schema: CompiledSchema,
    options: ValidationOptions,
    node: ElementSkeleton,
    f: Option<FinishError>,
) -> Seq<ErrorView> {
    let n = node.name@;
    if options.skip_min_occurs {
        Seq::empty()
    } else {
        match f {
            None => Seq::empty(),
            Some(FinishError::TooFew { name, min, found }) => seq![
                entry(
                    ValidationErrorType::TooFewOccurrences,
                    "element "@ + name@ + " in '"@ + n + "' occurs "@ + dec(found as nat)
                        + " time(s), but minimum is "@ + dec(min as nat),
                    node.line,
                    node.column,
                    n,
                    None,
                    None,
                ),
            ],
            Some(FinishError::Missing { expected }) => {
                let l = join_names(expected@);
                if any_occurred(schema, options, node, expected@) {
                    seq![
                        entry(
                            ValidationErrorType::TooFewOccurrences,
                            "element '"@ + n + "' has incomplete content: more of "@ + l + " required"@,
                            node.line,
                            node.column,
                            n,
                            Some(l),
                            None,
                        ),
                    ]
                } else {
                    seq![
                        entry(
                            ValidationErrorType::MissingRequiredElement,
                            "element '"@ + n + "' has incomplete content (expected: "@ + l + ")"@,
                            node.line,
                            node.column,
                            n,
                            Some(l),
                            None,
                        ),
                    ]
                }
            },
        }
    }
}

/// All entries of an element's automaton verdicts: none for a nilled
/// element (its emptiness is checked elsewhere), else the children's in
/// order, then the one at the end.
pub open spec fn automaton_entries(
    schema: CompiledSchema,
    options: ValidationOptions,
    flat: FlattenedChildren,
    node: ElementSkeleton,
    steps: Seq<ChildStep>,
    f: Option<FinishError>,
    nilled: bool,
) -> Seq<ErrorView> {
    if nilled {
        Seq::empty()
    } else {
        steps_entries(schema, options, flat, node, steps) + finish_entries(schema, options, node, f)
    }
}

/// `items` joined with `", "`.
fn join_strings(items: &Vec<String>) -> (r: String)
    ensures
        r@ == join_names(items@),
{
    let mut out = String::new();
    let mut i: usize = 0;
    while i < items.len()
        invariant
            i <= items@.len(),
            out@ == join_names(items@.take(i as int)),
        decreases items@.len() - i,
    {
        if i > 0 {
            out.append(", ");
        }
        out.append(items[i].as_str());
        proof {
            assert(items@.take(i + 1).drop_last() =~= items@.take(i as int));
            if i == 0 {
                assert(items@.take(1)[0] == items@[0]);
            }
        }
        i = i + 1;
    }
    assert(items@.take(items@.len() as int) =~= items@);
    out
}

/// An error about `node` at a position.
fn make_entry(
    t: ValidationErrorType,
    m: String,
    line: Option<usize>,
    column: Option<usize>,
    node: &str,
    expected: Option<String>,
    found: Option<String>,
) -> (e: StructuredError)
    ensures
        view_error(e) == entry(t, m@, line, column, node@, ostr(expected), ostr(found)),
{
    let mut e = StructuredError::new(m, t);
    if let Some(l) = line {
        e = e.with_line(l);
    }
    if let Some(c) = column {
        e = e.with_column(c);
    }
    e = e.with_node_name(String::from_str(node));
    if let Some(x) = expected {
        e = e.with_expected(x);
    }
    if let Some(x) = found {
        e = e.with_found(x);
    }
    e
}

impl TwoPassSchemaValidator {
    /// The entry of one child's verdict, if any.
    fn step_error(&self, node: &ElementSkeleton, flattened: &FlattenedChildren, c: &ChildStep) -> (r: Option<
        StructuredError,
    >)
        ensures
            step_entries(self.sch(), self.options, *flattened, *node, *c) == match r {
                Some(e) => seq![view_error(e)],
                None => Seq::<ErrorView>::empty(),
            },
    {
        proof {
            reveal_strlit("element '");
            reveal_strlit("' occurs more than the allowed ");
            reveal_strlit(" time(s) in '");
            reveal_strlit("'");
            reveal_strlit("' is not expected here in '");
            reveal_strlit("' (expected: ");
            reveal_strlit(")");
            reveal_strlit("no further elements");
        }
        let pre: Option<&str> = match &c.prefix {
            Some(p) => Some(p.as_str()),
            None => None,
        };
        let q = qualified_name(c.name.as_str(), pre);
        proof {
            assert(crate::validation::opt_chars(pre) == ostr(c.prefix));
        }
        match &c.result {
            StepResult::Matched => None,
            StepResult::TooMany { max } => {
                if self.options.skip_max_occurs {
                    None
                } else {
                    let mut m = String::from_str("element '");
                    m.append(q.as_str());
                    m.append("' occurs more than the allowed ");
                    let d = decimal_string(*max as u64);
                    m.append(d.as_str());
                    m.append(" time(s) in '");
                    m.append(node.name.as_str());
                    m.append("'");
                    Some(make_entry(ValidationErrorType::TooManyOccurrences, m, c.line, c.column, q.as_str(), None, None))
                }
            },
            StepResult::NotExpected { expected } => {
                let declared = flattened.constraints.contains_key(q.as_str()) || flattened.constraints.contains_key(
                    c.name.as_str(),
                ) || self.schema.get_element(q.as_str()).is_some();
                if declared {
                    let mut l = join_strings(expected);
                    if l.unicode_len() == 0 {
                        l = String::from_str("no further elements");
                    }
                    let mut m = String::from_str("element '");
                    m.append(q.as_str());
                    m.append("' is not expected here in '");
                    m.append(node.name.as_str());
                    m.append("' (expected: ");
                    m.append(l.as_str());
                    m.append(")");
                    let found = q.clone();
                    Some(make_entry(ValidationErrorType::InvalidContent, m, c.line, c.column, q.as_str(), Some(l), Some(found)))
                } else {
                    None
                }
            },
        }
    }

    /// Whether some of `names` occurs under `node`.
    fn some_occurred(&self, node: &ElementSkeleton, names: &Vec<String>) -> (r: bool)
        ensures
            r == any_occurred(self.sch(), self.options, *node, names@),
    {
        let mut i: usize = 0;
        while i < names.len()
            invariant
                i <= names@.len(),
                forall|j: int| 0 <= j < i ==> sat(total_count(self.sch(), self.options, *node, #[trigger] names@[j]@)) == 0,
            decreases names@.len() - i,
        {
            if self.get_total_count(node, names[i].as_str()) > 0 {
                return true;
            }
            i = i + 1;
        }
        false
    }

    /// The entry of the automaton's refusal to end, if any.
    fn finish_error(&self, node: &ElementSkeleton, f: &Option<FinishError>) -> (r: Option<StructuredError>)
        ensures
            finish_entries(self.sch(), self.options, *node, *f) == match r {
                Some(e) => seq![view_error(e)],
                None => Seq::<ErrorView>::empty(),
            },
    {
        proof {
            reveal_strlit("element ");
            reveal_strlit(" in '");
            reveal_strlit("' occurs ");
            reveal_strlit(" time(s), but minimum is ");
            reveal_strlit("element '");
            reveal_strlit("' has incomplete content: more of ");
            reveal_strlit(" required");
            reveal_strlit("' has incomplete content (expected: ");
            reveal_strlit(")");
        }
        if self.options.skip_min_occurs {
            return None;
        }
        match f {
            None => None,
            Some(FinishError::TooFew { name, min, found }) => {
                let mut m = String::from_str("element ");
                m.append(name.as_str());
                m.append(" in '");
                m.append(node.name.as_str());
                m.append("' occurs ");
                let d = decimal_string(*found as u64);
                m.append(d.as_str());
                m.append(" time(s), but minimum is ");
                let d2 = decimal_string(*min as u64);
                m.append(d2.as_str());
                Some(make_entry(ValidationErrorType::TooFewOccurrences, m, node.line, node.column, node.name.as_str(), None, None))
            },
            Some(FinishError::Missing { expected }) => {
                let l = join_strings(expected);
                let mut m = String::from_str("element '");
                m.append(node.name.as_str());
                if self.some_occurred(node, expected) {
                    m.append("' has incomplete content: more of ");
                    m.append(l.as_str());
                    m.append(" required");
                    Some(make_entry(ValidationErrorType::TooFewOccurrences, m, node.line, node.column, node.name.as_str(), Some(l), None))
                } else {
                    m.append("' has incomplete content (expected: ");
                    m.append(l.as_str());
                    m.append(")");
                    Some(make_entry(ValidationErrorType::MissingRequiredElement, m, node.line, node.column, node.name.as_str(), Some(l), None))
                }
            },
        }
    }

    /// Appends, under the cap, the entries of an element's content-model
    /// automaton verdicts: `steps` holds each child with the verdict on it,
    /// in document order, and `finish` the refusal to end, if any; a nilled
    /// element gets none.
    pub fn automaton_errors(
        &self,
        node: &ElementSkeleton,
        flattened: &FlattenedChildren,
        steps: &Vec<ChildStep>,
        finish: &Option<FinishError>,
        nilled: bool,
        errors: &mut Vec<StructuredError>,
    )
        ensures
            over_cap(self.max_errors, old(errors)@.len()) ==> final(errors)@ == old(errors)@,
            !over_cap(self.max_errors, old(errors)@.len()) ==> errors_view(final(errors)@) == cap(
                errors_view(old(errors)@) + automaton_entries(
                    self.sch(),
                    self.options,
                    *flattened,
                    *node,
                    steps@,
                    *finish,
                    nilled,
                ),
                self.max_errors,
            ),
    {
        let ghost e0 = errors@;
        let ghost v0 = errors_view(errors@);
        let ghost max = self.max_errors;
        proof {
            if !over_cap(max, e0.len()) {
                assert(v0 + Seq::<ErrorView>::empty() =~= v0);
                assert(cap(v0, max) == v0);
            }
        }
        if nilled {
            return;
        }
        let mut i: usize = 0;
        proof {
            assert(steps@.take(0) =~= Seq::<ChildStep>::empty());
        }
        while i < steps.len()
            invariant
                i <= steps@.len(),
                max == self.max_errors,
                over_cap(max, e0.len()) ==> errors@ == e0,
                !over_cap(max, e0.len()) ==> errors_view(errors@) == cap(
                    v0 + steps_entries(self.sch(), self.options, *flattened, *node, steps@.take(i as int)),
                    max,
                ) && !over_cap(max, errors@.len()),
            decreases steps@.len() - i,
        {
            let ghost pre = steps_entries(self.sch(), self.options, *flattened, *node, steps@.take(i as int));
            proof {
                assert(steps@.take(i + 1).drop_last() =~= steps@.take(i as int));
                assert(steps@.take(i + 1).last() == steps@[i as int]);
            }
            let r = self.step_error(node, flattened, &steps[i]);
            if let Some(e) = r {
                self.push_error(errors, e);
                proof {
                    if !over_cap(max, e0.len()) {
                        lemma_cap_append(v0, pre, seq![view_error(e)], max);
                        assert(cap(v0 + pre, max).push(view_error(e)) =~= cap(v0 + pre, max) + seq![view_error(e)]);
                    }
                }
            } else {
                proof {
                    assert(pre + Seq::<ErrorView>::empty() =~= pre);
                }
            }
            i = i + 1;
        }
        proof {
            assert(steps@.take(steps@.len() as int) =~= steps@);
        }
        let ghost pre = steps_entries(self.sch(), self.options, *flattened, *node, steps@);
        let r = self.finish_error(node, finish);
        if let Some(e) = r {
            self.push_error(errors, e);
            proof {
                if !over_cap(max, e0.len()) {
                    lemma_cap_append(v0, pre, seq![view_error(e)], max);
                    assert(cap(v0 + pre, max).push(view_error(e)) =~= cap(v0 + pre, max) + seq![view_error(e)]);
                }
            }
        } else {
            proof {
                assert(pre + Seq::<ErrorView>::empty() =~= pre);
            }
        }
    }
}

} // verus!
