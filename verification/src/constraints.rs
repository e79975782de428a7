//! Identity constraints (unique / key / keyref) evaluated over the tuples
//! their selectors and fields picked out, and document-wide ID / IDREF
//! tracking.
use vstd::prelude::*;

use crate::schema::{CompiledConstraint, CompiledConstraintType};
use crate::text::{local_name, local_part, str_eq, strings_view};

verus! {

/// Outcome of evaluating one field for one selected node.
#[derive(Debug)]
pub enum FieldOutcome {
    /// Exactly one node matched (or a non-node value was produced).
    Value(String),
    /// No node matched.
    Absent,
    /// More than one node matched: an identity constraint violation.
    Multiple,
}

/// A scoping element's constraint with what its selector picked: one row
/// per selected node, one field outcome per field.
#[derive(Debug)]
pub struct ConstraintTask {
    /// The constraint.
    pub constraint: CompiledConstraint,
    /// The evaluated rows.
    pub rows: Vec<Vec<FieldOutcome>>,
}

/// Every field has a value.
pub open spec fn row_complete(row: Seq<FieldOutcome>) -> bool {
    forall|f: int| 0 <= f < row.len() ==> #[trigger] row[f] is Value
}

/// Some field matched several nodes.
pub open spec fn row_multiple(row: Seq<FieldOutcome>) -> bool {
    exists|f: int| 0 <= f < row.len() && #[trigger] row[f] is Multiple
}

/// Some field matched no node.
pub open spec fn row_absent(row: Seq<FieldOutcome>) -> bool {
    exists|f: int| 0 <= f < row.len() && #[trigger] row[f] is Absent
}

/// The values of a row.
pub open spec fn row_tuple(row: Seq<FieldOutcome>) -> Seq<Seq<char>> {
    row.map_values(
        |o: FieldOutcome|
            match o {
                FieldOutcome::Value(s) => s@,
                _ => Seq::empty(),
            },
    )
}

/// An earlier complete row of the same task has the same tuple.
pub open spec fn dup_before(rows: Seq<Vec<FieldOutcome>>, k: int) -> bool {
    exists|j: int|
        0 <= j < k && row_complete(#[trigger] rows[j]@) && row_tuple(rows[j]@) == row_tuple(
            rows[k]@,
        )
}

/// `items` joined with `", "`.
pub open spec fn join_values(items: Seq<Seq<char>>) -> Seq<char>
    decreases items.len(),
{
    if items.len() == 0 {
        Seq::empty()
    } else if items.len() == 1 {
        items[0]
    } else {
        join_values(items.drop_last()) + ", "@ + items.last()
    }
}

/// `key` or `unique`.
pub open spec fn kind_word(c: CompiledConstraint) -> Seq<char> {
    if c.constraint_type == CompiledConstraintType::Key {
        "key"@
    } else {
        "unique"@
    }
}

/// The error of row `k` of a key / unique task, if any.
pub open spec fn row_error(c: CompiledConstraint, rows: Seq<Vec<FieldOutcome>>, k: int) -> Seq<
    Seq<char>,
> {
    let row = rows[k]@;
    if row_multiple(row) {
        seq![kind_word(c) + " '"@ + c.name@ + "': a field matches more than one node"@]
    } else if row_absent(row) {
        if c.constraint_type == CompiledConstraintType::Key {
            seq!["key '"@ + c.name@ + "': a field has no value for a selected node"@]
        } else {
            Seq::empty()
        }
    } else if dup_before(rows, k) {
        seq![
            kind_word(c) + " '"@ + c.name@ + "': duplicate tuple ["@ + join_values(row_tuple(row))
                + "]"@,
        ]
    } else {
        Seq::empty()
    }
}

/// The errors of the first `k` rows of a key / unique task.
pub open spec fn task_errors(c: CompiledConstraint, rows: Seq<Vec<FieldOutcome>>, k: int) -> Seq<
    Seq<char>,
>
    decreases k,
{
    if k <= 0 || k > rows.len() {
        Seq::empty()
    } else {
        task_errors(c, rows, k - 1) + row_error(c, rows, k - 1)
    }
}

/// The key / unique errors of the first `i` tasks.
pub open spec fn unique_errors(tasks: Seq<ConstraintTask>, i: int) -> Seq<Seq<char>>
    decreases i,
{
    if i <= 0 || i > tasks.len() {
        Seq::empty()
    } else {
        let t = tasks[i - 1];
        unique_errors(tasks, i - 1) + if t.constraint.constraint_type
            == CompiledConstraintType::KeyRef {
            Seq::empty()
        } else {
            task_errors(t.constraint, t.rows@, t.rows@.len() as int)
        }
    }
}

/// Some key / unique task is named (by local part) `l`.
pub open spec fn has_table(tasks: Seq<ConstraintTask>, l: Seq<char>) -> bool {
    exists|i: int|
        0 <= i < tasks.len() && #[trigger] tasks[i].constraint.constraint_type
            != CompiledConstraintType::KeyRef && local_part(tasks[i].constraint.name@) == l
}

/// A key / unique task named `l` has a complete row with tuple `tuple`.
pub open spec fn in_table(tasks: Seq<ConstraintTask>, l: Seq<char>, tuple: Seq<Seq<char>>) -> bool {
    exists|i: int, k: int|
        0 <= i < tasks.len() && tasks[i].constraint.constraint_type
            != CompiledConstraintType::KeyRef && local_part(tasks[i].constraint.name@) == l && 0
            <= k < tasks[i].rows@.len() && row_complete(#[trigger] tasks[i].rows@[k]@) && row_tuple(
            tasks[i].rows@[k]@,
        ) == tuple
}

/// The errors of the first `k` rows of a keyref task referring to `l`.
pub open spec fn keyref_rows(
    tasks: Seq<ConstraintTask>,
    c: CompiledConstraint,
    rows: Seq<Vec<FieldOutcome>>,
    l: Seq<char>,
    k: int,
) -> Seq<Seq<char>>
    decreases k,
{
    if k <= 0 || k > rows.len() {
        Seq::empty()
    } else {
        let row = rows[k - 1]@;
        keyref_rows(tasks, c, rows, l, k - 1) + if row_complete(row) && !in_table(
            tasks,
            l,
            row_tuple(row),
        ) {
            seq![
                "keyref '"@ + c.name@ + "': tuple ["@ + join_values(row_tuple(row))
                    + "] does not match any '"@ + l + "' key"@,
            ]
        } else {
            Seq::empty()
        }
    }
}

/// The keyref errors of the first `i` tasks. A keyref whose referenced key
/// was never established is not checked.
pub open spec fn keyref_errors(tasks: Seq<ConstraintTask>, i: int) -> Seq<Seq<char>>
    decreases i,
{
    if i <= 0 || i > tasks.len() {
        Seq::empty()
    } else {
        let t = tasks[i - 1];
        keyref_errors(tasks, i - 1) + if t.constraint.constraint_type
            == CompiledConstraintType::KeyRef && t.constraint.refer is Some && has_table(
            tasks,
            local_part(t.constraint.refer->0@),
        ) {
            keyref_rows(
                tasks,
                t.constraint,
                t.rows@,
                local_part(t.constraint.refer->0@),
                t.rows@.len() as int,
            )
        } else {
            Seq::empty()
        }
    }
}

/// Whether a row is complete, and whether it has a multiple / absent field.
fn row_status(row: &Vec<FieldOutcome>) -> (r: (bool, bool))
    ensures
        r.0 == row_multiple(row@),
        r.1 == row_absent(row@),
{
    let mut multiple = false;
    let mut absent = false;
    let mut f: usize = 0;
    while f < row.len()
        invariant
            f <= row@.len(),
            multiple == exists|g: int| 0 <= g < f && #[trigger] row@[g] is Multiple,
            absent == exists|g: int| 0 <= g < f && #[trigger] row@[g] is Absent,
        decreases row@.len() - f,
    {
        match &row[f] {
            FieldOutcome::Multiple => {
                multiple = true;
            },
            FieldOutcome::Absent => {
                absent = true;
            },
            _ => {},
        }
        f = f + 1;
    }
    (multiple, absent)
}

/// No multiple and no absent field means every field has a value.
proof fn lemma_complete(row: Seq<FieldOutcome>)
    ensures
        row_complete(row) == (!row_multiple(row) && !row_absent(row)),
{
    if !row_multiple(row) && !row_absent(row) {
        assert forall|f: int| 0 <= f < row.len() implies #[trigger] row[f] is Value by {
            match row[f] {
                FieldOutcome::Multiple => {
                    assert(row_multiple(row));
                },
                FieldOutcome::Absent => {
                    assert(row_absent(row));
                },
                _ => {},
            }
        }
    }
    if row_complete(row) {
        if row_multiple(row) {
            let f = choose|f: int| 0 <= f < row.len() && #[trigger] row[f] is Multiple;
            assert(row[f] is Value);
        }
        if row_absent(row) {
            let f = choose|f: int| 0 <= f < row.len() && #[trigger] row[f] is Absent;
            assert(row[f] is Value);
        }
    }
}

/// Whether two complete rows carry the same tuple.
fn same_tuple(a: &Vec<FieldOutcome>, b: &Vec<FieldOutcome>) -> (r: bool)
    requires
        row_complete(a@),
        row_complete(b@),
    ensures
        r == (row_tuple(a@) == row_tuple(b@)),
{
    if a.len() != b.len() {
        proof {
            assert(row_tuple(a@).len() != row_tuple(b@).len());
        }
        return false;
    }
    let mut f: usize = 0;
    while f < a.len()
        invariant
            f <= a@.len(),
            a@.len() == b@.len(),
            row_complete(a@),
            row_complete(b@),
            forall|g: int| 0 <= g < f ==> #[trigger] row_tuple(a@)[g] == row_tuple(b@)[g],
        decreases a@.len() - f,
    {
        let same = match (&a[f], &b[f]) {
            (FieldOutcome::Value(x), FieldOutcome::Value(y)) => str_eq(x.as_str(), y.as_str()),
            _ => false,
        };
        proof {
            assert(a@[f as int] is Value);
            assert(b@[f as int] is Value);
        }
        if !same {
            proof {
                assert(row_tuple(a@)[f as int] != row_tuple(b@)[f as int]);
            }
            return false;
        }
        f = f + 1;
    }
    proof {
        assert(row_tuple(a@) =~= row_tuple(b@));
    }
    true
}

/// The values of a complete row.
fn tuple_of(row: &Vec<FieldOutcome>) -> (r: Vec<String>)
    ensures
        strings_view(r@) == row_tuple(row@),
{
    let mut out: Vec<String> = Vec::new();
    let mut f: usize = 0;
    while f < row.len()
        invariant
            f <= row@.len(),
            strings_view(out@) == row_tuple(row@).take(f as int),
        decreases row@.len() - f,
    {
        let ghost prev = strings_view(out@);
        let v = match &row[f] {
            FieldOutcome::Value(s) => s.clone(),
            _ => String::new(),
        };
        proof {
            assert(row_tuple(row@)[f as int] == v@);
            assert(row_tuple(row@).take(f + 1) =~= row_tuple(row@).take(f as int).push(v@));
        }
        out.push(v);
        proof {
            assert(strings_view(out@) =~= prev.push(v@));
        }
        f = f + 1;
    }
    proof {
        assert(row_tuple(row@).take(row@.len() as int) =~= row_tuple(row@));
    }
    out
}

/// The values joined with `", "`.
fn join_tuple(t: &Vec<String>) -> (r: String)
    ensures
        r@ == join_values(strings_view(t@)),
{
    let mut out = String::new();
    let mut i: usize = 0;
    while i < t.len()
        invariant
            i <= t@.len(),
            out@ == join_values(strings_view(t@).take(i as int)),
        decreases t@.len() - i,
    {
        let ghost items = strings_view(t@);
        if i > 0 {
            out.append(", ");
        }
        out.append(t[i].as_str());
        proof {
            reveal_strlit(", ");
            assert(items.take(i + 1).drop_last() =~= items.take(i as int));
            if i == 0 {
                assert(items.take(1)[0] == t@[0]@);
            }
        }
        i = i + 1;
    }
    proof {
        assert(strings_view(t@).take(t@.len() as int) =~= strings_view(t@));
    }
    out
}

/// Whether an earlier complete row of the task has the same tuple.
fn has_dup_before(rows: &Vec<Vec<FieldOutcome>>, k: usize) -> (r: bool)
    requires
        k < rows@.len(),
        row_complete(rows@[k as int]@),
    ensures
        r == dup_before(rows@, k as int),
{
    let mut j: usize = 0;
    while j < k
        invariant
            j <= k < rows@.len(),
            row_complete(rows@[k as int]@),
            forall|q: int|
                0 <= q < j ==> !(row_complete(#[trigger] rows@[q]@) && row_tuple(rows@[q]@)
                    == row_tuple(rows@[k as int]@)),
        decreases k - j,
    {
        let (m, a) = row_status(&rows[j]);
        proof {
            lemma_complete(rows@[j as int]@);
        }
        if !m && !a && same_tuple(&rows[j], &rows[k]) {
            return true;
        }
        j = j + 1;
    }
    false
}

/// `<kind> '<name>'` as the start of a message.
fn kind_and_name(c: &CompiledConstraint) -> (r: String)
    ensures
        r@ == kind_word(*c) + " '"@ + c.name@,
{
    proof {
        reveal_strlit("key");
        reveal_strlit("unique");
        reveal_strlit(" '");
    }
    let mut m = if c.constraint_type == CompiledConstraintType::Key {
        String::from_str("key")
    } else {
        String::from_str("unique")
    };
    m.append(" '");
    m.append(c.name.as_str());
    m
}

/// The errors of a key / unique task.
fn check_task(c: &CompiledConstraint, rows: &Vec<Vec<FieldOutcome>>, errors: &mut Vec<String>)
    ensures
        strings_view(final(errors)@) == strings_view(old(errors)@) + task_errors(
            *c,
            rows@,
            rows@.len() as int,
        ),
{
    let ghost start = strings_view(errors@);
    let mut k: usize = 0;
    while k < rows.len()
        invariant
            k <= rows@.len(),
            strings_view(errors@) == start + task_errors(*c, rows@, k as int),
        decreases rows@.len() - k,
    {
        proof {
            reveal_strlit("': a field matches more than one node");
            reveal_strlit("key '");
            reveal_strlit("': a field has no value for a selected node");
            reveal_strlit("': duplicate tuple [");
            reveal_strlit("]");
        }
        let ghost before = strings_view(errors@);
        let ghost step = row_error(*c, rows@, k as int);
        let (m, a) = row_status(&rows[k]);
        if m {
            let mut msg = kind_and_name(c);
            msg.append("': a field matches more than one node");
            errors.push(msg);
            proof {
                assert(strings_view(errors@) =~= before + step);
            }
        } else if a {
            if c.constraint_type == CompiledConstraintType::Key {
                let mut msg = String::from_str("key '");
                msg.append(c.name.as_str());
                msg.append("': a field has no value for a selected node");
                errors.push(msg);
                proof {
                    assert(strings_view(errors@) =~= before + step);
                }
            } else {
                proof {
                    assert(before + step =~= before);
                }
            }
        } else {
            proof {
                lemma_complete(rows@[k as int]@);
            }
            if has_dup_before(rows, k) {
                let t = tuple_of(&rows[k]);
                let mut msg = kind_and_name(c);
                msg.append("': duplicate tuple [");
                msg.append(join_tuple(&t).as_str());
                msg.append("]");
                errors.push(msg);
                proof {
                    assert(strings_view(errors@) =~= before + step);
                }
            } else {
                proof {
                    assert(before + step =~= before);
                }
            }
        }
        proof {
            assert(start + task_errors(*c, rows@, k + 1) =~= before + step);
        }
        k = k + 1;
    }
}

/// Whether some key / unique task is named (by local part) `l`.
fn find_table(tasks: &[ConstraintTask], l: &str) -> (r: bool)
    ensures
        r == has_table(tasks@, l@),
{
    let mut i: usize = 0;
    while i < tasks.len()
        invariant
            i <= tasks@.len(),
            forall|q: int|
                0 <= q < i ==> !(#[trigger] tasks@[q].constraint.constraint_type
                    != CompiledConstraintType::KeyRef && local_part(tasks@[q].constraint.name@)
                    == l@),
        decreases tasks@.len() - i,
    {
        let t = &tasks[i];
        if t.constraint.constraint_type != CompiledConstraintType::KeyRef {
            let n = local_name(t.constraint.name.as_str());
            if str_eq(n.as_str(), l) {
                return true;
            }
        }
        i = i + 1;
    }
    false
}

/// Whether a key / unique task named `l` has a complete row equal to `row`.
fn find_in_table(tasks: &[ConstraintTask], l: &str, row: &Vec<FieldOutcome>) -> (r: bool)
    requires
        row_complete(row@),
    ensures
        r == in_table(tasks@, l@, row_tuple(row@)),
{
    let mut i: usize = 0;
    while i < tasks.len()
        invariant
            i <= tasks@.len(),
            row_complete(row@),
            forall|q: int, k: int|
                0 <= q < i && tasks@[q].constraint.constraint_type
                    != CompiledConstraintType::KeyRef && local_part(tasks@[q].constraint.name@)
                    == l@ && 0 <= k < tasks@[q].rows@.len() ==> !(row_complete(
                    #[trigger] tasks@[q].rows@[k]@,
                ) && row_tuple(tasks@[q].rows@[k]@) == row_tuple(row@)),
        decreases tasks@.len() - i,
    {
        let t = &tasks[i];
        if t.constraint.constraint_type != CompiledConstraintType::KeyRef {
            let n = local_name(t.constraint.name.as_str());
            if str_eq(n.as_str(), l) {
                let mut k: usize = 0;
                while k < t.rows.len()
                    invariant
                        k <= t.rows@.len(),
                        i < tasks@.len(),
                        *t == tasks@[i as int],
                        t.constraint.constraint_type != CompiledConstraintType::KeyRef,
                        local_part(t.constraint.name@) == l@,
                        row_complete(row@),
                        forall|p: int|
                            0 <= p < k ==> !(row_complete(#[trigger] t.rows@[p]@) && row_tuple(
                                t.rows@[p]@,
                            ) == row_tuple(row@)),
                    decreases t.rows@.len() - k,
                {
                    let (m, a) = row_status(&t.rows[k]);
                    proof {
                        lemma_complete(t.rows@[k as int]@);
                    }
                    if !m && !a && same_tuple(&t.rows[k], row) {
                        proof {
                            assert(tasks@[i as int].rows@[k as int] == t.rows@[k as int]);
                            assert(row_complete(tasks@[i as int].rows@[k as int]@));
                        }
                        return true;
                    }
                    k = k + 1;
                }
            }
        }
        i = i + 1;
    }
    false
}

/// The errors of a keyref task referring to `l`.
fn check_keyref(
    tasks: &[ConstraintTask],
    c: &CompiledConstraint,
    rows: &Vec<Vec<FieldOutcome>>,
    l: &str,
    errors: &mut Vec<String>,
)
    ensures
        strings_view(final(errors)@) == strings_view(old(errors)@) + keyref_rows(
            tasks@,
            *c,
            rows@,
            l@,
            rows@.len() as int,
        ),
{
    let ghost start = strings_view(errors@);
    let mut k: usize = 0;
    while k < rows.len()
        invariant
            k <= rows@.len(),
            strings_view(errors@) == start + keyref_rows(tasks@, *c, rows@, l@, k as int),
        decreases rows@.len() - k,
    {
        proof {
            reveal_strlit("keyref '");
            reveal_strlit("': tuple [");
            reveal_strlit("] does not match any '");
            reveal_strlit("' key");
        }
        let ghost before = strings_view(errors@);
        let (m, a) = row_status(&rows[k]);
        proof {
            lemma_complete(rows@[k as int]@);
        }
        if !m && !a && !find_in_table(tasks, l, &rows[k]) {
            let t = tuple_of(&rows[k]);
            let mut msg = String::from_str("keyref '");
            msg.append(c.name.as_str());
            msg.append("': tuple [");
            msg.append(join_tuple(&t).as_str());
            msg.append("] does not match any '");
            msg.append(l);
            msg.append("' key");
            errors.push(msg);
            proof {
                assert(row_complete(rows@[k as int]@));
                assert(strings_view(t@) == row_tuple(rows@[k as int]@));
                let step = seq![
                    "keyref '"@ + c.name@ + "': tuple ["@ + join_values(row_tuple(rows@[k as int]@))
                        + "] does not match any '"@ + l@ + "' key"@,
                ];
                assert(keyref_rows(tasks@, *c, rows@, l@, k + 1) == keyref_rows(
                    tasks@,
                    *c,
                    rows@,
                    l@,
                    k as int,
                ) + step);
                assert(strings_view(errors@) =~= before.push(msg@));
                assert(msg@ == step[0]);
                assert(strings_view(errors@) =~= start + keyref_rows(
                    tasks@,
                    *c,
                    rows@,
                    l@,
                    k + 1,
                ));
            }
        } else {
            proof {
                assert(start + keyref_rows(tasks@, *c, rows@, l@, k + 1) =~= before);
            }
        }
        k = k + 1;
    }
}

/// Evaluates the collected constraint tasks: keys and uniques first (their
/// tuples form the tables keyrefs are resolved against), then keyrefs.
pub fn validate_identity_constraints(tasks: &[ConstraintTask]) -> (r: Vec<String>)
    ensures
        strings_view(r@) == unique_errors(tasks@, tasks@.len() as int) + keyref_errors(
            tasks@,
            tasks@.len() as int,
        ),
{
    let mut errors: Vec<String> = Vec::new();
    let mut i: usize = 0;
    proof {
        assert(strings_view(errors@) =~= Seq::<Seq<char>>::empty());
    }
    while i < tasks.len()
        invariant
            i <= tasks@.len(),
            strings_view(errors@) == unique_errors(tasks@, i as int),
        decreases tasks@.len() - i,
    {
        let t = &tasks[i];
        let ghost before = strings_view(errors@);
        if t.constraint.constraint_type != CompiledConstraintType::KeyRef {
            check_task(&t.constraint, &t.rows, &mut errors);
        } else {
            proof {
                assert(before + Seq::<Seq<char>>::empty() =~= before);
            }
        }
        i = i + 1;
    }
    let ghost first = strings_view(errors@);
    let mut i: usize = 0;
    proof {
        assert(first + keyref_errors(tasks@, 0) =~= first);
    }
    while i < tasks.len()
        invariant
            i <= tasks@.len(),
            strings_view(errors@) == first + keyref_errors(tasks@, i as int),
        decreases tasks@.len() - i,
    {
        let t = &tasks[i];
        let ghost before = strings_view(errors@);
        let mut done = false;
        if t.constraint.constraint_type == CompiledConstraintType::KeyRef {
            if let Some(refer) = &t.constraint.refer {
                let l = local_name(refer.as_str());
                if find_table(tasks, l.as_str()) {
                    check_keyref(tasks, &t.constraint, &t.rows, l.as_str(), &mut errors);
                    proof {
                        assert(first + keyref_errors(tasks@, i + 1) =~= strings_view(errors@));
                    }
                    done = true;
                }
            }
        }
        if !done {
            proof {
                assert(first + keyref_errors(tasks@, i + 1) =~= before);
            }
        }
        i = i + 1;
    }
    errors
}

/// Document-wide ID / IDREF tracking.
#[derive(Debug)]
pub struct DocIdState {
    /// `xs:ID` values seen so far.
    pub seen_ids: Vec<String>,
    /// `xs:IDREF` values with their locations, resolved after traversal.
    pub pending_idrefs: Vec<(String, Option<usize>, Option<usize>)>,
}

impl Default for DocIdState {
    /// Nothing seen yet.
    fn default() -> (r: Self)
        ensures
            r.seen_ids@.len() == 0,
            r.pending_idrefs@.len() == 0,
    {
        DocIdState { seen_ids: Vec::new(), pending_idrefs: Vec::new() }
    }
}

/// The duplicate-ID errors of recording `ids` after `seen`, and the IDs
/// seen afterwards (each new value once, in order).
pub open spec fn record_ids(seen: Seq<Seq<char>>, ids: Seq<Seq<char>>) -> (Seq<Seq<char>>, Seq<Seq<char>>)
    decreases ids.len(),
{
    if ids.len() == 0 {
        (Seq::empty(), seen)
    } else {
        let (errs, s) = record_ids(seen, ids.drop_last());
        let id = ids.last();
        if s.contains(id) {
            (errs.push("duplicate ID value '"@ + id + "'"@), s)
        } else {
            (errs, s.push(id))
        }
    }
}

/// Whether `v` holds `x`.
pub(crate) fn contains_string(v: &Vec<String>, x: &str) -> (r: bool)
    ensures
        r == strings_view(v@).contains(x@),
{
    let mut i: usize = 0;
    while i < v.len()
        invariant
            i <= v@.len(),
            forall|k: int| 0 <= k < i ==> v@[k]@ != x@,
        decreases v@.len() - i,
    {
        if str_eq(v[i].as_str(), x) {
            assert(strings_view(v@)[i as int] == x@);
            return true;
        }
        i = i + 1;
    }
    proof {
        if strings_view(v@).contains(x@) {
            let w = choose|k: int| 0 <= k < strings_view(v@).len() && strings_view(v@)[k] == x@;
            assert(v@[w]@ == x@);
        }
    }
    false
}

impl DocIdState {
    /// Records ID values (returning duplicate-ID error messages) and IDREF
    /// values found at the given location.
    pub fn record(
        &mut self,
        ids: Vec<String>,
        idrefs: Vec<String>,
        line: Option<usize>,
        column: Option<usize>,
    ) -> (r: Vec<String>)
        ensures
            strings_view(r@) == record_ids(strings_view(old(self).seen_ids@), strings_view(ids@)).0,
            strings_view(final(self).seen_ids@) == record_ids(
                strings_view(old(self).seen_ids@),
                strings_view(ids@),
            ).1,
            final(self).pending_idrefs@.len() == old(self).pending_idrefs@.len() + idrefs@.len(),
            forall|k: int|
                0 <= k < old(self).pending_idrefs@.len() ==> #[trigger] final(self).pending_idrefs@[k]
                    == old(self).pending_idrefs@[k],
            forall|k: int|
                0 <= k < idrefs@.len() ==> #[trigger] final(self).pending_idrefs@[old(self).pending_idrefs@.len() + k]
                    == (idrefs@[k], line, column),
    {
        let ghost seen0 = strings_view(self.seen_ids@);
        let ghost p0 = self.pending_idrefs@;
        let mut errors: Vec<String> = Vec::new();
        let mut i: usize = 0;
        proof {
            assert(strings_view(errors@) =~= Seq::<Seq<char>>::empty());
            assert(strings_view(ids@).take(0) =~= Seq::<Seq<char>>::empty());
        }
        while i < ids.len()
            invariant
                i <= ids@.len(),
                (strings_view(errors@), strings_view(self.seen_ids@)) == record_ids(
                    seen0,
                    strings_view(ids@).take(i as int),
                ),
                self.pending_idrefs@ == p0,
            decreases ids@.len() - i,
        {
            proof {
                reveal_strlit("duplicate ID value '");
                reveal_strlit("'");
                assert(strings_view(ids@).take(i + 1).drop_last() =~= strings_view(ids@).take(
                    i as int,
                ));
                assert(strings_view(ids@).take(i + 1).last() == ids@[i as int]@);
            }
            let id = &ids[i];
            let ghost e0 = strings_view(errors@);
            let ghost s0 = strings_view(self.seen_ids@);
            if contains_string(&self.seen_ids, id.as_str()) {
                let mut m = String::from_str("duplicate ID value '");
                m.append(id.as_str());
                m.append("'");
                errors.push(m);
                proof {
                    assert(strings_view(errors@) =~= e0.push(m@));
                }
            } else {
                self.seen_ids.push(id.clone());
                proof {
                    assert(strings_view(self.seen_ids@) =~= s0.push(id@));
                }
            }
            i = i + 1;
        }
        proof {
            assert(strings_view(ids@).take(ids@.len() as int) =~= strings_view(ids@));
        }
        let mut j: usize = 0;
        while j < idrefs.len()
            invariant
                j <= idrefs@.len(),
                self.pending_idrefs@.len() == p0.len() + j,
                strings_view(self.seen_ids@) == record_ids(seen0, strings_view(ids@)).1,
                forall|k: int| 0 <= k < p0.len() ==> #[trigger] self.pending_idrefs@[k] == p0[k],
                forall|k: int|
                    0 <= k < j ==> #[trigger] self.pending_idrefs@[p0.len() + k] == (
                        idrefs@[k],
                        line,
                        column,
                    ),
            decreases idrefs@.len() - j,
        {
            self.pending_idrefs.push((idrefs[j].clone(), line, column));
            j = j + 1;
        }
        errors
    }
}

} // verus!
