//! Collapsing repeated entries: an entry with the same message and node
//! name as one already collected is recorded on that entry (one more
//! occurrence, and its position) instead of being added.
use vstd::prelude::*;

use crate::error::StructuredError;
use crate::location::copy_entry;
use crate::text::str_eq;
use crate::two_pass::{errors_view, ostr, view_error, ErrorView};

verus! {

/// Two entries are the same error: same message and node name.
pub open spec fn same_key(a: ErrorView, b: ErrorView) -> bool {
    a.message == b.message && a.node_name == b.node_name
}

/// The first collected entry that is the same error as `e`.
pub open spec fn first_same(s: Seq<ErrorView>, e: ErrorView) -> Option<int>
    decreases s.len(),
{
    if s.len() == 0 {
        None
    } else {
        match first_same(s.drop_last(), e) {
            Some(i) => Some(i),
            None => if same_key(s.last(), e) {
                Some(s.len() - 1)
            } else {
                None
            },
        }
    }
}

/// `a` with one more occurrence, at `e`'s position.
pub open spec fn recorded(a: ErrorView, e: ErrorView) -> ErrorView {
    ErrorView {
        count: if a.count < usize::MAX {
            (a.count + 1) as usize
        } else {
            a.count
        },
        more_positions: a.more_positions.push((e.line, e.column)),
        ..a
    }
}

/// Adding `e` with collapsing: recorded on the first same entry when there
/// is one; otherwise appended while fewer than `max` entries are collected
/// (0 = no limit).
pub open spec fn aggregate_add(s: Seq<ErrorView>, e: ErrorView, max: usize) -> Seq<ErrorView> {
    match first_same(s, e) {
        Some(i) => s.update(i, recorded(s[i], e)),
        None => if max == 0 || s.len() < max {
            s.push(e)
        } else {
            s
        },
    }
}

/// Adding each of `new` in turn with collapsing.
pub open spec fn aggregated(s: Seq<ErrorView>, new: Seq<ErrorView>, max: usize) -> Seq<ErrorView>
    decreases new.len(),
{
    if new.len() == 0 {
        s
    } else {
        aggregate_add(aggregated(s, new.drop_last(), max), new.last(), max)
    }
}

/// A first same entry found in a prefix is the first in the whole list.
proof fn lemma_first_same_prefix(s: Seq<ErrorView>, e: ErrorView, k: int)
    requires
        0 <= k <= s.len(),
        first_same(s.take(k), e) is Some,
    ensures
        first_same(s, e) == first_same(s.take(k), e),
    decreases s.len() - k,
{
    if k < s.len() {
        assert(s.take(k + 1).drop_last() =~= s.take(k));
        lemma_first_same_prefix(s, e, k + 1);
    } else {
        assert(s.take(k) =~= s);
    }
}

/// Optional strings are equal.
fn opt_eq(a: &Option<String>, b: &Option<String>) -> (r: bool)
    ensures
        r == (ostr(*a) == ostr(*b)),
{
    match (a, b) {
        (Some(x), Some(y)) => str_eq(x.as_str(), y.as_str()),
        (None, None) => true,
        _ => false,
    }
}

/// Adds `e` to the collected entries with collapsing, under the limit `max`
/// (0 = no limit).
pub fn add_aggregated(errors: &mut Vec<StructuredError>, e: StructuredError, max: usize)
    ensures
        errors_view(final(errors)@) == aggregate_add(errors_view(old(errors)@), view_error(e), max),
{
    let ghost s = errors_view(errors@);
    let ghost ev = view_error(e);
    let mut j: usize = 0;
    assert(s.take(0) =~= Seq::<ErrorView>::empty());
    while j < errors.len()
        invariant
            j <= errors@.len(),
            s == errors_view(errors@),
            s == errors_view(old(errors)@),
            ev == view_error(e),
            first_same(s.take(j as int), ev) is None,
        decreases errors@.len() - j,
    {
        assert(s.take(j + 1).drop_last() =~= s.take(j as int));
        assert(s.take(j + 1).last() == view_error(errors@[j as int]));
        if str_eq(errors[j].message.as_str(), e.message.as_str()) && opt_eq(
            &errors[j].node_name,
            &e.node_name,
        ) {
            proof {
                assert(same_key(s[j as int], ev));
                assert(first_same(s.take(j + 1), ev) == Some(j as int));
                lemma_first_same_prefix(s, ev, j + 1);
            }
            let mut x = copy_entry(&errors[j]);
            x.count = if x.count < usize::MAX {
                x.count + 1
            } else {
                x.count
            };
            x.more_positions.push((e.line, e.column));
            errors.set(j, x);
            assert(errors_view(errors@) =~= s.update(j as int, recorded(s[j as int], ev)));
            return;
        }
        j = j + 1;
    }
    assert(s.take(s.len() as int) =~= s);
    if max == 0 || errors.len() < max {
        errors.push(e);
        assert(errors_view(errors@) =~= s.push(ev));
    }
}

/// The entries with repeats collapsed, each kept while fewer than `max`
/// distinct entries are collected (0 = no limit).
pub fn aggregate_all(entries: Vec<StructuredError>, max: usize) -> (r: Vec<StructuredError>)
    ensures
        errors_view(r@) == aggregated(Seq::empty(), errors_view(entries@), max),
{
    let mut out: Vec<StructuredError> = Vec::new();
    let mut k: usize = 0;
    assert(errors_view(entries@).take(0) =~= Seq::<ErrorView>::empty());
    assert(errors_view(out@) =~= Seq::<ErrorView>::empty());
    while k < entries.len()
        invariant
            k <= entries@.len(),
            errors_view(out@) == aggregated(Seq::empty(), errors_view(entries@).take(k as int), max),
        decreases entries@.len() - k,
    {
        assert(errors_view(entries@).take(k + 1).drop_last() =~= errors_view(entries@).take(k as int));
        assert(errors_view(entries@).take(k + 1).last() == view_error(entries@[k as int]));
        add_aggregated(&mut out, copy_entry(&entries[k]), max);
        k = k + 1;
    }
    assert(errors_view(entries@).take(entries@.len() as int) =~= errors_view(entries@));
    out
}

/// No two entries are the same error.
pub open spec fn keys_distinct(s: Seq<ErrorView>) -> bool {
    forall|i: int, j: int| 0 <= i < j < s.len() ==> !same_key(#[trigger] s[i], #[trigger] s[j])
}

/// The first same entry found is a same entry; none means there is none.
pub proof fn lemma_first_same(s: Seq<ErrorView>, e: ErrorView)
    ensures
        match first_same(s, e) {
            Some(i) => 0 <= i < s.len() && same_key(s[i], e),
            None => forall|i: int| 0 <= i < s.len() ==> !same_key(#[trigger] s[i], e),
        },
    decreases s.len(),
{
    if s.len() > 0 {
        lemma_first_same(s.drop_last(), e);
        assert forall|i: int| 0 <= i < s.len() - 1 implies s.drop_last()[i] == #[trigger] s[i] by {}
    }
}

/// Collapsing keeps one entry per error: after adding any entries, no two
/// collected entries have the same message and node name, and no entry is
/// added past the cap.
pub proof fn law_aggregated_distinct(new: Seq<ErrorView>, max: usize)
    ensures
        keys_distinct(aggregated(Seq::empty(), new, max)),
        max > 0 ==> aggregated(Seq::empty(), new, max).len() <= max,
    decreases new.len(),
{
    if new.len() > 0 {
        law_aggregated_distinct(new.drop_last(), max);
        let a = aggregated(Seq::empty(), new.drop_last(), max);
        let e = new.last();
        lemma_first_same(a, e);
        let r = aggregate_add(a, e, max);
        match first_same(a, e) {
            Some(k) => {
                assert forall|i: int, j: int| 0 <= i < j < r.len() implies !same_key(#[trigger] r[i], #[trigger] r[j]) by {
                    assert(!same_key(a[i], a[j]));
                }
            },
            None => {
                assert forall|i: int, j: int| 0 <= i < j < r.len() implies !same_key(#[trigger] r[i], #[trigger] r[j]) by {
                    if j < a.len() {
                        assert(!same_key(a[i], a[j]));
                    } else {
                        assert(r[j] == e);
                        assert(!same_key(a[i], e));
                    }
                }
            },
        }
    }
}

/// With collapsing, adding an error that is the same as collected entry
/// `i` (the only one, as collected entries are distinct) keeps the number
/// of entries, records one more occurrence and its position on entry `i`,
/// and leaves every other entry as it was.
pub proof fn law_collapse_records_on_same_entry(s: Seq<ErrorView>, e: ErrorView, max: usize, i: int)
    requires
        keys_distinct(s),
        0 <= i < s.len(),
        same_key(s[i], e),
    ensures
        aggregate_add(s, e, max).len() == s.len(),
        aggregate_add(s, e, max)[i] == recorded(s[i], e),
        forall|j: int| 0 <= j < s.len() && j != i ==> #[trigger] aggregate_add(s, e, max)[j] == s[j],
{
    lemma_first_same(s, e);
    let k = first_same(s, e)->0;
    if k != i {
        if k < i {
            assert(!same_key(s[k], s[i]));
        } else {
            assert(!same_key(s[i], s[k]));
        }
    }
}

/// With collapsing, an error unlike every collected entry is appended while
/// fewer than `max` entries are collected (0 = no limit), and dropped
/// otherwise.
pub proof fn law_collapse_appends_new_error(s: Seq<ErrorView>, e: ErrorView, max: usize)
    requires
        forall|i: int| 0 <= i < s.len() ==> !same_key(#[trigger] s[i], e),
    ensures
        aggregate_add(s, e, max) == if max == 0 || s.len() < max {
            s.push(e)
        } else {
            s
        },
{
    lemma_first_same(s, e);
}

} // verus!
