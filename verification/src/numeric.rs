//! Allocation-free lexical scanners for numeric values.
//!
//! For an unconstrained numeric scalar or whitespace-separated list (no facet
//! beyond `whiteSpace=collapse`), checking a value reduces to "every
//! whitespace-delimited token is lexically a valid number". The scanners here
//! answer exactly that in one pass over the raw bytes. Each per-token scanner
//! accepts exactly the lexical space stated by its spec function, which is
//! also the lexical space that [`PrimitiveKind::validate`] checks.
use vstd::prelude::*;
use vstd::slice::slice_subrange;

use crate::facets::{FacetConstraints, WhitespaceHandling};
use crate::primitive::PrimitiveKind;

verus! {

/// An ASCII decimal digit.
pub open spec fn is_digit_byte(c: u8) -> bool {
    48 <= c <= 57
}

/// Every byte is an ASCII decimal digit.
pub open spec fn all_digits(s: Seq<u8>) -> bool {
    forall|i: int| 0 <= i < s.len() ==> #[trigger] is_digit_byte(s[i])
}

/// A leading `+` or `-`.
pub open spec fn is_sign_byte(c: u8) -> bool {
    c == 43 || c == 45
}

/// The sequence with one leading sign removed, if there is one.
pub open spec fn strip_sign(s: Seq<u8>) -> Seq<u8> {
    if s.len() > 0 && is_sign_byte(s[0]) {
        s.subrange(1, s.len() as int)
    } else {
        s
    }
}

/// `xs:integer` lexical space: `[+-]?[0-9]+`.
pub open spec fn integer_lexical(s: Seq<u8>) -> bool {
    strip_sign(s).len() > 0 && all_digits(strip_sign(s))
}

/// Unsigned decimal mantissa: `[0-9]+(\.[0-9]*)?|\.[0-9]+`.
pub open spec fn mantissa_lexical(s: Seq<u8>) -> bool {
    ||| (s.len() > 0 && all_digits(s))
    ||| exists|d: int|
        #![trigger s[d]]
        0 <= d < s.len() && s[d] == 46u8 && all_digits(s.subrange(0, d)) && all_digits(
            s.subrange(d + 1, s.len() as int),
        ) && (d >= 1 || s.len() - d - 1 >= 1)
}

/// `xs:decimal` lexical space: `[+-]?(?:[0-9]+(?:\.[0-9]*)?|\.[0-9]+)`.
pub open spec fn decimal_lexical(s: Seq<u8>) -> bool {
    mantissa_lexical(strip_sign(s))
}

/// `e` or `E`.
pub open spec fn is_exp_byte(c: u8) -> bool {
    c == 101 || c == 69
}

/// The special `xs:double` literals `INF`, `+INF`, `-INF` and `NaN`.
pub open spec fn double_special(s: Seq<u8>) -> bool {
    ||| s == seq![73u8, 78u8, 70u8]
    ||| s == seq![43u8, 73u8, 78u8, 70u8]
    ||| s == seq![45u8, 73u8, 78u8, 70u8]
    ||| s == seq![78u8, 97u8, 78u8]
}

/// `xs:double` / `xs:float` lexical space:
/// `[+-]?mantissa([eE][+-]?[0-9]+)?`, or one of the special literals.
pub open spec fn double_lexical(s: Seq<u8>) -> bool {
    let r = strip_sign(s);
    ||| double_special(s)
    ||| mantissa_lexical(r)
    ||| exists|p: int|
        #![trigger r[p]]
        0 <= p < r.len() && is_exp_byte(r[p]) && mantissa_lexical(r.subrange(0, p))
            && integer_lexical(r.subrange(p + 1, r.len() as int))
}

/// ASCII XML whitespace (S production): space, tab, LF, CR.
pub open spec fn is_ws_byte(b: u8) -> bool {
    b == 32 || b == 9 || b == 10 || b == 13
}

/// `s[i..j]` is a maximal run of non-whitespace bytes: a token of a
/// whitespace-separated list.
pub open spec fn is_token(s: Seq<u8>, i: int, j: int) -> bool {
    &&& 0 <= i < j <= s.len()
    &&& forall|k: int| i <= k < j ==> !#[trigger] is_ws_byte(s[k])
    &&& (i == 0 || is_ws_byte(s[i - 1]))
    &&& (j == s.len() || is_ws_byte(s[j]))
}

/// `s[i..j]` is the value left after trimming leading and trailing
/// whitespace from `s`, and it is not empty.
pub open spec fn is_trimmed_span(s: Seq<u8>, i: int, j: int) -> bool {
    &&& 0 <= i < j <= s.len()
    &&& forall|k: int| 0 <= k < i ==> #[trigger] is_ws_byte(s[k])
    &&& forall|k: int| j <= k < s.len() ==> #[trigger] is_ws_byte(s[k])
    &&& !is_ws_byte(s[i])
    &&& !is_ws_byte(s[j - 1])
}

/// Numeric lexical family handled by the fast path.
#[derive(Debug, Clone, Copy, PartialEq, Eq, Structural)]
pub enum NumClass {
    /// `xs:double` / `xs:float`.
    Double,
    /// `xs:decimal`.
    Decimal,
    /// `xs:integer`.
    Integer,
}

/// The lexical space of a numeric family.
pub open spec fn class_accepts(class: NumClass, s: Seq<u8>) -> bool {
    match class {
        NumClass::Double => double_lexical(s),
        NumClass::Decimal => decimal_lexical(s),
        NumClass::Integer => integer_lexical(s),
    }
}

/// The numeric family a primitive kind belongs to, when it has one.
pub open spec fn class_of_kind(kind: PrimitiveKind) -> Option<NumClass> {
    match kind {
        PrimitiveKind::Double | PrimitiveKind::Float => Some(NumClass::Double),
        PrimitiveKind::Decimal => Some(NumClass::Decimal),
        PrimitiveKind::Integer => Some(NumClass::Integer),
        _ => None,
    }
}

impl NumClass {
    /// Maps a primitive kind to a fast-path numeric family, or `None` if the
    /// kind is not handled here.
    pub fn from_kind(kind: PrimitiveKind) -> (r: Option<Self>)
        ensures
            r == class_of_kind(kind),
    {
        match kind {
            PrimitiveKind::Double | PrimitiveKind::Float => Some(NumClass::Double),
            PrimitiveKind::Decimal => Some(NumClass::Decimal),
            PrimitiveKind::Integer => Some(NumClass::Integer),
            _ => None,
        }
    }

    /// Validates a single, whitespace-free token against this family's
    /// lexical space.
    pub fn accepts_token(self, tok: &[u8]) -> (r: bool)
        ensures
            r == class_accepts(self, tok@),
    {
        match self {
            NumClass::Double => is_double(tok),
            NumClass::Decimal => is_decimal(tok),
            NumClass::Integer => is_integer(tok),
        }
    }
}

/// The fast-path plan a set of facet constraints qualifies for, if any.
#[derive(Debug, Clone, Copy, PartialEq, Eq, Structural)]
pub enum NumericPlan {
    /// A single numeric scalar value.
    Scalar(NumClass),
    /// A whitespace-separated list of numeric items.
    List(NumClass),
}

/// No facet beyond the fixed `whiteSpace=collapse` is present.
pub open spec fn unconstrained(c: FacetConstraints) -> bool {
    &&& c.length is None
    &&& c.min_length is None
    &&& c.max_length is None
    &&& c.min_inclusive is None
    &&& c.max_inclusive is None
    &&& c.min_exclusive is None
    &&& c.max_exclusive is None
    &&& c.total_digits is None
    &&& c.fraction_digits is None
    &&& c.patterns@.len() == 0
    &&& c.enumeration@.len() == 0
    &&& c.explicit_timezone is None
    &&& c.whitespace == WhitespaceHandling::Collapse
}

/// The plan that `classify` picks for a set of constraints.
pub open spec fn plan_of(c: FacetConstraints) -> Option<NumericPlan> {
    if !unconstrained(c) {
        None
    } else if c.is_list {
        if c.value_kind is Some {
            None
        } else {
            match c.item_kind {
                Some(k) => match class_of_kind(k) {
                    Some(cl) => Some(NumericPlan::List(cl)),
                    None => None,
                },
                None => None,
            }
        }
    } else {
        match c.value_kind {
            Some(k) => match class_of_kind(k) {
                Some(cl) => Some(NumericPlan::Scalar(cl)),
                None => None,
            },
            None => None,
        }
    }
}

/// Decides whether `constraints` describe an unconstrained numeric scalar or
/// list eligible for the fast path.
pub fn classify(constraints: &FacetConstraints) -> (r: Option<NumericPlan>)
    ensures
        r == plan_of(*constraints),
{
    if !is_unconstrained(constraints) {
        return None;
    }
    if constraints.is_list {
        if constraints.value_kind.is_some() {
            return None;
        }
        match constraints.item_kind {
            Some(k) => match NumClass::from_kind(k) {
                Some(cl) => Some(NumericPlan::List(cl)),
                None => None,
            },
            None => None,
        }
    } else {
        match constraints.value_kind {
            Some(k) => match NumClass::from_kind(k) {
                Some(cl) => Some(NumericPlan::Scalar(cl)),
                None => None,
            },
            None => None,
        }
    }
}

/// True when no facet beyond the fixed `whiteSpace=collapse` is present.
pub fn is_unconstrained(c: &FacetConstraints) -> (r: bool)
    ensures
        r == unconstrained(*c),
{
    c.length.is_none() && c.min_length.is_none() && c.max_length.is_none()
        && c.min_inclusive.is_none() && c.max_inclusive.is_none() && c.min_exclusive.is_none()
        && c.max_exclusive.is_none() && c.total_digits.is_none() && c.fraction_digits.is_none()
        && c.patterns.len() == 0 && c.enumeration.len() == 0 && c.explicit_timezone.is_none()
        && c.whitespace == WhitespaceHandling::Collapse
}

/// ASCII XML whitespace (S production): space, tab, CR, LF.
pub fn is_xml_ws(b: u8) -> (r: bool)
    ensures
        r == is_ws_byte(b),
{
    b == 32 || b == 9 || b == 10 || b == 13
}

/// Fast check for a numeric list value: every whitespace-delimited token
/// must be lexically valid. An empty list (no tokens) is valid.
pub fn scan_list(bytes: &[u8], class: NumClass) -> (r: bool)
    ensures
        r == (forall|i: int, j: int|
            #[trigger] is_token(bytes@, i, j) ==> class_accepts(class, bytes@.subrange(i, j))),
{
    let n = bytes.len();
    let mut i: usize = 0;
    while i < n
        invariant
            n == bytes@.len(),
            i <= n,
            i == 0 || i == n || is_ws_byte(bytes@[i as int]) || is_ws_byte(bytes@[i - 1]),
            forall|s: int, e: int|
                #[trigger] is_token(bytes@, s, e) && s < i ==> class_accepts(
                    class,
                    bytes@.subrange(s, e),
                ),
        decreases n - i,
    {
        let ghost i0 = i;
        while i < n && is_xml_ws(bytes[i])
            invariant
                n == bytes@.len(),
                i0 <= i <= n,
                i == 0 || i == n || is_ws_byte(bytes@[i as int]) || is_ws_byte(bytes@[i - 1]),
                forall|s: int, e: int|
                    #[trigger] is_token(bytes@, s, e) && s < i ==> class_accepts(
                        class,
                        bytes@.subrange(s, e),
                    ),
            decreases n - i,
        {
            i = i + 1;
        }
        if i >= n {
            return true;
        }
        let start = i;
        assert(start == 0 || is_ws_byte(bytes@[start - 1]));
        assert(!is_ws_byte(bytes@[start as int]));
        while i < n && !is_xml_ws(bytes[i])
            invariant
                n == bytes@.len(),
                start <= i <= n,
                start < n,
                !is_ws_byte(bytes@[start as int]),
                start == 0 || is_ws_byte(bytes@[start - 1]),
                forall|k: int| start <= k < i ==> !#[trigger] is_ws_byte(bytes@[k]),
            decreases n - i,
        {
            i = i + 1;
        }
        assert(i > start);
        assert(is_token(bytes@, start as int, i as int));
        let ok = class.accepts_token(slice_subrange(bytes, start, i));
        if !ok {
            return false;
        }
        assert forall|s: int, e: int| #[trigger] is_token(bytes@, s, e) && s < i implies class_accepts(
            class,
            bytes@.subrange(s, e),
        ) by {
            if s >= start {
                if s > start {
                    assert(!is_ws_byte(bytes@[s - 1]));
                }
                if e < i {
                    assert(!is_ws_byte(bytes@[e]));
                }
                if e > i {
                    assert(!is_ws_byte(bytes@[i as int]));
                }
            }
        }
    }
    true
}

/// Locates the value left after trimming leading and trailing XML
/// whitespace; `None` when the value is empty or all whitespace.
pub fn trimmed_span(bytes: &[u8]) -> (r: Option<(usize, usize)>)
    ensures
        match r {
            Some((i, j)) => is_trimmed_span(bytes@, i as int, j as int),
            None => forall|i: int, j: int| !#[trigger] is_trimmed_span(bytes@, i, j),
        },
{
    let mut start: usize = 0;
    let mut end: usize = bytes.len();
    while start < end && is_xml_ws(bytes[start])
        invariant
            end == bytes@.len(),
            start <= end,
            forall|k: int| 0 <= k < start ==> #[trigger] is_ws_byte(bytes@[k]),
        decreases end - start,
    {
        start = start + 1;
    }
    while end > start && is_xml_ws(bytes[end - 1])
        invariant
            start <= end <= bytes@.len(),
            forall|k: int| 0 <= k < start ==> #[trigger] is_ws_byte(bytes@[k]),
            forall|k: int| end <= k < bytes@.len() ==> #[trigger] is_ws_byte(bytes@[k]),
            start < bytes@.len() ==> !is_ws_byte(bytes@[start as int]),
        decreases end - start,
    {
        end = end - 1;
    }
    if start == end {
        assert forall|i: int, j: int| !#[trigger] is_trimmed_span(bytes@, i, j) by {
            if is_trimmed_span(bytes@, i, j) {
                assert(is_ws_byte(bytes@[i]));
            }
        }
        return None;
    }
    Some((start, end))
}

/// The trimmed span of a value is unique.
pub proof fn lemma_trimmed_span_unique(s: Seq<u8>, i: int, j: int, k: int, l: int)
    requires
        is_trimmed_span(s, i, j),
        is_trimmed_span(s, k, l),
    ensures
        i == k && j == l,
{
    if i < k {
        assert(is_ws_byte(s[i]));
    }
    if k < i {
        assert(is_ws_byte(s[k]));
    }
    if j < l {
        assert(is_ws_byte(s[l - 1]));
    }
    if l < j {
        assert(is_ws_byte(s[j - 1]));
    }
}

/// Fast check for a numeric scalar value: after trimming XML whitespace the
/// remainder must be exactly one lexically valid token. An empty (all
/// whitespace) value is rejected.
pub fn scan_scalar(bytes: &[u8], class: NumClass) -> (r: bool)
    ensures
        r == (exists|i: int, j: int|
            #[trigger] is_trimmed_span(bytes@, i, j) && class_accepts(
                class,
                bytes@.subrange(i, j),
            )),
{
    match trimmed_span(bytes) {
        None => false,
        Some((start, end)) => {
            let r = class.accepts_token(slice_subrange(bytes, start, end));
            proof {
                assert forall|i: int, j: int| #[trigger] is_trimmed_span(bytes@, i, j) implies i
                    == start && j == end by {
                    lemma_trimmed_span_unique(bytes@, i, j, start as int, end as int);
                }
            }
            r
        },
    }
}

/// Returns the length of the leading sign (0 or 1).
fn sign_len(b: &[u8]) -> (r: usize)
    ensures
        r <= b@.len(),
        strip_sign(b@) == b@.subrange(r as int, b@.len() as int),
{
    if b.len() > 0 && (b[0] == 43 || b[0] == 45) {
        1
    } else {
        assert(b@.subrange(0, b@.len() as int) =~= b@);
        0
    }
}

/// Whether every byte of `b[from..]` is a digit.
fn digits_from(b: &[u8], from: usize) -> (r: bool)
    requires
        from <= b@.len(),
    ensures
        r == all_digits(b@.subrange(from as int, b@.len() as int)),
{
    let mut i = from;
    while i < b.len()
        invariant
            from <= i <= b@.len(),
            forall|k: int| from <= k < i ==> #[trigger] is_digit_byte(b@[k]),
        decreases b@.len() - i,
    {
        if !(48 <= b[i] && b[i] <= 57) {
            assert(!is_digit_byte(b@.subrange(from as int, b@.len() as int)[i - from]));
            return false;
        }
        i = i + 1;
    }
    assert forall|k: int| 0 <= k < b@.len() - from implies #[trigger] is_digit_byte(
        b@.subrange(from as int, b@.len() as int)[k],
    ) by {
        assert(is_digit_byte(b@[k + from]));
    }
    true
}

/// `xs:integer` lexical space: `[+-]?[0-9]+`.
pub fn is_integer(b: &[u8]) -> (r: bool)
    ensures
        r == integer_lexical(b@),
{
    let s = sign_len(b);
    s < b.len() && digits_from(b, s)
}

/// Unsigned decimal mantissa: `[0-9]+(\.[0-9]*)?|\.[0-9]+`.
pub fn is_unsigned_mantissa(b: &[u8]) -> (r: bool)
    ensures
        r == mantissa_lexical(b@),
{
    if b.len() == 0 {
        return false;
    }
    let mut dot: Option<usize> = None;
    let mut j: usize = 0;
    while j < b.len()
        invariant
            j <= b@.len(),
            match dot {
                None => forall|k: int| 0 <= k < j ==> #[trigger] is_digit_byte(b@[k]),
                Some(d) => d < j && b@[d as int] == 46u8 && (forall|k: int|
                    0 <= k < j && k != d ==> #[trigger] is_digit_byte(b@[k])),
            },
        decreases b@.len() - j,
    {
        let c = b[j];
        if c == 46 {
            if dot.is_some() {
                proof {
                    let d = dot.unwrap() as int;
                    assert forall|e: int|
                        0 <= e < b@.len() && b@[e] == 46u8 && all_digits(b@.subrange(0, e))
                            && all_digits(b@.subrange(e + 1, b@.len() as int)) implies false by {
                        if e < d {
                            assert(!is_digit_byte(b@.subrange(e + 1, b@.len() as int)[d - e - 1]));
                        } else if e > d {
                            assert(!is_digit_byte(b@.subrange(0, e)[d]));
                        } else {
                            assert(!is_digit_byte(
                                b@.subrange(e + 1, b@.len() as int)[j - e - 1],
                            ));
                        }
                    }
                    assert(!is_digit_byte(b@[j as int]));
                }
                return false;
            }
            dot = Some(j);
        } else if !(48 <= c && c <= 57) {
            proof {
                assert(!is_digit_byte(b@[j as int]));
                assert(!all_digits(b@));
                assert forall|e: int|
                    0 <= e < b@.len() && b@[e] == 46u8 && all_digits(b@.subrange(0, e))
                        && all_digits(b@.subrange(e + 1, b@.len() as int)) implies false by {
                    if j < e {
                        assert(!is_digit_byte(b@.subrange(0, e)[j as int]));
                    } else {
                        assert(!is_digit_byte(b@.subrange(e + 1, b@.len() as int)[j - e - 1]));
                    }
                }
            }
            return false;
        }
        j = j + 1;
    }
    match dot {
        None => {
            assert(all_digits(b@));
            true
        },
        Some(d) => {
            proof {
                assert(!is_digit_byte(b@[d as int]));
                assert(all_digits(b@.subrange(0, d as int)));
                assert forall|k: int| 0 <= k < b@.len() - d - 1 implies #[trigger] is_digit_byte(
                    b@.subrange(d + 1, b@.len() as int)[k],
                ) by {
                    assert(b@.subrange(d + 1, b@.len() as int)[k] == b@[k + d + 1]);
                }
                assert forall|e: int|
                    0 <= e < b@.len() && b@[e] == 46u8 && all_digits(b@.subrange(0, e))
                        && all_digits(b@.subrange(e + 1, b@.len() as int)) implies e == d by {
                    if e != d {
                        assert(is_digit_byte(b@[e]));
                    }
                }
            }
            let before = d;
            let after = b.len() - d - 1;
            before >= 1 || after >= 1
        },
    }
}

/// `xs:decimal` lexical space: `[+-]?(?:[0-9]+(?:\.[0-9]*)?|\.[0-9]+)`.
pub fn is_decimal(b: &[u8]) -> (r: bool)
    ensures
        r == decimal_lexical(b@),
{
    let s = sign_len(b);
    is_unsigned_mantissa(slice_subrange(b, s, b.len()))
}

/// Whether `b` is one of the special `xs:double` literals.
fn is_double_special(b: &[u8]) -> (r: bool)
    ensures
        r == double_special(b@),
{
    let n = b.len();
    if n == 3 {
        if b[0] == 73 && b[1] == 78 && b[2] == 70 {
            assert(b@ =~= seq![73u8, 78u8, 70u8]);
            return true;
        }
        if b[0] == 78 && b[1] == 97 && b[2] == 78 {
            assert(b@ =~= seq![78u8, 97u8, 78u8]);
            return true;
        }
        assert(b@ != seq![73u8, 78u8, 70u8] ==> b@[0] != 73u8 || b@[1] != 78u8 || b@[2] != 70u8);
        return false;
    }
    if n == 4 && (b[0] == 43 || b[0] == 45) && b[1] == 73 && b[2] == 78 && b[3] == 70 {
        if b[0] == 43 {
            assert(b@ =~= seq![43u8, 73u8, 78u8, 70u8]);
        } else {
            assert(b@ =~= seq![45u8, 73u8, 78u8, 70u8]);
        }
        return true;
    }
    proof {
        if n == 4 {
            assert(b@ == seq![43u8, 73u8, 78u8, 70u8] ==> b@[0] == 43u8 && b@[1] == 73u8 && b@[2]
                == 78u8 && b@[3] == 70u8);
            assert(b@ == seq![45u8, 73u8, 78u8, 70u8] ==> b@[0] == 45u8 && b@[1] == 73u8 && b@[2]
                == 78u8 && b@[3] == 70u8);
        }
    }
    false
}

/// `xs:double` / `xs:float` lexical space:
/// `[+-]?mantissa([eE][+-]?[0-9]+)?` or one of `INF` / `+INF` / `-INF` / `NaN`.
pub fn is_double(b: &[u8]) -> (r: bool)
    ensures
        r == double_lexical(b@),
{
    if is_double_special(b) {
        return true;
    }
    let s = sign_len(b);
    let rest = slice_subrange(b, s, b.len());
    let mut p: usize = 0;
    while p < rest.len() && !(rest[p] == 101 || rest[p] == 69)
        invariant
            p <= rest@.len(),
            forall|k: int| 0 <= k < p ==> !#[trigger] is_exp_byte(rest@[k]),
        decreases rest@.len() - p,
    {
        p = p + 1;
    }
    let ghost r = rest@;
    if p < rest.len() {
        let m = is_unsigned_mantissa(slice_subrange(rest, 0, p));
        let e = is_integer(slice_subrange(rest, p + 1, rest.len()));
        proof {
            // The mantissa and exponent parts contain no exponent marker, so
            // the split at the first marker is the only possible one.
            lemma_mantissa_no_exp(r);
            assert forall|q: int|
                #![trigger r[q]]
                0 <= q < r.len() && is_exp_byte(r[q]) && mantissa_lexical(r.subrange(0, q))
                    && integer_lexical(r.subrange(q + 1, r.len() as int)) implies q == p by {
                if q > p {
                    lemma_mantissa_no_exp(r.subrange(0, q));
                    assert(!is_exp_byte(r.subrange(0, q)[p as int]));
                }
            }
            assert(is_exp_byte(r[p as int]));
        }
        m && e
    } else {
        proof {
            assert forall|q: int|
                #![trigger r[q]]
                0 <= q < r.len() && is_exp_byte(r[q]) && mantissa_lexical(r.subrange(0, q))
                    && integer_lexical(r.subrange(q + 1, r.len() as int)) implies false by {}
        }
        is_unsigned_mantissa(rest)
    }
}

/// A valid mantissa contains no exponent marker.
proof fn lemma_mantissa_no_exp(s: Seq<u8>)
    ensures
        mantissa_lexical(s) ==> forall|k: int| 0 <= k < s.len() ==> !#[trigger] is_exp_byte(s[k]),
{
    if mantissa_lexical(s) {
        if s.len() > 0 && all_digits(s) {
            assert forall|k: int| 0 <= k < s.len() implies !#[trigger] is_exp_byte(s[k]) by {
                assert(is_digit_byte(s[k]));
            }
        } else {
            let d = choose|d: int|
                #![trigger s[d]]
                0 <= d < s.len() && s[d] == 46u8 && all_digits(s.subrange(0, d)) && all_digits(
                    s.subrange(d + 1, s.len() as int),
                ) && (d >= 1 || s.len() - d - 1 >= 1);
            assert forall|k: int| 0 <= k < s.len() implies !#[trigger] is_exp_byte(s[k]) by {
                if k < d {
                    assert(is_digit_byte(s.subrange(0, d)[k]));
                } else if k > d {
                    assert(is_digit_byte(s.subrange(d + 1, s.len() as int)[k - d - 1]));
                }
            }
        }
    }
}

} // verus!
