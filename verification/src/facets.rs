//! Compiled facet constraints of a simple type.
use vstd::prelude::*;

use crate::primitive::PrimitiveKind;
use vstd::string::StringSliceAdditionalSpecFns;

verus! {

/// `whiteSpace` facet handling.
#[derive(Debug, Clone, Copy, PartialEq, Eq, Structural)]
pub enum WhitespaceHandling {
    /// Keep whitespace as written.
    Preserve,
    /// Replace tab, LF and CR by spaces.
    Replace,
    /// Replace, then collapse runs of spaces and trim.
    Collapse,
}

/// `explicitTimezone` facet value.
#[derive(Debug, Clone, Copy, PartialEq, Eq, Structural)]
pub enum ExplicitTimezone {
    /// A timezone must be present.
    Required,
    /// A timezone must not be present.
    Prohibited,
    /// A timezone may be present.
    Optional,
}

/// The facets that constrain a simple type's values.
#[derive(Debug, Clone)]
pub struct FacetConstraints {
    /// `length`
    pub length: Option<usize>,
    /// `minLength`
    pub min_length: Option<usize>,
    /// `maxLength`
    pub max_length: Option<usize>,
    /// `minInclusive`
    pub min_inclusive: Option<String>,
    /// `maxInclusive`
    pub max_inclusive: Option<String>,
    /// `minExclusive`
    pub min_exclusive: Option<String>,
    /// `maxExclusive`
    pub max_exclusive: Option<String>,
    /// `totalDigits`
    pub total_digits: Option<u32>,
    /// `fractionDigits`
    pub fraction_digits: Option<u32>,
    /// `pattern` facets
    pub patterns: Vec<String>,
    /// `enumeration` facets
    pub enumeration: Vec<String>,
    /// `explicitTimezone`
    pub explicit_timezone: Option<ExplicitTimezone>,
    /// `whiteSpace`
    pub whitespace: WhitespaceHandling,
    /// Whether the type is a list type.
    pub is_list: bool,
    /// The primitive value space of a scalar type.
    pub value_kind: Option<PrimitiveKind>,
    /// The primitive value space of a list type's items.
    pub item_kind: Option<PrimitiveKind>,
}

} // verus!

verus! {

use crate::messages::{dec, decimal_string};
use crate::numeric::{all_digits, integer_lexical, is_digit_byte, strip_sign};
use crate::text::str_eq;

/// The value of a sequence of decimal digits.
pub open spec fn digits_value(s: Seq<u8>) -> int
    decreases s.len(),
{
    if s.len() == 0 {
        0
    } else {
        digits_value(s.drop_last()) * 10 + (s.last() - 48)
    }
}

/// The value of an integer literal `[+-]?[0-9]+` with at most 18 digits, or
/// `None` for anything else.
pub open spec fn small_integer(s: Seq<u8>) -> Option<int> {
    let d = strip_sign(s);
    if integer_lexical(s) && d.len() <= 18 {
        if s.len() > 0 && s[0] == 45u8 {
            Some(-digits_value(d))
        } else {
            Some(digits_value(d))
        }
    } else {
        None
    }
}

/// A value of at most 18 digits is below 10^18.
proof fn lemma_digits_bound(s: Seq<u8>)
    requires
        all_digits(s),
    ensures
        0 <= digits_value(s),
        s.len() <= 18 ==> digits_value(s) < pow10(s.len() as nat),
    decreases s.len(),
{
    if s.len() > 0 {
        let d = s.drop_last();
        assert forall|i: int| 0 <= i < d.len() implies #[trigger] is_digit_byte(d[i]) by {
            assert(is_digit_byte(s[i]));
        }
        assert(is_digit_byte(s[s.len() - 1]));
        lemma_digits_bound(d);
        if s.len() <= 18 {
            assert(digits_value(d) < pow10(d.len() as nat));
            assert(digits_value(d) * 10 + 9 < pow10(d.len() as nat) * 10) by (nonlinear_arith)
                requires
                    digits_value(d) < pow10(d.len() as nat),
            ;
        }
    }
}

/// 10 to the power `n`.
pub open spec fn pow10(n: nat) -> int
    decreases n,
{
    if n == 0 {
        1
    } else {
        pow10((n - 1) as nat) * 10
    }
}

/// Parses an integer literal of at most 18 digits.
pub fn parse_small_integer(v: &str) -> (r: Option<i64>)
    ensures
        match r {
            Some(x) => small_integer(v.spec_bytes()) == Some(x as int),
            None => small_integer(v.spec_bytes()) is None,
        },
{
    let b = v.as_bytes();
    let neg = b.len() > 0 && b[0] == 45;
    let s: usize = if b.len() > 0 && (b[0] == 43 || b[0] == 45) {
        1
    } else {
        0
    };
    proof {
        assert(strip_sign(b@) =~= b@.subrange(s as int, b@.len() as int));
    }
    if b.len() - s == 0 || b.len() - s > 18 {
        return None;
    }
    let mut i = s;
    let mut acc: i64 = 0;
    while i < b.len()
        invariant
            s <= i <= b@.len(),
            b@ == v.spec_bytes(),
            b@.len() - s <= 18,
            strip_sign(b@) == b@.subrange(s as int, b@.len() as int),
            all_digits(b@.subrange(s as int, i as int)),
            acc as int == digits_value(b@.subrange(s as int, i as int)),
            0 <= acc < pow10((i - s) as nat),
        decreases b@.len() - i,
    {
        let c = b[i];
        if !(48 <= c && c <= 57) {
            proof {
                let d = strip_sign(b@);
                assert(d[i - s] == c);
                assert(!is_digit_byte(d[i - s]));
                assert(!all_digits(d));
            }
            return None;
        }
        proof {
            let t = b@.subrange(s as int, i + 1);
            assert(t.drop_last() =~= b@.subrange(s as int, i as int));
            assert forall|k: int| 0 <= k < t.len() implies #[trigger] is_digit_byte(t[k]) by {
                if k < t.len() - 1 {
                    assert(t[k] == b@.subrange(s as int, i as int)[k]);
                }
            }
            lemma_digits_bound(t);
            lemma_pow10_18((i + 1 - s) as nat);
        }
        acc = acc * 10 + (c - 48) as i64;
        i = i + 1;
    }
    proof {
        assert(b@.subrange(s as int, i as int) =~= strip_sign(b@));
    }
    if neg {
        Some(-acc)
    } else {
        Some(acc)
    }
}

/// 10^n fits comfortably in an `i64` for n <= 18.
proof fn lemma_pow10_18(n: nat)
    requires
        n <= 18,
    ensures
        0 < pow10(n) <= 1_000_000_000_000_000_000,
    decreases 18 - n,
{
    if n < 18 {
        lemma_pow10_18(n + 1);
        lemma_pow10_pos(n);
    } else {
        reveal_with_fuel(pow10, 19);
    }
}

/// Powers of ten are positive.
proof fn lemma_pow10_pos(n: nat)
    ensures
        pow10(n) > 0,
    decreases n,
{
    if n > 0 {
        lemma_pow10_pos((n - 1) as nat);
    }
}

} // verus!

verus! {

use vstd::utf8::encode_utf8;

impl FacetConstraints {
    /// No facets: every value is accepted.
    pub fn new() -> (c: FacetConstraints)
        ensures
            c.length is None,
            c.min_length is None,
            c.max_length is None,
            c.min_inclusive is None,
            c.max_inclusive is None,
            c.min_exclusive is None,
            c.max_exclusive is None,
            c.total_digits is None,
            c.fraction_digits is None,
            c.patterns@.len() == 0,
            c.enumeration@.len() == 0,
            c.explicit_timezone is None,
            c.whitespace == WhitespaceHandling::Preserve,
            !c.is_list,
            c.value_kind is None,
            c.item_kind is None,
    {
        FacetConstraints {
            length: None,
            min_length: None,
            max_length: None,
            min_inclusive: None,
            max_inclusive: None,
            min_exclusive: None,
            max_exclusive: None,
            total_digits: None,
            fraction_digits: None,
            patterns: Vec::new(),
            enumeration: Vec::new(),
            explicit_timezone: None,
            whitespace: WhitespaceHandling::Preserve,
            is_list: false,
            value_kind: None,
            item_kind: None,
        }
    }

    /// Sets `length`.
    pub fn with_length(self, n: usize) -> (c: FacetConstraints)
        ensures
            c == (FacetConstraints { length: Some(n), ..self }),
    {
        FacetConstraints { length: Some(n), ..self }
    }

    /// Sets `minLength`.
    pub fn with_min_length(self, n: usize) -> (c: FacetConstraints)
        ensures
            c == (FacetConstraints { min_length: Some(n), ..self }),
    {
        FacetConstraints { min_length: Some(n), ..self }
    }

    /// Sets `maxLength`.
    pub fn with_max_length(self, n: usize) -> (c: FacetConstraints)
        ensures
            c == (FacetConstraints { max_length: Some(n), ..self }),
    {
        FacetConstraints { max_length: Some(n), ..self }
    }

    /// Sets `minInclusive`.
    pub fn with_min_inclusive(self, v: String) -> (c: FacetConstraints)
        ensures
            c == (FacetConstraints { min_inclusive: Some(v), ..self }),
    {
        FacetConstraints { min_inclusive: Some(v), ..self }
    }

    /// Sets `maxInclusive`.
    pub fn with_max_inclusive(self, v: String) -> (c: FacetConstraints)
        ensures
            c == (FacetConstraints { max_inclusive: Some(v), ..self }),
    {
        FacetConstraints { max_inclusive: Some(v), ..self }
    }

    /// Sets the enumeration.
    pub fn with_enumeration(self, values: Vec<String>) -> (c: FacetConstraints)
        ensures
            c == (FacetConstraints { enumeration: values, ..self }),
    {
        FacetConstraints { enumeration: values, ..self }
    }

    /// Adds a `pattern` facet.
    pub fn with_pattern(self, pattern: String) -> (c: FacetConstraints)
        ensures
            c.patterns@ == self.patterns@.push(pattern),
            c == (FacetConstraints { patterns: c.patterns, ..self }),
    {
        let mut s = self;
        s.patterns.push(pattern);
        s
    }
}

/// Whether `v` is one of the enumerated values.
pub open spec fn enumerated(values: Seq<String>, v: Seq<char>) -> bool {
    exists|i: int| 0 <= i < values.len() && #[trigger] values[i]@ == v
}

/// The integer value of a string's UTF-8 bytes, when it is an integer
/// literal of at most 18 digits.
pub open spec fn small_value(s: Seq<char>) -> Option<int> {
    small_integer(encode_utf8(s))
}

/// The first of the checked facets that `v` violates, as its message;
/// `None` when they all hold.  Lengths count characters; the inclusive
/// bounds are compared when the value and the bound are both integers of at
/// most 18 digits.
pub open spec fn violation(
    length: Option<usize>,
    min_length: Option<usize>,
    max_length: Option<usize>,
    enumeration: Seq<String>,
    min_inclusive: Option<String>,
    max_inclusive: Option<String>,
    v: Seq<char>,
) -> Option<Seq<char>> {
    let n = v.len();
    if length is Some && n != length->0 {
        Some("value length "@ + dec(n) + " does not equal required length "@ + dec(
            length->0 as nat,
        ))
    } else if min_length is Some && n < min_length->0 {
        Some("value length "@ + dec(n) + " is less than minimum length "@ + dec(
            min_length->0 as nat,
        ))
    } else if max_length is Some && n > max_length->0 {
        Some("value length "@ + dec(n) + " exceeds maximum length "@ + dec(
            max_length->0 as nat,
        ))
    } else if enumeration.len() > 0 && !enumerated(enumeration, v) {
        Some("value '"@ + v + "' is not one of the enumerated values"@)
    } else if min_inclusive is Some && small_value(v) is Some && small_value(
        min_inclusive->0@,
    ) is Some && small_value(v)->0 < small_value(min_inclusive->0@)->0 {
        Some("value '"@ + v + "' is less than minimum "@ + min_inclusive->0@)
    } else if max_inclusive is Some && small_value(v) is Some && small_value(
        max_inclusive->0@,
    ) is Some && small_value(v)->0 > small_value(max_inclusive->0@)->0 {
        Some("value '"@ + v + "' is greater than maximum "@ + max_inclusive->0@)
    } else {
        None
    }
}

/// The first facet of `c` that `v` violates (see [`violation`]).
pub open spec fn facet_violation(c: FacetConstraints, v: Seq<char>) -> Option<Seq<char>> {
    violation(
        c.length,
        c.min_length,
        c.max_length,
        c.enumeration@,
        c.min_inclusive,
        c.max_inclusive,
        v,
    )
}

/// Checks values against a set of facets.
pub struct FacetValidator<'a> {
    /// The facets.
    pub constraints: &'a FacetConstraints,
}

/// Whether `v` is one of `values`.
fn is_enumerated(values: &Vec<String>, v: &str) -> (r: bool)
    ensures
        r == enumerated(values@, v@),
{
    let mut i: usize = 0;
    while i < values.len()
        invariant
            i <= values@.len(),
            forall|k: int| 0 <= k < i ==> values@[k]@ != v@,
        decreases values@.len() - i,
    {
        if str_eq(values[i].as_str(), v) {
            return true;
        }
        i = i + 1;
    }
    false
}

impl<'a> FacetValidator<'a> {
    /// A validator for the given facets.
    pub fn new(constraints: &'a FacetConstraints) -> (v: FacetValidator<'a>)
        ensures
            *v.constraints == *constraints,
    {
        FacetValidator { constraints }
    }

    /// Checks a value: `Err` carries the message of the first violated facet.
    pub fn validate(&self, value: &str) -> (r: Result<(), String>)
        ensures
            match r {
                Ok(()) => facet_violation(*self.constraints, value@) is None,
                Err(m) => facet_violation(*self.constraints, value@) == Some(m@),
            },
    {
        let c = self.constraints;
        let n = value.unicode_len();
        let ghost nn = value@.len();
        proof {
            reveal_strlit("value length ");
            reveal_strlit(" does not equal required length ");
            reveal_strlit(" is less than minimum length ");
            reveal_strlit(" exceeds maximum length ");
            reveal_strlit("value '");
            reveal_strlit("' is not one of the enumerated values");
            reveal_strlit("' is less than minimum ");
            reveal_strlit("' is greater than maximum ");
        }
        if let Some(l) = c.length {
            if n != l {
                let mut m = String::from_str("value length ");
                m.append(decimal_string(n as u64).as_str());
                m.append(" does not equal required length ");
                m.append(decimal_string(l as u64).as_str());
                return Err(m);
            }
        }
        if let Some(l) = c.min_length {
            if n < l {
                let mut m = String::from_str("value length ");
                m.append(decimal_string(n as u64).as_str());
                m.append(" is less than minimum length ");
                m.append(decimal_string(l as u64).as_str());
                return Err(m);
            }
        }
        if let Some(l) = c.max_length {
            if n > l {
                let mut m = String::from_str("value length ");
                m.append(decimal_string(n as u64).as_str());
                m.append(" exceeds maximum length ");
                m.append(decimal_string(l as u64).as_str());
                return Err(m);
            }
        }
        if c.enumeration.len() > 0 && !is_enumerated(&c.enumeration, value) {
            let mut m = String::from_str("value '");
            m.append(value);
            m.append("' is not one of the enumerated values");
            return Err(m);
        }
        let x = parse_small_integer(value);
        if let Some(xv) = x {
            if let Some(b) = &c.min_inclusive {
                if let Some(bv) = parse_small_integer(b.as_str()) {
                    if xv < bv {
                        let mut m = String::from_str("value '");
                        m.append(value);
                        m.append("' is less than minimum ");
                        m.append(b.as_str());
                        return Err(m);
                    }
                }
            }
            if let Some(b) = &c.max_inclusive {
                if let Some(bv) = parse_small_integer(b.as_str()) {
                    if xv > bv {
                        let mut m = String::from_str("value '");
                        m.append(value);
                        m.append("' is greater than maximum ");
                        m.append(b.as_str());
                        return Err(m);
                    }
                }
            }
        }
        Ok(())
    }
}

} // verus!
