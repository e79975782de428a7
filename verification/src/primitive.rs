//! Built-in XSD primitive value spaces used for lexical checks.
use vstd::prelude::*;
use vstd::slice::slice_subrange;
use vstd::string::StringSliceAdditionalSpecFns;

use crate::numeric::{
    class_accepts, class_of_kind, is_trimmed_span, lemma_trimmed_span_unique,
    trimmed_span, NumClass,
};
use crate::text::{local_part, local_name, str_eq};

verus! {

/// A built-in XSD primitive whose lexical space is checked.
#[derive(Debug, Clone, Copy, PartialEq, Eq, Structural)]
pub enum PrimitiveKind {
    /// `xs:string` (any value)
    String,
    /// `xs:boolean`
    Boolean,
    /// `xs:decimal`
    Decimal,
    /// `xs:integer`
    Integer,
    /// `xs:float`
    Float,
    /// `xs:double`
    Double,
    /// `xs:ID`
    Id,
    /// `xs:IDREF`
    IdRef,
}

/// `true`, `false`, `1` or `0`.
pub open spec fn boolean_lexical(s: Seq<u8>) -> bool {
    ||| s == seq![116u8, 114u8, 117u8, 101u8]
    ||| s == seq![102u8, 97u8, 108u8, 115u8, 101u8]
    ||| s == seq![49u8]
    ||| s == seq![48u8]
}

/// A byte that may start an NCName: an ASCII letter, `_`, or any byte of a
/// non-ASCII character.
pub open spec fn name_start_byte(b: u8) -> bool {
    (65 <= b <= 90) || (97 <= b <= 122) || b == 95 || b >= 128
}

/// A byte that may continue an NCName.
pub open spec fn name_byte(b: u8) -> bool {
    name_start_byte(b) || (48 <= b <= 57) || b == 45 || b == 46
}

/// NCName lexical space (the names of `xs:ID` / `xs:IDREF` values).
pub open spec fn ncname_lexical(s: Seq<u8>) -> bool {
    &&& s.len() > 0
    &&& name_start_byte(s[0])
    &&& forall|k: int| 0 <= k < s.len() ==> #[trigger] name_byte(s[k])
}

/// The lexical check a kind applies to a whitespace-collapsed value.
pub open spec fn token_accepts(kind: PrimitiveKind, s: Seq<u8>) -> bool {
    match kind {
        PrimitiveKind::String => true,
        PrimitiveKind::Boolean => boolean_lexical(s),
        PrimitiveKind::Id | PrimitiveKind::IdRef => ncname_lexical(s),
        _ => match class_of_kind(kind) {
            Some(c) => class_accepts(c, s),
            None => false,
        },
    }
}

/// Whether a raw value (before whitespace collapsing) is in the kind's
/// lexical space.
pub open spec fn kind_accepts(kind: PrimitiveKind, value: Seq<u8>) -> bool {
    kind == PrimitiveKind::String || exists|i: int, j: int|
        #[trigger] is_trimmed_span(value, i, j) && token_accepts(kind, value.subrange(i, j))
}

/// The schema name of a kind.
pub open spec fn kind_type_name(kind: PrimitiveKind) -> Seq<char> {
    match kind {
        PrimitiveKind::String => "xs:string"@,
        PrimitiveKind::Boolean => "xs:boolean"@,
        PrimitiveKind::Decimal => "xs:decimal"@,
        PrimitiveKind::Integer => "xs:integer"@,
        PrimitiveKind::Float => "xs:float"@,
        PrimitiveKind::Double => "xs:double"@,
        PrimitiveKind::Id => "xs:ID"@,
        PrimitiveKind::IdRef => "xs:IDREF"@,
    }
}

/// The message reported for a value outside a kind's lexical space.
pub open spec fn invalid_value_message(kind: PrimitiveKind, value: Seq<char>) -> Seq<char> {
    "value '"@ + value + "' is not a valid "@ + kind_type_name(kind)
}

/// The kind a built-in type name (with or without prefix) denotes.
pub open spec fn kind_of_type_name(name: Seq<char>) -> Option<PrimitiveKind> {
    let l = local_part(name);
    if l == "string"@ {
        Some(PrimitiveKind::String)
    } else if l == "boolean"@ {
        Some(PrimitiveKind::Boolean)
    } else if l == "decimal"@ {
        Some(PrimitiveKind::Decimal)
    } else if l == "integer"@ {
        Some(PrimitiveKind::Integer)
    } else if l == "float"@ {
        Some(PrimitiveKind::Float)
    } else if l == "double"@ {
        Some(PrimitiveKind::Double)
    } else if l == "ID"@ {
        Some(PrimitiveKind::Id)
    } else if l == "IDREF"@ {
        Some(PrimitiveKind::IdRef)
    } else {
        None
    }
}

/// Whether `bytes[i..j]` is a valid NCName.
fn is_ncname(bytes: &[u8], i: usize, j: usize) -> (r: bool)
    requires
        i <= j <= bytes@.len(),
    ensures
        r == ncname_lexical(bytes@.subrange(i as int, j as int)),
{
    if i == j {
        return false;
    }
    let b0 = bytes[i];
    if !((65 <= b0 && b0 <= 90) || (97 <= b0 && b0 <= 122) || b0 == 95 || b0 >= 128) {
        return false;
    }
    let mut k = i;
    while k < j
        invariant
            i <= k <= j <= bytes@.len(),
            forall|m: int| i <= m < k ==> #[trigger] name_byte(bytes@[m]),
        decreases j - k,
    {
        let b = bytes[k];
        if !((65 <= b && b <= 90) || (97 <= b && b <= 122) || b == 95 || b >= 128 || (48 <= b
            && b <= 57) || b == 45 || b == 46) {
            assert(!name_byte(bytes@.subrange(i as int, j as int)[k - i]));
            return false;
        }
        k = k + 1;
    }
    assert forall|m: int| 0 <= m < j - i implies #[trigger] name_byte(
        bytes@.subrange(i as int, j as int)[m],
    ) by {
        assert(name_byte(bytes@[m + i]));
    }
    true
}

/// Whether `bytes[i..j]` is a boolean literal.
fn is_boolean(bytes: &[u8], i: usize, j: usize) -> (r: bool)
    requires
        i <= j <= bytes@.len(),
    ensures
        r == boolean_lexical(bytes@.subrange(i as int, j as int)),
{
    let t = slice_subrange(bytes, i, j);
    let n = t.len();
    if n == 4 && t[0] == 116 && t[1] == 114 && t[2] == 117 && t[3] == 101 {
        assert(t@ =~= seq![116u8, 114u8, 117u8, 101u8]);
        return true;
    }
    if n == 5 && t[0] == 102 && t[1] == 97 && t[2] == 108 && t[3] == 115 && t[4] == 101 {
        assert(t@ =~= seq![102u8, 97u8, 108u8, 115u8, 101u8]);
        return true;
    }
    if n == 1 && (t[0] == 49 || t[0] == 48) {
        if t[0] == 49 {
            assert(t@ =~= seq![49u8]);
        } else {
            assert(t@ =~= seq![48u8]);
        }
        return true;
    }
    proof {
        if t@ == seq![116u8, 114u8, 117u8, 101u8] {
            assert(t@[0] == 116u8 && t@[1] == 114u8 && t@[2] == 117u8 && t@[3] == 101u8);
        }
        if t@ == seq![102u8, 97u8, 108u8, 115u8, 101u8] {
            assert(t@[0] == 102u8 && t@[1] == 97u8 && t@[2] == 108u8 && t@[3] == 115u8 && t@[4]
                == 101u8);
        }
        if t@ == seq![49u8] {
            assert(t@[0] == 49u8);
        }
        if t@ == seq![48u8] {
            assert(t@[0] == 48u8);
        }
    }
    false
}

impl PrimitiveKind {
    /// Whether this is the `xs:ID` kind.
    pub fn is_id(self) -> (r: bool)
        ensures
            r == (self == PrimitiveKind::Id),
    {
        self == PrimitiveKind::Id
    }

    /// Whether this is the `xs:IDREF` kind.
    pub fn is_idref(self) -> (r: bool)
        ensures
            r == (self == PrimitiveKind::IdRef),
    {
        self == PrimitiveKind::IdRef
    }

    /// The schema name of this kind, such as `xs:integer`.
    pub fn schema_name(self) -> (r: &'static str)
        ensures
            r@ == kind_type_name(self),
    {
        match self {
            PrimitiveKind::String => "xs:string",
            PrimitiveKind::Boolean => "xs:boolean",
            PrimitiveKind::Decimal => "xs:decimal",
            PrimitiveKind::Integer => "xs:integer",
            PrimitiveKind::Float => "xs:float",
            PrimitiveKind::Double => "xs:double",
            PrimitiveKind::Id => "xs:ID",
            PrimitiveKind::IdRef => "xs:IDREF",
        }
    }

    /// The kind a built-in type name denotes (the prefix is ignored).
    pub fn from_type_name(name: &str) -> (r: Option<PrimitiveKind>)
        ensures
            r == kind_of_type_name(name@),
    {
        let l = local_name(name);
        let l = l.as_str();
        if str_eq(l, "string") {
            Some(PrimitiveKind::String)
        } else if str_eq(l, "boolean") {
            Some(PrimitiveKind::Boolean)
        } else if str_eq(l, "decimal") {
            Some(PrimitiveKind::Decimal)
        } else if str_eq(l, "integer") {
            Some(PrimitiveKind::Integer)
        } else if str_eq(l, "float") {
            Some(PrimitiveKind::Float)
        } else if str_eq(l, "double") {
            Some(PrimitiveKind::Double)
        } else if str_eq(l, "ID") {
            Some(PrimitiveKind::Id)
        } else if str_eq(l, "IDREF") {
            Some(PrimitiveKind::IdRef)
        } else {
            None
        }
    }

    /// Checks a value against this kind's lexical space (after whitespace
    /// collapsing). Returns the error message on failure.
    pub fn validate(self, value: &str) -> (r: Result<(), String>)
        ensures
            r is Ok <==> kind_accepts(self, value.spec_bytes()),
            r matches Err(m) ==> m@ == invalid_value_message(self, value@),
    {
        if self == PrimitiveKind::String {
            return Ok(());
        }
        let bytes = value.as_bytes();
        let ok = match trimmed_span(bytes) {
            None => false,
            Some((i, j)) => {
                let ok = match self {
                    PrimitiveKind::Boolean => is_boolean(bytes, i, j),
                    PrimitiveKind::Id | PrimitiveKind::IdRef => is_ncname(bytes, i, j),
                    PrimitiveKind::Decimal => NumClass::Decimal.accepts_token(
                        slice_subrange(bytes, i, j),
                    ),
                    PrimitiveKind::Integer => NumClass::Integer.accepts_token(
                        slice_subrange(bytes, i, j),
                    ),
                    _ => NumClass::Double.accepts_token(slice_subrange(bytes, i, j)),
                };
                proof {
                    assert forall|k: int, l: int| #[trigger]
                        is_trimmed_span(bytes@, k, l) implies k == i && l == j by {
                        lemma_trimmed_span_unique(bytes@, k, l, i as int, j as int);
                    }
                }
                ok
            },
        };
        if ok {
            Ok(())
        } else {
            let mut m = String::from_str("value '");
            m.append(value);
            m.append("' is not a valid ");
            m.append(self.schema_name());
            Err(m)
        }
    }
}

} // verus!
