//! Attribute validation: declarations gathered along a type's derivation
//! chain, values checked against their simple types, wildcards, required
//! attributes, and the `xs:ID` / `xs:IDREF` values an element carries.
use vstd::prelude::*;
use vstd::utf8::encode_utf8;

use crate::facets::{FacetConstraints, FacetValidator};
use crate::primitive::{invalid_value_message, kind_accepts, kind_of_type_name, PrimitiveKind};
use crate::schema::{
    AttributeDef, CompiledSchema, ComplexType, ContentModel, SimpleType, TypeDef,
    WildcardConstraint,
};
use crate::text::{
    local_name, local_part, split_whitespace_str, starts_with, str_eq, strings_view,
    strip_prefix_str, trim, trim_str, ws_words,
};
use crate::schema::{wildcard_admits, ProcessContents};
use crate::validation::{facet_constraints_of, kind_of_simple, simple_violation};

verus! {

/// The type a complex type inherits attributes from.
pub open spec fn attr_base(c: ComplexType) -> Option<String> {
    match c.content {
        ContentModel::ComplexExtension { base_type, .. } => Some(base_type),
        ContentModel::SimpleContent { base_type } => Some(base_type),
        _ => c.base_type,
    }
}

/// Some declaration in `out` has name `n`.
pub open spec fn has_name(out: Seq<AttributeDef>, n: Seq<char>) -> bool {
    exists|i: int| 0 <= i < out.len() && #[trigger] out[i].name@ == n
}

/// `out` extended by the declarations of `attrs` whose names it lacks.
pub open spec fn add_new(out: Seq<AttributeDef>, attrs: Seq<AttributeDef>) -> Seq<AttributeDef>
    decreases attrs.len(),
{
    if attrs.len() == 0 {
        out
    } else {
        let o = add_new(out, attrs.drop_last());
        if has_name(o, attrs.last().name@) {
            o
        } else {
            o.push(attrs.last())
        }
    }
}

/// The declarations of `c` and (for `fuel - 1` more steps) its bases,
/// nearest first; a name already collected shadows later ones.
pub open spec fn collect_defs(
    schema: CompiledSchema,
    c: ComplexType,
    out: Seq<AttributeDef>,
    fuel: nat,
) -> Seq<AttributeDef>
    decreases fuel,
{
    if fuel == 0 {
        out
    } else {
        let o = add_new(out, c.attributes@);
        match attr_base(c) {
            Some(b) => match schema.types.lookup(b@) {
                Some(TypeDef::Complex(bc)) => collect_defs(schema, bc, o, (fuel - 1) as nat),
                _ => o,
            },
            None => o,
        }
    }
}

/// The attribute declarations of a complex type (16 derivation levels).
pub open spec fn attr_defs(schema: CompiledSchema, c: ComplexType) -> Seq<AttributeDef> {
    collect_defs(schema, c, Seq::empty(), 16)
}

/// The nearest attribute wildcard along the derivation chain.
pub open spec fn wildcard_walk(schema: CompiledSchema, c: ComplexType, fuel: nat) -> Option<
    WildcardConstraint,
>
    decreases fuel,
{
    if fuel == 0 {
        None
    } else if c.attr_wildcard is Some {
        c.attr_wildcard
    } else {
        match attr_base(c) {
            Some(b) => match schema.types.lookup(b@) {
                Some(TypeDef::Complex(bc)) => wildcard_walk(schema, bc, (fuel - 1) as nat),
                _ => None,
            },
            None => None,
        }
    }
}

/// The attribute wildcard in effect for a complex type.
pub open spec fn attr_wildcard_of(schema: CompiledSchema, c: ComplexType) -> Option<WildcardConstraint> {
    wildcard_walk(schema, c, 16)
}

/// `i` is the first global attribute whose key's local part is `n`.
pub open spec fn first_local_at(s: Seq<(String, AttributeDef)>, n: Seq<char>, i: int) -> bool {
    &&& 0 <= i < s.len()
    &&& local_part(s[i].0@) == n
    &&& forall|j: int| 0 <= j < i ==> local_part(#[trigger] s[j].0@) != n
}

/// The declaration an attribute declaration stands for: a `ref` is followed
/// to the global declaration (by name, then by local part of the key).
pub open spec fn resolved(schema: CompiledSchema, a: AttributeDef) -> AttributeDef {
    if !a.is_ref {
        a
    } else {
        match schema.attributes.lookup(a.name@) {
            Some(g) => g,
            None => {
                let s = schema.attributes.entries@;
                if exists|i: int| first_local_at(s, a.name@, i) {
                    s[choose|i: int| first_local_at(s, a.name@, i)].1
                } else {
                    a
                }
            },
        }
    }
}

/// The simple type governing an attribute's value.
pub open spec fn attr_simple(schema: CompiledSchema, a: AttributeDef) -> Option<SimpleType> {
    match a.inline_type {
        Some(s) => Some(s),
        None => match a.type_ref {
            Some(t) => match schema.types.lookup(t@) {
                Some(TypeDef::Simple(s)) => Some(s),
                _ => None,
            },
            None => None,
        },
    }
}

/// The error message for a value of an attribute declaration, if any: a
/// fixed value differs, a facet of its simple type is violated, or the value
/// is outside the type's primitive lexical space.
pub open spec fn attr_value_error(schema: CompiledSchema, decl: AttributeDef, value: Seq<char>) -> Option<
    Seq<char>,
> {
    let a = resolved(schema, decl);
    if a.fixed is Some && value != a.fixed->0@ {
        Some(
            "attribute '"@ + a.name@ + "' must have the fixed value '"@ + a.fixed->0@
                + "', found '"@ + value + "'"@,
        )
    } else {
        match attr_simple(schema, a) {
            None => None,
            Some(s) => match simple_violation(s, value) {
                Some(e) => Some("attribute '"@ + a.name@ + "': "@ + e),
                None => match kind_of_simple(schema, s) {
                    Some(k) => if kind_accepts(k, encode_utf8(value)) {
                        None
                    } else {
                        Some("attribute '"@ + a.name@ + "': "@ + invalid_value_message(k, value))
                    },
                    None => None,
                },
            },
        }
    }
}

/// Whether `s` contains `t`.
pub open spec fn contains_seq(s: Seq<char>, t: Seq<char>) -> bool {
    exists|i: int| 0 <= i <= s.len() - t.len() && #[trigger] s.subrange(i, i + t.len()) == t
}

/// Attributes exempt from schema validation: namespace declarations and
/// `xsi:*` control attributes.
pub open spec fn exempt(name: Seq<char>) -> bool {
    ||| name == "xmlns"@
    ||| starts_with(name, "xmlns:"@)
    ||| starts_with(name, "xsi:"@)
    ||| contains_seq(name, "schemaLocation"@)
}

/// Collects the attribute declarations of a complex type, walking the
/// derivation base chain. A declaration in a derived type shadows a base
/// declaration with the same name.
pub fn collect_attributes<'a>(schema: &'a CompiledSchema, complex: &'a ComplexType) -> (r: Vec<
    &'a AttributeDef,
>)
    ensures
        r@.map_values(|a: &AttributeDef| *a) == attr_defs(*schema, *complex),
{
    let mut out: Vec<&'a AttributeDef> = Vec::new();
    let mut current: &'a ComplexType = complex;
    let mut k: usize = 0;
    proof {
        assert(out@.map_values(|a: &AttributeDef| *a) =~= Seq::<AttributeDef>::empty());
    }
    while k < 16
        invariant
            k <= 16,
            attr_defs(*schema, *complex) == collect_defs(
                *schema,
                *current,
                out@.map_values(|a: &AttributeDef| *a),
                (16 - k) as nat,
            ),
        decreases 16 - k,
    {
        let ghost o0 = out@.map_values(|a: &AttributeDef| *a);
        let attrs = &current.attributes;
        let mut i: usize = 0;
        while i < attrs.len()
            invariant
                i <= attrs@.len(),
                attrs@ == current.attributes@,
                out@.map_values(|a: &AttributeDef| *a) == add_new(o0, attrs@.take(i as int)),
            decreases attrs@.len() - i,
        {
            let attr = &attrs[i];
            let ghost o = out@.map_values(|a: &AttributeDef| *a);
            proof {
                assert(attrs@.take(i + 1).drop_last() =~= attrs@.take(i as int));
            }
            let mut found = false;
            let mut j: usize = 0;
            while j < out.len()
                invariant
                    j <= out@.len(),
                    o == out@.map_values(|a: &AttributeDef| *a),
                    found == exists|q: int| 0 <= q < j && #[trigger] o[q].name@ == attr.name@,
                decreases out@.len() - j,
            {
                if str_eq(out[j].name.as_str(), attr.name.as_str()) {
                    found = true;
                    assert(o[j as int].name@ == attr.name@);
                }
                j = j + 1;
            }
            if !found {
                out.push(attr);
                proof {
                    assert(out@.map_values(|a: &AttributeDef| *a) =~= o.push(*attr));
                }
            }
            i = i + 1;
        }
        proof {
            assert(attrs@.take(attrs@.len() as int) =~= attrs@);
        }
        let base: Option<&String> = match &current.content {
            ContentModel::ComplexExtension { base_type, .. } => Some(base_type),
            ContentModel::SimpleContent { base_type } => Some(base_type),
            _ => current.base_type.as_ref(),
        };
        let next = match base {
            Some(b) => schema.get_type(b.as_str()),
            None => None,
        };
        match next {
            Some(TypeDef::Complex(c)) => {
                current = c;
            },
            _ => {
                return out;
            },
        }
        k = k + 1;
    }
    out
}

/// Returns the attribute wildcard in effect for a complex type, walking the
/// derivation base chain (nearest declaration wins).
pub fn collect_attr_wildcard<'a>(schema: &'a CompiledSchema, complex: &'a ComplexType) -> (r: Option<
    &'a WildcardConstraint,
>)
    ensures
        match r {
            Some(w) => attr_wildcard_of(*schema, *complex) == Some(*w),
            None => attr_wildcard_of(*schema, *complex) is None,
        },
{
    let mut current: &'a ComplexType = complex;
    let mut k: usize = 0;
    while k < 16
        invariant
            k <= 16,
            attr_wildcard_of(*schema, *complex) == wildcard_walk(*schema, *current, (16 - k) as nat),
        decreases 16 - k,
    {
        if let Some(w) = &current.attr_wildcard {
            return Some(w);
        }
        let base: Option<&String> = match &current.content {
            ContentModel::ComplexExtension { base_type, .. } => Some(base_type),
            ContentModel::SimpleContent { base_type } => Some(base_type),
            _ => current.base_type.as_ref(),
        };
        let next = match base {
            Some(b) => schema.get_type(b.as_str()),
            None => None,
        };
        match next {
            Some(TypeDef::Complex(c)) => {
                current = c;
            },
            _ => {
                return None;
            },
        }
        k = k + 1;
    }
    None
}

/// Resolves the attribute declaration an `AttributeDef` ultimately refers
/// to: a `ref` is followed to the global attribute declaration.
pub fn resolve_ref<'a>(schema: &'a CompiledSchema, attr: &'a AttributeDef) -> (r: &'a AttributeDef)
    ensures
        *r == resolved(*schema, *attr),
{
    if !attr.is_ref {
        return attr;
    }
    if let Some(global) = schema.attributes.get(attr.name.as_str()) {
        return global;
    }
    let s = &schema.attributes.entries;
    let mut i: usize = 0;
    while i < s.len()
        invariant
            i <= s@.len(),
            s@ == schema.attributes.entries@,
            attr.is_ref,
            schema.attributes.lookup(attr.name@) is None,
            forall|j: int| 0 <= j < i ==> local_part(#[trigger] s@[j].0@) != attr.name@,
        decreases s@.len() - i,
    {
        let l = local_name(s[i].0.as_str());
        if str_eq(l.as_str(), attr.name.as_str()) {
            proof {
                assert(first_local_at(s@, attr.name@, i as int));
                let c = choose|c: int| first_local_at(s@, attr.name@, c);
                if c < i {
                    assert(local_part(s@[c].0@) != attr.name@);
                }
                if i < c {
                    assert(local_part(s@[i as int].0@) != attr.name@);
                }
            }
            return &s[i].1;
        }
        i = i + 1;
    }
    attr
}

/// Resolves the simple type governing an attribute's value.
pub fn attribute_simple_type<'a>(schema: &'a CompiledSchema, attr: &'a AttributeDef) -> (r: Option<
    &'a SimpleType,
>)
    ensures
        match r {
            Some(s) => attr_simple(*schema, *attr) == Some(*s),
            None => attr_simple(*schema, *attr) is None,
        },
{
    if let Some(inline) = &attr.inline_type {
        return Some(inline);
    }
    match &attr.type_ref {
        Some(t) => match schema.get_type(t.as_str()) {
            Some(TypeDef::Simple(s)) => Some(s),
            _ => None,
        },
        None => None,
    }
}

/// `attribute '<name>': <e>`
fn attribute_message(name: &str, e: &str) -> (r: String)
    ensures
        r@ == "attribute '"@ + name@ + "': "@ + e@,
{
    proof {
        reveal_strlit("attribute '");
        reveal_strlit("': ");
    }
    let mut m = String::from_str("attribute '");
    m.append(name);
    m.append("': ");
    m.append(e);
    m
}

/// Validates one attribute value against its declaration. Returns an error
/// message when the value is invalid, `None` when it is valid or the
/// declaration carries no usable type information.
pub fn validate_attribute_value(schema: &CompiledSchema, attr: &AttributeDef, value: &str) -> (r: Option<
    String,
>)
    ensures
        match r {
            Some(m) => attr_value_error(*schema, *attr, value@) == Some(m@),
            None => attr_value_error(*schema, *attr, value@) is None,
        },
{
    proof {
        reveal_strlit("attribute '");
        reveal_strlit("' must have the fixed value '");
        reveal_strlit("', found '");
        reveal_strlit("'");
    }
    let attr = resolve_ref(schema, attr);
    if let Some(fixed) = &attr.fixed {
        if !str_eq(value, fixed.as_str()) {
            let mut m = String::from_str("attribute '");
            m.append(attr.name.as_str());
            m.append("' must have the fixed value '");
            m.append(fixed.as_str());
            m.append("', found '");
            m.append(value);
            m.append("'");
            return Some(m);
        }
    }
    let simple = match attribute_simple_type(schema, attr) {
        Some(s) => s,
        None => {
            return None;
        },
    };
    let constraints = facet_constraints_of(simple);
    let validator = FacetValidator::new(&constraints);
    if let Err(e) = validator.validate(value) {
        return Some(attribute_message(attr.name.as_str(), e.as_str()));
    }
    if let Some(kind) = PrimitiveKind::resolve(schema, simple) {
        if let Err(e) = kind.validate(value) {
            return Some(attribute_message(attr.name.as_str(), e.as_str()));
        }
    }
    None
}

/// Whether `s` contains `t`.
fn contains_str(s: &str, t: &str) -> (r: bool)
    ensures
        r == contains_seq(s@, t@),
{
    let v = crate::text::chars_of(s);
    let w = crate::text::chars_of(t);
    if w.len() > v.len() {
        return false;
    }
    let mut i: usize = 0;
    while i <= v.len() - w.len()
        invariant
            v@ == s@,
            w@ == t@,
            w@.len() <= v@.len(),
            v@.len() <= usize::MAX,
            i <= v@.len() - w@.len() + 1,
            forall|k: int| 0 <= k < i ==> #[trigger] v@.subrange(k, k + w@.len()) != w@,
        decreases v@.len() - w@.len() + 1 - i,
    {
        let mut j: usize = 0;
        let mut same = true;
        while j < w.len()
            invariant
                v@ == s@,
                w@ == t@,
                i + w@.len() <= v@.len(),
                v@.len() <= usize::MAX,
                j <= w@.len(),
                same == forall|q: int| 0 <= q < j ==> v@[i + q] == w@[q],
            decreases w@.len() - j,
        {
            if v[i + j] != w[j] {
                same = false;
            }
            j = j + 1;
        }
        if same {
            assert(v@.subrange(i as int, i + w@.len()) =~= w@);
            return true;
        }
        proof {
            let q = choose|q: int| 0 <= q < w@.len() && v@[i + q] != w@[q];
            assert(v@.subrange(i as int, i + w@.len())[q] != w@[q]);
        }
        i = i + 1;
    }
    false
}

/// True for attributes that are not subject to schema validation
/// (namespace declarations and `xsi:*` control attributes).
pub fn is_exempt_attribute(name: &str) -> (r: bool)
    ensures
        r == exempt(name@),
{
    proof {
        reveal_strlit("xmlns");
        reveal_strlit("xmlns:");
        reveal_strlit("xsi:");
        reveal_strlit("schemaLocation");
    }
    str_eq(name, "xmlns") || strip_prefix_str(name, "xmlns:").is_some() || strip_prefix_str(
        name,
        "xsi:",
    ).is_some() || contains_str(name, "schemaLocation")
}


/// ID and IDREF values of one value: `(ids, idrefs)`. A list contributes
/// each whitespace-separated item; a scalar its trimmed value, when not
/// empty.
pub open spec fn id_push(
    kind: Option<PrimitiveKind>,
    item_kind: Option<PrimitiveKind>,
    is_list: bool,
    value: Seq<char>,
) -> (Seq<Seq<char>>, Seq<Seq<char>>) {
    if is_list {
        match item_kind {
            Some(PrimitiveKind::IdRef) => (Seq::empty(), ws_words(value)),
            Some(PrimitiveKind::Id) => (ws_words(value), Seq::empty()),
            _ => (Seq::empty(), Seq::empty()),
        }
    } else {
        let t = trim(value);
        if t.len() == 0 {
            (Seq::empty(), Seq::empty())
        } else {
            match kind {
                Some(PrimitiveKind::Id) => (seq![t], Seq::empty()),
                Some(PrimitiveKind::IdRef) => (Seq::empty(), seq![t]),
                _ => (Seq::empty(), Seq::empty()),
            }
        }
    }
}

/// ID and IDREF values carried by an attribute value.
pub open spec fn def_ids(schema: CompiledSchema, a: AttributeDef, value: Seq<char>) -> (
    Seq<Seq<char>>,
    Seq<Seq<char>>,
) {
    match attr_simple(schema, a) {
        None => id_push(
            match a.type_ref {
                Some(t) => kind_of_type_name(t@),
                None => None,
            },
            None,
            false,
            value,
        ),
        Some(s) => id_push(kind_of_simple(schema, s), None, false, value),
    }
}

/// Outcome of validating attributes: error messages plus the `xs:ID` /
/// `xs:IDREF` values found, for document-level checking.
#[derive(Debug)]
pub struct AttrValidation {
    /// Error messages.
    pub errors: Vec<String>,
    /// ID values.
    pub ids: Vec<String>,
    /// IDREF values.
    pub idrefs: Vec<String>,
}

impl Default for AttrValidation {
    /// No errors and no values.
    fn default() -> (r: Self)
        ensures
            r.errors@.len() == 0,
            r.ids@.len() == 0,
            r.idrefs@.len() == 0,
    {
        AttrValidation { errors: Vec::new(), ids: Vec::new(), idrefs: Vec::new() }
    }
}

/// The outcome as plain values.
#[verifier::ext_equal]
pub struct AttrOutcome {
    /// Error messages.
    pub errors: Seq<Seq<char>>,
    /// ID values.
    pub ids: Seq<Seq<char>>,
    /// IDREF values.
    pub idrefs: Seq<Seq<char>>,
}

/// The view of an outcome.
pub open spec fn outcome_view(o: AttrValidation) -> AttrOutcome {
    AttrOutcome {
        errors: strings_view(o.errors@),
        ids: strings_view(o.ids@),
        idrefs: strings_view(o.idrefs@),
    }
}

/// Pushes each of `words` onto `out`.
fn push_all(out: &mut Vec<String>, words: Vec<String>)
    ensures
        strings_view(final(out)@) == strings_view(old(out)@) + strings_view(words@),
{
    let ghost start = strings_view(out@);
    let mut i: usize = 0;
    while i < words.len()
        invariant
            i <= words@.len(),
            strings_view(out@) == start + strings_view(words@).take(i as int),
        decreases words@.len() - i,
    {
        let ghost prev = strings_view(out@);
        out.push(words[i].clone());
        proof {
            assert(strings_view(out@) =~= prev.push(words@[i as int]@));
            assert(strings_view(words@).take(i + 1) =~= strings_view(words@).take(i as int).push(
                words@[i as int]@,
            ));
        }
        i = i + 1;
    }
    proof {
        assert(strings_view(words@).take(words@.len() as int) =~= strings_view(words@));
    }
}

/// Records the ID / IDREF values of one value.
pub fn push_id_values(
    kind: Option<PrimitiveKind>,
    item_kind: Option<PrimitiveKind>,
    is_list: bool,
    value: &str,
    out: &mut AttrValidation,
)
    ensures
        outcome_view(*final(out)) == (AttrOutcome {
            errors: outcome_view(*old(out)).errors,
            ids: outcome_view(*old(out)).ids + id_push(kind, item_kind, is_list, value@).0,
            idrefs: outcome_view(*old(out)).idrefs + id_push(kind, item_kind, is_list, value@).1,
        }),
{
    let ghost o = outcome_view(*out);
    if is_list {
        match item_kind {
            Some(PrimitiveKind::IdRef) => {
                push_all(&mut out.idrefs, split_whitespace_str(value));
                assert(o.ids + Seq::<Seq<char>>::empty() =~= o.ids);
            },
            Some(PrimitiveKind::Id) => {
                push_all(&mut out.ids, split_whitespace_str(value));
                assert(o.idrefs + Seq::<Seq<char>>::empty() =~= o.idrefs);
            },
            _ => {
                assert(o.ids + Seq::<Seq<char>>::empty() =~= o.ids);
                assert(o.idrefs + Seq::<Seq<char>>::empty() =~= o.idrefs);
            },
        }
        return;
    }
    let trimmed = trim_str(value);
    if trimmed.unicode_len() == 0 {
        assert(o.ids + Seq::<Seq<char>>::empty() =~= o.ids);
        assert(o.idrefs + Seq::<Seq<char>>::empty() =~= o.idrefs);
        return;
    }
    match kind {
        Some(PrimitiveKind::Id) => {
            let ghost t = trimmed@;
            out.ids.push(trimmed);
            assert(o.idrefs + Seq::<Seq<char>>::empty() =~= o.idrefs);
            assert(strings_view(out.ids@) =~= o.ids + seq![t]);
        },
        Some(PrimitiveKind::IdRef) => {
            let ghost t = trimmed@;
            out.idrefs.push(trimmed);
            assert(o.ids + Seq::<Seq<char>>::empty() =~= o.ids);
            assert(strings_view(out.idrefs@) =~= o.idrefs + seq![t]);
        },
        _ => {
            assert(o.ids + Seq::<Seq<char>>::empty() =~= o.ids);
            assert(o.idrefs + Seq::<Seq<char>>::empty() =~= o.idrefs);
        },
    }
}

/// Records the ID / IDREF values described by compiled facet constraints.
pub fn push_id_values_from_constraints(
    constraints: &FacetConstraints,
    value: &str,
    out: &mut AttrValidation,
)
    ensures
        outcome_view(*final(out)) == (AttrOutcome {
            errors: outcome_view(*old(out)).errors,
            ids: outcome_view(*old(out)).ids + id_push(
                constraints.value_kind,
                constraints.item_kind,
                constraints.is_list,
                value@,
            ).0,
            idrefs: outcome_view(*old(out)).idrefs + id_push(
                constraints.value_kind,
                constraints.item_kind,
                constraints.is_list,
                value@,
            ).1,
        }),
{
    push_id_values(constraints.value_kind, constraints.item_kind, constraints.is_list, value, out);
}

/// Records the ID / IDREF values carried by an attribute.
pub fn collect_id_values(
    schema: &CompiledSchema,
    attr: &AttributeDef,
    value: &str,
    out: &mut AttrValidation,
)
    ensures
        outcome_view(*final(out)) == (AttrOutcome {
            errors: outcome_view(*old(out)).errors,
            ids: outcome_view(*old(out)).ids + def_ids(*schema, *attr, value@).0,
            idrefs: outcome_view(*old(out)).idrefs + def_ids(*schema, *attr, value@).1,
        }),
{
    match attribute_simple_type(schema, attr) {
        None => {
            let kind = match &attr.type_ref {
                Some(t) => PrimitiveKind::from_type_name(t.as_str()),
                None => None,
            };
            push_id_values(kind, None, false, value, out);
        },
        Some(simple) => {
            let constraints = FacetConstraints::from_simple_type(schema, simple);
            push_id_values_from_constraints(&constraints, value, out);
        },
    }
}


/// No outcome.
pub open spec fn no_outcome() -> AttrOutcome {
    AttrOutcome { errors: Seq::empty(), ids: Seq::empty(), idrefs: Seq::empty() }
}

/// One optional message as a list.
pub open spec fn opt_msg(m: Option<Seq<char>>) -> Seq<Seq<char>> {
    match m {
        Some(x) => seq![x],
        None => Seq::empty(),
    }
}

/// The outcome of checking a value against a declaration: its error, and
/// the ID / IDREF values of the declaration `ids_from`.
pub open spec fn checked(
    schema: CompiledSchema,
    d: AttributeDef,
    ids_from: AttributeDef,
    value: Seq<char>,
) -> AttrOutcome {
    AttrOutcome {
        errors: opt_msg(attr_value_error(schema, d, value)),
        ids: def_ids(schema, ids_from, value).0,
        idrefs: def_ids(schema, ids_from, value).1,
    }
}

/// `i` is the first declaration named `name` or its local part.
pub open spec fn def_at(defs: Seq<AttributeDef>, name: Seq<char>, i: int) -> bool {
    &&& 0 <= i < defs.len()
    &&& (defs[i].name@ == local_part(name) || defs[i].name@ == name)
    &&& forall|j: int|
        0 <= j < i ==> !(#[trigger] defs[j].name@ == local_part(name) || defs[j].name@ == name)
}

/// The declaration an attribute named `name` matches.
pub open spec fn find_def(defs: Seq<AttributeDef>, name: Seq<char>) -> Option<AttributeDef> {
    if exists|i: int| def_at(defs, name, i) {
        Some(defs[choose|i: int| def_at(defs, name, i)])
    } else {
        None
    }
}

/// The XML namespace (`xml:lang`, `xml:space`, ... need no declaration).
pub open spec fn xml_ns() -> Seq<char> {
    "http://www.w3.org/XML/1998/namespace"@
}

/// The outcome of one attribute `(name, namespace, value)` against the
/// declarations and wildcard of its element's type.
pub open spec fn attr_outcome(
    schema: CompiledSchema,
    defs: Seq<AttributeDef>,
    wc: Option<WildcardConstraint>,
    name: Seq<char>,
    ns: Option<Seq<char>>,
    value: Seq<char>,
) -> AttrOutcome {
    if exempt(name) || ns == Some(xml_ns()) {
        no_outcome()
    } else {
        match find_def(defs, name) {
            Some(d) => checked(schema, d, resolved(schema, d), value),
            None => match wc {
                Some(w) => if wildcard_admits(w, ns) {
                    if w.process_contents == ProcessContents::Skip {
                        no_outcome()
                    } else {
                        let g = match schema.attributes.lookup(name) {
                            Some(g) => Some(g),
                            None => schema.attributes.lookup(local_part(name)),
                        };
                        match g {
                            Some(d) => checked(schema, d, d, value),
                            None => if w.process_contents == ProcessContents::Strict {
                                AttrOutcome {
                                    errors: seq![
                                        "attribute '"@ + name
                                            + "' matched a strict wildcard but is not declared"@,
                                    ],
                                    ids: Seq::empty(),
                                    idrefs: Seq::empty(),
                                }
                            } else {
                                no_outcome()
                            },
                        }
                    }
                } else {
                    AttrOutcome {
                        errors: seq!["attribute '"@ + name + "' is not allowed"@],
                        ids: Seq::empty(),
                        idrefs: Seq::empty(),
                    }
                },
                None => AttrOutcome {
                    errors: seq!["attribute '"@ + name + "' is not allowed"@],
                    ids: Seq::empty(),
                    idrefs: Seq::empty(),
                },
            },
        }
    }
}

/// Two outcomes, one after the other.
pub open spec fn join(a: AttrOutcome, b: AttrOutcome) -> AttrOutcome {
    AttrOutcome { errors: a.errors + b.errors, ids: a.ids + b.ids, idrefs: a.idrefs + b.idrefs }
}

/// The view of one attribute triple.
pub open spec fn triple_view(t: (&str, Option<&str>, &str)) -> (Seq<char>, Option<Seq<char>>, Seq<char>) {
    (t.0@, match t.1 {
        Some(x) => Some(x@),
        None => None,
    }, t.2@)
}

/// The outcomes of a list of attributes, in order.
pub open spec fn attrs_outcome(
    schema: CompiledSchema,
    defs: Seq<AttributeDef>,
    wc: Option<WildcardConstraint>,
    attrs: Seq<(Seq<char>, Option<Seq<char>>, Seq<char>)>,
) -> AttrOutcome
    decreases attrs.len(),
{
    if attrs.len() == 0 {
        no_outcome()
    } else {
        let (n, ns, v) = attrs.last();
        join(attrs_outcome(schema, defs, wc, attrs.drop_last()), attr_outcome(schema, defs, wc, n, ns, v))
    }
}

/// Some attribute is named `n` (or has local part `n`).
pub open spec fn present(attrs: Seq<(Seq<char>, Option<Seq<char>>, Seq<char>)>, n: Seq<char>) -> bool {
    exists|i: int|
        0 <= i < attrs.len() && (local_part(#[trigger] attrs[i].0) == n || attrs[i].0 == n)
}

/// A "missing" error for each required declaration without an attribute.
pub open spec fn missing_required(
    defs: Seq<AttributeDef>,
    attrs: Seq<(Seq<char>, Option<Seq<char>>, Seq<char>)>,
) -> Seq<Seq<char>>
    decreases defs.len(),
{
    if defs.len() == 0 {
        Seq::empty()
    } else {
        let d = defs.last();
        missing_required(defs.drop_last(), attrs) + if d.required && !present(attrs, d.name@) {
            seq!["required attribute '"@ + d.name@ + "' is missing"@]
        } else {
            Seq::empty()
        }
    }
}

/// The outcome of an element's attributes against its complex type:
/// per-attribute outcomes in order, then the missing required ones.
/// `xs:anyType` places no constraint on attributes.
pub open spec fn element_attrs(
    schema: CompiledSchema,
    complex: ComplexType,
    attrs: Seq<(Seq<char>, Option<Seq<char>>, Seq<char>)>,
) -> AttrOutcome {
    if complex.name@ == "anyType"@ {
        no_outcome()
    } else {
        let defs = attr_defs(schema, complex);
        let o = attrs_outcome(schema, defs, attr_wildcard_of(schema, complex), attrs);
        AttrOutcome { errors: o.errors + missing_required(defs, attrs), ids: o.ids, idrefs: o.idrefs }
    }
}

/// Finds the declaration an attribute name matches.
fn find_def_exec<'a>(defs: &Vec<&'a AttributeDef>, name: &str) -> (r: Option<&'a AttributeDef>)
    ensures
        match r {
            Some(d) => find_def(defs@.map_values(|a: &AttributeDef| *a), name@) == Some(*d),
            None => find_def(defs@.map_values(|a: &AttributeDef| *a), name@) is None,
        },
{
    let ghost ds = defs@.map_values(|a: &AttributeDef| *a);
    let local = local_name(name);
    let mut i: usize = 0;
    while i < defs.len()
        invariant
            i <= defs@.len(),
            ds == defs@.map_values(|a: &AttributeDef| *a),
            local@ == local_part(name@),
            forall|j: int|
                0 <= j < i ==> !(#[trigger] ds[j].name@ == local_part(name@) || ds[j].name@
                    == name@),
        decreases defs@.len() - i,
    {
        let d = defs[i];
        if str_eq(d.name.as_str(), local.as_str()) || str_eq(d.name.as_str(), name) {
            proof {
                assert(ds[i as int] == *d);
                assert(def_at(ds, name@, i as int));
                let c = choose|c: int| def_at(ds, name@, c);
                if c < i {
                    assert(!(ds[c].name@ == local_part(name@) || ds[c].name@ == name@));
                }
                if i < c {
                    assert(!(ds[i as int].name@ == local_part(name@) || ds[i as int].name@
                        == name@));
                }
            }
            return Some(d);
        }
        proof {
            assert(ds[i as int] == *d);
        }
        i = i + 1;
    }
    None
}

/// Appends a message to the outcome's errors.
fn push_error(out: &mut AttrValidation, m: String)
    ensures
        outcome_view(*final(out)) == (AttrOutcome {
            errors: outcome_view(*old(out)).errors.push(m@),
            ..outcome_view(*old(out))
        }),
{
    let ghost prev = strings_view(out.errors@);
    out.errors.push(m);
    assert(strings_view(out.errors@) =~= prev.push(m@));
}

/// Checks a value against a declaration into `out`.
fn check_into(
    schema: &CompiledSchema,
    d: &AttributeDef,
    ids_from: &AttributeDef,
    value: &str,
    out: &mut AttrValidation,
)
    ensures
        outcome_view(*final(out)) == join(
            outcome_view(*old(out)),
            checked(*schema, *d, *ids_from, value@),
        ),
{
    let ghost o = outcome_view(*out);
    match validate_attribute_value(schema, d, value) {
        Some(m) => {
            push_error(out, m);
            assert(o.errors.push(m@) =~= o.errors + seq![m@]);
        },
        None => {
            assert(o.errors + Seq::<Seq<char>>::empty() =~= o.errors);
        },
    }
    collect_id_values(schema, ids_from, value, out);
}

/// Whether some attribute is named `n` or has local part `n`.
fn is_present(attributes: &[(&str, Option<&str>, &str)], n: &str) -> (r: bool)
    ensures
        r == present(attributes@.map_values(|t: (&str, Option<&str>, &str)| triple_view(t)), n@),
{
    let ghost av = attributes@.map_values(|t: (&str, Option<&str>, &str)| triple_view(t));
    let mut i: usize = 0;
    while i < attributes.len()
        invariant
            i <= attributes@.len(),
            av == attributes@.map_values(|t: (&str, Option<&str>, &str)| triple_view(t)),
            forall|j: int| 0 <= j < i ==> !(local_part(#[trigger] av[j].0) == n@ || av[j].0 == n@),
        decreases attributes@.len() - i,
    {
        let (an, _, _) = attributes[i];
        let l = local_name(an);
        proof {
            assert(av[i as int].0 == an@);
        }
        if str_eq(l.as_str(), n) || str_eq(an, n) {
            return true;
        }
        i = i + 1;
    }
    false
}

/// Validates an element's attributes against the attribute declarations of
/// its complex type: error messages for invalid, undeclared or missing
/// required attributes, plus the ID / IDREF values found. Each attribute is
/// a `(name, namespace, value)` triple; the namespace is what wildcards
/// match.
pub fn validate_element_attributes(
    schema: &CompiledSchema,
    complex: &ComplexType,
    attributes: &[(&str, Option<&str>, &str)],
) -> (r: AttrValidation)
    ensures
        outcome_view(r) == element_attrs(
            *schema,
            *complex,
            attributes@.map_values(|t: (&str, Option<&str>, &str)| triple_view(t)),
        ),
{
    proof {
        reveal_strlit("anyType");
        reveal_strlit("http://www.w3.org/XML/1998/namespace");
        reveal_strlit("attribute '");
        reveal_strlit("' matched a strict wildcard but is not declared");
        reveal_strlit("' is not allowed");
        reveal_strlit("required attribute '");
        reveal_strlit("' is missing");
    }
    let ghost av = attributes@.map_values(|t: (&str, Option<&str>, &str)| triple_view(t));
    let defs = collect_attributes(schema, complex);
    let ghost ds = defs@.map_values(|a: &AttributeDef| *a);
    let wildcard = collect_attr_wildcard(schema, complex);
    let ghost wc: Option<WildcardConstraint> = match wildcard {
        Some(w) => Some(*w),
        None => None,
    };
    let mut out = AttrValidation::default();
    proof {
        assert(outcome_view(out) =~= no_outcome());
    }
    if str_eq(complex.name.as_str(), "anyType") {
        return out;
    }
    let mut i: usize = 0;
    while i < attributes.len()
        invariant
            i <= attributes@.len(),
            av == attributes@.map_values(|t: (&str, Option<&str>, &str)| triple_view(t)),
            ds == defs@.map_values(|a: &AttributeDef| *a),
            wc == match wildcard {
                Some(w) => Some(*w),
                None => None::<WildcardConstraint>,
            },
            outcome_view(out) == attrs_outcome(*schema, ds, wc, av.take(i as int)),
        decreases attributes@.len() - i,
    {
        proof {
            reveal_strlit("http://www.w3.org/XML/1998/namespace");
            reveal_strlit("attribute '");
            reveal_strlit("' matched a strict wildcard but is not declared");
            reveal_strlit("' is not allowed");
            assert(av.take(i + 1).drop_last() =~= av.take(i as int));
            assert(av.take(i + 1).last() == av[i as int]);
        }
        let (name, ns, value) = attributes[i];
        let ghost before = outcome_view(out);
        let ghost step = attr_outcome(*schema, ds, wc, name@, match ns {
            Some(x) => Some(x@),
            None => None,
        }, value@);
        assert(av[i as int] == (name@, match ns {
            Some(x) => Some(x@),
            None => None::<Seq<char>>,
        }, value@));
        let is_xml = match ns {
            Some(u) => str_eq(u, "http://www.w3.org/XML/1998/namespace"),
            None => false,
        };
        if is_exempt_attribute(name) || is_xml {
            proof {
                assert(join(before, no_outcome()) =~= before);
            }
        } else {
            let local = local_name(name);
            match find_def_exec(&defs, name) {
                Some(def) => {
                    check_into(schema, def, resolve_ref(schema, def), value, &mut out);
                },
                None => {
                    let admitted = match wildcard {
                        Some(w) => w.matches(ns),
                        None => false,
                    };
                    if admitted {
                        let w = wildcard.unwrap();
                        if w.process_contents == ProcessContents::Skip {
                            proof {
                                assert(join(before, no_outcome()) =~= before);
                            }
                        } else {
                            let global = match schema.attributes.get(name) {
                                Some(g) => Some(g),
                                None => schema.attributes.get(local.as_str()),
                            };
                            match global {
                                Some(d) => {
                                    check_into(schema, d, d, value, &mut out);
                                },
                                None => {
                                    if w.process_contents == ProcessContents::Strict {
                                        let mut m = String::from_str("attribute '");
                                        m.append(name);
                                        m.append("' matched a strict wildcard but is not declared");
                                        push_error(&mut out, m);
                                        proof {
                                            assert(outcome_view(out) =~= join(before, step));
                                        }
                                    } else {
                                        proof {
                                            assert(join(before, no_outcome()) =~= before);
                                        }
                                    }
                                },
                            }
                        }
                    } else {
                        let mut m = String::from_str("attribute '");
                        m.append(name);
                        m.append("' is not allowed");
                        push_error(&mut out, m);
                        proof {
                            assert(outcome_view(out) =~= join(before, step));
                        }
                    }
                },
            }
        }
        i = i + 1;
    }
    proof {
        assert(av.take(av.len() as int) =~= av);
    }
    let ghost o = outcome_view(out);
    let mut k: usize = 0;
    while k < defs.len()
        invariant
            k <= defs@.len(),
            ds == defs@.map_values(|a: &AttributeDef| *a),
            av == attributes@.map_values(|t: (&str, Option<&str>, &str)| triple_view(t)),
            outcome_view(out) == (AttrOutcome {
                errors: o.errors + missing_required(ds.take(k as int), av),
                ..o
            }),
        decreases defs@.len() - k,
    {
        proof {
            reveal_strlit("required attribute '");
            reveal_strlit("' is missing");
            assert(ds.take(k + 1).drop_last() =~= ds.take(k as int));
            assert(ds.take(k + 1).last() == *defs@[k as int]);
        }
        let def = defs[k];
        if def.required && !is_present(attributes, def.name.as_str()) {
            let mut m = String::from_str("required attribute '");
            m.append(def.name.as_str());
            m.append("' is missing");
            let ghost before = outcome_view(out);
            push_error(&mut out, m);
            proof {
                assert(o.errors + missing_required(ds.take(k + 1), av) =~= before.errors.push(m@));
            }
        } else {
            proof {
                assert(o.errors + missing_required(ds.take(k + 1), av) =~= o.errors
                    + missing_required(ds.take(k as int), av));
            }
        }
        k = k + 1;
    }
    proof {
        assert(ds.take(ds.len() as int) =~= ds);
    }
    out
}

} // verus!
