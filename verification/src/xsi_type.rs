//! `xsi:type` substitution resolution and derivation checking.
use vstd::prelude::*;

use crate::schema::{CompiledSchema, ComplexType, DerivationMethod, TypeDef};
use crate::text::{
    after_first_colon, before_first_colon, has_colon, local_name, local_part, split_first_colon,
    str_eq, trim, trim_str,
};

verus! {

/// `i` is the first entry of the namespace index for `(ns, local)`.
pub open spec fn ns_entry_at(t: Seq<(String, String, String)>, ns: Seq<char>, local: Seq<char>, i: int) -> bool {
    &&& 0 <= i < t.len()
    &&& t[i].0@ == ns
    &&& t[i].1@ == local
    &&& forall|j: int| 0 <= j < i ==> !(#[trigger] t[j].0@ == ns && t[j].1@ == local)
}

/// The type defined in namespace `ns` under local name `local`: the type
/// keyed by the first index entry for the pair.
pub open spec fn type_ns_spec(schema: CompiledSchema, ns: Seq<char>, local: Seq<char>) -> Option<TypeDef> {
    let t = schema.type_namespaces@;
    if exists|i: int| ns_entry_at(t, ns, local, i) {
        schema.types.lookup(t[choose|i: int| ns_entry_at(t, ns, local, i)].2@)
    } else {
        None
    }
}

/// A base type reference: namespace-first (by the base's local name in the
/// namespace resolved at compile time), then by the name as written.
pub open spec fn type_by_ref_spec(schema: CompiledSchema, base_ns: Option<String>, b: Seq<char>) -> Option<TypeDef> {
    match base_ns {
        Some(ns) => match type_ns_spec(schema, ns@, local_part(b)) {
            Some(t) => Some(t),
            None => schema.types.lookup(b),
        },
        None => schema.types.lookup(b),
    }
}

impl CompiledSchema {
    /// The type defined in namespace `ns` under local name `local`.
    pub fn type_ns(&self, ns: &str, local: &str) -> (r: Option<&TypeDef>)
        ensures
            match r {
                Some(t) => type_ns_spec(*self, ns@, local@) == Some(*t),
                None => type_ns_spec(*self, ns@, local@) is None,
            },
    {
        let t = &self.type_namespaces;
        let mut i: usize = 0;
        while i < t.len()
            invariant
                i <= t@.len(),
                t@ == self.type_namespaces@,
                forall|j: int| 0 <= j < i ==> !(#[trigger] t@[j].0@ == ns@ && t@[j].1@ == local@),
            decreases t@.len() - i,
        {
            if str_eq(t[i].0.as_str(), ns) && str_eq(t[i].1.as_str(), local) {
                proof {
                    assert(ns_entry_at(t@, ns@, local@, i as int));
                    let c = choose|c: int| ns_entry_at(t@, ns@, local@, c);
                    if c < i {
                        assert(!(t@[c].0@ == ns@ && t@[c].1@ == local@));
                    }
                    if i < c {
                        assert(!(t@[i as int].0@ == ns@ && t@[i as int].1@ == local@));
                    }
                }
                return self.get_type(t[i].2.as_str());
            }
            i = i + 1;
        }
        None
    }

    /// A base type reference, namespace-first then by name.
    pub fn type_by_ref(&self, base_ns: Option<&String>, b: &str) -> (r: Option<&TypeDef>)
        ensures
            match r {
                Some(t) => type_by_ref_spec(*self, opt_string(base_ns), b@) == Some(*t),
                None => type_by_ref_spec(*self, opt_string(base_ns), b@) is None,
            },
    {
        match base_ns {
            Some(ns) => {
                let l = local_name(b);
                match self.type_ns(ns.as_str(), l.as_str()) {
                    Some(t) => Some(t),
                    None => self.get_type(b),
                }
            },
            None => self.get_type(b),
        }
    }
}

/// The owned form of an optional string reference.
pub open spec fn opt_string(s: Option<&String>) -> Option<String> {
    match s {
        Some(x) => Some(*x),
        None => None,
    }
}

/// The base type name, the base definition and the derivation method of one
/// step up a type's derivation chain.
pub open spec fn derivation_step(schema: CompiledSchema, t: Option<TypeDef>) -> (
    Option<String>,
    Option<TypeDef>,
    DerivationMethod,
) {
    match t {
        Some(TypeDef::Complex(c)) => (
            c.base_type,
            match c.base_type {
                Some(b) => type_by_ref_spec(schema, c.base_ns, b@),
                None => None,
            },
            match c.derivation {
                Some(m) => m,
                None => DerivationMethod::Restriction,
            },
        ),
        Some(TypeDef::Simple(s)) => (
            s.base_type,
            match s.base_type {
                Some(b) => type_by_ref_spec(schema, s.base_ns, b@),
                None => None,
            },
            DerivationMethod::Restriction,
        ),
        None => (None, None, DerivationMethod::Restriction),
    }
}

/// Walks at most `fuel` steps up the derivation chain from `current`,
/// collecting the methods used, until a base whose local name is `target`.
/// `Some(methods)` when it is reached.
pub open spec fn walk_to(
    schema: CompiledSchema,
    current: Option<TypeDef>,
    target: Seq<char>,
    methods: Seq<DerivationMethod>,
    fuel: nat,
) -> Option<Seq<DerivationMethod>>
    decreases fuel,
{
    if fuel == 0 {
        None
    } else {
        let (base, base_def, method) = derivation_step(schema, current);
        match base {
            None => None,
            Some(b) => if local_part(b@) == target {
                Some(methods.push(method))
            } else {
                walk_to(schema, base_def, target, methods.push(method), (fuel - 1) as nat)
            },
        }
    }
}

/// The first method that the declared type's `block` forbids.
pub open spec fn first_blocked(declared: ComplexType, methods: Seq<DerivationMethod>) -> Option<
    DerivationMethod,
>
    decreases methods.len(),
{
    if methods.len() == 0 {
        None
    } else {
        match first_blocked(declared, methods.drop_last()) {
            Some(m) => Some(m),
            None => if blocks_spec(declared, methods.last()) {
                Some(methods.last())
            } else {
                None
            },
        }
    }
}

/// Whether a type's `block` forbids a method.
pub open spec fn blocks_spec(t: ComplexType, m: DerivationMethod) -> bool {
    match m {
        DerivationMethod::Extension => t.block.extension,
        DerivationMethod::Restriction => t.block.restriction,
    }
}

/// The name of a derivation method.
pub open spec fn method_name(m: DerivationMethod) -> Seq<char> {
    match m {
        DerivationMethod::Extension => "extension"@,
        DerivationMethod::Restriction => "restriction"@,
    }
}

/// The prefix of a QName (`""` when it has none).
pub open spec fn qname_prefix(x: Seq<char>) -> Seq<char> {
    if has_colon(x) {
        before_first_colon(x)
    } else {
        Seq::empty()
    }
}

/// The local part after the first `:` of a QName (all of it when it has none).
pub open spec fn qname_local(x: Seq<char>) -> Seq<char> {
    if has_colon(x) {
        after_first_colon(x)
    } else {
        x
    }
}

/// The definition an `xsi:type` QName names in the instance's namespaces:
/// the type in the namespace its prefix is bound to (`uri`), else, for an
/// unprefixed name, the no-namespace type.
pub open spec fn ns_definition(schema: CompiledSchema, x: Seq<char>, uri: Option<Seq<char>>) -> Option<
    TypeDef,
> {
    let local = qname_local(x);
    match (match uri {
        Some(u) => type_ns_spec(schema, u, local),
        None => None,
    }) {
        Some(t) => Some(t),
        None => if qname_prefix(x).len() == 0 {
            type_ns_spec(schema, Seq::empty(), local)
        } else {
            None
        },
    }
}

/// `xsi:type '<x>' is not derived from declared type '<d>'`
pub open spec fn not_derived_message(x: Seq<char>, d: Seq<char>) -> Seq<char> {
    "xsi:type '"@ + x + "' is not derived from declared type '"@ + d + "'"@
}

/// The outcome once the derivation walk from the substituted type (key `k`,
/// value `x`) towards the declared type `d` has ended: refused when the
/// declared type was not reached or blocks a method used on the way.
pub open spec fn after_walk(
    schema: CompiledSchema,
    x: Seq<char>,
    d: Seq<char>,
    k: Seq<char>,
    walk: Option<Seq<DerivationMethod>>,
) -> Result<Seq<char>, Seq<char>> {
    match walk {
        None => Err(not_derived_message(x, d)),
        Some(ms) => {
            let dt = match schema.types.lookup(d) {
                Some(t) => Some(t),
                None => schema.types.lookup(local_part(d)),
            };
            match dt {
                Some(TypeDef::Complex(c)) => match first_blocked(c, ms) {
                    Some(b) => Err(
                        "xsi:type '"@ + x + "' uses "@ + method_name(b)
                            + " derivation, which is blocked by type '"@ + d + "'"@,
                    ),
                    None => Ok(k),
                },
                _ => Ok(k),
            }
        },
    }
}

/// The outcome of resolving an `xsi:type` value `raw` against the declared
/// type, given the namespace `uri` its prefix is bound to: the schema key of
/// the substituted type, or the reason it is refused.
pub open spec fn xsi_outcome(
    schema: CompiledSchema,
    declared: Option<Seq<char>>,
    raw: Seq<char>,
    uri: Option<Seq<char>>,
) -> Result<Seq<char>, Seq<char>> {
    let x = trim(raw);
    let local = qname_local(x);
    let ns_def = ns_definition(schema, x, uri);
    let key = if schema.types.lookup(x) is Some {
        Some(x)
    } else if schema.types.lookup(local) is Some || ns_def is Some {
        Some(local)
    } else {
        None
    };
    match key {
        None => Err("xsi:type '"@ + x + "' is not defined in schema"@),
        Some(k) => match declared {
            None => Ok(k),
            Some(d) => {
                let dl = local_part(d);
                if dl == "anyType"@ || dl == "anySimpleType"@ || local_part(k) == dl {
                    Ok(k)
                } else {
                    let start = match ns_def {
                        Some(t) => Some(t),
                        None => schema.types.lookup(k),
                    };
                    after_walk(schema, x, d, k, walk_to(schema, start, dl, Seq::empty(), 32))
                }
            },
        },
    }
}

/// Whether a block set forbids a derivation method.
pub open spec fn forbids(t: ComplexType, m: DerivationMethod) -> bool {
    ||| m == DerivationMethod::Extension && t.block.extension
    ||| m == DerivationMethod::Restriction && t.block.restriction
}

/// The declared type's block is honoured for every method, restriction as
/// well as extension: a method is reported exactly when some step of the
/// derivation uses a method the declared type blocks, and the one reported
/// is the first such step's method.
pub proof fn law_blocked_method_finds_any_blocked_step(t: ComplexType, ms: Seq<DerivationMethod>)
    ensures
        first_blocked(t, ms) is Some <==> exists|i: int| 0 <= i < ms.len() && forbids(t, #[trigger] ms[i]),
        first_blocked(t, ms) matches Some(m) ==> exists|i: int|
            0 <= i < ms.len() && ms[i] == m && forbids(t, m) && forall|j: int|
                0 <= j < i ==> !forbids(t, #[trigger] ms[j]),
    decreases ms.len(),
{
    if ms.len() > 0 {
        let d = ms.drop_last();
        law_blocked_method_finds_any_blocked_step(t, d);
        assert forall|i: int| 0 <= i < d.len() implies d[i] == ms[i] by {}
        match first_blocked(t, d) {
            Some(m) => {
                let i = choose|i: int|
                    0 <= i < d.len() && d[i] == m && forbids(t, m) && forall|j: int|
                        0 <= j < i ==> !forbids(t, #[trigger] d[j]);
                assert(ms[i] == m);
                assert forall|j: int| 0 <= j < i implies !forbids(t, #[trigger] ms[j]) by {
                    assert(d[j] == ms[j]);
                }
            },
            None => {
                let l = ms.len() - 1;
                assert(ms[l] == ms.last());
                if forbids(t, ms.last()) {
                    assert forall|j: int| 0 <= j < l implies !forbids(t, #[trigger] ms[j]) by {
                        assert(d[j] == ms[j]);
                        if forbids(t, ms[j]) {
                            assert(forbids(t, d[j]));
                        }
                    }
                } else {
                    assert forall|i: int| 0 <= i < ms.len() implies !forbids(t, #[trigger] ms[i]) by {
                        if i < l {
                            assert(d[i] == ms[i]);
                            if forbids(t, ms[i]) {
                                assert(forbids(t, d[i]));
                            }
                        }
                    }
                }
            },
        }
    }
}

/// An `xsi:type` naming a complex type derived by restriction directly from
/// the declared complex type is refused when the declared type blocks
/// restriction, with the message that says so.
pub proof fn law_restriction_blocked_substitution(
    schema: CompiledSchema,
    d: Seq<char>,
    x: Seq<char>,
    uri: Option<Seq<char>>,
    dc: ComplexType,
    tc: ComplexType,
    b: String,
)
    requires
        schema.types.lookup(d) == Some(TypeDef::Complex(dc)),
        dc.block.restriction,
        local_part(d) != "anyType"@,
        local_part(d) != "anySimpleType"@,
        trim(x) == x,
        schema.types.lookup(x) == Some(TypeDef::Complex(tc)),
        ns_definition(schema, x, uri) is None || ns_definition(schema, x, uri) == Some(TypeDef::Complex(tc)),
        local_part(x) != local_part(d),
        tc.base_type == Some(b),
        local_part(b@) == local_part(d),
        tc.derivation == Some(DerivationMethod::Restriction),
    ensures
        xsi_outcome(schema, Some(d), x, uri) == Err::<Seq<char>, Seq<char>>(
            "xsi:type '"@ + x + "' uses restriction derivation, which is blocked by type '"@ + d + "'"@,
        ),
{
    reveal_strlit("restriction");
    let ms = seq![DerivationMethod::Restriction];
    assert(walk_to(schema, Some(TypeDef::Complex(tc)), local_part(d), Seq::empty(), 32) == Some(ms)) by {
        assert(Seq::<DerivationMethod>::empty().push(DerivationMethod::Restriction) =~= ms);
    }
    assert(ms.drop_last() =~= Seq::<DerivationMethod>::empty());
    assert(first_blocked(dc, Seq::<DerivationMethod>::empty()) is None);
    assert(ms.last() == DerivationMethod::Restriction);
    assert(blocks_spec(dc, DerivationMethod::Restriction));
    assert(first_blocked(dc, ms) == Some(DerivationMethod::Restriction));
    let start = match ns_definition(schema, x, uri) {
        Some(t) => Some(t),
        None => schema.types.lookup(x),
    };
    assert(start == Some(TypeDef::Complex(tc)));
    assert(after_walk(schema, x, d, x, Some(ms)) == Err::<Seq<char>, Seq<char>>(
        "xsi:type '"@ + x + "' uses "@ + method_name(DerivationMethod::Restriction)
            + " derivation, which is blocked by type '"@ + d + "'"@,
    ));
    assert(method_name(DerivationMethod::Restriction) == "restriction"@);
    assert("xsi:type '"@ + x + "' uses "@ + "restriction"@ + " derivation, which is blocked by type '"@ + d + "'"@
        =~= "xsi:type '"@ + x + "' uses restriction derivation, which is blocked by type '"@ + d + "'"@) by {
        reveal_strlit("xsi:type '");
        reveal_strlit("' uses ");
        reveal_strlit(" derivation, which is blocked by type '");
        reveal_strlit("' uses restriction derivation, which is blocked by type '");
        reveal_strlit("'");
    }
}

/// Returns the first derivation method in `methods` blocked by the declared
/// type's `block` attribute, if any.
pub fn blocked_method(declared: &ComplexType, methods: &[DerivationMethod]) -> (r: Option<
    DerivationMethod,
>)
    ensures
        r == first_blocked(*declared, methods@),
{
    let mut i: usize = 0;
    while i < methods.len()
        invariant
            i <= methods@.len(),
            first_blocked(*declared, methods@.take(i as int)) is None,
        decreases methods@.len() - i,
    {
        proof {
            assert(methods@.take(i + 1).drop_last() =~= methods@.take(i as int));
        }
        if declared.block.blocks(methods[i]) {
            proof {
                lemma_first_blocked_prefix(*declared, methods@, i + 1);
            }
            return Some(methods[i]);
        }
        i = i + 1;
    }
    proof {
        assert(methods@.take(methods@.len() as int) =~= methods@);
    }
    None
}

/// The first blocked method of a prefix is the first of the whole list.
proof fn lemma_first_blocked_prefix(t: ComplexType, s: Seq<DerivationMethod>, j: int)
    requires
        0 <= j <= s.len(),
        first_blocked(t, s.take(j)) is Some,
    ensures
        first_blocked(t, s) == first_blocked(t, s.take(j)),
    decreases s.len() - j,
{
    if j == s.len() {
        assert(s.take(j) =~= s);
    } else {
        assert(s.take(j + 1).drop_last() =~= s.take(j));
        lemma_first_blocked_prefix(t, s, j + 1);
    }
}

/// Resolves an `xsi:type` value whose prefix is bound to `uri` in the
/// instance (`None` when unbound), and checks that the substitution is
/// allowed for the declared type.
pub fn resolve_xsi_type_in(
    schema: &CompiledSchema,
    declared: Option<&str>,
    xsi_type: &str,
    uri: Option<String>,
) -> (r: Result<String, String>)
    ensures
        match r {
            Ok(k) => xsi_outcome(*schema, opt_str(declared), xsi_type@, opt_owned(uri)) == Ok::<
                Seq<char>,
                Seq<char>,
            >(k@),
            Err(m) => xsi_outcome(*schema, opt_str(declared), xsi_type@, opt_owned(uri)) == Err::<
                Seq<char>,
                Seq<char>,
            >(m@),
        },
{
    proof {
        reveal_strlit("xsi:type '");
        reveal_strlit("' is not defined in schema");
        reveal_strlit("anyType");
        reveal_strlit("anySimpleType");
        reveal_strlit("' is not derived from declared type '");
        reveal_strlit("'");
        reveal_strlit("' uses ");
        reveal_strlit(" derivation, which is blocked by type '");
        reveal_strlit("extension");
        reveal_strlit("restriction");
        reveal_strlit("");
    }
    let ghost spec_r = xsi_outcome(*schema, opt_str(declared), xsi_type@, opt_owned(uri));
    let x = trim_str(xsi_type);
    let (prefix, local) = match split_first_colon(x.as_str()) {
        Some((p, l)) => (p, l),
        None => (String::new(), x.clone()),
    };
    assert(prefix@ == qname_prefix(x@));
    assert(local@ == qname_local(x@));
    let by_uri = match &uri {
        Some(u) => schema.type_ns(u.as_str(), local.as_str()),
        None => None,
    };
    let ns_def: Option<&TypeDef> = match by_uri {
        Some(t) => Some(t),
        None => if prefix.unicode_len() == 0 {
            schema.type_ns("", local.as_str())
        } else {
            None
        },
    };
    proof {
        assert(""@ =~= Seq::<char>::empty());
        assert(opt_ref(ns_def) == ns_definition(*schema, x@, opt_owned(uri)));
    }
    let key: String = if schema.get_type(x.as_str()).is_some() {
        x.clone()
    } else if schema.get_type(local.as_str()).is_some() || ns_def.is_some() {
        local.clone()
    } else {
        let mut m = String::from_str("xsi:type '");
        m.append(x.as_str());
        m.append("' is not defined in schema");
        return Err(m);
    };
    let d: &str = match declared {
        None => {
            return Ok(key);
        },
        Some(d) => d,
    };
    let dl = local_name(d);
    let kl = local_name(key.as_str());
    if str_eq(dl.as_str(), "anyType") || str_eq(dl.as_str(), "anySimpleType") || str_eq(
        kl.as_str(),
        dl.as_str(),
    ) {
        return Ok(key);
    }
    let mut methods: Vec<DerivationMethod> = Vec::new();
    let mut current: Option<&TypeDef> = match ns_def {
        Some(t) => Some(t),
        None => schema.get_type(key.as_str()),
    };
    let ghost start = opt_ref(current);
    let mut k: usize = 0;
    assert(spec_r == after_walk(*schema, x@, d@, key@, walk_to(*schema, start, dl@, Seq::empty(), 32)));
    while k < 32
        invariant
            k <= 32,
            spec_r == after_walk(*schema, x@, d@, key@, walk_to(*schema, start, dl@, Seq::empty(), 32)),
            dl@ == local_part(d@),
            spec_r == xsi_outcome(*schema, opt_str(declared), xsi_type@, opt_owned(uri)),
            walk_to(*schema, start, dl@, Seq::empty(), 32) == walk_to(
                *schema,
                opt_ref(current),
                dl@,
                methods@,
                (32 - k) as nat,
            ),
        decreases 32 - k,
    {
        proof {
            reveal_strlit("xsi:type '");
            reveal_strlit("' is not derived from declared type '");
            reveal_strlit("'");
            reveal_strlit("' uses ");
            reveal_strlit(" derivation, which is blocked by type '");
            reveal_strlit("extension");
            reveal_strlit("restriction");
        }
        let (base, base_def, method): (Option<&String>, Option<&TypeDef>, DerivationMethod) =
            match current {
            Some(TypeDef::Complex(c)) => (
                c.base_type.as_ref(),
                match &c.base_type {
                    Some(b) => schema.type_by_ref(c.base_ns.as_ref(), b.as_str()),
                    None => None,
                },
                match c.derivation {
                    Some(m) => m,
                    None => DerivationMethod::Restriction,
                },
            ),
            Some(TypeDef::Simple(s)) => (
                s.base_type.as_ref(),
                match &s.base_type {
                    Some(b) => schema.type_by_ref(s.base_ns.as_ref(), b.as_str()),
                    None => None,
                },
                DerivationMethod::Restriction,
            ),
            None => (None, None, DerivationMethod::Restriction),
        };
        proof {
            let st = derivation_step(*schema, opt_ref(current));
            assert(opt_string(base) == st.0);
            assert(opt_ref(base_def) == st.1);
            assert(method == st.2);
        }
        let base = match base {
            None => {
                let mut m = String::from_str("xsi:type '");
                m.append(x.as_str());
                m.append("' is not derived from declared type '");
                m.append(d);
                m.append("'");
                return Err(m);
            },
            Some(b) => b,
        };
        methods.push(method);
        let bl = local_name(base.as_str());
        if str_eq(bl.as_str(), dl.as_str()) {
            let dt = match schema.get_type(d) {
                Some(t) => Some(t),
                None => schema.get_type(dl.as_str()),
            };
            if let Some(TypeDef::Complex(declared_type)) = dt {
                if let Some(blocked) = blocked_method(declared_type, methods.as_slice()) {
                    let mut m = String::from_str("xsi:type '");
                    m.append(x.as_str());
                    m.append("' uses ");
                    m.append(
                        match blocked {
                            DerivationMethod::Extension => "extension",
                            DerivationMethod::Restriction => "restriction",
                        },
                    );
                    m.append(" derivation, which is blocked by type '");
                    m.append(d);
                    m.append("'");
                    return Err(m);
                }
            }
            return Ok(key);
        }
        current = base_def;
        k = k + 1;
    }
    let mut m = String::from_str("xsi:type '");
    m.append(x.as_str());
    m.append("' is not derived from declared type '");
    m.append(d);
    m.append("'");
    Err(m)
}

/// The owned view of an optional slice.
pub open spec fn opt_str(s: Option<&str>) -> Option<Seq<char>> {
    match s {
        Some(x) => Some(x@),
        None => None,
    }
}

/// The view of an optional string.
pub open spec fn opt_owned(s: Option<String>) -> Option<Seq<char>> {
    match s {
        Some(x) => Some(x@),
        None => None,
    }
}

/// The value behind an optional reference.
pub open spec fn opt_ref(t: Option<&TypeDef>) -> Option<TypeDef> {
    match t {
        Some(x) => Some(*x),
        None => None,
    }
}

/// Resolves an `xsi:type` attribute value against the schema and checks the
/// substitution is allowed for the declared type. `resolve_prefix` maps the
/// QName's prefix (`""` for none) to the namespace in scope at the element.
/// Returns the schema key of the substituted type, or an error message when
/// the type is unknown, not derived from the declared type, or the
/// derivation is blocked.
pub fn resolve_xsi_type<F: Fn(&str) -> Option<String>>(
    schema: &CompiledSchema,
    declared: Option<&str>,
    xsi_type: &str,
    resolve_prefix: F,
) -> (r: Result<String, String>)
    requires
        forall|p: &str| #[trigger] resolve_prefix.requires((p,)),
    ensures
        exists|p: &str, uri: Option<String>|
            #![trigger resolve_prefix.ensures((p,), uri)]
            p@ == qname_prefix(trim(xsi_type@)) && resolve_prefix.ensures((p,), uri) && match r {
                Ok(k) => xsi_outcome(*schema, opt_str(declared), xsi_type@, opt_owned(uri))
                    == Ok::<Seq<char>, Seq<char>>(k@),
                Err(m) => xsi_outcome(*schema, opt_str(declared), xsi_type@, opt_owned(uri))
                    == Err::<Seq<char>, Seq<char>>(m@),
            },
{
    let x = trim_str(xsi_type);
    let prefix = match split_first_colon(x.as_str()) {
        Some((p, _l)) => p,
        None => String::new(),
    };
    let p = prefix.as_str();
    assert(p@ == qname_prefix(trim(xsi_type@)));
    let uri = resolve_prefix(p);
    let ghost u = uri;
    let r = resolve_xsi_type_in(schema, declared, xsi_type, uri);
    assert(resolve_prefix.ensures((p,), u));
    r
}

} // verus!
