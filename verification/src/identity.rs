//! Identity constraint (unique / key / keyref) selector and field paths.
//!
//! Selector and field expressions are a small XPath subset (child paths, an
//! optional `.//` prefix, `@attr` fields, `.` for the node itself), so they
//! can be matched against the path of open elements without a document tree.
use vstd::prelude::*;

use crate::schema::{CompiledConstraint, CompiledConstraintType};
use crate::text::{
    local_name, local_part, split_char, split_on, starts_with, str_eq, strings_view,
    strip_prefix_str, trim, trim_str,
};

verus! {

/// One step-path alternative of a selector (`a/b`, `.//a`, `*`).
#[derive(Debug, Clone)]
pub struct SelectorPath {
    /// Leading `.//`: the path may start at any depth below the scope.
    pub descendant: bool,
    /// Step local names (`*` matches any element).
    pub steps: Vec<String>,
}

/// A parsed field expression.
#[derive(Debug, Clone)]
pub struct FieldPath {
    /// Element steps below the selected node (empty = the selected node).
    pub steps: Vec<String>,
    /// Trailing attribute step (`@attr`).
    pub attr: Option<String>,
}

/// A selector alternative as plain values.
pub struct SelectorView {
    /// Leading `.//`.
    pub descendant: bool,
    /// Step names.
    pub steps: Seq<Seq<char>>,
}

/// A field path as plain values.
pub struct FieldView {
    /// Element step names.
    pub steps: Seq<Seq<char>>,
    /// Attribute name.
    pub attr: Option<Seq<char>>,
}

/// The view of a selector alternative.
pub open spec fn selector_view(p: SelectorPath) -> SelectorView {
    SelectorView { descendant: p.descendant, steps: strings_view(p.steps@) }
}

/// The view of a field path.
pub open spec fn field_view(f: FieldPath) -> FieldView {
    FieldView {
        steps: strings_view(f.steps@),
        attr: match f.attr {
            Some(a) => Some(a@),
            None => None,
        },
    }
}

/// `s` without a leading `p`, or `s` itself.
pub open spec fn strip_or_keep(s: Seq<char>, p: Seq<char>) -> Seq<char> {
    if starts_with(s, p) {
        s.subrange(p.len() as int, s.len() as int)
    } else {
        s
    }
}

/// One selector step: its local name, or `None` when the step is empty,
/// an attribute step or `.`.
pub open spec fn selector_step(step: Seq<char>) -> Option<Seq<char>> {
    let t = trim(step);
    if t.len() == 0 || t[0] == '@' || t == "."@ {
        None
    } else {
        Some(local_part(strip_or_keep(t, "child::"@)))
    }
}

/// The steps of a list of selector steps, or `None` when one is not
/// supported.
pub open spec fn selector_steps(parts: Seq<Seq<char>>) -> Option<Seq<Seq<char>>>
    decreases parts.len(),
{
    if parts.len() == 0 {
        Some(Seq::empty())
    } else {
        match (selector_steps(parts.drop_last()), selector_step(parts.last())) {
            (Some(prev), Some(s)) => Some(prev.push(s)),
            _ => None,
        }
    }
}

/// One selector alternative.
pub open spec fn selector_alt(alt: Seq<char>) -> Option<SelectorView> {
    let a = trim(alt);
    let descendant = starts_with(a, ".//"@);
    let rest = if descendant {
        a.subrange(3, a.len() as int)
    } else {
        strip_or_keep(a, "./"@)
    };
    match selector_steps(split_on(rest, '/')) {
        Some(steps) => if steps.len() == 0 {
            None
        } else {
            Some(SelectorView { descendant, steps })
        },
        None => None,
    }
}

/// The alternatives of a list of selector alternatives.
pub open spec fn selector_alts(alts: Seq<Seq<char>>) -> Option<Seq<SelectorView>>
    decreases alts.len(),
{
    if alts.len() == 0 {
        Some(Seq::empty())
    } else {
        match (selector_alts(alts.drop_last()), selector_alt(alts.last())) {
            (Some(prev), Some(p)) => Some(prev.push(p)),
            _ => None,
        }
    }
}

/// A selector XPath parsed into its `|` alternatives, or `None` outside the
/// supported subset.
pub open spec fn selector_spec(xpath: Seq<char>) -> Option<Seq<SelectorView>> {
    selector_alts(split_on(xpath, '|'))
}

/// What one field step is.
pub enum FieldPart {
    /// An element step.
    Step(Seq<char>),
    /// An attribute step.
    Attr(Seq<char>),
    /// An unsupported step.
    Bad,
}

/// Classifies one field step.
pub open spec fn field_part(part: Seq<char>) -> FieldPart {
    let p = strip_or_keep(trim(part), "child::"@);
    if starts_with(p, "@"@) {
        FieldPart::Attr(local_part(p.subrange(1, p.len() as int)))
    } else if starts_with(p, "attribute::"@) {
        FieldPart::Attr(local_part(p.subrange(11, p.len() as int)))
    } else if p.len() == 0 || p == "."@ {
        FieldPart::Bad
    } else {
        FieldPart::Step(local_part(p))
    }
}

/// The field of a list of steps: every step but the last is an element
/// step; the last is an element or attribute step.
pub open spec fn field_parts(parts: Seq<Seq<char>>) -> Option<FieldView>
    decreases parts.len(),
{
    if parts.len() == 0 {
        Some(FieldView { steps: Seq::empty(), attr: None })
    } else {
        match field_parts(parts.drop_last()) {
            Some(prev) => if prev.attr is Some {
                None
            } else {
                match field_part(parts.last()) {
                    FieldPart::Step(s) => Some(FieldView { steps: prev.steps.push(s), attr: None }),
                    FieldPart::Attr(a) => Some(FieldView { steps: prev.steps, attr: Some(a) }),
                    FieldPart::Bad => None,
                }
            },
            None => None,
        }
    }
}

/// Whether `s` contains `//`.
pub open spec fn has_double_slash(s: Seq<char>) -> bool {
    exists|i: int| 0 <= i < s.len() - 1 && #[trigger] s[i] == '/' && s[i + 1] == '/'
}

/// A field XPath parsed, or `None` outside the supported subset.
pub open spec fn field_spec(xpath: Seq<char>) -> Option<FieldView> {
    let x = trim(xpath);
    if x == "."@ {
        Some(FieldView { steps: Seq::empty(), attr: None })
    } else if has_double_slash(x) {
        None
    } else {
        field_parts(split_on(strip_or_keep(x, "./"@), '/'))
    }
}

/// A failing prefix makes the whole list of selector steps fail.
proof fn lemma_steps_prefix_none(s: Seq<Seq<char>>, j: int)
    requires
        0 <= j <= s.len(),
        selector_steps(s.take(j)) is None,
    ensures
        selector_steps(s) is None,
    decreases s.len() - j,
{
    if j == s.len() {
        assert(s.take(j) =~= s);
    } else {
        assert(s.take(j + 1).drop_last() =~= s.take(j));
        lemma_steps_prefix_none(s, j + 1);
    }
}

/// A failing prefix makes the whole list of alternatives fail.
proof fn lemma_alts_prefix_none(s: Seq<Seq<char>>, j: int)
    requires
        0 <= j <= s.len(),
        selector_alts(s.take(j)) is None,
    ensures
        selector_alts(s) is None,
    decreases s.len() - j,
{
    if j == s.len() {
        assert(s.take(j) =~= s);
    } else {
        assert(s.take(j + 1).drop_last() =~= s.take(j));
        lemma_alts_prefix_none(s, j + 1);
    }
}

/// A failing prefix makes the whole field fail.
proof fn lemma_parts_prefix_none(s: Seq<Seq<char>>, j: int)
    requires
        0 <= j <= s.len(),
        field_parts(s.take(j)) is None,
    ensures
        field_parts(s) is None,
    decreases s.len() - j,
{
    if j == s.len() {
        assert(s.take(j) =~= s);
    } else {
        assert(s.take(j + 1).drop_last() =~= s.take(j));
        lemma_parts_prefix_none(s, j + 1);
    }
}

/// `s` without a leading `p`, or `s` itself.
fn strip_or_keep_str(s: &str, p: &str) -> (r: String)
    ensures
        r@ == strip_or_keep(s@, p@),
{
    match strip_prefix_str(s, p) {
        Some(t) => t,
        None => String::from_str(s),
    }
}

/// Parses one selector alternative.
fn parse_alt(alt: &str) -> (r: Option<SelectorPath>)
    ensures
        match r {
            Some(p) => selector_alt(alt@) == Some(selector_view(p)),
            None => selector_alt(alt@) is None,
        },
{
    proof {
        reveal_strlit(".//");
        reveal_strlit("./");
        reveal_strlit(".");
        reveal_strlit("child::");
    }
    let a = trim_str(alt);
    let (descendant, rest) = match strip_prefix_str(a.as_str(), ".//") {
        Some(r) => (true, r),
        None => (false, strip_or_keep_str(a.as_str(), "./")),
    };
    let parts = split_char(rest.as_str(), '/');
    let mut steps: Vec<String> = Vec::new();
    let mut i: usize = 0;
    assert(selector_alt(alt@) == match selector_steps(strings_view(parts@)) {
        Some(st) => if st.len() == 0 {
            None
        } else {
            Some(SelectorView { descendant, steps: st })
        },
        None => None,
    });
    while i < parts.len()
        invariant
            i <= parts@.len(),
            selector_alt(alt@) == match selector_steps(strings_view(parts@)) {
                Some(st) => if st.len() == 0 {
                    None
                } else {
                    Some(SelectorView { descendant, steps: st })
                },
                None => None,
            },
            selector_steps(strings_view(parts@).take(i as int)) == Some(strings_view(steps@)),
        decreases parts@.len() - i,
    {
        proof {
            assert(strings_view(parts@).take(i + 1).drop_last() =~= strings_view(parts@).take(
                i as int,
            ));
            assert(strings_view(parts@).take(i + 1).last() == parts@[i as int]@);
        }
        let step = trim_str(parts[i].as_str());
        if step.unicode_len() == 0 || step.as_str().get_char(0) == '@' || str_eq(step.as_str(), ".") {
            proof {
                assert(selector_step(parts@[i as int]@) is None);
                assert(selector_steps(strings_view(parts@).take(i + 1)) is None);
                lemma_steps_prefix_none(strings_view(parts@), i + 1);
            }
            return None;
        }
        let bare = strip_or_keep_str(step.as_str(), "child::");
        let local = local_name(bare.as_str());
        steps.push(local);
        proof {
            assert(strings_view(steps@) =~= strings_view(steps@).drop_last().push(local@));
        }
        i = i + 1;
    }
    proof {
        assert(strings_view(parts@).take(parts@.len() as int) =~= strings_view(parts@));
    }
    if steps.len() == 0 {
        return None;
    }
    Some(SelectorPath { descendant, steps })
}

/// Parses a selector XPath into its union alternatives. Returns `None` for
/// constructs outside the supported subset.
pub fn parse_selector(xpath: &str) -> (r: Option<Vec<SelectorPath>>)
    ensures
        match r {
            Some(v) => selector_spec(xpath@) == Some(v@.map_values(|p: SelectorPath| selector_view(p))),
            None => selector_spec(xpath@) is None,
        },
{
    let alts = split_char(xpath, '|');
    let mut paths: Vec<SelectorPath> = Vec::new();
    let mut i: usize = 0;
    while i < alts.len()
        invariant
            i <= alts@.len(),
            strings_view(alts@) == split_on(xpath@, '|'),
            selector_alts(strings_view(alts@).take(i as int)) == Some(
                paths@.map_values(|p: SelectorPath| selector_view(p)),
            ),
        decreases alts@.len() - i,
    {
        proof {
            assert(strings_view(alts@).take(i + 1).drop_last() =~= strings_view(alts@).take(
                i as int,
            ));
            assert(strings_view(alts@).take(i + 1).last() == alts@[i as int]@);
        }
        match parse_alt(alts[i].as_str()) {
            Some(p) => {
                let ghost prev = paths@;
                paths.push(p);
                proof {
                    assert(paths@.map_values(|p: SelectorPath| selector_view(p)) =~= prev.map_values(
                        |p: SelectorPath| selector_view(p),
                    ).push(selector_view(p)));
                }
            },
            None => {
                proof {
                    assert(selector_alts(strings_view(alts@).take(i + 1)) is None);
                    lemma_alts_prefix_none(strings_view(alts@), i + 1);
                }
                return None;
            },
        }
        i = i + 1;
    }
    proof {
        assert(strings_view(alts@).take(alts@.len() as int) =~= strings_view(alts@));
    }
    Some(paths)
}

/// Whether `s` contains `//`.
fn contains_double_slash(s: &str) -> (r: bool)
    ensures
        r == has_double_slash(s@),
{
    let v = crate::text::chars_of(s);
    let mut i: usize = 0;
    while i < v.len() && i + 1 < v.len()
        invariant
            v@ == s@,
            i <= v@.len(),
            forall|k: int| 0 <= k < i && k < v@.len() - 1 ==> !(#[trigger] v@[k] == '/' && v@[k + 1] == '/'),
        decreases v@.len() - i,
    {
        if v[i] == '/' && v[i + 1] == '/' {
            return true;
        }
        i = i + 1;
    }
    false
}

/// Classifies one field step.
fn parse_field_part(part: &str) -> (r: (u8, String))
    ensures
        r.0 == 0 ==> field_part(part@) == FieldPart::Step(r.1@),
        r.0 == 1 ==> field_part(part@) == FieldPart::Attr(r.1@),
        r.0 == 2 ==> field_part(part@) == FieldPart::Bad,
        r.0 <= 2,
{
    proof {
        reveal_strlit("child::");
        reveal_strlit("@");
        reveal_strlit("attribute::");
        reveal_strlit(".");
    }
    let t = trim_str(part);
    let p = strip_or_keep_str(t.as_str(), "child::");
    if let Some(a) = strip_prefix_str(p.as_str(), "@") {
        return (1, local_name(a.as_str()));
    }
    if let Some(a) = strip_prefix_str(p.as_str(), "attribute::") {
        return (1, local_name(a.as_str()));
    }
    if p.unicode_len() == 0 || str_eq(p.as_str(), ".") {
        return (2, String::new());
    }
    (0, local_name(p.as_str()))
}

/// Parses a field XPath. Returns `None` for unsupported constructs.
pub fn parse_field(xpath: &str) -> (r: Option<FieldPath>)
    ensures
        match r {
            Some(f) => field_spec(xpath@) == Some(field_view(f)),
            None => field_spec(xpath@) is None,
        },
{
    proof {
        reveal_strlit(".");
        reveal_strlit("./");
    }
    let x = trim_str(xpath);
    if str_eq(x.as_str(), ".") {
        let f = FieldPath { steps: Vec::new(), attr: None };
        assert(strings_view(f.steps@) =~= Seq::<Seq<char>>::empty());
        return Some(f);
    }
    if contains_double_slash(x.as_str()) {
        return None;
    }
    let rest = strip_or_keep_str(x.as_str(), "./");
    let parts = split_char(rest.as_str(), '/');
    let mut steps: Vec<String> = Vec::new();
    let mut attr: Option<String> = None;
    let mut i: usize = 0;
    proof {
        assert(strings_view(steps@) =~= Seq::<Seq<char>>::empty());
    }
    assert(field_spec(xpath@) == field_parts(strings_view(parts@)));
    while i < parts.len()
        invariant
            i <= parts@.len(),
            field_spec(xpath@) == field_parts(strings_view(parts@)),
            field_parts(strings_view(parts@).take(i as int)) == Some(
                field_view(FieldPath { steps, attr }),
            ),
        decreases parts@.len() - i,
    {
        proof {
            assert(strings_view(parts@).take(i + 1).drop_last() =~= strings_view(parts@).take(
                i as int,
            ));
            assert(strings_view(parts@).take(i + 1).last() == parts@[i as int]@);
        }
        if attr.is_some() {
            proof {
                assert(field_parts(strings_view(parts@).take(i + 1)) is None);
                lemma_parts_prefix_none(strings_view(parts@), i + 1);
            }
            return None;
        }
        let (kind, name) = parse_field_part(parts[i].as_str());
        if kind == 2 {
            proof {
                assert(field_parts(strings_view(parts@).take(i + 1)) is None);
                lemma_parts_prefix_none(strings_view(parts@), i + 1);
            }
            return None;
        } else if kind == 1 {
            attr = Some(name);
        } else {
            let ghost prev = steps@;
            steps.push(name);
            proof {
                assert(strings_view(steps@) =~= strings_view(prev).push(name@));
            }
        }
        i = i + 1;
    }
    proof {
        assert(strings_view(parts@).take(parts@.len() as int) =~= strings_view(parts@));
    }
    Some(FieldPath { steps, attr })
}

/// Each step name matches the path name at the same position (`*` matches
/// anything), over the shorter of the two.
pub open spec fn steps_match_spec(steps: Seq<Seq<char>>, path: Seq<Seq<char>>) -> bool {
    forall|k: int|
        0 <= k < steps.len() && k < path.len() ==> #[trigger] steps[k] == "*"@ || steps[k] == path[k]
}

/// The names of a relative path.
pub open spec fn path_view(p: Seq<&str>) -> Seq<Seq<char>> {
    p.map_values(|s: &str| s@)
}

/// Whether a relative path matches one selector alternative: exactly, or
/// (for `.//`) in its last steps.
pub open spec fn alt_matches(p: SelectorView, path: Seq<Seq<char>>) -> bool {
    if p.descendant {
        path.len() >= p.steps.len() && steps_match_spec(
            p.steps,
            path.subrange(path.len() - p.steps.len(), path.len() as int),
        )
    } else {
        path.len() == p.steps.len() && steps_match_spec(p.steps, path)
    }
}

fn steps_match(steps: &[String], rel_path: &[&str], from: usize) -> (r: bool)
    requires
        from <= rel_path@.len(),
    ensures
        r == steps_match_spec(
            strings_view(steps@),
            path_view(rel_path@).subrange(from as int, rel_path@.len() as int),
        ),
{
    proof {
        reveal_strlit("*");
    }
    let ghost sv = strings_view(steps@);
    let ghost pv = path_view(rel_path@).subrange(from as int, rel_path@.len() as int);
    let mut k: usize = 0;
    while k < steps.len() && k < rel_path.len() - from
        invariant
            from <= rel_path@.len(),
            sv == strings_view(steps@),
            pv == path_view(rel_path@).subrange(from as int, rel_path@.len() as int),
            forall|q: int| 0 <= q < k && q < sv.len() && q < pv.len() ==> #[trigger] sv[q] == "*"@ || sv[q] == pv[q],
            k <= steps@.len(),
        decreases steps@.len() - k,
    {
        let s = steps[k].as_str();
        if !(str_eq(s, "*") || str_eq(s, rel_path[from + k])) {
            proof {
                assert(pv[k as int] == rel_path@[from + k]@);
                assert(!(sv[k as int] == "*"@ || sv[k as int] == pv[k as int]));
            }
            return false;
        }
        proof {
            assert(pv[k as int] == rel_path@[from + k]@);
        }
        k = k + 1;
    }
    true
}

/// Whether a relative element path (local names from just below the anchor
/// to the current element) matches one of the selector alternatives.
pub fn selector_matches(paths: &[SelectorPath], rel_path: &[&str]) -> (r: bool)
    ensures
        r == exists|i: int|
            0 <= i < paths@.len() && #[trigger] alt_matches(
                selector_view(paths@[i]),
                path_view(rel_path@),
            ),
{
    let mut i: usize = 0;
    while i < paths.len()
        invariant
            i <= paths@.len(),
            forall|q: int|
                0 <= q < i ==> !#[trigger] alt_matches(
                    selector_view(paths@[q]),
                    path_view(rel_path@),
                ),
        decreases paths@.len() - i,
    {
        let p = &paths[i];
        let n = rel_path.len();
        let m = p.steps.len();
        let ok = if p.descendant {
            n >= m && steps_match(p.steps.as_slice(), rel_path, n - m)
        } else {
            n == m && steps_match(p.steps.as_slice(), rel_path, 0)
        };
        proof {
            assert(path_view(rel_path@).subrange(0, n as int) =~= path_view(rel_path@));
            assert(ok == alt_matches(selector_view(paths@[i as int]), path_view(rel_path@)));
        }
        if ok {
            return true;
        }
        i = i + 1;
    }
    false
}

/// Whether a relative element path matches a field's element steps exactly.
pub fn field_steps_match(field: &FieldPath, rel_path: &[&str]) -> (r: bool)
    ensures
        r == (rel_path@.len() == field.steps@.len() && steps_match_spec(
            field_view(*field).steps,
            path_view(rel_path@),
        )),
{
    proof {
        assert(path_view(rel_path@).subrange(0, rel_path@.len() as int) =~= path_view(rel_path@));
    }
    rel_path.len() == field.steps.len() && steps_match(field.steps.as_slice(), rel_path, 0)
}

/// Captured value of one field for one selected node.
#[derive(Debug, Clone)]
pub enum FieldState {
    /// Nothing captured yet.
    Unset,
    /// One value captured.
    Value(String),
    /// More than one value: an error for key fields.
    Multiple,
}

/// A node matched by a constraint's selector, with its field captures.
#[derive(Debug)]
pub struct SelectedState {
    /// Element-stack depth of the selected node.
    pub depth: usize,
    /// One capture per field.
    pub fields: Vec<FieldState>,
}

/// An in-scope identity constraint (one per scoping element instance).
#[derive(Debug)]
pub struct ScopeState {
    /// The constraint.
    pub constraint: CompiledConstraint,
    /// Its parsed selector.
    pub selector: Vec<SelectorPath>,
    /// Its parsed fields.
    pub fields: Vec<FieldPath>,
    /// Element-stack depth of the scoping element.
    pub depth: usize,
    /// Nodes selected so far.
    pub selected: Vec<SelectedState>,
    /// Key tuples already seen within this scope instance (uniqueness is
    /// per scope, so equal values under sibling scopes do not clash).
    pub seen: Vec<Vec<String>>,
}

/// Copies a list of strings.
fn copy_strings(v: &Vec<String>) -> (r: Vec<String>)
    ensures
        r@ == v@,
{
    let mut r: Vec<String> = Vec::new();
    let mut i: usize = 0;
    while i < v.len()
        invariant
            i <= v@.len(),
            r@ == v@.take(i as int),
        decreases v@.len() - i,
    {
        r.push(v[i].clone());
        proof {
            assert(v@.take(i + 1) =~= v@.take(i as int).push(v@[i as int]));
        }
        i = i + 1;
    }
    assert(v@.take(v@.len() as int) =~= v@);
    r
}

/// Two constraint declarations say the same.
pub open spec fn same_constraint(a: CompiledConstraint, b: CompiledConstraint) -> bool {
    &&& a.name == b.name
    &&& a.constraint_type == b.constraint_type
    &&& a.selector_xpath == b.selector_xpath
    &&& a.field_xpaths@ == b.field_xpaths@
    &&& a.refer == b.refer
}

/// Copies a constraint declaration.
fn copy_constraint(c: &CompiledConstraint) -> (r: CompiledConstraint)
    ensures
        same_constraint(r, *c),
{
    CompiledConstraint {
        name: c.name.clone(),
        constraint_type: c.constraint_type,
        selector_xpath: c.selector_xpath.clone(),
        field_xpaths: copy_strings(&c.field_xpaths),
        refer: match &c.refer {
            Some(x) => Some(x.clone()),
            None => None,
        },
    }
}

/// Every field XPath parses.
pub open spec fn fields_parse(xs: Seq<String>) -> bool {
    forall|i: int| 0 <= i < xs.len() ==> #[trigger] field_spec(xs[i]@) is Some
}

impl ScopeState {
    /// Builds the scope state for a constraint declared on an element at
    /// `depth`, when its selector and field expressions are in the supported
    /// subset.
    pub fn new(constraint: &CompiledConstraint, depth: usize) -> (r: Option<ScopeState>)
        ensures
            r is Some <==> (selector_spec(constraint.selector_xpath@) is Some && fields_parse(
                constraint.field_xpaths@,
            )),
            r matches Some(s) ==> {
                &&& same_constraint(s.constraint, *constraint)
                &&& selector_spec(constraint.selector_xpath@) == Some(
                    s.selector@.map_values(|p: SelectorPath| selector_view(p)),
                )
                &&& s.fields@.len() == constraint.field_xpaths@.len()
                &&& forall|i: int|
                    0 <= i < s.fields@.len() ==> field_spec(constraint.field_xpaths@[i]@) == Some(
                        #[trigger] field_view(s.fields@[i]),
                    )
                &&& s.depth == depth
                &&& s.selected@.len() == 0
                &&& s.seen@.len() == 0
            },
    {
        let selector = match parse_selector(constraint.selector_xpath.as_str()) {
            Some(s) => s,
            None => {
                return None;
            },
        };
        let xs = &constraint.field_xpaths;
        let mut fields: Vec<FieldPath> = Vec::new();
        let mut i: usize = 0;
        while i < xs.len()
            invariant
                i <= xs@.len(),
                xs@ == constraint.field_xpaths@,
                fields@.len() == i,
                forall|k: int|
                    0 <= k < i ==> field_spec(xs@[k]@) == Some(#[trigger] field_view(fields@[k])),
            decreases xs@.len() - i,
        {
            match parse_field(xs[i].as_str()) {
                Some(f) => {
                    fields.push(f);
                },
                None => {
                    proof {
                        assert(field_spec(xs@[i as int]@) is None);
                    }
                    return None;
                },
            }
            i = i + 1;
        }
        proof {
            assert forall|k: int| 0 <= k < xs@.len() implies #[trigger] field_spec(xs@[k]@) is Some by {
                assert(field_spec(xs@[k]@) == Some(field_view(fields@[k])));
            }
        }
        Some(
            ScopeState {
                constraint: copy_constraint(constraint),
                selector,
                fields,
                depth,
                selected: Vec::new(),
                seen: Vec::new(),
            },
        )
    }

    /// Whether this constraint consumes key tables (keyref) rather than
    /// filling them (key / unique).
    pub fn is_keyref(&self) -> (r: bool)
        ensures
            r == (self.constraint.constraint_type == CompiledConstraintType::KeyRef),
    {
        self.constraint.constraint_type == CompiledConstraintType::KeyRef
    }
}

} // verus!
