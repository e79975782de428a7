//! The compiled schema model that the validators check documents against.
use vstd::prelude::*;

use crate::namemap::NameMap;
use std::sync::Arc;
use crate::text::str_eq;

verus! {

/// How the children of a complex type are arranged.
#[derive(Debug, Clone, Copy, PartialEq, Eq, Structural)]
pub enum ContentModelType {
    /// Children in declared order.
    Sequence,
    /// Exactly one of the alternatives.
    Choice,
    /// Each child at most once, in any order.
    All,
    /// No element children.
    Empty,
}

/// Processing mode of a wildcard.
#[derive(Debug, Clone, Copy, PartialEq, Eq, Structural)]
pub enum ProcessContents {
    /// Matched content must be declared and valid.
    Strict,
    /// Matched content is validated when a declaration exists.
    Lax,
    /// Matched content is not validated.
    Skip,
}

/// The namespaces a wildcard admits.
#[derive(Debug, Clone)]
pub enum WildcardNamespace {
    /// `##any`
    Any,
    /// `##other`: any namespace other than the target namespace (and not
    /// the absent namespace).
    Other,
    /// `##local`: the absent namespace.
    Local,
    /// `##targetNamespace`
    TargetNamespace,
    /// An explicit list; `None` stands for the absent namespace.
    List(Vec<Option<String>>),
}

/// An `xs:any` / `xs:anyAttribute` wildcard.
#[derive(Debug, Clone)]
pub struct WildcardConstraint {
    /// Admitted namespaces.
    pub namespace: WildcardNamespace,
    /// Processing mode.
    pub process_contents: ProcessContents,
    /// Minimum number of matched elements.
    pub min_occurs: u32,
    /// Maximum number of matched elements (`None` = unbounded).
    pub max_occurs: Option<u32>,
    /// The schema's target namespace.
    pub target_namespace: Option<String>,
}

/// Two optional namespace names are equal.
pub open spec fn ns_eq(a: Option<Seq<char>>, b: Option<String>) -> bool {
    match (a, b) {
        (None, None) => true,
        (Some(x), Some(y)) => x == y@,
        _ => false,
    }
}

/// Whether a wildcard admits an element or attribute in namespace `ns`.
pub open spec fn wildcard_admits(w: WildcardConstraint, ns: Option<Seq<char>>) -> bool {
    match w.namespace {
        WildcardNamespace::Any => true,
        WildcardNamespace::Other => ns is Some && !ns_eq(ns, w.target_namespace),
        WildcardNamespace::Local => ns is None,
        WildcardNamespace::TargetNamespace => ns_eq(ns, w.target_namespace),
        WildcardNamespace::List(l) => exists|i: int|
            0 <= i < l@.len() && #[trigger] list_item_admits(l@[i], ns),
    }
}

/// Whether one entry of a wildcard's namespace list admits `ns`.
pub open spec fn list_item_admits(item: Option<String>, ns: Option<Seq<char>>) -> bool {
    match item {
        None => ns is None,
        Some(u) => ns == Some(u@),
    }
}

/// The view of an optional string slice.
pub open spec fn opt_view(s: Option<&str>) -> Option<Seq<char>> {
    match s {
        Some(x) => Some(x@),
        None => None,
    }
}

/// Compares an optional string slice with an optional string.
fn opt_str_eq(a: Option<&str>, b: &Option<String>) -> (r: bool)
    ensures
        r == ns_eq(opt_view(a), *b),
{
    match (a, b) {
        (None, None) => true,
        (Some(x), Some(y)) => str_eq(x, y.as_str()),
        _ => false,
    }
}

/// Whether some entry of a namespace list admits `ns`.
fn list_admits(l: &Vec<Option<String>>, ns: Option<&str>) -> (r: bool)
    ensures
        r == exists|i: int| 0 <= i < l@.len() && #[trigger] list_item_admits(l@[i], opt_view(ns)),
{
    let mut i: usize = 0;
    while i < l.len()
        invariant
            i <= l@.len(),
            forall|j: int| 0 <= j < i ==> !#[trigger] list_item_admits(l@[j], opt_view(ns)),
        decreases l@.len() - i,
    {
        let hit = match &l[i] {
            None => ns.is_none(),
            Some(u) => match ns {
                Some(x) => str_eq(x, u.as_str()),
                None => false,
            },
        };
        if hit {
            assert(list_item_admits(l@[i as int], opt_view(ns)));
            return true;
        }
        i = i + 1;
    }
    false
}

impl WildcardConstraint {
    /// Whether this wildcard admits namespace `ns` (`None` = no namespace).
    pub fn matches(&self, ns: Option<&str>) -> (r: bool)
        ensures
            r == wildcard_admits(*self, opt_view(ns)),
    {
        match &self.namespace {
            WildcardNamespace::Any => true,
            WildcardNamespace::Other => ns.is_some() && !opt_str_eq(ns, &self.target_namespace),
            WildcardNamespace::Local => ns.is_none(),
            WildcardNamespace::TargetNamespace => opt_str_eq(ns, &self.target_namespace),
            WildcardNamespace::List(l) => list_admits(l, ns),
        }
    }
}

/// How a type is derived from its base.
#[derive(Debug, Clone, Copy, PartialEq, Eq, Structural)]
pub enum DerivationMethod {
    /// By extension.
    Extension,
    /// By restriction.
    Restriction,
}

/// The derivation methods a type's `block` attribute forbids.
#[derive(Debug, Clone, Copy, PartialEq, Eq, Structural)]
pub struct BlockSet {
    /// `extension` is blocked.
    pub extension: bool,
    /// `restriction` is blocked.
    pub restriction: bool,
}

impl BlockSet {
    /// Whether `method` is blocked.
    pub fn blocks(self, method: DerivationMethod) -> (r: bool)
        ensures
            r == match method {
                DerivationMethod::Extension => self.extension,
                DerivationMethod::Restriction => self.restriction,
            },
    {
        match method {
            DerivationMethod::Extension => self.extension,
            DerivationMethod::Restriction => self.restriction,
        }
    }
}

/// A simple type definition with the facets the validators check.
#[derive(Debug, Clone)]
pub struct SimpleType {
    /// Type name.
    pub name: String,
    /// Base type name.
    pub base_type: Option<String>,
    /// Namespace of the base type, when resolved at compile time.
    pub base_ns: Option<String>,
    /// `minLength`
    pub min_length: Option<u32>,
    /// `maxLength`
    pub max_length: Option<u32>,
    /// `minInclusive`
    pub min_inclusive: Option<String>,
    /// `maxInclusive`
    pub max_inclusive: Option<String>,
    /// `enumeration` values
    pub enumeration: Vec<String>,
    /// `pattern`
    pub pattern: Option<String>,
}

impl SimpleType {
    /// A simple type restricting `base` with no facets.
    pub fn new(name: &str, base: &str) -> (t: SimpleType)
        ensures
            t.name@ == name@,
            t.base_type matches Some(b) && b@ == base@,
            t.base_ns is None,
            t.min_length is None,
            t.max_length is None,
            t.min_inclusive is None,
            t.max_inclusive is None,
            t.enumeration@.len() == 0,
            t.pattern is None,
    {
        SimpleType {
            name: String::from_str(name),
            base_type: Some(String::from_str(base)),
            base_ns: None,
            min_length: None,
            max_length: None,
            min_inclusive: None,
            max_inclusive: None,
            enumeration: Vec::new(),
            pattern: None,
        }
    }
}

/// An attribute declaration.
#[derive(Debug, Clone)]
pub struct AttributeDef {
    /// Attribute name.
    pub name: String,
    /// Named type.
    pub type_ref: Option<String>,
    /// Anonymous type.
    pub inline_type: Option<SimpleType>,
    /// `use="required"`
    pub required: bool,
    /// `fixed` value.
    pub fixed: Option<String>,
    /// Whether this is a `ref` to a global attribute declaration.
    pub is_ref: bool,
}

/// A complex type's content model.
#[derive(Debug)]
pub enum ContentModel {
    /// No children.
    Empty,
    /// `xs:sequence`
    Sequence(Vec<ElementDef>),
    /// `xs:choice`
    Choice(Vec<ElementDef>),
    /// `xs:all`
    All(Vec<ElementDef>),
    /// `xs:complexContent/xs:extension`
    ComplexExtension {
        /// Name of the extended type.
        base_type: String,
        /// Elements added by the extension.
        elements: Vec<ElementDef>,
    },
    /// `xs:simpleContent`
    SimpleContent {
        /// Name of the simple base type.
        base_type: String,
    },
    /// A content model made of a single wildcard.
    Any {
        /// The wildcard.
        wildcard: WildcardConstraint,
    },
}

/// A complex type definition.
#[derive(Debug)]
pub struct ComplexType {
    /// Type name.
    pub name: String,
    /// Base type name.
    pub base_type: Option<String>,
    /// Content model.
    pub content: ContentModel,
    /// Attribute declarations.
    pub attributes: Vec<AttributeDef>,
    /// `abstract="true"`
    pub is_abstract: bool,
    /// `mixed="true"`
    pub mixed: bool,
    /// Attribute wildcard.
    pub attr_wildcard: Option<WildcardConstraint>,
    /// How the type derives from its base.
    pub derivation: Option<DerivationMethod>,
    /// Namespace of the base type, when resolved at compile time.
    pub base_ns: Option<String>,
    /// Blocked derivation methods.
    pub block: BlockSet,
}

impl ComplexType {
    /// An empty complex type with the given name.
    pub fn new(name: &str) -> (t: ComplexType)
        ensures
            t.name@ == name@,
            t.base_type is None,
            t.content is Empty,
            t.attributes@.len() == 0,
            !t.is_abstract,
            !t.mixed,
            t.attr_wildcard is None,
            t.derivation is None,
            t.base_ns is None,
            t.block == (BlockSet { extension: false, restriction: false }),
    {
        ComplexType {
            name: String::from_str(name),
            base_type: None,
            content: ContentModel::Empty,
            attributes: Vec::new(),
            is_abstract: false,
            mixed: false,
            attr_wildcard: None,
            derivation: None,
            base_ns: None,
            block: BlockSet { extension: false, restriction: false },
        }
    }
}

/// A type definition.
#[derive(Debug)]
pub enum TypeDef {
    /// A simple type.
    Simple(SimpleType),
    /// A complex type.
    Complex(ComplexType),
}

/// Kind of an identity constraint.
#[derive(Debug, Clone, Copy, PartialEq, Eq, Structural)]
pub enum CompiledConstraintType {
    /// `xs:unique`
    Unique,
    /// `xs:key`
    Key,
    /// `xs:keyref`
    KeyRef,
}

/// An identity constraint declared on an element.
#[derive(Debug, Clone)]
pub struct CompiledConstraint {
    /// Constraint name.
    pub name: String,
    /// Kind.
    pub constraint_type: CompiledConstraintType,
    /// Selector XPath.
    pub selector_xpath: String,
    /// Field XPaths.
    pub field_xpaths: Vec<String>,
    /// Referenced key (for keyrefs).
    pub refer: Option<String>,
}

/// An element declaration.
#[derive(Debug)]
pub struct ElementDef {
    /// Element name.
    pub name: String,
    /// Named type.
    pub type_ref: Option<String>,
    /// Anonymous type.
    pub inline_type: Option<Box<TypeDef>>,
    /// `minOccurs`
    pub min_occurs: u32,
    /// `maxOccurs` (`None` = unbounded)
    pub max_occurs: Option<u32>,
    /// `abstract="true"`
    pub is_abstract: bool,
    /// `nillable="true"`
    pub nillable: bool,
    /// Head of the substitution group this element belongs to.
    pub substitution_group: Option<String>,
    /// Identity constraints declared on the element.
    pub constraints: Vec<CompiledConstraint>,
}

impl ElementDef {
    /// A declaration with the given name, no type, and occurrence 1..1.
    pub fn new(name: &str) -> (e: ElementDef)
        ensures
            e.name@ == name@,
            e.type_ref is None,
            e.inline_type is None,
            e.min_occurs == 1,
            e.max_occurs == Some(1u32),
            !e.is_abstract,
            !e.nillable,
            e.substitution_group is None,
            e.constraints@.len() == 0,
    {
        ElementDef {
            name: String::from_str(name),
            type_ref: None,
            inline_type: None,
            min_occurs: 1,
            max_occurs: Some(1),
            is_abstract: false,
            nillable: false,
            substitution_group: None,
            constraints: Vec::new(),
        }
    }

    /// Sets the named type.
    pub fn with_type(self, type_ref: &str) -> (e: ElementDef)
        ensures
            e.type_ref matches Some(t) && t@ == type_ref@,
            e.name == self.name,
            e.inline_type == self.inline_type,
            e.min_occurs == self.min_occurs,
            e.max_occurs == self.max_occurs,
            e.is_abstract == self.is_abstract,
            e.nillable == self.nillable,
            e.substitution_group == self.substitution_group,
            e.constraints == self.constraints,
    {
        ElementDef { type_ref: Some(String::from_str(type_ref)), ..self }
    }

    /// Sets the occurrence bounds.
    pub fn with_occurs(self, min: u32, max: Option<u32>) -> (e: ElementDef)
        ensures
            e == (ElementDef { min_occurs: min, max_occurs: max, ..self }),
    {
        ElementDef { min_occurs: min, max_occurs: max, ..self }
    }

    /// Makes the element optional (`minOccurs="0"`).
    pub fn optional(self) -> (e: ElementDef)
        ensures
            e == (ElementDef { min_occurs: 0, ..self }),
    {
        ElementDef { min_occurs: 0, ..self }
    }
}

/// The children a complex type allows, flattened through its derivation
/// chain.
#[derive(Debug, Clone)]
pub struct FlattenedChildren {
    /// Content model kind.
    pub content_model_type: ContentModelType,
    /// Occurrence bounds per child name.
    pub constraints: NameMap<(u32, Option<u32>)>,
    /// Child names in declared order.
    pub ordered_elements: Vec<String>,
    /// Element wildcard admitting otherwise-undeclared children.
    pub wildcard: Option<WildcardConstraint>,
}

impl FlattenedChildren {
    /// No children, with the given content model kind.
    pub fn with_content_model(t: ContentModelType) -> (f: FlattenedChildren)
        ensures
            f.content_model_type == t,
            f.constraints.entries@.len() == 0,
            f.ordered_elements@.len() == 0,
            f.wildcard is None,
    {
        FlattenedChildren {
            content_model_type: t,
            constraints: NameMap::new(),
            ordered_elements: Vec::new(),
            wildcard: None,
        }
    }
}

/// A compiled schema: global declarations plus derived lookup tables.
pub struct CompiledSchema {
    /// Global element declarations.
    pub elements: NameMap<ElementDef>,
    /// Type definitions.
    pub types: NameMap<TypeDef>,
    /// Global attribute declarations.
    pub attributes: NameMap<AttributeDef>,
    /// Direct substitution group members per head.
    pub substitution_groups: NameMap<Vec<String>>,
    /// Substitution group head per member.
    pub substitution_group_heads: NameMap<String>,
    /// All (transitive) substitution group members per head.
    pub transitive_substitution_groups: NameMap<Vec<String>>,
    /// Pre-computed flattened children per type name.
    pub type_children_cache: NameMap<Arc<FlattenedChildren>>,
    /// Namespace-qualified type index: (namespace, local name, type key).
    pub type_namespaces: Vec<(String, String, String)>,
}

impl CompiledSchema {
    /// An empty schema.
    pub fn new() -> (s: CompiledSchema)
        ensures
            s.elements.entries@.len() == 0,
            s.types.entries@.len() == 0,
            s.attributes.entries@.len() == 0,
            s.substitution_groups.entries@.len() == 0,
            s.substitution_group_heads.entries@.len() == 0,
            s.transitive_substitution_groups.entries@.len() == 0,
            s.type_children_cache.entries@.len() == 0,
            s.type_namespaces@.len() == 0,
    {
        CompiledSchema {
            elements: NameMap::new(),
            types: NameMap::new(),
            attributes: NameMap::new(),
            substitution_groups: NameMap::new(),
            substitution_group_heads: NameMap::new(),
            transitive_substitution_groups: NameMap::new(),
            type_children_cache: NameMap::new(),
            type_namespaces: Vec::new(),
        }
    }

    /// The global element declared under `name`.
    pub fn get_element(&self, name: &str) -> (r: Option<&ElementDef>)
        ensures
            match r {
                Some(e) => self.elements.lookup(name@) == Some(*e),
                None => self.elements.lookup(name@) is None,
            },
    {
        self.elements.get(name)
    }

    /// The type defined under `name`.
    pub fn get_type(&self, name: &str) -> (r: Option<&TypeDef>)
        ensures
            match r {
                Some(t) => self.types.lookup(name@) == Some(*t),
                None => self.types.lookup(name@) is None,
            },
    {
        self.types.get(name)
    }
}

} // verus!
