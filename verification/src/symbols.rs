//! Interned symbol table: each distinct name is interned once into a dense
//! [`SymbolId`], so names can afterwards be compared as integers. One table
//! holds qualified names (`gml:Point`) and bare local names (`Point`); a
//! prefixed name's record links to its local name's symbol, which is
//! interned eagerly.
use rustc_hash::{FxBuildHasher, FxHashMap};
use std::sync::Arc;
use vstd::prelude::*;

use crate::text::{after_first_colon, before_first_colon, has_colon, split_first_colon};

verus! {

/// The Fx hash builder (the hasher of `FxHashMap`).
#[verifier::external_type_specification]
#[verifier::external_body]
pub struct ExFxBuildHasher(FxBuildHasher);

/// The names an `FxHashMap` from names to symbols maps, with their symbol
/// numbers.
pub uninterp spec fn name_entries(m: FxHashMap<Box<str>, SymbolId>) -> Map<Seq<char>, u32>;

/// The `(namespace, local)` symbol pairs an `FxHashMap` maps, with their
/// symbol numbers.
pub uninterp spec fn pair_entries(m: FxHashMap<(u32, u32), SymbolId>) -> Map<(u32, u32), u32>;

/// An empty name map (`FxHashMap::default`).
#[verifier::external_body]
fn new_name_map() -> (m: FxHashMap<Box<str>, SymbolId>)
    ensures
        (name_entries(m) == Map::<Seq<char>, u32>::empty()),
{
    FxHashMap::default()
}

/// An empty pair map (`FxHashMap::default`).
#[verifier::external_body]
fn new_pair_map() -> (m: FxHashMap<(u32, u32), SymbolId>)
    ensures
        (pair_entries(m) == Map::<(u32, u32), u32>::empty()),
{
    FxHashMap::default()
}

/// The symbol stored under a name (`HashMap::get`).
#[verifier::external_body]
fn get_name(m: &FxHashMap<Box<str>, SymbolId>, s: &str) -> (r: Option<SymbolId>)
    ensures
        match r {
            Some(id) => name_entries(*m).contains_key(s@) && name_entries(*m)[s@] == id.0,
            None => !name_entries(*m).contains_key(s@),
        },
{
    m.get(s).copied()
}

/// Stores a symbol under a name (`HashMap::insert`).
#[verifier::external_body]
fn insert_name(m: &mut FxHashMap<Box<str>, SymbolId>, s: &str, id: SymbolId)
    ensures
        name_entries(*final(m)) == name_entries(*old(m)).insert(s@, id.0),
{
    m.insert(Box::from(s), id);
}

/// The symbol stored under a pair (`HashMap::get`).
#[verifier::external_body]
fn get_pair(m: &FxHashMap<(u32, u32), SymbolId>, k: (u32, u32)) -> (r: Option<SymbolId>)
    ensures
        match r {
            Some(id) => pair_entries(*m).contains_key(k) && pair_entries(*m)[k] == id.0,
            None => !pair_entries(*m).contains_key(k),
        },
{
    m.get(&k).copied()
}

/// Stores a symbol under a pair (`HashMap::insert`).
#[verifier::external_body]
fn insert_pair(m: &mut FxHashMap<(u32, u32), SymbolId>, k: (u32, u32), id: SymbolId)
    ensures
        pair_entries(*final(m)) == pair_entries(*old(m)).insert(k, id.0),
{
    m.insert(k, id);
}

/// A dense, comparable handle for an interned name.
#[derive(Clone, Copy, PartialEq, Eq, Structural, Hash, Debug, PartialOrd, Ord)]
pub struct SymbolId(pub u32);

/// The interned data for one symbol.
pub struct SymRecord {
    /// The name text, shared with callers that need a string.
    pub text: Arc<String>,
    /// The symbol of the name's local part (the symbol itself for a bare
    /// name).
    pub local: SymbolId,
    /// Whether the name carried a namespace prefix (`prefix:local`).
    pub has_prefix: bool,
}

/// The prefix and local part of a qualified name, split at its first `:`,
/// when both are non-empty.
pub open spec fn qname_parts(s: Seq<char>) -> Option<(Seq<char>, Seq<char>)> {
    if has_colon(s) && before_first_colon(s).len() > 0 && after_first_colon(s).len() > 0 {
        Some((before_first_colon(s), after_first_colon(s)))
    } else {
        None
    }
}

/// Interns names into [`SymbolId`]s.
pub struct SymbolTable {
    map: FxHashMap<Box<str>, SymbolId>,
    records: Vec<SymRecord>,
    pairs: FxHashMap<(u32, u32), SymbolId>,
}

impl SymbolTable {
    /// The interned names and their symbol numbers.
    pub closed spec fn names(&self) -> Map<Seq<char>, u32> {
        name_entries(self.map)
    }

    /// The interned pairs and their symbol numbers.
    pub closed spec fn pair_map(&self) -> Map<(u32, u32), u32> {
        pair_entries(self.pairs)
    }

    /// The records, by symbol number.
    pub closed spec fn recs(&self) -> Seq<SymRecord> {
        self.records@
    }

    /// The table is consistent: every interned name's record holds the
    /// name, says whether it is prefixed, and links to its local part's
    /// symbol (itself when bare); every pair's record links to the pair's
    /// local symbol.
    pub open spec fn wf(&self) -> bool {
        &&& self.recs().len() <= u32::MAX
        &&& forall|k: Seq<char>| #[trigger]
            self.names().contains_key(k) ==> {
                let id = self.names()[k] as int;
                &&& 0 <= id < self.recs().len()
                &&& self.recs()[id].text@ == k
                &&& self.recs()[id].has_prefix == qname_parts(k) is Some
                &&& match qname_parts(k) {
                    Some((_, l)) => self.names().contains_key(l) && self.recs()[id].local.0
                        == self.names()[l],
                    None => self.recs()[id].local.0 == id,
                }
            }
        &&& forall|p: (u32, u32)| #[trigger]
            self.pair_map().contains_key(p) ==> {
                let id = self.pair_map()[p] as int;
                &&& 0 <= id < self.recs().len()
                &&& self.recs()[id].local.0 == p.1
                &&& !self.recs()[id].has_prefix
            }
    }

    /// An empty table.
    pub fn new() -> (t: SymbolTable)
        ensures
            t.wf(),
            t.names() == Map::<Seq<char>, u32>::empty(),
            t.pair_map() == Map::<(u32, u32), u32>::empty(),
            t.recs().len() == 0,
    {
        SymbolTable { map: new_name_map(), records: Vec::new(), pairs: new_pair_map() }
    }

    /// Interns `s`, returning its symbol. Idempotent: the same string always
    /// maps to the same symbol. A prefixed name eagerly interns its local
    /// part.
    pub fn intern(&mut self, s: &str) -> (r: SymbolId)
        requires
            old(self).wf(),
            old(self).recs().len() + s@.len() + 1 <= u32::MAX,
        ensures
            final(self).wf(),
            final(self).names().contains_key(s@),
            final(self).names()[s@] == r.0,
            old(self).names().contains_key(s@) ==> r.0 == old(self).names()[s@] && *final(self)
                == *old(self),
            forall|k: Seq<char>| #[trigger]
                old(self).names().contains_key(k) ==> final(self).names().contains_key(k)
                    && final(self).names()[k] == old(self).names()[k],
            forall|k: Seq<char>| #[trigger]
                final(self).names().contains_key(k) && !old(self).names().contains_key(k)
                    ==> k.len() <= s@.len(),
            final(self).pair_map() == old(self).pair_map(),
            old(self).recs().len() <= final(self).recs().len() <= old(self).recs().len()
                + s@.len() + 1,
            forall|i: int| #![trigger final(self).recs()[i]]
                0 <= i < old(self).recs().len() ==> final(self).recs()[i] == old(self).recs()[i],
        decreases s@.len(),
    {
        if let Some(id) = get_name(&self.map, s) {
            return id;
        }
        let ghost old_self = *self;
        let local_sym: Option<SymbolId> = match split_first_colon(s) {
            Some((p, l)) => {
                if p.unicode_len() > 0 && l.unicode_len() > 0 {
                    Some(self.intern(l.as_str()))
                } else {
                    None
                }
            },
            None => None,
        };
        proof {
            assert(!self.names().contains_key(s@));
        }
        let n = self.records.len();
        let id = SymbolId(n as u32);
        let (local, has_prefix) = match local_sym {
            Some(l) => (l, true),
            None => (id, false),
        };
        let text = Arc::new(String::from_str(s));
        let ghost mid = *self;
        self.records.push(SymRecord { text, local, has_prefix });
        insert_name(&mut self.map, s, id);
        proof {
            let f = *self;
            assert forall|k: Seq<char>| #[trigger] f.names().contains_key(k) implies {
                let i = f.names()[k] as int;
                &&& 0 <= i < f.recs().len()
                &&& f.recs()[i].text@ == k
                &&& f.recs()[i].has_prefix == qname_parts(k) is Some
                &&& match qname_parts(k) {
                    Some((_, l)) => f.names().contains_key(l) && f.recs()[i].local.0
                        == f.names()[l],
                    None => f.recs()[i].local.0 == i,
                }
            } by {
                if k != s@ {
                    assert(mid.names().contains_key(k));
                    let i = mid.names()[k] as int;
                    assert(f.recs()[i] == mid.recs()[i]);
                    match qname_parts(k) {
                        Some((_, l)) => {
                            assert(mid.names().contains_key(l));
                            if l == s@ {
                                assert(false);
                            }
                        },
                        None => {},
                    }
                }
            }
            assert forall|q: (u32, u32)| #[trigger] f.pair_map().contains_key(q) implies {
                let i = f.pair_map()[q] as int;
                &&& 0 <= i < f.recs().len()
                &&& f.recs()[i].local.0 == q.1
                &&& !f.recs()[i].has_prefix
            } by {
                let i = mid.pair_map()[q] as int;
                assert(f.recs()[i] == mid.recs()[i]);
            }
        }
        id
    }

    /// Interns the `(namespace, local)` symbol pair into one dense symbol,
    /// idempotently.
    pub fn intern_pair(&mut self, ns: SymbolId, local: SymbolId) -> (r: SymbolId)
        requires
            old(self).wf(),
            local.0 < old(self).recs().len(),
            old(self).recs().len() < u32::MAX,
        ensures
            final(self).wf(),
            final(self).pair_map().contains_key((ns.0, local.0)),
            final(self).pair_map()[(ns.0, local.0)] == r.0,
            old(self).pair_map().contains_key((ns.0, local.0)) ==> r.0 == old(self).pair_map()[(
                ns.0,
                local.0,
            )] && *final(self) == *old(self),
            final(self).names() == old(self).names(),
            forall|p: (u32, u32)| #[trigger]
                old(self).pair_map().contains_key(p) ==> final(self).pair_map().contains_key(p)
                    && final(self).pair_map()[p] == old(self).pair_map()[p],
            old(self).recs().len() <= final(self).recs().len() <= old(self).recs().len() + 1,
            forall|i: int| #![trigger final(self).recs()[i]]
                0 <= i < old(self).recs().len() ==> final(self).recs()[i] == old(self).recs()[i],
    {
        if let Some(id) = get_pair(&self.pairs, (ns.0, local.0)) {
            return id;
        }
        let n = self.records.len();
        let id = SymbolId(n as u32);
        let text = self.records[local.0 as usize].text.clone();
        let ghost mid = *self;
        self.records.push(SymRecord { text, local, has_prefix: false });
        insert_pair(&mut self.pairs, (ns.0, local.0), id);
        proof {
            let f = *self;
            assert forall|k: Seq<char>| #[trigger] f.names().contains_key(k) implies {
                let i = f.names()[k] as int;
                &&& 0 <= i < f.recs().len()
                &&& f.recs()[i].text@ == k
                &&& f.recs()[i].has_prefix == qname_parts(k) is Some
                &&& match qname_parts(k) {
                    Some((_, l)) => f.names().contains_key(l) && f.recs()[i].local.0
                        == f.names()[l],
                    None => f.recs()[i].local.0 == i,
                }
            } by {
                let i = mid.names()[k] as int;
                assert(f.recs()[i] == mid.recs()[i]);
            }
            assert forall|q: (u32, u32)| #[trigger] f.pair_map().contains_key(q) implies {
                let i = f.pair_map()[q] as int;
                &&& 0 <= i < f.recs().len()
                &&& f.recs()[i].local.0 == q.1
                &&& !f.recs()[i].has_prefix
            } by {
                if q != (ns.0, local.0) {
                    let i = mid.pair_map()[q] as int;
                    assert(f.recs()[i] == mid.recs()[i]);
                }
            }
        }
        id
    }

    /// The shared text of a symbol.
    pub fn arc(&self, id: SymbolId) -> (r: &Arc<String>)
        requires
            id.0 < self.recs().len(),
        ensures
            *r == self.recs()[id.0 as int].text,
    {
        &self.records[id.0 as usize].text
    }

    /// The record of a symbol.
    pub fn record(&self, id: SymbolId) -> (r: &SymRecord)
        requires
            id.0 < self.recs().len(),
        ensures
            *r == self.recs()[id.0 as int],
    {
        &self.records[id.0 as usize]
    }

    /// The local-name symbol of a symbol.
    pub fn local(&self, id: SymbolId) -> (r: SymbolId)
        requires
            id.0 < self.recs().len(),
        ensures
            r == self.recs()[id.0 as int].local,
    {
        self.records[id.0 as usize].local
    }

    /// Whether a symbol's name carried a namespace prefix.
    pub fn has_prefix(&self, id: SymbolId) -> (r: bool)
        requires
            id.0 < self.recs().len(),
        ensures
            r == self.recs()[id.0 as int].has_prefix,
    {
        self.records[id.0 as usize].has_prefix
    }

    /// Number of interned symbols.
    pub fn len(&self) -> (r: usize)
        ensures
            r == self.recs().len(),
    {
        self.records.len()
    }
}

impl Default for SymbolTable {
    /// An empty table.
    fn default() -> (t: Self)
        ensures
            t.wf(),
            t.names() == Map::<Seq<char>, u32>::empty(),
            t.pair_map() == Map::<(u32, u32), u32>::empty(),
            t.recs().len() == 0,
    {
        SymbolTable::new()
    }
}

/// A prefixed name's symbol links to its local name's symbol; a bare name's
/// symbol is its own local symbol; and the record holds the name.
pub proof fn law_symbol_links(t: SymbolTable, k: Seq<char>)
    requires
        t.wf(),
        t.names().contains_key(k),
    ensures
        ({
            let r = t.recs()[t.names()[k] as int];
            &&& r.text@ == k
            &&& match qname_parts(k) {
                Some((_, l)) => t.names().contains_key(l) && r.local.0 == t.names()[l]
                    && r.has_prefix,
                None => r.local.0 == t.names()[k] && !r.has_prefix,
            }
        }),
{
}

} // verus!
