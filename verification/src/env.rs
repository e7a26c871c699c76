//! The lexical environment: a persistent mapping from identifier to
//! stack-slot offset, backed by `im`'s hash-array-mapped-trie map.
//!
//! Extending an environment produces a new one that shares structure
//! with, but never mutates, the parent; the additions of a child scope
//! are invisible to the parent and to sibling scopes.

use vstd::prelude::*;

verus! {

#[verifier::external_type_specification]
#[verifier::external_body]
#[verifier::reject_recursive_types(K)]
#[verifier::reject_recursive_types(V)]
#[verifier::reject_recursive_types(S)]
pub struct ExImHashMap<K, V, S>(im::HashMap<K, V, S>);

#[verifier::external_type_specification]
#[verifier::external_body]
#[verifier::reject_recursive_types(A)]
#[verifier::reject_recursive_types(S)]
pub struct ExImHashSet<A, S>(im::HashSet<A, S>);

/// The model of an environment that maps no name.
pub open spec fn empty_env_model() -> Map<Seq<char>, i32> {
    Map::empty()
}

/// The contents of an `im` map from identifiers to slots.
pub uninterp spec fn im_map_model(m: im::HashMap<String, i32>) -> Map<Seq<char>, i32>;

/// The contents of an `im` set of identifiers.
pub uninterp spec fn im_set_model(s: im::HashSet<String>) -> Set<Seq<char>>;

/// Relies on `im::HashMap::new`: constructs an empty map.
#[verifier::external_body]
fn im_map_new() -> (r: im::HashMap<String, i32>)
    ensures
        im_map_model(r) == empty_env_model(),
{
    im::HashMap::new()
}

/// Relies on `im::HashMap::get`: returns the value the key is mapped
/// to, or `None` when the key is absent.
#[verifier::external_body]
fn im_map_get(m: &im::HashMap<String, i32>, k: &String) -> (r: Option<i32>)
    ensures
        r == if im_map_model(*m).dom().contains(k@) {
            Some(im_map_model(*m)[k@])
        } else {
            None::<i32>
        },
{
    m.get(k).copied()
}

/// Relies on `im::HashMap::update`: returns a copy of the map with one
/// binding added or replaced; the original map is left untouched.
#[verifier::external_body]
fn im_map_update(m: &im::HashMap<String, i32>, k: String, v: i32) -> (r: im::HashMap<String, i32>)
    ensures
        im_map_model(r) == im_map_model(*m).insert(k@, v),
{
    m.update(k, v)
}

/// Relies on `im::HashMap::clone`: an O(1) copy with equal contents,
/// sharing structure with the original.
#[verifier::external_body]
fn im_map_clone(m: &im::HashMap<String, i32>) -> (r: im::HashMap<String, i32>)
    ensures
        im_map_model(r) == im_map_model(*m),
{
    m.clone()
}

/// Relies on `im::HashSet::new`: constructs an empty set.
#[verifier::external_body]
pub(crate) fn im_set_new() -> (r: im::HashSet<String>)
    ensures
        im_set_model(r) == Set::<Seq<char>>::empty(),
{
    im::HashSet::new()
}

/// Relies on `im::HashSet::contains`: membership test.
#[verifier::external_body]
pub(crate) fn im_set_contains(s: &im::HashSet<String>, k: &String) -> (r: bool)
    ensures
        r == im_set_model(*s).contains(k@),
{
    s.contains(k)
}

/// Relies on `im::HashSet::insert`: adds the element; returns the equal
/// element it replaced, if one was present.
#[verifier::external_body]
pub(crate) fn im_set_insert(s: &mut im::HashSet<String>, k: String) -> (r: Option<String>)
    ensures
        im_set_model(*final(s)) == im_set_model(*old(s)).insert(k@),
        r is Some <==> im_set_model(*old(s)).contains(k@),
{
    s.insert(k)
}

/// A lexical environment mapping identifier names to stack slots.
pub struct Env {
    map: im::HashMap<String, i32>,
}

impl View for Env {
    type V = Map<Seq<char>, i32>;

    closed spec fn view(&self) -> Map<Seq<char>, i32> {
        im_map_model(self.map)
    }
}

impl Env {
    /// The empty environment, mapping no name.
    pub fn empty() -> (r: Env)
        ensures
            r@ == empty_env_model(),
    {
        Env { map: im_map_new() }
    }

    /// The slot a name resolves to, or `None` when the name is unbound.
    pub fn lookup(&self, name: &String) -> (r: Option<i32>)
        ensures
            r == if self@.dom().contains(name@) {
                Some(self@[name@])
            } else {
                None::<i32>
            },
    {
        im_map_get(&self.map, name)
    }

    /// A new environment that also maps `name` to `slot`; `self` is
    /// unchanged, and an earlier binding of the same name is shadowed.
    pub fn extended(&self, name: String, slot: i32) -> (r: Env)
        ensures
            r@ == self@.insert(name@, slot),
    {
        Env { map: im_map_update(&self.map, name, slot) }
    }

    /// A copy with equal contents, sharing structure with `self`.
    pub fn duplicate(&self) -> (r: Env)
        ensures
            r@ == self@,
    {
        Env { map: im_map_clone(&self.map) }
    }
}

} // verus!
