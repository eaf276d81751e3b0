use vstd::prelude::*;
use fnv::FnvHashMap;
use fnv::FnvHasher;
use std::hash::BuildHasherDefault;
use crate::mem::gc_ref::GcRef;

verus! {

#[verifier::external_type_specification]
#[verifier::external_body]
pub struct ExFnvHasher(FnvHasher);

#[verifier::external_type_specification]
#[verifier::external_body]
#[verifier::reject_recursive_types(H)]
pub struct ExBuildHasherDefault<H>(BuildHasherDefault<H>);

/// `FnvHashMap::default`: a map without entries.
#[verifier::external_body]
fn fnv_new<V>() -> (map: FnvHashMap<usize, V>)
    ensures
        map@.dom() =~= Set::empty(),
{
    FnvHashMap::default()
}

/// `HashMap::get` on an `FnvHashMap`: the value stored under `key`, if any.
#[verifier::external_body]
fn fnv_get<V: Copy>(map: &FnvHashMap<usize, V>, key: usize) -> (found: Option<V>)
    ensures
        found == (if map@.contains_key(key) {
            Some(map@[key])
        } else {
            None::<V>
        }),
{
    map.get(&key).copied()
}

/// `HashMap::insert` on an `FnvHashMap`: stores `value` under `key` and
/// hands back what was stored there before.
#[verifier::external_body]
fn fnv_insert<V>(map: &mut FnvHashMap<usize, V>, key: usize, value: V) -> (before: Option<V>)
    ensures
        final(map)@ == old(map)@.insert(key, value),
        before == (if old(map)@.contains_key(key) {
            Some(old(map)@[key])
        } else {
            None::<V>
        }),
{
    map.insert(key, value)
}

/// `HashMap::remove` on an `FnvHashMap`: drops the entry under `key` and
/// hands back its value.
#[verifier::external_body]
fn fnv_remove<V>(map: &mut FnvHashMap<usize, V>, key: usize) -> (before: Option<V>)
    ensures
        final(map)@ == old(map)@.remove(key),
        before == (if old(map)@.contains_key(key) {
            Some(old(map)@[key])
        } else {
            None::<V>
        }),
{
    map.remove(&key)
}

/// `HashMap::iter` on an `FnvHashMap`, collected: every entry once, in the
/// order the map is walked in, of which nothing is said.
#[verifier::external_body]
fn fnv_entries<V: Copy>(map: &FnvHashMap<usize, V>) -> (entries: Vec<(usize, V)>)
    ensures
        forall|i: int|
            0 <= i < entries@.len() ==> map@.contains_key(#[trigger] entries@[i].0) && map@[entries@[i].0]
                == entries@[i].1,
        forall|k: usize| #[trigger]
            map@.contains_key(k) ==> exists|i: int| 0 <= i < entries@.len() && entries@[i].0 == k,
        forall|i: int, j: int|
            0 <= i < j < entries@.len() ==> entries@[i].0 != entries@[j].0,
{
    map.iter().map(|(k, v)| (*k, *v)).collect()
}

/// A map keyed by interned names. A name is held by the slot of its string,
/// which interning makes as good as its text.
pub struct GcMap<V> {
    pub map: FnvHashMap<usize, V>,
}

impl<V> View for GcMap<V> {
    type V = Map<usize, V>;

    open spec fn view(&self) -> Map<usize, V> {
        self.map@
    }
}

impl<V: Copy> Default for GcMap<V> {
    fn default() -> (m: Self)
        ensures
            m@ == Map::<usize, V>::empty(),
    {
        let map = fnv_new();
        assert(map@ =~= Map::<usize, V>::empty());
        GcMap { map }
    }
}

impl<V: Copy> GcMap<V> {
    pub fn new() -> (m: Self)
        ensures
            m@ == Map::<usize, V>::empty(),
    {
        let map = fnv_new();
        assert(map@ =~= Map::<usize, V>::empty());
        GcMap { map }
    }

    pub fn get(&self, key: GcRef) -> (found: Option<V>)
        ensures
            found == (if self@.contains_key(key.index) {
                Some(self@[key.index])
            } else {
                None::<V>
            }),
    {
        fnv_get(&self.map, key.index)
    }

    pub fn insert(&mut self, key: GcRef, value: V) -> (before: Option<V>)
        ensures
            final(self)@ == old(self)@.insert(key.index, value),
            before == (if old(self)@.contains_key(key.index) {
                Some(old(self)@[key.index])
            } else {
                None::<V>
            }),
    {
        fnv_insert(&mut self.map, key.index, value)
    }

    pub fn remove(&mut self, key: GcRef) -> (before: Option<V>)
        ensures
            final(self)@ == old(self)@.remove(key.index),
            before == (if old(self)@.contains_key(key.index) {
                Some(old(self)@[key.index])
            } else {
                None::<V>
            }),
    {
        fnv_remove(&mut self.map, key.index)
    }

    /// Every entry, once each.
    pub fn entries(&self) -> (entries: Vec<(usize, V)>)
        ensures
            forall|i: int|
                0 <= i < entries@.len() ==> self@.contains_key(#[trigger] entries@[i].0)
                    && self@[entries@[i].0] == entries@[i].1,
            forall|k: usize| #[trigger]
                self@.contains_key(k) ==> exists|i: int|
                    0 <= i < entries@.len() && entries@[i].0 == k,
            forall|i: int, j: int|
                0 <= i < j < entries@.len() ==> entries@[i].0 != entries@[j].0,
    {
        fnv_entries(&self.map)
    }
}

} // verus!
