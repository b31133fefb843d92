use vstd::prelude::*;
use std::collections::HashMap;
use std::hash::Hash;
use vstd::std_specs::hash::obeys_key_model;

verus! {

broadcast use vstd::std_specs::hash::group_hash_axioms;

/// A table from names to what they stand for.
///
/// Its contract rests on vstd's model of `HashMap`, which holds for key
/// types that hash and compare consistently (`obeys_key_model`). vstd
/// establishes that model for the integer types, `bool` and boxes of them,
/// not for `String`: with `String` keys the contracts of `insert` and
/// `lookup` promise nothing about their results.
#[derive(Debug)]
pub struct SymbolTable<K, V> {
    env: HashMap<K, V>,
}

impl<K, V> View for SymbolTable<K, V> {
    type V = Map<K, V>;

    closed spec fn view(&self) -> Map<K, V> {
        self.env@
    }
}

impl<K, V> Default for SymbolTable<K, V> {
    fn default() -> (r: Self)
        ensures
            r@ == Map::<K, V>::empty(),
    {
        SymbolTable { env: HashMap::new() }
    }
}

impl<K: Hash + Eq, V> SymbolTable<K, V> {
    /// Binds `k` to `v`; gives back what `k` was bound to before, if anything.
    pub fn insert(&mut self, k: K, v: V) -> (r: Option<V>)
        ensures
            obeys_key_model::<K>() ==> {
                &&& final(self)@ == old(self)@.insert(k, v)
                &&& r == if old(self)@.contains_key(k) {
                    Some(old(self)@[k])
                } else {
                    None
                }
            },
    {
        self.env.insert(k, v)
    }

    /// What `k` is bound to, if anything.
    pub fn lookup(&self, k: &K) -> (r: Option<&V>)
        ensures
            obeys_key_model::<K>() ==> r == if self@.contains_key(*k) {
                Some(&self@[*k])
            } else {
                None
            },
    {
        self.env.get(k)
    }
}

/// A name looked up right after it was bound gives back the value it was
/// bound to; any other name keeps its binding.
pub proof fn law_lookup_after_insert<K, V>(m: Map<K, V>, k: K, v: V, other: K)
    requires
        other != k,
    ensures
        m.insert(k, v).contains_key(k),
        m.insert(k, v)[k] == v,
        m.insert(k, v).contains_key(other) == m.contains_key(other),
        m.contains_key(other) ==> m.insert(k, v)[other] == m[other],
{
}

} // verus!
