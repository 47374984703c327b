//! Maps keyed by timeframe id.
use vstd::prelude::*;
use rustc_hash::FxHashMap;

verus! {

/// `FxBuildHasher` of rustc-hash: the hasher behind an `FxHashMap`.
#[verifier::external_type_specification]
#[verifier::external_body]
pub struct ExFxBuildHasher(rustc_hash::FxBuildHasher);

/// `HashMap::get` on rustc-hash's hasher, which hashes a `u16` by its value:
/// claimed to find exactly the key's value.
#[verifier::external_body]
fn fx_get<'a, V>(m: &'a FxHashMap<u16, V>, key: u16) -> (r: Option<&'a V>)
    ensures
        r is Some <==> m@.contains_key(key),
        r matches Some(v) ==> *v == m@[key],
{
    m.get(&key)
}

/// `HashMap::insert` on rustc-hash's hasher: claimed to map the key to the
/// value and to leave the other keys.
#[verifier::external_body]
fn fx_insert<V>(m: &mut FxHashMap<u16, V>, key: u16, value: V)
    ensures
        final(m)@ == old(m)@.insert(key, value),
{
    m.insert(key, value);
}

/// A map from timeframe ids to values.
#[derive(Debug, Clone)]
pub struct TfMap<V> {
    m: FxHashMap<u16, V>,
}

impl<V> View for TfMap<V> {
    type V = Map<u16, V>;

    closed spec fn view(&self) -> Map<u16, V> {
        self.m@
    }
}

impl<V> TfMap<V> {
    /// The empty map.
    pub fn new() -> (r: Self)
        ensures
            r@ == Map::<u16, V>::empty(),
    {
        TfMap { m: FxHashMap::default() }
    }

    /// The value of a timeframe.
    pub fn get(&self, tf: u16) -> (r: Option<&V>)
        ensures
            r is Some <==> self@.contains_key(tf),
            r matches Some(v) ==> *v == self@[tf],
    {
        fx_get(&self.m, tf)
    }

    /// Map a timeframe to a value.
    pub fn insert(&mut self, tf: u16, value: V)
        ensures
            final(self)@ == old(self)@.insert(tf, value),
    {
        fx_insert(&mut self.m, tf, value);
    }
}

} // verus!
