//! The boundary to `linked_hash_map`: the map type, a name for what a map
//! holds, and one function per method of the map that the cache calls. The
//! contracts here are taken from the map's source and are not proved.
//!
//! A map never holds a key twice, so "the pair under a key" is one pair at
//! most. The contracts do not say so: the cache proves it of its own map,
//! from the empty map on.

use linked_hash_map::LinkedHashMap;
use vstd::prelude::*;

use crate::order::{has_key, lookup, put, value_of, with_value, without};

verus! {

/// `linked_hash_map::LinkedHashMap`, which Verus carries without looking
/// inside.
#[verifier::external_type_specification]
#[verifier::external_body]
#[verifier::reject_recursive_types(K)]
#[verifier::reject_recursive_types(V)]
#[verifier::reject_recursive_types(S)]
pub struct ExLinkedHashMap<K, V, S>(LinkedHashMap<K, V, S>);

/// The pairs that a map holds, in the order in which `LinkedHashMap::iter`
/// walks them: the front of the map's list first, its back last.
pub uninterp spec fn contents(m: LinkedHashMap<u64, u64>) -> Seq<(u64, u64)>;

/// `LinkedHashMap::new`: a map without pairs.
#[verifier::external_body]
pub(crate) fn map_new() -> (m: LinkedHashMap<u64, u64>)
    ensures
        contents(m) == Seq::<(u64, u64)>::empty(),
{
    LinkedHashMap::new()
}

/// `LinkedHashMap::len`: the number of pairs.
#[verifier::external_body]
pub(crate) fn map_len(m: &LinkedHashMap<u64, u64>) -> (n: usize)
    ensures
        n == contents(*m).len(),
{
    m.len()
}

/// `LinkedHashMap::insert`: the pair goes to the back. Where the key was
/// present, its node is reused: the old value is handed out and the node
/// moves from its place to the back.
#[verifier::external_body]
pub(crate) fn map_insert(m: &mut LinkedHashMap<u64, u64>, k: u64, v: u64) -> (r: Option<u64>)
    ensures
        contents(*final(m)) == put(contents(*old(m)), k, v),
        r == lookup(contents(*old(m)), k),
{
    m.insert(k, v)
}

/// `LinkedHashMap::get_refresh`: where the key is present, its node moves to
/// the back and the place of its value is handed out; what is written there
/// is the value that the map holds afterwards. Where it is absent, nothing
/// changes.
#[verifier::external_body]
pub(crate) fn map_get_refresh<'a>(m: &'a mut LinkedHashMap<u64, u64>, k: &u64) -> (r: Option<
    &'a mut u64,
>)
    ensures
        match r {
            Some(v) => {
                &&& has_key(contents(*old(m)), *k)
                &&& *v == value_of(contents(*old(m)), *k)
                &&& contents(*final(m)) == put(contents(*old(m)), *k, *final(v))
            },
            None => {
                &&& !has_key(contents(*old(m)), *k)
                &&& contents(*final(m)) == contents(*old(m))
            },
        },
{
    m.get_refresh(k)
}

/// `LinkedHashMap::get_mut`: where the key is present, the place of its
/// value is handed out and the node stays where it is; what is written there
/// is the value that the map holds afterwards. Where it is absent, nothing
/// changes.
#[verifier::external_body]
pub(crate) fn map_get_mut<'a>(m: &'a mut LinkedHashMap<u64, u64>, k: &u64) -> (r: Option<
    &'a mut u64,
>)
    ensures
        match r {
            Some(v) => {
                &&& has_key(contents(*old(m)), *k)
                &&& *v == value_of(contents(*old(m)), *k)
                &&& contents(*final(m)) == with_value(contents(*old(m)), *k, *final(v))
            },
            None => {
                &&& !has_key(contents(*old(m)), *k)
                &&& contents(*final(m)) == contents(*old(m))
            },
        },
{
    m.get_mut(k)
}

/// `LinkedHashMap::contains_key`: whether the key is present. The map stays
/// as it is.
#[verifier::external_body]
pub(crate) fn map_contains_key(m: &LinkedHashMap<u64, u64>, k: &u64) -> (r: bool)
    ensures
        r == has_key(contents(*m), *k),
{
    m.contains_key(k)
}

/// `LinkedHashMap::remove`: the pair under the key leaves and its value is
/// handed out; the other pairs keep their order.
#[verifier::external_body]
pub(crate) fn map_remove(m: &mut LinkedHashMap<u64, u64>, k: &u64) -> (r: Option<u64>)
    ensures
        contents(*final(m)) == without(contents(*old(m)), *k),
        r == lookup(contents(*old(m)), *k),
{
    m.remove(k)
}

/// `LinkedHashMap::pop_front`: the pair at the front leaves and is handed
/// out; an empty map stays empty.
#[verifier::external_body]
pub(crate) fn map_pop_front(m: &mut LinkedHashMap<u64, u64>) -> (r: Option<(u64, u64)>)
    ensures
        contents(*old(m)).len() == 0 ==> r.is_none() && contents(*final(m)) == contents(*old(m)),
        contents(*old(m)).len() > 0 ==> r == Some(contents(*old(m))[0]) && contents(*final(m))
            == contents(*old(m)).drop_first(),
{
    m.pop_front()
}

/// `LinkedHashMap::is_empty`: whether the map holds no pair.
#[verifier::external_body]
pub(crate) fn map_is_empty(m: &LinkedHashMap<u64, u64>) -> (r: bool)
    ensures
        r == (contents(*m).len() == 0),
{
    m.is_empty()
}

/// `LinkedHashMap::clear`: all pairs leave.
#[verifier::external_body]
pub(crate) fn map_clear(m: &mut LinkedHashMap<u64, u64>)
    ensures
        contents(*final(m)) == Seq::<(u64, u64)>::empty(),
{
    m.clear()
}

/// `LinkedHashMap::iter`: the pairs from front to back, copied out.
#[verifier::external_body]
pub(crate) fn map_pairs(m: &LinkedHashMap<u64, u64>) -> (r: Vec<(u64, u64)>)
    ensures
        r@ == contents(*m),
{
    m.iter().map(|(k, v)| (*k, *v)).collect()
}

/// `LinkedHashMap::clone`: a map of its own with the same pairs in the same
/// order.
#[verifier::external_body]
pub(crate) fn map_clone(m: &LinkedHashMap<u64, u64>) -> (r: LinkedHashMap<u64, u64>)
    ensures
        contents(r) == contents(*m),
{
    m.clone()
}

} // verus!
