//! The persistent collections of the `im` crate, declared so that the
//! kernel's types can hold them. What each holds is named, per use, in the
//! module that uses it.

use vstd::prelude::*;

verus! {

/// `im::HashMap`, a persistent hash map.
#[verifier::external_type_specification]
#[verifier::external_body]
#[verifier::reject_recursive_types(K)]
#[verifier::reject_recursive_types(V)]
#[verifier::reject_recursive_types(S)]
pub struct ExImHashMap<K, V, S>(im::HashMap<K, V, S>);

/// `im::HashSet`, a persistent hash set.
#[verifier::external_type_specification]
#[verifier::external_body]
#[verifier::reject_recursive_types(A)]
#[verifier::reject_recursive_types(S)]
pub struct ExImHashSet<A, S>(im::HashSet<A, S>);

/// `im::Vector`, a persistent sequence.
#[verifier::external_type_specification]
#[verifier::external_body]
#[verifier::reject_recursive_types(A)]
pub struct ExImVector<A>(im::Vector<A>);

/// The empty map.
pub open spec fn empty_map<K, V>() -> Map<K, V> {
    Map::empty()
}

/// A map is finite and holds `n` keys.
pub open spec fn map_sized<K, V>(m: Map<K, V>, n: usize) -> bool {
    m.dom().finite() && m.dom().len() == n
}

/// A set is finite and holds `n` elements.
pub open spec fn set_sized<A>(s: Set<A>, n: usize) -> bool {
    s.finite() && s.len() == n
}

/// The contents, front first, of a queue of process identifiers.
pub uninterp spec fn pid_queue_view(v: im::Vector<u32>) -> Seq<u32>;

/// `im::Vector::new`: the new queue is empty.
#[verifier::external_body]
pub(crate) fn pid_queue_new() -> (r: im::Vector<u32>)
    ensures
        pid_queue_view(r) == Seq::<u32>::empty(),
{
    im::Vector::new()
}

/// `im::Vector::clone`: the clone has the same contents.
#[verifier::external_body]
pub(crate) fn pid_queue_clone(v: &im::Vector<u32>) -> (r: im::Vector<u32>)
    ensures
        pid_queue_view(r) == pid_queue_view(*v),
{
    v.clone()
}

/// `im::Vector::push_back`: the value is appended at the back.
#[verifier::external_body]
pub(crate) fn pid_queue_push_back(v: &mut im::Vector<u32>, x: u32)
    ensures
        pid_queue_view(*final(v)) == pid_queue_view(*old(v)).push(x),
{
    v.push_back(x);
}

/// `im::Vector::pop_front`: removes and returns the front value, if any.
#[verifier::external_body]
pub(crate) fn pid_queue_pop_front(v: &mut im::Vector<u32>) -> (r: Option<u32>)
    ensures
        r == if pid_queue_view(*old(v)).len() == 0 {
            None
        } else {
            Some(pid_queue_view(*old(v))[0])
        },
        pid_queue_view(*final(v)) == if pid_queue_view(*old(v)).len() == 0 {
            pid_queue_view(*old(v))
        } else {
            pid_queue_view(*old(v)).drop_first()
        },
{
    v.pop_front()
}

/// `im::Vector::len`: the number of values.
#[verifier::external_body]
pub(crate) fn pid_queue_len(v: &im::Vector<u32>) -> (r: usize)
    ensures
        r == pid_queue_view(*v).len(),
{
    v.len()
}

/// Indexing an `im::Vector` (which panics out of bounds): the value at `i`.
#[verifier::external_body]
pub(crate) fn pid_queue_get(v: &im::Vector<u32>, i: usize) -> (r: u32)
    requires
        i < pid_queue_view(*v).len(),
    ensures
        r == pid_queue_view(*v)[i as int],
{
    v[i]
}

/// `im::Vector::remove` (which panics out of bounds): removes and returns
/// the value at `i`, shifting later values to the front.
#[verifier::external_body]
pub(crate) fn pid_queue_remove(v: &mut im::Vector<u32>, i: usize) -> (r: u32)
    requires
        i < pid_queue_view(*old(v)).len(),
    ensures
        r == pid_queue_view(*old(v))[i as int],
        pid_queue_view(*final(v)) == pid_queue_view(*old(v)).remove(i as int),
{
    v.remove(i)
}

/// `im::Vector::contains`: whether the value occurs.
#[verifier::external_body]
pub(crate) fn pid_queue_contains(v: &im::Vector<u32>, x: u32) -> (r: bool)
    ensures
        r == pid_queue_view(*v).contains(x),
{
    v.contains(&x)
}

} // verus!
