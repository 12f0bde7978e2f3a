//! The hash maps of a process, kept in hashbrown's `HashMap`.
use vstd::prelude::*;
use hashbrown::HashMap;
use crate::abi::{MutexID, ThreadID};
use crate::mutex::Mutex;

verus! {

#[verifier::external_type_specification]
#[verifier::external_body]
#[verifier::reject_recursive_types(K)]
#[verifier::reject_recursive_types(V)]
#[verifier::reject_recursive_types(S)]
pub struct ExHashMap<K, V, S>(hashbrown::HashMap<K, V, S>);

#[verifier::external_type_specification]
#[verifier::external_body]
pub struct ExDefaultHashBuilder(hashbrown::hash_map::DefaultHashBuilder);

/// The identifiers registered in a process's thread map.
pub uninterp spec fn registered_threads(m: HashMap<ThreadID, ()>) -> Set<ThreadID>;

/// The mutexes of a process's mutex table, by identifier.
pub uninterp spec fn mutex_entries(m: HashMap<MutexID, Mutex>) -> Map<MutexID, Mutex>;

/// Relies on hashbrown's `HashMap::new`: the map starts empty.
#[verifier::external_body]
pub(crate) fn new_thread_map() -> (r: HashMap<ThreadID, ()>)
    ensures
        registered_threads(r) == Set::<ThreadID>::empty(),
{
    HashMap::new()
}

/// Relies on hashbrown's `HashMap::insert`: afterwards the key is present.
#[verifier::external_body]
pub(crate) fn thread_map_insert(m: &mut HashMap<ThreadID, ()>, t: ThreadID)
    ensures
        registered_threads(*final(m)) == registered_threads(*old(m)).insert(t),
{
    m.insert(t, ());
}

/// Relies on hashbrown's `HashMap::remove`: afterwards the key is absent.
#[verifier::external_body]
pub(crate) fn thread_map_remove(m: &mut HashMap<ThreadID, ()>, t: ThreadID)
    ensures
        registered_threads(*final(m)) == registered_threads(*old(m)).remove(t),
{
    m.remove(&t);
}

/// Relies on hashbrown's `HashMap::get`: it finds exactly the keys present.
#[verifier::external_body]
pub(crate) fn thread_map_contains(m: &HashMap<ThreadID, ()>, t: ThreadID) -> (r: bool)
    ensures
        r == registered_threads(*m).contains(t),
{
    m.get(&t).is_some()
}

/// Relies on hashbrown's `HashMap::new`: the map starts empty.
#[verifier::external_body]
pub(crate) fn new_mutex_map() -> (r: HashMap<MutexID, Mutex>)
    ensures
        mutex_entries(r).dom() == Set::<MutexID>::empty(),
{
    HashMap::new()
}

/// Relies on hashbrown's `HashMap::insert`: the key now maps to the value
/// given, and every other key keeps its value.
#[verifier::external_body]
pub(crate) fn mutex_map_insert(m: &mut HashMap<MutexID, Mutex>, k: MutexID, v: Mutex)
    ensures
        mutex_entries(*final(m)) == mutex_entries(*old(m)).insert(k, v),
{
    m.insert(k, v);
}

/// Relies on hashbrown's `HashMap::remove`: it hands back the value of a
/// present key and leaves every other key as it was.
#[verifier::external_body]
pub(crate) fn mutex_map_remove(m: &mut HashMap<MutexID, Mutex>, k: MutexID) -> (r: Option<Mutex>)
    ensures
        mutex_entries(*final(m)) == mutex_entries(*old(m)).remove(k),
        mutex_entries(*old(m)).contains_key(k) ==> r == Some(mutex_entries(*old(m))[k]),
        !mutex_entries(*old(m)).contains_key(k) ==> r is None,
{
    m.remove(&k)
}

} // verus!
