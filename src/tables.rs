use ahash::AHashMap;
use vstd::prelude::*;

verus! {

#[verifier::external_type_specification]
#[verifier::external_body]
#[verifier::reject_recursive_types(K)]
#[verifier::reject_recursive_types(V)]
#[verifier::reject_recursive_types(S)]
pub struct ExAHashMap<K, V, S>(AHashMap<K, V, S>);

#[verifier::external_type_specification]
#[verifier::external_body]
pub struct ExRandomState(ahash::RandomState);

/// The entries of a map keyed by one integer.
pub uninterp spec fn id_entries(m: AHashMap<usize, usize>) -> Map<usize, usize>;

/// The entries of a map keyed by a pair of integers.
pub uninterp spec fn pair_entries(m: AHashMap<(usize, usize), usize>) -> Map<(usize, usize), usize>;

/// The entries of a map keyed by a spelling.
pub uninterp spec fn spelling_entries(m: AHashMap<Vec<char>, usize>) -> Map<Seq<char>, usize>;

/// Relies on `AHashMap::with_capacity`: the new map is empty.
#[verifier::external_body]
pub(crate) fn new_id_map() -> (r: AHashMap<usize, usize>)
    ensures
        forall|k: usize| !#[trigger] id_entries(r).contains_key(k),
{
    AHashMap::with_capacity(16)
}

/// Relies on `AHashMap::get`: the value stored under the key, if any.
#[verifier::external_body]
pub(crate) fn id_get(m: &AHashMap<usize, usize>, k: usize) -> (r: Option<usize>)
    ensures
        r == (if id_entries(*m).contains_key(k) {
            Some(id_entries(*m)[k])
        } else {
            None
        }),
{
    m.get(&k).copied()
}

/// Relies on `AHashMap::insert`: the key now maps to the value, and the value
/// it had before, if any, is handed back.
#[verifier::external_body]
pub(crate) fn id_insert(m: &mut AHashMap<usize, usize>, k: usize, v: usize) -> (r: Option<usize>)
    ensures
        id_entries(*final(m)) == id_entries(*old(m)).insert(k, v),
        r == (if id_entries(*old(m)).contains_key(k) {
            Some(id_entries(*old(m))[k])
        } else {
            None
        }),
{
    m.insert(k, v)
}

/// Relies on `AHashMap::remove`: the key no longer has an entry.
#[verifier::external_body]
pub(crate) fn id_remove(m: &mut AHashMap<usize, usize>, k: usize) -> (r: Option<usize>)
    ensures
        id_entries(*final(m)) == id_entries(*old(m)).remove(k),
        r == (if id_entries(*old(m)).contains_key(k) {
            Some(id_entries(*old(m))[k])
        } else {
            None
        }),
{
    m.remove(&k)
}

/// Relies on `AHashMap::with_capacity`: the new map is empty.
#[verifier::external_body]
pub(crate) fn new_pair_map() -> (r: AHashMap<(usize, usize), usize>)
    ensures
        forall|k: (usize, usize)| !#[trigger] pair_entries(r).contains_key(k),
{
    AHashMap::with_capacity(16)
}

/// Relies on `AHashMap::get`: the value stored under the key, if any.
#[verifier::external_body]
pub(crate) fn pair_get(m: &AHashMap<(usize, usize), usize>, k: (usize, usize)) -> (r: Option<usize>)
    ensures
        r == (if pair_entries(*m).contains_key(k) {
            Some(pair_entries(*m)[k])
        } else {
            None
        }),
{
    m.get(&k).copied()
}

/// Relies on `AHashMap::insert`: the key now maps to the value.
#[verifier::external_body]
pub(crate) fn pair_insert(m: &mut AHashMap<(usize, usize), usize>, k: (usize, usize), v: usize)
    ensures
        pair_entries(*final(m)) == pair_entries(*old(m)).insert(k, v),
{
    m.insert(k, v);
}

/// Relies on `AHashMap::with_capacity`: the new map is empty.
#[verifier::external_body]
pub(crate) fn new_spelling_map() -> (r: AHashMap<Vec<char>, usize>)
    ensures
        forall|k: Seq<char>| !#[trigger] spelling_entries(r).contains_key(k),
{
    AHashMap::with_capacity(16)
}

/// Relies on `AHashMap::get`: the value stored under the spelling, if any.
/// Two `Vec<char>` keys are equal exactly when they hold the same characters.
#[verifier::external_body]
pub(crate) fn spelling_get(m: &AHashMap<Vec<char>, usize>, k: &Vec<char>) -> (r: Option<usize>)
    ensures
        r == (if spelling_entries(*m).contains_key(k@) {
            Some(spelling_entries(*m)[k@])
        } else {
            None
        }),
{
    m.get(k).copied()
}

/// Relies on `AHashMap::insert`: the spelling now maps to the value.
#[verifier::external_body]
pub(crate) fn spelling_insert(m: &mut AHashMap<Vec<char>, usize>, k: Vec<char>, v: usize)
    ensures
        spelling_entries(*final(m)) == spelling_entries(*old(m)).insert(k@, v),
{
    m.insert(k, v);
}

} // verus!
