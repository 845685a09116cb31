//! The in-memory key index: for each live key, where its newest record lies.
use dashmap::DashMap;
use vstd::prelude::*;

verus! {

#[verifier::external_type_specification]
#[verifier::external_body]
#[verifier::reject_recursive_types(K)]
#[verifier::reject_recursive_types(V)]
#[verifier::reject_recursive_types(S)]
pub struct ExDashMap<K, V, S>(DashMap<K, V, S>);

/// Where the newest record of a key lies: `value_pos` is the offset of the value's
/// first byte inside file `file_id`.
#[derive(Clone, Copy, PartialEq, Eq, Structural, Debug)]
pub struct RecordPos {
    pub file_id: u64,
    pub value_size: u64,
    pub value_pos: u64,
    pub timestamp: u64,
}

/// The index: a concurrent map from key bytes to record positions.
pub type KeyDir = DashMap<Vec<u8>, RecordPos>;

/// The entries of an index, keyed by the key bytes.
pub uninterp spec fn keydir_view(m: KeyDir) -> Map<Seq<u8>, RecordPos>;

/// Relies on DashMap::new: an empty map.
#[verifier::external_body]
pub(crate) fn keydir_new() -> (r: KeyDir)
    ensures
        keydir_view(r).dom() == Set::<Seq<u8>>::empty(),
{
    DashMap::new()
}

/// Relies on DashMap::get: the entry under `key`, if any.
#[verifier::external_body]
pub(crate) fn keydir_get(m: &KeyDir, key: &[u8]) -> (r: Option<RecordPos>)
    ensures
        r == (if keydir_view(*m).contains_key(key@) {
            Some(keydir_view(*m)[key@])
        } else {
            None
        }),
{
    m.get(key).map(|e| *e.value())
}

/// Relies on DashMap::contains_key: whether `key` has an entry.
#[verifier::external_body]
pub(crate) fn keydir_contains(m: &KeyDir, key: &[u8]) -> (r: bool)
    ensures
        r == keydir_view(*m).contains_key(key@),
{
    m.contains_key(key)
}

/// Relies on DashMap::insert: `key` now maps to `pos`, replacing any earlier entry.
#[verifier::external_body]
pub(crate) fn keydir_insert(m: &mut KeyDir, key: Vec<u8>, pos: RecordPos)
    ensures
        keydir_view(*final(m)) == keydir_view(*old(m)).insert(key@, pos),
{
    m.insert(key, pos);
}

/// Relies on DashMap::remove: `key` has no entry any more.
#[verifier::external_body]
pub(crate) fn keydir_remove(m: &mut KeyDir, key: &[u8])
    ensures
        keydir_view(*final(m)) == keydir_view(*old(m)).remove(key@),
{
    m.remove(key);
}

/// Relies on DashMap::iter: every key of the map, each once, in no particular order.
#[verifier::external_body]
pub(crate) fn keydir_keys(m: &KeyDir) -> (r: Vec<Vec<u8>>)
    ensures
        forall|i: int| 0 <= i < r@.len() ==> keydir_view(*m).contains_key(#[trigger] r@[i]@),
        forall|k: Seq<u8>| keydir_view(*m).contains_key(k)
            ==> exists|i: int| 0 <= i < r@.len() && #[trigger] r@[i]@ == k,
        forall|i: int, j: int| 0 <= i < j < r@.len() ==> r@[i]@ != r@[j]@,
{
    m.iter().map(|e| e.key().clone()).collect()
}

} // verus!
