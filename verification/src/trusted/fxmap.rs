//! Hash maps of the standard library that hash with `rustc_hash`.

use rustc_hash::{FxBuildHasher, FxHashMap};
use std::collections::HashMap;
use vstd::prelude::*;

verus! {

/// `rustc_hash::FxBuildHasher`, which is only named: in the types of the
/// maps below.
#[verifier::external_type_specification]
#[verifier::external_body]
pub struct ExFxBuildHasher(FxBuildHasher);

/// Scores by key.
pub type ScoreMap = HashMap<u64, i64, FxBuildHasher>;

/// The score that a map holds for each of its keys.
pub uninterp spec fn scores(table: HashMap<u64, i64, FxBuildHasher>) -> Map<u64, i64>;

/// `FxHashMap::default`: a map without entries.
#[verifier::external_body]
pub(crate) fn scores_new() -> (table: ScoreMap)
    ensures
        scores(table) == (Map::<u64, i64>::empty()),
{
    FxHashMap::default()
}

/// `HashMap::get`: the score that is held for `key`.
#[verifier::external_body]
pub(crate) fn scores_get(table: &ScoreMap, key: u64) -> (score: Option<i64>)
    ensures
        score == (if scores(*table).contains_key(key) {
            Some(scores(*table)[key])
        } else {
            None::<i64>
        }),
{
    table.get(&key).copied()
}

/// `HashMap::insert`: `key` holds `score` from now on, and every other key
/// what it held.
#[verifier::external_body]
pub(crate) fn scores_insert(table: &mut ScoreMap, key: u64, score: i64)
    ensures
        scores(*final(table)) == scores(*old(table)).insert(key, score),
{
    table.insert(key, score);
}

/// `HashMap::into_iter`, collected: every entry of the map once, in an order
/// on which nothing is promised.
#[verifier::external_body]
pub(crate) fn scores_into_vec(table: ScoreMap) -> (entries: Vec<(u64, i64)>)
    ensures
        forall|i: int|
            0 <= i < entries@.len() ==> scores(table).contains_pair(
                (#[trigger] entries@[i]).0,
                entries@[i].1,
            ),
        forall|i: int, j: int|
            0 <= i < j < entries@.len() ==> (#[trigger] entries@[i]).0 != (#[trigger] entries@[j]).0,
        forall|key: u64|
            scores(table).contains_key(key) ==> exists|i: int|
                0 <= i < entries@.len() && (#[trigger] entries@[i]).0 == key,
{
    table.into_iter().collect()
}

/// `Id`s by key.
pub type KeyIndex = HashMap<String, u32, FxBuildHasher>;

/// The `Id` that an index holds for each of its keys, a key taken as the
/// characters of its text.
pub uninterp spec fn key_ids(index: HashMap<String, u32, FxBuildHasher>) -> Map<Seq<char>, u32>;

/// `FxHashMap::default`: an index without keys.
#[verifier::external_body]
pub(crate) fn key_index_new() -> (index: KeyIndex)
    ensures
        key_ids(index) == (Map::<Seq<char>, u32>::empty()),
{
    FxHashMap::default()
}

/// `HashMap::get` with a `str` for the key: the `Id` that is held for the
/// key with the same text.
#[verifier::external_body]
pub(crate) fn key_index_get(index: &KeyIndex, key: &str) -> (id: Option<u32>)
    ensures
        id == (if key_ids(*index).contains_key(key@) {
            Some(key_ids(*index)[key@])
        } else {
            None::<u32>
        }),
{
    index.get(key).copied()
}

/// `HashMap::insert`: the text of `key` holds `id` from now on, and every
/// other key what it held.
#[verifier::external_body]
pub(crate) fn key_index_insert(index: &mut KeyIndex, key: String, id: u32)
    ensures
        key_ids(*final(index)) == key_ids(*old(index)).insert(key@, id),
{
    index.insert(key, id);
}

} // verus!
