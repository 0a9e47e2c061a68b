//! Lookups in the string-keyed maps that vocabularies are made of.

use std::collections::HashMap;
use vstd::prelude::*;

verus! {

/// A map with no entries has no entries by the characters of its keys either.
pub proof fn lemma_empty_map_deep_view<K: DeepView, V: DeepView>(m: HashMap<K, V>)
    requires
        m@ == Map::<K, V>::empty(),
    ensures
        m.deep_view() == Map::<K::V, V::V>::empty(),
{
    reveal(vstd::std_specs::hash::hash_map_deep_view_impl);
    assert(m.deep_view() =~= Map::<K::V, V::V>::empty());
}

/// The value that `m` holds under `key`, if any.
pub open spec fn map_lookup<K, V>(m: Map<K, V>, key: K) -> Option<V> {
    if m.dom().contains(key) {
        Some(m[key])
    } else {
        None
    }
}

/// `HashMap::get` on a map keyed by strings, with the value copied out.
///
/// Strings hash and compare by their characters, so the value returned is
/// the one stored under the key whose characters are those of `key`, and
/// `None` when no key has them; `deep_view` is the map from the keys'
/// characters to the values.
#[verifier::external_body]
pub(crate) fn string_map_get(map: &HashMap<String, i64>, key: &str) -> (r: Option<i64>)
    ensures
        r == map_lookup(map.deep_view(), key@),
{
    map.get(key).copied()
}

/// The keys of `map`, cloned, in the order in which `HashMap::keys` visits
/// them.
///
/// That order depends on the map's hasher, which each process seeds at
/// random, so it is left open: what is stated is that every key occurs
/// exactly once.
#[verifier::external_body]
pub(crate) fn string_map_keys(map: &HashMap<String, i64>) -> (r: Vec<String>)
    ensures
        r.deep_view().no_duplicates(),
        forall|k: Seq<char>| #[trigger] r.deep_view().contains(k) <==> map.deep_view().contains_key(k),
{
    map.keys().cloned().collect()
}

/// The map from token to id that the JSON text `text` describes, if it
/// is a JSON object whose values are integers that fit in an `i64`.
pub uninterp spec fn json_token_ids(text: Seq<char>) -> Option<Map<Seq<char>, i64>>;

/// `serde_json::from_str` into a `HashMap<String, i64>`, with the error
/// dropped.
///
/// What it accepts and what it makes of a key given twice is the JSON
/// grammar as serde_json reads it, which is left to the name
/// `json_token_ids`: the result depends on the text alone.
#[verifier::external_body]
pub(crate) fn parse_json_token_ids(text: &str) -> (r: Option<HashMap<String, i64>>)
    ensures
        r matches Some(m) ==> json_token_ids(text@) == Some(m.deep_view()),
        r is None <==> json_token_ids(text@) is None,
{
    serde_json::from_str(text).ok()
}

/// `HashMap::from` on the single entry `key`, `value`.
#[verifier::external_body]
pub(crate) fn singleton_string_map(key: &str, value: i64) -> (r: HashMap<String, i64>)
    ensures
        r.deep_view() == map![key@ => value],
{
    HashMap::from([(key.to_string(), value)])
}

} // verus!
