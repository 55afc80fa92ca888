//! The configuration being built: an ordered mapping from canonical keys to
//! typed values, with unique keys, insertion-order iteration and fast lookup.
//!
//! The mapping itself comes from the `indexmap` crate, hashed by `fxhash`; its
//! behaviour is taken on trust through the contracts below, each stated over
//! the entries the map holds in order.

use crate::Value;
use crate::ValueModel;
use fxhash::FxBuildHasher;
use fxhash::FxHasher;
use indexmap::IndexMap;
use std::hash::BuildHasherDefault;
use vstd::prelude::*;

verus! {

/// Declares `indexmap::IndexMap`, the ordered map that holds the
/// configuration; opaque to the verifier, described by `config_entries`.
#[verifier::external_type_specification]
#[verifier::external_body]
#[verifier::reject_recursive_types(K)]
#[verifier::reject_recursive_types(V)]
#[verifier::reject_recursive_types(S)]
pub struct ExIndexMap<K, V, S>(IndexMap<K, V, S>);

/// Declares `fxhash::FxHasher`, the hasher the map is built with; a
/// performance detail, nothing is assumed of it.
#[verifier::external_type_specification]
#[verifier::external_body]
pub struct ExFxHasher(FxHasher);

/// Declares `std::hash::BuildHasherDefault`, through which the map reaches
/// its hasher; nothing is assumed of it.
#[verifier::external_type_specification]
#[verifier::external_body]
#[verifier::reject_recursive_types(H)]
pub struct ExBuildHasherDefault<H>(BuildHasherDefault<H>);

/// The key/value pairs a configuration map holds, in iteration order.
pub uninterp spec fn config_entries(m: IndexMap<String, Value, FxBuildHasher>) -> Seq<
    (Seq<char>, ValueModel),
>;

/// Whether some entry carries the key.
pub open spec fn entries_has_key(entries: Seq<(Seq<char>, ValueModel)>, key: Seq<char>) -> bool {
    exists|i: int| 0 <= i < entries.len() && (#[trigger] entries[i]).0 == key
}

/// The position of the first entry carrying the key.
pub open spec fn first_key_index(entries: Seq<(Seq<char>, ValueModel)>, key: Seq<char>) -> int
    decreases entries.len(),
{
    if entries.len() == 0 {
        0
    } else if entries[0].0 == key {
        0
    } else {
        1 + first_key_index(entries.drop_first(), key)
    }
}

/// The entries after storing `value` under `key`: an existing key keeps its
/// place and takes the new value, a new key is appended last.
pub open spec fn entries_insert(
    entries: Seq<(Seq<char>, ValueModel)>,
    key: Seq<char>,
    value: ValueModel,
) -> Seq<(Seq<char>, ValueModel)> {
    if entries_has_key(entries, key) {
        entries.update(first_key_index(entries, key), (key, value))
    } else {
        entries.push((key, value))
    }
}

/// The value stored under `key`, if any.
pub open spec fn entries_lookup(entries: Seq<(Seq<char>, ValueModel)>, key: Seq<char>) -> Option<
    ValueModel,
>
    decreases entries.len(),
{
    if entries.len() == 0 {
        None
    } else if entries[0].0 == key {
        Some(entries[0].1)
    } else {
        entries_lookup(entries.drop_first(), key)
    }
}

/// Pairwise distinct keys.
pub open spec fn unique_keys(entries: Seq<(Seq<char>, ValueModel)>) -> bool {
    forall|i: int, j: int|
        0 <= i < j < entries.len() ==> (#[trigger] entries[i]).0 != (#[trigger] entries[j]).0
}

/// When some entry carries the key, the first matching position is in range,
/// carries it, and no earlier position does.
pub proof fn lemma_first_key_index(entries: Seq<(Seq<char>, ValueModel)>, key: Seq<char>)
    requires
        entries_has_key(entries, key),
    ensures
        0 <= first_key_index(entries, key) < entries.len(),
        entries[first_key_index(entries, key)].0 == key,
        forall|j: int| 0 <= j < first_key_index(entries, key) ==> (#[trigger] entries[j]).0 != key,
    decreases entries.len(),
{
    if entries[0].0 == key {
    } else {
        let i = choose|i: int| 0 <= i < entries.len() && (#[trigger] entries[i]).0 == key;
        assert(entries.drop_first()[i - 1] == entries[i]);
        assert(entries_has_key(entries.drop_first(), key));
        lemma_first_key_index(entries.drop_first(), key);
        assert(entries[first_key_index(entries, key)] == entries.drop_first()[first_key_index(
            entries.drop_first(),
            key,
        )]);
        assert forall|j: int| 0 <= j < first_key_index(entries, key) implies (
        #[trigger] entries[j]).0 != key by {
            if j > 0 {
                assert(entries[j] == entries.drop_first()[j - 1]);
            }
        }
    }
}

/// A lookup returns the value at the first matching position.
proof fn lemma_lookup_first_match(entries: Seq<(Seq<char>, ValueModel)>, key: Seq<char>, m: int)
    requires
        0 <= m < entries.len(),
        entries[m].0 == key,
        forall|j: int| 0 <= j < m ==> (#[trigger] entries[j]).0 != key,
    ensures
        entries_lookup(entries, key) == Some(entries[m].1),
    decreases m,
{
    if m > 0 {
        assert(forall|j: int|
            0 <= j < m - 1 ==> (#[trigger] entries.drop_first()[j]).0 == entries[j + 1].0);
        assert(entries.drop_first()[m - 1] == entries[m]);
        lemma_lookup_first_match(entries.drop_first(), key, m - 1);
    }
}

/// After an insert, the key looks up to the inserted value.
pub proof fn lemma_insert_lookup(
    entries: Seq<(Seq<char>, ValueModel)>,
    key: Seq<char>,
    value: ValueModel,
)
    ensures
        entries_lookup(entries_insert(entries, key, value), key) == Some(value),
{
    let out = entries_insert(entries, key, value);
    if entries_has_key(entries, key) {
        lemma_first_key_index(entries, key);
        let idx = first_key_index(entries, key);
        assert(out[idx] == (key, value));
        assert forall|j: int| 0 <= j < idx implies (#[trigger] out[j]).0 != key by {
            assert(out[j].0 == entries[j].0);
        }
        lemma_lookup_first_match(out, key, idx);
    } else {
        let idx = entries.len() as int;
        assert(out[idx] == (key, value));
        assert forall|j: int| 0 <= j < idx implies (#[trigger] out[j]).0 != key by {
            assert(out[j].0 == entries[j].0);
            if entries[j].0 == key {
                assert(entries_has_key(entries, key));
            }
        }
        lemma_lookup_first_match(out, key, idx);
    }
}

/// Every position of an insert's result holds the inserted pair or what the
/// same position held before.
pub proof fn lemma_insert_elements(
    entries: Seq<(Seq<char>, ValueModel)>,
    key: Seq<char>,
    value: ValueModel,
)
    ensures
        entries.len() <= entries_insert(entries, key, value).len(),
        forall|m: int|
            0 <= m < entries_insert(entries, key, value).len()
                ==> #[trigger] entries_insert(entries, key, value)[m] == (key, value) || (m
                < entries.len() && entries_insert(entries, key, value)[m] == entries[m]),
{
    if entries_has_key(entries, key) {
        lemma_first_key_index(entries, key);
    }
}

/// Inserting never changes which key an existing position carries, and the
/// inserted key is present afterwards.
pub proof fn lemma_insert_keys(
    entries: Seq<(Seq<char>, ValueModel)>,
    key: Seq<char>,
    value: ValueModel,
)
    ensures
        entries.len() <= entries_insert(entries, key, value).len(),
        forall|m: int|
            0 <= m < entries.len() ==> (#[trigger] entries_insert(entries, key, value)[m]).0
                == entries[m].0,
        entries_has_key(entries_insert(entries, key, value), key),
        forall|k2: Seq<char>|
            entries_has_key(entries, k2) ==> entries_has_key(
                #[trigger] entries_insert(entries, key, value),
                k2,
            ),
{
    if entries_has_key(entries, key) {
        lemma_first_key_index(entries, key);
        let idx = first_key_index(entries, key);
        assert(entries_insert(entries, key, value)[idx].0 == key);
    } else {
        assert(entries_insert(entries, key, value)[entries.len() as int].0 == key);
    }
    assert forall|k2: Seq<char>| entries_has_key(entries, k2) implies entries_has_key(
        #[trigger] entries_insert(entries, key, value),
        k2,
    ) by {
        let m = choose|m: int| 0 <= m < entries.len() && (#[trigger] entries[m]).0 == k2;
        assert(entries_insert(entries, key, value)[m].0 == k2);
    }
}

/// Unique keys survive an insert.
pub proof fn lemma_insert_preserves_unique(
    entries: Seq<(Seq<char>, ValueModel)>,
    key: Seq<char>,
    value: ValueModel,
)
    requires
        unique_keys(entries),
    ensures
        unique_keys(entries_insert(entries, key, value)),
{
    let out = entries_insert(entries, key, value);
    if entries_has_key(entries, key) {
        lemma_first_key_index(entries, key);
        let idx = first_key_index(entries, key);
        assert forall|i: int, j: int| 0 <= i < j < out.len() implies (#[trigger] out[i]).0 != (
        #[trigger] out[j]).0 by {
            assert(out[i].0 == entries[i].0);
            assert(out[j].0 == entries[j].0);
        }
    } else {
        assert forall|i: int, j: int| 0 <= i < j < out.len() implies (#[trigger] out[i]).0 != (
        #[trigger] out[j]).0 by {
            if j == entries.len() {
                assert(out[i].0 == entries[i].0);
                if entries[i].0 == key {
                    assert(entries_has_key(entries, key));
                }
            } else {
                assert(out[i].0 == entries[i].0);
                assert(out[j].0 == entries[j].0);
            }
        }
    }
}

/// Relies on `indexmap::IndexMap::with_hasher`: a newly made map is empty.
#[verifier::external_body]
pub fn config_new() -> (m: IndexMap<String, Value, FxBuildHasher>)
    ensures
        config_entries(m) == Seq::<(Seq<char>, ValueModel)>::empty(),
{
    IndexMap::with_hasher(FxBuildHasher::default())
}

/// Relies on `indexmap::IndexMap::insert`: an equivalent key keeps its place
/// in the order and takes the new value; a new key is appended last.
#[verifier::external_body]
pub fn config_insert(m: &mut IndexMap<String, Value, FxBuildHasher>, key: String, value: Value)
    ensures
        config_entries(*final(m)) == entries_insert(config_entries(*old(m)), key@, value@),
{
    m.insert(key, value);
}

/// Relies on `indexmap::IndexMap::get`: the value stored under the key.
#[verifier::external_body]
pub fn config_get<'a>(m: &'a IndexMap<String, Value, FxBuildHasher>, key: &str) -> (r: Option<
    &'a Value,
>)
    ensures
        match entries_lookup(config_entries(*m), key@) {
            Some(v) => r matches Some(x) && x@ == v,
            None => r is None,
        },
{
    m.get(key)
}

/// Relies on `indexmap::IndexMap::len`: the number of entries.
#[verifier::external_body]
pub fn config_len(m: &IndexMap<String, Value, FxBuildHasher>) -> (n: usize)
    ensures
        n == config_entries(*m).len(),
{
    m.len()
}

/// Relies on `indexmap::IndexMap::get_index`: the entry at the position, in
/// iteration order.
#[verifier::external_body]
pub fn config_get_index<'a>(m: &'a IndexMap<String, Value, FxBuildHasher>, i: usize) -> (r: Option<
    (&'a String, &'a Value),
>)
    ensures
        match r {
            Some(p) => i < config_entries(*m).len() && p.0@ == config_entries(*m)[i as int].0
                && p.1@ == config_entries(*m)[i as int].1,
            None => i >= config_entries(*m).len(),
        },
{
    m.get_index(i)
}

} // verus!
