//! Laws the library states of itself, each proved against the functional
//! models that the executable functions are verified to follow.

use crate::config::{
    entries_has_key, entries_insert, entries_lookup, lemma_insert_elements, lemma_insert_keys,
    lemma_insert_lookup, lemma_insert_preserves_unique, unique_keys,
};
use crate::environment::{env_lookup, env_lookup_failed};
use crate::error::ErrView;
use crate::flatten::{build_model, child_key};
use crate::loader::{load_model, yaml_first_doc, yaml_scans, LoadErr};
use crate::node::{is_leaf, is_scalar_leaf, node_contains_array, node_reals_accepted, Node};
use crate::realtext::{float_text_accepted, yaml_real_accepted};
use crate::resolve::{ladder, lemma_resolve_literal, literal_value, resolve_model};
use crate::text::{char_upper_of, lemma_upper_of_concat, parse_bool_spec, parse_i64_spec, upper_of};
use crate::ValueModel;
use vstd::prelude::*;

verus! {

/// The walk one level down: the first entry is smaller than the entry
/// sequence, and so is the mapping a nested value holds.
proof fn lemma_mapping_decreases(entries: Seq<(Node, Node)>, inner: Vec<(Node, Node)>)
    requires
        entries.len() > 0,
        entries[0].1 == Node::Mapping(inner),
    ensures
        decreases_to!(entries => inner@),
{
    assert(decreases_to!(entries => entries[0]));
    assert(decreases_to!(entries[0] => entries[0].1));
    assert(decreases_to!(entries[0].1 => entries[0].1->Mapping_0));
    assert(entries[0].1->Mapping_0 == inner);
    assert(decreases_to!(inner => inner@));
}

/// Dropping the first entry shrinks the sequence.
proof fn lemma_drop_first_decreases(entries: Seq<(Node, Node)>)
    requires
        entries.len() > 0,
    ensures
        decreases_to!(entries => entries.drop_first()),
{
    assert(entries.drop_first() =~= entries.subrange(1, entries.len() as int));
    assert(decreases_to!(entries => entries.subrange(1, entries.len() as int)));
}

/// A successful walk keeps every key already accumulated.
pub proof fn lemma_build_model_keeps_keys(
    entries: Seq<(Node, Node)>,
    parent: Option<Seq<char>>,
    prefer_env: bool,
    env: Seq<(Seq<char>, Seq<char>)>,
    acc: Seq<(Seq<char>, ValueModel)>,
    es: Seq<(Seq<char>, ValueModel)>,
    k: Seq<char>,
)
    requires
        build_model(entries, parent, prefer_env, env, acc) == Ok::<
            Seq<(Seq<char>, ValueModel)>,
            ErrView,
        >(es),
        entries_has_key(acc, k),
    ensures
        entries_has_key(es, k),
    decreases entries,
{
    if entries.len() == 0 {
    } else {
        match entries[0].0 {
            Node::Str(ks) => {
                let key = child_key(parent, ks@);
                match entries[0].1 {
                    Node::Array(elems) => {
                    },
                    Node::Mapping(inner) => {
                        match build_model(inner@, Some(key), prefer_env, env, acc) {
                            Ok(acc2) => {
                                lemma_mapping_decreases(entries, inner);
                                lemma_build_model_keeps_keys(
                                    inner@,
                                    Some(key),
                                    prefer_env,
                                    env,
                                    acc,
                                    acc2,
                                    k,
                                );
                                lemma_drop_first_decreases(entries);
                                lemma_build_model_keeps_keys(
                                    entries.drop_first(),
                                    parent,
                                    prefer_env,
                                    env,
                                    acc2,
                                    es,
                                    k,
                                );
                            },
                            Err(e) => {
                            },
                        }
                    },
                    _ => {
                        match resolve_model(key, entries[0].1, prefer_env, env) {
                            Ok(v) => {
                                lemma_insert_keys(acc, key, v);
                                lemma_drop_first_decreases(entries);
                                lemma_build_model_keeps_keys(
                                    entries.drop_first(),
                                    parent,
                                    prefer_env,
                                    env,
                                    entries_insert(acc, key, v),
                                    es,
                                    k,
                                );
                            },
                            Err(e) => {
                            },
                        }
                    },
                }
            },
            _ => {
            },
        }
    }
}

/// A successful walk preserves unique keys.
pub proof fn lemma_build_model_unique(
    entries: Seq<(Node, Node)>,
    parent: Option<Seq<char>>,
    prefer_env: bool,
    env: Seq<(Seq<char>, Seq<char>)>,
    acc: Seq<(Seq<char>, ValueModel)>,
    es: Seq<(Seq<char>, ValueModel)>,
)
    requires
        build_model(entries, parent, prefer_env, env, acc) == Ok::<
            Seq<(Seq<char>, ValueModel)>,
            ErrView,
        >(es),
        unique_keys(acc),
    ensures
        unique_keys(es),
    decreases entries,
{
    if entries.len() == 0 {
    } else {
        match entries[0].0 {
            Node::Str(ks) => {
                let key = child_key(parent, ks@);
                match entries[0].1 {
                    Node::Array(elems) => {
                    },
                    Node::Mapping(inner) => {
                        match build_model(inner@, Some(key), prefer_env, env, acc) {
                            Ok(acc2) => {
                                lemma_mapping_decreases(entries, inner);
                                lemma_build_model_unique(
                                    inner@,
                                    Some(key),
                                    prefer_env,
                                    env,
                                    acc,
                                    acc2,
                                );
                                lemma_drop_first_decreases(entries);
                                lemma_build_model_unique(
                                    entries.drop_first(),
                                    parent,
                                    prefer_env,
                                    env,
                                    acc2,
                                    es,
                                );
                            },
                            Err(e) => {
                            },
                        }
                    },
                    _ => {
                        match resolve_model(key, entries[0].1, prefer_env, env) {
                            Ok(v) => {
                                lemma_insert_preserves_unique(acc, key, v);
                                lemma_drop_first_decreases(entries);
                                lemma_build_model_unique(
                                    entries.drop_first(),
                                    parent,
                                    prefer_env,
                                    env,
                                    entries_insert(acc, key, v),
                                    es,
                                );
                            },
                            Err(e) => {
                            },
                        }
                    },
                }
            },
            _ => {
            },
        }
    }
}

/// Every key of a loaded configuration maps to exactly one value: the entries
/// of a successful load carry pairwise distinct keys.
pub proof fn lemma_load_unique_keys(
    text: Seq<char>,
    prefer_env: bool,
    env: Seq<(Seq<char>, Seq<char>)>,
    es: Seq<(Seq<char>, ValueModel)>,
)
    requires
        load_model(text, prefer_env, env) == Ok::<Seq<(Seq<char>, ValueModel)>, LoadErr>(es),
    ensures
        unique_keys(es),
{
    match yaml_first_doc(text) {
        Some(doc) => match doc {
            Node::Mapping(entries) => {
                lemma_build_model_unique(
                    entries@,
                    None,
                    prefer_env,
                    env,
                    Seq::empty(),
                    es,
                );
            },
            _ => {
            },
        },
        None => {
        },
    }
}

/// Idempotence: the outcome of a load is a function of the text, the
/// preference and the environment snapshot alone, so loading the same file
/// twice against an unchanged environment yields equal configurations.
pub proof fn lemma_load_idempotent(
    text: Seq<char>,
    prefer_env: bool,
    env: Seq<(Seq<char>, Seq<char>)>,
    e1: Seq<(Seq<char>, ValueModel)>,
    e2: Seq<(Seq<char>, ValueModel)>,
)
    requires
        load_model(text, prefer_env, env) == Ok::<Seq<(Seq<char>, ValueModel)>, LoadErr>(e1),
        load_model(text, prefer_env, env) == Ok::<Seq<(Seq<char>, ValueModel)>, LoadErr>(e2),
    ensures
        e1 == e2,
{
}

/// An entry whose key is an uppercased document key and whose value is the
/// matching leaf's literal value.
pub open spec fn entry_from_document(
    e: (Seq<char>, ValueModel),
    entries: Seq<(Node, Node)>,
) -> bool {
    exists|i: int|
        0 <= i < entries.len() && (#[trigger] entries[i]).0 is Str && e == (
            upper_of(entries[i].0->Str_0@),
            literal_value(entries[i].1),
        )
}

/// The flat walk, generalized over the accumulator.
proof fn lemma_flat_scalar_gen(
    entries: Seq<(Node, Node)>,
    env: Seq<(Seq<char>, Seq<char>)>,
    acc: Seq<(Seq<char>, ValueModel)>,
    es: Seq<(Seq<char>, ValueModel)>,
)
    requires
        forall|i: int| 0 <= i < entries.len() ==> (#[trigger] entries[i]).0 is Str,
        forall|i: int| 0 <= i < entries.len() ==> is_scalar_leaf((#[trigger] entries[i]).1),
        build_model(entries, None, false, env, acc) == Ok::<
            Seq<(Seq<char>, ValueModel)>,
            ErrView,
        >(es),
    ensures
        forall|j: int|
            0 <= j < es.len() ==> ((exists|m: int|
                0 <= m < acc.len() && #[trigger] es[j] == acc[m]) || entry_from_document(
                es[j],
                entries,
            )),
        forall|i: int|
            0 <= i < entries.len() ==> entries_has_key(
                es,
                upper_of((#[trigger] entries[i]).0->Str_0@),
            ),
    decreases entries.len(),
{
    if entries.len() == 0 {
        assert forall|j: int| 0 <= j < es.len() implies (exists|m: int|
            0 <= m < acc.len() && #[trigger] es[j] == acc[m]) by {
            assert(es[j] == acc[j]);
        }
    } else {
        match entries[0].0 {
            Node::Str(ks) => {
                let key = child_key(None, ks@);
                match entries[0].1 {
                    Node::Real(t) => {
                        if !yaml_real_accepted(t@) {
                            assert(resolve_model(key, entries[0].1, false, env) == Err::<
                                ValueModel,
                                ErrView,
                            >(crate::resolve::type_conversion_failed(key)));
                            assert(false);
                        }
                    },
                    _ => {
                    },
                }
                lemma_resolve_literal(key, entries[0].1, env);
                let v = literal_value(entries[0].1);
                let acc2 = entries_insert(acc, key, v);
                assert(forall|i: int|
                    0 <= i < entries.drop_first().len() ==> #[trigger] entries.drop_first()[i]
                        == entries[i + 1]);
                lemma_flat_scalar_gen(entries.drop_first(), env, acc2, es);
                lemma_insert_elements(acc, key, v);
                lemma_insert_keys(acc, key, v);
                lemma_build_model_keeps_keys(
                    entries.drop_first(),
                    None,
                    false,
                    env,
                    acc2,
                    es,
                    key,
                );
                assert forall|j: int| 0 <= j < es.len() implies ((exists|m: int|
                    0 <= m < acc.len() && #[trigger] es[j] == acc[m]) || entry_from_document(
                    es[j],
                    entries,
                )) by {
                    if exists|m: int| 0 <= m < acc2.len() && #[trigger] es[j] == acc2[m] {
                        let m = choose|m: int| 0 <= m < acc2.len() && #[trigger] es[j] == acc2[m];
                        if acc2[m] == (key, v) {
                            assert((entries[0]).0 is Str);
                            assert(entry_from_document(es[j], entries));
                        } else {
                            assert(m < acc.len() && acc2[m] == acc[m]);
                        }
                    } else {
                        assert(entry_from_document(es[j], entries.drop_first()));
                        let i = choose|i: int|
                            0 <= i < entries.drop_first().len() && (#[trigger] entries.drop_first()[i]).0
                                is Str && es[j] == (
                                upper_of(entries.drop_first()[i].0->Str_0@),
                                literal_value(entries.drop_first()[i].1),
                            );
                        assert(entries.drop_first()[i] == entries[i + 1]);
                        assert(entry_from_document(es[j], entries));
                    }
                }
                assert forall|i: int| 0 <= i < entries.len() implies entries_has_key(
                    es,
                    upper_of((#[trigger] entries[i]).0->Str_0@),
                ) by {
                    if i == 0 {
                    } else {
                        assert(entries.drop_first()[i - 1] == entries[i]);
                    }
                }
            },
            _ => {
            },
        }
    }
}

/// For a flat mapping whose leaves are all typed scalars, loading under the
/// default preference produces entries whose keys are exactly the uppercased
/// document keys and whose values are the literal values' inferred types.
pub proof fn lemma_flat_scalar_mapping(
    entries: Seq<(Node, Node)>,
    env: Seq<(Seq<char>, Seq<char>)>,
    es: Seq<(Seq<char>, ValueModel)>,
)
    requires
        forall|i: int| 0 <= i < entries.len() ==> (#[trigger] entries[i]).0 is Str,
        forall|i: int| 0 <= i < entries.len() ==> is_scalar_leaf((#[trigger] entries[i]).1),
        build_model(entries, None, false, env, Seq::empty()) == Ok::<
            Seq<(Seq<char>, ValueModel)>,
            ErrView,
        >(es),
    ensures
        forall|j: int| 0 <= j < es.len() ==> entry_from_document(#[trigger] es[j], entries),
        forall|i: int|
            0 <= i < entries.len() ==> entries_has_key(
                es,
                upper_of((#[trigger] entries[i]).0->Str_0@),
            ),
{
    lemma_flat_scalar_gen(entries, env, Seq::empty(), es);
}

/// A load of a flat document whose leaves are all typed scalars, under the
/// default preference: the configuration's keys are exactly the uppercased
/// top-level keys, each bound to its literal value's inferred type.
pub proof fn lemma_load_flat_scalar(
    text: Seq<char>,
    env: Seq<(Seq<char>, Seq<char>)>,
    doc_entries: Vec<(Node, Node)>,
    es: Seq<(Seq<char>, ValueModel)>,
)
    requires
        yaml_first_doc(text) == Some(Node::Mapping(doc_entries)),
        forall|i: int| 0 <= i < doc_entries@.len() ==> (#[trigger] doc_entries@[i]).0 is Str,
        forall|i: int| 0 <= i < doc_entries@.len() ==> is_scalar_leaf((#[trigger] doc_entries@[i]).1),
        load_model(text, false, env) == Ok::<Seq<(Seq<char>, ValueModel)>, LoadErr>(es),
    ensures
        forall|j: int| 0 <= j < es.len() ==> entry_from_document(#[trigger] es[j], doc_entries@),
        forall|i: int|
            0 <= i < doc_entries@.len() ==> entries_has_key(
                es,
                upper_of((#[trigger] doc_entries@[i]).0->Str_0@),
            ),
{
    lemma_flat_scalar_mapping(doc_entries@, env, es);
}

/// A flat mapping whose keys are strings and whose leaves are typed scalars
/// with accepted real texts always flattens under the default preference.
pub proof fn lemma_flat_scalar_succeeds(
    entries: Seq<(Node, Node)>,
    env: Seq<(Seq<char>, Seq<char>)>,
    acc: Seq<(Seq<char>, ValueModel)>,
)
    requires
        forall|i: int| 0 <= i < entries.len() ==> (#[trigger] entries[i]).0 is Str,
        forall|i: int| 0 <= i < entries.len() ==> is_scalar_leaf((#[trigger] entries[i]).1),
        forall|i: int|
            0 <= i < entries.len() ==> ((#[trigger] entries[i]).1 matches Node::Real(t)
                ==> yaml_real_accepted(t@)),
    ensures
        build_model(entries, None, false, env, acc) is Ok,
    decreases entries.len(),
{
    if entries.len() > 0 {
        match entries[0].0 {
            Node::Str(ks) => {
                let key = child_key(None, ks@);
                lemma_resolve_literal(key, entries[0].1, env);
                match resolve_model(key, entries[0].1, false, env) {
                    Ok(v) => {
                        assert(forall|i: int|
                            0 <= i < entries.drop_first().len()
                                ==> #[trigger] entries.drop_first()[i] == entries[i + 1]);
                        lemma_flat_scalar_succeeds(
                            entries.drop_first(),
                            env,
                            entries_insert(acc, key, v),
                        );
                    },
                    Err(e) => {
                        assert(false);
                    },
                }
            },
            _ => {
                assert(false);
            },
        }
    }
}

/// A scanned document that is a flat mapping of string keys and typed scalar
/// leaves always loads under the default preference; the parse guarantees the
/// real texts are accepted.
pub proof fn lemma_load_flat_scalar_succeeds(
    text: Seq<char>,
    env: Seq<(Seq<char>, Seq<char>)>,
    doc_entries: Vec<(Node, Node)>,
)
    requires
        yaml_scans(text),
        yaml_first_doc(text) == Some(Node::Mapping(doc_entries)),
        node_reals_accepted(Node::Mapping(doc_entries)),
        forall|i: int| 0 <= i < doc_entries@.len() ==> (#[trigger] doc_entries@[i]).0 is Str,
        forall|i: int| 0 <= i < doc_entries@.len() ==> is_scalar_leaf((#[trigger] doc_entries@[i]).1),
    ensures
        load_model(text, false, env) is Ok,
{
    assert forall|i: int|
        0 <= i < doc_entries@.len() implies ((#[trigger] doc_entries@[i]).1 matches Node::Real(t)
        ==> yaml_real_accepted(t@)) by {
        assert(node_reals_accepted(doc_entries@[i].1));
        match doc_entries@[i].1 {
            Node::Real(t) => {
                assert(yaml_real_accepted(t@));
            },
            _ => {
            },
        }
    }
    lemma_flat_scalar_succeeds(doc_entries@, env, Seq::empty());
}

/// A leaf stands at the path `segs` in the mapping level `entries`.
pub open spec fn leaf_at(entries: Seq<(Node, Node)>, segs: Seq<Seq<char>>, leaf: Node) -> bool
    decreases segs.len(),
{
    segs.len() >= 1 && exists|i: int|
        0 <= i < entries.len() && ((#[trigger] entries[i]).0 matches Node::Str(ks) && ks@
            == segs[0] && (if segs.len() == 1 {
            entries[i].1 == leaf
        } else {
            entries[i].1 matches Node::Mapping(inner) && leaf_at(inner@, segs.drop_first(), leaf)
        }))
}

/// In any document, a successful walk leaves an entry under the synthesized
/// key of every leaf's path.
pub proof fn lemma_general_leaf_key(
    entries: Seq<(Node, Node)>,
    segs: Seq<Seq<char>>,
    leaf: Node,
    parent: Option<Seq<char>>,
    prefer_env: bool,
    env: Seq<(Seq<char>, Seq<char>)>,
    acc: Seq<(Seq<char>, ValueModel)>,
    es: Seq<(Seq<char>, ValueModel)>,
)
    requires
        leaf_at(entries, segs, leaf),
        is_leaf(leaf),
        build_model(entries, parent, prefer_env, env, acc) == Ok::<
            Seq<(Seq<char>, ValueModel)>,
            ErrView,
        >(es),
    ensures
        entries_has_key(es, descended_key(parent, segs)),
    decreases entries,
{
    let w = choose|i: int|
        0 <= i < entries.len() && ((#[trigger] entries[i]).0 matches Node::Str(ks) && ks@
            == segs[0] && (if segs.len() == 1 {
            entries[i].1 == leaf
        } else {
            entries[i].1 matches Node::Mapping(inner) && leaf_at(inner@, segs.drop_first(), leaf)
        }));
    match entries[0].0 {
        Node::Str(ks0) => {
            let key0 = child_key(parent, ks0@);
            match entries[0].1 {
                Node::Array(elems) => {
                },
                Node::Mapping(inner) => {
                    match build_model(inner@, Some(key0), prefer_env, env, acc) {
                        Ok(acc2) => {
                            if w == 0 {
                                assert(ks0@ == segs[0]);
                                if segs.len() == 1 {
                                    assert(entries[0].1 == leaf);
                                    assert(false);
                                }
                                assert(leaf_at(inner@, segs.drop_first(), leaf));
                                lemma_mapping_decreases(entries, inner);
                                lemma_general_leaf_key(
                                    inner@,
                                    segs.drop_first(),
                                    leaf,
                                    Some(key0),
                                    prefer_env,
                                    env,
                                    acc,
                                    acc2,
                                );
                                assert(descended_key(parent, segs) == descended_key(
                                    Some(key0),
                                    segs.drop_first(),
                                ));
                                lemma_drop_first_decreases(entries);
                                lemma_build_model_keeps_keys(
                                    entries.drop_first(),
                                    parent,
                                    prefer_env,
                                    env,
                                    acc2,
                                    es,
                                    descended_key(parent, segs),
                                );
                            } else {
                                assert(entries.drop_first()[w - 1] == entries[w]);
                                assert(leaf_at(entries.drop_first(), segs, leaf));
                                lemma_drop_first_decreases(entries);
                                lemma_general_leaf_key(
                                    entries.drop_first(),
                                    segs,
                                    leaf,
                                    parent,
                                    prefer_env,
                                    env,
                                    acc2,
                                    es,
                                );
                            }
                        },
                        Err(e) => {
                        },
                    }
                },
                _ => {
                    match resolve_model(key0, entries[0].1, prefer_env, env) {
                        Ok(v) => {
                            if w == 0 {
                                assert(ks0@ == segs[0]);
                                assert(segs.len() == 1);
                                assert(descended_key(parent, segs) == key0);
                                lemma_insert_keys(acc, key0, v);
                                lemma_drop_first_decreases(entries);
                                lemma_build_model_keeps_keys(
                                    entries.drop_first(),
                                    parent,
                                    prefer_env,
                                    env,
                                    entries_insert(acc, key0, v),
                                    es,
                                    key0,
                                );
                            } else {
                                assert(entries.drop_first()[w - 1] == entries[w]);
                                assert(leaf_at(entries.drop_first(), segs, leaf));
                                lemma_drop_first_decreases(entries);
                                lemma_general_leaf_key(
                                    entries.drop_first(),
                                    segs,
                                    leaf,
                                    parent,
                                    prefer_env,
                                    env,
                                    entries_insert(acc, key0, v),
                                    es,
                                );
                            }
                        },
                        Err(e) => {
                        },
                    }
                },
            }
        },
        _ => {
        },
    }
}

/// For a leaf at the path `k1, ..., kN` anywhere in a loaded document, the
/// configuration holds an entry under `K1_K2_..._KN` — under the same
/// uppercase-stability hypotheses as the join law.
pub proof fn lemma_load_leaf_key(
    text: Seq<char>,
    prefer_env: bool,
    env: Seq<(Seq<char>, Seq<char>)>,
    doc_entries: Vec<(Node, Node)>,
    segs: Seq<Seq<char>>,
    leaf: Node,
    es: Seq<(Seq<char>, ValueModel)>,
)
    requires
        yaml_first_doc(text) == Some(Node::Mapping(doc_entries)),
        load_model(text, prefer_env, env) == Ok::<Seq<(Seq<char>, ValueModel)>, LoadErr>(es),
        leaf_at(doc_entries@, segs, leaf),
        is_leaf(leaf),
        underscore_upper_fixed(),
        forall|i: int| 0 <= i < segs.len() ==> upper_stable(#[trigger] segs[i]),
    ensures
        entries_has_key(es, joined_upper(segs)),
{
    lemma_general_leaf_key(doc_entries@, segs, leaf, None, prefer_env, env, Seq::empty(), es);
    lemma_descended_is_nested(segs);
    lemma_nested_key_is_join(segs);
}

/// Whether some entry of a mapping level holds a sequence anywhere below it.
pub open spec fn entries_contain_array(entries: Seq<(Node, Node)>) -> bool {
    exists|i: int|
        0 <= i < entries.len() && (node_contains_array((#[trigger] entries[i]).0)
            || node_contains_array(entries[i].1))
}

/// A sequence value anywhere below a mapping level: the walk never succeeds,
/// whatever else the document holds.
pub proof fn lemma_array_rejected(
    entries: Seq<(Node, Node)>,
    parent: Option<Seq<char>>,
    prefer_env: bool,
    env: Seq<(Seq<char>, Seq<char>)>,
    acc: Seq<(Seq<char>, ValueModel)>,
)
    requires
        entries_contain_array(entries),
    ensures
        build_model(entries, parent, prefer_env, env, acc) is Err,
    decreases entries,
{
    let w = choose|i: int|
        0 <= i < entries.len() && (node_contains_array((#[trigger] entries[i]).0)
            || node_contains_array(entries[i].1));
    match entries[0].0 {
        Node::Str(ks) => {
            let key = child_key(parent, ks@);
            match entries[0].1 {
                Node::Array(elems) => {
                },
                Node::Mapping(inner) => {
                    match build_model(inner@, Some(key), prefer_env, env, acc) {
                        Ok(acc2) => {
                            if w == 0 {
                                assert(node_contains_array(entries[0].1));
                                assert(entries_contain_array(inner@));
                                lemma_mapping_decreases(entries, inner);
                                lemma_array_rejected(inner@, Some(key), prefer_env, env, acc);
                                assert(false);
                            } else {
                                assert(entries.drop_first()[w - 1] == entries[w]);
                                assert(entries_contain_array(entries.drop_first()));
                                lemma_drop_first_decreases(entries);
                                lemma_array_rejected(
                                    entries.drop_first(),
                                    parent,
                                    prefer_env,
                                    env,
                                    acc2,
                                );
                            }
                        },
                        Err(e) => {
                        },
                    }
                },
                _ => {
                    match resolve_model(key, entries[0].1, prefer_env, env) {
                        Ok(v) => {
                            assert(w != 0);
                            assert(entries.drop_first()[w - 1] == entries[w]);
                            assert(entries_contain_array(entries.drop_first()));
                            lemma_drop_first_decreases(entries);
                            lemma_array_rejected(
                                entries.drop_first(),
                                parent,
                                prefer_env,
                                env,
                                entries_insert(acc, key, v),
                            );
                        },
                        Err(e) => {
                        },
                    }
                },
            }
        },
        _ => {
        },
    }
}

/// A sequence value anywhere in the document makes the whole load fail.
pub proof fn lemma_load_rejects_arrays(
    text: Seq<char>,
    prefer_env: bool,
    env: Seq<(Seq<char>, Seq<char>)>,
    doc: Node,
)
    requires
        yaml_first_doc(text) == Some(doc),
        node_contains_array(doc),
    ensures
        load_model(text, prefer_env, env) is Err,
{
    match doc {
        Node::Mapping(entries) => {
            assert(entries_contain_array(entries@));
            lemma_array_rejected(entries@, None, prefer_env, env, Seq::empty());
        },
        _ => {
        },
    }
}

/// The synthesized key of a leaf reached through segments `k1, ..., kN`: each
/// level uppercases the parent path, appends the separator and the uppercased
/// local segment.
pub open spec fn nested_key(segs: Seq<Seq<char>>) -> Seq<char>
    decreases segs.len(),
{
    if segs.len() <= 1 {
        upper_of(
            if segs.len() == 1 {
                segs[0]
            } else {
                Seq::empty()
            },
        )
    } else {
        upper_of(nested_key(segs.drop_last())) + seq!['_'] + upper_of(segs.last())
    }
}

/// The plain underscore-join of the uppercased segments.
pub open spec fn joined_upper(segs: Seq<Seq<char>>) -> Seq<char>
    decreases segs.len(),
{
    if segs.len() <= 1 {
        upper_of(
            if segs.len() == 1 {
                segs[0]
            } else {
                Seq::empty()
            },
        )
    } else {
        joined_upper(segs.drop_last()) + seq!['_'] + upper_of(segs.last())
    }
}

/// Re-uppercasing the sequence's uppercase form changes nothing.
pub open spec fn upper_stable(s: Seq<char>) -> bool {
    upper_of(upper_of(s)) == upper_of(s)
}

/// The separator has no uppercase mapping.
pub open spec fn underscore_upper_fixed() -> bool {
    char_upper_of('_') == seq!['_']
}

/// The first level synthesizes exactly the flattener's top-level key.
pub proof fn lemma_nested_key_base(k: Seq<char>)
    ensures
        nested_key(seq![k]) == child_key(None, k),
{
    assert(seq![k][0] == k);
}

/// Descending one level extends the synthesized path exactly as the flattener
/// does.
pub proof fn lemma_nested_key_step(segs: Seq<Seq<char>>, k: Seq<char>)
    requires
        segs.len() >= 1,
    ensures
        nested_key(segs.push(k)) == child_key(Some(nested_key(segs)), k),
{
    assert(segs.push(k).drop_last() =~= segs);
    assert(segs.push(k).last() == k);
}

/// Uppercasing the separator alone gives the separator.
proof fn lemma_upper_of_separator()
    requires
        underscore_upper_fixed(),
    ensures
        upper_of(seq!['_']) == seq!['_'],
{
    assert(seq!['_'].drop_first() =~= Seq::<char>::empty());
    assert(upper_of(seq!['_']) == char_upper_of('_') + upper_of(seq!['_'].drop_first()));
    assert(upper_of(seq!['_']) =~= seq!['_']);
}

/// The underscore-join of stable uppercased segments is itself stable.
proof fn lemma_joined_upper_stable(segs: Seq<Seq<char>>)
    requires
        segs.len() >= 1,
        underscore_upper_fixed(),
        forall|i: int| 0 <= i < segs.len() ==> upper_stable(#[trigger] segs[i]),
    ensures
        upper_of(joined_upper(segs)) == joined_upper(segs),
    decreases segs.len(),
{
    if segs.len() == 1 {
        assert(upper_stable(segs[0]));
    } else {
        assert(forall|i: int|
            0 <= i < segs.drop_last().len() ==> #[trigger] segs.drop_last()[i] == segs[i]);
        lemma_joined_upper_stable(segs.drop_last());
        let j = joined_upper(segs.drop_last());
        let u = upper_of(segs.last());
        lemma_upper_of_concat(j + seq!['_'], u);
        lemma_upper_of_concat(j, seq!['_']);
        lemma_upper_of_separator();
        assert(upper_stable(segs.last()));
        assert(upper_of(j + seq!['_'] + u) == upper_of(j) + upper_of(seq!['_']) + upper_of(u));
    }
}

/// For a leaf reached through segments `k1, ..., kN`, the synthesized key
/// equals `K1_K2_..._KN`, the uppercase, underscore-joined concatenation of
/// the segments — provided each uppercased segment is unchanged by
/// re-uppercasing and the separator has no uppercase mapping, which holds of
/// every real uppercase mapping.
pub proof fn lemma_nested_key_is_join(segs: Seq<Seq<char>>)
    requires
        segs.len() >= 1,
        underscore_upper_fixed(),
        forall|i: int| 0 <= i < segs.len() ==> upper_stable(#[trigger] segs[i]),
    ensures
        nested_key(segs) == joined_upper(segs),
    decreases segs.len(),
{
    if segs.len() > 1 {
        assert(forall|i: int|
            0 <= i < segs.drop_last().len() ==> #[trigger] segs.drop_last()[i] == segs[i]);
        lemma_nested_key_is_join(segs.drop_last());
        lemma_joined_upper_stable(segs.drop_last());
    }
}

/// The key synthesized after descending through the segments from `parent`,
/// exactly as the flattener chains `child_key`.
pub open spec fn descended_key(parent: Option<Seq<char>>, segs: Seq<Seq<char>>) -> Seq<char>
    decreases segs.len(),
{
    if segs.len() <= 1 {
        child_key(
            parent,
            if segs.len() == 1 {
                segs[0]
            } else {
                Seq::empty()
            },
        )
    } else {
        descended_key(Some(child_key(parent, segs[0])), segs.drop_first())
    }
}

/// Appending a segment descends one further level.
proof fn lemma_descended_key_snoc(parent: Option<Seq<char>>, segs: Seq<Seq<char>>, k: Seq<char>)
    requires
        segs.len() >= 1,
    ensures
        descended_key(parent, segs.push(k)) == child_key(Some(descended_key(parent, segs)), k),
    decreases segs.len(),
{
    assert(segs.push(k)[0] == segs[0]);
    if segs.len() == 1 {
        assert(segs.push(k).drop_first() =~= seq![k]);
        assert(seq![k][0] == k);
        assert(descended_key(Some(child_key(parent, segs[0])), seq![k]) == child_key(
            Some(child_key(parent, segs[0])),
            k,
        ));
        assert(descended_key(parent, segs) == child_key(parent, segs[0]));
    } else {
        assert(segs.push(k).drop_first() =~= segs.drop_first().push(k));
        lemma_descended_key_snoc(Some(child_key(parent, segs[0])), segs.drop_first(), k);
        assert(descended_key(parent, segs) == descended_key(
            Some(child_key(parent, segs[0])),
            segs.drop_first(),
        ));
    }
}

/// The descent from the top level synthesizes `nested_key`.
pub proof fn lemma_descended_is_nested(segs: Seq<Seq<char>>)
    requires
        segs.len() >= 1,
    ensures
        descended_key(None, segs) == nested_key(segs),
    decreases segs.len(),
{
    if segs.len() > 1 {
        lemma_descended_is_nested(segs.drop_last());
        assert(segs.drop_last().push(segs.last()) =~= segs);
        lemma_descended_key_snoc(None, segs.drop_last(), segs.last());
    }
}

/// A document that is a single chain of mappings: one entry per level, keyed
/// by the successive segments, with the leaf at the bottom.
pub open spec fn chain_shape(entries: Seq<(Node, Node)>, segs: Seq<Seq<char>>, leaf: Node) -> bool
    decreases segs.len(),
{
    &&& segs.len() >= 1
    &&& entries.len() == 1
    &&& entries[0].0 matches Node::Str(ks) && ks@ == segs[0]
    &&& if segs.len() == 1 {
        entries[0].1 == leaf
    } else {
        entries[0].1 matches Node::Mapping(inner) && chain_shape(inner@, segs.drop_first(), leaf)
    }
}

/// Walking a chain document resolves the leaf under the descended key and
/// stores exactly that one entry.
proof fn lemma_chain_walk(
    entries: Seq<(Node, Node)>,
    segs: Seq<Seq<char>>,
    leaf: Node,
    parent: Option<Seq<char>>,
    prefer_env: bool,
    env: Seq<(Seq<char>, Seq<char>)>,
    acc: Seq<(Seq<char>, ValueModel)>,
    es: Seq<(Seq<char>, ValueModel)>,
)
    requires
        chain_shape(entries, segs, leaf),
        crate::node::is_leaf(leaf),
        build_model(entries, parent, prefer_env, env, acc) == Ok::<
            Seq<(Seq<char>, ValueModel)>,
            ErrView,
        >(es),
    ensures
        resolve_model(descended_key(parent, segs), leaf, prefer_env, env) is Ok,
        es == entries_insert(
            acc,
            descended_key(parent, segs),
            resolve_model(descended_key(parent, segs), leaf, prefer_env, env)->Ok_0,
        ),
    decreases segs.len(),
{
    match entries[0].0 {
        Node::Str(ks) => {
            let key = child_key(parent, ks@);
            if segs.len() == 1 {
                assert(entries[0].1 == leaf);
                assert(descended_key(parent, segs) == key);
                match resolve_model(key, leaf, prefer_env, env) {
                    Ok(v) => {
                        assert(entries.drop_first() =~= Seq::<(Node, Node)>::empty());
                        assert(build_model(
                            Seq::<(Node, Node)>::empty(),
                            parent,
                            prefer_env,
                            env,
                            entries_insert(acc, key, v),
                        ) == Ok::<Seq<(Seq<char>, ValueModel)>, ErrView>(
                            entries_insert(acc, key, v),
                        ));
                        assert(es == entries_insert(acc, key, v));
                    },
                    Err(e) => {
                        assert(false);
                    },
                }
            } else {
                assert(descended_key(parent, segs) == descended_key(
                    Some(key),
                    segs.drop_first(),
                ));
                match entries[0].1 {
                    Node::Mapping(inner) => {
                        match build_model(inner@, Some(key), prefer_env, env, acc) {
                            Ok(acc2) => {
                                lemma_chain_walk(
                                    inner@,
                                    segs.drop_first(),
                                    leaf,
                                    Some(key),
                                    prefer_env,
                                    env,
                                    acc,
                                    acc2,
                                );
                                assert(entries.drop_first() =~= Seq::<(Node, Node)>::empty());
                                assert(build_model(
                                    Seq::<(Node, Node)>::empty(),
                                    parent,
                                    prefer_env,
                                    env,
                                    acc2,
                                ) == Ok::<Seq<(Seq<char>, ValueModel)>, ErrView>(acc2));
                                assert(es == acc2);
                            },
                            Err(e) => {
                            },
                        }
                    },
                    _ => {
                    },
                }
            }
        },
        _ => {
        },
    }
}

/// For a document that is one chain of mappings with a leaf at depth N under
/// the segments `k1, ..., kN`, a successful load yields exactly one entry,
/// keyed `K1_K2_..._KN` — under the same uppercase-stability hypotheses as
/// the join law.
pub proof fn lemma_chain_document_key(
    entries: Seq<(Node, Node)>,
    segs: Seq<Seq<char>>,
    leaf: Node,
    prefer_env: bool,
    env: Seq<(Seq<char>, Seq<char>)>,
    es: Seq<(Seq<char>, ValueModel)>,
)
    requires
        chain_shape(entries, segs, leaf),
        crate::node::is_leaf(leaf),
        build_model(entries, None, prefer_env, env, Seq::empty()) == Ok::<
            Seq<(Seq<char>, ValueModel)>,
            ErrView,
        >(es),
        underscore_upper_fixed(),
        forall|i: int| 0 <= i < segs.len() ==> upper_stable(#[trigger] segs[i]),
    ensures
        es.len() == 1,
        es[0].0 == joined_upper(segs),
{
    lemma_chain_walk(entries, segs, leaf, None, prefer_env, env, Seq::empty(), es);
    lemma_descended_is_nested(segs);
    lemma_nested_key_is_join(segs);
}

/// A null leaf with a present environment variable resolves through the
/// type-inference ladder: integer first, then float, then the literal boolean
/// forms, else the raw string.
pub proof fn lemma_null_leaf_ladder(
    key: Seq<char>,
    prefer_env: bool,
    env: Seq<(Seq<char>, Seq<char>)>,
    text: Seq<char>,
)
    requires
        env_lookup(env, key) == Some(text),
    ensures
        resolve_model(key, Node::Null, prefer_env, env) == Ok::<ValueModel, ErrView>(ladder(text)),
        parse_i64_spec(text) matches Some(n) ==> ladder(text) == ValueModel::Int64(n),
        parse_i64_spec(text) is None && float_text_accepted(text) ==> ladder(text)
            == ValueModel::Float64(text),
        parse_i64_spec(text) is None && !float_text_accepted(text) ==> (parse_bool_spec(text)
            matches Some(b) ==> ladder(text) == ValueModel::Boolean(b)),
        parse_i64_spec(text) is None && !float_text_accepted(text) && parse_bool_spec(text)
            is None ==> ladder(text) == ValueModel::Text(text),
{
}

/// A null leaf with no matching environment variable fails with the
/// environment lookup error, under either preference.
pub proof fn lemma_null_leaf_missing(
    key: Seq<char>,
    prefer_env: bool,
    env: Seq<(Seq<char>, Seq<char>)>,
)
    requires
        env_lookup(env, key) is None,
    ensures
        resolve_model(key, Node::Null, prefer_env, env) == Err::<ValueModel, ErrView>(
            env_lookup_failed(key),
        ),
{
}

/// With the environment preference and a present variable of compatible type,
/// the environment value wins; with the default preference the YAML value
/// wins.
pub proof fn lemma_preference(
    key: Seq<char>,
    env: Seq<(Seq<char>, Seq<char>)>,
    node: Node,
    text: Seq<char>,
)
    requires
        env_lookup(env, key) == Some(text),
    ensures
        node matches Node::Int(i) ==> (parse_i64_spec(text) matches Some(n)
            ==> resolve_model(key, node, true, env) == Ok::<ValueModel, ErrView>(
                ValueModel::Int64(n),
            ) && resolve_model(key, node, false, env) == Ok::<ValueModel, ErrView>(
                ValueModel::Int64(i),
            )),
        node matches Node::Bool(b) ==> (parse_bool_spec(text) matches Some(v)
            ==> resolve_model(key, node, true, env) == Ok::<ValueModel, ErrView>(
                ValueModel::Boolean(v),
            ) && resolve_model(key, node, false, env) == Ok::<ValueModel, ErrView>(
                ValueModel::Boolean(b),
            )),
        node matches Node::Str(s) ==> resolve_model(key, node, true, env) == Ok::<
            ValueModel,
            ErrView,
        >(ValueModel::Text(text)) && resolve_model(key, node, false, env) == Ok::<
            ValueModel,
            ErrView,
        >(ValueModel::Text(s@)),
        node matches Node::Real(t) ==> (yaml_real_accepted(t@) && float_text_accepted(text)
            ==> resolve_model(key, node, true, env) == Ok::<ValueModel, ErrView>(
                ValueModel::Float64(text),
            ) && resolve_model(key, node, false, env) == Ok::<ValueModel, ErrView>(
                ValueModel::Float64(t@),
            )),
{
}

/// With the environment preference and a present compatible variable, the
/// value stored under the key — what a lookup of the configuration returns
/// after the resolver's insert — is the environment's value.
pub proof fn lemma_preference_stored(
    key: Seq<char>,
    env: Seq<(Seq<char>, Seq<char>)>,
    node: Node,
    text: Seq<char>,
    acc: Seq<(Seq<char>, ValueModel)>,
)
    requires
        env_lookup(env, key) == Some(text),
    ensures
        node matches Node::Int(i) ==> (parse_i64_spec(text) matches Some(n) ==> resolve_model(
            key,
            node,
            true,
            env,
        ) == Ok::<ValueModel, ErrView>(ValueModel::Int64(n)) && entries_lookup(
            entries_insert(acc, key, ValueModel::Int64(n)),
            key,
        ) == Some(ValueModel::Int64(n))),
        node matches Node::Bool(b) ==> (parse_bool_spec(text) matches Some(v) ==> resolve_model(
            key,
            node,
            true,
            env,
        ) == Ok::<ValueModel, ErrView>(ValueModel::Boolean(v)) && entries_lookup(
            entries_insert(acc, key, ValueModel::Boolean(v)),
            key,
        ) == Some(ValueModel::Boolean(v))),
        node is Str ==> resolve_model(key, node, true, env) == Ok::<ValueModel, ErrView>(
            ValueModel::Text(text),
        ) && entries_lookup(entries_insert(acc, key, ValueModel::Text(text)), key) == Some(
            ValueModel::Text(text),
        ),
        node matches Node::Real(t) ==> (yaml_real_accepted(t@) && float_text_accepted(text)
            ==> resolve_model(key, node, true, env) == Ok::<ValueModel, ErrView>(
                ValueModel::Float64(text),
            ) && entries_lookup(entries_insert(acc, key, ValueModel::Float64(text)), key) == Some(
                ValueModel::Float64(text),
            )),
{
    lemma_preference(key, env, node, text);
    match node {
        Node::Int(i) => {
            match parse_i64_spec(text) {
                Some(n) => {
                    lemma_insert_lookup(acc, key, ValueModel::Int64(n));
                },
                None => {
                },
            }
        },
        Node::Bool(b) => {
            match parse_bool_spec(text) {
                Some(v) => {
                    lemma_insert_lookup(acc, key, ValueModel::Boolean(v));
                },
                None => {
                },
            }
        },
        Node::Str(t) => {
            lemma_insert_lookup(acc, key, ValueModel::Text(text));
        },
        Node::Real(t) => {
            lemma_insert_lookup(acc, key, ValueModel::Float64(text));
        },
        _ => {
        },
    }
}

} // verus!
