//! The tree flattener: walks the parsed document depth-first, synthesizes
//! uppercase underscore-joined key paths, rejects sequence values, and hands
//! each leaf to the scalar resolver, accumulating the results in the
//! configuration being built.

use crate::config::{config_entries, entries_insert};
use crate::environment::Environment;
use crate::error::{ErrView, ParseError};
use crate::node::Node;
use crate::resolve::{maybe_yaml_to_value, resolve_model};
use crate::text::{i64_text, i64_to_string, to_upper, upper_of};
use crate::Value;
use crate::ValueModel;
use fxhash::FxBuildHasher;
use indexmap::IndexMap;
use vstd::prelude::*;
use vstd::string::*;

verus! {

/// The rendering of a key node inside the conversion error: an integer's
/// digits, a boolean's literal, a real's text, `null`, or a kind tag.
pub open spec fn key_render(n: Node) -> Seq<char> {
    match n {
        Node::Null => "null"@,
        Node::Str(s) => s@,
        Node::Int(i) => i64_text(i),
        Node::Bool(b) => if b {
            "true"@
        } else {
            "false"@
        },
        Node::Real(t) => t@,
        Node::Array(elems) => "array"@,
        Node::Mapping(entries) => "mapping"@,
        Node::Other => "other"@,
    }
}

/// Renders a key node for the conversion error.
fn render_key(n: &Node) -> (r: String)
    ensures
        r@ == key_render(*n),
{
    match n {
        Node::Null => "null".to_owned(),
        Node::Str(s) => s.clone(),
        Node::Int(i) => i64_to_string(*i),
        Node::Bool(b) => if *b {
            "true".to_owned()
        } else {
            "false".to_owned()
        },
        Node::Real(t) => t.clone(),
        Node::Array(elems) => "array".to_owned(),
        Node::Mapping(entries) => "mapping".to_owned(),
        Node::Other => "other".to_owned(),
    }
}

/// The error reported when a mapping key is not a string scalar, naming the
/// offending key by its rendering.
pub open spec fn key_conversion_failed(rendered: Seq<char>) -> ErrView {
    ErrView {
        module: "config"@,
        message: "Could not convert key "@ + rendered + " into String."@,
    }
}

/// The error reported when a sequence value occurs anywhere in the tree.
pub open spec fn unsupported_array() -> ErrView {
    ErrView {
        module: "config::build_map"@,
        message: "Arrays are currently unsupported for configuration."@,
    }
}

/// The key path of a child: the uppercased parent path, an underscore, and the
/// uppercased local key; or the uppercased local key alone at the top level.
pub open spec fn child_key(parent: Option<Seq<char>>, local: Seq<char>) -> Seq<char> {
    match parent {
        None => upper_of(local),
        Some(p) => upper_of(p) + seq!['_'] + upper_of(local),
    }
}

/// The view of an optional borrowed path.
pub open spec fn opt_str_view(o: Option<&str>) -> Option<Seq<char>> {
    match o {
        Some(s) => Some(s@),
        None => None,
    }
}

/// Converts a mapping key node into its string.
pub fn key_string<'a>(key: &'a Node) -> (r: Result<&'a str, ParseError>)
    ensures
        match *key {
            Node::Str(s) => r matches Ok(t) && t@ == s@,
            _ => r matches Err(e) && e@ == key_conversion_failed(key_render(*key)),
        },
{
    match key {
        Node::Str(s) => Ok(s.as_str()),
        _ => {
            let mut message = "Could not convert key ".to_owned();
            message.append(render_key(key).as_str());
            message.append(" into String.");
            Err(ParseError { module: "config".to_owned(), message })
        },
    }
}

/// What the recursive builder leaves in the configuration: the entries after
/// walking `entries` under `parent`, starting from `acc`; or the first error
/// met in document order.
pub open spec fn build_model(
    entries: Seq<(Node, Node)>,
    parent: Option<Seq<char>>,
    prefer_env: bool,
    env: Seq<(Seq<char>, Seq<char>)>,
    acc: Seq<(Seq<char>, ValueModel)>,
) -> Result<Seq<(Seq<char>, ValueModel)>, ErrView>
    decreases entries,
    via build_model_decreases
{
    if entries.len() == 0 {
        Ok(acc)
    } else {
        match entries[0].0 {
            Node::Str(ks) => {
                let key = child_key(parent, ks@);
                match entries[0].1 {
                    Node::Array(elems) => Err(unsupported_array()),
                    Node::Mapping(inner) => match build_model(inner@, Some(key), prefer_env, env, acc) {
                        Ok(acc2) => build_model(
                            entries.drop_first(),
                            parent,
                            prefer_env,
                            env,
                            acc2,
                        ),
                        Err(e) => Err(e),
                    },
                    _ => match resolve_model(key, entries[0].1, prefer_env, env) {
                        Ok(v) => build_model(
                            entries.drop_first(),
                            parent,
                            prefer_env,
                            env,
                            entries_insert(acc, key, v),
                        ),
                        Err(e) => Err(e),
                    },
                }
            },
            _ => Err(key_conversion_failed(key_render(entries[0].0))),
        }
    }
}

/// What the walk has stored when it stops: the accumulated entries at the
/// point of success or at the first error, each leaf resolved before the
/// error kept.
pub open spec fn build_partial(
    entries: Seq<(Node, Node)>,
    parent: Option<Seq<char>>,
    prefer_env: bool,
    env: Seq<(Seq<char>, Seq<char>)>,
    acc: Seq<(Seq<char>, ValueModel)>,
) -> Seq<(Seq<char>, ValueModel)>
    decreases entries,
    via build_partial_decreases
{
    if entries.len() == 0 {
        acc
    } else {
        match entries[0].0 {
            Node::Str(ks) => {
                let key = child_key(parent, ks@);
                match entries[0].1 {
                    Node::Array(elems) => acc,
                    Node::Mapping(inner) => match build_model(inner@, Some(key), prefer_env, env, acc) {
                        Ok(acc2) => build_partial(
                            entries.drop_first(),
                            parent,
                            prefer_env,
                            env,
                            acc2,
                        ),
                        Err(e) => build_partial(inner@, Some(key), prefer_env, env, acc),
                    },
                    _ => match resolve_model(key, entries[0].1, prefer_env, env) {
                        Ok(v) => build_partial(
                            entries.drop_first(),
                            parent,
                            prefer_env,
                            env,
                            entries_insert(acc, key, v),
                        ),
                        Err(e) => acc,
                    },
                }
            },
            _ => acc,
        }
    }
}

#[via_fn]
proof fn build_partial_decreases(
    entries: Seq<(Node, Node)>,
    parent: Option<Seq<char>>,
    prefer_env: bool,
    env: Seq<(Seq<char>, Seq<char>)>,
    acc: Seq<(Seq<char>, ValueModel)>,
) {
    if entries.len() > 0 {
        assert(entries.drop_first() =~= entries.subrange(1, entries.len() as int));
        assert(decreases_to!(entries => entries.subrange(1, entries.len() as int)));
        match entries[0].1 {
            Node::Mapping(inner) => {
                assert(decreases_to!(entries => entries[0]));
                assert(decreases_to!(entries[0] => entries[0].1));
                assert(decreases_to!(entries[0].1 => entries[0].1->Mapping_0));
                assert(entries[0].1->Mapping_0 == inner);
                assert(decreases_to!(inner => inner@));
                assert(decreases_to!(entries => inner@));
            },
            _ => {},
        }
    }
}

#[via_fn]
proof fn build_model_decreases(
    entries: Seq<(Node, Node)>,
    parent: Option<Seq<char>>,
    prefer_env: bool,
    env: Seq<(Seq<char>, Seq<char>)>,
    acc: Seq<(Seq<char>, ValueModel)>,
) {
    if entries.len() > 0 {
        assert(entries.drop_first() =~= entries.subrange(1, entries.len() as int));
        assert(decreases_to!(entries => entries.subrange(1, entries.len() as int)));
        match entries[0].1 {
            Node::Mapping(inner) => {
                assert(decreases_to!(entries => entries[0]));
                assert(decreases_to!(entries[0] => entries[0].1));
                assert(decreases_to!(entries[0].1 => entries[0].1->Mapping_0));
                assert(entries[0].1->Mapping_0 == inner);
                assert(decreases_to!(inner => inner@));
                assert(decreases_to!(entries => inner@));
            },
            _ => {},
        }
    }
}

/// Walks one mapping level, recursing into nested mappings; the configuration
/// afterwards holds exactly what the model says, and the first error in
/// document order aborts the walk.
#[verifier::loop_isolation(false)]
pub fn build_map(
    root: &Vec<(Node, Node)>,
    config: &mut IndexMap<String, Value, FxBuildHasher>,
    prefer_env: bool,
    current_key_str: Option<&str>,
    environment: &Environment,
) -> (r: Result<(), ParseError>)
    ensures
        match build_model(
            root@,
            opt_str_view(current_key_str),
            prefer_env,
            environment@,
            config_entries(*old(config)),
        ) {
            Ok(entries) => r is Ok && config_entries(*final(config)) == entries,
            Err(e) => r matches Err(pe) && pe@ == e && config_entries(*final(config))
                == build_partial(
                root@,
                opt_str_view(current_key_str),
                prefer_env,
                environment@,
                config_entries(*old(config)),
            ),
        },
    decreases root@,
{
    let ghost pview = opt_str_view(current_key_str);
    let ghost envv = environment@;
    let ghost acc0 = config_entries(*config);
    let n = root.len();
    let mut idx: usize = 0;
    proof {
        assert(root@.skip(0) =~= root@);
    }
    while idx < n
        invariant
            0 <= idx <= n,
            n == root@.len(),
            pview == opt_str_view(current_key_str),
            envv == environment@,
            build_model(root@, pview, prefer_env, envv, acc0) == build_model(
                root@.skip(idx as int),
                pview,
                prefer_env,
                envv,
                config_entries(*config),
            ),
            build_partial(root@, pview, prefer_env, envv, acc0) == build_partial(
                root@.skip(idx as int),
                pview,
                prefer_env,
                envv,
                config_entries(*config),
            ),
        decreases n - idx,
    {
        let ghost rest = root@.skip(idx as int);
        proof {
            assert(rest[0] == root@[idx as int]);
            assert(rest.drop_first() =~= root@.skip(idx + 1));
        }
        let local = match key_string(&root[idx].0) {
            Ok(s) => s,
            Err(e) => {
                return Err(e);
            },
        };
        let key_str: String = match current_key_str {
            Some(k) => {
                let mut nk = to_upper(k);
                nk.append("_");
                let lu = to_upper(local);
                nk.append(lu.as_str());
                nk
            },
            None => to_upper(local),
        };
        proof {
            reveal_strlit("_");
            assert("_"@ =~= seq!['_']);
            assert(key_str@ == child_key(pview, local@));
        }
        match &root[idx].1 {
            Node::Array(elems) => {
                return Err(
                    ParseError {
                        module: "config::build_map".to_owned(),
                        message: "Arrays are currently unsupported for configuration.".to_owned(),
                    },
                );
            },
            Node::Mapping(inner) => {
                proof {
                    assert(decreases_to!(root@ => root@[idx as int]));
                    assert(decreases_to!(root@[idx as int] => root@[idx as int].1));
                    assert(decreases_to!(root@[idx as int].1 => root@[idx as int].1->Mapping_0));
                    assert(root@[idx as int].1->Mapping_0 == *inner);
                    assert(decreases_to!(*inner => inner@));
                    assert(decreases_to!(root@ => inner@));
                }
                match build_map(inner, config, prefer_env, Some(key_str.as_str()), environment) {
                    Ok(u) => {
                    },
                    Err(e) => {
                        return Err(e);
                    },
                }
            },
            _ => {
                match maybe_yaml_to_value(
                    key_str.as_str(),
                    &root[idx].1,
                    prefer_env,
                    config,
                    environment,
                ) {
                    Ok(u) => {
                    },
                    Err(e) => {
                        return Err(e);
                    },
                }
            },
        }
        idx = idx + 1;
    }
    proof {
        assert(root@.skip(n as int) =~= Seq::<(Node, Node)>::empty());
    }
    Ok(())
}

} // verus!
