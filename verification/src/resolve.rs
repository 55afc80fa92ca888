//! The scalar resolver: given a synthesized key, a leaf node and the
//! preference flag, decides the final typed value, consulting the environment
//! snapshot when required.
//!
//! A null leaf always consults the environment and fails when the variable is
//! absent. A typed leaf under the environment preference consults it too, but
//! a missing variable silently falls back to the YAML value; a variable that
//! is present yet fails the type-specific parse is a hard conversion error,
//! never a fallback.

use crate::config::{config_entries, config_insert, entries_insert};
use crate::environment::{env_lookup, env_lookup_failed, env_or_error, Environment};
use crate::error::{ErrView, ParseError};
use crate::node::Node;
use crate::realtext::{float_text_accepted, is_float_text, is_yaml_real_text, yaml_real_accepted};
use crate::text::{parse_bool, parse_bool_spec, parse_i64, parse_i64_spec};
use crate::Value;
use crate::ValueModel;
use fxhash::FxBuildHasher;
use indexmap::IndexMap;
use vstd::prelude::*;
use vstd::string::*;

verus! {

/// The error reported when a leaf, or the environment text meant to override
/// it, fits none of the supported scalar kinds.
pub open spec fn type_conversion_failed(key: Seq<char>) -> ErrView {
    ErrView { module: "config"@, message: "Failed to convert type for "@ + key }
}

/// Builds the conversion error for `key`.
fn type_error(key: &str) -> (e: ParseError)
    ensures
        e@ == type_conversion_failed(key@),
{
    let mut message = "Failed to convert type for ".to_owned();
    message.append(key);
    ParseError { module: "config".to_owned(), message }
}

/// The type-inference ladder applied to raw environment text: integer first,
/// then float, then the literal boolean forms, else a string.
pub open spec fn ladder(text: Seq<char>) -> ValueModel {
    match parse_i64_spec(text) {
        Some(n) => ValueModel::Int64(n),
        None => if float_text_accepted(text) {
            ValueModel::Float64(text)
        } else {
            match parse_bool_spec(text) {
                Some(b) => ValueModel::Boolean(b),
                None => ValueModel::Text(text),
            }
        },
    }
}

/// What the scalar resolver returns for a leaf: the final typed value, or the
/// error that aborts the load.
pub open spec fn resolve_model(
    key: Seq<char>,
    node: Node,
    prefer_env: bool,
    env: Seq<(Seq<char>, Seq<char>)>,
) -> Result<ValueModel, ErrView> {
    match node {
        Node::Null => match env_lookup(env, key) {
            Some(text) => Ok(ladder(text)),
            None => Err(env_lookup_failed(key)),
        },
        Node::Str(s) => if prefer_env {
            match env_lookup(env, key) {
                Some(t) => Ok(ValueModel::Text(t)),
                None => Ok(ValueModel::Text(s@)),
            }
        } else {
            Ok(ValueModel::Text(s@))
        },
        Node::Int(i) => if prefer_env {
            match env_lookup(env, key) {
                Some(t) => match parse_i64_spec(t) {
                    Some(n) => Ok(ValueModel::Int64(n)),
                    None => Err(type_conversion_failed(key)),
                },
                None => Ok(ValueModel::Int64(i)),
            }
        } else {
            Ok(ValueModel::Int64(i))
        },
        Node::Bool(b) => if prefer_env {
            match env_lookup(env, key) {
                Some(t) => match parse_bool_spec(t) {
                    Some(v) => Ok(ValueModel::Boolean(v)),
                    None => Err(type_conversion_failed(key)),
                },
                None => Ok(ValueModel::Boolean(b)),
            }
        } else {
            Ok(ValueModel::Boolean(b))
        },
        Node::Real(t) => if yaml_real_accepted(t@) {
            if prefer_env {
                match env_lookup(env, key) {
                    Some(e) => if float_text_accepted(e) {
                        Ok(ValueModel::Float64(e))
                    } else {
                        Err(type_conversion_failed(key))
                    },
                    None => Ok(ValueModel::Float64(t@)),
                }
            } else {
                Ok(ValueModel::Float64(t@))
            }
        } else {
            Err(type_conversion_failed(key))
        },
        _ => Err(type_conversion_failed(key)),
    }
}

/// The value a scalar leaf declares literally, with its inferred type.
pub open spec fn literal_value(n: Node) -> ValueModel {
    match n {
        Node::Str(s) => ValueModel::Text(s@),
        Node::Int(i) => ValueModel::Int64(i),
        Node::Bool(b) => ValueModel::Boolean(b),
        Node::Real(t) => ValueModel::Float64(t@),
        _ => arbitrary(),
    }
}

/// With the YAML preference, a scalar leaf resolves to its literal value; the
/// environment is never consulted.
pub proof fn lemma_resolve_literal(
    key: Seq<char>,
    node: Node,
    env: Seq<(Seq<char>, Seq<char>)>,
)
    requires
        crate::node::is_scalar_leaf(node),
        node matches Node::Real(t) ==> yaml_real_accepted(t@),
    ensures
        resolve_model(key, node, false, env) == Ok::<ValueModel, ErrView>(literal_value(node)),
{
}

/// Resolves the leaf under `key` and stores the result in the configuration;
/// on an error the configuration is left unchanged.
pub fn maybe_yaml_to_value(
    key: &str,
    maybe_val: &Node,
    prefer_env: bool,
    map: &mut IndexMap<String, Value, FxBuildHasher>,
    environment: &Environment,
) -> (r: Result<(), ParseError>)
    ensures
        match resolve_model(key@, *maybe_val, prefer_env, environment@) {
            Ok(v) => r is Ok && config_entries(*final(map)) == entries_insert(
                config_entries(*old(map)),
                key@,
                v,
            ),
            Err(e) => (r matches Err(pe) && pe@ == e) && config_entries(*final(map))
                == config_entries(*old(map)),
        },
{
    match maybe_val {
        Node::Null => {
            let val_str = match env_or_error(key, environment) {
                Ok(v) => v,
                Err(e) => {
                    return Err(e);
                },
            };
            let val = match parse_i64(val_str.as_str()) {
                Some(v) => Value::Int64(v),
                None => {
                    if is_float_text(val_str.as_str()) {
                        Value::Float64(val_str)
                    } else {
                        match parse_bool(val_str.as_str()) {
                            Some(b) => Value::Bool(b),
                            None => Value::String(val_str),
                        }
                    }
                },
            };
            config_insert(map, key.to_owned(), val);
            Ok(())
        },
        Node::Str(s) => {
            if prefer_env {
                match env_or_error(key, environment) {
                    Ok(v) => {
                        config_insert(map, key.to_owned(), Value::String(v));
                    },
                    Err(_) => {
                        config_insert(map, key.to_owned(), Value::String(s.clone()));
                    },
                }
            } else {
                config_insert(map, key.to_owned(), Value::String(s.clone()));
            }
            Ok(())
        },
        Node::Int(i) => {
            if prefer_env {
                match env_or_error(key, environment) {
                    Ok(v) => match parse_i64(v.as_str()) {
                        Some(e_val) => {
                            config_insert(map, key.to_owned(), Value::Int64(e_val));
                            Ok(())
                        },
                        None => Err(type_error(key)),
                    },
                    Err(_) => {
                        config_insert(map, key.to_owned(), Value::Int64(*i));
                        Ok(())
                    },
                }
            } else {
                config_insert(map, key.to_owned(), Value::Int64(*i));
                Ok(())
            }
        },
        Node::Bool(b) => {
            if prefer_env {
                match env_or_error(key, environment) {
                    Ok(v) => match parse_bool(v.as_str()) {
                        Some(e_val) => {
                            config_insert(map, key.to_owned(), Value::Bool(e_val));
                            Ok(())
                        },
                        None => Err(type_error(key)),
                    },
                    Err(_) => {
                        config_insert(map, key.to_owned(), Value::Bool(*b));
                        Ok(())
                    },
                }
            } else {
                config_insert(map, key.to_owned(), Value::Bool(*b));
                Ok(())
            }
        },
        Node::Real(t) => {
            if is_yaml_real_text(t.as_str()) {
                if prefer_env {
                    match env_or_error(key, environment) {
                        Ok(v) => {
                            if is_float_text(v.as_str()) {
                                config_insert(map, key.to_owned(), Value::Float64(v));
                                Ok(())
                            } else {
                                Err(type_error(key))
                            }
                        },
                        Err(_) => {
                            config_insert(map, key.to_owned(), Value::Float64(t.clone()));
                            Ok(())
                        },
                    }
                } else {
                    config_insert(map, key.to_owned(), Value::Float64(t.clone()));
                    Ok(())
                }
            } else {
                Err(type_error(key))
            }
        },
        Node::Array(_) => Err(type_error(key)),
        Node::Mapping(_) => Err(type_error(key)),
        Node::Other => Err(type_error(key)),
    }
}

} // verus!
