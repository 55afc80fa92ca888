//! Loads a YAML document and flattens it into an ordered mapping from
//! uppercase, underscore-joined key paths to typed scalar values, resolving
//! null or overridden leaves against a snapshot of environment variables.

pub mod config;
pub mod environment;
pub mod error;
pub mod flatten;
pub mod laws;
pub mod loader;
pub mod node;
pub mod realtext;
pub mod resolve;
pub mod text;

pub use crate::environment::Environment;
pub use crate::error::ParseError;
pub use crate::loader::load_from_str;

use vstd::prelude::*;

verus! {

/// Defines the preference for loading of a configuration when a variable exists in the
/// YAML and also along the same path in the environment.
#[derive(Debug, PartialEq, Eq, Structural)]
pub enum Preference {
    PreferYaml,
    PreferEnv,
}

/// True when the caller asked for environment values to win over YAML values.
pub open spec fn spec_prefer_env(preference: Option<Preference>) -> bool {
    preference == Some(Preference::PreferEnv)
}

/// Turns the optional preference into the flag that drives the tree walk.
pub fn prefer_env_flag(preference: &Option<Preference>) -> (r: bool)
    ensures
        r == spec_prefer_env(*preference),
{
    match preference {
        Some(p) => *p == Preference::PreferEnv,
        None => false,
    }
}

/// The mathematical image of a `Value`: the same six scalar kinds over
/// mathematical sequences.
pub enum ValueModel {
    Int32(i32),
    Int64(i64),
    Float32(Seq<char>),
    Float64(Seq<char>),
    Text(Seq<char>),
    Boolean(bool),
}

/// A typed scalar held by the configuration.
///
/// Floating-point kinds carry the textual form the value had in the document
/// or in the environment; callers parse that text when they need the number.
/// The 32-bit kinds exist for forward compatibility and are never produced by
/// the loader.
#[derive(Debug)]
pub enum Value {
    Int32(i32),
    Int64(i64),
    Float32(String),
    Float64(String),
    String(String),
    Bool(bool),
}

impl View for Value {
    type V = ValueModel;

    open spec fn view(&self) -> ValueModel {
        match self {
            Value::Int32(v) => ValueModel::Int32(*v),
            Value::Int64(v) => ValueModel::Int64(*v),
            Value::Float32(t) => ValueModel::Float32(t@),
            Value::Float64(t) => ValueModel::Float64(t@),
            Value::String(t) => ValueModel::Text(t@),
            Value::Bool(v) => ValueModel::Boolean(*v),
        }
    }
}

impl PartialEq for Value {
    fn eq(&self, other: &Value) -> (r: bool) {
        match (self, other) {
            (Value::Int32(a), Value::Int32(b)) => *a == *b,
            (Value::Int64(a), Value::Int64(b)) => *a == *b,
            (Value::Float32(a), Value::Float32(b)) => crate::text::str_eq(a.as_str(), b.as_str()),
            (Value::Float64(a), Value::Float64(b)) => crate::text::str_eq(a.as_str(), b.as_str()),
            (Value::String(a), Value::String(b)) => crate::text::str_eq(a.as_str(), b.as_str()),
            (Value::Bool(a), Value::Bool(b)) => *a == *b,
            _ => false,
        }
    }
}

impl vstd::std_specs::cmp::PartialEqSpecImpl for Value {
    open spec fn obeys_eq_spec() -> bool {
        true
    }

    open spec fn eq_spec(&self, other: &Value) -> bool {
        self@ == other@
    }
}

impl Value {
    /// The held 64-bit integer, when the value is of that kind.
    pub fn as_i64(&self) -> (r: Option<&i64>)
        ensures
            match self@ {
                ValueModel::Int64(n) => r matches Some(v) && *v == n,
                _ => r is None,
            },
    {
        match self {
            Value::Int64(v) => Some(v),
            _ => None,
        }
    }

    /// The held 32-bit integer, when the value is of that kind.
    pub fn as_i32(&self) -> (r: Option<&i32>)
        ensures
            match self@ {
                ValueModel::Int32(n) => r matches Some(v) && *v == n,
                _ => r is None,
            },
    {
        match self {
            Value::Int32(v) => Some(v),
            _ => None,
        }
    }

    /// The held boolean, when the value is of that kind.
    pub fn as_bool(&self) -> (r: Option<&bool>)
        ensures
            match self@ {
                ValueModel::Boolean(b) => r matches Some(v) && *v == b,
                _ => r is None,
            },
    {
        match self {
            Value::Bool(v) => Some(v),
            _ => None,
        }
    }

    /// The held string, when the value is of that kind.
    pub fn as_string(&self) -> (r: Option<&String>)
        ensures
            match self@ {
                ValueModel::Text(t) => r matches Some(v) && v@ == t,
                _ => r is None,
            },
    {
        match self {
            Value::String(v) => Some(v),
            _ => None,
        }
    }

    /// The textual form of the held 64-bit float, when the value is of that
    /// kind.
    pub fn as_float_text(&self) -> (r: Option<&String>)
        ensures
            match self@ {
                ValueModel::Float64(t) => r matches Some(v) && v@ == t,
                _ => r is None,
            },
    {
        match self {
            Value::Float64(v) => Some(v),
            _ => None,
        }
    }

    /// The textual form of the held 32-bit float, when the value is of that
    /// kind.
    pub fn as_float32_text(&self) -> (r: Option<&String>)
        ensures
            match self@ {
                ValueModel::Float32(t) => r matches Some(v) && v@ == t,
                _ => r is None,
            },
    {
        match self {
            Value::Float32(v) => Some(v),
            _ => None,
        }
    }
}

} // verus!
