//! The generic tree of nodes that YAML parsing produces, modelled with plain
//! values: scalars carry their value or text, reals carry their textual form,
//! and mappings keep their entries in document order.

use crate::realtext::yaml_real_accepted;
use vstd::prelude::*;

verus! {

/// One node of a parsed YAML document.
pub enum Node {
    /// A null scalar.
    Null,
    /// A string scalar.
    Str(String),
    /// An integer scalar.
    Int(i64),
    /// A boolean scalar.
    Bool(bool),
    /// A real scalar, kept as its textual form and parsed on demand.
    Real(String),
    /// A sequence of nodes.
    Array(Vec<Node>),
    /// A mapping, with key and value nodes in document order.
    Mapping(Vec<(Node, Node)>),
    /// A node of no supported kind: an alias or an invalid node.
    Other,
}

/// A leaf is any node that is not a mapping.
pub open spec fn is_leaf(n: Node) -> bool {
    !(n is Mapping)
}

/// A scalar leaf: a typed, non-null leaf.
pub open spec fn is_scalar_leaf(n: Node) -> bool {
    n is Str || n is Int || n is Bool || n is Real
}

/// Every real scalar in the tree carries text its on-demand float parse
/// accepts; true of every tree the YAML loader produces.
pub open spec fn node_reals_accepted(n: Node) -> bool
    decreases n,
{
    match n {
        Node::Real(t) => yaml_real_accepted(t@),
        Node::Mapping(entries) => forall|i: int|
            0 <= i < entries@.len() ==> node_reals_accepted((#[trigger] entries@[i]).0)
                && node_reals_accepted(entries@[i].1),
        Node::Array(elems) => forall|i: int|
            0 <= i < elems@.len() ==> node_reals_accepted(#[trigger] elems@[i]),
        _ => true,
    }
}

/// Whether a sequence node occurs anywhere in the tree.
pub open spec fn node_contains_array(n: Node) -> bool
    decreases n,
{
    match n {
        Node::Array(_) => true,
        Node::Mapping(entries) => exists|i: int|
            0 <= i < entries@.len() && (node_contains_array(#[trigger] entries@[i].0)
                || node_contains_array(entries@[i].1)),
        _ => false,
    }
}

} // verus!
