//! The top-level load: scan the text as YAML, take the first document,
//! require a mapping at the root, and flatten it.
//!
//! The YAML text parser itself is an outside collaborator, reached through the
//! trusted items below; everything after it is verified.

use crate::config::config_entries;
use crate::environment::Environment;
use crate::error::{ErrView, ParseError};
use crate::flatten::build_map;
use crate::flatten::build_model;
use crate::node::{node_reals_accepted, Node};
use crate::prefer_env_flag;
use crate::spec_prefer_env;
use crate::Preference;
use crate::Value;
use crate::ValueModel;
use fxhash::FxBuildHasher;
use indexmap::IndexMap;
use vstd::prelude::*;
use vstd::string::*;

verus! {

/// Declares `yaml_rust::Yaml`, the parser's node type; opaque to the
/// verifier, converted away immediately by `yaml_to_node`.
#[verifier::external_type_specification]
#[verifier::external_body]
pub struct ExYaml(yaml_rust::Yaml);

/// Whether the text scans as YAML; a pure function of the text.
pub uninterp spec fn yaml_scans(text: Seq<char>) -> bool;

/// The first document the scanned text holds, as the library's node tree;
/// `None` when the text holds no document. A pure function of the text.
pub uninterp spec fn yaml_first_doc(text: Seq<char>) -> Option<Node>;

/// Converts a `yaml_rust::Yaml` node into the library's tree, one variant per
/// arm, moving the fields over; aliases and invalid nodes become
/// `Node::Other`.
#[verifier::external_body]
fn yaml_to_node(y: yaml_rust::Yaml) -> Node {
    match y {
        yaml_rust::Yaml::Real(s) => Node::Real(s),
        yaml_rust::Yaml::Integer(i) => Node::Int(i),
        yaml_rust::Yaml::String(s) => Node::Str(s),
        yaml_rust::Yaml::Boolean(b) => Node::Bool(b),
        yaml_rust::Yaml::Array(v) => Node::Array(v.into_iter().map(yaml_to_node).collect()),
        yaml_rust::Yaml::Hash(h) => Node::Mapping(
            h.into_iter().map(|p| (yaml_to_node(p.0), yaml_to_node(p.1))).collect(),
        ),
        yaml_rust::Yaml::Alias(_) => Node::Other,
        yaml_rust::Yaml::Null => Node::Null,
        yaml_rust::Yaml::BadValue => Node::Other,
    }
}

/// Relies on `yaml_rust::YamlLoader::load_from_str`: scans the text into its
/// documents, a pure function of the text; the wrapper hands back the first
/// document, converted to the library's node tree. The loader constructs a
/// real scalar only where its own real parse accepts the text (untagged plain
/// scalars through `Yaml::from_str`, float-tagged scalars through the
/// standard parse), so every real in the tree carries accepted text.
#[verifier::external_body]
fn parse_yaml_text(text: &str) -> (r: Result<Option<Node>, yaml_rust::ScanError>)
    ensures
        (r is Ok) == yaml_scans(text@),
        r matches Ok(d) ==> d == yaml_first_doc(text@),
        r matches Ok(d) ==> (d matches Some(doc) ==> node_reals_accepted(doc)),
{
    match yaml_rust::YamlLoader::load_from_str(text) {
        Ok(docs) => Ok(docs.into_iter().next().map(yaml_to_node)),
        Err(e) => Err(e),
    }
}

/// The error reported when the document root is not a mapping, or the text
/// holds no document at all.
pub open spec fn top_level_not_mapping() -> ErrView {
    ErrView { module: "config"@, message: "Failed to parse YAML as hashmap."@ }
}

/// How a load can fail: a scan failure, whose message comes from the scanner;
/// or any later failure, with its exact error.
pub enum LoadErr {
    Scan,
    Failed(ErrView),
}

/// What a load of the given text against the given environment snapshot
/// produces: the configuration entries, or the first failure.
pub open spec fn load_model(
    text: Seq<char>,
    prefer_env: bool,
    env: Seq<(Seq<char>, Seq<char>)>,
) -> Result<Seq<(Seq<char>, ValueModel)>, LoadErr> {
    if !yaml_scans(text) {
        Err(LoadErr::Scan)
    } else {
        match yaml_first_doc(text) {
            Some(Node::Mapping(entries)) => match build_model(
                entries@,
                None,
                prefer_env,
                env,
                Seq::empty(),
            ) {
                Ok(es) => Ok(es),
                Err(e) => Err(LoadErr::Failed(e)),
            },
            _ => Err(LoadErr::Failed(top_level_not_mapping())),
        }
    }
}

/// Loads a configuration from YAML text and an environment snapshot.
///
/// The text is scanned as YAML; the first document must be a mapping, whose
/// leaves are flattened under uppercase, underscore-joined key paths and
/// resolved against the snapshot according to the preference, `PreferYaml`
/// when none is given.
pub fn load_from_str(
    text: &str,
    preference: Option<Preference>,
    environment: &Environment,
) -> (r: Result<IndexMap<String, Value, FxBuildHasher>, ParseError>)
    ensures
        match load_model(text@, spec_prefer_env(preference), environment@) {
            Ok(entries) => r matches Ok(m) && config_entries(m) == entries,
            Err(LoadErr::Scan) => r matches Err(pe) && pe.module@ == "yaml_rust::scanner"@,
            Err(LoadErr::Failed(e)) => r matches Err(pe) && pe@ == e,
        },
        yaml_scans(text@) ==> (yaml_first_doc(text@) matches Some(doc) ==> node_reals_accepted(
            doc,
        )),
{
    let prefer_env = prefer_env_flag(&preference);
    match parse_yaml_text(text) {
        Err(e) => Err(ParseError::from(e)),
        Ok(None) => Err(
            ParseError {
                module: "config".to_owned(),
                message: "Failed to parse YAML as hashmap.".to_owned(),
            },
        ),
        Ok(Some(doc)) => match doc {
            Node::Mapping(entries) => {
                let mut config = crate::config::config_new();
                match build_map(&entries, &mut config, prefer_env, None, environment) {
                    Ok(u) => Ok(config),
                    Err(e) => Err(e),
                }
            },
            _ => Err(
                ParseError {
                    module: "config".to_owned(),
                    message: "Failed to parse YAML as hashmap.".to_owned(),
                },
            ),
        },
    }
}

} // verus!
