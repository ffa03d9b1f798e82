//! From YAML text to the description of an API.

use vstd::prelude::*;
use yaml_rust::Yaml;
use crate::document::{Entry, Node, NodeView};
use crate::error::{result_view, LoadError, LoadErrorView};
use crate::parser::{apis_of, from_yaml};
use crate::schema::{Api, ApiView};

verus! {

/// A YAML value, `yaml_rust::Yaml`. Nothing inside it is visible; `node_of`
/// turns it into a [`Node`].
#[verifier::external_type_specification]
#[verifier::external_body]
pub struct ExYaml(yaml_rust::Yaml);

/// What a YAML value holds, as the value of a [`Node`]: each case of
/// `yaml_rust::Yaml` is the case of the same kind, with the same contents.
pub uninterp spec fn yaml_node(yaml: Yaml) -> NodeView;

/// The documents that a YAML text holds, or nothing where the text is not
/// well formed: what `yaml_rust::YamlLoader::load_from_str` returns.
pub uninterp spec fn yaml_documents(source: Seq<char>) -> Option<Seq<NodeView>>;

/// What each of the YAML values holds.
pub open spec fn yaml_nodes(documents: Seq<Yaml>) -> Seq<NodeView> {
    Seq::new(documents.len(), |i: int| yaml_node(documents[i]))
}

/// Reads the documents of a YAML text. This is
/// `yaml_rust::YamlLoader::load_from_str`, which is taken on trust: whether
/// it returns documents, and what they hold, depends on the text alone, and
/// `yaml_documents` is the name of that result. That the call returns for
/// every text is taken on trust as well, and nothing here shows it: the
/// scanner and the parser behind it stop the program where an invariant of
/// their own fails, and they descend once for each level of nesting in the
/// text.
#[verifier::external_body]
fn load(source: &str) -> (out: Option<Vec<Yaml>>)
    ensures
        match out {
            Some(documents) => yaml_documents(source@) == Some(yaml_nodes(documents@)),
            None => yaml_documents(source@) is None,
        },
{
    yaml_rust::YamlLoader::load_from_str(source).ok()
}

/// The node that a YAML value stands for. Each case of `yaml_rust::Yaml`
/// becomes the case of the same kind with the same contents, and the
/// values inside a list or a mapping are turned in the same way, in their
/// order. This is taken on trust, and `yaml_node` is the name of the result.
#[verifier::external_body]
fn node_of(yaml: &Yaml) -> (out: Node)
    ensures
        out@ == yaml_node(*yaml),
{
    match yaml {
        Yaml::Real(s) => Node::Real(s.clone()),
        Yaml::Integer(i) => Node::Integer(*i),
        Yaml::String(s) => Node::Text(s.clone()),
        Yaml::Boolean(b) => Node::Boolean(*b),
        Yaml::Array(a) => Node::List(a.iter().map(node_of).collect()),
        Yaml::Hash(h) => Node::Table(
            h.iter().map(|(k, v)| Entry { key: node_of(k), value: node_of(v) }).collect(),
        ),
        Yaml::Alias(a) => Node::Alias(*a),
        Yaml::Null => Node::Null,
        Yaml::BadValue => Node::Bad,
    }
}

/// The description that a document gives, if there is a document.
pub open spec fn described(document: Option<NodeView>) -> Result<Seq<ApiView>, LoadErrorView> {
    match document {
        None => Err(LoadErrorView::NoDocument),
        Some(document) => match apis_of(document) {
            Ok(apis) => Ok(apis),
            Err(error) => Err(LoadErrorView::Schema(error)),
        },
    }
}

/// The description that the documents of a text give: that of the first
/// document.
pub open spec fn loaded(documents: Option<Seq<NodeView>>) -> Result<Seq<ApiView>, LoadErrorView> {
    match documents {
        None => Err(LoadErrorView::Syntax),
        Some(documents) => if documents.len() == 0 {
            described(None)
        } else {
            described(Some(documents[0]))
        },
    }
}

/// Reads the description of an API from a document, if there is one.
pub fn describe(document: Option<&Node>) -> (out: Result<Vec<Api>, LoadError>)
    ensures
        result_view(out) == described(document.deep_view()),
{
    match document {
        None => Err(LoadError::NoDocument),
        Some(document) => match from_yaml(document) {
            Ok(apis) => Ok(apis),
            Err(error) => Err(LoadError::Schema(error)),
        },
    }
}

/// Reads the description of an API from a YAML text. Only the first
/// document of the text counts.
pub fn load_apis(source: &str) -> (out: Result<Vec<Api>, LoadError>)
    ensures
        result_view(out) == loaded(yaml_documents(source@)),
{
    match load(source) {
        None => Err(LoadError::Syntax),
        Some(documents) => {
            if documents.len() == 0 {
                describe(None)
            } else {
                let first = node_of(&documents[0]);
                describe(Some(&first))
            }
        },
    }
}

} // verus!
