//! YAML, as `serde_yaml` decodes it.

use vstd::prelude::*;

verus! {

// ---------------------------------------------------------------------------
// Decoded YAML
// ---------------------------------------------------------------------------

/// A decoded YAML value, as a mathematical object.
pub enum YamlModel {
    Null,
    Bool(bool),
    /// A number, as `serde_yaml` writes it.
    Number(Seq<char>),
    String(Seq<char>),
    Sequence(Seq<YamlModel>),
    /// The entries of a mapping, in the order of the document.
    Mapping(Seq<(YamlModel, YamlModel)>),
    /// A value with a YAML tag, which this library does not look into.
    Tagged,
}

/// One entry of a decoded YAML mapping.
#[derive(Debug)]
pub struct YamlEntry {
    pub key: YamlNode,
    pub value: YamlNode,
}

/// A decoded YAML value.
#[derive(Debug)]
pub enum YamlNode {
    Null,
    Bool(bool),
    Number(String),
    String(String),
    Sequence(Vec<YamlNode>),
    Mapping(Vec<YamlEntry>),
    Tagged,
}

/// The models of a sequence of values.
pub open spec fn yaml_views(v: Seq<YamlNode>) -> Seq<YamlModel>
    decreases v,
{
    Seq::new(
        v.len(),
        |i: int|
            if 0 <= i < v.len() {
                v[i].view()
            } else {
                YamlModel::Null
            },
    )
}

/// The models of the entries of a mapping.
pub open spec fn yaml_entry_views(v: Seq<YamlEntry>) -> Seq<(YamlModel, YamlModel)>
    decreases v,
{
    Seq::new(
        v.len(),
        |i: int|
            if 0 <= i < v.len() {
                (v[i].key.view(), v[i].value.view())
            } else {
                (YamlModel::Null, YamlModel::Null)
            },
    )
}

impl View for YamlNode {
    type V = YamlModel;

    open spec fn view(&self) -> YamlModel
        decreases self,
    {
        match self {
            YamlNode::Null => YamlModel::Null,
            YamlNode::Bool(b) => YamlModel::Bool(*b),
            YamlNode::Number(t) => YamlModel::Number(t@),
            YamlNode::String(s) => YamlModel::String(s@),
            YamlNode::Sequence(v) => YamlModel::Sequence(yaml_views(v@)),
            YamlNode::Mapping(v) => YamlModel::Mapping(yaml_entry_views(v@)),
            YamlNode::Tagged => YamlModel::Tagged,
        }
    }
}

/// A value of `serde_yaml`. The library sees nothing inside it.
#[verifier::external_type_specification]
#[verifier::external_body]
pub struct ExYamlValue(serde_yaml::Value);

/// An error of `serde_yaml`. The library sees nothing inside it.
#[verifier::external_type_specification]
#[verifier::external_body]
pub struct ExYamlError(serde_yaml::Error);

/// What `serde_yaml` decodes a text to: `None` where it reports an error.
pub uninterp spec fn yaml_decode(text: Seq<char>) -> Option<YamlModel>;

/// What a value of `serde_yaml` holds.
pub uninterp spec fn yaml_content(value: serde_yaml::Value) -> YamlModel;

/// Decodes a YAML text.
///
/// Trusted: calls `serde_yaml::from_str` for a `serde_yaml::Value`. The
/// contract names the outcome, which depends on the text alone.
#[verifier::external_body]
fn yaml_from_str(text: &str) -> (r: Result<serde_yaml::Value, serde_yaml::Error>)
    ensures
        match r {
            Ok(v) => yaml_decode(text@) == Some(yaml_content(v)),
            Err(_) => yaml_decode(text@) is None,
        },
{
    serde_yaml::from_str::<serde_yaml::Value>(text)
}

/// Copies what a value of `serde_yaml` holds.
///
/// Trusted: tells the variants of `serde_yaml::Value` apart and moves what
/// each holds: a number as the text that `serde_yaml` writes for it, the
/// entries of a mapping in the order in which the mapping yields them.
#[verifier::external_body]
fn yaml_node(value: &serde_yaml::Value) -> (r: YamlNode)
    ensures
        r@ == yaml_content(*value),
{
    match value {
        serde_yaml::Value::Null => YamlNode::Null,
        serde_yaml::Value::Bool(b) => YamlNode::Bool(*b),
        serde_yaml::Value::Number(n) => YamlNode::Number(n.to_string()),
        serde_yaml::Value::String(s) => YamlNode::String(s.clone()),
        serde_yaml::Value::Sequence(items) => YamlNode::Sequence(items.iter().map(yaml_node).collect()),
        serde_yaml::Value::Mapping(m) => YamlNode::Mapping(
            m.iter().map(|(k, v)| YamlEntry { key: yaml_node(k), value: yaml_node(v) }).collect(),
        ),
        serde_yaml::Value::Tagged(_) => YamlNode::Tagged,
    }
}

/// Writes an error of `serde_yaml` as text.
///
/// Trusted: calls the error's `to_string`. Nothing is stated of the text.
#[verifier::external_body]
fn yaml_error_text(e: &serde_yaml::Error) -> String {
    e.to_string()
}

/// Decodes a YAML text into a value of this library.
pub fn decode_yaml(text: &str) -> (r: Result<YamlNode, FrontmatterError>)
    ensures
        match r {
            Ok(n) => yaml_decode(text@) == Some(n@),
            Err(_) => yaml_decode(text@) is None,
        },
{
    match yaml_from_str(text) {
        Ok(v) => Ok(yaml_node(&v)),
        Err(e) => Err(FrontmatterError { message: yaml_error_text(&e) }),
    }
}

/// The frontmatter block is no YAML.
#[derive(Debug)]
pub struct FrontmatterError {
    /// What the YAML reader says.
    pub message: String,
}

} // verus!
