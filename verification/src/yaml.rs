//! The calls into the YAML library: reading a frontmatter block as a
//! mapping of scalar values, and writing a document.
use vstd::prelude::*;

verus! {

/// A frontmatter value as the YAML parser typed it.
#[derive(Debug, Clone, PartialEq, Eq)]
pub enum YamlValue {
    /// A string scalar, exactly as the parser unquoted it.
    Text(String),
    /// A number, in the parser's own rendering of it.
    Number(String),
    Bool(bool),
    Null,
    /// A sequence, a mapping, or a tagged value.
    Nested,
}

/// What a frontmatter block parsed to.
#[derive(Debug, Clone, PartialEq, Eq)]
pub enum YamlDocument {
    /// A mapping: each entry's key (when it is a string) and value, in
    /// document order.
    Mapping(Vec<(Option<String>, YamlValue)>),
    /// An empty document.
    Null,
    /// A document whose top level is not a mapping.
    Other,
}

pub enum YamlValueView {
    Text(Seq<char>),
    Number(Seq<char>),
    Bool(bool),
    Null,
    Nested,
}

pub enum YamlDocumentView {
    Mapping(Seq<(Option<Seq<char>>, YamlValueView)>),
    Null,
    Other,
}

pub open spec fn yaml_value_view(v: YamlValue) -> YamlValueView {
    match v {
        YamlValue::Text(s) => YamlValueView::Text(s@),
        YamlValue::Number(s) => YamlValueView::Number(s@),
        YamlValue::Bool(b) => YamlValueView::Bool(b),
        YamlValue::Null => YamlValueView::Null,
        YamlValue::Nested => YamlValueView::Nested,
    }
}

pub open spec fn yaml_entry_view(e: (Option<String>, YamlValue)) -> (
    Option<Seq<char>>,
    YamlValueView,
) {
    (
        match e.0 {
            Some(k) => Some(k@),
            None => None,
        },
        yaml_value_view(e.1),
    )
}

pub open spec fn yaml_result_view(r: Result<YamlDocument, String>) -> Result<
    YamlDocumentView,
    Seq<char>,
> {
    match r {
        Ok(YamlDocument::Mapping(entries)) => Ok(
            YamlDocumentView::Mapping(entries@.map_values(|e| yaml_entry_view(e))),
        ),
        Ok(YamlDocument::Null) => Ok(YamlDocumentView::Null),
        Ok(YamlDocument::Other) => Ok(YamlDocumentView::Other),
        Err(e) => Err(e@),
    }
}

/// What the YAML parser makes of `text`: its top-level structure, or the
/// parser's error message.
pub uninterp spec fn yaml_document(text: Seq<char>) -> Result<YamlDocumentView, Seq<char>>;

/// `yaml_serde::from_str::<yaml_serde::Value>`, with the top level and each
/// top-level entry told apart by variant. The contract claims only that the
/// result is a function of the text (`yaml_document`); nothing about YAML
/// syntax is stated.
#[verifier::external_body]
pub(crate) fn parse_yaml_document(text: &str) -> (r: Result<YamlDocument, String>)
    ensures
        yaml_result_view(r) == yaml_document(text@),
{
    match yaml_serde::from_str::<yaml_serde::Value>(text) {
        Err(e) => Err(e.to_string()),
        Ok(yaml_serde::Value::Null) => Ok(YamlDocument::Null),
        Ok(yaml_serde::Value::Mapping(m)) => Ok(YamlDocument::Mapping(m.into_iter().map(|(k, v)| (
            k.as_str().map(|s| s.to_string()), match v {
                yaml_serde::Value::String(s) => YamlValue::Text(s),
                yaml_serde::Value::Number(n) => YamlValue::Number(n.to_string()),
                yaml_serde::Value::Bool(b) => YamlValue::Bool(b),
                yaml_serde::Value::Null => YamlValue::Null,
                _ => YamlValue::Nested,
            })).collect())),
        Ok(_) => Ok(YamlDocument::Other),
    }
}

/// A YAML document to write: scalars, sequences and mappings whose keys
/// are strings, in the order given.
#[derive(Debug)]
pub enum YamlNode {
    Text(String),
    Number(u64),
    Null,
    List(Vec<YamlNode>),
    Mapping(Vec<(String, YamlNode)>),
}

#[verifier::ext_equal]
pub enum YamlNodeView {
    Text(Seq<char>),
    Number(nat),
    Null,
    List(Seq<YamlNodeView>),
    Mapping(Seq<(Seq<char>, YamlNodeView)>),
}

pub open spec fn node_view(n: YamlNode) -> YamlNodeView
    decreases n,
{
    match n {
        YamlNode::Text(s) => YamlNodeView::Text(s@),
        YamlNode::Number(k) => YamlNodeView::Number(k as nat),
        YamlNode::Null => YamlNodeView::Null,
        YamlNode::List(items) => YamlNodeView::List(
            Seq::new(
                items.len() as nat,
                |i: int|
                    if 0 <= i < items.len() {
                        proof {
                            vstd::std_specs::vec::axiom_vec_index_decreases(items, i);
                        }
                        node_view(items[i])
                    } else {
                        YamlNodeView::Null
                    },
            ),
        ),
        YamlNode::Mapping(entries) => YamlNodeView::Mapping(
            Seq::new(
                entries.len() as nat,
                |i: int|
                    if 0 <= i < entries.len() {
                        proof {
                            vstd::std_specs::vec::axiom_vec_index_decreases(entries, i);
                        }
                        (entries[i].0@, node_view(entries[i].1))
                    } else {
                        (Seq::empty(), YamlNodeView::Null)
                    },
            ),
        ),
    }
}

#[verifier::external_type_specification]
#[verifier::external_body]
pub struct ExYamlValue(yaml_serde::Value);

/// The `yaml_serde::Value` holding the same scalars, sequences and
/// mappings as `node`, entries in order. Nothing is claimed of it.
#[verifier::external_body]
fn node_value(node: &YamlNode) -> yaml_serde::Value {
    match node {
        YamlNode::Text(s) => yaml_serde::Value::String(s.clone()),
        YamlNode::Number(k) => yaml_serde::Value::from(*k),
        YamlNode::Null => yaml_serde::Value::Null,
        YamlNode::List(items) => yaml_serde::Value::Sequence(items.iter().map(node_value).collect()),
        YamlNode::Mapping(entries) => yaml_serde::Value::Mapping(
            entries.iter().map(|(k, v)| (yaml_serde::Value::String(k.clone()), node_value(v))).collect(),
        ),
    }
}

/// What the YAML serializer writes for a document.
pub uninterp spec fn yaml_text(node: YamlNodeView) -> Seq<char>;

/// `yaml_serde::to_string` of the document `node` describes, or the empty
/// string if serialization fails. The contract claims only that the text is
/// a function of the document (`yaml_text`): nothing is stated about YAML
/// syntax, quoting, or how a repeated mapping key is merged.
#[verifier::external_body]
pub(crate) fn to_yaml(node: &YamlNode) -> (r: String)
    ensures
        r@ == yaml_text(node_view(*node)),
{
    yaml_serde::to_string(&node_value(node)).unwrap_or_default()
}

/// A mapping entry as plain values: a string key, and a string value or
/// null.
pub open spec fn yaml_entry_views(entries: Seq<(String, Option<String>)>) -> Seq<(Seq<char>, Option<Seq<char>>)> {
    entries.map_values(
        |e: (String, Option<String>)|
            (
                e.0@,
                match e.1 {
                    Some(v) => Some(v@),
                    None => None,
                },
            ),
    )
}

/// The mapping of string keys to string or null values.
pub open spec fn flat_mapping(entries: Seq<(Seq<char>, Option<Seq<char>>)>) -> YamlNodeView {
    YamlNodeView::Mapping(
        entries.map_values(
            |e: (Seq<char>, Option<Seq<char>>)|
                (
                    e.0,
                    match e.1 {
                        Some(v) => YamlNodeView::Text(v),
                        None => YamlNodeView::Null,
                    },
                ),
        ),
    )
}

/// What the YAML serializer writes for a mapping of these entries, in order.
pub open spec fn yaml_mapping_text(entries: Seq<(Seq<char>, Option<Seq<char>>)>) -> Seq<char> {
    yaml_text(flat_mapping(entries))
}

/// The YAML text of a mapping of string keys to string or null values.
pub fn mapping_to_yaml(entries: &Vec<(String, Option<String>)>) -> (r: String)
    ensures
        r@ == yaml_mapping_text(yaml_entry_views(entries@)),
{
    let mut nodes: Vec<(String, YamlNode)> = Vec::new();
    let mut i: usize = 0;
    while i < entries.len()
        invariant
            i <= entries.len(),
            nodes@.len() == i,
            forall|k: int| 0 <= k < i ==> (#[trigger] nodes@[k]).0@ == entries@[k].0@ && node_view(nodes@[k].1)
                == match entries@[k].1 {
                    Some(v) => YamlNodeView::Text(v@),
                    None => YamlNodeView::Null,
                },
        decreases entries.len() - i,
    {
        let value = match &entries[i].1 {
            Some(v) => YamlNode::Text(v.clone()),
            None => YamlNode::Null,
        };
        nodes.push((entries[i].0.clone(), value));
        i += 1;
    }
    let node = YamlNode::Mapping(nodes);
    proof {
        let rhs = match flat_mapping(yaml_entry_views(entries@)) {
            YamlNodeView::Mapping(m) => m,
            _ => Seq::empty(),
        };
        let lhs = match node_view(node) {
            YamlNodeView::Mapping(m) => m,
            _ => Seq::empty(),
        };
        assert(lhs.len() == rhs.len());
        assert forall|k: int| 0 <= k < lhs.len() implies lhs[k] == rhs[k] by {
            assert(nodes@[k].0@ == entries@[k].0@);
        }
        assert(lhs =~= rhs);
    }
    to_yaml(&node)
}

} // verus!
