//! YAML documents: mappings of the `serde_yaml` crate and what they hold.

use crate::text::texts;
use vstd::prelude::*;

verus! {

/// A YAML value as mathematics.
pub enum YamlView {
    Bool(bool),
    Number(nat),
    Text(Seq<char>),
    List(Seq<Seq<char>>),
    Block(Seq<(Seq<char>, YamlView)>),
}

/// `serde_yaml::Mapping`: a mapping that keeps the order of insertion.
#[verifier::external_type_specification]
#[verifier::external_body]
pub struct ExMapping(serde_yaml::Mapping);

/// The entries of a mapping, in order, where it is made of nothing but texts as
/// keys and, as values, truth values, natural numbers, texts, lists of texts and
/// mappings that are made in this way; else `None`.
pub uninterp spec fn entries(m: serde_yaml::Mapping) -> Option<Seq<(Seq<char>, YamlView)>>;

/// The YAML text that `serde_yaml::to_string` writes for a mapping with these
/// entries.
pub uninterp spec fn yaml_text(entries: Seq<(Seq<char>, YamlView)>) -> Seq<char>;

/// Whether one of the entries has the key.
pub open spec fn has_key(entries: Seq<(Seq<char>, YamlView)>, key: Seq<char>) -> bool {
    exists|i: int| 0 <= i < entries.len() && (#[trigger] entries[i]).0 == key
}

/// A YAML value to be put into a mapping.
pub enum YamlValue {
    Bool(bool),
    Number(u32),
    Text(String),
    List(Vec<String>),
    Block(serde_yaml::Mapping),
}

impl YamlValue {
    /// What the value holds.
    pub open spec fn holds(&self) -> Option<YamlView> {
        match self {
            YamlValue::Bool(b) => Some(YamlView::Bool(*b)),
            YamlValue::Number(n) => Some(YamlView::Number(*n as nat)),
            YamlValue::Text(s) => Some(YamlView::Text(s@)),
            YamlValue::List(items) => Some(YamlView::List(texts(items@))),
            YamlValue::Block(m) => match entries(*m) {
                Some(e) => Some(YamlView::Block(e)),
                None => None,
            },
        }
    }
}

/// `serde_yaml::Mapping::new` makes a mapping without entries.
#[verifier::external_body]
pub(crate) fn new_mapping() -> (m: serde_yaml::Mapping)
    ensures
        entries(m) == Some(Seq::<(Seq<char>, YamlView)>::empty()),
{
    serde_yaml::Mapping::new()
}

/// `serde_yaml::Mapping::insert` with a key that the mapping does not have: the
/// entry comes last, behind those that were there.
#[verifier::external_body]
pub(crate) fn insert(m: &mut serde_yaml::Mapping, key: &str, value: YamlValue)
    requires
        entries(*old(m)) is Some,
        value.holds() is Some,
        !has_key(entries(*old(m))->0, key@),
    ensures
        entries(*final(m)) == Some(entries(*old(m))->0.push((key@, value.holds()->0))),
{
    let value = match value {
        YamlValue::Bool(b) => serde_yaml::Value::Bool(b),
        YamlValue::Number(n) => serde_yaml::Value::Number(n.into()),
        YamlValue::Text(s) => serde_yaml::Value::String(s),
        YamlValue::List(l) => l.into_iter().map(serde_yaml::Value::String).collect(),
        YamlValue::Block(b) => serde_yaml::Value::Mapping(b),
    };
    m.insert(serde_yaml::Value::String(key.to_owned()), value);
}

/// `serde_yaml::to_string` writes the entries of a mapping down as YAML. It fails
/// only on values that YAML or the crate has no form for, and a mapping of the
/// values above holds none of them.
#[verifier::external_body]
pub(crate) fn to_text(m: &serde_yaml::Mapping) -> (r: String)
    requires
        entries(*m) is Some,
    ensures
        r@ == yaml_text(entries(*m)->0),
{
    serde_yaml::to_string(m).expect("serializing llama-swap config")
}

} // verus!
