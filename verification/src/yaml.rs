//! YAML values as plain data, and the calls into `serde_yaml` that read and
//! write them.

use vstd::prelude::*;
use serde_yaml::value::{Tag, TaggedValue};
use serde_yaml::{Number, Value};

verus! {

/// One key of a YAML mapping with its value.
#[derive(Debug, PartialEq)]
pub struct YamlEntry {
    pub key: YamlValue,
    pub value: YamlValue,
}

/// A YAML value. A number is held as the text that `serde_yaml` prints for
/// it; the entries of a mapping keep the order of the document; a tag is
/// held as `serde_yaml` prints it, with its leading `!`.
#[derive(Debug, PartialEq)]
pub enum YamlValue {
    Null,
    Bool(bool),
    Number(String),
    String(String),
    Sequence(Vec<YamlValue>),
    Mapping(Vec<YamlEntry>),
    Tagged(String, Box<YamlValue>),
}

/// What a `YamlValue` stands for.
pub ghost enum YamlView {
    Null,
    Bool(bool),
    Number(Seq<char>),
    String(Seq<char>),
    Sequence(Seq<YamlView>),
    Mapping(Seq<(YamlView, YamlView)>),
    Tagged(Seq<char>, Box<YamlView>),
}

impl YamlValue {
    /// The value with every string replaced by its characters.
    pub open spec fn model(self) -> YamlView
        decreases self,
    {
        match self {
            YamlValue::Null => YamlView::Null,
            YamlValue::Bool(b) => YamlView::Bool(b),
            YamlValue::Number(n) => YamlView::Number(n@),
            YamlValue::String(s) => YamlView::String(s@),
            YamlValue::Sequence(items) => YamlView::Sequence(
                Seq::new(
                    items.len() as nat,
                    |i: int|
                        if 0 <= i < items.len() {
                            items[i].model()
                        } else {
                            YamlView::Null
                        },
                ),
            ),
            YamlValue::Mapping(entries) => YamlView::Mapping(
                Seq::new(
                    entries.len() as nat,
                    |i: int|
                        if 0 <= i < entries.len() {
                            (entries[i].key.model(), entries[i].value.model())
                        } else {
                            (YamlView::Null, YamlView::Null)
                        },
                ),
            ),
            YamlValue::Tagged(tag, inner) => YamlView::Tagged(tag@, Box::new(inner.model())),
        }
    }
}

impl View for YamlValue {
    type V = YamlView;

    open spec fn view(&self) -> YamlView {
        self.model()
    }
}

/// The models of a run of values.
pub open spec fn models(items: Seq<YamlValue>) -> Seq<YamlView> {
    Seq::new(items.len(), |i: int| items[i]@)
}

/// Whether a value can be handed to `serde_yaml` for writing: it holds no
/// number, whose text `serde_yaml` might not take back, and no empty tag,
/// for which `serde_yaml` has no syntax.
pub open spec fn writable(v: YamlView) -> bool
    decreases v,
{
    match v {
        YamlView::Number(_) => false,
        YamlView::Sequence(items) => forall|i: int|
            0 <= i < items.len() ==> writable(#[trigger] items[i]),
        YamlView::Mapping(entries) => forall|i: int|
            0 <= i < entries.len() ==> {
                &&& writable((#[trigger] entries[i]).0)
                &&& writable(entries[i].1)
            },
        YamlView::Tagged(tag, inner) => tag.len() > 0 && writable(*inner),
        _ => true,
    }
}

/// The value that `serde_yaml` reads from a document, where it reads one.
pub uninterp spec fn yaml_document(text: Seq<char>) -> Option<YamlView>;

/// The document that `serde_yaml` writes for a value, where it writes one.
pub uninterp spec fn yaml_text(value: YamlView) -> Option<Seq<char>>;

#[verifier::external_type_specification]
#[verifier::external_body]
pub struct ExYamlNode(serde_yaml::Value);

#[verifier::external_type_specification]
#[verifier::external_body]
pub struct ExYamlError(serde_yaml::Error);

/// A `serde_yaml::Value` as a `YamlValue`, variant by variant; a number
/// becomes its `Display` text, a tag its `Display` text.
#[verifier::external_body]
fn value_from_serde(value: Value) -> YamlValue {
    match value {
        Value::Null => YamlValue::Null,
        Value::Bool(b) => YamlValue::Bool(b),
        Value::Number(n) => YamlValue::Number(n.to_string()),
        Value::String(s) => YamlValue::String(s),
        Value::Sequence(s) => YamlValue::Sequence(s.into_iter().map(value_from_serde).collect()),
        Value::Mapping(m) => YamlValue::Mapping(
            m.into_iter().map(|(k, v)| YamlEntry { key: value_from_serde(k), value: value_from_serde(v) }).collect(),
        ),
        Value::Tagged(t) => YamlValue::Tagged(t.tag.to_string(), Box::new(value_from_serde(t.value))),
    }
}

/// A `YamlValue` as a `serde_yaml::Value`, variant by variant. A tag is made
/// by `Tag::new`, which panics on an empty tag, and a number by `FromStr`
/// of `serde_yaml::Number`, which fails on a text that is no number: a
/// value with either is left out.
#[verifier::external_body]
fn value_to_serde(value: &YamlValue) -> Value
    requires
        writable(value@),
{
    match value {
        YamlValue::Null => Value::Null,
        YamlValue::Bool(b) => Value::Bool(*b),
        YamlValue::Number(n) => n.parse::<Number>().map_or(Value::Null, Value::Number),
        YamlValue::String(s) => Value::String(s.clone()),
        YamlValue::Sequence(s) => Value::Sequence(s.iter().map(value_to_serde).collect()),
        YamlValue::Mapping(m) => Value::Mapping(
            m.iter().map(|e| (value_to_serde(&e.key), value_to_serde(&e.value))).collect(),
        ),
        YamlValue::Tagged(t, v) => Value::Tagged(Box::new(TaggedValue { tag: Tag::new(t), value: value_to_serde(v) })),
    }
}

/// `serde_yaml::from_str` at `serde_yaml::Value`: the value of the document,
/// or the error of a text that is no YAML document.
#[verifier::external_body]
pub(crate) fn parse_yaml(text: &str) -> (r: Result<YamlValue, serde_yaml::Error>)
    ensures
        match r {
            Ok(value) => yaml_document(text@) == Some(value@),
            Err(_) => yaml_document(text@) is None,
        },
{
    serde_yaml::from_str::<Value>(text).map(value_from_serde)
}

/// `serde_yaml::to_string` of a value: its document, or the error of a value
/// that has none.
#[verifier::external_body]
pub(crate) fn emit_yaml(value: &YamlValue) -> (r: Result<String, serde_yaml::Error>)
    requires
        writable(value@),
    ensures
        match r {
            Ok(text) => yaml_text(value@) == Some(text@),
            Err(_) => yaml_text(value@) is None,
        },
{
    serde_yaml::to_string(&value_to_serde(value))
}

} // verus!
