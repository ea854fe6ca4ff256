//! YAML decoding, done by the `serde_yaml` crate.
use crate::dcom::property::StructuredValue::{Bool, Mapping, Null, Number, Sequence, Tagged};
use crate::dcom::property::{
    MappingEntry, MappingValue, NumberValue, StructuredModel, StructuredValue,
};
use serde_yaml::Value;
use vstd::prelude::*;

verus! {

/// A YAML value of `serde_yaml`. It is read through [`mirror_yaml`] only.
#[verifier::external_type_specification]
#[verifier::external_body]
pub struct ExYamlValue(serde_yaml::Value);

/// The mapping that `serde_yaml` reads from `text`, if it accepts the text
/// as one document that is a mapping. A text without any node, such as an
/// empty one or one of comments only, reads as the mapping without entries.
pub uninterp spec fn yaml_document(text: Seq<char>) -> Option<StructuredModel>;

/// What a `serde_yaml::Value` holds. A number is described by what
/// `Number::as_i64` and `Number::as_f64` return, the latter in decimal
/// text, and by the text that its `Display` prints; a mapping by its
/// entries in document order, and by the compact text of the JSON value
/// that `serde_json::to_value` makes of it, if it makes one; of a tagged
/// value nothing is kept.
pub uninterp spec fn yaml_model(value: Value) -> StructuredModel;

/// `serde_yaml::from_str` for a `serde_yaml::Mapping`, handed on as the
/// `Value` that holds it: the mapping of `text`, or nothing where the text
/// is not one YAML document, or its document is no mapping.
#[verifier::external_body]
pub(crate) fn parse_yaml(text: &str) -> (r: Option<Value>)
    ensures
        match r {
            Some(value) => yaml_document(text@) == Some(yaml_model(value)),
            None => yaml_document(text@) is None,
        },
{
    serde_yaml::from_str::<serde_yaml::Mapping>(text).map(Value::Mapping).ok()
}

/// Copies a `serde_yaml::Value`, variant by variant, into a
/// [`StructuredValue`]: a number as `Number::as_i64` and `Number::as_f64`
/// read it and as its `Display` prints it, a mapping with its entries in document order and with the text
/// of the JSON value that `serde_json::to_value` makes of it.
#[verifier::external_body]
pub(crate) fn mirror_yaml(value: &Value) -> (r: StructuredValue)
    ensures
        r@ == yaml_model(*value),
{
    match value {
        Value::Null => Null,
        Value::Bool(b) => Bool(*b),
        Value::Number(n) => Number(NumberValue {
            integer: n.as_i64(), float: n.as_f64().map(|f| f.to_string()), text: n.to_string()
        }),
        Value::String(s) => StructuredValue::String(s.clone()),
        Value::Sequence(items) => Sequence(items.iter().map(mirror_yaml).collect()),
        Value::Mapping(m) => Mapping(MappingValue {
            entries: m.iter().map(|(k, v)| MappingEntry { key: mirror_yaml(k), value: mirror_yaml(v) }).collect(),
            json: serde_json::to_value(value).ok().map(|j| j.to_string())
        }),
        Value::Tagged(_) => Tagged
    }
}

} // verus!
