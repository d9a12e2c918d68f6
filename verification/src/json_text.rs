use vstd::prelude::*;
use crate::json::{nested_within, Json, JsonValue};
use crate::setting_trait::SettingError;

verus! {

/// `serde_json::Value`: the tree into which serde_json reads a text.
#[verifier::external_type_specification]
#[verifier::external_body]
pub struct ExValue(serde_json::Value);

/// How deep arrays and objects may stand within each other in a text that
/// serde_json reads. A value is written only where it keeps to this.
pub const MAX_NESTING: usize = 127;

/// The value that serde_json reads from a text, where the text is JSON.
pub uninterp spec fn text_json(text: Seq<char>) -> Option<JsonValue>;

/// The indented text that serde_json writes for a value, where every number
/// of the value is one that serde_json reads.
pub uninterp spec fn json_text(json: JsonValue) -> Option<Seq<char>>;

/// Turns a `serde_json::Value` into a [`Json`], variant by variant. A number
/// becomes the text that serde_json's `Display` gives for it, and the fields
/// of an object come in the order in which serde_json's `Map::iter` hands
/// them out. Nothing is claimed of the result.
#[verifier::external_body]
fn from_value(value: &serde_json::Value) -> Json {
    match value {
        serde_json::Value::Null => Json::Null,
        serde_json::Value::Bool(b) => Json::Bool(*b),
        serde_json::Value::Number(n) => Json::Number(n.to_string()),
        serde_json::Value::String(s) => Json::Text(s.clone()),
        serde_json::Value::Array(items) => Json::Array(items.iter().map(from_value).collect()),
        serde_json::Value::Object(fields) => Json::Object(
            fields.iter().map(|(k, v)| (k.clone(), from_value(v))).collect(),
        ),
    }
}

/// Turns a [`Json`] into a `serde_json::Value`, variant by variant. A number
/// is read by serde_json's `Number::from_str`; where that fails there is no
/// value. Nothing is claimed of the result. It calls itself once for each
/// level of nesting, so a value is to keep to [`MAX_NESTING`].
#[verifier::external_body]
fn to_value(json: &Json) -> Option<serde_json::Value>
    requires
        nested_within(json@, MAX_NESTING as nat),
{
    Some(
        match json {
            Json::Null => serde_json::Value::Null,
            Json::Bool(b) => serde_json::Value::Bool(*b),
            Json::Number(n) => serde_json::Value::Number(n.parse().ok()?),
            Json::Text(s) => serde_json::Value::String(s.clone()),
            Json::Array(items) => serde_json::Value::Array(
                items.iter().map(to_value).collect::<Option<_>>()?,
            ),
            Json::Object(fields) => serde_json::Value::Object(
                fields.iter().map(|(k, v)| Some((k.clone(), to_value(v)?))).collect::<Option<_>>()?,
            ),
        },
    )
}

/// `serde_json::from_str`, called for a `serde_json::Value`. What it gives
/// depends on the text alone, so it has a name; it gives nothing where
/// serde_json reports an error.
#[verifier::external_body]
fn read_text(text: &str) -> (r: Option<Json>)
    ensures
        match r {
            Some(json) => text_json(text@) == Some(json@),
            None => text_json(text@) is None,
        },
{
    match serde_json::from_str::<serde_json::Value>(text) {
        Ok(value) => Some(from_value(&value)),
        Err(_) => None,
    }
}

/// `serde_json::to_string_pretty`, called on a `serde_json::Value`. What it
/// gives depends on the value alone, so it has a name; it gives nothing where
/// a number of the value is not one that serde_json reads, or where serde_json
/// reports an error. serde_json writes a nested value by calling itself, so a
/// value is to keep to [`MAX_NESTING`].
#[verifier::external_body]
fn write_text(json: &Json) -> (r: Option<String>)
    requires
        nested_within(json@, MAX_NESTING as nat),
    ensures
        match r {
            Some(text) => json_text(json@) == Some(text@),
            None => json_text(json@) is None,
        },
{
    match to_value(json) {
        Some(value) => serde_json::to_string_pretty(&value).ok(),
        None => None,
    }
}

impl Json {
    /// Reads a value from a JSON text.
    pub fn decode(text: &str) -> (r: Result<Json, SettingError>)
        ensures
            match r {
                Ok(json) => text_json(text@) == Some(json@),
                Err(e) => e == SettingError::Parse && text_json(text@) is None,
            },
    {
        match read_text(text) {
            Some(json) => Ok(json),
            None => Err(SettingError::Parse),
        }
    }

    /// Writes the value as an indented JSON text. A value in which arrays
    /// and objects stand deeper than [`MAX_NESTING`] is not written.
    pub fn encode(&self) -> (r: Result<String, SettingError>)
        ensures
            match r {
                Ok(text) => nested_within(self@, MAX_NESTING as nat) && json_text(self@) == Some(
                    text@,
                ),
                Err(e) => e == SettingError::Parse && (!nested_within(self@, MAX_NESTING as nat)
                    || json_text(self@) is None),
            },
    {
        if !self.fits(MAX_NESTING) {
            return Err(SettingError::Parse);
        }
        match write_text(self) {
            Some(text) => Ok(text),
            None => Err(SettingError::Parse),
        }
    }
}

} // verus!
