use vstd::prelude::*;
use crate::json::{lemma_fields_push, Json, JsonValue};
use crate::setting_trait::{viewed, SettingError};
use crate::version::{display, parsed, Version, VersionModel};

verus! {

/// The saved form of a version: an object whose field `value` is its text.
pub open spec fn version_written(v: VersionModel) -> JsonValue {
    JsonValue::Object(seq![("value"@, JsonValue::Text(display(v)))])
}

/// The version that a saved form holds: the one that the text in its field
/// `value` denotes. Other fields are passed over; a second field `value` is
/// not.
pub open spec fn version_restored(json: JsonValue) -> Result<VersionModel, SettingError> {
    match json.only("value"@) {
        Some(JsonValue::Text(s)) => match parsed(s, Seq::empty()) {
            Ok(v) => Ok(v),
            Err(_) => Err(SettingError::Parse),
        },
        _ => Err(SettingError::Parse),
    }
}

impl Version {
    /// The saved form of the version.
    pub fn serialize(&self) -> (json: Json)
        ensures
            json@ == version_written(self@),
    {
        let mut fields: Vec<(String, Json)> = Vec::new();
        let name = String::from_str("value");
        let text = Json::Text(self.to_string());
        proof {
            lemma_fields_push(fields@, name, text);
        }
        fields.push((name, text));
        Json::Object(fields)
    }

    /// Reads a version from its saved form.
    pub fn deserialize(json: &Json) -> (r: Result<Version, SettingError>)
        ensures
            viewed(r) == version_restored(json@),
    {
        match json.only("value") {
            Some(Json::Text(s)) => match Version::from_string(s, None) {
                Ok(v) => Ok(v),
                Err(_) => Err(SettingError::Parse),
            },
            _ => Err(SettingError::Parse),
        }
    }
}

} // verus!
