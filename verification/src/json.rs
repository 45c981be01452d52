//! JSON documents, as far as the library reads and writes them.
use crate::config::CONFIG_SCHEMA_V1;
use crate::text::opt_view;
use vstd::prelude::*;

verus! {

/// What stands at one place of a JSON document.
#[derive(Debug)]
pub struct JsonFound {
    /// The value in compact JSON.
    pub rendered: String,
    /// What it says, where it is a string.
    pub text: Option<String>,
    /// Its value, where it is a whole number that is not negative.
    pub whole: Option<u64>,
    pub is_null: bool,
}

#[verifier::ext_equal]
pub struct JsonFoundView {
    pub rendered: Seq<char>,
    pub text: Option<Seq<char>>,
    pub whole: Option<u64>,
    pub is_null: bool,
}

impl View for JsonFound {
    type V = JsonFoundView;

    open spec fn view(&self) -> JsonFoundView {
        JsonFoundView {
            rendered: self.rendered@,
            text: opt_view(self.text),
            whole: self.whole,
            is_null: self.is_null,
        }
    }
}

pub open spec fn found_view(r: Result<Option<JsonFound>, String>) -> Result<
    Option<JsonFoundView>,
    Seq<char>,
> {
    match r {
        Ok(Some(found)) => Ok(Some(found@)),
        Ok(None) => Ok(None),
        Err(message) => Err(message@),
    }
}

/// What `serde_json` finds in a document at a JSON pointer, or why it does not
/// read the document.
pub uninterp spec fn json_at(content: Seq<char>, pointer: Seq<char>) -> Result<
    Option<JsonFoundView>,
    Seq<char>,
>;

/// Reads a document with `serde_json::from_str` and looks up one place of it
/// with `serde_json::Value::pointer`. The result depends on the two texts alone.
#[verifier::external_body]
pub(crate) fn json_lookup(content: &str, pointer: &str) -> (r: Result<Option<JsonFound>, String>)
    ensures
        found_view(r) == json_at(content@, pointer@),
{
    match serde_json::from_str::<serde_json::Value>(content) {
        Err(error) => Err(error.to_string()),
        Ok(value) => Ok(value.pointer(pointer).map(|found| JsonFound {
            rendered: found.to_string(),
            text: found.as_str().map(str::to_owned),
            whole: found.as_u64(),
            is_null: found.is_null(),
        })),
    }
}

/// A text as a JSON string, in quotes and escaped.
pub uninterp spec fn json_string(s: Seq<char>) -> Seq<char>;

/// Writes a text as a JSON string, by the `Display` of a `serde_json::Value`
/// made of it.
#[verifier::external_body]
pub(crate) fn quoted(s: &str) -> (r: String)
    ensures
        r@ == json_string(s@),
{
    serde_json::Value::from(s).to_string()
}

/// Whether a JSON document fits a JSON Schema, as `jsonschema` judges it;
/// nothing where a text is no JSON, or the schema no schema.
pub uninterp spec fn schema_fits(schema: Seq<char>, content: Seq<char>) -> Option<bool>;

/// A document fits where there is no complaint.
pub open spec fn fits_of(r: Result<Vec<String>, String>) -> Option<bool> {
    match r {
        Ok(complaints) => Some(complaints@.len() == 0),
        Err(_) => None,
    }
}

/// The complaints of `jsonschema` about a document, by
/// `jsonschema::validator_for` and `Validator::iter_errors`. Whether there are
/// any depends on the two texts alone; what they say and in which order they
/// come is not claimed. The schema is that of config files, which refers to no
/// schema and matches no pattern: a schema that refers to itself can keep
/// `jsonschema` from coming to an end.
#[verifier::external_body]
pub(crate) fn schema_complaints(schema: &str, content: &str) -> (r: Result<Vec<String>, String>)
    requires
        schema@ == CONFIG_SCHEMA_V1@,
    ensures
        fits_of(r) == schema_fits(schema@, content@),
{
    let schema: serde_json::Value = serde_json::from_str(schema).map_err(|e| e.to_string())?;
    let content: serde_json::Value = serde_json::from_str(content).map_err(|e| e.to_string())?;
    let validator = jsonschema::validator_for(&schema).map_err(|e| e.to_string())?;
    Ok(validator.iter_errors(&content).map(|e| e.to_string()).collect())
}

} // verus!
