use vstd::prelude::*;

verus! {

/// A JSON document, as `serde_json` holds it.
#[verifier::external_type_specification]
#[verifier::external_body]
pub struct ExJsonValue(serde_json::Value);

/// The error type that processors report failures with.
#[verifier::external_type_specification]
#[verifier::external_body]
pub struct ExAnyhowError(anyhow::Error);

/// Names the JSON array that holds the given values, in order.
pub uninterp spec fn json_array_of(items: Seq<serde_json::Value>) -> serde_json::Value;

/// Makes the JSON array that holds `items`, in order
/// (`serde_json::Value::Array`). The contract claims only that equal lists
/// give equal arrays, through the name `json_array_of`.
#[verifier::external_body]
pub(crate) fn json_array(items: Vec<serde_json::Value>) -> (v: serde_json::Value)
    ensures
        v == json_array_of(items@),
{
    serde_json::Value::Array(items)
}

/// Names the JSON string that holds the given text.
pub uninterp spec fn json_string_of(text: Seq<char>) -> serde_json::Value;

/// Makes the JSON string that holds `text` (`serde_json::Value::String`).
/// The contract claims only that equal texts give equal strings, through
/// the name `json_string_of`.
#[verifier::external_body]
pub(crate) fn json_string(text: String) -> (v: serde_json::Value)
    ensures
        v == json_string_of(text@),
{
    serde_json::Value::String(text)
}

/// Names the JSON object with the one entry `key: value`.
pub uninterp spec fn json_object1_of(key: Seq<char>, value: serde_json::Value) -> serde_json::Value;

/// Makes the JSON object with the one entry `key: value`
/// (`serde_json::Map::from_iter`, then `serde_json::Value::Object`). The
/// contract claims only that equal arguments give equal objects, through
/// the name `json_object1_of`.
#[verifier::external_body]
pub(crate) fn json_object1(key: &str, value: serde_json::Value) -> (v: serde_json::Value)
    ensures
        v == json_object1_of(key@, value),
{
    serde_json::Value::Object(serde_json::Map::from_iter([(key.to_string(), value)]))
}

/// Names the JSON object with the three entries `k1: v1`, `k2: v2` and
/// `k3: v3`.
pub uninterp spec fn json_object3_of(
    k1: Seq<char>,
    v1: serde_json::Value,
    k2: Seq<char>,
    v2: serde_json::Value,
    k3: Seq<char>,
    v3: serde_json::Value,
) -> serde_json::Value;

/// Makes the JSON object with the entries `k1: v1`, `k2: v2` and `k3: v3`
/// (`serde_json::Map::from_iter`, then `serde_json::Value::Object`). The
/// contract claims only that equal arguments give equal objects, through
/// the name `json_object3_of`.
#[verifier::external_body]
pub(crate) fn json_object3(
    k1: &str,
    v1: serde_json::Value,
    k2: &str,
    v2: serde_json::Value,
    k3: &str,
    v3: serde_json::Value,
) -> (v: serde_json::Value)
    ensures
        v == json_object3_of(k1@, v1, k2@, v2, k3@, v3),
{
    serde_json::Value::Object(
        serde_json::Map::from_iter([(k1.to_string(), v1), (k2.to_string(), v2), (k3.to_string(), v3)]),
    )
}

/// `<serde_json::Value as Clone>::clone`: the copy is the same document.
pub assume_specification[ <serde_json::Value as Clone>::clone ](v: &serde_json::Value) -> (r:
    serde_json::Value)
    ensures
        r == *v,
;

/// Something that works on data of type `TData` (a frame, a block of
/// samples) for the settings of one frame. Effects, inputs, outputs, items
/// and layers all have this shape; plugins implement it for their own types.
pub trait ProcessInterface<TData, TSettings> {
    /// What `get_json_template` may hand back; processors that say nothing
    /// allow anything.
    open spec fn json_template_result(&self, r: Result<serde_json::Value, anyhow::Error>) -> bool {
        true
    }

    /// The JSON template of the settings this processor takes.
    fn get_json_template(&self) -> (r: Result<serde_json::Value, anyhow::Error>)
        ensures
            self.json_template_result(r),
    ;

    /// What `get_ulid` may hand back; processors that say nothing allow
    /// anything.
    open spec fn ulid_result(&self, r: u128) -> bool {
        true
    }

    /// The identifier of this processor.
    fn get_ulid(&self) -> (r: u128)
        ensures
            self.ulid_result(r),
    ;

    /// What `process` may do: working on `before` for `settings` and `json`,
    /// it may leave `after` and report `r`. Processors that say nothing allow
    /// anything.
    open spec fn process_result(
        &self,
        before: TData,
        settings: TSettings,
        json: serde_json::Value,
        after: TData,
        r: Result<bool, anyhow::Error>,
    ) -> bool {
        true
    }

    /// Works on `f` for `settings`; `json` holds the processor's own settings.
    fn process(&self, f: &mut TData, settings: &TSettings, json: serde_json::Value) -> (r: Result<
        bool,
        anyhow::Error,
    >)
        ensures
            self.process_result(*old(f), *settings, json, *final(f), r),
    ;
}

} // verus!
