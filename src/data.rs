//! JSON and YAML through serde: parsing, then writing the value back out.

use vstd::prelude::*;

verus! {

#[verifier::external_type_specification]
#[verifier::external_body]
pub struct ExJsonError(serde_json::Error);

#[verifier::external_type_specification]
#[verifier::external_body]
pub struct ExYamlError(serde_yaml::Error);

/// Whether serde_json parses `s` as a JSON value.
pub uninterp spec fn json_valid(s: Seq<char>) -> bool;

/// The JSON value of `s` as serde_json pretty-prints it (two-space
/// indentation, keys in map order).
pub uninterp spec fn json_pretty(s: Seq<char>) -> Seq<char>;

/// Whether serde_yaml parses `s` as a YAML value and writes that value back out.
pub uninterp spec fn yaml_renders(s: Seq<char>) -> bool;

/// The YAML value of `s` as serde_yaml writes it.
pub uninterp spec fn yaml_text(s: Seq<char>) -> Seq<char>;

/// Relies on `serde_json::from_str::<Value>` and `serde_json::to_string_pretty`,
/// which cannot fail on a `Value`: the pretty text exactly for valid JSON.
#[verifier::external_body]
pub(crate) fn json_pretty_text(s: &str) -> (r: Result<String, serde_json::Error>)
    ensures
        r is Ok <==> json_valid(s@),
        r matches Ok(p) ==> p@ == json_pretty(s@),
{
    let value: serde_json::Value = serde_json::from_str(s)?;
    serde_json::to_string_pretty(&value)
}

/// Relies on `serde_json::Error`'s `Display`: the parser's diagnostic.
#[verifier::external_body]
pub(crate) fn json_error_text(e: &serde_json::Error) -> String {
    e.to_string()
}

/// Relies on `serde_yaml::from_str::<Value>` and `serde_yaml::to_string`: the
/// value written back out, when both succeed.
#[verifier::external_body]
pub(crate) fn yaml_value_text(s: &str) -> (r: Result<String, serde_yaml::Error>)
    ensures
        r is Ok <==> yaml_renders(s@),
        r matches Ok(p) ==> p@ == yaml_text(s@),
{
    let value: serde_yaml::Value = serde_yaml::from_str(s)?;
    serde_yaml::to_string(&value)
}

/// Relies on `serde_yaml::Error`'s `Display`: the parser's diagnostic.
#[verifier::external_body]
pub(crate) fn yaml_error_text(e: &serde_yaml::Error) -> String {
    e.to_string()
}

} // verus!
