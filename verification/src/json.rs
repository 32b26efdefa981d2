//! The trusted boundary to serde_json. The embedded configuration is a JSON
//! object inside the begin sentinel; serde_json decides whether it parses and
//! what its fields hold. Each result is named as a function of the document
//! text alone, so that resolution is deterministic in the contracts; a parsed
//! document carries the text it was parsed from.

use vstd::prelude::*;

verus! {

#[verifier::external_type_specification]
#[verifier::external_body]
pub struct ExJsonValue(serde_json::Value);

/// Whether `serde_json::from_str::<Value>` accepts the text as a JSON
/// document.
pub uninterp spec fn json_doc_ok(s: Seq<char>) -> bool;

/// Whether `Value::get` finds the key at the top level of the document
/// parsed from `s`.
pub uninterp spec fn json_field_present(s: Seq<char>, key: Seq<char>) -> bool;

/// What `Value::as_i64` returns for the field `key` of the document parsed
/// from `s`.
pub uninterp spec fn json_i64_field(s: Seq<char>, key: Seq<char>) -> Option<i64>;

/// What `Value::as_bool` returns for the field `key` of the document parsed
/// from `s`.
pub uninterp spec fn json_bool_field(s: Seq<char>, key: Seq<char>) -> Option<bool>;

/// What `Value::as_str` returns for the field `key` of the document parsed
/// from `s`.
pub uninterp spec fn json_str_field(s: Seq<char>, key: Seq<char>) -> Option<Seq<char>>;

/// A parsed JSON document together with the text it was parsed from. Only
/// [`json_parse`] constructs one, so the carried text is always the text the
/// value was parsed from.
pub(crate) struct JsonDoc {
    v: serde_json::Value,
    text: String,
}

impl JsonDoc {
    /// The text this document was parsed from.
    pub(crate) closed spec fn text_view(&self) -> Seq<char> {
        self.text@
    }
}

/// A field of a parsed JSON document, with the document text and the key it
/// was reached by. Only [`json_get_field`] constructs one.
pub(crate) struct JsonField<'a> {
    v: &'a serde_json::Value,
    doc: &'a String,
    key: String,
}

impl<'a> JsonField<'a> {
    /// The text of the document this field was read from.
    pub(crate) closed spec fn doc_view(&self) -> Seq<char> {
        self.doc@
    }

    /// The key this field was reached by.
    pub(crate) closed spec fn key_view(&self) -> Seq<char> {
        self.key@
    }
}

/// Relies on `serde_json::from_str::<Value>`: whether a text parses as JSON
/// depends on the text alone.
#[verifier::external_body]
pub(crate) fn json_parse(s: &str) -> (r: Option<JsonDoc>)
    ensures
        r is Some <==> json_doc_ok(s@),
        r matches Some(d) ==> d.text_view() == s@,
{
    match serde_json::from_str::<serde_json::Value>(s) {
        Ok(v) => Some(JsonDoc { v, text: s.to_owned() }),
        Err(_) => None,
    }
}

/// Relies on `serde_json::Value::get`: whether a top-level key is present
/// depends on the document and the key alone.
#[verifier::external_body]
pub(crate) fn json_get_field<'a>(d: &'a JsonDoc, key: &str) -> (r: Option<JsonField<'a>>)
    ensures
        r is Some <==> json_field_present(d.text_view(), key@),
        r matches Some(f) ==> f.doc_view() == d.text_view() && f.key_view() == key@,
{
    match d.v.get(key) {
        Some(v) => Some(JsonField { v, doc: &d.text, key: key.to_owned() }),
        None => None,
    }
}

/// Relies on `serde_json::Value::as_i64`: the integer reading of a field
/// depends on the document and the key alone.
#[verifier::external_body]
pub(crate) fn json_field_as_i64<'a>(f: &JsonField<'a>) -> (r: Option<i64>)
    ensures
        r == json_i64_field(f.doc_view(), f.key_view()),
{
    f.v.as_i64()
}

/// Relies on `serde_json::Value::as_bool`: the boolean reading of a field
/// depends on the document and the key alone.
#[verifier::external_body]
pub(crate) fn json_field_as_bool<'a>(f: &JsonField<'a>) -> (r: Option<bool>)
    ensures
        r == json_bool_field(f.doc_view(), f.key_view()),
{
    f.v.as_bool()
}

/// Relies on `serde_json::Value::as_str`: the string reading of a field
/// depends on the document and the key alone.
#[verifier::external_body]
pub(crate) fn json_field_as_str<'a>(f: &JsonField<'a>) -> (r: Option<String>)
    ensures
        match r {
            Some(t) => json_str_field(f.doc_view(), f.key_view()) == Some(t@),
            None => json_str_field(f.doc_view(), f.key_view()) is None,
        },
{
    f.v.as_str().map(str::to_owned)
}

} // verus!
