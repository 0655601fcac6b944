//! Decoding of one raw line into its category.

use vstd::prelude::*;

verus! {

/// What a JSON text holds under `key`: the string found there when the text is
/// one JSON object (surrounding white space allowed) that has a string under
/// that key, and `None` for every other text. The values under other keys
/// need only be well-formed JSON. Of a key that occurs more than once in the
/// object, the last occurrence counts.
pub uninterp spec fn json_string_field(text: Seq<u8>, key: Seq<char>) -> Option<Seq<char>>;

/// The name of the field that carries a record's category.
pub open spec fn type_key() -> Seq<char> {
    "type"@
}

/// The category that a raw line decodes to, if it decodes at all.
pub open spec fn line_category(line: Seq<u8>) -> Option<Seq<char>> {
    json_string_field(line, type_key())
}

/// Calls `serde_json::from_slice` to read `text` as a map from field name to
/// `serde_json::value::RawValue`, the unparsed text of each field, and
/// `serde_json::from_str` to read the text found under `key` as a string.
/// Trusted: the result is a function of the two arguments alone; any parse
/// error, a text that is no object, a missing key and a value under the key
/// that is no string all give `None`.
#[verifier::external_body]
fn read_string_field(text: &[u8], key: &str) -> (r: Option<String>)
    ensures
        r.is_some() == json_string_field(text@, key@).is_some(),
        r.is_some() ==> r.unwrap()@ == json_string_field(text@, key@).unwrap(),
{
    let parsed: Result<
        std::collections::BTreeMap<String, Box<serde_json::value::RawValue>>,
        serde_json::Error,
    > = serde_json::from_slice(text);
    match parsed {
        Ok(fields) => match fields.get(key) {
            Some(raw) => serde_json::from_str::<String>(raw.get()).ok(),
            None => None,
        },
        Err(_) => None,
    }
}

/// Decodes one raw line: the value of its `type` field when the line is a
/// record with a string there, `None` for any other line.
pub fn decode_line(line: &[u8]) -> (r: Option<String>)
    ensures
        r.is_some() == line_category(line@).is_some(),
        r.is_some() ==> r.unwrap()@ == line_category(line@).unwrap(),
{
    read_string_field(line, "type")
}

} // verus!
