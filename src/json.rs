use vstd::prelude::*;

verus! {

#[verifier::external_type_specification]
#[verifier::external_body]
pub struct ExJsonValue(serde_json::Value);

#[verifier::external_type_specification]
#[verifier::external_body]
pub struct ExJsonNumber(serde_json::Number);

/// A JSON document as the library reads and writes it. Numbers are carried
/// through as they were read; the library's own formats hold none.
#[derive(Debug)]
pub enum JsonValue {
    Null,
    Bool(bool),
    Number(serde_json::Number),
    Str(String),
    Array(Vec<JsonValue>),
    Object(Vec<(String, JsonValue)>),
}

/// The value of the first member named `key`.
pub open spec fn field(fields: Seq<(String, JsonValue)>, key: Seq<char>) -> Option<JsonValue>
    decreases fields.len(),
{
    if fields.len() == 0 {
        None
    } else if fields[0].0@ == key {
        Some(fields[0].1)
    } else {
        field(fields.drop_first(), key)
    }
}

/// The text of the member named `key`, where it is a string.
pub open spec fn text_field(fields: Seq<(String, JsonValue)>, key: Seq<char>) -> Option<String> {
    match field(fields, key) {
        Some(JsonValue::Str(s)) => Some(s),
        _ => None,
    }
}

/// What `serde_json` reads from a text: `None` where the text is no JSON.
pub uninterp spec fn json_parse(s: Seq<char>) -> Option<JsonValue>;

/// The pretty-printed text that `serde_json` writes for a document.
pub uninterp spec fn json_pretty_text(v: JsonValue) -> Seq<char>;

impl JsonValue {
    /// Converts a `serde_json::Value` into the library's model, variant for variant.
    #[verifier::external_body]
    fn from_serde(v: serde_json::Value) -> JsonValue {
        match v {
            serde_json::Value::Null => JsonValue::Null,
            serde_json::Value::Bool(b) => JsonValue::Bool(b),
            serde_json::Value::Number(n) => JsonValue::Number(n),
            serde_json::Value::String(s) => JsonValue::Str(s),
            serde_json::Value::Array(a) => JsonValue::Array(a.into_iter().map(JsonValue::from_serde).collect()),
            serde_json::Value::Object(o) => JsonValue::Object(o.into_iter().map(|(k, x)| (k, JsonValue::from_serde(x))).collect()),
        }
    }

    /// Converts the library's model into a `serde_json::Value`, variant for variant.
    #[verifier::external_body]
    fn to_serde(&self) -> serde_json::Value {
        match self {
            JsonValue::Null => serde_json::Value::Null,
            JsonValue::Bool(b) => serde_json::Value::Bool(*b),
            JsonValue::Number(n) => serde_json::Value::Number(n.clone()),
            JsonValue::Str(s) => serde_json::Value::String(s.clone()),
            JsonValue::Array(a) => serde_json::Value::Array(a.iter().map(JsonValue::to_serde).collect()),
            JsonValue::Object(o) => serde_json::Value::Object(o.iter().map(|(k, x)| (k.clone(), x.to_serde())).collect()),
        }
    }
}

/// Relies on `serde_json::from_str` into a `serde_json::Value`: the document
/// that the text holds, or `None` where it is no JSON.
#[verifier::external_body]
pub(crate) fn parse_json(s: &str) -> (r: Option<JsonValue>)
    ensures
        r == json_parse(s@),
{
    serde_json::from_str::<serde_json::Value>(s).ok().map(JsonValue::from_serde)
}

/// Relies on `serde_json::to_string_pretty` of a `serde_json::Value`, which
/// cannot fail on a value whose object keys are strings.
#[verifier::external_body]
pub(crate) fn to_pretty_json(v: &JsonValue) -> (r: String)
    ensures
        r@ == json_pretty_text(*v),
{
    serde_json::to_string_pretty(&v.to_serde()).unwrap_or_default()
}

/// Finds the first member named `key`.
pub fn find_field(fields: &Vec<(String, JsonValue)>, key: &str) -> (r: Option<usize>)
    ensures
        match r {
            Some(i) => i < fields@.len() && field(fields@, key@) == Some(fields@[i as int].1),
            None => field(fields@, key@) is None,
        },
{
    let key_text = String::from_str(key);
    let mut i: usize = 0;
    assert(fields@.subrange(0, fields@.len() as int) =~= fields@);
    while i < fields.len()
        invariant
            0 <= i <= fields@.len(),
            key_text@ == key@,
            field(fields@, key@) == field(fields@.subrange(i as int, fields@.len() as int), key@),
        decreases fields@.len() - i,
    {
        let rest = Ghost(fields@.subrange(i as int, fields@.len() as int));
        assert(rest@[0] == fields@[i as int]);
        if fields[i].0 == key_text {
            return Some(i);
        }
        assert(rest@.drop_first() =~= fields@.subrange(i + 1, fields@.len() as int));
        i = i + 1;
    }
    None
}

} // verus!
