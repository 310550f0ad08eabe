//! JSON documents as plain values, and how to look inside them.
use crate::text::same_text;
use vstd::prelude::*;

verus! {

/// A JSON value.
pub enum Json {
    Null,
    Bool(bool),
    /// A number as the bits of the double-precision number nearest to it, where there is one.
    Number(Option<u64>),
    Text(String),
    List(Vec<Json>),
    Fields(Vec<(String, Json)>),
}

/// A parsed document, known only by what it holds.
#[verifier::external_type_specification]
#[verifier::external_body]
pub struct ExValue(serde_json::Value);

/// The error of the parser, of which nothing is known but that it is one.
#[verifier::external_type_specification]
#[verifier::external_body]
pub struct ExJsonError(serde_json::Error);

/// The document that a byte string is the notation of, if it is one of any.
pub uninterp spec fn json_document(bytes: Seq<u8>) -> Option<serde_json::Value>;

/// What a document holds.
pub uninterp spec fn json_value(v: serde_json::Value) -> Json;

/// Calls `serde_json::from_slice`.
///
/// Relied upon: whether the bytes are a document, and which, depends on the bytes alone.
#[verifier::external_body]
fn from_slice(bytes: &[u8]) -> (r: Result<serde_json::Value, serde_json::Error>)
    ensures
        match r {
            Ok(v) => json_document(bytes@) == Some(v),
            Err(_) => json_document(bytes@) is None,
        },
{
    serde_json::from_slice::<serde_json::Value>(bytes)
}

/// Takes a `serde_json::Value` apart, variant by variant; numbers through
/// `serde_json::Number::as_f64`.
///
/// Relied upon: what comes out depends on the value alone.
#[verifier::external_body]
fn from_value(v: serde_json::Value) -> (r: Json)
    ensures
        r == json_value(v),
{
    match v {
        serde_json::Value::Null => Json::Null,
        serde_json::Value::Bool(b) => Json::Bool(b),
        serde_json::Value::Number(n) => Json::Number(n.as_f64().map(|x| x.to_bits())),
        serde_json::Value::String(s) => Json::Text(s),
        serde_json::Value::Array(a) => Json::List(a.into_iter().map(from_value).collect()),
        serde_json::Value::Object(o) => Json::Fields(
            o.into_iter().map(|(k, v)| (k, from_value(v))).collect(),
        ),
    }
}

/// What a byte string holds, read as JSON.
pub open spec fn parsed(bytes: Seq<u8>) -> Option<Json> {
    match json_document(bytes) {
        Some(v) => Some(json_value(v)),
        None => None,
    }
}

/// Reads a JSON document.
pub fn parse(bytes: &[u8]) -> (r: Option<Json>)
    ensures
        r == parsed(bytes@),
{
    match from_slice(bytes) {
        Ok(v) => Some(from_value(v)),
        Err(_) => None,
    }
}

/// The first field with this key from `i` on, or nothing.
pub open spec fn lookup(fields: Seq<(String, Json)>, key: Seq<char>, i: int) -> Json
    decreases fields.len() - i,
{
    if i < 0 || i >= fields.len() {
        Json::Null
    } else if fields[i].0@ == key {
        fields[i].1
    } else {
        lookup(fields, key, i + 1)
    }
}

impl Json {
    /// The value of a field, or nothing where there is no such field.
    pub open spec fn field(self, key: Seq<char>) -> Json {
        match self {
            Json::Fields(fields) => lookup(fields@, key, 0),
            _ => Json::Null,
        }
    }

    /// The items of a list.
    pub open spec fn items(self) -> Option<Seq<Json>> {
        match self {
            Json::List(items) => Some(items@),
            _ => None,
        }
    }

    /// The characters of a text.
    pub open spec fn text(self) -> Option<Seq<char>> {
        match self {
            Json::Text(s) => Some(s@),
            _ => None,
        }
    }

    /// The bits of a number.
    pub open spec fn number(self) -> Option<u64> {
        match self {
            Json::Number(n) => n,
            _ => None,
        }
    }

    /// Looks a field up.
    pub fn get(&self, key: &str) -> (r: &Json)
        ensures
            *r == self.field(key@),
    {
        match self {
            Json::Fields(fields) => {
                let mut i: usize = 0;
                let total: usize = fields.len();
                while i < total
                    invariant
                        total == fields@.len(),
                        i <= total,
                        self.field(key@) == lookup(fields@, key@, 0),
                        lookup(fields@, key@, i as int) == lookup(fields@, key@, 0),
                    decreases total - i,
                {
                    if same_text(fields[i].0.as_str(), key) {
                        return &fields[i].1;
                    }
                    i = i + 1;
                }
                &Json::Null
            },
            _ => &Json::Null,
        }
    }

    /// The text, or nothing where this is something else.
    pub fn as_str(&self) -> (r: Option<&str>)
        ensures
            match r {
                Some(s) => self.text() == Some(s@),
                None => self.text() is None,
            },
    {
        match self {
            Json::Text(s) => Some(s.as_str()),
            _ => None,
        }
    }

    /// The text, or an empty one where this is something else.
    pub fn str_or_empty(&self) -> (r: String)
        ensures
            r@ == (match self.text() {
                Some(s) => s,
                None => Seq::empty(),
            }),
    {
        match self {
            Json::Text(s) => s.clone(),
            _ => String::new(),
        }
    }
}

/// What a document holds is what the parser found in it, and what is no document holds nothing.
pub proof fn documents_are_read(bytes: Seq<u8>)
    ensures
        json_document(bytes) matches Some(v) ==> parsed(bytes) == Some(json_value(v)),
        json_document(bytes) is None ==> parsed(bytes) is None,
{
}

proof fn lemma_found(fields: Seq<(String, Json)>, key: Seq<char>, at: int, i: int)
    requires
        0 <= at <= i < fields.len(),
        fields[i].0@ == key,
        forall|k: int| 0 <= k < i ==> (#[trigger] fields[k]).0@ != key,
    ensures
        lookup(fields, key, at) == fields[i].1,
    decreases i - at,
{
    if at < i {
        assert(fields[at].0@ != key);
        lemma_found(fields, key, at + 1, i);
    }
}

proof fn lemma_not_found(fields: Seq<(String, Json)>, key: Seq<char>, at: int)
    requires
        0 <= at <= fields.len(),
        forall|k: int| 0 <= k < fields.len() ==> (#[trigger] fields[k]).0@ != key,
    ensures
        lookup(fields, key, at) == Json::Null,
    decreases fields.len() - at,
{
    if at < fields.len() {
        assert(fields[at].0@ != key);
        lemma_not_found(fields, key, at + 1);
    }
}

/// A field is found by its key, the first one where there are several.
pub proof fn fields_are_found_by_their_key(fields: Vec<(String, Json)>, key: Seq<char>, i: int)
    requires
        0 <= i < fields@.len(),
        fields@[i].0@ == key,
        forall|k: int| 0 <= k < i ==> (#[trigger] fields@[k]).0@ != key,
    ensures
        Json::Fields(fields).field(key) == fields@[i].1,
{
    lemma_found(fields@, key, 0, i);
}

/// Where no field has the key, there is nothing to be found.
pub proof fn missing_fields_are_nothing(j: Json, key: Seq<char>)
    requires
        j matches Json::Fields(fields) ==> forall|k: int|
            0 <= k < fields@.len() ==> (#[trigger] fields@[k]).0@ != key,
    ensures
        j.field(key) == Json::Null,
        j.field(key).items() is None,
        j.field(key).text() is None,
        j.field(key).number() is None,
{
    if let Json::Fields(fields) = j {
        lemma_not_found(fields@, key, 0);
    }
}

/// A value is a list, a text or a number, and no two of them.
pub proof fn values_are_of_one_kind(j: Json)
    ensures
        j.items() is Some <==> j is List,
        j.text() is Some <==> j is Text,
        j matches Json::List(v) ==> j.items() == Some(v@),
        j matches Json::Text(s) ==> j.text() == Some(s@),
        j matches Json::Number(n) ==> j.number() == n,
        !(j is Number) ==> j.number() is None,
{
}

} // verus!
