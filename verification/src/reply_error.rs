//! Errors as they are replied in JSON.
use serde_json::Value;

use vstd::prelude::*;

use crate::error_codes::{law_error_codes_differ, ErrorCode};

verus! {

/// The outside type `serde_json::Map`: the fields of a JSON object.
#[verifier::external_type_specification]
#[verifier::external_body]
#[verifier::reject_recursive_types(K)]
#[verifier::reject_recursive_types(V)]
pub struct ExJsonMap<K, V>(serde_json::Map<K, V>);

/// The outside type `serde_json::Value`: a JSON value.
#[verifier::external_type_specification]
#[verifier::external_body]
pub struct ExJsonValue(serde_json::Value);

/// The fields of a JSON object.
pub uninterp spec fn json_fields(object: serde_json::Map<String, Value>) -> Map<Seq<char>, Value>;

/// The JSON string with the given text.
pub uninterp spec fn json_string(text: Seq<char>) -> Value;

/// The JSON object with the given fields.
pub uninterp spec fn json_object(fields: Map<Seq<char>, Value>) -> Value;

/// The JSON value that some bytes are the text of.
pub uninterp spec fn json_parsed(bytes: Seq<u8>) -> Option<Value>;

/// The text of a field that is a string.
pub uninterp spec fn json_text_field(value: Value, key: Seq<char>) -> Option<Seq<char>>;

/// The fields of a field that is an object.
pub uninterp spec fn json_object_field(value: Value, key: Seq<char>) -> Option<
    Map<Seq<char>, Value>,
>;

/// The fields of an empty object: none.
pub open spec fn no_fields() -> Map<Seq<char>, Value> {
    Map::empty()
}

/// `serde_json::Map::new`: an object without fields.
#[verifier::external_body]
fn json_map_new() -> (r: serde_json::Map<String, Value>)
    ensures
        json_fields(r) == no_fields(),
{
    serde_json::Map::new()
}

/// `serde_json::Map::insert`: the field is set, whether or not there was one with that key.
#[verifier::external_body]
fn json_map_insert(object: &mut serde_json::Map<String, Value>, key: &str, value: Value)
    ensures
        json_fields(*final(object)) == json_fields(*old(object)).insert(key@, value),
{
    object.insert(key.to_string(), value);
}

/// `Extend::extend` of `serde_json::Map`: the fields of the other object are set.
#[verifier::external_body]
fn json_map_extend(
    object: &mut serde_json::Map<String, Value>,
    other: &serde_json::Map<String, Value>,
)
    ensures
        json_fields(*final(object)) == json_fields(*old(object)).union_prefer_right(
            json_fields(*other),
        ),
{
    object.extend(other.clone());
}

/// `Value::from` on a string: the JSON string, named `json_string`.
#[verifier::external_body]
fn json_from_text(text: &str) -> (r: Value)
    ensures
        r == json_string(text@),
{
    Value::from(text)
}

/// Whether every field of a JSON value that is set to a string is read as that string.
pub open spec fn texts_are_read(value: Value, fields: Map<Seq<char>, Value>) -> bool {
    forall|key: Seq<char>, text: Seq<char>|
        fields.contains_key(key) && fields[key] == #[trigger] json_string(text)
            ==> #[trigger] json_text_field(value, key) == Some(text)
}

/// `Value::Object`: the JSON object, named `json_object`. Its fields are those of the map: a field
/// that is a string is read as that string.
#[verifier::external_body]
fn json_from_map(object: serde_json::Map<String, Value>) -> (r: Value)
    ensures
        r == json_object(json_fields(object)),
        texts_are_read(r, json_fields(object)),
{
    Value::Object(object)
}

/// `serde_json::from_slice`: the JSON value that the bytes are the text of, named `json_parsed`.
#[verifier::external_body]
fn json_from_slice(bytes: &[u8]) -> (r: Option<Value>)
    ensures
        r == json_parsed(bytes@),
{
    serde_json::from_slice(bytes).ok()
}

/// Indexing a `serde_json::Value` by a key, and `as_str`: the text of the field, named
/// `json_text_field`; none where there is no such field or it is no string.
#[verifier::external_body]
fn json_get_text(value: &Value, key: &str) -> (r: Option<String>)
    ensures
        match json_text_field(*value, key@) {
            Some(text) => r matches Some(s) && s@ == text,
            None => r is None,
        },
{
    value[key].as_str().map(|s| s.to_string())
}

/// Indexing a `serde_json::Value` by a key, and `as_object`: the fields of the field, named
/// `json_object_field`; none where there is no such field or it is no object.
#[verifier::external_body]
fn json_get_object(value: &Value, key: &str) -> (r: Option<serde_json::Map<String, Value>>)
    ensures
        match json_object_field(*value, key@) {
            Some(fields) => r matches Some(object) && json_fields(object) == fields,
            None => r is None,
        },
{
    value[key].as_object().cloned()
}

/// The standard format for errors that can be replied as JSON.
///
/// The JSON output includes the following fields:
/// ```json
/// {
///     "errorCode": "specific-error-code",
///     "message": "Human readable error message"
/// }
/// ```
#[derive(Debug, PartialEq, Eq)]
pub struct JsonReply {
    /// The error code
    error_code: ErrorCode,
    /// The error message to be displayed only in debug logs
    message: String,
    /// Additional fields to be included in the JSON response
    extra: serde_json::Map<String, Value>,
}

/// What is known of a reply.
pub struct ReplyModel {
    pub error_code: ErrorCode,
    pub message: Seq<char>,
    pub extra: Map<Seq<char>, Value>,
}

impl View for JsonReply {
    type V = ReplyModel;

    closed spec fn view(&self) -> ReplyModel {
        ReplyModel {
            error_code: self.error_code,
            message: self.message@,
            extra: json_fields(self.extra),
        }
    }
}

impl ReplyModel {
    /// The fields of the reply as JSON. An additional field takes the place of a standard one with
    /// the same key.
    pub open spec fn fields(self) -> Map<Seq<char>, Value> {
        no_fields().insert(
            "errorCode"@,
            json_string(self.error_code.text()),
        ).insert("message"@, json_string(self.message)).union_prefer_right(self.extra)
    }
}

/// The code that a text stands for. Where there is none, or it is unknown, the receiver counts as
/// unavailable.
pub open spec fn read_error_code(text: Option<Seq<char>>) -> ErrorCode {
    match text {
        Some(t) => if exists|code: ErrorCode| #[trigger] code.text() == t {
            choose|code: ErrorCode| #[trigger] code.text() == t
        } else {
            ErrorCode::Unavailable
        },
        None => ErrorCode::Unavailable,
    }
}

/// What a JSON value means as a reply.
pub open spec fn read_reply(value: Value) -> ReplyModel {
    ReplyModel {
        error_code: read_error_code(json_text_field(value, "errorCode"@)),
        message: match json_text_field(value, "message"@) {
            Some(text) => text,
            None => "Receiver error"@,
        },
        extra: match json_object_field(value, "extra"@) {
            Some(fields) => fields,
            None => no_fields(),
        },
    }
}

/// The bytes are not the text of a JSON value.
#[derive(Debug, Clone, Copy, PartialEq, Eq)]
pub struct InvalidJson {}

impl JsonReply {
    /// Create a new Reply
    pub fn new(error_code: ErrorCode, message: &str) -> (r: Self)
        ensures
            r@ == (ReplyModel { error_code, message: message@, extra: no_fields() }),
    {
        Self { error_code, message: message.to_owned(), extra: json_map_new() }
    }

    /// Add an additional field to the JSON response
    pub fn with_extra(self, key: &str, value: Value) -> (r: Self)
        ensures
            r@ == (ReplyModel { extra: self@.extra.insert(key@, value), ..self@ }),
    {
        let mut extra = self.extra;
        json_map_insert(&mut extra, key, value);
        Self { error_code: self.error_code, message: self.message, extra }
    }

    /// Serialize the Reply to a JSON value. Unless an additional field takes its place, the error
    /// code, and the message, is read back from it.
    pub fn to_json(&self) -> (r: Value)
        ensures
            r == json_object(self@.fields()),
            !self@.extra.contains_key("errorCode"@) ==> read_reply(r).error_code
                == self@.error_code,
            !self@.extra.contains_key("message"@) ==> read_reply(r).message == self@.message,
    {
        let mut map = json_map_new();
        json_map_insert(&mut map, "errorCode", json_from_text(self.error_code.as_str()));
        json_map_insert(&mut map, "message", json_from_text(&self.message));
        json_map_extend(&mut map, &self.extra);
        let ghost fields = json_fields(map);
        let value = json_from_map(map);
        proof {
            reveal_strlit("errorCode");
            reveal_strlit("message");
            assert("errorCode"@.len() == 9);
            assert("message"@.len() == 7);
            let code = self.error_code;
            if !self@.extra.contains_key("errorCode"@) {
                assert(fields["errorCode"@] == json_string(code.text()));
                assert(json_text_field(value, "errorCode"@) == Some(code.text()));
                let found = choose|c: ErrorCode| #[trigger] c.text() == code.text();
                law_error_codes_differ(found, code);
            }
            if !self@.extra.contains_key("message"@) {
                assert(fields["message"@] == json_string(self@.message));
                assert(json_text_field(value, "message"@) == Some(self@.message));
            }
        }
        value
    }

    /// Reads a reply.
    pub fn from_bytes(bytes: &[u8]) -> (r: Result<Self, InvalidJson>)
        ensures
            match json_parsed(bytes@) {
                Some(value) => r matches Ok(reply) && reply@ == read_reply(value),
                None => r matches Err(InvalidJson {  }),
            },
    {
        match json_from_slice(bytes) {
            Some(value) => Ok(
                Self::from_fields(
                    json_get_text(&value, "errorCode"),
                    json_get_text(&value, "message"),
                    json_get_object(&value, "extra"),
                ),
            ),
            None => Err(InvalidJson {  }),
        }
    }

    /// The reply that some fields stand for. What is missing has a default.
    pub fn from_fields(
        error_code: Option<String>,
        message: Option<String>,
        extra: Option<serde_json::Map<String, Value>>,
    ) -> (r: Self)
        ensures
            r@.error_code == read_error_code(
                match error_code {
                    Some(text) => Some(text@),
                    None => None,
                },
            ),
            r@.message == (match message {
                Some(text) => text@,
                None => "Receiver error"@,
            }),
            r@.extra == (match extra {
                Some(fields) => json_fields(fields),
                None => no_fields(),
            }),
    {
        let error_code = match &error_code {
            Some(text) => match ErrorCode::parse(text) {
                Some(code) => {
                    proof {
                        let found = choose|c: ErrorCode| #[trigger] c.text() == text@;
                        law_error_codes_differ(found, code);
                    }
                    code
                },
                None => ErrorCode::Unavailable,
            },
            None => ErrorCode::Unavailable,
        };
        let message = match message {
            Some(text) => text,
            None => "Receiver error".to_owned(),
        };
        let extra = match extra {
            Some(fields) => fields,
            None => json_map_new(),
        };
        Self { error_code, message, extra }
    }

    pub fn error_code(&self) -> (r: ErrorCode)
        ensures
            r == self@.error_code,
    {
        self.error_code
    }

    pub fn message(&self) -> (r: &str)
        ensures
            r@ == self@.message,
    {
        &self.message
    }

    /// Get the HTTP status code for the error
    pub fn status_code(&self) -> (r: u16)
        ensures
            r == if self@.error_code is Unavailable {
                500u16
            } else {
                400u16
            },
    {
        match self.error_code {
            ErrorCode::Unavailable => 500,
            ErrorCode::NotEnoughMoney | ErrorCode::VersionUnsupported
            | ErrorCode::OriginalPsbtRejected => 400,
        }
    }
}

/// A reply has the field of every additional one, with its value; and, unless an additional one has the
/// same key, the text of the error code and the message; and no other field.
pub proof fn law_reply_fields(reply: ReplyModel, key: Seq<char>)
    ensures
        reply.fields().contains_key(key) <==> reply.extra.contains_key(key) || key == "errorCode"@
            || key == "message"@,
        reply.extra.contains_key(key) ==> reply.fields()[key] == reply.extra[key],
        !reply.extra.contains_key("errorCode"@) ==> reply.fields()["errorCode"@] == json_string(
            reply.error_code.text(),
        ),
        !reply.extra.contains_key("message"@) ==> reply.fields()["message"@] == json_string(
            reply.message,
        ),
{
    reveal_strlit("errorCode");
    reveal_strlit("message");
    assert("errorCode"@.len() == 9);
    assert("message"@.len() == 7);
}

/// The text of a code is read as that code; any other text, and none, as that the receiver is not
/// available.
pub proof fn law_error_code_is_read(code: ErrorCode, text: Seq<char>)
    ensures
        read_error_code(Some(code.text())) == code,
        (forall|c: ErrorCode| #[trigger] c.text() != text) ==> read_error_code(Some(text))
            == ErrorCode::Unavailable,
        read_error_code(None) == ErrorCode::Unavailable,
{
    let found = choose|c: ErrorCode| #[trigger] c.text() == code.text();
    assert(found.text() == code.text());
    law_error_codes_differ(found, code);
}

/// A JSON value is read as a reply by its fields `errorCode`, `message` and `extra`; what is missing has a
/// default.
pub proof fn law_reply_is_read(value: Value)
    ensures
        read_reply(value).error_code == read_error_code(json_text_field(value, "errorCode"@)),
        json_text_field(value, "message"@) matches Some(text) ==> read_reply(value).message
            == text,
        json_text_field(value, "message"@) is None ==> read_reply(value).message
            == "Receiver error"@,
        json_object_field(value, "extra"@) matches Some(fields) ==> read_reply(value).extra
            == fields,
        json_object_field(value, "extra"@) is None ==> read_reply(value).extra == Map::<
            Seq<char>,
            Value,
        >::empty(),
{
}

} // verus!
