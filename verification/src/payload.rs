//! How values travel as the payloads of topics.

use crate::error::RuntimeError;
use crate::json::{from_json, json_bytes, json_document, to_json, Json};
use crate::text::{decimal, push_decimal, string_of, utf8_text};
use crate::value::{well_formed, Value, ValueView};
use vstd::prelude::*;
use vstd::utf8::{decode_utf8, encode_utf8, valid_utf8};

verus! {

/// The payload that carries a value. Text, paths and numbers travel as the
/// UTF-8 bytes of their text, an object as the bytes of its JSON document,
/// whatever it holds. A span of time, a time of day, a boolean and an address
/// do not travel by themselves.
pub open spec fn payload_of(v: ValueView) -> Option<Seq<u8>> {
    match v {
        ValueView::Str(s) => Some(encode_utf8(s)),
        ValueView::Path(s) => Some(encode_utf8(s)),
        ValueView::Float(s) => Some(encode_utf8(s)),
        ValueView::Integer(i) => Some(encode_utf8(decimal(i as int))),
        ValueView::Object(_) => json_bytes(to_json(v)),
        _ => None,
    }
}

/// The value that a payload carries. Bytes that spell a JSON document carry
/// the value that the document stands for, and are refused if it stands for
/// none. Other bytes carry the text that they encode, and are refused if they
/// encode none.
pub open spec fn value_of_payload(bytes: Seq<u8>) -> Result<ValueView, RuntimeError> {
    match json_document(bytes) {
        Some(doc) => match from_json(doc) {
            Some(v) => Ok(v),
            None => Err(RuntimeError::TypeError),
        },
        None => if valid_utf8(bytes) {
            Ok(ValueView::Str(decode_utf8(bytes)))
        } else {
            Err(RuntimeError::InvalidPayload)
        },
    }
}

impl Value {
    /// The text of a string or of a path.
    pub fn into_text(self) -> (r: Result<String, RuntimeError>)
        ensures
            match self@ {
                ValueView::Str(s) => r matches Ok(t) && t@ == s,
                ValueView::Path(s) => r matches Ok(t) && t@ == s,
                _ => r == Err::<String, RuntimeError>(RuntimeError::TypeError),
            },
    {
        match self {
            Value::Str(s) => Ok(s),
            Value::Path(s) => Ok(s),
            _ => Err(RuntimeError::TypeError),
        }
    }

    /// The payload that carries the value.
    pub fn to_payload(&self) -> (r: Result<Vec<u8>, RuntimeError>)
        ensures
            match payload_of(self@) {
                Some(bytes) => r matches Ok(b) && b@ == bytes,
                None => r == Err::<Vec<u8>, RuntimeError>(RuntimeError::NotTransmissible),
            },
    {
        match self {
            Value::Str(s) => Ok(s.as_str().as_bytes_vec()),
            Value::Path(s) => Ok(s.as_str().as_bytes_vec()),
            Value::Float(s) => Ok(s.as_str().as_bytes_vec()),
            Value::Integer(i) => {
                let mut chars: Vec<char> = Vec::new();
                push_decimal(&mut chars, *i);
                assert(chars@ =~= decimal(*i as int));
                let text = string_of(chars.as_slice());
                Ok(text.as_str().as_bytes_vec())
            },
            Value::Object(_) => match Json::from_value(self).write() {
                Some(bytes) => Ok(bytes),
                None => Err(RuntimeError::NotTransmissible),
            },
            _ => Err(RuntimeError::NotTransmissible),
        }
    }

    /// The value that a payload carries.
    pub fn from_payload(bytes: &[u8]) -> (r: Result<Value, RuntimeError>)
        ensures
            match value_of_payload(bytes@) {
                Ok(v) => r matches Ok(w) && w@ == v && well_formed(v),
                Err(e) => r matches Err(f) && f == e,
            },
    {
        match Json::read(bytes) {
            Some(doc) => match doc.to_value() {
                Some(v) => Ok(v),
                None => Err(RuntimeError::TypeError),
            },
            None => match utf8_text(bytes) {
                Some(text) => Ok(Value::Str(text)),
                None => Err(RuntimeError::InvalidPayload),
            },
        }
    }
}

} // verus!
