//! The response of an HTTP exchange, as handed to a caller's callback.
use std::collections::HashMap;

use serde_json::Value as JsonValue;

use vstd::prelude::*;

verus! {

#[verifier::external_type_specification]
#[verifier::external_body]
pub struct ExJsonValue(JsonValue);

/// Relies on `serde_json::from_str` to parse `text` as one JSON document;
/// text that is not JSON gives `serde_json::Value::Null`.
#[verifier::external_body]
fn json_value(text: &str) -> (r: JsonValue) {
    serde_json::from_str(text).unwrap_or(JsonValue::Null)
}

/// An HTTP response: status code, body text and headers.
pub struct Data {
    status: u16,
    data: String,
    headers: HashMap<String, String>,
}

/// The status code used when no response arrived (connection timed out).
pub const TIMED_OUT: u16 = 522;

/// Bodies longer than this many bytes are sent compressed.
pub const GZIP_THRESHOLD: usize = 1024;

/// Whether a body of `len` bytes is worth compressing.
pub fn gzip_for_body(len: usize) -> (r: bool)
    ensures
        r == (len > GZIP_THRESHOLD),
{
    len > GZIP_THRESHOLD
}

impl Data {
    pub closed spec fn spec_status(&self) -> u16 {
        self.status
    }

    pub closed spec fn spec_text(&self) -> Seq<char> {
        self.data@
    }

    pub closed spec fn spec_headers(&self) -> Map<String, String> {
        self.headers@
    }

    /// A response with the given parts.
    pub fn new(status: u16, data: String, headers: HashMap<String, String>) -> (r: Data)
        ensures
            r.spec_status() == status,
            r.spec_text() == data@,
            r.spec_headers() == headers@,
    {
        Data { status, data, headers }
    }

    /// The response reported when the request could not be completed: the
    /// timed-out status, an empty body and no headers.
    pub fn timed_out() -> (r: Data)
        ensures
            r.spec_status() == TIMED_OUT,
            r.spec_text() == Seq::<char>::empty(),
            r.spec_headers() == Map::<String, String>::empty(),
    {
        Data { status: TIMED_OUT, data: String::new(), headers: HashMap::new() }
    }

    /// The HTTP status code.
    pub fn status(&self) -> (r: u16)
        ensures
            r == self.spec_status(),
    {
        self.status
    }

    /// The body as text.
    pub fn text(&self) -> (r: &String)
        ensures
            r@ == self.spec_text(),
    {
        &self.data
    }

    /// The body parsed as JSON; `Null` when it is not JSON.
    pub fn json(&self) -> JsonValue {
        json_value(self.data.as_str())
    }

    /// The headers.
    pub fn headers(&self) -> (r: &HashMap<String, String>)
        ensures
            r@ == self.spec_headers(),
    {
        &self.headers
    }
}

} // verus!
