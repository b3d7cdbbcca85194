//! Strings of the language: text, or raw bytes that are not valid UTF-8.

use vstd::prelude::*;
use vstd::utf8::{decode_utf8, valid_utf8};
use crate::error::ServError;
use crate::text::string_of;

verus! {

/// The debug text of the `Utf8Error` that `std::str::from_utf8` reports for
/// `bytes` (where it is not valid UTF-8). Debug formatting is std's; the
/// text is named, not spelled out.
pub uninterp spec fn utf8_error_debug(bytes: Seq<u8>) -> Seq<char>;

/// Reads `bytes` as UTF-8 text.
/// Trusted: calls `std::str::from_utf8`, which std documents as succeeding
/// exactly on valid UTF-8 and giving the text those bytes encode; the error
/// is turned into its debug text, named `utf8_error_debug`.
#[verifier::external_body]
pub(crate) fn str_from_utf8(bytes: &[u8]) -> (r: Result<&str, String>)
    ensures
        match r {
            Ok(s) => valid_utf8(bytes@) && s@ == decode_utf8(bytes@),
            Err(m) => !valid_utf8(bytes@) && m@ == utf8_error_debug(bytes@),
        },
{
    std::str::from_utf8(bytes).map_err(|e| format!("{:?}", e))
}

/// What a string holds: text, or bytes.
#[derive(Debug, Clone)]
pub enum Data {
    Text(String),
    Bytes(Vec<u8>),
}

/// A string, with the content type it was given, if any.
#[derive(Debug, Clone)]
pub struct ServString {
    pub mime: Option<&'static str>,
    pub data: Data,
}

impl ServString {
    /// The string as text: its text, or its bytes read as UTF-8; bytes that
    /// are not valid UTF-8 give a UTF-8 error.
    pub fn as_str(&self) -> (r: Result<&str, ServError>)
        ensures
            match self.data {
                Data::Text(s) => r matches Ok(t) && t@ == s@,
                Data::Bytes(b) => if valid_utf8(b@) {
                    r matches Ok(t) && t@ == decode_utf8(b@)
                } else {
                    r matches Err(ServError::Utf8(m)) && m@ == utf8_error_debug(b@)
                },
            },
    {
        match &self.data {
            Data::Text(s) => Ok(s.as_str()),
            Data::Bytes(b) => match str_from_utf8(b.as_slice()) {
                Ok(t) => Ok(t),
                Err(m) => Err(ServError::Utf8(m)),
            },
        }
    }

    /// A string of `input`: text where the bytes are valid UTF-8, the bytes
    /// as they are otherwise.
    pub fn from_bytes(input: Vec<u8>) -> (r: Self)
        ensures
            r.mime is None,
            valid_utf8(input@) ==> (r.data matches Data::Text(s) && s@ == decode_utf8(input@)),
            !valid_utf8(input@) ==> (r.data matches Data::Bytes(b) && b@ == input@),
    {
        let text = match str_from_utf8(input.as_slice()) {
            Ok(t) => Some(string_of(t)),
            Err(_) => None,
        };
        match text {
            Some(t) => ServString { mime: None, data: Data::Text(t) },
            None => ServString { mime: None, data: Data::Bytes(input) },
        }
    }

    /// A string of the text `input`.
    pub fn from_text(input: String) -> (r: Self)
        ensures
            r.mime is None,
            r.data matches Data::Text(s) && s@ == input@,
    {
        ServString { mime: None, data: Data::Text(input) }
    }
}

/// The text a string reads as, if any: its text, or its bytes where they
/// are valid UTF-8.
pub open spec fn as_text(s: ServString) -> Option<Seq<char>> {
    match s.data {
        Data::Text(t) => Some(t@),
        Data::Bytes(b) => if valid_utf8(b@) {
            Some(decode_utf8(b@))
        } else {
            None
        },
    }
}

/// A string made from bytes reads as text exactly when the bytes are valid
/// UTF-8, and then as the text they encode.
pub proof fn lemma_bytes_read_back(input: Seq<u8>, r: ServString)
    requires
        valid_utf8(input) ==> (r.data matches Data::Text(s) && s@ == decode_utf8(input)),
        !valid_utf8(input) ==> (r.data matches Data::Bytes(b) && b@ == input),
    ensures
        as_text(r) == if valid_utf8(input) {
            Some(decode_utf8(input))
        } else {
            None
        },
{
}

} // verus!
