//! What a request carries from command to command: its variables, the
//! response headers, body and content type.

use vstd::prelude::*;
use crate::body::Body;
use crate::table::{as_map, distinct_keys, get_entry, put};
use crate::text::string_of;

verus! {

/// The state of one request as its commands run.
pub struct RequestState {
    variables: Vec<(String, String)>,
    headers: Vec<(String, String)>,
    body: Body,
    mime: Option<String>,
}

/// The abstract state: variables and headers as maps, the body, the
/// content type.
pub struct StateV {
    pub variables: Map<Seq<char>, Seq<char>>,
    pub headers: Map<Seq<char>, Seq<char>>,
    pub body: Body,
    pub mime: Option<Seq<char>>,
}

/// The texts of a string table.
pub open spec fn text_map(entries: Seq<(String, String)>) -> Map<Seq<char>, Seq<char>> {
    as_map(entries).map_values(|s: String| s@)
}

/// The view of an optional string.
pub open spec fn opt_text(o: Option<String>) -> Option<Seq<char>> {
    match o {
        Some(s) => Some(s@),
        None => None,
    }
}

impl View for RequestState {
    type V = StateV;

    closed spec fn view(&self) -> StateV {
        StateV {
            variables: text_map(self.variables@),
            headers: text_map(self.headers@),
            body: self.body,
            mime: opt_text(self.mime),
        }
    }
}

/// Writing under a key of a string table writes its text into the map.
proof fn lemma_text_map_insert(before: Seq<(String, String)>, after: Seq<(String, String)>, key: String,
    value: String)
    requires
        as_map(after) == as_map(before).insert(key@, value),
    ensures
        text_map(after) == text_map(before).insert(key@, value@),
{
    assert(text_map(after) =~= text_map(before).insert(key@, value@));
}

impl RequestState {
    /// No variable and no header occurs twice.
    pub closed spec fn wf(&self) -> bool {
        distinct_keys(self.variables@) && distinct_keys(self.headers@)
    }

    /// A fresh state: no variables, no headers, an empty text body, no
    /// content type.
    pub fn new() -> (r: Self)
        ensures
            r.wf(),
            r@.variables == Map::<Seq<char>, Seq<char>>::empty(),
            r@.headers == Map::<Seq<char>, Seq<char>>::empty(),
            r@.body matches Body::Txt(s) && s@.len() == 0,
            r@.mime is None,
    {
        let r = RequestState { variables: Vec::new(), headers: Vec::new(), body: Body::Txt(String::new()), mime: None };
        proof {
            assert(r@.variables =~= Map::<Seq<char>, Seq<char>>::empty());
            assert(r@.headers =~= Map::<Seq<char>, Seq<char>>::empty());
        }
        r
    }

    /// The value of the variable `key`, if it is set.
    pub fn get_variable(&self, key: &str) -> (r: Option<&str>)
        ensures
            match r {
                Some(v) => self@.variables.contains_key(key@) && v@ == self@.variables[key@],
                None => !self@.variables.contains_key(key@),
            },
    {
        match get_entry(&self.variables, key) {
            Some(v) => Some(v.as_str()),
            None => None,
        }
    }

    /// Sets the variable `key` to `value`.
    pub fn set_variable(&mut self, key: &str, value: &str)
        requires
            old(self).wf(),
        ensures
            final(self).wf(),
            final(self)@.variables == old(self)@.variables.insert(key@, value@),
            final(self)@.headers == old(self)@.headers,
            final(self)@.body == old(self)@.body,
            final(self)@.mime == old(self)@.mime,
    {
        let ghost before = self.variables@;
        let k = string_of(key);
        let v = string_of(value);
        put(&mut self.variables, k, v);
        proof {
            lemma_text_map_insert(before, self.variables@, k, v);
        }
    }

    /// Sets the response header `key` to `value`.
    pub fn set_header(&mut self, key: &str, value: &str)
        requires
            old(self).wf(),
        ensures
            final(self).wf(),
            final(self)@.headers == old(self)@.headers.insert(key@, value@),
            final(self)@.variables == old(self)@.variables,
            final(self)@.body == old(self)@.body,
            final(self)@.mime == old(self)@.mime,
    {
        let ghost before = self.headers@;
        let k = string_of(key);
        let v = string_of(value);
        put(&mut self.headers, k, v);
        proof {
            lemma_text_map_insert(before, self.headers@, k, v);
        }
    }

    /// The value of the response header `key`, if it is set.
    pub fn get_header(&self, key: &str) -> (r: Option<&str>)
        ensures
            match r {
                Some(v) => self@.headers.contains_key(key@) && v@ == self@.headers[key@],
                None => !self@.headers.contains_key(key@),
            },
    {
        match get_entry(&self.headers, key) {
            Some(v) => Some(v.as_str()),
            None => None,
        }
    }

    /// The body of the response so far.
    pub fn body(&self) -> (r: &Body)
        ensures
            *r == self@.body,
    {
        &self.body
    }

    /// The content type, if one was set.
    pub fn mime(&self) -> (r: Option<&str>)
        ensures
            match r {
                Some(m) => self@.mime == Some(m@),
                None => self@.mime is None,
            },
    {
        match &self.mime {
            Some(m) => Some(m.as_str()),
            None => None,
        }
    }

    /// Replaces the body with `body`.
    pub fn set_body(&mut self, body: Body)
        requires
            old(self).wf(),
        ensures
            final(self).wf(),
            final(self)@.body == body,
            final(self)@.variables == old(self)@.variables,
            final(self)@.headers == old(self)@.headers,
            final(self)@.mime == old(self)@.mime,
    {
        self.body = body;
    }

    /// Appends `input` to the body, as `Body::append` joins them.
    pub fn append_body(&mut self, input: Body)
        requires
            old(self).wf(),
        ensures
            final(self).wf(),
            Body::sum_of(old(self)@.body, input, final(self)@.body),
            final(self)@.variables == old(self)@.variables,
            final(self)@.headers == old(self)@.headers,
            final(self)@.mime == old(self)@.mime,
    {
        self.body.append(input);
    }

    /// Sets the content type.
    pub fn set_mime(&mut self, mime: Option<String>)
        requires
            old(self).wf(),
        ensures
            final(self).wf(),
            final(self)@.mime == opt_text(mime),
            final(self)@.variables == old(self)@.variables,
            final(self)@.headers == old(self)@.headers,
            final(self)@.body == old(self)@.body,
    {
        self.mime = mime;
    }
}

} // verus!
