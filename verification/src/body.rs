//! The body of a response: raw bytes, text, or an HTTP error.

use vstd::prelude::*;
use vstd::utf8::encode_utf8;
use crate::text::{decimal, decimal_string, push_str, string_of};

verus! {

/// An HTTP error: a status code with an optional message.
#[derive(Debug, Clone)]
pub struct HttpError {
    pub code: u32,
    pub message: Option<String>,
}

impl HttpError {
    /// The error as text: `code: message`, or the code alone when there is
    /// no message.
    pub open spec fn text(&self) -> Seq<char> {
        match self.message {
            Some(m) => decimal(self.code as nat) + ": "@ + m@,
            None => decimal(self.code as nat),
        }
    }

    /// The error for a failed read, whose `message` says what went wrong:
    /// status 404.
    pub fn not_found(message: &str) -> (r: Self)
        ensures
            r.code == 404,
            r.message matches Some(m) && m@ == message@,
    {
        HttpError { code: 404, message: Some(string_of(message)) }
    }

    /// The error as text: `code: message`, or the code alone.
    pub fn to_string(&self) -> (r: String)
        ensures
            r@ == self.text(),
    {
        let mut out = decimal_string(self.code as u64);
        match &self.message {
            Some(m) => {
                push_str(&mut out, ": ");
                push_str(&mut out, m.as_str());
            },
            None => {},
        }
        out
    }
}

/// A response body.
#[derive(Debug, Clone)]
pub enum Body {
    Raw(Vec<u8>),
    Txt(String),
    Error(HttpError),
}

/// The UTF-8 bytes of a body's text.
pub open spec fn utf8(s: Seq<char>) -> Seq<u8> {
    encode_utf8(s)
}

impl Body {
    /// The bytes that a body sends: the raw bytes, the UTF-8 encoding of
    /// the text, or the word `error`.
    pub open spec fn bytes(&self) -> Seq<u8> {
        match self {
            Body::Raw(v) => v@,
            Body::Txt(s) => utf8(s@),
            Body::Error(_) => utf8("error"@),
        }
    }

    /// A text body holding `input`.
    pub fn from_str(input: &str) -> (r: Self)
        ensures
            r matches Body::Txt(s) && s@ == input@,
    {
        Body::Txt(string_of(input))
    }

    /// A raw body holding `input`.
    pub fn from_bytes(input: Vec<u8>) -> (r: Self)
        ensures
            r matches Body::Raw(v) && v@ == input@,
    {
        Body::Raw(input)
    }

    /// What `add` makes of `l` followed by `r`: raw bytes where either side
    /// is raw, text where both are, and the first error where there is one.
    pub open spec fn sum_of(l: Body, r: Body, out: Body) -> bool {
        match (l, r) {
            (Body::Error(a), _) => out == Body::Error(a),
            (_, Body::Error(b)) => out == Body::Error(b),
            (Body::Txt(a), Body::Txt(b)) => out matches Body::Txt(c) && c@ == a@ + b@,
            _ => out matches Body::Raw(c) && c@ == l.bytes() + r.bytes(),
        }
    }

    fn add(l: Self, r: Self) -> (out: Self)
        ensures
            Self::sum_of(l, r, out),
    {
        match (l, r) {
            (Body::Raw(mut a), Body::Raw(mut b)) => {
                a.append(&mut b);
                Body::Raw(a)
            },
            (Body::Txt(mut a), Body::Txt(b)) => {
                push_str(&mut a, b.as_str());
                Body::Txt(a)
            },
            (Body::Raw(mut a), Body::Txt(b)) => {
                let mut tail = bytes_of(b.as_str());
                a.append(&mut tail);
                Body::Raw(a)
            },
            (Body::Txt(a), Body::Raw(mut b)) => {
                let mut new = bytes_of(a.as_str());
                new.append(&mut b);
                Body::Raw(new)
            },
            (Body::Error(a), _) => Body::Error(a),
            (_, Body::Error(b)) => Body::Error(b),
        }
    }

    /// Appends `input` to the body, as `add` joins them.
    pub fn append(&mut self, input: Body)
        ensures
            Self::sum_of(*old(self), input, *final(self)),
    {
        let mut current = Body::Raw(Vec::new());
        std::mem::swap(&mut current, self);
        *self = Self::add(current, input);
    }

    /// Replaces the body with `input`.
    pub fn replace(&mut self, input: Body)
        ensures
            *final(self) == input,
    {
        *self = input;
    }

    /// The bytes that the body sends.
    pub fn data(&self) -> (r: &[u8])
        ensures
            r@ == self.bytes(),
    {
        match self {
            Body::Txt(a) => a.as_str().as_bytes(),
            Body::Raw(a) => a.as_slice(),
            Body::Error(_) => "error".as_bytes(),
        }
    }
}

/// The UTF-8 bytes of `s`, in a vector of their own.
fn bytes_of(s: &str) -> (r: Vec<u8>)
    ensures
        r@ == utf8(s@),
{
    let b = s.as_bytes();
    let mut out: Vec<u8> = Vec::new();
    let mut i: usize = 0;
    while i < b.len()
        invariant
            b@ == utf8(s@),
            0 <= i <= b@.len(),
            out@ == b@.take(i as int),
        decreases b@.len() - i,
    {
        out.push(b[i]);
        i += 1;
        proof {
            assert(out@ =~= b@.take(i as int));
        }
    }
    proof {
        assert(b@.take(b@.len() as int) =~= b@);
    }
    out
}

/// The UTF-8 encoding of two texts one after the other is the encoding of
/// the first followed by that of the second.
pub proof fn lemma_utf8_concat(a: Seq<char>, b: Seq<char>)
    ensures
        utf8(a + b) == utf8(a) + utf8(b),
    decreases a.len(),
{
    if a.len() == 0 {
        assert(a + b =~= b);
        assert(utf8(a) + utf8(b) =~= utf8(b));
    } else {
        assert((a + b).drop_first() =~= a.drop_first() + b);
        lemma_utf8_concat(a.drop_first(), b);
        assert((a + b)[0] == a[0]);
        assert(utf8(a + b) =~= utf8(a) + utf8(b));
    }
}

/// Appending one body to another that is not an error sends the bytes of the
/// first followed by those of the second, whatever kinds the two are.
pub proof fn lemma_append_concatenates(l: Body, r: Body, out: Body)
    requires
        !(l is Error),
        !(r is Error),
        Body::sum_of(l, r, out),
    ensures
        out.bytes() == l.bytes() + r.bytes(),
{
    match (l, r) {
        (Body::Txt(a), Body::Txt(b)) => {
            lemma_utf8_concat(a@, b@);
        },
        _ => {},
    }
}

/// An error on either side of an append is what the body becomes; the one
/// on the left wins where both are errors.
pub proof fn lemma_append_error(l: Body, r: Body, out: Body)
    requires
        l is Error || r is Error,
        Body::sum_of(l, r, out),
    ensures
        out is Error,
        l is Error ==> out == l,
        !(l is Error) ==> out == r,
{
}


impl Body {
    /// The bytes that go out in an HTTP response: the text or the raw
    /// bytes, and for an error its text (`code: message`).
    pub open spec fn response_bytes(&self) -> Seq<u8> {
        match self {
            Body::Raw(v) => v@,
            Body::Txt(s) => utf8(s@),
            Body::Error(e) => utf8(e.text()),
        }
    }

    /// The bytes that go out in an HTTP response (see `response_bytes`).
    pub fn into_response_bytes(self) -> (r: Vec<u8>)
        ensures
            r@ == self.response_bytes(),
    {
        match self {
            Body::Raw(v) => v,
            Body::Txt(s) => bytes_of(s.as_str()),
            Body::Error(e) => {
                let t = e.to_string();
                bytes_of(t.as_str())
            },
        }
    }
}

} // verus!
