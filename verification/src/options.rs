//! Building a response for a route: headers, body, status, and the data
//! that processor arguments refer to.

use vstd::prelude::*;
use crate::parser::digits_value;
use crate::table::{as_map, distinct_keys, has_key, put};
use crate::text::{eq_ignore_case, join_text, join_with, same_ignoring_case, same_text, string_of, views};

verus! {

/// An argument of a route option: a name with an optional value.
#[derive(Debug, Clone)]
pub struct Arg {
    pub name: String,
    pub value: Option<String>,
}

/// The view of an optional string.
pub open spec fn opt_text(o: Option<String>) -> Option<Seq<char>> {
    match o {
        Some(s) => Some(s@),
        None => None,
    }
}

/// The view of an optional string slice.
pub open spec fn opt_str(o: Option<&str>) -> Option<Seq<char>> {
    match o {
        Some(s) => Some(s@),
        None => None,
    }
}

impl Arg {
    /// The argument `name` with `value`.
    pub fn new(name: &str, value: Option<&str>) -> (r: Self)
        ensures
            r.name@ == name@,
            opt_text(r.value) == opt_str(value),
    {
        Arg {
            name: string_of(name),
            value: match value {
                Some(x) => Some(string_of(x)),
                None => None,
            },
        }
    }
}

/// `s` without a leading `+`.
pub open spec fn strip_plus(s: Seq<char>) -> Seq<char> {
    if s.len() > 0 && s[0] == '+' {
        s.drop_first()
    } else {
        s
    }
}

/// Whether every character of `d` is a decimal digit.
pub open spec fn all_digits(d: Seq<char>) -> bool {
    forall|i: int| 0 <= i < d.len() ==> '0' <= #[trigger] d[i] && d[i] <= '9'
}

/// The number that `s` writes as `usize::from_str` reads it: an optional
/// `+`, then one or more decimal digits, with a value that fits in a
/// `usize`.
pub open spec fn usize_text(s: Seq<char>) -> Option<nat> {
    let digits = strip_plus(s);
    if digits.len() > 0 && all_digits(digits) && digits_value(digits) <= usize::MAX {
        Some(digits_value(digits) as nat)
    } else {
        None
    }
}

/// Reads `s` as an index, as `str::parse::<usize>` reads it (see
/// `usize_text`).
fn parse_index(s: &str) -> (r: Option<usize>)
    ensures
        match r {
            Some(n) => usize_text(s@) == Some(n as nat),
            None => usize_text(s@) is None,
        },
{
    let chars = crate::text::chars_of(s);
    let start: usize = if chars.len() > 0 && chars[0] == '+' { 1 } else { 0 };
    let ghost digits = strip_plus(s@);
    assert(digits =~= chars@.subrange(start as int, chars@.len() as int));
    if start == chars.len() {
        return None;
    }
    let mut k: usize = start;
    while k < chars.len()
        invariant
            chars@ == s@,
            start <= k <= chars@.len(),
            digits == chars@.subrange(start as int, chars@.len() as int),
            digits == strip_plus(s@),
            forall|i: int| 0 <= i < k - start ==> '0' <= #[trigger] digits[i] && digits[i] <= '9',
        decreases chars@.len() - k,
    {
        if !('0' <= chars[k] && chars[k] <= '9') {
            proof {
                let j = k - start;
                assert(digits[j] == chars@[k as int]);
                assert(!('0' <= digits[j] && digits[j] <= '9'));
                assert(0 <= j < digits.len());
                assert(!all_digits(digits));
                assert(usize_text(s@) is None);
            }
            return None;
        }
        assert(digits[k - start] == chars@[k as int]);
        k += 1;
    }
    let mut value: usize = 0;
    let mut i: usize = start;
    while i < chars.len()
        invariant
            chars@ == s@,
            start <= i <= chars@.len(),
            start < chars@.len(),
            digits == chars@.subrange(start as int, chars@.len() as int),
            digits == strip_plus(s@),
            forall|j: int| 0 <= j < digits.len() ==> '0' <= #[trigger] digits[j] && digits[j] <= '9',
            value as int == digits_value(digits.take(i - start)),
        decreases chars@.len() - i,
    {
        proof {
            assert(digits.take(i - start + 1).drop_last() =~= digits.take(i - start));
            assert(digits.take(i - start + 1).last() == chars@[i as int]);
        }
        let d = (chars[i] as u32 - '0' as u32) as usize;
        match value.checked_mul(10) {
            Some(m) => match m.checked_add(d) {
                Some(v) => {
                    value = v;
                },
                None => {
                    proof {
                        let t = digits.take(i - start + 1);
                        assert(digits_value(t) == digits_value(t.drop_last()) * 10 + (t.last() as int - '0' as int));
                        crate::parser::lemma_digits_prefix(digits, i - start + 1);
                        assert(usize_text(s@) is None);
                    }
                    return None;
                },
            },
            None => {
                proof {
                    assert(value as int * 10 > usize::MAX);
                    let t = digits.take(i - start + 1);
                    assert(digits_value(t) == digits_value(t.drop_last()) * 10 + (t.last() as int - '0' as int));
                    crate::parser::lemma_digits_prefix(digits, i - start + 1);
                    assert(usize_text(s@) is None);
                }
                return None;
            },
        }
        i += 1;
    }
    assert(digits.take(digits.len() as int) =~= digits);
    Some(value)
}

/// What a response is built from, and what it has so far.
pub struct ResponseGenerator {
    /// The query string of the request's URL, if it has one.
    pub query: Option<String>,
    /// The pairs of the query string, decoded, in order.
    pub query_pairs: Vec<(String, String)>,
    /// What the wildcards of the route matched, in order.
    pub wildcards: Vec<String>,
    /// The headers set so far, each key once.
    pub headers: Vec<(String, String)>,
    pub body: Vec<u8>,
    pub status: u16,
}

/// The value of the first pair whose key is `key`.
pub open spec fn first_value(pairs: Seq<(String, String)>, key: Seq<char>) -> Option<Seq<char>>
    decreases pairs.len(),
{
    if pairs.len() == 0 {
        None
    } else if pairs[0].0@ == key {
        Some(pairs[0].1@)
    } else {
        first_value(pairs.drop_first(), key)
    }
}

fn find_pair(pairs: &Vec<(String, String)>, key: &str) -> (r: Option<String>)
    ensures
        opt_text(r) == first_value(pairs@, key@),
{
    let mut i: usize = 0;
    proof {
        assert(pairs@.subrange(0, pairs@.len() as int) =~= pairs@);
    }
    while i < pairs.len()
        invariant
            0 <= i <= pairs@.len(),
            first_value(pairs@, key@) == first_value(pairs@.subrange(i as int, pairs@.len() as int), key@),
        decreases pairs@.len() - i,
    {
        proof {
            let rest = pairs@.subrange(i as int, pairs@.len() as int);
            assert(rest[0] == pairs@[i as int]);
            assert(rest.drop_first() =~= pairs@.subrange(i + 1, pairs@.len() as int));
        }
        if same_text(pairs[i].0.as_str(), key) {
            return Some(pairs[i].1.clone());
        }
        i += 1;
    }
    None
}

impl ResponseGenerator {
    /// The headers set so far.
    pub open spec fn headers(&self) -> Map<Seq<char>, Seq<char>> {
        as_map(self.headers@).map_values(|s: String| s@)
    }

    /// No header occurs twice.
    pub open spec fn wf(&self) -> bool {
        distinct_keys(self.headers@)
    }

    /// A generator for a request with this query string, query pairs and
    /// wildcard matches: no headers, an empty body, status 200.
    pub fn new(query: Option<String>, query_pairs: Vec<(String, String)>, wildcards: Vec<String>) -> (r: Self)
        ensures
            r.wf(),
            r.query == query,
            r.query_pairs == query_pairs,
            r.wildcards == wildcards,
            r.headers() == Map::<Seq<char>, Seq<char>>::empty(),
            r.body@.len() == 0,
            r.status == 200,
    {
        let r = ResponseGenerator { query, query_pairs, wildcards, headers: Vec::new(), body: Vec::new(), status: 200 };
        proof {
            assert(r.headers() =~= Map::<Seq<char>, Seq<char>>::empty());
        }
        r
    }

    /// The generator with the header `key` set to `value`.
    pub fn with_header(self, key: &str, value: &str) -> (r: Self)
        requires
            self.wf(),
        ensures
            r.wf(),
            r.headers() == self.headers().insert(key@, value@),
            r.query == self.query,
            r.query_pairs == self.query_pairs,
            r.wildcards == self.wildcards,
            r.body == self.body,
            r.status == self.status,
    {
        let mut out = self;
        let ghost before = out.headers@;
        let k = string_of(key);
        let v = string_of(value);
        put(&mut out.headers, k, v);
        proof {
            assert(out.headers() =~= as_map(before).map_values(|s: String| s@).insert(key@, value@));
        }
        out
    }

    /// The generator with `body` as its body.
    pub fn with_body(self, body: Vec<u8>) -> (r: Self)
        ensures
            r.body == body,
            r.headers() == self.headers(),
            r.wf() == self.wf(),
            r.query == self.query,
            r.query_pairs == self.query_pairs,
            r.wildcards == self.wildcards,
            r.status == self.status,
    {
        let mut out = self;
        out.body = body;
        out
    }

    /// Whether `extract_data` can read `arg`: an index into the wildcards
    /// must be in range.
    pub open spec fn extractable(&self, arg: &Arg) -> bool {
        arg.name@ == "wild"@ && arg.value is Some ==> match usize_text(arg.value->0@) {
            Some(n) => n < self.wildcards@.len(),
            None => true,
        }
    }

    /// The data that `arg` refers to.
    pub open spec fn data_for(&self, arg: &Arg) -> Option<Seq<char>> {
        let name = arg.name@;
        match arg.value {
            Some(v) => if name == "query"@ {
                first_value(self.query_pairs@, v@)
            } else if name == "wild"@ {
                match usize_text(v@) {
                    Some(n) => Some(self.wildcards@[n as int]@),
                    None => None,
                }
            } else if name == "text"@ {
                Some(v@)
            } else {
                None
            },
            None => if name == "query"@ {
                opt_text(self.query)
            } else if name == "wild"@ {
                Some(join_with(views(self.wildcards@), seq![' ']))
            } else {
                Some(name)
            },
        }
    }

    /// The data that `arg` refers to: with `query`, the value of the query
    /// pair with that key (or the whole query string where no key is given);
    /// with `wild`, the wildcard match at that index (or all of them, joined
    /// by spaces); with `text`, the value itself; with any other name and no
    /// value, the name itself.
    pub fn extract_data(&self, arg: &Arg) -> (r: Option<String>)
        requires
            self.extractable(arg),
        ensures
            opt_text(r) == self.data_for(arg),
    {
        let name = arg.name.as_str();
        match &arg.value {
            Some(v) => {
                if same_text(name, "query") {
                    find_pair(&self.query_pairs, v.as_str())
                } else if same_text(name, "wild") {
                    match parse_index(v.as_str()) {
                        Some(n) => Some(self.wildcards[n].clone()),
                        None => None,
                    }
                } else if same_text(name, "text") {
                    Some(v.clone())
                } else {
                    None
                }
            },
            None => {
                if same_text(name, "query") {
                    match &self.query {
                        Some(q) => Some(q.clone()),
                        None => None,
                    }
                } else if same_text(name, "wild") {
                    let joined = join_text(&self.wildcards, " ");
                    proof {
                        reveal_strlit(" ");
                        assert(" "@ =~= seq![' ']);
                    }
                    Some(joined)
                } else {
                    Some(string_of(name))
                }
            },
        }
    }

    /// The headers, in the order they were first set.
    pub fn header_list(&self) -> (r: &Vec<(String, String)>)
        ensures
            as_map(r@).map_values(|s: String| s@) == self.headers(),
    {
        &self.headers
    }
}


impl ResponseGenerator {
    /// Whether a content type was set, under a key written in any case.
    pub open spec fn has_content_type(&self) -> bool {
        exists|k: Seq<char>| #[trigger] self.headers().contains_key(k) && same_ignoring_case(k, "content-type"@)
    }

    /// The headers a response goes out with: those set, and a plain-text
    /// content type where none was set (under any case of its name).
    pub open spec fn response_headers(&self) -> Map<Seq<char>, Seq<char>> {
        if self.has_content_type() {
            self.headers()
        } else {
            self.headers().insert("content-type"@, "text/plain"@)
        }
    }

    /// The headers the response goes out with (see `response_headers`), in
    /// the order they were set.
    pub fn final_headers(&self) -> (r: Vec<(String, String)>)
        requires
            self.wf(),
        ensures
            distinct_keys(r@),
            as_map(r@).map_values(|s: String| s@) == self.response_headers(),
    {
        let mut out: Vec<(String, String)> = Vec::new();
        let mut i: usize = 0;
        while i < self.headers.len()
            invariant
                distinct_keys(self.headers@),
                0 <= i <= self.headers@.len(),
                out@ == self.headers@.take(i as int),
            decreases self.headers@.len() - i,
        {
            let k = self.headers[i].0.clone();
            let v = self.headers[i].1.clone();
            out.push((k, v));
            i += 1;
            proof {
                assert(out@ =~= self.headers@.take(i as int));
            }
        }
        proof {
            assert(self.headers@.take(self.headers@.len() as int) =~= self.headers@);
        }
        let mut found = false;
        let mut j: usize = 0;
        while j < out.len()
            invariant
                out@ == self.headers@,
                0 <= j <= out@.len(),
                found ==> self.has_content_type(),
                !found ==> forall|m: int| 0 <= m < j ==> !same_ignoring_case(#[trigger] out@[m].0@, "content-type"@),
            decreases out@.len() - j,
        {
            if eq_ignore_case(out[j].0.as_str(), "content-type") {
                proof {
                    let k = out@[j as int].0@;
                    assert(has_key(self.headers@, k));
                    assert(self.headers().contains_key(k));
                }
                found = true;
            }
            j += 1;
        }
        proof {
            if !found {
                assert forall|k: Seq<char>| #[trigger] self.headers().contains_key(k) implies !same_ignoring_case(
                    k,
                    "content-type"@,
                ) by {
                    let w = choose|w: int| 0 <= w < self.headers@.len() && (#[trigger] self.headers@[w]).0@ == k;
                    assert(out@[w].0@ == k);
                }
            }
        }
        match found {
            true => {},
            false => {
                let ghost before = out@;
                put(&mut out, string_of("content-type"), string_of("text/plain"));
                proof {
                    assert(as_map(out@).map_values(|s: String| s@) =~= as_map(before).map_values(|s: String| s@).insert(
                        "content-type"@,
                        "text/plain"@,
                    ));
                }
            },
        }
        out
    }
}

} // verus!
