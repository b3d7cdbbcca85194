//! Named values that a response is built from.

use vstd::prelude::*;
use crate::table::{as_map, distinct_keys, get_entry, put};
use crate::text::string_of;

verus! {

/// A table of values, each under a distinct name.
#[derive(Debug)]
pub struct Table(Vec<(String, Value)>);

/// A value: nothing, text, or a table.
#[derive(Debug)]
pub enum Value {
    Empty,
    Text(String),
    Table(Table),
}

impl Value {
    /// The value as text: empty for `Empty`, the text itself for `Text`.
    /// A table has no text form.
    pub open spec fn text(&self) -> Seq<char> {
        match self {
            Value::Text(s) => s@,
            _ => Seq::empty(),
        }
    }

    /// The value as text (see `text`).
    pub fn to_string(&self) -> (r: String)
        requires
            !(self is Table),
        ensures
            r@ == self.text(),
    {
        match self {
            Value::Empty => String::new(),
            Value::Text(s) => s.clone(),
            Value::Table(_) => String::new(),
        }
    }

    /// The text value holding `input`.
    pub fn from_text(input: &str) -> (r: Self)
        ensures
            r matches Value::Text(s) && s@ == input@,
    {
        Value::Text(string_of(input))
    }
}

impl View for Table {
    type V = Map<Seq<char>, Value>;

    /// The table read as a map from names to values.
    open spec fn view(&self) -> Map<Seq<char>, Value> {
        as_map(self.entries())
    }
}

impl Table {
    /// The entries of the table.
    pub closed spec fn entries(&self) -> Seq<(String, Value)> {
        self.0@
    }

    /// No name occurs twice in the table.
    pub open spec fn wf(&self) -> bool {
        distinct_keys(self.entries())
    }

    /// An empty table.
    pub fn new() -> (r: Self)
        ensures
            r.wf(),
            r.view() == Map::<Seq<char>, Value>::empty(),
    {
        let t = Table(Vec::new());
        proof {
            assert(t@ =~= Map::<Seq<char>, Value>::empty());
        }
        t
    }

    /// The text of the value under `key`, or `None` where there is none.
    /// The value must not be a table, which has no text form.
    pub fn get(&self, key: &str) -> (r: Option<String>)
        requires
            self@.contains_key(key@) ==> !(self@[key@] is Table),
        ensures
            match r {
                Some(s) => self@.contains_key(key@) && s@ == self@[key@].text(),
                None => !self@.contains_key(key@),
            },
    {
        match get_entry(&self.0, key) {
            Some(v) => Some(v.to_string()),
            None => None,
        }
    }

    /// Writes `value` under `key`, replacing what was there.
    pub fn set(&mut self, key: &str, value: Value)
        requires
            old(self).wf(),
        ensures
            final(self).wf(),
            final(self)@ == old(self)@.insert(key@, value),
    {
        put(&mut self.0, string_of(key), value);
    }
}

/// A read from a table gives back what the last write under the same name
/// wrote, and a write leaves every other name as it was.
pub proof fn lemma_table_read_after_write(before: Table, after: Table, key: Seq<char>, value: Value,
    other: Seq<char>)
    requires
        before.wf(),
        after@ == before@.insert(key, value),
    ensures
        after@.contains_key(key) && after@[key] == value,
        other != key ==> (after@.contains_key(other) == before@.contains_key(other)),
        other != key && before@.contains_key(other) ==> after@[other] == before@[other],
{
}

/// A response: its headers and its body.
pub struct Response {
    pub headers: Vec<(String, String)>,
    pub body: Value,
}

} // verus!
