//! Values that the evaluator passes between words, and the readers that
//! turn text into them.

pub mod value;
pub mod table_parser;
pub mod template;

use vstd::prelude::*;
use crate::table::{get_entry, has_key, key_at};

verus! {

/// A value: nothing, text, or a table of named values.
#[derive(Debug)]
pub enum Value {
    Nil,
    Text(String),
    Table(Vec<(String, Value)>),
}

impl Value {
    /// Whether `get` can read `key` from the value: a table must hold the
    /// key, and the value under it must in turn be readable under the empty
    /// key.
    pub open spec fn readable(&self, key: Seq<char>) -> bool
        decreases self,
    {
        match self {
            Value::Table(t) => has_key(t@, key) && {
                let i = choose|i: int| key_at(t@, key, i);
                proof {
                    assert(0 <= i < t@.len() ==> decreases_to!(self => t@[i].1));
                }
                0 <= i < t@.len() && t@[i].1.readable(Seq::empty())
            },
            _ => true,
        }
    }

    /// What `get` reads from the value under `key`: nothing from `Nil`, the
    /// text itself from `Text`, and from a table what the value under the
    /// key reads under the empty key.
    pub open spec fn read(&self, key: Seq<char>) -> Seq<char>
        decreases self,
    {
        match self {
            Value::Nil => Seq::empty(),
            Value::Text(s) => s@,
            Value::Table(t) => {
                let i = choose|i: int| key_at(t@, key, i);
                proof {
                    assert(0 <= i < t@.len() ==> decreases_to!(self => t@[i].1));
                }
                if 0 <= i < t@.len() { t@[i].1.read(Seq::empty()) } else { Seq::empty() }
            },
        }
    }

    /// Reads `input` from the value (see `read`).
    pub fn get(&self, input: &str) -> (r: &str)
        requires
            self.readable(input@),
        ensures
            r@ == self.read(input@),
        decreases self,
    {
        match self {
            Value::Nil => {
                proof {
                    reveal_strlit("");
                }
                ""
            },
            Value::Text(s) => s.as_str(),
            Value::Table(t) => {
                proof {
                    crate::table::lemma_has_key_first(t@, input@);
                }
                let ghost i = choose|i: int| key_at(t@, input@, i);
                proof {
                    crate::table::lemma_key_at(t@, input@, i);
                    reveal_strlit("");
                }
                let inner = get_entry(t, input);
                match inner {
                    Some(v) => {
                        proof {
                            assert(decreases_to!(self => t@[i].1));
                            assert(t@[i].1.readable(Seq::empty()));
                            assert(*v == t@[i].1);
                            assert(""@ == Seq::<char>::empty());
                        }
                        v.get("")
                    },
                    None => "",
                }
            },
        }
    }
}

} // verus!
