//! References to values: a label, or a dotted address made of labels.

use vstd::prelude::*;
use crate::text::{split_on, split_text, string_of, views};

verus! {

/// One part of an address: a plain name, or a route (text that starts
/// with `/`).
#[derive(Clone, Debug)]
pub enum Label {
    Name(String),
    Route(String),
}

impl Label {
    /// The text of the label.
    pub open spec fn text(&self) -> Seq<char> {
        match self {
            Label::Name(s) => s@,
            Label::Route(s) => s@,
        }
    }

    /// The text of the label, as it is written.
    pub fn as_str(&self) -> (r: &str)
        ensures
            r@ == self.text(),
    {
        match self {
            Label::Name(v) => v.as_str(),
            Label::Route(v) => v.as_str(),
        }
    }

    /// The label for `input`: a route where `input` starts with `/`, a name
    /// otherwise.
    pub fn from_text(input: &str) -> (r: Self)
        ensures
            r.text() == input@,
            r is Route <==> (input@.len() > 0 && input@[0] == '/'),
    {
        let chars = crate::text::chars_of(input);
        if chars.len() > 0 && chars[0] == '/' {
            Label::Route(string_of(input))
        } else {
            Label::Name(string_of(input))
        }
    }
}

/// A path of labels, such as `server.port`.
#[derive(Clone, Debug)]
pub struct Address(pub Vec<Label>);

impl Address {
    /// The labels of the address, in order.
    pub open spec fn labels(&self) -> Seq<Label> {
        self.0@
    }

    /// The labels of the address, in order, as references.
    pub fn iter(&self) -> (r: Vec<&Label>)
        ensures
            r@.len() == self.labels().len(),
            forall|i: int| 0 <= i < r@.len() ==> *r@[i] == self.labels()[i],
    {
        let mut out: Vec<&Label> = Vec::new();
        let mut i: usize = 0;
        while i < self.0.len()
            invariant
                0 <= i <= self.0.len(),
                out@.len() == i,
                forall|k: int| 0 <= k < i ==> *out@[k] == self.0@[k],
            decreases self.0.len() - i,
        {
            out.push(&self.0[i]);
            i += 1;
        }
        out
    }

    /// The number of labels in the address.
    pub fn len(&self) -> (r: usize)
        ensures
            r == self.labels().len(),
    {
        self.0.len()
    }

    /// The address written as `input`: one name for each piece between dots.
    pub fn from_text(input: &str) -> (r: Self)
        ensures
            r.labels().len() == split_on(input@, '.').len(),
            forall|i: int| 0 <= i < r.labels().len() ==>
                (#[trigger] r.labels()[i]) is Name && r.labels()[i].text() == split_on(input@, '.')[i],
    {
        let parts = split_text(input, '.');
        let mut out: Vec<Label> = Vec::new();
        let mut i: usize = 0;
        while i < parts.len()
            invariant
                views(parts@) == split_on(input@, '.'),
                0 <= i <= parts.len(),
                out@.len() == i,
                forall|k: int| 0 <= k < i ==> (#[trigger] out@[k]) is Name && out@[k].text() == parts@[k]@,
            decreases parts.len() - i,
        {
            out.push(Label::Name(parts[i].clone()));
            i += 1;
        }
        Address(out)
    }

    /// The address made of the one label `input`.
    pub fn from_label(input: Label) -> (r: Self)
        ensures
            r.labels() == seq![input],
    {
        let mut out: Vec<Label> = Vec::new();
        out.push(input);
        Address(out)
    }
}


/// The texts of an address's labels.
pub open spec fn label_texts(labels: Seq<Label>) -> Seq<Seq<char>> {
    labels.map_values(|l: Label| l.text())
}

/// An address read from text gives the text back when its labels are
/// joined with dots.
pub proof fn lemma_address_round_trip(input: Seq<char>, a: Address)
    requires
        a.labels().len() == split_on(input, '.').len(),
        forall|i: int| 0 <= i < a.labels().len() ==> (#[trigger] a.labels()[i]).text() == split_on(input, '.')[i],
    ensures
        crate::text::join_with(label_texts(a.labels()), seq!['.']) == input,
{
    assert(label_texts(a.labels()) =~= split_on(input, '.'));
    crate::text::lemma_split_join(input, '.');
}

} // verus!
