//! A generic character cursor that cuts an input into tokens of any kind.

use vstd::prelude::*;
use crate::text::string_from_chars;

verus! {

/// A token cut out of the input: its kind, its text and its position.
#[derive(Debug, Clone)]
pub struct Token<K> {
    pub kind: K,
    pub value: String,
    pub start: usize,
    pub end: usize,
}

impl<K: Clone> Token<K> {
    /// The text of the token.
    pub fn to_string(&self) -> (r: String)
        ensures
            r@ == self.value@,
    {
        self.value.clone()
    }
}

/// A cursor over a slice of characters. Characters between `mark` and
/// `index` form the token under construction.
pub struct Tokenizer<'input> {
    input: &'input [char],
    mark: usize,
    index: usize,
}

impl<'input> Tokenizer<'input> {
    /// The characters the cursor walks over.
    pub closed spec fn chars(&self) -> Seq<char> {
        self.input@
    }

    /// Where the token under construction begins.
    pub closed spec fn mark(&self) -> nat {
        self.mark as nat
    }

    /// Where the cursor stands.
    pub closed spec fn pos(&self) -> nat {
        self.index as nat
    }

    /// The mark never passes the cursor. (The cursor may be moved past the
    /// end; nothing can then be cut out until the end is all that is left.)
    pub open spec fn wf(&self) -> bool {
        self.mark() <= self.pos() <= usize::MAX && self.chars().len() <= usize::MAX
    }

    pub fn new(input: &'input [char]) -> (r: Self)
        ensures
            r.wf(),
            r.chars() == input@,
            r.mark() == 0,
            r.pos() == 0,
    {
        let _n = input.len();
        Self { input, mark: 0, index: 0 }
    }

    /// Cuts the characters between the mark and the cursor into a token of
    /// kind `k`, and moves the mark up to the cursor.
    pub fn emit<K>(&mut self, k: K) -> (r: Token<K>)
        requires
            old(self).wf(),
            old(self).pos() <= old(self).chars().len(),
        ensures
            final(self).wf(),
            final(self).chars() == old(self).chars(),
            final(self).pos() == old(self).pos(),
            final(self).mark() == old(self).pos(),
            r.kind == k,
            r.start == old(self).mark(),
            r.end == old(self).pos(),
            r.value@ == old(self).chars().subrange(old(self).mark() as int, old(self).pos() as int),
    {
        let slice = vstd::slice::slice_subrange(self.input, self.mark, self.index);
        let value = string_from_chars(slice);
        let output = Token { kind: k, value, start: self.mark, end: self.index };
        self.mark = self.index;
        output
    }

    /// The character `offset` places past the cursor, if there is one.
    pub fn get(&mut self, offset: usize) -> (r: Option<char>)
        requires
            old(self).wf(),
            old(self).pos() + offset <= usize::MAX,
        ensures
            *final(self) == *old(self),
            r == (if old(self).pos() + offset < old(self).chars().len() {
                Some(old(self).chars()[old(self).pos() + offset])
            } else {
                None
            }),
    {
        let index = self.index + offset;
        if index >= self.input.len() {
            return None;
        }
        Some(self.input[index])
    }

    /// Moves the cursor past every character that passes `test`, stopping
    /// at the first that fails it or at the end of the input.
    pub fn incr_while<F>(&mut self, test: F)
        where F: Fn(char) -> bool,
        requires
            old(self).wf(),
            forall|c: char| call_requires(test, (c,)),
        ensures
            final(self).wf(),
            final(self).chars() == old(self).chars(),
            final(self).mark() == old(self).mark(),
            old(self).pos() <= final(self).pos(),
            forall|i: int| old(self).pos() <= i < final(self).pos()
                ==> call_ensures(test, (#[trigger] old(self).chars()[i],), true),
            final(self).pos() < final(self).chars().len()
                ==> call_ensures(test, (final(self).chars()[final(self).pos() as int],), false),
            old(self).pos() <= old(self).chars().len() ==> final(self).pos() <= final(self).chars().len(),
            old(self).pos() > old(self).chars().len() ==> final(self).pos() == old(self).pos(),
    {
        let ghost start = self.index;
        let ghost mark = self.mark;
        let ghost input = self.input@;
        while self.index < self.input.len() && test(self.input[self.index])
            invariant
                self.mark == mark,
                self.input@ == input,
                self.mark <= start <= self.index,
                start <= self.input.len() ==> self.index <= self.input.len(),
                start > self.input.len() ==> self.index == start,
                forall|c: char| call_requires(test, (c,)),
                forall|i: int| start <= i < self.index
                    ==> call_ensures(test, (#[trigger] self.input@[i],), true),
            ensures
                self.mark == mark,
                self.input@ == input,
                self.mark <= start <= self.index,
                start <= self.input.len() ==> self.index <= self.input.len(),
                start > self.input.len() ==> self.index == start,
                forall|i: int| start <= i < self.index
                    ==> call_ensures(test, (#[trigger] self.input@[i],), true),
                self.index < self.input.len()
                    ==> call_ensures(test, (self.input@[self.index as int],), false),
            decreases self.input.len() - self.index,
        {
            self.index += 1;
        }
    }

    /// Moves the cursor `i` characters forward.
    pub fn incr(&mut self, i: usize)
        requires
            old(self).wf(),
            old(self).pos() + i <= usize::MAX,
        ensures
            final(self).wf(),
            final(self).chars() == old(self).chars(),
            final(self).mark() == old(self).mark(),
            final(self).pos() == old(self).pos() + i,
    {
        self.index += i;
    }

    /// Whether the mark has reached the end of the input.
    pub fn is_done(&self) -> (r: bool)
        requires
            self.wf(),
        ensures
            r == (self.mark() >= self.chars().len()),
    {
        self.mark >= self.input.len()
    }

    /// Steps over one character (if any is left) and drops everything
    /// between the mark and the cursor.
    pub fn skip(&mut self)
        requires
            old(self).wf(),
        ensures
            final(self).wf(),
            final(self).chars() == old(self).chars(),
            final(self).pos() == (if old(self).pos() < old(self).chars().len() {
                old(self).pos() + 1
            } else {
                old(self).pos()
            }),
            final(self).mark() == final(self).pos(),
    {
        if self.index < self.input.len() {
            self.index += 1;
        }
        self.mark = self.index;
    }
}

} // verus!
