//! A cursor that cuts a slice of characters into tokens that borrow from it.

use vstd::prelude::*;
use crate::text::string_from_chars;

verus! {

/// A token: the characters it covers and its position.
pub struct Token<'input> {
    pub value: &'input [char],
    pub start: usize,
    pub end: usize,
}

impl<'input> Token<'input> {
    /// The characters of the token.
    pub open spec fn text(&self) -> Seq<char> {
        self.value@
    }

    /// The text of the token.
    pub fn to_string(&self) -> (r: String)
        ensures
            r@ == self.text(),
    {
        string_from_chars(self.value)
    }
}

/// A cursor over a slice of characters. Characters between `mark` and
/// `index` form the token under construction.
pub struct Tokenizer<'input> {
    input: &'input [char],
    mark: usize,
    index: usize,
}

impl<'input> Tokenizer<'input> {
    /// The characters the cursor walks over.
    pub closed spec fn chars(&self) -> Seq<char> {
        self.input@
    }

    /// Where the token under construction begins.
    pub closed spec fn mark(&self) -> nat {
        self.mark as nat
    }

    /// Where the cursor stands.
    pub closed spec fn pos(&self) -> nat {
        self.index as nat
    }

    /// The mark never passes the cursor and the cursor never passes the end.
    pub open spec fn wf(&self) -> bool {
        self.mark() <= self.pos() <= self.chars().len()
    }

    pub fn new(input: &'input [char]) -> (r: Self)
        ensures
            r.wf(),
            r.chars() == input@,
            r.mark() == 0,
            r.pos() == 0,
    {
        Self { input, mark: 0, index: 0 }
    }

    /// Cuts the characters between the mark and the cursor into a token,
    /// and moves the mark up to the cursor.
    pub fn emit(&mut self) -> (r: Token<'input>)
        requires
            old(self).wf(),
        ensures
            final(self).wf(),
            final(self).chars() == old(self).chars(),
            final(self).pos() == old(self).pos(),
            final(self).mark() == old(self).pos(),
            r.start == old(self).mark(),
            r.end == old(self).pos(),
            r.text() == old(self).chars().subrange(old(self).mark() as int, old(self).pos() as int),
    {
        let value = vstd::slice::slice_subrange(self.input, self.mark, self.index);
        let output = Token { value, start: self.mark, end: self.index };
        self.mark = self.index;
        output
    }

    /// Moves the cursor past every character that passes `test`, stopping
    /// at the first that fails it or at the end of the input.
    pub fn incr_while<F>(&mut self, test: F)
        where F: Fn(char) -> bool,
        requires
            old(self).wf(),
            forall|c: char| call_requires(test, (c,)),
        ensures
            final(self).wf(),
            final(self).chars() == old(self).chars(),
            final(self).mark() == old(self).mark(),
            old(self).pos() <= final(self).pos(),
            forall|i: int| old(self).pos() <= i < final(self).pos()
                ==> call_ensures(test, (#[trigger] old(self).chars()[i],), true),
            final(self).pos() < final(self).chars().len()
                ==> call_ensures(test, (final(self).chars()[final(self).pos() as int],), false),
    {
        let ghost start = self.index;
        let ghost mark = self.mark;
        let ghost input = self.input@;
        while self.index < self.input.len() && test(self.input[self.index])
            invariant
                self.mark == mark,
                self.input@ == input,
                self.mark <= start <= self.index <= self.input.len(),
                forall|c: char| call_requires(test, (c,)),
                forall|i: int| start <= i < self.index
                    ==> call_ensures(test, (#[trigger] self.input@[i],), true),
            ensures
                self.mark == mark,
                self.input@ == input,
                self.mark <= start <= self.index <= self.input.len(),
                forall|i: int| start <= i < self.index
                    ==> call_ensures(test, (#[trigger] self.input@[i],), true),
                self.index < self.input.len()
                    ==> call_ensures(test, (self.input@[self.index as int],), false),
            decreases self.input.len() - self.index,
        {
            self.index += 1;
        }
    }

    /// Whether the mark has reached the end of the input.
    pub fn is_done(&self) -> (r: bool)
        requires
            self.wf(),
        ensures
            r == (self.mark() >= self.chars().len()),
    {
        self.mark >= self.input.len()
    }

    /// Steps over one character (if any is left) and drops everything
    /// between the mark and the cursor.
    pub fn skip(&mut self)
        requires
            old(self).wf(),
        ensures
            final(self).wf(),
            final(self).chars() == old(self).chars(),
            final(self).pos() == (if old(self).pos() < old(self).chars().len() {
                old(self).pos() + 1
            } else {
                old(self).pos()
            }),
            final(self).mark() == final(self).pos(),
    {
        if self.index < self.input.len() {
            self.index += 1;
        }
        self.mark = self.index;
    }
}

} // verus!
