//! The kinds of values, and a response body that hands out its bytes in one
//! piece.

use vstd::prelude::*;
use std::collections::VecDeque;
use crate::body::utf8;

verus! {

/// The kinds that a value can have.
#[derive(Clone, Copy, Debug, PartialEq, Eq, Structural)]
pub enum ServValueKind {
    Nil,
    Int,
    Text,
    Template,
    List,
}

/// A body that holds its bytes until they are taken, once.
pub struct ServBody(pub Option<VecDeque<u8>>);

impl ServBody {
    /// The bytes still held, if they have not been taken.
    pub open spec fn bytes(&self) -> Option<Seq<u8>> {
        match self.0 {
            Some(d) => Some(d@),
            None => None,
        }
    }

    /// A body holding the bytes of `hello!`.
    pub fn new() -> (r: Self)
        ensures
            r.bytes() == Some(utf8("hello!"@)),
    {
        let b = "hello!".as_bytes();
        let mut d: VecDeque<u8> = VecDeque::new();
        let mut i: usize = 0;
        while i < b.len()
            invariant
                b@ == utf8("hello!"@),
                0 <= i <= b@.len(),
                d@ == b@.take(i as int),
            decreases b@.len() - i,
        {
            d.push_back(b[i]);
            i += 1;
            proof {
                assert(d@ =~= b@.take(i as int));
            }
        }
        proof {
            assert(b@.take(b@.len() as int) =~= b@);
        }
        ServBody(Some(d))
    }

    /// Takes the bytes out: the first call gives them, every later one
    /// gives `None`.
    pub fn take_frame(&mut self) -> (r: Option<VecDeque<u8>>)
        ensures
            final(self).bytes() is None,
            match r {
                Some(d) => old(self).bytes() == Some(d@),
                None => old(self).bytes() is None,
            },
    {
        let mut out: Option<VecDeque<u8>> = None;
        std::mem::swap(&mut out, &mut self.0);
        out
    }
}

} // verus!
