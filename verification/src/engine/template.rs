//! Templates that fill their variables from a value.

use vstd::prelude::*;
use super::Value;
use crate::text::push_str;

verus! {

/// A piece of a template: a variable to look up, or text as it is.
#[derive(Debug)]
pub enum TemplateElement {
    Var(String),
    Text(String),
}

/// A template: its pieces in order.
#[derive(Debug)]
pub struct Template(pub Vec<TemplateElement>);

/// Whether every variable among `elements` can be read from `context`.
pub open spec fn fillable(elements: Seq<TemplateElement>, context: Value) -> bool {
    forall|i: int| 0 <= i < elements.len() ==> match #[trigger] elements[i] {
        TemplateElement::Var(v) => context.readable(v@),
        TemplateElement::Text(_) => true,
    }
}

/// The text that `elements` make: each text as it is, each variable as
/// `context` reads it.
pub open spec fn filled(elements: Seq<TemplateElement>, context: Value) -> Seq<char>
    decreases elements.len(),
{
    if elements.len() == 0 {
        Seq::empty()
    } else {
        filled(elements.drop_last(), context) + match elements.last() {
            TemplateElement::Var(v) => context.read(v@),
            TemplateElement::Text(t) => t@,
        }
    }
}

impl Template {
    /// Fills the template from `context`, giving the text it makes.
    pub fn eval(&self, context: Value) -> (r: Value)
        requires
            fillable(self.0@, context),
        ensures
            r matches Value::Text(t) && t@ == filled(self.0@, context),
    {
        let mut output = String::new();
        let mut i: usize = 0;
        while i < self.0.len()
            invariant
                0 <= i <= self.0@.len(),
                fillable(self.0@, context),
                output@ == filled(self.0@.take(i as int), context),
            decreases self.0@.len() - i,
        {
            proof {
                assert(self.0@.take(i + 1).drop_last() =~= self.0@.take(i as int));
            }
            match &self.0[i] {
                TemplateElement::Text(s) => push_str(&mut output, s.as_str()),
                TemplateElement::Var(s) => {
                    let v = context.get(s.as_str());
                    push_str(&mut output, v);
                },
            }
            i += 1;
        }
        proof {
            assert(self.0@.take(self.0@.len() as int) =~= self.0@);
        }
        Value::Text(output)
    }
}

} // verus!
