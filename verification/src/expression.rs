//! Expressions made of text, variables, and nested expressions that an
//! interpreter turns into a value.

use vstd::prelude::*;
use crate::text::push_str;

verus! {

/// What an expression evaluates to.
pub enum Value {
    Text(String),
    Table,
    Stream,
}

/// How the pieces of an expression are put together.
pub enum ExpressionInterpreter {
    PlainText,
    Html,
    ReadFile,
}

/// A piece of an expression.
pub enum AstToken {
    Text(String),
    Variable(String),
    Expression { interpreter: ExpressionInterpreter, content: Vec<AstToken> },
}

/// The evaluator. It has no variables to give.
pub struct Engine;

/// Whether `into_value` can evaluate `t`: text, and plain-text expressions
/// of such pieces. (Variables have nothing to read from, and the other
/// interpreters are not there.)
pub open spec fn evaluable(t: &AstToken) -> bool
    decreases t, 1int, 0int,
{
    match t {
        AstToken::Text(_) => true,
        AstToken::Variable(_) => false,
        AstToken::Expression { interpreter, content } => interpreter is PlainText && all_evaluable(
            t,
            content@.len() as int,
        ),
    }
}

/// Whether the first `k` pieces of the expression `t` can be evaluated.
pub open spec fn all_evaluable(t: &AstToken, k: int) -> bool
    decreases t, 0int, k,
{
    match t {
        AstToken::Expression { content, .. } => if k <= 0 || k > content@.len() {
            true
        } else {
            proof {
                assert(decreases_to!(t => content@[k - 1]));
            }
            all_evaluable(t, k - 1) && evaluable(&content@[k - 1])
        },
        _ => true,
    }
}

/// The text that `t` evaluates to: text as it is, an expression as the
/// texts of its pieces one after another.
pub open spec fn plain_text(t: &AstToken) -> Seq<char>
    decreases t, 1int, 0int,
{
    match t {
        AstToken::Text(s) => s@,
        AstToken::Expression { content, .. } => plain_texts(t, content@.len() as int),
        _ => Seq::empty(),
    }
}

/// The texts of the first `k` pieces of the expression `t`.
pub open spec fn plain_texts(t: &AstToken, k: int) -> Seq<char>
    decreases t, 0int, k,
{
    match t {
        AstToken::Expression { content, .. } => if k <= 0 || k > content@.len() {
            Seq::empty()
        } else {
            proof {
                assert(decreases_to!(t => content@[k - 1]));
            }
            plain_texts(t, k - 1) + plain_text(&content@[k - 1])
        },
        _ => Seq::empty(),
    }
}

impl AstToken {
    /// Evaluates the piece: text as it is, a plain-text expression as the
    /// texts of its pieces.
    pub fn into_value(&self, engine: &mut Engine) -> (r: Value)
        requires
            evaluable(self),
        ensures
            r matches Value::Text(s) && s@ == plain_text(self),
        decreases self,
    {
        match self {
            AstToken::Text(v) => Value::Text(v.clone()),
            AstToken::Variable(_) => Value::Table,
            AstToken::Expression { interpreter, content } => {
                let mut output = String::new();
                let mut i: usize = 0;
                while i < content.len()
                    invariant
                        *self == (AstToken::Expression { interpreter: *interpreter, content: *content }),
                        evaluable(self),
                        0 <= i <= content@.len(),
                        output@ == plain_texts(self, i as int),
                    decreases content@.len() - i,
                {
                    proof {
                        lemma_all_evaluable(self, content@.len() as int, i as int);
                        assert(decreases_to!(*self => self->content));
                        assert(decreases_to!(self->content => (self->content)@[i as int]));
                    }
                    match content[i].into_value(engine) {
                        Value::Text(t) => push_str(&mut output, t.as_str()),
                        _ => {},
                    }
                    i += 1;
                }
                Value::Text(output)
            },
        }
    }
}

/// Each piece among the first `k` of an evaluable expression is evaluable.
proof fn lemma_all_evaluable(t: &AstToken, k: int, j: int)
    requires
        t is Expression,
        all_evaluable(t, k),
        0 <= j < k <= t->content@.len(),
    ensures
        evaluable(&t->content@[j]),
    decreases k,
{
    if j < k - 1 {
        lemma_all_evaluable(t, k - 1, j);
    }
}

} // verus!
