//! The syntax tree that the parser builds out of tokens.

use vstd::prelude::*;
use crate::text::{decimal, decimal_string, push_char, push_str, string_of};

verus! {

/// One word of an expression.
pub enum Word {
    /// A name, applied as a function to the rest of the expression.
    Function(String),
    /// A string template.
    Template(Template),
    /// An integer literal.
    Literal(i64),
    /// An expression in parentheses.
    Parantheses(Expression),
}

/// A list of words; the flag records whether the expression ends in a
/// quoting word (see `is_meta`).
pub struct Expression(pub Vec<Word>, pub bool);

/// One piece of a template.
pub enum TemplateElement {
    Text(String),
    Template(Template),
    Expression(Word),
}

/// A template: its opening and closing brackets and what lies between them.
pub struct Template {
    pub open: String,
    pub close: String,
    pub elements: Vec<TemplateElement>,
}

/// What a declaration is keyed by.
pub enum Pattern {
    Key(String),
    Expr(Expression),
}

/// A route or word declaration: `/route => expression` or `@word => expression`.
pub struct Declaration {
    pub kind: String,
    pub key: Pattern,
    pub value: Expression,
}

/// The declarations of a whole program.
pub struct AstRoot(pub Vec<Declaration>);

// ------------------------------------------------------------------
// The mathematical view of the tree.
// ------------------------------------------------------------------

pub enum WordV {
    Function(Seq<char>),
    Template(TemplateV),
    Literal(int),
    Parantheses(ExpressionV),
}

pub struct ExpressionV {
    pub words: Seq<WordV>,
    pub meta: bool,
}

pub enum ElementV {
    Text(Seq<char>),
    Template(TemplateV),
    Expression(WordV),
}

pub struct TemplateV {
    pub open: Seq<char>,
    pub close: Seq<char>,
    pub elements: Seq<ElementV>,
}

pub enum PatternV {
    Key(Seq<char>),
    Expr(ExpressionV),
}

pub struct DeclarationV {
    pub kind: Seq<char>,
    pub key: PatternV,
    pub value: ExpressionV,
}

impl Word {
    pub open spec fn view(&self) -> WordV
        decreases self,
    {
        match self {
            Word::Function(s) => WordV::Function(s@),
            Word::Template(t) => WordV::Template(t.view()),
            Word::Literal(i) => WordV::Literal(*i as int),
            Word::Parantheses(e) => WordV::Parantheses(e.view()),
        }
    }
}

impl Expression {
    pub open spec fn view(&self) -> ExpressionV
        decreases self,
    {
        ExpressionV {
            words: Seq::new(self.0@.len(), |i: int| {
                proof {
                    assert(0 <= i < self.0@.len() ==> decreases_to!(self => self.0@[i]));
                }
                if 0 <= i < self.0@.len() { self.0@[i].view() } else { WordV::Literal(0) }
            }),
            meta: self.1,
        }
    }
}

impl TemplateElement {
    pub open spec fn view(&self) -> ElementV
        decreases self,
    {
        match self {
            TemplateElement::Text(s) => ElementV::Text(s@),
            TemplateElement::Template(t) => ElementV::Template(t.view()),
            TemplateElement::Expression(w) => ElementV::Expression(w.view()),
        }
    }
}

impl Template {
    pub open spec fn view(&self) -> TemplateV
        decreases self,
    {
        TemplateV {
            open: self.open@,
            close: self.close@,
            elements: Seq::new(self.elements@.len(), |i: int| {
                proof {
                    assert(0 <= i < self.elements@.len() ==> decreases_to!(self => self.elements@[i]));
                }
                if 0 <= i < self.elements@.len() {
                    self.elements@[i].view()
                } else {
                    ElementV::Text(Seq::empty())
                }
            }),
        }
    }
}

impl Pattern {
    pub open spec fn view(&self) -> PatternV {
        match self {
            Pattern::Key(s) => PatternV::Key(s@),
            Pattern::Expr(e) => PatternV::Expr(e.view()),
        }
    }
}

impl Declaration {
    pub open spec fn view(&self) -> DeclarationV {
        DeclarationV { kind: self.kind@, key: self.key.view(), value: self.value.view() }
    }

    /// A declaration keyed by a name.
    pub fn with_key(kind: &str, key: &str, value: Expression) -> (r: Self)
        ensures
            r.kind@ == kind@,
            r.key.view() == PatternV::Key(key@),
            r.value.view() == value.view(),
            r.view() == (DeclarationV { kind: kind@, key: PatternV::Key(key@), value: value.view() }),
    {
        Self { kind: string_of(kind), key: Pattern::Key(string_of(key)), value }
    }

    /// A declaration keyed by an expression.
    pub fn with_expr(kind: &str, key: Expression, value: Expression) -> (r: Self)
        ensures
            r.kind@ == kind@,
            r.key.view() == PatternV::Expr(key.view()),
            r.value.view() == value.view(),
    {
        Self { kind: string_of(kind), key: Pattern::Expr(key), value }
    }

    /// The name the declaration is keyed by; it must be keyed by a name.
    pub fn key(&self) -> (r: String)
        requires
            self.key is Key,
        ensures
            PatternV::Key(r@) == self.key.view(),
    {
        match &self.key {
            Pattern::Key(s) => s.clone(),
            Pattern::Expr(_) => String::new(),
        }
    }
}

/// An integer as it is printed: its decimal digits, after a `-` where it
/// is negative.
pub open spec fn int_text(i: int) -> Seq<char> {
    if i < 0 {
        seq!['-'] + decimal((-i) as nat)
    } else {
        decimal(i as nat)
    }
}

/// A word as it is printed: a name as it is, a template as it was written,
/// an integer in decimal, and a parenthesised expression as its words, each
/// followed by a space, in parentheses.
pub open spec fn word_text(w: &Word) -> Seq<char>
    decreases w, 2int, 0int,
{
    match w {
        Word::Function(s) => s@,
        Word::Template(t) => template_text(t),
        Word::Literal(i) => int_text(*i as int),
        Word::Parantheses(e) => seq!['('] + words_text(e, e.0@.len() as int) + seq![')'],
    }
}

/// The first `k` words of an expression, each followed by a space.
pub open spec fn words_text(e: &Expression, k: int) -> Seq<char>
    decreases e, 0int, k,
{
    if k <= 0 || k > e.0@.len() {
        Seq::empty()
    } else {
        proof {
            assert(decreases_to!(e => e.0@[k - 1]));
        }
        words_text(e, k - 1) + word_text(&e.0@[k - 1]) + seq![' ']
    }
}

/// A template as it was written: its brackets around its pieces.
pub open spec fn template_text(t: &Template) -> Seq<char>
    decreases t, 1int, 0int,
{
    t.open@ + elements_text(t, t.elements@.len() as int) + t.close@
}

/// The first `k` pieces of a template as they were written: text as it is,
/// a nested template with its brackets, an expression as `$(...)`.
pub open spec fn elements_text(t: &Template, k: int) -> Seq<char>
    decreases t, 0int, k,
{
    if k <= 0 || k > t.elements@.len() {
        Seq::empty()
    } else {
        proof {
            assert(decreases_to!(t => t.elements@[k - 1]));
        }
        elements_text(t, k - 1) + match &t.elements@[k - 1] {
            TemplateElement::Text(s) => s@,
            TemplateElement::Template(c) => template_text(c),
            TemplateElement::Expression(w) => seq!['$', '('] + word_text(w) + seq![')'],
        }
    }
}

/// Appends the decimal text of `i` to `out`.
pub fn push_int(out: &mut String, i: i64)
    ensures
        final(out)@ == old(out)@ + int_text(i as int),
{
    if i < 0 {
        push_char(out, '-');
        let m: u64 = (0i128 - (i as i128)) as u64;
        let d = decimal_string(m);
        push_str(out, d.as_str());
    } else {
        let d = decimal_string(i as u64);
        push_str(out, d.as_str());
    }
}

impl Word {
    /// Appends the word as it is printed (see `word_text`) to `out`.
    pub fn write_to(&self, out: &mut String)
        ensures
            final(out)@ == old(out)@ + word_text(self),
        decreases self, 2int,
    {
        match self {
            Word::Function(s) => push_str(out, s.as_str()),
            Word::Template(t) => t.write_to(out),
            Word::Literal(i) => push_int(out, *i),
            Word::Parantheses(e) => {
                let ghost start = out@;
                push_char(out, '(');
                let mut k: usize = 0;
                while k < e.0.len()
                    invariant
                        *self == Word::Parantheses(*e),
                        0 <= k <= e.0@.len(),
                        out@ == start + seq!['('] + words_text(e, k as int),
                    decreases e.0@.len() - k,
                {
                    proof {
                        assert(decreases_to!(*self => self->Parantheses_0));
                        assert(decreases_to!(self->Parantheses_0 => (self->Parantheses_0).0@[k as int]));
                    }
                    e.0[k].write_to(out);
                    push_char(out, ' ');
                    k += 1;
                }
                push_char(out, ')');
            },
        }
    }

    /// The word as it is printed (see `word_text`).
    pub fn to_string(&self) -> (r: String)
        ensures
            r@ == word_text(self),
    {
        let mut out = String::new();
        self.write_to(&mut out);
        out
    }
}

impl Template {
    /// Appends the template as it was written (see `template_text`) to `out`.
    pub fn write_to(&self, out: &mut String)
        ensures
            final(out)@ == old(out)@ + template_text(self),
        decreases self, 1int,
    {
        let ghost start = out@;
        push_str(out, self.open.as_str());
        let mut k: usize = 0;
        while k < self.elements.len()
            invariant
                0 <= k <= self.elements@.len(),
                out@ == start + self.open@ + elements_text(self, k as int),
            decreases self.elements@.len() - k,
        {
            proof {
                assert(decreases_to!(self => self.elements@[k as int]));
            }
            match &self.elements[k] {
                TemplateElement::Text(s) => push_str(out, s.as_str()),
                TemplateElement::Template(c) => c.write_to(out),
                TemplateElement::Expression(w) => {
                    push_char(out, '$');
                    push_char(out, '(');
                    w.write_to(out);
                    push_char(out, ')');
                },
            }
            k += 1;
        }
        push_str(out, self.close.as_str());
    }

    /// The template as it was written (see `template_text`).
    pub fn to_string(&self) -> (r: String)
        ensures
            r@ == template_text(self),
    {
        let mut out = String::new();
        self.write_to(&mut out);
        out
    }
}

} // verus!
