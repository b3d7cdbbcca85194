//! Templates as values, and the renderer that writes one back out as it
//! was written.

use vstd::prelude::*;
use crate::text::push_str;

verus! {

/// A piece of a template: text, a nested template, or an expression, here
/// held as the text that it prints as.
pub enum TemplateElement {
    Text(String),
    Template(Template),
    Expression(String),
}

/// A template: its brackets and its pieces.
pub struct Template {
    pub open: String,
    pub close: String,
    pub elements: Vec<TemplateElement>,
}

/// The text of a template as it was written: each text as it is, each
/// nested template with its brackets, each expression as `$(...)`; the
/// template's own brackets around it where `brackets` is set.
pub open spec fn literal(t: &Template, brackets: bool) -> Seq<char>
    decreases t, 1int, 0int,
{
    let inner = literal_elements(t, t.elements@.len() as int);
    if brackets {
        t.open@ + inner + t.close@
    } else {
        inner
    }
}

/// The text of the first `k` pieces of `t` (see `literal`).
pub open spec fn literal_elements(t: &Template, k: int) -> Seq<char>
    decreases t, 0int, k,
{
    if k <= 0 || k > t.elements@.len() {
        Seq::empty()
    } else {
        literal_elements(t, k - 1) + match t.elements@[k - 1] {
            TemplateElement::Text(s) => s@,
            TemplateElement::Template(c) => {
                proof {
                    assert(decreases_to!(t => t.elements@[k - 1]));
                }
                literal(&c, true)
            },
            TemplateElement::Expression(e) => "$("@ + e@ + ")"@,
        }
    }
}

impl Template {
    /// The template's text with its expressions filled in from `values`,
    /// without its own brackets (see `DefaultRenderer`).
    pub fn render(&self, values: &Vec<String>) -> (r: String)
        requires
            expr_count(self, self.elements@.len() as int) <= values@.len(),
        ensures
            r@ == rendered(self, false, true, crate::text::views(values@), 0),
    {
        let mut out = String::new();
        let mut renderer = DefaultRenderer::new();
        renderer.render(self, values, &mut out);
        out
    }

    /// The template as it was written, brackets included.
    pub fn to_string(&self) -> (r: String)
        ensures
            r@ == literal(self, true),
    {
        let mut renderer = LiteralRenderer::new(true);
        renderer.to_text(self)
    }
}

/// Writes templates back out as they were written.
#[derive(Clone, Copy, Debug)]
pub struct LiteralRenderer {
    pub include_brackets: bool,
}

impl LiteralRenderer {
    /// A renderer that writes a template's own brackets where
    /// `include_brackets` is set.
    pub fn new(include_brackets: bool) -> (r: Self)
        ensures
            r.include_brackets == include_brackets,
    {
        LiteralRenderer { include_brackets }
    }

    /// Appends the text of `input` as it was written to `dest`.
    pub fn render(&mut self, input: &Template, dest: &mut String)
        ensures
            *final(self) == *old(self),
            final(dest)@ == old(dest)@ + literal(input, old(self).include_brackets),
        decreases input,
    {
        let ghost start = dest@;
        if self.include_brackets {
            push_str(dest, input.open.as_str());
        }
        let ghost opened = dest@;
        let mut i: usize = 0;
        while i < input.elements.len()
            invariant
                0 <= i <= input.elements@.len(),
                dest@ == opened + literal_elements(input, i as int),
            decreases input.elements@.len() - i,
        {
            match &input.elements[i] {
                TemplateElement::Text(t) => push_str(dest, t.as_str()),
                TemplateElement::Template(t) => {
                    proof {
                        assert(decreases_to!(input => input.elements@[i as int]));
                    }
                    let mut child = LiteralRenderer { include_brackets: true };
                    child.render(t, dest);
                },
                TemplateElement::Expression(t) => {
                    push_str(dest, "$(");
                    push_str(dest, t.as_str());
                    push_str(dest, ")");
                },
            }
            i += 1;
        }
        if self.include_brackets {
            push_str(dest, input.close.as_str());
        }
    }

    /// The text of `input` as it was written.
    pub fn to_text(&mut self, input: &Template) -> (r: String)
        ensures
            *final(self) == *old(self),
            r@ == literal(input, old(self).include_brackets),
    {
        let mut out = String::new();
        self.render(input, &mut out);
        out
    }
}

/// A template written out with its brackets is its opening bracket, its
/// text without them, and its closing bracket.
pub proof fn lemma_brackets_wrap(t: &Template)
    ensures
        literal(t, true) == t.open@ + literal(t, false) + t.close@,
{
}


/// The statement that a template makes for the database, for its first `k`
/// pieces: each text as it is, each nested template inside its brackets,
/// each expression as a `?` placeholder.
pub open spec fn sql_text(t: &Template, k: int) -> Seq<char>
    decreases t, k,
{
    if k <= 0 || k > t.elements@.len() {
        Seq::empty()
    } else {
        sql_text(t, k - 1) + match t.elements@[k - 1] {
            TemplateElement::Text(s) => s@,
            TemplateElement::Template(c) => {
                proof {
                    assert(decreases_to!(t => t.elements@[k - 1]));
                }
                c.open@ + sql_text(&c, c.elements@.len() as int) + c.close@
            },
            TemplateElement::Expression(_) => seq!['?'],
        }
    }
}

/// The expressions of the first `k` pieces of a template, nested ones
/// included, in the order their placeholders appear.
pub open spec fn sql_params(t: &Template, k: int) -> Seq<Seq<char>>
    decreases t, k,
{
    if k <= 0 || k > t.elements@.len() {
        Seq::empty()
    } else {
        sql_params(t, k - 1) + match t.elements@[k - 1] {
            TemplateElement::Text(_) => Seq::empty(),
            TemplateElement::Template(c) => {
                proof {
                    assert(decreases_to!(t => t.elements@[k - 1]));
                }
                sql_params(&c, c.elements@.len() as int)
            },
            TemplateElement::Expression(e) => seq![e@],
        }
    }
}

/// Writes a template as a database statement, collecting its expressions
/// as the statement's parameters.
pub struct SqliteRenderer(pub Vec<String>);

impl SqliteRenderer {
    /// Appends the statement that `input` makes to `dest`, and its
    /// expressions to the parameters.
    pub fn render(&mut self, input: &Template, dest: &mut String)
        ensures
            final(dest)@ == old(dest)@ + sql_text(input, input.elements@.len() as int),
            crate::text::views(final(self).0@) == crate::text::views(old(self).0@) + sql_params(
                input,
                input.elements@.len() as int,
            ),
        decreases input,
    {
        let ghost start = dest@;
        let ghost params = crate::text::views(self.0@);
        let mut i: usize = 0;
        while i < input.elements.len()
            invariant
                0 <= i <= input.elements@.len(),
                dest@ == start + sql_text(input, i as int),
                crate::text::views(self.0@) == params + sql_params(input, i as int),
            decreases input.elements@.len() - i,
        {
            match &input.elements[i] {
                TemplateElement::Text(t) => {
                    push_str(dest, t.as_str());
                    proof {
                        assert(crate::text::views(self.0@) =~= params + sql_params(input, i + 1));
                    }
                },
                TemplateElement::Template(t) => {
                    proof {
                        assert(decreases_to!(input => input.elements@[i as int]));
                    }
                    push_str(dest, t.open.as_str());
                    self.render(t, dest);
                    push_str(dest, t.close.as_str());
                    proof {
                        assert(crate::text::views(self.0@) =~= params + sql_params(input, i + 1));
                    }
                },
                TemplateElement::Expression(e) => {
                    let ghost before = self.0@;
                    self.0.push(e.clone());
                    push_str(dest, "?");
                    proof {
                        reveal_strlit("?");
                        assert(crate::text::views(self.0@) =~= crate::text::views(before).push(e@));
                        assert(crate::text::views(self.0@) =~= params + sql_params(input, i + 1));
                    }
                },
            }
            i += 1;
        }
    }
}


/// How many expressions the first `k` pieces of a template hold, nested
/// ones included.
pub open spec fn expr_count(t: &Template, k: int) -> nat {
    sql_params(t, k).len()
}

/// The text of a template with its expressions filled in: each text as it
/// is, each nested template inside its brackets, each expression as the
/// next of `vals` from `at` on where `resolve` is set and as `$(...)`
/// where it is not; the template's own brackets around it where
/// `brackets` is set.
pub open spec fn rendered(t: &Template, brackets: bool, resolve: bool, vals: Seq<Seq<char>>, at: int) -> Seq<char>
    decreases t, 1int, 0int,
{
    let inner = rendered_elements(t, resolve, vals, at, t.elements@.len() as int);
    if brackets {
        t.open@ + inner + t.close@
    } else {
        inner
    }
}

/// The filled-in text of the first `k` pieces of `t` (see `rendered`).
pub open spec fn rendered_elements(t: &Template, resolve: bool, vals: Seq<Seq<char>>, at: int, k: int) -> Seq<char>
    decreases t, 0int, k,
{
    if k <= 0 || k > t.elements@.len() {
        Seq::empty()
    } else {
        let here = if resolve { at + expr_count(t, k - 1) } else { at };
        rendered_elements(t, resolve, vals, at, k - 1) + match t.elements@[k - 1] {
            TemplateElement::Text(s) => s@,
            TemplateElement::Template(c) => {
                proof {
                    assert(decreases_to!(t => t.elements@[k - 1]));
                }
                rendered(&c, true, resolve, vals, here)
            },
            TemplateElement::Expression(e) => if resolve {
                vals[here]
            } else {
                "$("@ + e@ + ")"@
            },
        }
    }
}

/// Writes templates out with their expressions filled in. The values are
/// the caller's: the printed values of the template's expressions, in the
/// order they appear, as the evaluator gives them.
#[derive(Clone, Copy, Debug)]
pub struct DefaultRenderer {
    pub include_brackets: bool,
    pub resolve_expressions: bool,
}

impl DefaultRenderer {
    /// A renderer that leaves out the template's own brackets and fills in
    /// its expressions.
    pub fn new() -> (r: Self)
        ensures
            !r.include_brackets,
            r.resolve_expressions,
    {
        DefaultRenderer { include_brackets: false, resolve_expressions: true }
    }

    /// Appends the text of `input` to `dest` with its expressions filled in
    /// from `values` (see `rendered`); where expressions are filled in,
    /// `values` holds one for each of them.
    pub fn render(&mut self, input: &Template, values: &Vec<String>, dest: &mut String)
        requires
            old(self).resolve_expressions ==> expr_count(input, input.elements@.len() as int) <= values@.len(),
        ensures
            *final(self) == *old(self),
            final(dest)@ == old(dest)@ + rendered(input, old(self).include_brackets,
                old(self).resolve_expressions, crate::text::views(values@), 0),
    {
        let _ = self.render_from(input, values, 0, dest);
    }

    /// Renders `input` taking values from position `at` on, and gives the
    /// position after the last value taken.
    fn render_from(&self, input: &Template, values: &Vec<String>, at: usize, dest: &mut String) -> (next: usize)
        requires
            self.resolve_expressions ==> at + expr_count(input, input.elements@.len() as int) <= values@.len(),
            at <= values@.len(),
        ensures
            final(dest)@ == old(dest)@ + rendered(input, self.include_brackets, self.resolve_expressions,
                crate::text::views(values@), at as int),
            self.resolve_expressions ==> next == at + expr_count(input, input.elements@.len() as int),
        decreases input,
    {
        let ghost start = dest@;
        let ghost vals = crate::text::views(values@);
        let ghost resolve = self.resolve_expressions;
        if self.include_brackets {
            push_str(dest, input.open.as_str());
        }
        let ghost opened = dest@;
        let ghost n = input.elements@.len() as int;
        let nvals = values.len();
        let mut i: usize = 0;
        let mut here: usize = at;
        proof {
            lemma_expr_count_grows(input, 0, n);
        }
        while i < input.elements.len()
            invariant
                0 <= i <= n,
                n == input.elements@.len(),
                vals == crate::text::views(values@),
                resolve == self.resolve_expressions,
                resolve ==> at + expr_count(input, n) <= values@.len(),
                at <= values@.len(),
                resolve ==> here == at + expr_count(input, i as int),
                !resolve ==> here == at,
                nvals == values@.len(),
                dest@ == opened + rendered_elements(input, resolve, vals, at as int, i as int),
            decreases n - i,
        {
            proof {
                lemma_expr_count_grows(input, i + 1, n);
                lemma_expr_count_step(input, i + 1);
            }
            match &input.elements[i] {
                TemplateElement::Text(t) => push_str(dest, t.as_str()),
                TemplateElement::Template(t) => {
                    proof {
                        assert(decreases_to!(input => input.elements@[i as int]));
                    }
                    let child = DefaultRenderer { include_brackets: true, resolve_expressions: self.resolve_expressions };
                    let after = child.render_from(t, values, here, dest);
                    if self.resolve_expressions {
                        here = after;
                    }
                },
                TemplateElement::Expression(e) => {
                    if self.resolve_expressions {
                        proof {
                            assert(expr_count(input, i + 1) == expr_count(input, i as int) + 1);
                            assert(here < values@.len());
                        }
                        push_str(dest, values[here].as_str());
                        here = here + 1;
                    } else {
                        push_str(dest, "$(");
                        push_str(dest, e.as_str());
                        push_str(dest, ")");
                    }
                },
            }
            i += 1;
        }
        if self.include_brackets {
            push_str(dest, input.close.as_str());
        }
        here
    }
}

/// Counting expressions over more pieces never counts fewer.
proof fn lemma_expr_count_grows(t: &Template, k: int, n: int)
    requires
        0 <= k <= n <= t.elements@.len(),
    ensures
        expr_count(t, k) <= expr_count(t, n),
    decreases n - k,
{
    if k < n {
        lemma_expr_count_grows(t, k, n - 1);
        lemma_expr_count_step(t, n);
    }
}

/// One more piece adds the expressions it holds.
proof fn lemma_expr_count_step(t: &Template, k: int)
    requires
        0 < k <= t.elements@.len(),
    ensures
        expr_count(t, k) == expr_count(t, k - 1) + match t.elements@[k - 1] {
            TemplateElement::Text(_) => 0,
            TemplateElement::Template(c) => expr_count(&c, c.elements@.len() as int),
            TemplateElement::Expression(_) => 1,
        },
{
}


/// A renderer that does not fill in expressions writes a template as it
/// was written: the default renderer with expressions left alone agrees
/// with the literal one.
pub proof fn lemma_unresolved_render_is_literal(t: &Template, brackets: bool, vals: Seq<Seq<char>>, at: int)
    ensures
        rendered(t, brackets, false, vals, at) == literal(t, brackets),
    decreases t, 1int, 0int,
{
    lemma_unresolved_elements(t, vals, at, t.elements@.len() as int);
}

proof fn lemma_unresolved_elements(t: &Template, vals: Seq<Seq<char>>, at: int, k: int)
    ensures
        rendered_elements(t, false, vals, at, k) == literal_elements(t, k),
    decreases t, 0int, k,
{
    if 0 < k <= t.elements@.len() {
        lemma_unresolved_elements(t, vals, at, k - 1);
        match t.elements@[k - 1] {
            TemplateElement::Template(c) => {
                assert(decreases_to!(t => t.elements@[k - 1]));
                lemma_unresolved_render_is_literal(&c, true, vals, at);
            },
            _ => {},
        }
    }
}

} // verus!
