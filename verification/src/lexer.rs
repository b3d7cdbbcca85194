//! The serv lexer: cuts program text into tokens.
//!
//! Strings are written between curly brackets (or opened by a double quote)
//! and are templates: `$name` and `$( expression )` embed serv expressions
//! inside them, and brackets may nest.

use vstd::prelude::*;
use crate::text::{chars_of, char_is_alphabetic, is_alphabetic, is_decimal_digit, is_digit, is_white_space, is_whitespace, scan, lemma_scan_bounds, lemma_scan_stop, string_from_chars};

verus! {

#[derive(Clone, Copy, Debug, PartialEq, Eq, Structural)]
pub enum TokenKind {
    Identifier,
    IntLiteral,
    Route,
    TemplateOpen,
    TemplateClose,
    TemplateText,
    TemplateVariable,
    Comment,
    ListBegin,
    ListEnd,
    LambdaBegin,
    LambdaEnd,
    WhiteSpace,
    At,
    WideArrow,
    Semicolon,
    Plus,
    Dollar,
    Percent,
    NewLine,
    Equals,
    EndOfInput,
}

/// A token: its kind, its text, and the character positions it spans.
#[derive(Debug, Clone)]
pub struct Token {
    pub kind: TokenKind,
    pub contents: String,
    pub start: usize,
    pub end: usize,
}

impl Token {
    /// The text of the token.
    pub fn to_string(&self) -> (r: String)
        ensures
            r@ == self.contents@,
    {
        self.contents.clone()
    }
}

/// A token as the specification sees it: kind, start and end.
pub type Tok = (TokenKind, int, int);

impl View for Token {
    type V = Tok;

    open spec fn view(&self) -> Tok {
        (self.kind, self.start as int, self.end as int)
    }
}

/// The kinds and positions of a list of tokens.
pub open spec fn toks_of(v: Seq<Token>) -> Seq<Tok> {
    v.map_values(|t: Token| t@)
}

/// Every token spans a stretch of `s`, and its text is that stretch.
pub open spec fn texts_match(v: Seq<Token>, s: Seq<char>) -> bool {
    forall|i: int| 0 <= i < v.len() ==> {
        &&& 0 <= (#[trigger] v[i]).start <= v[i].end <= s.len()
        &&& v[i].contents@ == s.subrange(v[i].start as int, v[i].end as int)
    }
}

// ------------------------------------------------------------------
// The specification of the lexer, as functions of the input and a position.
// `None` marks an input on which the lexer gives up.
// ------------------------------------------------------------------

pub open spec fn is_ident_char(c: char) -> bool {
    char_is_alphabetic(c) || c == '_'
}

pub open spec fn is_space_char(c: char) -> bool {
    c == '\t' || c == ' '
}

pub open spec fn is_comment_char(c: char) -> bool {
    c != '\n' && c != '#'
}

pub open spec fn is_route_char(c: char) -> bool {
    !is_white_space(c)
}

/// The characters that end a run of plain text inside a template.
pub open spec fn is_template_special(c: char) -> bool {
    c == '{' || c == '\\' || c == '"' || c == '$' || c == '}'
}

pub open spec fn is_text_char(c: char) -> bool {
    !is_template_special(c)
}

/// Characters that form a token of their own, wherever they stand.
pub open spec fn single_kind(c: char) -> Option<TokenKind> {
    if c == ';' {
        Some(TokenKind::Semicolon)
    } else if c == '$' {
        Some(TokenKind::Dollar)
    } else if c == '%' || c == '*' || c == '!' {
        Some(TokenKind::Identifier)
    } else if c == '[' {
        Some(TokenKind::ListBegin)
    } else if c == ']' {
        Some(TokenKind::ListEnd)
    } else {
        None
    }
}

pub open spec fn prepend(t: Seq<Tok>, rest: Option<Seq<Tok>>) -> Option<Seq<Tok>> {
    match rest {
        Some(r) => Some(t + r),
        None => None,
    }
}

pub open spec fn prepend_at(t: Seq<Tok>, rest: Option<(Seq<Tok>, int)>) -> Option<(Seq<Tok>, int)> {
    match rest {
        Some((r, q)) => Some((t + r, q)),
        None => None,
    }
}

/// The tokens of a template that opens at `p`, and the position after it.
pub open spec fn lex_template(s: Seq<char>, p: int) -> Option<(Seq<Tok>, int)>
    decreases s.len() - p, 0int,
{
    if p < 0 || p >= s.len() {
        None
    } else {
        prepend_at(seq![(TokenKind::TemplateOpen, p, p + 1)], lex_template_body(s, p + 1))
    }
}

/// The tokens of the inside of a template from `q` up to and including its
/// closing bracket (or the end of the input), and the position after them.
pub open spec fn lex_template_body(s: Seq<char>, q: int) -> Option<(Seq<Tok>, int)>
    decreases s.len() - q, 1int,
{
    if q < 0 {
        None
    } else if q >= s.len() {
        Some((seq![], q))
    } else {
        let c = s[q];
        if c == '}' {
            Some((seq![(TokenKind::TemplateClose, q, q + 1)], q + 1))
        } else if c == '{' {
            match lex_template(s, q) {
                Some((t, q2)) => if q < q2 <= s.len() {
                    prepend_at(t, lex_template_body(s, q2))
                } else {
                    None
                },
                None => None,
            }
        } else if c == '$' {
            let d = (TokenKind::Dollar, q, q + 1);
            let mid: Option<(Seq<Tok>, int)> = if q + 1 < s.len() && s[q + 1] == '(' {
                prepend_at(seq![d, (TokenKind::LambdaBegin, q + 1, q + 2)], lex_inner(s, q + 2))
            } else {
                let q2 = scan(s, q + 1, |x: char| char_is_alphabetic(x));
                Some((seq![d, (TokenKind::Identifier, q + 1, q2)], q2))
            };
            match mid {
                Some((t, r)) => {
                    let (t2, r2) = if 0 <= r < s.len() && s[r] == '$' {
                        (t.push((TokenKind::Dollar, r, r + 1)), r + 1)
                    } else {
                        (t, r)
                    };
                    if q < r2 <= s.len() {
                        prepend_at(t2, lex_template_body(s, r2))
                    } else {
                        None
                    }
                },
                None => None,
            }
        } else if c == '\\' || c == '"' {
            None
        } else {
            let q2 = scan(s, q, |x: char| is_text_char(x));
            if q < q2 <= s.len() {
                prepend_at(seq![(TokenKind::TemplateText, q, q2)], lex_template_body(s, q2))
            } else {
                None
            }
        }
    }
}

/// The tokens of an expression embedded in a template with `$( ... )`, from
/// `q` up to and including its closing parenthesis (or the end of the input).
pub open spec fn lex_inner(s: Seq<char>, q: int) -> Option<(Seq<Tok>, int)>
    decreases s.len() - q, 1int,
{
    if q < 0 {
        None
    } else if q >= s.len() {
        Some((seq![], q))
    } else {
        let c = s[q];
        if single_kind(c) is Some {
            prepend_at(seq![(single_kind(c)->0, q, q + 1)], lex_inner(s, q + 1))
        } else if c == '\n' {
            lex_inner(s, q + 1)
        } else if c == '(' {
            match lex_inner(s, q + 1) {
                Some((t, q2)) => if q < q2 <= s.len() {
                    prepend_at(seq![(TokenKind::LambdaBegin, q, q + 1)] + t, lex_inner(s, q2))
                } else {
                    None
                },
                None => None,
            }
        } else if c == ')' {
            Some((seq![(TokenKind::LambdaEnd, q, q + 1)], q + 1))
        } else if is_space_char(c) {
            let q2 = scan(s, q, |x: char| is_space_char(x));
            if q < q2 <= s.len() { lex_inner(s, q2) } else { None }
        } else if c == '{' || c == '"' {
            match lex_template(s, q) {
                Some((t, q2)) => if q < q2 <= s.len() {
                    prepend_at(t, lex_inner(s, q2))
                } else {
                    None
                },
                None => None,
            }
        } else if char_is_alphabetic(c) {
            let q2 = scan(s, q, |x: char| is_ident_char(x));
            if q < q2 <= s.len() {
                prepend_at(seq![(TokenKind::Identifier, q, q2)], lex_inner(s, q2))
            } else {
                None
            }
        } else if is_decimal_digit(c) {
            let q2 = scan(s, q, |x: char| is_decimal_digit(x));
            if q < q2 <= s.len() {
                prepend_at(seq![(TokenKind::IntLiteral, q, q2)], lex_inner(s, q2))
            } else {
                None
            }
        } else {
            None
        }
    }
}

/// The tokens of a whole program from `p` on, ending with `EndOfInput`.
pub open spec fn lex_top(s: Seq<char>, p: int) -> Option<Seq<Tok>>
    decreases s.len() - p,
{
    if p < 0 {
        None
    } else if p >= s.len() {
        Some(seq![(TokenKind::EndOfInput, p, p)])
    } else {
        let c = s[p];
        if c == '@' {
            prepend(seq![(TokenKind::At, p, p + 1)], lex_top(s, p + 1))
        } else if single_kind(c) is Some {
            prepend(seq![(single_kind(c)->0, p, p + 1)], lex_top(s, p + 1))
        } else if c == '\n' {
            lex_top(s, p + 1)
        } else if c == '(' {
            prepend(seq![(TokenKind::LambdaBegin, p, p + 1)], lex_top(s, p + 1))
        } else if c == ')' {
            prepend(seq![(TokenKind::LambdaEnd, p, p + 1)], lex_top(s, p + 1))
        } else if c == '#' {
            let q = scan(s, p + 1, |x: char| is_comment_char(x));
            if p < q <= s.len() {
                prepend(seq![(TokenKind::Comment, p, q)], lex_top(s, q))
            } else {
                None
            }
        } else if is_space_char(c) {
            let q = scan(s, p, |x: char| is_space_char(x));
            if p < q <= s.len() { lex_top(s, q) } else { None }
        } else if c == '=' && p + 1 < s.len() && s[p + 1] == '>' {
            prepend(seq![(TokenKind::WideArrow, p, p + 2)], lex_top(s, p + 2))
        } else if c == '=' {
            prepend(seq![(TokenKind::Equals, p, p + 1)], lex_top(s, p + 1))
        } else if c == '/' {
            let q = scan(s, p, |x: char| is_route_char(x));
            if p < q <= s.len() {
                prepend(seq![(TokenKind::Route, p, q)], lex_top(s, q))
            } else {
                None
            }
        } else if c == '{' || c == '"' {
            match lex_template(s, p) {
                Some((t, q)) => if p < q <= s.len() { prepend(t, lex_top(s, q)) } else { None },
                None => None,
            }
        } else if char_is_alphabetic(c) {
            let q = scan(s, p, |x: char| is_ident_char(x));
            if p < q <= s.len() {
                prepend(seq![(TokenKind::Identifier, p, q)], lex_top(s, q))
            } else {
                None
            }
        } else if is_decimal_digit(c) {
            let q = scan(s, p, |x: char| is_decimal_digit(x));
            if p < q <= s.len() {
                prepend(seq![(TokenKind::IntLiteral, p, q)], lex_top(s, q))
            } else {
                None
            }
        } else {
            None
        }
    }
}

/// Whether the lexer accepts `s` (it gives up on characters it has no rule for).
pub open spec fn lexable(s: Seq<char>) -> bool {
    lex_top(s, 0) is Some
}


// ------------------------------------------------------------------
// The lexer itself.
// ------------------------------------------------------------------

struct Cursor<'input> {
    input: &'input [char],
    index: usize,
    mark: usize,
}

impl<'input> Cursor<'input> {
    spec fn chars(&self) -> Seq<char> {
        self.input@
    }

    spec fn pos(&self) -> int {
        self.index as int
    }

    spec fn mark(&self) -> int {
        self.mark as int
    }

    spec fn wf(&self) -> bool {
        0 <= self.mark() <= self.pos() <= self.chars().len()
    }

    /// At a token boundary: nothing is pending between the mark and the cursor.
    spec fn clean(&self) -> bool {
        self.wf() && self.mark() == self.pos()
    }

    fn new(input: &'input [char]) -> (r: Self)
        ensures
            r.clean(),
            r.chars() == input@,
            r.pos() == 0,
    {
        Self { input, index: 0, mark: 0 }
    }

    fn incr(&mut self, offset: usize)
        requires
            old(self).wf(),
            old(self).pos() + offset <= old(self).chars().len(),
        ensures
            final(self).wf(),
            final(self).chars() == old(self).chars(),
            final(self).mark() == old(self).mark(),
            final(self).pos() == old(self).pos() + offset,
    {
        assert(self.input@.len() == self.input.len());
        self.index += offset;
    }

    fn incr_while<F>(&mut self, test: F)
        where F: Fn(char) -> bool,
        requires
            old(self).wf(),
            forall|c: char| call_requires(test, (c,)),
        ensures
            final(self).wf(),
            final(self).chars() == old(self).chars(),
            final(self).mark() == old(self).mark(),
            old(self).pos() <= final(self).pos(),
            forall|i: int| old(self).pos() <= i < final(self).pos()
                ==> call_ensures(test, (#[trigger] old(self).chars()[i],), true),
            final(self).pos() < final(self).chars().len()
                ==> call_ensures(test, (final(self).chars()[final(self).pos()],), false),
    {
        let ghost start = self.index;
        let ghost mark = self.mark;
        let ghost input = self.input@;
        while self.index < self.input.len() && test(self.input[self.index])
            invariant
                self.mark == mark,
                self.input@ == input,
                self.mark <= start <= self.index <= self.input.len(),
                forall|c: char| call_requires(test, (c,)),
                forall|i: int| start <= i < self.index
                    ==> call_ensures(test, (#[trigger] self.input@[i],), true),
            ensures
                self.mark == mark,
                self.input@ == input,
                self.mark <= start <= self.index <= self.input.len(),
                forall|i: int| start <= i < self.index
                    ==> call_ensures(test, (#[trigger] self.input@[i],), true),
                self.index < self.input.len()
                    ==> call_ensures(test, (self.input@[self.index as int],), false),
            decreases self.input.len() - self.index,
        {
            self.index += 1;
        }
    }

    fn get(&self, offset: usize) -> (r: Option<char>)
        requires
            self.wf(),
        ensures
            r == (if self.pos() + offset < self.chars().len() {
                Some(self.chars()[self.pos() + offset])
            } else {
                None
            }),
    {
        if offset >= self.input.len() - self.index {
            None
        } else {
            Some(self.input[self.index + offset])
        }
    }

    /// Whether the character `offset` places past the cursor is `c`.
    fn next_is(&self, offset: usize, c: char) -> (r: bool)
        requires
            self.wf(),
        ensures
            r == (self.pos() + offset < self.chars().len() && self.chars()[self.pos() + offset] == c),
    {
        match self.get(offset) {
            Some(x) => x == c,
            None => false,
        }
    }

    fn emit_token(&mut self, kind: TokenKind) -> (r: Token)
        requires
            old(self).wf(),
        ensures
            final(self).clean(),
            final(self).chars() == old(self).chars(),
            final(self).pos() == old(self).pos(),
            r@ == (kind, old(self).mark(), old(self).pos()),
            r.contents@ == old(self).chars().subrange(old(self).mark(), old(self).pos()),
    {
        let slice = vstd::slice::slice_subrange(self.input, self.mark, self.index);
        let contents = string_from_chars(slice);
        let output = Token { kind, contents, start: self.mark, end: self.index };
        self.mark = self.index;
        output
    }
}

/// Pushing a token cut from `s` keeps every token's text in step with `s`.
proof fn lemma_push_text(v: Seq<Token>, t: Token, s: Seq<char>)
    requires
        texts_match(v, s),
        0 <= t.start <= t.end <= s.len(),
        t.contents@ == s.subrange(t.start as int, t.end as int),
    ensures
        texts_match(v.push(t), s),
        toks_of(v.push(t)) == toks_of(v).push(t@),
{
    assert(toks_of(v.push(t)) =~= toks_of(v).push(t@));
    assert forall|i: int| 0 <= i < v.push(t).len() implies {
        &&& 0 <= (#[trigger] v.push(t)[i]).start <= v.push(t)[i].end <= s.len()
        &&& v.push(t)[i].contents@ == s.subrange(v.push(t)[i].start as int, v.push(t)[i].end as int)
    } by {
        if i < v.len() {
            assert(v.push(t)[i] == v[i]);
        }
    }
}

/// Emits a token of `kind` from the cursor's pending characters and pushes it.
fn push_token(cursor: &mut Cursor, output: &mut Vec<Token>, kind: TokenKind)
    requires
        old(cursor).wf(),
        texts_match(old(output)@, old(cursor).chars()),
    ensures
        final(cursor).clean(),
        final(cursor).chars() == old(cursor).chars(),
        final(cursor).pos() == old(cursor).pos(),
        texts_match(final(output)@, old(cursor).chars()),
        toks_of(final(output)@) == toks_of(old(output)@).push((kind, old(cursor).mark(), old(cursor).pos())),
{
    let t = cursor.emit_token(kind);
    proof {
        lemma_push_text(output@, t, cursor.chars());
    }
    output.push(t);
}

fn is_special(c: char) -> (r: bool)
    ensures
        r == is_template_special(c),
{
    c == '{' || c == '\\' || c == '"' || c == '$' || c == '}'
}

/// The token kind of a character that forms a token on its own.
fn single(c: char) -> (r: Option<TokenKind>)
    ensures
        r == single_kind(c),
{
    if c == ';' {
        Some(TokenKind::Semicolon)
    } else if c == '$' {
        Some(TokenKind::Dollar)
    } else if c == '%' || c == '*' || c == '!' {
        Some(TokenKind::Identifier)
    } else if c == '[' {
        Some(TokenKind::ListBegin)
    } else if c == ']' {
        Some(TokenKind::ListEnd)
    } else {
        None
    }
}

/// Moves the cursor over the run of characters that pass `test`; `pred`
/// says in the specification what `test` computes.
fn run<F>(cursor: &mut Cursor, test: F, Ghost(pred): Ghost<spec_fn(char) -> bool>)
    where F: Fn(char) -> bool,
    requires
        old(cursor).wf(),
        forall|c: char| call_requires(test, (c,)),
        forall|c: char, r: bool| call_ensures(test, (c,), r) ==> r == pred(c),
    ensures
        final(cursor).wf(),
        final(cursor).chars() == old(cursor).chars(),
        final(cursor).mark() == old(cursor).mark(),
        final(cursor).pos() == scan(old(cursor).chars(), old(cursor).pos(), pred),
{
    let ghost s = cursor.chars();
    let ghost p = cursor.pos();
    cursor.incr_while(test);
    proof {
        assert forall|i: int| p <= i < cursor.pos() implies pred(#[trigger] s[i]) by {
            assert(call_ensures(test, (s[i],), true));
        }
        if cursor.pos() < s.len() {
            assert(call_ensures(test, (s[cursor.pos()],), false));
        }
        lemma_scan_stop(s, p, cursor.pos(), pred);
    }
}

proof fn lemma_prepend_at_assoc(a: Seq<Tok>, b: Seq<Tok>, rest: Option<(Seq<Tok>, int)>)
    ensures
        prepend_at(a, prepend_at(b, rest)) == prepend_at(a + b, rest),
{
    if let Some((r, q)) = rest {
        assert(a + (b + r) =~= (a + b) + r);
    }
}

proof fn lemma_prepend_assoc(a: Seq<Tok>, b: Seq<Tok>, rest: Option<Seq<Tok>>)
    ensures
        prepend(a, prepend(b, rest)) == prepend(a + b, rest),
{
    if let Some(r) = rest {
        assert(a + (b + r) =~= (a + b) + r);
    }
}

/// Tokenizes a template that opens at the cursor. Returns false where the
/// lexer gives up (a backslash or a double quote inside a template).
#[verifier::rlimit(40)]
fn tokenize_string_template(cursor: &mut Cursor, output: &mut Vec<Token>) -> (ok: bool)
    requires
        old(cursor).clean(),
        old(cursor).pos() < old(cursor).chars().len(),
        texts_match(old(output)@, old(cursor).chars()),
    ensures
        final(cursor).clean(),
        final(cursor).chars() == old(cursor).chars(),
        texts_match(final(output)@, old(cursor).chars()),
        ok == lex_template(old(cursor).chars(), old(cursor).pos()) is Some,
        ok ==> {
            let (t, q) = lex_template(old(cursor).chars(), old(cursor).pos())->0;
            &&& toks_of(final(output)@) == toks_of(old(output)@) + t
            &&& final(cursor).pos() == q
            &&& old(cursor).pos() < q <= old(cursor).chars().len()
        },
    decreases old(cursor).chars().len() - old(cursor).pos(), 0int,
{
    let ghost s = cursor.chars();
    let ghost p0 = cursor.pos();
    let ghost base = toks_of(output@);
    cursor.incr(1);
    push_token(cursor, output, TokenKind::TemplateOpen);
    let ghost mut acc: Seq<Tok> = seq![(TokenKind::TemplateOpen, p0, p0 + 1)];
    loop
        invariant
            s == old(cursor).chars(),
            p0 == old(cursor).pos(),
            base == toks_of(old(output)@),
            cursor.clean(),
            cursor.chars() == s,
            p0 < cursor.pos() <= s.len(),
            texts_match(output@, s),
            toks_of(output@) == base + acc,
            lex_template(s, p0) == prepend_at(acc, lex_template_body(s, cursor.pos())),
        decreases s.len() - cursor.pos(),
    {
        let q = cursor.index;
        let ghost toks = toks_of(output@);
        let c = match cursor.get(0) {
            Some(c) => c,
            None => {
                assert(acc + seq![] =~= acc);
                return true;
            },
        };
        if c == '}' {
            cursor.incr(1);
            push_token(cursor, output, TokenKind::TemplateClose);
            proof {
                assert(toks.push((TokenKind::TemplateClose, q as int, q + 1)) =~= base + (acc + seq![(TokenKind::TemplateClose, q as int, q + 1)]));
            }
            return true;
        } else if c == '{' {
            if !tokenize_string_template(cursor, output) {
                return false;
            }
            proof {
                let t = lex_template(s, q as int).unwrap().0;
                lemma_prepend_at_assoc(acc, t, lex_template_body(s, cursor.pos()));
                assert(toks + t =~= base + (acc + t));
                acc = acc + t;
            }
        } else if c == '$' {
            cursor.incr(1);
            push_token(cursor, output, TokenKind::Dollar);
            let ghost mut t: Seq<Tok> = seq![(TokenKind::Dollar, q as int, q + 1)];
            if cursor.next_is(0, '(') {
                cursor.incr(1);
                push_token(cursor, output, TokenKind::LambdaBegin);
                proof {
                    t = t.push((TokenKind::LambdaBegin, q + 1, q + 2));
                }
                let ghost before = toks_of(output@);
                if !tokenize_inner_expression(cursor, output) {
                    return false;
                }
                proof {
                    let u = lex_inner(s, q + 2).unwrap().0;
                    assert(before + u =~= toks + (t + u));
                    t = t + u;
                }
            } else {
                run(cursor, |x: char| -> (r: bool) ensures r == char_is_alphabetic(x) { is_alphabetic(x) },
                    Ghost(|x: char| char_is_alphabetic(x)));
                push_token(cursor, output, TokenKind::Identifier);
                proof {
                    t = t.push((TokenKind::Identifier, q + 1, cursor.pos()));
                }
            }
            if cursor.next_is(0, '$') {
                let r = cursor.index;
                cursor.incr(1);
                push_token(cursor, output, TokenKind::Dollar);
                proof {
                    t = t.push((TokenKind::Dollar, r as int, r + 1));
                }
            }
            proof {
                lemma_prepend_at_assoc(acc, t, lex_template_body(s, cursor.pos()));
                assert(toks_of(output@) =~= base + (acc + t));
                acc = acc + t;
            }
        } else if c == '\\' || c == '"' {
            return false;
        } else {
            proof {
                lemma_scan_bounds(s, q as int, |x: char| is_text_char(x));
            }
            run(cursor, |x: char| -> (r: bool) ensures r == is_text_char(x) { !is_special(x) },
                Ghost(|x: char| is_text_char(x)));
            push_token(cursor, output, TokenKind::TemplateText);
            proof {
                let t = seq![(TokenKind::TemplateText, q as int, cursor.pos())];
                lemma_prepend_at_assoc(acc, t, lex_template_body(s, cursor.pos()));
                assert(toks.push(t[0]) =~= base + (acc + t));
                acc = acc + t;
            }
        }
    }
}

/// Tokenizes an expression embedded in a template, up to and including its
/// closing parenthesis. Returns false on a character the lexer has no rule for.
#[verifier::rlimit(40)]
fn tokenize_inner_expression(cursor: &mut Cursor, output: &mut Vec<Token>) -> (ok: bool)
    requires
        old(cursor).clean(),
        texts_match(old(output)@, old(cursor).chars()),
    ensures
        final(cursor).clean(),
        final(cursor).chars() == old(cursor).chars(),
        texts_match(final(output)@, old(cursor).chars()),
        ok == lex_inner(old(cursor).chars(), old(cursor).pos()) is Some,
        ok ==> {
            let (t, q) = lex_inner(old(cursor).chars(), old(cursor).pos())->0;
            &&& toks_of(final(output)@) == toks_of(old(output)@) + t
            &&& final(cursor).pos() == q
            &&& old(cursor).pos() <= q <= old(cursor).chars().len()
        },
    decreases old(cursor).chars().len() - old(cursor).pos(), 1int,
{
    let ghost s = cursor.chars();
    let ghost q0 = cursor.pos();
    let ghost base = toks_of(output@);
    let ghost mut acc: Seq<Tok> = seq![];
    assert(base + acc =~= base);
    loop
        invariant
            s == old(cursor).chars(),
            q0 == old(cursor).pos(),
            base == toks_of(old(output)@),
            cursor.clean(),
            cursor.chars() == s,
            q0 <= cursor.pos() <= s.len(),
            texts_match(output@, s),
            toks_of(output@) == base + acc,
            lex_inner(s, q0) == prepend_at(acc, lex_inner(s, cursor.pos())),
        decreases s.len() - cursor.pos(),
    {
        let q = cursor.index;
        let ghost toks = toks_of(output@);
        let c = match cursor.get(0) {
            Some(c) => c,
            None => {
                assert(acc + seq![] =~= acc);
                return true;
            },
        };
        if let Some(kind) = single(c) {
            cursor.incr(1);
            push_token(cursor, output, kind);
            proof {
                let t = seq![(kind, q as int, q + 1)];
                lemma_prepend_at_assoc(acc, t, lex_inner(s, cursor.pos()));
                assert(toks.push(t[0]) =~= base + (acc + t));
                acc = acc + t;
            }
        } else if c == '\n' {
            cursor.incr(1);
            let _ = cursor.emit_token(TokenKind::NewLine);
        } else if c == '(' {
            cursor.incr(1);
            push_token(cursor, output, TokenKind::LambdaBegin);
            let ghost before = toks_of(output@);
            if !tokenize_inner_expression(cursor, output) {
                return false;
            }
            proof {
                let t = seq![(TokenKind::LambdaBegin, q as int, q + 1)] + lex_inner(s, q + 1).unwrap().0;
                lemma_prepend_at_assoc(acc, t, lex_inner(s, cursor.pos()));
                assert(toks_of(output@) =~= base + (acc + t));
                acc = acc + t;
            }
        } else if c == ')' {
            cursor.incr(1);
            push_token(cursor, output, TokenKind::LambdaEnd);
            proof {
                assert(toks.push((TokenKind::LambdaEnd, q as int, q + 1)) =~= base + (acc + seq![(TokenKind::LambdaEnd, q as int, q + 1)]));
            }
            return true;
        } else if c == '\t' || c == ' ' {
            proof {
                lemma_scan_bounds(s, q as int, |x: char| is_space_char(x));
            }
            run(cursor, |x: char| -> (r: bool) ensures r == is_space_char(x) { x == '\t' || x == ' ' },
                Ghost(|x: char| is_space_char(x)));
            let _ = cursor.emit_token(TokenKind::WhiteSpace);
        } else if c == '{' || c == '"' {
            if !tokenize_string_template(cursor, output) {
                return false;
            }
            proof {
                let t = lex_template(s, q as int).unwrap().0;
                lemma_prepend_at_assoc(acc, t, lex_inner(s, cursor.pos()));
                assert(toks + t =~= base + (acc + t));
                acc = acc + t;
            }
        } else if is_alphabetic(c) {
            proof {
                lemma_scan_bounds(s, q as int, |x: char| is_ident_char(x));
            }
            run(cursor, |x: char| -> (r: bool) ensures r == is_ident_char(x) { is_alphabetic(x) || x == '_' },
                Ghost(|x: char| is_ident_char(x)));
            push_token(cursor, output, TokenKind::Identifier);
            proof {
                let t = seq![(TokenKind::Identifier, q as int, cursor.pos())];
                lemma_prepend_at_assoc(acc, t, lex_inner(s, cursor.pos()));
                assert(toks.push(t[0]) =~= base + (acc + t));
                acc = acc + t;
            }
        } else if is_digit(c) {
            proof {
                lemma_scan_bounds(s, q as int, |x: char| is_decimal_digit(x));
            }
            run(cursor, |x: char| -> (r: bool) ensures r == is_decimal_digit(x) { is_digit(x) },
                Ghost(|x: char| is_decimal_digit(x)));
            push_token(cursor, output, TokenKind::IntLiteral);
            proof {
                let t = seq![(TokenKind::IntLiteral, q as int, cursor.pos())];
                lemma_prepend_at_assoc(acc, t, lex_inner(s, cursor.pos()));
                assert(toks.push(t[0]) =~= base + (acc + t));
                acc = acc + t;
            }
        } else {
            return false;
        }
    }
}

/// Runs the lexer over `chars`; `None` where it gives up.
#[verifier::rlimit(40)]
fn lex_all(chars: &[char]) -> (r: Option<Vec<Token>>)
    ensures
        match r {
            Some(v) => lex_top(chars@, 0) == Some(toks_of(v@)) && texts_match(v@, chars@),
            None => lex_top(chars@, 0) is None,
        },
{
    let mut cursor = Cursor::new(chars);
    let mut output: Vec<Token> = Vec::new();
    let ghost s = chars@;
    let ghost mut acc: Seq<Tok> = seq![];
    assert(toks_of(output@) =~= acc);
    loop
        invariant
            s == chars@,
            cursor.clean(),
            cursor.chars() == s,
            0 <= cursor.pos() <= s.len(),
            texts_match(output@, s),
            toks_of(output@) == acc,
            lex_top(s, 0) == prepend(acc, lex_top(s, cursor.pos())),
        decreases s.len() - cursor.pos(),
    {
        let p = cursor.index;
        let ghost toks = toks_of(output@);
        let c = match cursor.get(0) {
            Some(c) => c,
            None => {
                push_token(&mut cursor, &mut output, TokenKind::EndOfInput);
                proof {
                    let n = s.len() as int;
                    assert(toks.push((TokenKind::EndOfInput, n, n)) =~= acc + seq![(TokenKind::EndOfInput, n, n)]);
                }
                return Some(output);
            },
        };
        if c == '@' || c == '(' || c == ')' || single(c).is_some() {
            let kind = if c == '@' {
                TokenKind::At
            } else if c == '(' {
                TokenKind::LambdaBegin
            } else if c == ')' {
                TokenKind::LambdaEnd
            } else {
                single(c).unwrap()
            };
            cursor.incr(1);
            push_token(&mut cursor, &mut output, kind);
            proof {
                let t = seq![(kind, p as int, p + 1)];
                lemma_prepend_assoc(acc, t, lex_top(s, cursor.pos()));
                assert(toks.push(t[0]) =~= acc + t);
                acc = acc + t;
            }
        } else if c == '\n' {
            cursor.incr(1);
            let _ = cursor.emit_token(TokenKind::NewLine);
        } else if c == '#' {
            cursor.incr(1);
            run(&mut cursor, |x: char| -> (r: bool) ensures r == is_comment_char(x) { x != '\n' && x != '#' },
                Ghost(|x: char| is_comment_char(x)));
            proof {
                lemma_scan_bounds(s, p + 1, |x: char| is_comment_char(x));
            }
            push_token(&mut cursor, &mut output, TokenKind::Comment);
            proof {
                let t = seq![(TokenKind::Comment, p as int, cursor.pos())];
                lemma_prepend_assoc(acc, t, lex_top(s, cursor.pos()));
                assert(toks.push(t[0]) =~= acc + t);
                acc = acc + t;
            }
        } else if c == '\t' || c == ' ' {
            proof {
                lemma_scan_bounds(s, p as int, |x: char| is_space_char(x));
            }
            run(&mut cursor, |x: char| -> (r: bool) ensures r == is_space_char(x) { x == '\t' || x == ' ' },
                Ghost(|x: char| is_space_char(x)));
            let _ = cursor.emit_token(TokenKind::WhiteSpace);
        } else if c == '=' && cursor.next_is(1, '>') {
            cursor.incr(2);
            push_token(&mut cursor, &mut output, TokenKind::WideArrow);
            proof {
                let t = seq![(TokenKind::WideArrow, p as int, p + 2)];
                lemma_prepend_assoc(acc, t, lex_top(s, cursor.pos()));
                assert(toks.push(t[0]) =~= acc + t);
                acc = acc + t;
            }
        } else if c == '=' {
            cursor.incr(1);
            push_token(&mut cursor, &mut output, TokenKind::Equals);
            proof {
                let t = seq![(TokenKind::Equals, p as int, p + 1)];
                lemma_prepend_assoc(acc, t, lex_top(s, cursor.pos()));
                assert(toks.push(t[0]) =~= acc + t);
                acc = acc + t;
            }
        } else if c == '/' {
            proof {
                lemma_scan_bounds(s, p as int, |x: char| is_route_char(x));
            }
            run(&mut cursor, |x: char| -> (r: bool) ensures r == is_route_char(x) { !is_whitespace(x) },
                Ghost(|x: char| is_route_char(x)));
            push_token(&mut cursor, &mut output, TokenKind::Route);
            proof {
                let t = seq![(TokenKind::Route, p as int, cursor.pos())];
                lemma_prepend_assoc(acc, t, lex_top(s, cursor.pos()));
                assert(toks.push(t[0]) =~= acc + t);
                acc = acc + t;
            }
        } else if c == '{' || c == '"' {
            if !tokenize_string_template(&mut cursor, &mut output) {
                return None;
            }
            proof {
                let t = lex_template(s, p as int).unwrap().0;
                lemma_prepend_assoc(acc, t, lex_top(s, cursor.pos()));
                acc = acc + t;
            }
        } else if is_alphabetic(c) {
            proof {
                lemma_scan_bounds(s, p as int, |x: char| is_ident_char(x));
            }
            run(&mut cursor, |x: char| -> (r: bool) ensures r == is_ident_char(x) { is_alphabetic(x) || x == '_' },
                Ghost(|x: char| is_ident_char(x)));
            push_token(&mut cursor, &mut output, TokenKind::Identifier);
            proof {
                let t = seq![(TokenKind::Identifier, p as int, cursor.pos())];
                lemma_prepend_assoc(acc, t, lex_top(s, cursor.pos()));
                assert(toks.push(t[0]) =~= acc + t);
                acc = acc + t;
            }
        } else if is_digit(c) {
            proof {
                lemma_scan_bounds(s, p as int, |x: char| is_decimal_digit(x));
            }
            run(&mut cursor, |x: char| -> (r: bool) ensures r == is_decimal_digit(x) { is_digit(x) },
                Ghost(|x: char| is_decimal_digit(x)));
            push_token(&mut cursor, &mut output, TokenKind::IntLiteral);
            proof {
                let t = seq![(TokenKind::IntLiteral, p as int, cursor.pos())];
                lemma_prepend_assoc(acc, t, lex_top(s, cursor.pos()));
                assert(toks.push(t[0]) =~= acc + t);
                acc = acc + t;
            }
        } else {
            return None;
        }
    }
}

/// Cuts `input` into tokens, dropping white space and line breaks, and ending
/// with an `EndOfInput` token. The lexer has no rule for some characters (a
/// backslash or a double quote inside a template, ...); `input`
/// must not hold them where the lexer would meet them.
pub fn tokenize(input: &str) -> (r: Vec<Token>)
    requires
        lexable(input@),
    ensures
        lex_top(input@, 0) == Some(toks_of(r@)),
        texts_match(r@, input@),
        tiles(input@, toks_of(r@), 0, input@.len() as int),
        r@.len() >= 1,
        r@.last().kind == TokenKind::EndOfInput,
        r@.last().start == input@.len() && r@.last().end == input@.len(),
        forall|i: int| 0 <= i < r@.len() - 1 ==> kept_kind(#[trigger] r@[i].kind),
{
    let chars = chars_of(input);
    let r = lex_all(chars.as_slice()).unwrap();
    proof {
        lemma_token_list(input@, r@);
    }
    r
}

/// Cuts `input` into tokens as `tokenize` does, or returns `None` on an input
/// that `tokenize` does not accept.
pub fn try_tokenize(input: &str) -> (r: Option<Vec<Token>>)
    ensures
        match r {
            Some(v) => lex_top(input@, 0) == Some(toks_of(v@)) && texts_match(v@, input@)
                && tiles(input@, toks_of(v@), 0, input@.len() as int) && v@.len() >= 1 && v@.last().kind == TokenKind::EndOfInput
                && v@.last().start == input@.len() && v@.last().end == input@.len()
                && forall|i: int| 0 <= i < v@.len() - 1 ==> kept_kind(#[trigger] v@[i].kind),
            None => !lexable(input@),
        },
{
    let chars = chars_of(input);
    let r = lex_all(chars.as_slice());
    proof {
        if r is Some {
            lemma_token_list(input@, r->0@);
        }
    }
    r
}

/// What the lexer's result says of a token list: it is not empty, it ends
/// with `EndOfInput` at the end of the input, and holds no white space,
/// line break or other end before that.
proof fn lemma_token_list(s: Seq<char>, v: Seq<Token>)
    requires
        lex_top(s, 0) == Some(toks_of(v)),
    ensures
        tiles(s, toks_of(v), 0, s.len() as int),
        v.len() >= 1,
        v.last().kind == TokenKind::EndOfInput,
        v.last().start == s.len() && v.last().end == s.len(),
        forall|i: int| 0 <= i < v.len() - 1 ==> kept_kind(#[trigger] v[i].kind),
{
    lemma_tiles_top(s, 0);
    lemma_tokens_kept(s);
    let t = toks_of(v);
    assert(t.len() == v.len());
    assert(t[t.len() - 1] == v[v.len() - 1]@);
    assert forall|i: int| 0 <= i < v.len() - 1 implies kept_kind(#[trigger] v[i].kind) by {
        assert(kept_kind(lex_top(s, 0).unwrap()[i].0));
        assert(t[i] == v[i]@);
    }
}

// ------------------------------------------------------------------
// What the lexer keeps of its input.
// ------------------------------------------------------------------

/// The characters the lexer drops between tokens.
pub open spec fn is_blank(c: char) -> bool {
    c == ' ' || c == '\t' || c == '\n'
}

/// Position `k` lies inside one of the tokens.
pub open spec fn covered(t: Seq<Tok>, k: int) -> bool {
    exists|i: int| 0 <= i < t.len() && (#[trigger] t[i]).1 <= k < t[i].2
}

/// The tokens `t` lie in order inside `lo..hi` of `s`, without overlapping,
/// and every character of `lo..hi` that no token holds is a blank.
pub open spec fn tiles(s: Seq<char>, t: Seq<Tok>, lo: int, hi: int) -> bool {
    &&& 0 <= lo <= hi <= s.len()
    &&& forall|i: int| 0 <= i < t.len() ==> lo <= (#[trigger] t[i]).1 <= t[i].2 <= hi
    &&& forall|i: int, j: int| 0 <= i < j < t.len() ==> (#[trigger] t[i]).2 <= (#[trigger] t[j]).1
    &&& forall|k: int| lo <= k < hi ==> is_blank(#[trigger] s[k]) || covered(t, k)
}

proof fn lemma_tiles_empty(s: Seq<char>, q: int)
    requires
        0 <= q <= s.len(),
    ensures
        tiles(s, seq![], q, q),
{
}

proof fn lemma_tiles_single(s: Seq<char>, kind: TokenKind, a: int, b: int)
    requires
        0 <= a <= b <= s.len(),
    ensures
        tiles(s, seq![(kind, a, b)], a, b),
{
    let t = seq![(kind, a, b)];
    assert forall|k: int| a <= k < b implies is_blank(#[trigger] s[k]) || covered(t, k) by {
        assert(t[0].1 <= k < t[0].2);
    }
}

proof fn lemma_tiles_concat(s: Seq<char>, a: Seq<Tok>, b: Seq<Tok>, lo: int, mid: int, hi: int)
    requires
        tiles(s, a, lo, mid),
        tiles(s, b, mid, hi),
    ensures
        tiles(s, a + b, lo, hi),
{
    let t = a + b;
    assert forall|i: int| 0 <= i < t.len() implies lo <= (#[trigger] t[i]).1 <= t[i].2 <= hi by {
        if i < a.len() {
            assert(t[i] == a[i]);
        } else {
            assert(t[i] == b[i - a.len()]);
        }
    }
    assert forall|i: int, j: int| 0 <= i < j < t.len() implies (#[trigger] t[i]).2 <= (#[trigger] t[j]).1 by {
        if j < a.len() {
            assert(t[i] == a[i] && t[j] == a[j]);
        } else if i >= a.len() {
            assert(t[i] == b[i - a.len()] && t[j] == b[j - a.len()]);
        } else {
            assert(t[i] == a[i] && t[j] == b[j - a.len()]);
        }
    }
    assert forall|k: int| lo <= k < hi implies is_blank(#[trigger] s[k]) || covered(t, k) by {
        if !is_blank(s[k]) {
            if k < mid {
                let i = choose|i: int| 0 <= i < a.len() && (#[trigger] a[i]).1 <= k < a[i].2;
                assert(t[i] == a[i]);
            } else {
                let i = choose|i: int| 0 <= i < b.len() && (#[trigger] b[i]).1 <= k < b[i].2;
                assert(t[i + a.len()] == b[i]);
            }
        }
    }
}

proof fn lemma_tiles_blank(s: Seq<char>, t: Seq<Tok>, lo: int, lo2: int, hi: int)
    requires
        0 <= lo <= lo2,
        forall|k: int| lo <= k < lo2 ==> is_blank(#[trigger] s[k]),
        tiles(s, t, lo2, hi),
    ensures
        tiles(s, t, lo, hi),
{
}

/// A run that `scan` finds of characters that pass a blank-only test is blank.
proof fn lemma_scan_blank(s: Seq<char>, p: int, pred: spec_fn(char) -> bool)
    requires
        0 <= p <= s.len(),
        forall|c: char| pred(c) ==> is_blank(c),
    ensures
        forall|k: int| p <= k < scan(s, p, pred) ==> is_blank(#[trigger] s[k]),
    decreases s.len() - p,
{
    if p < s.len() && pred(s[p]) {
        lemma_scan_blank(s, p + 1, pred);
    }
}

proof fn lemma_tiles_template(s: Seq<char>, p: int)
    requires
        0 <= p <= s.len(),
    ensures
        lex_template(s, p) matches Some((t, q)) ==> tiles(s, t, p, q),
    decreases s.len() - p, 0int,
{
    if 0 <= p < s.len() {
        lemma_tiles_body(s, p + 1);
        if let Some((t, q)) = lex_template_body(s, p + 1) {
            lemma_tiles_single(s, TokenKind::TemplateOpen, p, p + 1);
            lemma_tiles_concat(s, seq![(TokenKind::TemplateOpen, p, p + 1)], t, p, p + 1, q);
        }
    }
}

#[verifier::rlimit(40)]
proof fn lemma_tiles_body(s: Seq<char>, q: int)
    requires
        0 <= q <= s.len(),
    ensures
        lex_template_body(s, q) matches Some((t, r)) ==> tiles(s, t, q, r),
    decreases s.len() - q, 1int,
{
    if q >= s.len() {
        return;
    }
    let c = s[q];
    if c == '}' {
        lemma_tiles_single(s, TokenKind::TemplateClose, q, q + 1);
    } else if c == '{' {
        lemma_tiles_template(s, q);
        if let Some((t, q2)) = lex_template(s, q) {
            if q < q2 <= s.len() {
                lemma_tiles_body(s, q2);
                if let Some((u, r)) = lex_template_body(s, q2) {
                    lemma_tiles_concat(s, t, u, q, q2, r);
                }
            }
        }
    } else if c == '$' {
        let d = (TokenKind::Dollar, q, q + 1);
        lemma_tiles_single(s, TokenKind::Dollar, q, q + 1);
        let mid: Option<(Seq<Tok>, int)> = if q + 1 < s.len() && s[q + 1] == '(' {
            prepend_at(seq![d, (TokenKind::LambdaBegin, q + 1, q + 2)], lex_inner(s, q + 2))
        } else {
            let q2 = scan(s, q + 1, |x: char| char_is_alphabetic(x));
            Some((seq![d, (TokenKind::Identifier, q + 1, q2)], q2))
        };
        if q + 1 < s.len() && s[q + 1] == '(' {
            lemma_tiles_inner(s, q + 2);
            if let Some((u, r)) = lex_inner(s, q + 2) {
                lemma_tiles_single(s, TokenKind::LambdaBegin, q + 1, q + 2);
                lemma_tiles_concat(s, seq![d], seq![(TokenKind::LambdaBegin, q + 1, q + 2)], q, q + 1, q + 2);
                assert(seq![d] + seq![(TokenKind::LambdaBegin, q + 1, q + 2)] =~= seq![d, (TokenKind::LambdaBegin, q + 1, q + 2)]);
                lemma_tiles_concat(s, seq![d, (TokenKind::LambdaBegin, q + 1, q + 2)], u, q, q + 2, r);
            }
        } else {
            let q2 = scan(s, q + 1, |x: char| char_is_alphabetic(x));
            lemma_scan_bounds(s, q + 1, |x: char| char_is_alphabetic(x));
            lemma_tiles_single(s, TokenKind::Identifier, q + 1, q2);
            lemma_tiles_concat(s, seq![d], seq![(TokenKind::Identifier, q + 1, q2)], q, q + 1, q2);
            assert(seq![d] + seq![(TokenKind::Identifier, q + 1, q2)] =~= seq![d, (TokenKind::Identifier, q + 1, q2)]);
        }
        if let Some((t, r)) = mid {
            assert(tiles(s, t, q, r));
            if 0 <= r < s.len() && s[r] == '$' {
                lemma_tiles_single(s, TokenKind::Dollar, r, r + 1);
                lemma_tiles_concat(s, t, seq![(TokenKind::Dollar, r, r + 1)], q, r, r + 1);
                assert(t + seq![(TokenKind::Dollar, r, r + 1)] =~= t.push((TokenKind::Dollar, r, r + 1)));
            }
            let (t2, r2) = if 0 <= r < s.len() && s[r] == '$' {
                (t.push((TokenKind::Dollar, r, r + 1)), r + 1)
            } else {
                (t, r)
            };
            if q < r2 <= s.len() {
                lemma_tiles_body(s, r2);
                if let Some((u, r3)) = lex_template_body(s, r2) {
                    lemma_tiles_concat(s, t2, u, q, r2, r3);
                }
            }
        }
    } else if c == '\\' || c == '"' {
    } else {
        let q2 = scan(s, q, |x: char| is_text_char(x));
        if q < q2 <= s.len() {
            lemma_tiles_single(s, TokenKind::TemplateText, q, q2);
            lemma_tiles_body(s, q2);
            if let Some((u, r)) = lex_template_body(s, q2) {
                lemma_tiles_concat(s, seq![(TokenKind::TemplateText, q, q2)], u, q, q2, r);
            }
        }
    }
}

#[verifier::rlimit(40)]
proof fn lemma_tiles_inner(s: Seq<char>, q: int)
    requires
        0 <= q <= s.len(),
    ensures
        lex_inner(s, q) matches Some((t, r)) ==> tiles(s, t, q, r),
    decreases s.len() - q, 1int,
{
    if q >= s.len() {
        return;
    }
    let c = s[q];
    if single_kind(c) is Some {
        lemma_tiles_single(s, single_kind(c)->0, q, q + 1);
        lemma_tiles_inner(s, q + 1);
        if let Some((u, r)) = lex_inner(s, q + 1) {
            lemma_tiles_concat(s, seq![(single_kind(c)->0, q, q + 1)], u, q, q + 1, r);
        }
    } else if c == '\n' {
        lemma_tiles_inner(s, q + 1);
    } else if c == '(' {
        lemma_tiles_inner(s, q + 1);
        if let Some((t, q2)) = lex_inner(s, q + 1) {
            if q < q2 <= s.len() {
                lemma_tiles_single(s, TokenKind::LambdaBegin, q, q + 1);
                lemma_tiles_concat(s, seq![(TokenKind::LambdaBegin, q, q + 1)], t, q, q + 1, q2);
                lemma_tiles_inner(s, q2);
                if let Some((u, r)) = lex_inner(s, q2) {
                    lemma_tiles_concat(s, seq![(TokenKind::LambdaBegin, q, q + 1)] + t, u, q, q2, r);
                }
            }
        }
    } else if c == ')' {
        lemma_tiles_single(s, TokenKind::LambdaEnd, q, q + 1);
    } else if is_space_char(c) {
        let q2 = scan(s, q, |x: char| is_space_char(x));
        if q < q2 <= s.len() {
            lemma_scan_blank(s, q, |x: char| is_space_char(x));
            lemma_tiles_inner(s, q2);
            if let Some((u, r)) = lex_inner(s, q2) {
                lemma_tiles_blank(s, u, q, q2, r);
            }
        }
    } else if c == '{' || c == '"' {
        lemma_tiles_template(s, q);
        if let Some((t, q2)) = lex_template(s, q) {
            if q < q2 <= s.len() {
                lemma_tiles_inner(s, q2);
                if let Some((u, r)) = lex_inner(s, q2) {
                    lemma_tiles_concat(s, t, u, q, q2, r);
                }
            }
        }
    } else if char_is_alphabetic(c) || is_decimal_digit(c) {
        let kind = if char_is_alphabetic(c) { TokenKind::Identifier } else { TokenKind::IntLiteral };
        let q2 = if char_is_alphabetic(c) {
            scan(s, q, |x: char| is_ident_char(x))
        } else {
            scan(s, q, |x: char| is_decimal_digit(x))
        };
        if q < q2 <= s.len() {
            lemma_tiles_single(s, kind, q, q2);
            lemma_tiles_inner(s, q2);
            if let Some((u, r)) = lex_inner(s, q2) {
                lemma_tiles_concat(s, seq![(kind, q, q2)], u, q, q2, r);
            }
        }
    }
}

#[verifier::rlimit(40)]
proof fn lemma_tiles_top(s: Seq<char>, p: int)
    requires
        0 <= p <= s.len(),
    ensures
        lex_top(s, p) matches Some(t) ==> tiles(s, t, p, s.len() as int)
            && t.len() > 0 && t.last() == (TokenKind::EndOfInput, s.len() as int, s.len() as int),
    decreases s.len() - p,
{
    let n = s.len() as int;
    if p >= n {
        lemma_tiles_single(s, TokenKind::EndOfInput, n, n);
        return;
    }
    let c = s[p];
    // the tokens this step produces, the place where the rest begins, and
    // whether the step drops its characters as blanks
    let step: Option<(Seq<Tok>, int)> = if c == '@' {
        Some((seq![(TokenKind::At, p, p + 1)], p + 1))
    } else if single_kind(c) is Some {
        Some((seq![(single_kind(c)->0, p, p + 1)], p + 1))
    } else if c == '\n' {
        Some((seq![], p + 1))
    } else if c == '(' {
        Some((seq![(TokenKind::LambdaBegin, p, p + 1)], p + 1))
    } else if c == ')' {
        Some((seq![(TokenKind::LambdaEnd, p, p + 1)], p + 1))
    } else if c == '#' {
        let q = scan(s, p + 1, |x: char| is_comment_char(x));
        Some((seq![(TokenKind::Comment, p, q)], q))
    } else if is_space_char(c) {
        Some((seq![], scan(s, p, |x: char| is_space_char(x))))
    } else if c == '=' && p + 1 < s.len() && s[p + 1] == '>' {
        Some((seq![(TokenKind::WideArrow, p, p + 2)], p + 2))
    } else if c == '=' {
        Some((seq![(TokenKind::Equals, p, p + 1)], p + 1))
    } else if c == '/' {
        let q = scan(s, p, |x: char| is_route_char(x));
        Some((seq![(TokenKind::Route, p, q)], q))
    } else if c == '{' || c == '"' {
        lex_template(s, p)
    } else if char_is_alphabetic(c) {
        let q = scan(s, p, |x: char| is_ident_char(x));
        Some((seq![(TokenKind::Identifier, p, q)], q))
    } else if is_decimal_digit(c) {
        let q = scan(s, p, |x: char| is_decimal_digit(x));
        Some((seq![(TokenKind::IntLiteral, p, q)], q))
    } else {
        None
    };
    if c == '#' {
        lemma_scan_bounds(s, p + 1, |x: char| is_comment_char(x));
    } else if is_space_char(c) {
        lemma_scan_blank(s, p, |x: char| is_space_char(x));
    } else if c == '/' {
        lemma_scan_bounds(s, p, |x: char| is_route_char(x));
    } else if c == '{' || c == '"' {
        lemma_tiles_template(s, p);
    } else if char_is_alphabetic(c) {
        lemma_scan_bounds(s, p, |x: char| is_ident_char(x));
    } else if is_decimal_digit(c) {
        lemma_scan_bounds(s, p, |x: char| is_decimal_digit(x));
    }
    if let Some((t, q)) = step {
        if p < q <= n {
            if t.len() == 1 && !(c == '{' || c == '"') {
                lemma_tiles_single(s, t[0].0, t[0].1, t[0].2);
                assert(t =~= seq![(t[0].0, t[0].1, t[0].2)]);
            }
            if t.len() == 0 {
                lemma_tiles_empty(s, q);
            }
            lemma_tiles_top(s, q);
            if let Some(u) = lex_top(s, q) {
                if t.len() == 0 {
                    lemma_tiles_blank(s, u, p, q, n);
                    assert(lex_top(s, p) == Some(u));
                } else {
                    lemma_tiles_concat(s, t, u, p, q, n);
                    assert(lex_top(s, p) == Some(t + u));
                    assert((t + u).last() == u.last());
                }
            }
        }
    }
}

/// The lexer loses nothing but blanks: its tokens lie in order over the
/// input without overlapping, every character that no token holds is a space,
/// a tab or a line break, and the last token is `EndOfInput` at the end.
pub proof fn lemma_tokens_tile_input(s: Seq<char>)
    requires
        lexable(s),
    ensures
        tiles(s, lex_top(s, 0).unwrap(), 0, s.len() as int),
        lex_top(s, 0).unwrap().last() == (TokenKind::EndOfInput, s.len() as int, s.len() as int),
{
    lemma_tiles_top(s, 0);
}


/// The kinds of token that the lexer hands out before its last one: all
/// but white space, line breaks and the end of the input.
pub open spec fn kept_kind(k: TokenKind) -> bool {
    k != TokenKind::EndOfInput && k != TokenKind::WhiteSpace && k != TokenKind::NewLine
}

pub open spec fn all_kept(t: Seq<Tok>) -> bool {
    forall|i: int| 0 <= i < t.len() ==> kept_kind(#[trigger] t[i].0)
}

proof fn lemma_all_kept_concat(a: Seq<Tok>, b: Seq<Tok>)
    requires
        all_kept(a),
        all_kept(b),
    ensures
        all_kept(a + b),
{
    assert forall|i: int| 0 <= i < (a + b).len() implies kept_kind(#[trigger] (a + b)[i].0) by {
        if i < a.len() {
            assert((a + b)[i] == a[i]);
        } else {
            assert((a + b)[i] == b[i - a.len()]);
        }
    }
}

proof fn lemma_kinds_template(s: Seq<char>, p: int)
    ensures
        lex_template(s, p) matches Some((t, _)) ==> all_kept(t),
    decreases s.len() - p, 0int,
{
    if 0 <= p < s.len() {
        lemma_kinds_body(s, p + 1);
        if let Some((t, _)) = lex_template_body(s, p + 1) {
            lemma_all_kept_concat(seq![(TokenKind::TemplateOpen, p, p + 1)], t);
        }
    }
}

proof fn lemma_kinds_body(s: Seq<char>, q: int)
    ensures
        lex_template_body(s, q) matches Some((t, _)) ==> all_kept(t),
    decreases s.len() - q, 1int,
{
    if 0 <= q < s.len() {
        let c = s[q];
        if c == '{' {
            lemma_kinds_template(s, q);
            if let Some((t, q2)) = lex_template(s, q) {
                if q < q2 <= s.len() {
                    lemma_kinds_body(s, q2);
                    if let Some((u, _)) = lex_template_body(s, q2) {
                        lemma_all_kept_concat(t, u);
                    }
                }
            }
        } else if c == '$' {
            let d = (TokenKind::Dollar, q, q + 1);
            let mid: Option<(Seq<Tok>, int)> = if q + 1 < s.len() && s[q + 1] == '(' {
                prepend_at(seq![d, (TokenKind::LambdaBegin, q + 1, q + 2)], lex_inner(s, q + 2))
            } else {
                let q2 = scan(s, q + 1, |x: char| char_is_alphabetic(x));
                Some((seq![d, (TokenKind::Identifier, q + 1, q2)], q2))
            };
            if q + 1 < s.len() && s[q + 1] == '(' {
                lemma_kinds_inner(s, q + 2);
                if let Some((it, _)) = lex_inner(s, q + 2) {
                    lemma_all_kept_concat(seq![d, (TokenKind::LambdaBegin, q + 1, q + 2)], it);
                }
            }
            if let Some((t, r)) = mid {
                let (t2, r2) = if 0 <= r < s.len() && s[r] == '$' {
                    (t.push((TokenKind::Dollar, r, r + 1)), r + 1)
                } else {
                    (t, r)
                };
                if t2 != t {
                    lemma_all_kept_concat(t, seq![(TokenKind::Dollar, r, r + 1)]);
                    assert(t.push((TokenKind::Dollar, r, r + 1)) =~= t + seq![(TokenKind::Dollar, r, r + 1)]);
                }
                if q < r2 <= s.len() {
                    lemma_kinds_body(s, r2);
                    if let Some((u, _)) = lex_template_body(s, r2) {
                        lemma_all_kept_concat(t2, u);
                    }
                }
            }
        } else if c != '}' && c != '\\' && c != '"' {
            let q2 = scan(s, q, |x: char| is_text_char(x));
            if q < q2 <= s.len() {
                lemma_kinds_body(s, q2);
                if let Some((u, _)) = lex_template_body(s, q2) {
                    lemma_all_kept_concat(seq![(TokenKind::TemplateText, q, q2)], u);
                }
            }
        }
    }
}

proof fn lemma_kinds_inner(s: Seq<char>, q: int)
    ensures
        lex_inner(s, q) matches Some((t, _)) ==> all_kept(t),
    decreases s.len() - q, 1int,
{
    if 0 <= q < s.len() {
        let c = s[q];
        if single_kind(c) is Some {
            lemma_kinds_inner(s, q + 1);
            if let Some((u, _)) = lex_inner(s, q + 1) {
                lemma_all_kept_concat(seq![(single_kind(c)->0, q, q + 1)], u);
            }
        } else if c == '\n' {
            lemma_kinds_inner(s, q + 1);
        } else if c == '(' {
            lemma_kinds_inner(s, q + 1);
            if let Some((t, q2)) = lex_inner(s, q + 1) {
                if q < q2 <= s.len() {
                    lemma_kinds_inner(s, q2);
                    lemma_all_kept_concat(seq![(TokenKind::LambdaBegin, q, q + 1)], t);
                    if let Some((u, _)) = lex_inner(s, q2) {
                        lemma_all_kept_concat(seq![(TokenKind::LambdaBegin, q, q + 1)] + t, u);
                    }
                }
            }
        } else if is_space_char(c) {
            let q2 = scan(s, q, |x: char| is_space_char(x));
            if q < q2 <= s.len() {
                lemma_kinds_inner(s, q2);
            }
        } else if c == '{' || c == '"' {
            lemma_kinds_template(s, q);
            if let Some((t, q2)) = lex_template(s, q) {
                if q < q2 <= s.len() {
                    lemma_kinds_inner(s, q2);
                    if let Some((u, _)) = lex_inner(s, q2) {
                        lemma_all_kept_concat(t, u);
                    }
                }
            }
        } else if c != ')' {
            let q2 = if char_is_alphabetic(c) {
                scan(s, q, |x: char| is_ident_char(x))
            } else {
                scan(s, q, |x: char| is_decimal_digit(x))
            };
            let k = if char_is_alphabetic(c) { TokenKind::Identifier } else { TokenKind::IntLiteral };
            if q < q2 <= s.len() {
                lemma_kinds_inner(s, q2);
                if let Some((u, _)) = lex_inner(s, q2) {
                    lemma_all_kept_concat(seq![(k, q, q2)], u);
                }
            }
        }
    }
}

proof fn lemma_kinds_top(s: Seq<char>, p: int)
    ensures
        lex_top(s, p) matches Some(t) ==> t.len() > 0 && all_kept(t.drop_last()),
    decreases s.len() - p,
{
    if p < 0 {
        return;
    }
    if p >= s.len() {
        assert(seq![(TokenKind::EndOfInput, p, p)].drop_last() =~= Seq::<Tok>::empty());
        return;
    }
    let c = s[p];
    let step: Option<(Seq<Tok>, int)> = if c == '@' {
        Some((seq![(TokenKind::At, p, p + 1)], p + 1))
    } else if single_kind(c) is Some {
        Some((seq![(single_kind(c)->0, p, p + 1)], p + 1))
    } else if c == '\n' {
        Some((seq![], p + 1))
    } else if c == '(' {
        Some((seq![(TokenKind::LambdaBegin, p, p + 1)], p + 1))
    } else if c == ')' {
        Some((seq![(TokenKind::LambdaEnd, p, p + 1)], p + 1))
    } else if c == '#' {
        let q = scan(s, p + 1, |x: char| is_comment_char(x));
        Some((seq![(TokenKind::Comment, p, q)], q))
    } else if is_space_char(c) {
        Some((seq![], scan(s, p, |x: char| is_space_char(x))))
    } else if c == '=' && p + 1 < s.len() && s[p + 1] == '>' {
        Some((seq![(TokenKind::WideArrow, p, p + 2)], p + 2))
    } else if c == '=' {
        Some((seq![(TokenKind::Equals, p, p + 1)], p + 1))
    } else if c == '/' {
        let q = scan(s, p, |x: char| is_route_char(x));
        Some((seq![(TokenKind::Route, p, q)], q))
    } else if c == '{' || c == '"' {
        lex_template(s, p)
    } else if char_is_alphabetic(c) {
        let q = scan(s, p, |x: char| is_ident_char(x));
        Some((seq![(TokenKind::Identifier, p, q)], q))
    } else if is_decimal_digit(c) {
        let q = scan(s, p, |x: char| is_decimal_digit(x));
        Some((seq![(TokenKind::IntLiteral, p, q)], q))
    } else {
        None
    };
    if c == '{' || c == '"' {
        lemma_kinds_template(s, p);
    }
    if let Some((t, q)) = step {
        if p < q <= s.len() {
            lemma_kinds_top(s, q);
            if let Some(u) = lex_top(s, q) {
                assert(lex_top(s, p) == Some(t + u));
                lemma_all_kept_concat(t, u.drop_last());
                assert((t + u).drop_last() =~= t + u.drop_last());
            }
        }
    }
}

/// The lexer hands out no white space and no line breaks, and the end of
/// the input comes last and only there.
pub proof fn lemma_tokens_kept(s: Seq<char>)
    requires
        lexable(s),
    ensures
        forall|i: int| 0 <= i < lex_top(s, 0).unwrap().len() - 1 ==> kept_kind(#[trigger] lex_top(s, 0).unwrap()[i].0),
        lex_top(s, 0).unwrap().last().0 == TokenKind::EndOfInput,
{
    lemma_kinds_top(s, 0);
    lemma_tiles_top(s, 0);
    let t = lex_top(s, 0).unwrap();
    assert forall|i: int| 0 <= i < t.len() - 1 implies kept_kind(#[trigger] t[i].0) by {
        assert(t[i] == t.drop_last()[i]);
    }
}

} // verus!
