//! The serv parser: builds templates, expressions and declarations out of
//! the lexer's tokens.

use vstd::prelude::*;
use crate::ast::{
    Word, Expression, TemplateElement, Template, Declaration, AstRoot,
    WordV, ExpressionV, ElementV, TemplateV, PatternV, DeclarationV,
};
use crate::lexer::{Token, TokenKind, Tok, lex_top, lexable, toks_of, texts_match, tokenize, try_tokenize};
use crate::error::ServError;
use crate::text::string_of;
use vstd::string::StrSliceExecFns;
use vstd::string::StringExecFns;

verus! {

/// Why the parser stopped.
#[derive(Clone, Copy, Debug, PartialEq, Eq, Structural)]
pub enum ParseError {
    /// A token was needed past the end of the tokens.
    OutOfBounds,
    /// A declaration's next token was not of the kind it needs.
    UnexpectedToken,
    /// A template did not start with an opening bracket.
    FailedAssertion,
    /// A token that cannot stand inside a template.
    NotSupportedInTemplate,
    /// A word was needed past the end of the tokens.
    EndOfInput,
    /// A token that cannot start a word.
    UnhandledToken,
    /// The token at this place cannot start a declaration.
    InvalidStart(usize),
    /// An integer literal that the parser reads does not fit in an `i64`;
    /// the parser gives up on it.
    InvalidLiteral,
}

/// A token as the parser sees it: its kind and its text.
pub type PTok = (TokenKind, Seq<char>);

pub open spec fn ptoks(v: Seq<Token>) -> Seq<PTok> {
    v.map_values(|t: Token| (t.kind, t.contents@))
}

/// The value of a string of decimal digits.
pub open spec fn digits_value(s: Seq<char>) -> int
    decreases s.len(),
{
    if s.len() == 0 {
        0
    } else {
        digits_value(s.drop_last()) * 10 + (s.last() as int - '0' as int)
    }
}

/// Whether `s` is an integer literal that fits in an `i64`: one or more
/// decimal digits whose value is at most `i64::MAX`.
pub open spec fn literal_ok(s: Seq<char>) -> bool {
    &&& s.len() > 0
    &&& forall|i: int| 0 <= i < s.len() ==> '0' <= #[trigger] s[i] && s[i] <= '9'
    &&& digits_value(s) <= i64::MAX
}

/// Whether an expression's words end in a quoting word: the closing list
/// bracket `]`, or a parenthesised expression that does.
pub open spec fn is_meta(ws: Seq<WordV>) -> bool {
    ws.len() > 0 && match ws.last() {
        WordV::Function(t) => t == seq![']'],
        WordV::Parantheses(e) => e.meta,
        _ => false,
    }
}

/// One step forward, unless the tokens are used up.
pub open spec fn adv(ts: Seq<PTok>, i: int) -> int {
    if i < ts.len() { i + 1 } else { i }
}

/// The template that starts at `i`, and where the parser stands afterwards:
/// on its closing bracket.
pub open spec fn spec_parse_template(ts: Seq<PTok>, i: int) -> (Result<TemplateV, ParseError>, int)
    decreases ts.len() - i, 0int,
{
    if i < 0 || i >= ts.len() {
        (Err(ParseError::OutOfBounds), i)
    } else if ts[i].0 != TokenKind::TemplateOpen {
        (Err(ParseError::FailedAssertion), i)
    } else {
        spec_template_elements(ts, i + 1, ts[i].1, seq![])
    }
}

/// The elements of a template from `j` on, after `elems` have been read.
pub open spec fn spec_template_elements(ts: Seq<PTok>, j: int, open: Seq<char>, elems: Seq<ElementV>)
    -> (Result<TemplateV, ParseError>, int)
    decreases ts.len() - j, 1int,
{
    if j < 0 || j >= ts.len() {
        (Err(ParseError::OutOfBounds), j)
    } else {
        let t = ts[j];
        if t.0 == TokenKind::TemplateClose {
            (Ok(TemplateV { open, close: t.1, elements: elems }), j)
        } else if t.0 == TokenKind::TemplateText {
            spec_template_elements(ts, j + 1, open, elems.push(ElementV::Text(t.1)))
        } else if t.0 == TokenKind::Dollar {
            match spec_parse_word(ts, j + 1) {
                (Ok(w), j2) => if j < j2 <= ts.len() {
                    spec_template_elements(ts, j2, open, elems.push(ElementV::Expression(w)))
                } else {
                    (Err(ParseError::EndOfInput), j2)
                },
                (Err(e), j2) => (Err(e), j2),
            }
        } else if t.0 == TokenKind::TemplateOpen {
            match spec_parse_template(ts, j) {
                (Ok(inner), j2) => {
                    let j3 = adv(ts, j2);
                    if j < j3 <= ts.len() {
                        spec_template_elements(ts, j3, open, elems.push(ElementV::Template(inner)))
                    } else {
                        (Err(ParseError::EndOfInput), j3)
                    }
                },
                (Err(e), j2) => (Err(e), j2),
            }
        } else {
            (Err(ParseError::NotSupportedInTemplate), j)
        }
    }
}

/// The word that starts at `i`, and where the parser stands after it.
pub open spec fn spec_parse_word(ts: Seq<PTok>, i: int) -> (Result<WordV, ParseError>, int)
    decreases ts.len() - i, 1int,
{
    if i < 0 || i >= ts.len() {
        (Err(ParseError::EndOfInput), i)
    } else {
        let t = ts[i];
        if t.0 == TokenKind::Identifier || t.0 == TokenKind::ListEnd {
            (Ok(WordV::Function(t.1)), i + 1)
        } else if t.0 == TokenKind::IntLiteral {
            if literal_ok(t.1) {
                (Ok(WordV::Literal(digits_value(t.1))), i + 1)
            } else {
                (Err(ParseError::InvalidLiteral), i)
            }
        } else if t.0 == TokenKind::TemplateOpen {
            match spec_parse_template(ts, i) {
                (Ok(tt), j) => (Ok(WordV::Template(tt)), adv(ts, j)),
                (Err(e), j) => (Err(e), j),
            }
        } else if t.0 == TokenKind::LambdaBegin {
            match spec_parse_expression(ts, i + 1, seq![]) {
                (Ok(e), j) => (Ok(WordV::Parantheses(e)), adv(ts, j)),
                (Err(e), j) => (Err(e), j),
            }
        } else {
            (Err(ParseError::UnhandledToken), i)
        }
    }
}

/// The expression whose words start at `i`, after `acc` have been read: it
/// takes words until one fails to parse, and stops where that attempt stopped.
pub open spec fn spec_parse_expression(ts: Seq<PTok>, i: int, acc: Seq<WordV>)
    -> (Result<ExpressionV, ParseError>, int)
    decreases ts.len() - i, 2int,
{
    if i < 0 || i > ts.len() {
        (Err(ParseError::EndOfInput), i)
    } else {
        match spec_parse_word(ts, i) {
            (Ok(w), j) => if i < j <= ts.len() {
                spec_parse_expression(ts, j, acc.push(w))
            } else {
                (Err(ParseError::EndOfInput), j)
            },
            (Err(ParseError::InvalidLiteral), j) => (Err(ParseError::InvalidLiteral), j),
            (Err(_), j) => (Ok(ExpressionV { words: acc, meta: is_meta(acc) }), j),
        }
    }
}

/// The declaration that starts at `i`: `/route => expression` or
/// `@word => expression`.
pub open spec fn spec_parse_declaration(ts: Seq<PTok>, i: int) -> (Result<DeclarationV, ParseError>, int) {
    if 0 <= i < ts.len() && ts[i].0 == TokenKind::Route {
        if i + 1 < ts.len() && ts[i + 1].0 == TokenKind::WideArrow {
            match spec_parse_expression(ts, i + 2, seq![]) {
                (Ok(e), j) => (Ok(DeclarationV { kind: seq!['r', 'o', 'u', 't', 'e'], key: PatternV::Key(ts[i].1), value: e }), j),
                (Err(e), j) => (Err(e), j),
            }
        } else {
            (Err(ParseError::UnexpectedToken), i + 1)
        }
    } else if 0 <= i < ts.len() && ts[i].0 == TokenKind::At {
        if i + 1 < ts.len() && ts[i + 1].0 == TokenKind::Identifier {
            if i + 2 < ts.len() && ts[i + 2].0 == TokenKind::WideArrow {
                match spec_parse_expression(ts, i + 3, seq![]) {
                    (Ok(e), j) => (Ok(DeclarationV { kind: seq!['w', 'o', 'r', 'd'], key: PatternV::Key(ts[i + 1].1), value: e }), j),
                    (Err(e), j) => (Err(e), j),
                }
            } else {
                (Err(ParseError::UnexpectedToken), i + 2)
            }
        } else {
            (Err(ParseError::UnexpectedToken), i + 1)
        }
    } else {
        (Err(ParseError::InvalidStart(i as usize)), i)
    }
}

/// The declarations from `i` to the end of the tokens, after `acc` have been read.
pub open spec fn spec_parse_root(ts: Seq<PTok>, i: int, acc: Seq<DeclarationV>)
    -> (Result<Seq<DeclarationV>, ParseError>, int)
    decreases ts.len() - i,
{
    if i < 0 || i >= ts.len() {
        (Ok(acc), i)
    } else {
        match spec_parse_declaration(ts, i) {
            (Ok(d), j) => if i < j <= ts.len() {
                spec_parse_root(ts, j, acc.push(d))
            } else {
                (Err(ParseError::EndOfInput), j)
            },
            (Err(e), j) => (Err(e), j),
        }
    }
}

// ------------------------------------------------------------------
// The parser.
// ------------------------------------------------------------------

struct Parser<'t> {
    tokens: &'t Vec<Token>,
    pos: usize,
}

/// Reads an integer literal's digits into its value.
fn literal_value(s: &String) -> (r: i64)
    requires
        literal_ok(s@),
    ensures
        r as int == digits_value(s@),
{
    let chars = crate::text::chars_of(s.as_str());
    let mut value: i64 = 0;
    let mut i: usize = 0;
    while i < chars.len()
        invariant
            chars@ == s@,
            literal_ok(s@),
            0 <= i <= chars.len(),
            value >= 0,
            value as int == digits_value(chars@.take(i as int)),
        decreases chars.len() - i,
    {
        proof {
            assert(chars@.take(i + 1).drop_last() =~= chars@.take(i as int));
            lemma_digits_prefix(chars@, i + 1);
        }
        let d = chars[i];
        let digit = (d as u32 - '0' as u32) as i64;
        proof {
            assert(digits_value(chars@.take(i + 1)) == value as int * 10 + digit as int);
        }
        value = value * 10 + digit;
        i += 1;
    }
    assert(chars@.take(chars.len() as int) =~= chars@);
    value
}

/// A prefix of a digit string never has a larger value than the whole.
pub(crate) proof fn lemma_digits_prefix(s: Seq<char>, n: int)
    requires
        0 <= n <= s.len(),
        forall|i: int| 0 <= i < s.len() ==> '0' <= #[trigger] s[i] && s[i] <= '9',
    ensures
        0 <= digits_value(s.take(n)) <= digits_value(s),
    decreases s.len(),
{
    if s.len() > 0 {
        if n == s.len() {
            assert(s.take(n) =~= s);
            lemma_digits_prefix(s.drop_last(), n - 1);
            assert(s.drop_last().take(n - 1) =~= s.drop_last());
        } else {
            lemma_digits_prefix(s.drop_last(), n);
            assert(s.drop_last().take(n) =~= s.take(n));
        }
    }
}

/// Whether `s` is the single character `]`.
fn is_list_end_text(s: &String) -> (r: bool)
    ensures
        r == (s@ == seq![']']),
{
    let t = s.as_str();
    if t.unicode_len() != 1 {
        return false;
    }
    let c = t.get_char(0);
    proof {
        if c == ']' {
            assert(s@ =~= seq![']']);
        }
    }
    c == ']'
}

/// Whether an expression's words end in a quoting word.
fn words_are_meta(words: &Vec<Word>) -> (r: bool)
    ensures
        r == is_meta(Seq::new(words@.len(), |i: int| words@[i].view())),
{
    let ghost ws = Seq::new(words@.len(), |i: int| words@[i].view());
    if words.len() == 0 {
        return false;
    }
    let last = &words[words.len() - 1];
    assert(ws.last() == last.view());
    match last {
        Word::Function(t) => is_list_end_text(t),
        Word::Parantheses(e) => e.1,
        _ => false,
    }
}

impl<'t> Parser<'t> {
    spec fn ts(&self) -> Seq<PTok> {
        ptoks(self.tokens@)
    }

    fn new(tokens: &'t Vec<Token>) -> (r: Self)
        ensures
            r.ts() == ptoks(tokens@),
            r.pos == 0,
    {
        Self { tokens, pos: 0 }
    }

    fn advance(&mut self)
        ensures
            final(self).ts() == old(self).ts(),
            final(self).pos as int == adv(old(self).ts(), old(self).pos as int),
    {
        if self.pos < self.tokens.len() {
            self.pos += 1;
        }
    }

    /// The kind of the current token, if any is left.
    fn current_kind(&self) -> (r: Option<TokenKind>)
        ensures
            r == (if self.pos < self.ts().len() { Some(self.ts()[self.pos as int].0) } else { None }),
    {
        if self.pos < self.tokens.len() {
            Some(self.tokens[self.pos].kind)
        } else {
            None
        }
    }

    /// The text of the current token.
    fn current_text(&self) -> (r: String)
        requires
            self.pos < self.ts().len(),
        ensures
            r@ == self.ts()[self.pos as int].1,
    {
        self.tokens[self.pos].to_string()
    }

    /// Steps over the current token if it is of `kind`, and returns its text.
    fn next_if_kind(&mut self, kind: TokenKind) -> (r: Result<String, ParseError>)
        ensures
            final(self).ts() == old(self).ts(),
            match r {
                Ok(t) => old(self).pos < old(self).ts().len()
                    && old(self).ts()[old(self).pos as int].0 == kind
                    && t@ == old(self).ts()[old(self).pos as int].1
                    && final(self).pos == old(self).pos + 1,
                Err(e) => !(old(self).pos < old(self).ts().len() && old(self).ts()[old(self).pos as int].0 == kind)
                    && e == ParseError::UnexpectedToken
                    && final(self).pos == old(self).pos,
            },
    {
        if self.pos < self.tokens.len() && self.tokens[self.pos].kind == kind {
            let t = self.current_text();
            self.pos += 1;
            Ok(t)
        } else {
            Err(ParseError::UnexpectedToken)
        }
    }

    #[verifier::rlimit(40)]
    fn parse_template(&mut self) -> (r: Result<Template, ParseError>)
        requires
            old(self).pos <= old(self).ts().len(),
        ensures
            final(self).ts() == old(self).ts(),
            old(self).pos <= final(self).pos <= old(self).ts().len(),
            r is Ok ==> old(self).pos < final(self).pos < old(self).ts().len(),
            (match r { Ok(t) => Ok(t.view()), Err(e) => Err(e) }, final(self).pos as int)
                == spec_parse_template(old(self).ts(), old(self).pos as int),
        decreases old(self).ts().len() - old(self).pos, 0int,
    {
        let ghost ts = self.ts();
        let ghost i0 = self.pos as int;
        match self.current_kind() {
            None => return Err(ParseError::OutOfBounds),
            Some(k) => if k != TokenKind::TemplateOpen {
                return Err(ParseError::FailedAssertion);
            },
        }
        let open = self.current_text();
        self.advance();
        let mut elements: Vec<TemplateElement> = Vec::new();
        assert(Seq::new(elements@.len(), |i: int| elements@[i].view()) =~= Seq::<ElementV>::empty());
        loop
            invariant
                ts == old(self).ts(),
                i0 == old(self).pos as int,
                self.ts() == ts,
                i0 < self.pos <= ts.len(),
                spec_parse_template(ts, i0) == spec_template_elements(ts, self.pos as int, open@,
                    Seq::new(elements@.len(), |i: int| elements@[i].view())),
            decreases ts.len() - self.pos,
        {
            let ghost j = self.pos as int;
            let ghost elems = Seq::new(elements@.len(), |i: int| elements@[i].view());
            let kind = match self.current_kind() {
                None => return Err(ParseError::OutOfBounds),
                Some(k) => k,
            };
            if kind == TokenKind::TemplateClose {
                let close = self.current_text();
                let t = Template { open, close, elements };
                assert(t.view().elements =~= elems);
                return Ok(t);
            } else if kind == TokenKind::TemplateText {
                let text = self.current_text();
                self.advance();
                elements.push(TemplateElement::Text(text));
                assert(Seq::new(elements@.len(), |i: int| elements@[i].view()) =~= elems.push(ElementV::Text(ts[j].1)));
            } else if kind == TokenKind::Dollar {
                self.advance();
                let word = self.parse_word()?;
                elements.push(TemplateElement::Expression(word));
                assert(Seq::new(elements@.len(), |i: int| elements@[i].view()) =~= elems.push(ElementV::Expression(spec_parse_word(ts, j + 1).0->Ok_0)));
            } else if kind == TokenKind::TemplateOpen {
                let inner = self.parse_template()?;
                self.advance();
                elements.push(TemplateElement::Template(inner));
                assert(Seq::new(elements@.len(), |i: int| elements@[i].view()) =~= elems.push(ElementV::Template(spec_parse_template(ts, j).0->Ok_0)));
            } else {
                return Err(ParseError::NotSupportedInTemplate);
            }
        }
    }

    #[verifier::rlimit(40)]
    fn parse_word(&mut self) -> (r: Result<Word, ParseError>)
        requires
            old(self).pos <= old(self).ts().len(),
        ensures
            final(self).ts() == old(self).ts(),
            (match r { Ok(w) => Ok(w.view()), Err(e) => Err(e) }, final(self).pos as int)
                == spec_parse_word(old(self).ts(), old(self).pos as int),
            r is Ok ==> old(self).pos < final(self).pos <= old(self).ts().len(),
            old(self).pos <= final(self).pos <= old(self).ts().len(),
        decreases old(self).ts().len() - old(self).pos, 1int,
    {
        let ghost ts = self.ts();
        let ghost i = self.pos as int;
        let kind = match self.current_kind() {
            None => return Err(ParseError::EndOfInput),
            Some(k) => k,
        };
        let output = if kind == TokenKind::Identifier || kind == TokenKind::ListEnd {
            Word::Function(self.current_text())
        } else if kind == TokenKind::IntLiteral {
            let text = self.current_text();
            if !literal_fits(&text) {
                return Err(ParseError::InvalidLiteral);
            }
            Word::Literal(literal_value(&text))
        } else if kind == TokenKind::TemplateOpen {
            Word::Template(self.parse_template()?)
        } else if kind == TokenKind::LambdaBegin {
            self.advance();
            Word::Parantheses(self.parse_expression()?)
        } else {
            return Err(ParseError::UnhandledToken);
        };
        self.advance();
        Ok(output)
    }

    #[verifier::rlimit(40)]
    fn parse_expression(&mut self) -> (r: Result<Expression, ParseError>)
        requires
            old(self).pos <= old(self).ts().len(),
        ensures
            final(self).ts() == old(self).ts(),
            (match r { Ok(e) => Ok(e.view()), Err(e) => Err(e) }, final(self).pos as int)
                == spec_parse_expression(old(self).ts(), old(self).pos as int, seq![]),
            old(self).pos <= final(self).pos <= old(self).ts().len(),
        decreases old(self).ts().len() - old(self).pos, 2int,
    {
        let ghost ts = self.ts();
        let ghost i0 = self.pos as int;
        let mut output: Vec<Word> = Vec::new();
        assert(Seq::new(output@.len(), |i: int| output@[i].view()) =~= Seq::<WordV>::empty());
        loop
            invariant
                ts == old(self).ts(),
                i0 == old(self).pos as int,
                self.ts() == ts,
                i0 <= self.pos <= ts.len(),
                spec_parse_expression(ts, i0, seq![]) == spec_parse_expression(ts, self.pos as int,
                    Seq::new(output@.len(), |i: int| output@[i].view())),
            decreases ts.len() - self.pos,
        {
            let ghost acc = Seq::new(output@.len(), |i: int| output@[i].view());
            let ghost j = self.pos as int;
            match self.parse_word() {
                Ok(word) => {
                    output.push(word);
                    assert(Seq::new(output@.len(), |i: int| output@[i].view()) =~= acc.push(spec_parse_word(ts, j).0->Ok_0));
                },
                Err(ParseError::InvalidLiteral) => {
                    return Err(ParseError::InvalidLiteral);
                },
                Err(_) => {
                    let meta = words_are_meta(&output);
                    let e = Expression(output, meta);
                    assert(e.view().words =~= acc);
                    return Ok(e);
                },
            }
        }
    }

    fn parse_declaration(&mut self) -> (r: Result<Declaration, ParseError>)
        requires
            old(self).pos <= old(self).ts().len(),
        ensures
            final(self).ts() == old(self).ts(),
            (match r { Ok(d) => Ok(d.view()), Err(e) => Err(e) }, final(self).pos as int)
                == spec_parse_declaration(old(self).ts(), old(self).pos as int),
            r is Ok ==> old(self).pos < final(self).pos <= old(self).ts().len(),
            r is Err ==> final(self).pos <= old(self).ts().len(),
    {
        let ghost ts = self.ts();
        let ghost i = self.pos as int;
        if let Ok(route) = self.next_if_kind(TokenKind::Route) {
            let _ = self.next_if_kind(TokenKind::WideArrow)?;
            let value = self.parse_expression()?;
            let kind = String::from_str("route");
            proof {
                reveal_strlit("route");
                assert(kind@ =~= seq!['r', 'o', 'u', 't', 'e']);
            }
            Ok(Declaration::with_key(kind.as_str(), route.as_str(), value))
        } else if self.next_if_kind(TokenKind::At).is_ok() {
            let word = self.next_if_kind(TokenKind::Identifier)?;
            let _ = self.next_if_kind(TokenKind::WideArrow)?;
            let value = self.parse_expression()?;
            let kind = String::from_str("word");
            proof {
                reveal_strlit("word");
                assert(kind@ =~= seq!['w', 'o', 'r', 'd']);
            }
            Ok(Declaration::with_key(kind.as_str(), word.as_str(), value))
        } else {
            Err(ParseError::InvalidStart(self.pos))
        }
    }

    fn parse_root(&mut self) -> (r: Result<AstRoot, ParseError>)
        requires
            old(self).pos == 0,
        ensures
            match r {
                Ok(root) => spec_parse_root(old(self).ts(), 0, seq![]).0
                    == Ok::<Seq<DeclarationV>, ParseError>(Seq::new(root.0@.len(), |i: int| root.0@[i].view())),
                Err(e) => spec_parse_root(old(self).ts(), 0, seq![]).0 == Err::<Seq<DeclarationV>, ParseError>(e),
            },
    {
        let ghost ts = self.ts();
        let mut output: Vec<Declaration> = Vec::new();
        assert(Seq::new(output@.len(), |i: int| output@[i].view()) =~= Seq::<DeclarationV>::empty());
        loop
            invariant
                ts == old(self).ts(),
                self.ts() == ts,
                self.pos <= ts.len(),
                spec_parse_root(ts, 0, seq![]) == spec_parse_root(ts, self.pos as int,
                    Seq::new(output@.len(), |i: int| output@[i].view())),
            decreases ts.len() - self.pos,
        {
            let ghost acc = Seq::new(output@.len(), |i: int| output@[i].view());
            let ghost j = self.pos as int;
            if self.pos >= self.tokens.len() {
                return Ok(AstRoot(output));
            }
            let d = self.parse_declaration()?;
            output.push(d);
            assert(Seq::new(output@.len(), |i: int| output@[i].view()) =~= acc.push(spec_parse_declaration(ts, j).0->Ok_0));
        }
    }
}

// ------------------------------------------------------------------
// Parsing program text.
// ------------------------------------------------------------------

/// Comments and the end-of-input marker are not handed to the parser.
pub open spec fn is_kept(t: Tok) -> bool {
    t.0 != TokenKind::Comment && t.0 != TokenKind::EndOfInput
}

pub open spec fn kept(ts: Seq<Tok>) -> Seq<Tok>
    decreases ts.len(),
{
    if ts.len() == 0 {
        seq![]
    } else if is_kept(ts.last()) {
        kept(ts.drop_last()).push(ts.last())
    } else {
        kept(ts.drop_last())
    }
}

/// The tokens of program text `s` that the parser reads: kind, text,
/// start and end.
pub open spec fn program(s: Seq<char>) -> Seq<(TokenKind, Seq<char>, int, int)> {
    kept(lex_top(s, 0).unwrap()).map_values(|t: Tok| (t.0, s.subrange(t.1, t.2), t.1, t.2))
}

/// The parser's view of program text `s`.
pub open spec fn program_ptoks(s: Seq<char>) -> Seq<PTok> {
    program(s).map_values(|t: (TokenKind, Seq<char>, int, int)| (t.0, t.1))
}

/// The debug form of a text, as `{:?}` prints a `&str`: in double quotes,
/// with std's escapes. The escaping is std's; its text is named, not
/// spelled out.
pub uninterp spec fn str_debug_text(s: Seq<char>) -> Seq<char>;

/// The debug form of `s`.
/// Trusted: formats `s` with `format!("{:?}", ..)`; the text is a function
/// of the characters alone, named `str_debug_text`.
#[verifier::external_body]
fn debug_str(s: &str) -> (r: String)
    ensures
        r@ == str_debug_text(s@),
{
    format!("{:?}", s)
}

/// The name of a token kind, as its derived `Debug` prints it.
pub open spec fn kind_name(k: TokenKind) -> Seq<char> {
    match k {
        TokenKind::Identifier => "Identifier"@,
        TokenKind::IntLiteral => "IntLiteral"@,
        TokenKind::Route => "Route"@,
        TokenKind::TemplateOpen => "TemplateOpen"@,
        TokenKind::TemplateClose => "TemplateClose"@,
        TokenKind::TemplateText => "TemplateText"@,
        TokenKind::TemplateVariable => "TemplateVariable"@,
        TokenKind::Comment => "Comment"@,
        TokenKind::ListBegin => "ListBegin"@,
        TokenKind::ListEnd => "ListEnd"@,
        TokenKind::LambdaBegin => "LambdaBegin"@,
        TokenKind::LambdaEnd => "LambdaEnd"@,
        TokenKind::WhiteSpace => "WhiteSpace"@,
        TokenKind::At => "At"@,
        TokenKind::WideArrow => "WideArrow"@,
        TokenKind::Semicolon => "Semicolon"@,
        TokenKind::Plus => "Plus"@,
        TokenKind::Dollar => "Dollar"@,
        TokenKind::Percent => "Percent"@,
        TokenKind::NewLine => "NewLine"@,
        TokenKind::Equals => "Equals"@,
        TokenKind::EndOfInput => "EndOfInput"@,
    }
}

fn kind_str(k: TokenKind) -> (r: &'static str)
    ensures
        r@ == kind_name(k),
{
    match k {
        TokenKind::Identifier => "Identifier",
        TokenKind::IntLiteral => "IntLiteral",
        TokenKind::Route => "Route",
        TokenKind::TemplateOpen => "TemplateOpen",
        TokenKind::TemplateClose => "TemplateClose",
        TokenKind::TemplateText => "TemplateText",
        TokenKind::TemplateVariable => "TemplateVariable",
        TokenKind::Comment => "Comment",
        TokenKind::ListBegin => "ListBegin",
        TokenKind::ListEnd => "ListEnd",
        TokenKind::LambdaBegin => "LambdaBegin",
        TokenKind::LambdaEnd => "LambdaEnd",
        TokenKind::WhiteSpace => "WhiteSpace",
        TokenKind::At => "At",
        TokenKind::WideArrow => "WideArrow",
        TokenKind::Semicolon => "Semicolon",
        TokenKind::Plus => "Plus",
        TokenKind::Dollar => "Dollar",
        TokenKind::Percent => "Percent",
        TokenKind::NewLine => "NewLine",
        TokenKind::Equals => "Equals",
        TokenKind::EndOfInput => "EndOfInput",
    }
}

/// The debug form of a token (or of `None` past the end), as `{:?}`
/// prints an `Option<&Token>` with the derived `Debug`:
/// `Some(Token { kind: K, contents: "...", start: S, end: E })` or `None`.
pub open spec fn token_debug_text(t: Option<(TokenKind, Seq<char>, int, int)>) -> Seq<char> {
    match t {
        Some((k, c, a, b)) => "Some(Token { kind: "@ + kind_name(k) + ", contents: "@ + str_debug_text(c)
            + ", start: "@ + crate::text::decimal(a as nat) + ", end: "@ + crate::text::decimal(b as nat) + " })"@,
        None => "None"@,
    }
}

/// The debug form of `t` (see `token_debug_text`).
fn token_debug(t: Option<&Token>) -> (r: String)
    ensures
        r@ == token_debug_text(match t {
            Some(t) => Some((t.kind, t.contents@, t.start as int, t.end as int)),
            None => None,
        }),
{
    match t {
        Some(t) => {
            let mut out = string_of("Some(Token { kind: ");
            crate::text::push_str(&mut out, kind_str(t.kind));
            crate::text::push_str(&mut out, ", contents: ");
            let c = debug_str(t.contents.as_str());
            crate::text::push_str(&mut out, c.as_str());
            crate::text::push_str(&mut out, ", start: ");
            let a = crate::text::decimal_string(t.start as u64);
            crate::text::push_str(&mut out, a.as_str());
            crate::text::push_str(&mut out, ", end: ");
            let b = crate::text::decimal_string(t.end as u64);
            crate::text::push_str(&mut out, b.as_str());
            crate::text::push_str(&mut out, " })");
            out
        },
        None => string_of("None"),
    }
}

/// The message of a token that cannot start a declaration: `token`, its
/// debug form, and `is not a valid way to start a route`.
pub open spec fn invalid_start_text(t: Option<(TokenKind, Seq<char>, int, int)>) -> Seq<char> {
    "token "@ + token_debug_text(t) + " is not a valid way to start a route"@
}

/// The message for a token that cannot start a declaration (see
/// `invalid_start_text`).
fn invalid_start_message(t: Option<&Token>) -> (r: String)
    ensures
        r@ == invalid_start_text(match t {
            Some(t) => Some((t.kind, t.contents@, t.start as int, t.end as int)),
            None => None,
        }),
{
    let mut out = string_of("token ");
    let d = token_debug(t);
    crate::text::push_str(&mut out, d.as_str());
    crate::text::push_str(&mut out, " is not a valid way to start a route");
    out
}

/// The message the parser gives for `e` on program text `s`.
pub open spec fn parse_error_text(e: ParseError, s: Seq<char>) -> Seq<char> {
    match e {
        ParseError::OutOfBounds => "out of bounds"@,
        ParseError::UnexpectedToken => "unexpected token"@,
        ParseError::FailedAssertion => "failed assertion!"@,
        ParseError::NotSupportedInTemplate => "token not supported in template"@,
        ParseError::EndOfInput => "End of input while parsing"@,
        ParseError::UnhandledToken => "unhandled token"@,
        ParseError::InvalidLiteral => "integer literal out of range"@,
        ParseError::InvalidStart(i) => invalid_start_text(
            if i < program(s).len() { Some(program(s)[i as int]) } else { None }),
    }
}

/// The error the parser reports for `e`: status 500 and its message.
pub open spec fn is_parse_error(err: ServError, e: ParseError, s: Seq<char>) -> bool {
    err matches ServError::General(code, m) && code == 500 && m@ == parse_error_text(e, s)
}

fn copy_token(t: &Token) -> (r: Token)
    ensures
        r@ == t@,
        r.contents@ == t.contents@,
{
    Token { kind: t.kind, contents: t.contents.clone(), start: t.start, end: t.end }
}

/// The tokens of `v` that the parser reads.
fn keep_tokens(v: &Vec<Token>, Ghost(s): Ghost<Seq<char>>) -> (r: Vec<Token>)
    requires
        texts_match(v@, s),
    ensures
        texts_match(r@, s),
        toks_of(r@) == kept(toks_of(v@)),
{
    let mut out: Vec<Token> = Vec::new();
    let mut i: usize = 0;
    while i < v.len()
        invariant
            0 <= i <= v.len(),
            texts_match(v@, s),
            texts_match(out@, s),
            toks_of(out@) == kept(toks_of(v@.take(i as int))),
        decreases v.len() - i,
    {
        proof {
            assert(toks_of(v@.take(i + 1)).drop_last() =~= toks_of(v@.take(i as int)));
            assert(toks_of(v@.take(i + 1)).last() == v@[i as int]@);
        }
        let t = &v[i];
        if t.kind != TokenKind::Comment && t.kind != TokenKind::EndOfInput {
            let c = copy_token(t);
            let ghost before = out@;
            out.push(c);
            proof {
                assert(toks_of(out@) =~= toks_of(before).push(c@));
                assert forall|k: int| 0 <= k < out@.len() implies {
                    &&& 0 <= (#[trigger] out@[k]).start <= out@[k].end <= s.len()
                    &&& out@[k].contents@ == s.subrange(out@[k].start as int, out@[k].end as int)
                } by {
                    if k < before.len() {
                        assert(out@[k] == before[k]);
                    } else {
                        assert(v@[i as int].start <= v@[i as int].end);
                    }
                }
            }
        }
        i += 1;
    }
    assert(v@.take(v.len() as int) =~= v@);
    out
}

/// The parser's view of tokens cut from `s` is the view of `s`'s program.
proof fn lemma_program_view(v: Seq<Token>, s: Seq<char>)
    requires
        lexable(s),
        texts_match(v, s),
        toks_of(v) == kept(lex_top(s, 0).unwrap()),
    ensures
        ptoks(v) == program_ptoks(s),
        forall|i: int| 0 <= i < v.len() ==>
            program(s)[i] == (#[trigger] v[i].kind, v[i].contents@, v[i].start as int, v[i].end as int),
{
    assert forall|i: int| 0 <= i < v.len() implies
        program(s)[i] == (#[trigger] v[i].kind, v[i].contents@, v[i].start as int, v[i].end as int) by {
        assert(toks_of(v)[i] == v[i]@);
    }
    assert(ptoks(v) =~= program_ptoks(s));
}

/// The tokens of program text `input` that the parser reads.
fn program_tokens(input: &str) -> (r: Vec<Token>)
    requires
        lexable(input@),
    ensures
        ptoks(r@) == program_ptoks(input@),
        r@.len() == program(input@).len(),
        forall|i: int| 0 <= i < r@.len() ==>
            program(input@)[i] == (#[trigger] r@[i].kind, r@[i].contents@, r@[i].start as int, r@[i].end as int),
{
    let all = tokenize(input);
    let kept_tokens = keep_tokens(&all, Ghost(input@));
    proof {
        lemma_program_view(kept_tokens@, input@);
    }
    kept_tokens
}

/// The error value the parser reports for `e`.
fn parse_error_value(e: ParseError, tokens: &Vec<Token>, Ghost(s): Ghost<Seq<char>>) -> (r: ServError)
    requires
        forall|i: int| 0 <= i < tokens@.len() ==>
            program(s)[i] == (#[trigger] tokens@[i].kind, tokens@[i].contents@, tokens@[i].start as int, tokens@[i].end as int),
        tokens@.len() == program(s).len(),
    ensures
        is_parse_error(r, e, s),
{
    let message = match e {
        ParseError::OutOfBounds => string_of("out of bounds"),
        ParseError::UnexpectedToken => string_of("unexpected token"),
        ParseError::FailedAssertion => string_of("failed assertion!"),
        ParseError::NotSupportedInTemplate => string_of("token not supported in template"),
        ParseError::EndOfInput => string_of("End of input while parsing"),
        ParseError::UnhandledToken => string_of("unhandled token"),
        ParseError::InvalidLiteral => string_of("integer literal out of range"),
        ParseError::InvalidStart(i) => {
            if i < tokens.len() {
                invalid_start_message(Some(&tokens[i]))
            } else {
                invalid_start_message(None)
            }
        },
    };
    ServError::General(500, message)
}

/// Parses a template (a string in curly brackets) from program text.
pub fn parse_template_from_text(input: &str) -> (r: Result<Template, ServError>)
    requires
        lexable(input@),
        spec_parse_template(program_ptoks(input@), 0).0 != Err::<TemplateV, ParseError>(ParseError::InvalidLiteral),
    ensures
        match r {
            Ok(t) => spec_parse_template(program_ptoks(input@), 0).0 == Ok::<TemplateV, ParseError>(t.view()),
            Err(err) => spec_parse_template(program_ptoks(input@), 0).0 matches Err(e)
                && is_parse_error(err, e, input@),
        },
{
    let tokens = program_tokens(input);
    let mut parser = Parser::new(&tokens);
    match parser.parse_template() {
        Ok(t) => Ok(t),
        Err(e) => Err(parse_error_value(e, &tokens, Ghost(input@))),
    }
}

/// Parses an expression from program text: words up to the first token that
/// cannot start one.
pub fn parse_expression_from_text(input: &str) -> (r: Result<Expression, ServError>)
    requires
        lexable(input@),
        spec_parse_expression(program_ptoks(input@), 0, seq![]).0 != Err::<ExpressionV, ParseError>(ParseError::InvalidLiteral),
    ensures
        match r {
            Ok(e) => spec_parse_expression(program_ptoks(input@), 0, seq![]).0 == Ok::<ExpressionV, ParseError>(e.view()),
            Err(err) => spec_parse_expression(program_ptoks(input@), 0, seq![]).0 matches Err(e)
                && is_parse_error(err, e, input@),
        },
        r matches Ok(e) ==> e.view().meta == is_meta(e.view().words),
{
    proof {
        lemma_meta_flag(program_ptoks(input@), 0, seq![]);
    }
    let tokens = program_tokens(input);
    let mut parser = Parser::new(&tokens);
    match parser.parse_expression() {
        Ok(e) => Ok(e),
        Err(e) => Err(parse_error_value(e, &tokens, Ghost(input@))),
    }
}

/// Parses a whole program: its route and word declarations.
pub fn parse_root_from_text(input: &str) -> (r: Result<AstRoot, ServError>)
    requires
        lexable(input@),
        spec_parse_root(program_ptoks(input@), 0, seq![]).0 != Err::<Seq<DeclarationV>, ParseError>(ParseError::InvalidLiteral),
    ensures
        match r {
            Ok(root) => spec_parse_root(program_ptoks(input@), 0, seq![]).0
                == Ok::<Seq<DeclarationV>, ParseError>(Seq::new(root.0@.len(), |i: int| root.0@[i].view())),
            Err(err) => spec_parse_root(program_ptoks(input@), 0, seq![]).0 matches Err(e)
                && is_parse_error(err, e, input@),
        },
        r matches Ok(root) ==> declared_in_order(program_ptoks(input@),
            Seq::new(root.0@.len(), |i: int| root.0@[i].view())),
{
    proof {
        lemma_declarations_as_written(program_ptoks(input@));
    }
    let tokens = program_tokens(input);
    let mut parser = Parser::new(&tokens);
    match parser.parse_root() {
        Ok(root) => Ok(root),
        Err(e) => Err(parse_error_value(e, &tokens, Ghost(input@))),
    }
}

/// Whether `s` is an integer literal that fits in an `i64`.
fn literal_fits(s: &String) -> (r: bool)
    ensures
        r == literal_ok(s@),
{
    let chars = crate::text::chars_of(s.as_str());
    if chars.len() == 0 {
        return false;
    }
    let mut value: i64 = 0;
    let mut i: usize = 0;
    while i < chars.len()
        invariant
            chars@ == s@,
            chars@.len() > 0,
            0 <= i <= chars.len(),
            forall|k: int| 0 <= k < i ==> '0' <= #[trigger] chars@[k] && chars@[k] <= '9',
            value >= 0,
            value as int == digits_value(chars@.take(i as int)),
        decreases chars.len() - i,
    {
        let d = chars[i];
        if !('0' <= d && d <= '9') {
            return false;
        }
        proof {
            assert(chars@.take(i + 1).drop_last() =~= chars@.take(i as int));
        }
        let digit = (d as u32 - '0' as u32) as i64;
        proof {
            assert(digits_value(chars@.take(i + 1)) == value as int * 10 + digit as int);
        }
        match value.checked_mul(10) {
            Some(m) => match m.checked_add(digit) {
                Some(v) => value = v,
                None => {
                    proof { lemma_too_big(chars@, i + 1); }
                    return false;
                },
            },
            None => {
                proof {
                    assert(value as int * 10 > i64::MAX);
                    lemma_too_big(chars@, i + 1);
                }
                return false;
            },
        }
        i += 1;
    }
    assert(chars@.take(chars.len() as int) =~= chars@);
    true
}

/// Once a prefix of a literal is too large for an `i64`, a literal whose
/// characters are all digits is too.
proof fn lemma_too_big(s: Seq<char>, n: int)
    requires
        0 < n <= s.len(),
        forall|k: int| 0 <= k < n ==> '0' <= #[trigger] s[k] && s[k] <= '9',
        digits_value(s.take(n)) > i64::MAX,
    ensures
        !literal_ok(s),
{
    if forall|i: int| 0 <= i < s.len() ==> '0' <= #[trigger] s[i] && s[i] <= '9' {
        lemma_digits_prefix(s, n);
    }
}

/// The tokens of program text `input` that the parser reads, or `None`
/// where the lexer gives up.
fn try_program_tokens(input: &str) -> (r: Option<Vec<Token>>)
    ensures
        r is Some <==> lexable(input@),
        r matches Some(v) ==> ptoks(v@) == program_ptoks(input@) && v@.len() == program(input@).len()
            && forall|i: int| 0 <= i < v@.len() ==>
                program(input@)[i] == (#[trigger] v@[i].kind, v@[i].contents@, v@[i].start as int, v@[i].end as int),
{
    match try_tokenize(input) {
        None => None,
        Some(all) => {
            let tokens = keep_tokens(&all, Ghost(input@));
            proof {
                lemma_program_view(tokens@, input@);
            }
            Some(tokens)
        },
    }
}

/// `parse_template_from_text` on any text: `None` where the lexer gives up or
/// an integer literal that the parser reads does not fit in an `i64`.
pub fn try_parse_template_from_text(input: &str) -> (r: Option<Result<Template, ServError>>)
    ensures
        r is Some <==> (lexable(input@) && spec_parse_template(program_ptoks(input@), 0).0
            != Err::<TemplateV, ParseError>(ParseError::InvalidLiteral)),
        r matches Some(res) ==> match res {
            Ok(t) => spec_parse_template(program_ptoks(input@), 0).0 == Ok::<TemplateV, ParseError>(t.view()),
            Err(err) => spec_parse_template(program_ptoks(input@), 0).0 matches Err(e)
                && is_parse_error(err, e, input@),
        },
{
    let tokens = match try_program_tokens(input) {
        Some(t) => t,
        None => {
            return None;
        },
    };
    let mut parser = Parser::new(&tokens);
    match parser.parse_template() {
        Ok(t) => Some(Ok(t)),
        Err(ParseError::InvalidLiteral) => None,
        Err(e) => Some(Err(parse_error_value(e, &tokens, Ghost(input@)))),
    }
}

/// `parse_expression_from_text` on any text: `None` where the lexer gives up
/// or an integer literal that the parser reads does not fit in an `i64`.
pub fn try_parse_expression_from_text(input: &str) -> (r: Option<Result<Expression, ServError>>)
    ensures
        r is Some <==> (lexable(input@) && spec_parse_expression(program_ptoks(input@), 0, seq![]).0
            != Err::<ExpressionV, ParseError>(ParseError::InvalidLiteral)),
        r matches Some(res) ==> match res {
            Ok(e) => spec_parse_expression(program_ptoks(input@), 0, seq![]).0 == Ok::<ExpressionV, ParseError>(e.view()),
            Err(err) => spec_parse_expression(program_ptoks(input@), 0, seq![]).0 matches Err(e)
                && is_parse_error(err, e, input@),
        },
{
    let tokens = match try_program_tokens(input) {
        Some(t) => t,
        None => {
            return None;
        },
    };
    let mut parser = Parser::new(&tokens);
    match parser.parse_expression() {
        Ok(e) => Some(Ok(e)),
        Err(ParseError::InvalidLiteral) => None,
        Err(e) => Some(Err(parse_error_value(e, &tokens, Ghost(input@)))),
    }
}

/// `parse_root_from_text` on any text: `None` where the lexer gives up or an
/// integer literal that the parser reads does not fit in an `i64`.
pub fn try_parse_root_from_text(input: &str) -> (r: Option<Result<AstRoot, ServError>>)
    ensures
        r is Some <==> (lexable(input@) && spec_parse_root(program_ptoks(input@), 0, seq![]).0
            != Err::<Seq<DeclarationV>, ParseError>(ParseError::InvalidLiteral)),
        r matches Some(res) ==> match res {
            Ok(root) => spec_parse_root(program_ptoks(input@), 0, seq![]).0
                == Ok::<Seq<DeclarationV>, ParseError>(Seq::new(root.0@.len(), |i: int| root.0@[i].view())),
            Err(err) => spec_parse_root(program_ptoks(input@), 0, seq![]).0 matches Err(e)
                && is_parse_error(err, e, input@),
        },
{
    let tokens = match try_program_tokens(input) {
        Some(t) => t,
        None => {
            return None;
        },
    };
    let mut parser = Parser::new(&tokens);
    match parser.parse_root() {
        Ok(root) => Some(Ok(root)),
        Err(ParseError::InvalidLiteral) => None,
        Err(e) => Some(Err(parse_error_value(e, &tokens, Ghost(input@)))),
    }
}


/// An expression is marked as quoting exactly when its words end in the
/// closing list bracket `]` or in a parenthesised quoting expression.
pub proof fn lemma_meta_flag(ts: Seq<PTok>, i: int, acc: Seq<WordV>)
    ensures
        spec_parse_expression(ts, i, acc).0 matches Ok(e) ==> e.meta == is_meta(e.words),
    decreases ts.len() - i,
{
    if 0 <= i <= ts.len() {
        if let (Ok(w), j) = spec_parse_word(ts, i) {
            if i < j <= ts.len() {
                lemma_meta_flag(ts, j, acc.push(w));
            }
        }
    }
}

/// Whether `d` is the declaration that starts at token `j`: a route token
/// and `=>`, keyed by the route; or `@`, a name and `=>`, keyed by the name.
pub open spec fn declared_at(ts: Seq<PTok>, j: int, d: DeclarationV) -> bool {
    ||| (0 <= j && j + 1 < ts.len() && ts[j].0 == TokenKind::Route && ts[j + 1].0 == TokenKind::WideArrow
        && d.kind == seq!['r', 'o', 'u', 't', 'e'] && d.key == PatternV::Key(ts[j].1))
    ||| (0 <= j && j + 2 < ts.len() && ts[j].0 == TokenKind::At && ts[j + 1].0 == TokenKind::Identifier
        && ts[j + 2].0 == TokenKind::WideArrow && d.kind == seq!['w', 'o', 'r', 'd'] && d.key == PatternV::Key(ts[j + 1].1))
}

/// Each of `ds` is declared at a token of its own, in the order of `ds`.
pub open spec fn declared_in_order(ts: Seq<PTok>, ds: Seq<DeclarationV>) -> bool {
    exists|ps: Seq<int>| {
        &&& ps.len() == ds.len()
        &&& forall|k: int| 0 <= k < ds.len() ==> declared_at(ts, #[trigger] ps[k], ds[k])
        &&& forall|a: int, b: int| 0 <= a < b < ps.len() ==> #[trigger] ps[a] < #[trigger] ps[b]
    }
}

/// The declarations read from token `i` on, after `acc` (which start at
/// `starts`), each start at their own token, in order.
proof fn lemma_declarations_from(ts: Seq<PTok>, i: int, acc: Seq<DeclarationV>, starts: Seq<int>)
    requires
        starts.len() == acc.len(),
        forall|k: int| 0 <= k < acc.len() ==> declared_at(ts, #[trigger] starts[k], acc[k]),
        forall|a: int, b: int| 0 <= a < b < starts.len() ==> #[trigger] starts[a] < #[trigger] starts[b],
        forall|k: int| 0 <= k < starts.len() ==> #[trigger] starts[k] < i,
    ensures
        spec_parse_root(ts, i, acc).0 matches Ok(ds) ==> exists|ps: Seq<int>| {
            &&& ps.len() == ds.len()
            &&& forall|k: int| 0 <= k < ds.len() ==> declared_at(ts, #[trigger] ps[k], ds[k])
            &&& forall|a: int, b: int| 0 <= a < b < ps.len() ==> #[trigger] ps[a] < #[trigger] ps[b]
        },
    decreases ts.len() - i,
{
    if i < 0 || i >= ts.len() {
        assert(forall|k: int| 0 <= k < acc.len() ==> declared_at(ts, #[trigger] starts[k], acc[k]));
    } else {
        if let (Ok(d), j) = spec_parse_declaration(ts, i) {
            if i < j <= ts.len() {
                let acc2 = acc.push(d);
                let starts2 = starts.push(i);
                assert(declared_at(ts, i, d));
                assert forall|k: int| 0 <= k < acc2.len() implies declared_at(ts, #[trigger] starts2[k], acc2[k]) by {
                    if k < acc.len() {
                        assert(starts2[k] == starts[k] && acc2[k] == acc[k]);
                    }
                }
                assert forall|a: int, b: int| 0 <= a < b < starts2.len() implies #[trigger] starts2[a] < #[trigger] starts2[b] by {
                    if b < starts.len() {
                        assert(starts2[a] == starts[a] && starts2[b] == starts[b]);
                    } else {
                        assert(starts2[a] == starts[a]);
                    }
                }
                lemma_declarations_from(ts, j, acc2, starts2);
            }
        }
    }
}


/// Every declaration of a parsed program is a route keyed by its route
/// token or a word keyed by its name, each starting at its own token, in
/// the order they stand in the program.
pub proof fn lemma_declarations_as_written(ts: Seq<PTok>)
    ensures
        spec_parse_root(ts, 0, seq![]).0 matches Ok(ds) ==> declared_in_order(ts, ds),
{
    lemma_declarations_from(ts, 0, seq![], seq![]);
}

} // verus!
