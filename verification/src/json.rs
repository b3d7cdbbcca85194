//! JSON text cut into tokens, and the layout of serialised JSON.

use vstd::prelude::*;
use crate::ast::{int_text, push_int};
use crate::text::decimal;
use crate::cursor::{Token, Tokenizer};
use crate::servstring::{as_text, ServString};
use crate::text::{char_is_alphabetic, chars_of, is_alphabetic, is_white_space, is_whitespace, lemma_scan_bounds,
    lemma_scan_stop, push_char, push_str, scan, string_of};

verus! {

/// Whether `c` has the Unicode `Numeric` property (general categories Nd,
/// Nl and No), as `char::is_numeric` reports it. The property is a Unicode
/// data table; it is named, not spelled out.
pub uninterp spec fn char_is_numeric(c: char) -> bool;

/// Trusted: calls `char::is_numeric`. Its result is a function of `c` alone
/// (the Unicode tables), named `char_is_numeric`; among ASCII characters
/// exactly the digits `0` to `9` are numeric.
#[verifier::external_body]
fn is_numeric(c: char) -> (r: bool)
    ensures
        r == char_is_numeric(c),
        c < '\u{80}' ==> (r <==> ('0' <= c && c <= '9')),
{
    c.is_numeric()
}

/// The kinds of JSON tokens.
#[derive(PartialEq, Eq, Structural, Clone, Copy, Debug)]
pub enum JsonTokenKind {
    OpenObject,
    CloseObject,
    OpenList,
    CloseList,
    Number,
    Text,
    Colon,
    Comma,
    Identifier,
}

/// A JSON token.
pub type JsonToken = Token<JsonTokenKind>;

/// A token as its kind, its text, and the positions where its text starts
/// and ends.
pub type JTok = (JsonTokenKind, Seq<char>, int, int);

/// The token that a single punctuation character makes.
pub open spec fn punct(c: char) -> Option<JsonTokenKind> {
    if c == '{' {
        Some(JsonTokenKind::OpenObject)
    } else if c == '}' {
        Some(JsonTokenKind::CloseObject)
    } else if c == '[' {
        Some(JsonTokenKind::OpenList)
    } else if c == ']' {
        Some(JsonTokenKind::CloseList)
    } else if c == ':' {
        Some(JsonTokenKind::Colon)
    } else if c == ',' {
        Some(JsonTokenKind::Comma)
    } else {
        None
    }
}

/// Characters that continue an identifier: alphanumeric ones and `_`.
pub open spec fn ident_char() -> spec_fn(char) -> bool {
    |c: char| char_is_alphabetic(c) || char_is_numeric(c) || c == '_'
}

/// Characters that continue a number: numeric ones and `.`.
pub open spec fn number_char() -> spec_fn(char) -> bool {
    |c: char| char_is_numeric(c) || c == '.'
}

/// Characters inside a string: anything but `"`.
pub open spec fn string_char() -> spec_fn(char) -> bool {
    |c: char| c != '"'
}

/// Whitespace.
pub open spec fn blank() -> spec_fn(char) -> bool {
    |c: char| is_white_space(c)
}

/// The tokens of `s` from `p` on, or `None` where the tokenizer gives up:
/// a string without its closing quote, or a character that starts no token.
pub open spec fn lex_json(s: Seq<char>, p: int) -> Option<Seq<JTok>>
    decreases s.len() - p, 0int,
{
    if p < 0 || p >= s.len() {
        Some(Seq::empty())
    } else {
        let c = s[p];
        match punct(c) {
            Some(k) => prepend(seq![(k, seq![c], p, p + 1)], s, p + 1),
            None => if c == '"' {
                let q = scan(s, p + 1, string_char());
                proof {
                    lemma_scan_bounds(s, p + 1, string_char());
                }
                if q >= s.len() {
                    None
                } else {
                    prepend(seq![(JsonTokenKind::Text, s.subrange(p + 1, q), p + 1, q)], s, q + 1)
                }
            } else if char_is_alphabetic(c) {
                let q = scan(s, p, ident_char());
                proof {
                    lemma_scan_bounds(s, p, ident_char());
                }
                prepend(seq![(JsonTokenKind::Identifier, s.subrange(p, q), p, q)], s, q)
            } else if char_is_numeric(c) || c == '-' {
                let q = scan(s, if c == '-' { p + 1 } else { p }, number_char());
                proof {
                    lemma_scan_bounds(s, if c == '-' { p + 1 } else { p }, number_char());
                }
                prepend(seq![(JsonTokenKind::Number, s.subrange(p, q), p, q)], s, q)
            } else if is_white_space(c) {
                let q = scan(s, p, blank());
                proof {
                    lemma_scan_bounds(s, p, blank());
                }
                prepend(seq![], s, q)
            } else {
                None
            },
        }
    }
}

/// `t` followed by the tokens of `s` from `q` on (where `q` moves on).
pub open spec fn prepend(t: Seq<JTok>, s: Seq<char>, q: int) -> Option<Seq<JTok>>
    decreases s.len() - q, 1int,
{
    if q <= 0 || q > s.len() + 1 {
        None
    } else {
        match lex_json(s, q) {
            Some(rest) => Some(t + rest),
            None => None,
        }
    }
}

/// The kinds, texts and positions of tokens.
pub open spec fn jtoks(v: Seq<JsonToken>) -> Seq<JTok> {
    v.map_values(|t: JsonToken| (t.kind, t.value@, t.start as int, t.end as int))
}

/// Moves the cursor over the run of characters that pass `test`; `pred`
/// says what `test` computes.
fn run<F>(cursor: &mut Tokenizer, test: F, Ghost(pred): Ghost<spec_fn(char) -> bool>)
    where F: Fn(char) -> bool,
    requires
        old(cursor).wf(),
        old(cursor).pos() <= old(cursor).chars().len(),
        forall|c: char| call_requires(test, (c,)),
        forall|c: char, r: bool| call_ensures(test, (c,), r) ==> r == pred(c),
    ensures
        final(cursor).wf(),
        final(cursor).chars() == old(cursor).chars(),
        final(cursor).mark() == old(cursor).mark(),
        final(cursor).pos() == scan(old(cursor).chars(), old(cursor).pos() as int, pred),
        final(cursor).pos() <= final(cursor).chars().len(),
{
    let ghost s = cursor.chars();
    let ghost p = cursor.pos() as int;
    cursor.incr_while(test);
    proof {
        assert forall|i: int| p <= i < cursor.pos() implies pred(#[trigger] s[i]) by {
            assert(call_ensures(test, (s[i],), true));
        }
        if cursor.pos() < s.len() {
            assert(call_ensures(test, (s[cursor.pos() as int],), false));
        }
        lemma_scan_stop(s, p, cursor.pos() as int, pred);
    }
}

/// Cuts the rest of the cursor's input into JSON tokens; `None` where
/// `lex_json` gives up.
pub(crate) fn lex(cursor: &mut Tokenizer) -> (r: Option<Vec<JsonToken>>)
    requires
        old(cursor).wf(),
        old(cursor).mark() == old(cursor).pos(),
        old(cursor).pos() <= old(cursor).chars().len(),
    ensures
        match r {
            Some(v) => lex_json(old(cursor).chars(), old(cursor).pos() as int) == Some(jtoks(v@)),
            None => lex_json(old(cursor).chars(), old(cursor).pos() as int) is None,
        },
{
    let ghost s = cursor.chars();
    let ghost p0 = cursor.pos() as int;
    let mut output: Vec<JsonToken> = Vec::new();
    loop
        invariant
            s == old(cursor).chars(),
            p0 == old(cursor).pos(),
            cursor.wf(),
            cursor.chars() == s,
            cursor.mark() == cursor.pos(),
            p0 <= cursor.pos() <= s.len(),
            lex_json(s, p0) == match lex_json(s, cursor.pos() as int) {
                Some(rest) => Some(jtoks(output@) + rest),
                None => None::<Seq<JTok>>,
            },
        decreases s.len() - cursor.pos(),
    {
        let ghost p = cursor.pos() as int;
        let ghost before = jtoks(output@);
        let c = match cursor.get(0) {
            Some(c) => c,
            None => {
                assert(lex_json(s, p) == Some(Seq::<JTok>::empty()));
                assert(jtoks(output@) + Seq::<JTok>::empty() =~= jtoks(output@));
                return Some(output);
            },
        };
        let kind = if c == '{' {
            Some(JsonTokenKind::OpenObject)
        } else if c == '}' {
            Some(JsonTokenKind::CloseObject)
        } else if c == '[' {
            Some(JsonTokenKind::OpenList)
        } else if c == ']' {
            Some(JsonTokenKind::CloseList)
        } else if c == ':' {
            Some(JsonTokenKind::Colon)
        } else if c == ',' {
            Some(JsonTokenKind::Comma)
        } else {
            None
        };
        match kind {
            Some(k) => {
                cursor.incr(1);
                let t = cursor.emit(k);
                proof {
                    assert(t.value@ =~= seq![c]);
                    assert(jtoks(output@.push(t)) =~= before + seq![(k, seq![c], p, p + 1)]);
                }
                output.push(t);
            },
            None => {
                if c == '"' {
                    cursor.incr(1);
                    let _ = cursor.emit(());
                    run(cursor, |x: char| -> (r: bool) ensures r == (x != '"') { x != '"' }, Ghost(string_char()));
                    proof {
                        lemma_scan_bounds(s, p + 1, string_char());
                        crate::text::lemma_scan_end(s, p + 1, string_char());
                    }
                    let ghost q = cursor.pos();
                    match cursor.get(0) {
                        Some(d) => {
                            proof {
                                assert(d == '"');
                            }
                        },
                        None => {
                            assert(lex_json(s, p) is None);
                            return None;
                        },
                    }
                    let t = cursor.emit(JsonTokenKind::Text);
                    cursor.incr(1);
                    let _ = cursor.emit(());
                    proof {
                        assert(jtoks(output@.push(t)) =~= before + seq![(JsonTokenKind::Text, s.subrange(p + 1, q as int), p + 1, q as int)]);
                    }
                    output.push(t);
                } else if is_alphabetic(c) {
                    run(cursor, |x: char| -> (r: bool) ensures r == ident_char()(x) {
                        is_alphabetic(x) || is_numeric(x) || x == '_'
                    }, Ghost(ident_char()));
                    proof {
                        lemma_scan_bounds(s, p, ident_char());
                    }
                    let t = cursor.emit(JsonTokenKind::Identifier);
                    proof {
                        assert(jtoks(output@.push(t)) =~= before + seq![(JsonTokenKind::Identifier, t.value@, p, t.end as int)]);
                    }
                    output.push(t);
                } else if is_numeric(c) || c == '-' {
                    if c == '-' {
                        cursor.incr(1);
                    }
                    let ghost p1 = cursor.pos() as int;
                    run(cursor, |x: char| -> (r: bool) ensures r == number_char()(x) { is_numeric(x) || x == '.' },
                        Ghost(number_char()));
                    proof {
                        lemma_scan_bounds(s, p1, number_char());
                    }
                    let t = cursor.emit(JsonTokenKind::Number);
                    proof {
                        assert(jtoks(output@.push(t)) =~= before + seq![(JsonTokenKind::Number, t.value@, p, t.end as int)]);
                    }
                    output.push(t);
                } else if is_whitespace(c) {
                    run(cursor, |x: char| -> (r: bool) ensures r == blank()(x) { is_whitespace(x) }, Ghost(blank()));
                    proof {
                        lemma_scan_bounds(s, p, blank());
                    }
                    let _ = cursor.emit(());
                    proof {
                        assert(before + seq![] =~= before);
                    }
                } else {
                    assert(lex_json(s, p) is None);
                    return None;
                }
            },
        }
    }
}

/// Cuts the rest of the cursor's input into JSON tokens. The cursor must
/// have nothing pending (its mark at its position), and the input must be
/// one that `lex_json` accepts: the tokenizer panics on an unterminated
/// string or a character that starts no token.
pub fn tokenize_json(cursor: &mut Tokenizer) -> (r: Vec<JsonToken>)
    requires
        old(cursor).wf(),
        old(cursor).mark() == old(cursor).pos(),
        lex_json(old(cursor).chars(), old(cursor).pos() as int) is Some,
    ensures
        lex_json(old(cursor).chars(), old(cursor).pos() as int) == Some(jtoks(r@)),
{
    if cursor.is_done() {
        let r: Vec<JsonToken> = Vec::new();
        assert(jtoks(r@) =~= Seq::<JTok>::empty());
        return r;
    }
    match lex(cursor) {
        Some(v) => v,
        None => Vec::new(),
    }
}

/// The JSON tokens of `input`, or `None` where the tokenizer gives up.
pub fn try_tokenize_json(input: &str) -> (r: Option<Vec<JsonToken>>)
    ensures
        match r {
            Some(v) => lex_json(input@, 0) == Some(jtoks(v@)),
            None => lex_json(input@, 0) is None,
        },
{
    let chars = chars_of(input);
    let mut cursor = Tokenizer::new(chars.as_slice());
    lex(&mut cursor)
}

/// Lays out serialised JSON: the text of one level of indentation, and the
/// current depth.
#[derive(Clone, Debug)]
pub struct JsonSerializer {
    pub tab: String,
    pub indent: usize,
}

/// `n` copies of `t`.
pub open spec fn repeat(t: Seq<char>, n: nat) -> Seq<char>
    decreases n,
{
    if n == 0 {
        Seq::empty()
    } else {
        repeat(t, (n - 1) as nat) + t
    }
}

impl JsonSerializer {
    /// A serializer at depth 0 that indents by two spaces.
    pub fn new() -> (r: Self)
        ensures
            r.tab@ == "  "@,
            r.indent == 0,
    {
        JsonSerializer { tab: string_of("  "), indent: 0 }
    }

    /// Starts a new line at the current depth: a newline, then the tab once
    /// for each level.
    pub fn line_break(&self, dest: &mut String)
        ensures
            final(dest)@ == old(dest)@ + seq!['\n'] + repeat(self.tab@, self.indent as nat),
    {
        let ghost start = dest@;
        push_char(dest, '\n');
        let mut i: usize = 0;
        while i < self.indent
            invariant
                0 <= i <= self.indent,
                dest@ == start + seq!['\n'] + repeat(self.tab@, i as nat),
            decreases self.indent - i,
        {
            push_str(dest, self.tab.as_str());
            i += 1;
            proof {
                assert(dest@ =~= start + seq!['\n'] + repeat(self.tab@, i as nat));
            }
        }
    }
}

/// A serializer for JSON output (see `JsonSerializer::new`).
pub fn serializer() -> (r: JsonSerializer)
    ensures
        r.tab@ == "  "@,
        r.indent == 0,
{
    JsonSerializer::new()
}


/// A value as the JSON serializer writes it. (Numbers with a fraction, and
/// references and functions that the evaluator resolves first, are not
/// among these.)
pub enum JsonData {
    Nil,
    Bool(bool),
    Int(i64),
    Text(ServString),
    List(Vec<JsonData>),
    Table(Vec<(String, JsonData)>),
    Module,
}

/// How deeply lists and tables nest in `v`.
pub open spec fn nesting(v: &JsonData) -> nat
    decreases v,
{
    match v {
        JsonData::List(items) => 1 + max_nesting_items(v, items@.len() as int),
        JsonData::Table(entries) => 1 + max_nesting_entries(v, entries@.len() as int),
        _ => 0,
    }
}

/// The deepest nesting among the first `k` items of the list `v`.
pub open spec fn max_nesting_items(v: &JsonData, k: int) -> nat
    decreases v, k,
{
    match v {
        JsonData::List(items) => if k <= 0 || k > items@.len() {
            0
        } else {
            proof {
                assert(decreases_to!(v => items@[k - 1]));
            }
            let a = max_nesting_items(v, k - 1);
            let b = nesting(&items@[k - 1]);
            if a >= b { a } else { b }
        },
        _ => 0,
    }
}

/// The deepest nesting among the values of the first `k` entries of the
/// table `v`.
pub open spec fn max_nesting_entries(v: &JsonData, k: int) -> nat
    decreases v, k,
{
    match v {
        JsonData::Table(entries) => if k <= 0 || k > entries@.len() {
            0
        } else {
            proof {
                assert(decreases_to!(v => entries@[k - 1].1));
            }
            let a = max_nesting_entries(v, k - 1);
            let b = nesting(&entries@[k - 1].1);
            if a >= b { a } else { b }
        },
        _ => 0,
    }
}

/// A line break at depth `d`: a newline, then the tab `d` times.
pub open spec fn line_at(tab: Seq<char>, d: nat) -> Seq<char> {
    seq!['\n'] + repeat(tab, d)
}

/// The JSON text of `v` at depth `d`: `0` for nothing, `true`/`false`,
/// integers in decimal, text in double quotes (`RAW` for bytes that are not
/// text), `module` for a module; a list or a table opens, puts each item (or
/// `"key": value`) on a line of its own one level deeper with a comma after
/// all but the last, and closes on a line at depth `d`.
pub open spec fn json_text(v: &JsonData, tab: Seq<char>, d: nat) -> Seq<char>
    decreases v, 1int, 0int,
{
    match v {
        JsonData::Nil => seq!['0'],
        JsonData::Bool(b) => if *b { "true"@ } else { "false"@ },
        JsonData::Int(i) => int_text(*i as int),
        JsonData::Text(t) => seq!['"'] + match as_text(*t) {
            Some(x) => x,
            None => "RAW"@,
        } + seq!['"'],
        JsonData::Module => "module"@,
        JsonData::List(items) => seq!['['] + line_at(tab, d + 1) + items_text(v, tab, d + 1, items@.len() as int)
            + line_at(tab, d) + seq![']'],
        JsonData::Table(entries) => seq!['{'] + line_at(tab, d + 1) + entries_text(
            v,
            tab,
            d + 1,
            entries@.len() as int,
        ) + line_at(tab, d) + seq!['}'],
    }
}

/// The first `k` items of the list `v` at depth `d`, separated by a comma
/// and a line break.
pub open spec fn items_text(v: &JsonData, tab: Seq<char>, d: nat, k: int) -> Seq<char>
    decreases v, 0int, k,
{
    match v {
        JsonData::List(items) => if k <= 0 || k > items@.len() {
            Seq::empty()
        } else {
            proof {
                assert(decreases_to!(v => items@[k - 1]));
            }
            if k == 1 {
                json_text(&items@[0], tab, d)
            } else {
                items_text(v, tab, d, k - 1) + seq![','] + line_at(tab, d) + json_text(&items@[k - 1], tab, d)
            }
        },
        _ => Seq::empty(),
    }
}

/// One entry of a table: `"key": value`.
pub open spec fn entry_text(key: Seq<char>, value: &JsonData, tab: Seq<char>, d: nat) -> Seq<char>
    decreases value, 1int, 1int,
{
    seq!['"'] + key + seq!['"'] + ": "@ + json_text(value, tab, d)
}

/// The first `k` entries of the table `v` at depth `d`, separated by a
/// comma and a line break.
pub open spec fn entries_text(v: &JsonData, tab: Seq<char>, d: nat, k: int) -> Seq<char>
    decreases v, 0int, k,
{
    match v {
        JsonData::Table(entries) => if k <= 0 || k > entries@.len() {
            Seq::empty()
        } else {
            proof {
                assert(decreases_to!(v => entries@[k - 1].1));
            }
            let e = entry_text(entries@[k - 1].0@, &entries@[k - 1].1, tab, d);
            if k == 1 {
                e
            } else {
                entries_text(v, tab, d, k - 1) + seq![','] + line_at(tab, d) + e
            }
        },
        _ => Seq::empty(),
    }
}


/// Every item of a list nests no deeper than the deepest among them.
proof fn lemma_item_nesting(v: &JsonData, k: int, j: int)
    requires
        v is List,
        0 <= j < k <= v->List_0@.len(),
    ensures
        nesting(&v->List_0@[j]) <= max_nesting_items(v, k),
    decreases k,
{
    if j < k - 1 {
        lemma_item_nesting(v, k - 1, j);
    }
}

/// Every value of a table nests no deeper than the deepest among them.
proof fn lemma_entry_nesting(v: &JsonData, k: int, j: int)
    requires
        v is Table,
        0 <= j < k <= v->Table_0@.len(),
    ensures
        nesting(&v->Table_0@[j].1) <= max_nesting_entries(v, k),
    decreases k,
{
    if j < k - 1 {
        lemma_entry_nesting(v, k - 1, j);
    }
}

impl JsonSerializer {
    /// Appends the JSON text of `value` at the serializer's depth (see
    /// `json_text`) to `dest`. The depth must leave room for the value's
    /// nesting.
    pub fn write(&mut self, value: &JsonData, dest: &mut String)
        requires
            old(self).indent + nesting(value) <= usize::MAX,
        ensures
            final(self).tab@ == old(self).tab@,
            final(self).indent == old(self).indent,
            final(dest)@ == old(dest)@ + json_text(value, old(self).tab@, old(self).indent as nat),
        decreases value, 1int,
    {
        let ghost start = dest@;
        let ghost tab = self.tab@;
        let ghost d = self.indent as nat;
        match value {
            JsonData::Nil => push_char(dest, '0'),
            JsonData::Bool(b) => {
                if *b {
                    push_str(dest, "true");
                } else {
                    push_str(dest, "false");
                }
            },
            JsonData::Int(i) => push_int(dest, *i),
            JsonData::Text(t) => {
                push_char(dest, '"');
                match t.as_str() {
                    Ok(x) => push_str(dest, x),
                    Err(_) => push_str(dest, "RAW"),
                }
                push_char(dest, '"');
            },
            JsonData::Module => push_str(dest, "module"),
            JsonData::List(_) => self.write_list(value, dest),
            JsonData::Table(_) => self.write_table(value, dest),
        }
    }

    /// Appends the JSON text of the list `value` (see `json_text`).
    fn write_list(&mut self, value: &JsonData, dest: &mut String)
        requires
            value is List,
            old(self).indent + nesting(value) <= usize::MAX,
        ensures
            final(self).tab@ == old(self).tab@,
            final(self).indent == old(self).indent,
            final(dest)@ == old(dest)@ + json_text(value, old(self).tab@, old(self).indent as nat),
        decreases value, 0int,
    {
        let ghost start = dest@;
        let ghost tab = self.tab@;
        let ghost d = self.indent as nat;
        let items = match value {
            JsonData::List(x) => x,
            _ => {
                return;
            },
        };
        push_char(dest, '[');
        self.indent = self.indent + 1;
        self.line_break(dest);
        let ghost opened = dest@;
        let mut i: usize = 0;
        while i < items.len()
            invariant
                *value == JsonData::List(*items),
                self.tab@ == tab,
                self.indent == d + 1,
                d + nesting(value) <= usize::MAX,
                0 <= i <= items@.len(),
                dest@ == opened + items_text(value, tab, d + 1, i as int),
            decreases items@.len() - i,
        {
            if i > 0 {
                push_char(dest, ',');
                self.line_break(dest);
            }
            proof {
                lemma_item_nesting(value, items@.len() as int, i as int);
                assert(decreases_to!(*value => value->List_0));
                assert(decreases_to!(value->List_0 => (value->List_0)@[i as int]));
            }
            self.write(&items[i], dest);
            i += 1;
        }
        self.indent = self.indent - 1;
        self.line_break(dest);
        push_char(dest, ']');
        proof {
            assert(dest@ =~= start + json_text(value, tab, d));
        }
    }

    /// Appends the JSON text of the table `value` (see `json_text`).
    fn write_table(&mut self, value: &JsonData, dest: &mut String)
        requires
            value is Table,
            old(self).indent + nesting(value) <= usize::MAX,
        ensures
            final(self).tab@ == old(self).tab@,
            final(self).indent == old(self).indent,
            final(dest)@ == old(dest)@ + json_text(value, old(self).tab@, old(self).indent as nat),
        decreases value, 0int,
    {
        let ghost start = dest@;
        let ghost tab = self.tab@;
        let ghost d = self.indent as nat;
        let entries = match value {
            JsonData::Table(x) => x,
            _ => {
                return;
            },
        };
        push_char(dest, '{');
        self.indent = self.indent + 1;
        self.line_break(dest);
        let ghost opened = dest@;
        let mut i: usize = 0;
        while i < entries.len()
            invariant
                *value == JsonData::Table(*entries),
                self.tab@ == tab,
                self.indent == d + 1,
                d + nesting(value) <= usize::MAX,
                0 <= i <= entries@.len(),
                dest@ == opened + entries_text(value, tab, d + 1, i as int),
            decreases entries@.len() - i,
        {
            if i > 0 {
                push_char(dest, ',');
                self.line_break(dest);
            }
            proof {
                lemma_entry_nesting(value, entries@.len() as int, i as int);
                assert(decreases_to!(*value => value->Table_0));
                assert(decreases_to!(value->Table_0 => (value->Table_0)@[i as int]));
                assert(decreases_to!((value->Table_0)@[i as int] => (value->Table_0)@[i as int].1));
            }
            let ghost before = dest@;
            push_char(dest, '"');
            push_str(dest, entries[i].0.as_str());
            push_char(dest, '"');
            push_str(dest, ": ");
            self.write(&entries[i].1, dest);
            proof {
                let e = entry_text(entries@[i as int].0@, &entries@[i as int].1, tab, d + 1);
                assert(dest@ =~= before + e);
                assert(dest@ =~= opened + entries_text(value, tab, d + 1, i + 1));
            }
            i += 1;
        }
        self.indent = self.indent - 1;
        self.line_break(dest);
        push_char(dest, '}');
        proof {
            assert(dest@ =~= start + json_text(value, tab, d));
        }
    }
}


/// The JSON literals: `true` and `false` for the booleans (so two booleans
/// are written alike only when they are equal), `0` for nothing, `module`
/// for a module, an integer in decimal with a leading `-` when negative,
/// and a text between double quotes (`RAW` there for bytes that are not
/// text).
pub proof fn lemma_literal_texts(tab: Seq<char>, d: nat, b: bool, c: bool, i: i64, t: ServString)
    ensures
        json_text(&JsonData::Bool(true), tab, d) == "true"@,
        json_text(&JsonData::Bool(false), tab, d) == "false"@,
        json_text(&JsonData::Bool(b), tab, d) == json_text(&JsonData::Bool(c), tab, d) ==> b == c,
        json_text(&JsonData::Nil, tab, d) == "0"@,
        json_text(&JsonData::Module, tab, d) == "module"@,
        i >= 0 ==> json_text(&JsonData::Int(i), tab, d) == decimal(i as nat),
        i < 0 ==> json_text(&JsonData::Int(i), tab, d) == seq!['-'] + decimal((-i) as nat),
        as_text(t) matches Some(x) ==> json_text(&JsonData::Text(t), tab, d) == seq!['"'] + x + seq!['"'],
        as_text(t) is None ==> json_text(&JsonData::Text(t), tab, d) == "\"RAW\""@,
{
    reveal_strlit("RAW");
    reveal_strlit("\"RAW\"");
    assert(as_text(t) is None ==> json_text(&JsonData::Text(t), tab, d) =~= "\"RAW\""@);
    reveal_strlit("true");
    reveal_strlit("false");
    reveal_strlit("0");
    if b != c {
        assert(json_text(&JsonData::Bool(b), tab, d).len() != json_text(&JsonData::Bool(c), tab, d).len());
    }
}

/// A list of one item puts it on a line of its own one level deeper,
/// between `[` and `]`; a table of one entry puts `"key": value` there,
/// between `{` and `}`.
pub proof fn lemma_single_item_texts(list: JsonData, table: JsonData, tab: Seq<char>, d: nat)
    requires
        list is List && list->List_0@.len() == 1,
        table is Table && table->Table_0@.len() == 1,
    ensures
        json_text(&list, tab, d) == seq!['['] + seq!['\n'] + repeat(tab, d + 1) + json_text(&list->List_0@[0], tab, d + 1)
            + seq!['\n'] + repeat(tab, d) + seq![']'],
        json_text(&table, tab, d) == seq!['{'] + seq!['\n'] + repeat(tab, d + 1) + seq!['"'] + table->Table_0@[0].0@
            + seq!['"'] + seq![':', ' '] + json_text(&table->Table_0@[0].1, tab, d + 1) + seq!['\n'] + repeat(tab, d)
            + seq!['}'],
{
    reveal_strlit(": ");
    assert(": "@ =~= seq![':', ' ']);
    let e = table->Table_0@[0];
    assert(entries_text(&table, tab, d + 1, 1) == entry_text(e.0@, &e.1, tab, d + 1));
    assert(items_text(&list, tab, d + 1, 1) == json_text(&list->List_0@[0], tab, d + 1));
    assert(json_text(&list, tab, d) =~= seq!['['] + seq!['\n'] + repeat(tab, d + 1) + json_text(&list->List_0@[0], tab, d + 1)
            + seq!['\n'] + repeat(tab, d) + seq![']']);
    assert(json_text(&table, tab, d) =~= seq!['{'] + seq!['\n'] + repeat(tab, d + 1) + seq!['"'] + table->Table_0@[0].0@
            + seq!['"'] + seq![':', ' '] + json_text(&table->Table_0@[0].1, tab, d + 1) + seq!['\n'] + repeat(tab, d)
            + seq!['}']);
}

/// Items of a list are separated by a comma and a line break at their
/// depth: a list of two items is written `[`, the first on its line, `,`,
/// the second on its line, and `]` on a line at the list's own depth.
pub proof fn lemma_two_item_list(list: JsonData, tab: Seq<char>, d: nat)
    requires
        list is List && list->List_0@.len() == 2,
    ensures
        json_text(&list, tab, d) == seq!['['] + seq!['\n'] + repeat(tab, d + 1) + json_text(&list->List_0@[0], tab, d + 1)
            + seq![','] + seq!['\n'] + repeat(tab, d + 1) + json_text(&list->List_0@[1], tab, d + 1)
            + seq!['\n'] + repeat(tab, d) + seq![']'],
{
    assert(items_text(&list, tab, d + 1, 1) == json_text(&list->List_0@[0], tab, d + 1));
    assert(items_text(&list, tab, d + 1, 2) == items_text(&list, tab, d + 1, 1) + seq![','] + line_at(tab, d + 1)
        + json_text(&list->List_0@[1], tab, d + 1));
    assert(json_text(&list, tab, d) =~= seq!['['] + seq!['\n'] + repeat(tab, d + 1) + json_text(&list->List_0@[0], tab, d + 1)
            + seq![','] + seq!['\n'] + repeat(tab, d + 1) + json_text(&list->List_0@[1], tab, d + 1)
            + seq!['\n'] + repeat(tab, d) + seq![']']);
}

/// An indentation of `n` levels is `n` copies of the tab, one after the
/// other: its length is `n` times the tab's, and each copy is the tab.
pub proof fn lemma_indentation(t: Seq<char>, n: nat, k: int)
    requires
        0 <= k < n,
    ensures
        repeat(t, n).len() == n * t.len(),
        repeat(t, n).subrange(k * t.len(), (k + 1) * t.len()) == t,
    decreases n,
{
    lemma_repeat_len(t, n);
    if k == n - 1 {
        lemma_repeat_len(t, (n - 1) as nat);
        assert(repeat(t, n) == repeat(t, (n - 1) as nat) + t);
        assert((n - 1) * t.len() + t.len() == n * t.len()) by (nonlinear_arith)
            requires
                n > 0,
        ;
        assert(k * t.len() == (n - 1) * t.len());
        assert((k + 1) * t.len() == n * t.len());
        assert(repeat(t, n).subrange(k * t.len(), (k + 1) * t.len()) =~= t);
    } else {
        lemma_indentation(t, (n - 1) as nat, k);
        lemma_repeat_len(t, (n - 1) as nat);
        assert((k + 1) * t.len() <= (n - 1) * t.len()) by (nonlinear_arith)
            requires
                k + 1 <= n - 1,
        ;
        assert(k * t.len() >= 0) by (nonlinear_arith)
            requires
                k >= 0,
        ;
        assert(k * t.len() <= (k + 1) * t.len()) by (nonlinear_arith);
        assert(repeat(t, n) == repeat(t, (n - 1) as nat) + t);
        assert(repeat(t, n).subrange(k * t.len(), (k + 1) * t.len()) =~= repeat(t, (n - 1) as nat).subrange(
            k * t.len(),
            (k + 1) * t.len(),
        ));
    }
}

proof fn lemma_repeat_len(t: Seq<char>, n: nat)
    ensures
        repeat(t, n).len() == n * t.len(),
    decreases n,
{
    if n > 0 {
        lemma_repeat_len(t, (n - 1) as nat);
        assert(repeat(t, n) == repeat(t, (n - 1) as nat) + t);
        assert((n - 1) * t.len() + t.len() == n * t.len()) by (nonlinear_arith)
            requires
                n > 0,
        ;
    } else {
        assert(0 * t.len() == 0);
    }
}

} // verus!
