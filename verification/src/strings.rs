//! Strings of the language: text in curly brackets, which may hold
//! balanced pairs of nested brackets without escaping. The parser keeps
//! every character of such a string: read and printed again, it is the
//! text it was read from.

use vstd::prelude::*;
use crate::ast::{elements_text, template_text, ElementV, PatternV, Template, TemplateElement, TemplateV, WordV};
use crate::lexer::{is_route_char, is_space_char, is_text_char, lex_template, lex_template_body, lex_top, lexable, prepend, Tok, TokenKind};
use crate::parser::{is_kept, kept, program, program_ptoks};
use crate::text::{is_white_space, lemma_scan_bounds, lemma_scan_end, lemma_scan_stop, scan};
use crate::parser::{adv, spec_parse_declaration, spec_parse_expression, spec_parse_root, spec_parse_template, spec_parse_word, spec_template_elements, PTok};

verus! {

/// The text of a template made of text and nested templates: its opening
/// bracket, its pieces, its closing bracket. (An embedded expression adds
/// nothing here.)
pub open spec fn tv_text(t: TemplateV) -> Seq<char>
    decreases t,
{
    t.open + els_text(t.elements) + t.close
}

/// The text of a template's pieces, in order.
pub open spec fn els_text(es: Seq<ElementV>) -> Seq<char>
    decreases es,
{
    if es.len() == 0 {
        Seq::empty()
    } else {
        proof {
            assert(decreases_to!(es => es.drop_last()));
            assert(decreases_to!(es => es[es.len() - 1]));
        }
        els_text(es.drop_last()) + match es[es.len() - 1] {
            ElementV::Text(s) => s,
            ElementV::Template(c) => tv_text(c),
            ElementV::Expression(_) => Seq::empty(),
        }
    }
}

/// Whether a template holds no embedded expression, at any depth.
pub open spec fn no_expr_tv(t: TemplateV) -> bool
    decreases t,
{
    no_expr_els(t.elements)
}

/// Whether pieces hold no embedded expression, at any depth.
pub open spec fn no_expr_els(es: Seq<ElementV>) -> bool
    decreases es,
{
    if es.len() == 0 {
        true
    } else {
        proof {
            assert(decreases_to!(es => es.drop_last()));
            assert(decreases_to!(es => es[es.len() - 1]));
        }
        no_expr_els(es.drop_last()) && match es[es.len() - 1] {
            ElementV::Text(_) => true,
            ElementV::Template(c) => no_expr_tv(c),
            ElementV::Expression(_) => false,
        }
    }
}

/// The texts of tokens `a` up to (not including) `b`, one after another.
pub open spec fn toks_text(ts: Seq<PTok>, a: int, b: int) -> Seq<char>
    decreases b - a,
{
    if a >= b || a < 0 || b > ts.len() {
        Seq::empty()
    } else {
        ts[a].1 + toks_text(ts, a + 1, b)
    }
}

/// Where the pieces of a template that start at `j` end: the closing
/// bracket that matches, where the tokens from `j` are texts and nested
/// bracket pairs only.
pub open spec fn wb_elems(ts: Seq<PTok>, j: int) -> Option<int>
    decreases ts.len() - j,
{
    if j < 0 || j >= ts.len() {
        None
    } else if ts[j].0 == TokenKind::TemplateClose {
        Some(j)
    } else if ts[j].0 == TokenKind::TemplateText {
        wb_elems(ts, j + 1)
    } else if ts[j].0 == TokenKind::TemplateOpen {
        match wb_elems(ts, j + 1) {
            Some(c) => if j < c < ts.len() {
                wb_elems(ts, c + 1)
            } else {
                None
            },
            None => None,
        }
    } else {
        None
    }
}

/// The texts of consecutive stretches of tokens join up.
proof fn lemma_toks_text_split(ts: Seq<PTok>, a: int, b: int, c: int)
    requires
        0 <= a <= b <= c <= ts.len(),
    ensures
        toks_text(ts, a, c) == toks_text(ts, a, b) + toks_text(ts, b, c),
    decreases b - a,
{
    if a < b {
        lemma_toks_text_split(ts, a + 1, b, c);
        assert(toks_text(ts, a, c) == ts[a].1 + toks_text(ts, a + 1, c));
        assert(toks_text(ts, a, b) == ts[a].1 + toks_text(ts, a + 1, b));
        assert(toks_text(ts, a, c) =~= toks_text(ts, a, b) + toks_text(ts, b, c));
    } else {
        assert(toks_text(ts, a, b) =~= Seq::<char>::empty());
        assert(toks_text(ts, a, c) =~= toks_text(ts, a, b) + toks_text(ts, b, c));
    }
}

/// Where the pieces from `j` are texts and bracket pairs, the parser reads
/// them all up to the matching closing bracket, and their text is that of
/// the tokens.
proof fn lemma_parse_elements(ts: Seq<PTok>, j: int, open: Seq<char>, elems: Seq<ElementV>)
    requires
        wb_elems(ts, j) is Some,
    ensures
        ({
            let c = wb_elems(ts, j)->0;
            &&& j <= c < ts.len()
            &&& spec_template_elements(ts, j, open, elems) matches (Ok(tv), c2) && c2 == c && tv.open == open
                && tv.close == ts[c].1 && els_text(tv.elements) == els_text(elems) + toks_text(ts, j, c)
                && (no_expr_els(elems) ==> no_expr_els(tv.elements))
        }),
    decreases ts.len() - j,
{
    let c = wb_elems(ts, j)->0;
    let t = ts[j];
    if t.0 == TokenKind::TemplateClose {
        assert(toks_text(ts, j, j) =~= Seq::<char>::empty());
        assert(els_text(elems) + toks_text(ts, j, c) =~= els_text(elems));
    } else if t.0 == TokenKind::TemplateText {
        let e2 = elems.push(ElementV::Text(t.1));
        lemma_parse_elements(ts, j + 1, open, e2);
        assert(e2.drop_last() =~= elems);
        if no_expr_els(elems) {
            assert(no_expr_els(e2));
        }
        assert(els_text(e2) == els_text(elems) + t.1);
        assert(toks_text(ts, j, c) == t.1 + toks_text(ts, j + 1, c));
        let r = spec_template_elements(ts, j + 1, open, e2);
        assert(els_text(r.0->Ok_0.elements) =~= els_text(elems) + toks_text(ts, j, c));
    } else {
        let c1 = wb_elems(ts, j + 1)->0;
        lemma_parse_elements(ts, j + 1, t.1, Seq::empty());
        let inner = spec_template_elements(ts, j + 1, t.1, Seq::empty()).0->Ok_0;
        assert(spec_parse_template(ts, j) == spec_template_elements(ts, j + 1, t.1, Seq::empty()));
        assert(adv(ts, c1) == c1 + 1);
        let e2 = elems.push(ElementV::Template(inner));
        lemma_parse_elements(ts, c1 + 1, open, e2);
        assert(e2.drop_last() =~= elems);
        assert(no_expr_els(Seq::<ElementV>::empty()));
        assert(no_expr_tv(inner));
        if no_expr_els(elems) {
            assert(no_expr_els(e2));
        }
        assert(els_text(e2) == els_text(elems) + tv_text(inner));
        assert(els_text(Seq::<ElementV>::empty()) =~= Seq::<char>::empty());
        assert(tv_text(inner) =~= t.1 + toks_text(ts, j + 1, c1) + ts[c1].1);
        lemma_toks_text_split(ts, j + 1, c1, c1 + 1);
        assert(toks_text(ts, c1 + 1, c1 + 1) =~= Seq::<char>::empty());
        assert(toks_text(ts, c1, c1 + 1) =~= ts[c1].1);
        assert(toks_text(ts, j, c1 + 1) == t.1 + toks_text(ts, j + 1, c1 + 1));
        lemma_toks_text_split(ts, j, c1 + 1, c);
        let r = spec_template_elements(ts, c1 + 1, open, e2);
        assert(els_text(r.0->Ok_0.elements) =~= els_text(elems) + toks_text(ts, j, c));
    }
}

/// A template whose tokens are texts and nested bracket pairs up to the
/// matching closing bracket is read whole, and prints as the texts of its
/// tokens: the parser loses and adds nothing.
pub proof fn lemma_parsed_template_text(ts: Seq<PTok>, i: int)
    requires
        0 <= i < ts.len(),
        ts[i].0 == TokenKind::TemplateOpen,
        wb_elems(ts, i + 1) is Some,
    ensures
        spec_parse_template(ts, i) matches (Ok(tv), c) && c == wb_elems(ts, i + 1)->0 && tv_text(tv)
            == toks_text(ts, i, c + 1) && no_expr_tv(tv),
{
    assert(no_expr_els(Seq::<ElementV>::empty()));
    let c = wb_elems(ts, i + 1)->0;
    lemma_parse_elements(ts, i + 1, ts[i].1, Seq::empty());
    let tv = spec_template_elements(ts, i + 1, ts[i].1, Seq::empty()).0->Ok_0;
    assert(els_text(Seq::<ElementV>::empty()) =~= Seq::<char>::empty());
    lemma_toks_text_split(ts, i + 1, c, c + 1);
    assert(toks_text(ts, c + 1, c + 1) =~= Seq::<char>::empty());
    assert(toks_text(ts, c, c + 1) =~= ts[c].1);
    assert(toks_text(ts, i, c + 1) == ts[i].1 + toks_text(ts, i + 1, c + 1));
    assert(tv_text(tv) =~= toks_text(ts, i, c + 1));
}


/// How many brackets are open after the first `k` characters of `s`.
pub open spec fn depth(s: Seq<char>, k: int) -> int
    decreases k,
{
    if k <= 0 || k > s.len() {
        0
    } else {
        depth(s, k - 1) + if s[k - 1] == '{' {
            1int
        } else if s[k - 1] == '}' {
            -1int
        } else {
            0int
        }
    }
}

/// No character before `hi` is one that a template treats specially
/// besides its brackets.
pub open spec fn plain_below(s: Seq<char>, hi: int) -> bool {
    forall|k: int| 0 <= k < hi ==> (#[trigger] s[k]) != '$' && s[k] != '\\' && s[k] != '"'
}

/// The first place from `k` on (up to `hi`) where at most `v` brackets are
/// open.
pub open spec fn first_drop(s: Seq<char>, k: int, v: int, hi: int) -> int
    decreases hi - k,
{
    if k >= hi {
        hi
    } else if depth(s, k) <= v {
        k
    } else {
        first_drop(s, k + 1, v, hi)
    }
}

proof fn lemma_first_drop(s: Seq<char>, k: int, v: int, hi: int)
    requires
        k <= hi,
        depth(s, hi) <= v,
    ensures
        k <= first_drop(s, k, v, hi) <= hi,
        depth(s, first_drop(s, k, v, hi)) <= v,
        forall|j: int| k <= j < first_drop(s, k, v, hi) ==> depth(s, j) > v,
    decreases hi - k,
{
    if k < hi && depth(s, k) > v {
        lemma_first_drop(s, k + 1, v, hi);
    }
}

/// A lexer token as the parser sees it: its kind and its text in `s`.
pub open spec fn pt(s: Seq<char>, t: Tok) -> PTok {
    (t.0, s.subrange(t.1, t.2))
}

/// Lexer tokens as the parser sees them.
pub open spec fn pts(s: Seq<char>, t: Seq<Tok>) -> Seq<PTok> {
    t.map_values(|x: Tok| pt(s, x))
}

/// The inside of a template of plain text and brackets, from `q` where `d`
/// brackets are open up to `e`, the first place after it where one fewer
/// is open: the lexer reads it into texts and bracket pairs up to its
/// closing bracket at `e`, with nothing left out, wherever its tokens stand
/// among others.
proof fn lemma_body_tokens(s: Seq<char>, q: int, d: int, e: int, before: Seq<PTok>, after: Seq<PTok>)
    requires
        0 <= q < e <= s.len(),
        depth(s, q) == d,
        depth(s, e) == d - 1,
        forall|k: int| q <= k < e ==> depth(s, k) >= d,
        forall|k: int| q <= k < e ==> (#[trigger] s[k]) != '$' && s[k] != '\\' && s[k] != '"',
    ensures
        lex_template_body(s, q) is Some,
        ({
            let (t, r) = lex_template_body(s, q)->0;
            let m = pts(s, t);
            let ts = before + m + after;
            &&& r == e
            &&& m.len() >= 1
            &&& t.last().0 == TokenKind::TemplateClose
            &&& forall|i: int| 0 <= i < t.len() ==> (#[trigger] t[i]).0 == TokenKind::TemplateOpen || t[i].0
                == TokenKind::TemplateText || t[i].0 == TokenKind::TemplateClose
            &&& wb_elems(ts, before.len() as int) == Some(before.len() + m.len() - 1)
            &&& toks_text(ts, before.len() as int, (before.len() + m.len()) as int) == s.subrange(q, r)
        }),
    decreases e - q,
{
    let c = s[q];
    let n = before.len() as int;
    assert(depth(s, q + 1) == depth(s, q) + if c == '{' { 1int } else if c == '}' { -1int } else { 0int });
    if c == '}' {
        if q + 1 < e {
            assert(depth(s, q + 1) >= d);
        }
        let t = seq![(TokenKind::TemplateClose, q, q + 1)];
        let m = pts(s, t);
        let ts = before + m + after;
        assert(ts[n] == m[0]);
        assert(toks_text(ts, n + 1, n + 1) =~= Seq::<char>::empty());
        assert(toks_text(ts, n, n + 1) =~= s.subrange(q, q + 1));
    } else if c == '{' {
        lemma_first_drop(s, q + 1, d, e);
        let e1 = first_drop(s, q + 1, d, e);
        assert(depth(s, e1 - 1) > d);
        assert(depth(s, e1) == depth(s, e1 - 1) + if s[e1 - 1] == '{' { 1int } else if s[e1 - 1] == '}' { -1int } else { 0int });
        assert(depth(s, e1) == d);
        assert(e1 < e);
        let open = (TokenKind::TemplateOpen, q, q + 1);
        lemma_body_tokens(s, q + 1, d + 1, e1, before + seq![pt(s, open)], Seq::empty());
        let (t1, q2) = lex_template_body(s, q + 1)->0;
        let m1 = pts(s, t1);
        assert(lex_template(s, q) == Some((seq![open] + t1, q2)));
        lemma_body_tokens(s, e1, d, e, before + pts(s, seq![open] + t1), after);
        let (t2, r) = lex_template_body(s, q2)->0;
        let t = seq![open] + t1 + t2;
        assert(lex_template_body(s, q) == Some((t, r)));
        let m2 = pts(s, t2);
        let m = pts(s, t);
        assert(pts(s, seq![open] + t1) =~= seq![pt(s, open)] + m1);
        assert(m =~= seq![pt(s, open)] + m1 + m2);
        let ts = before + m + after;
        lemma_body_tokens(s, q + 1, d + 1, e1, before + seq![pt(s, open)], m2 + after);
        assert(before + seq![pt(s, open)] + m1 + (m2 + after) =~= ts);
        assert(before + pts(s, seq![open] + t1) + m2 + after =~= ts);
        assert(ts[n] == pt(s, open));
        let c1 = n + m1.len();
        assert(wb_elems(ts, n + 1) == Some(c1));
        assert(wb_elems(ts, c1 + 1) == Some(n + m.len() - 1));
        assert(wb_elems(ts, n) == Some(n + m.len() - 1));
        assert(forall|i: int| 0 <= i < t.len() ==> (#[trigger] t[i]) == if i == 0 { open } else if i < 1 + t1.len() {
            t1[i - 1]
        } else {
            t2[i - 1 - t1.len()]
        });
        lemma_toks_text_split(ts, n + 1, c1 + 1, n + m.len());
        assert(toks_text(ts, n, n + m.len()) == ts[n].1 + toks_text(ts, n + 1, n + m.len()));
        assert(s.subrange(q, q + 1) + s.subrange(q + 1, q2) + s.subrange(q2, r) =~= s.subrange(q, r));
    } else {
        let q2 = scan(s, q, |x: char| is_text_char(x));
        lemma_scan_bounds(s, q, |x: char| is_text_char(x));
        lemma_scan_end(s, q, |x: char| is_text_char(x));
        lemma_flat_depth(s, q, q2);
        if q2 >= e {
            assert(depth(s, e) == d);
        }
        let text = (TokenKind::TemplateText, q, q2);
        lemma_body_tokens(s, q2, d, e, before + seq![pt(s, text)], after);
        let (t2, r) = lex_template_body(s, q2)->0;
        let t = seq![text] + t2;
        assert(lex_template_body(s, q) == Some((t, r)));
        let m2 = pts(s, t2);
        let m = pts(s, t);
        assert(m =~= seq![pt(s, text)] + m2);
        let ts = before + m + after;
        assert(before + seq![pt(s, text)] + m2 + after =~= ts);
        assert(ts[n] == pt(s, text));
        assert(forall|i: int| 0 <= i < t.len() ==> (#[trigger] t[i]) == if i == 0 { text } else { t2[i - 1] });
        assert(toks_text(ts, n, n + m.len()) == ts[n].1 + toks_text(ts, n + 1, n + m.len()));
        assert(s.subrange(q, q2) + s.subrange(q2, r) =~= s.subrange(q, r));
    }
}

/// Over a run of text characters the number of open brackets stays the same.
proof fn lemma_flat_depth(s: Seq<char>, a: int, b: int)
    requires
        0 <= a <= b <= s.len(),
        forall|k: int| a <= k < b ==> is_text_char(#[trigger] s[k]),
    ensures
        forall|k: int| a <= k <= b ==> #[trigger] depth(s, k) == depth(s, a),
    decreases b - a,
{
    if a < b {
        lemma_flat_depth(s, a, b - 1);
        assert(is_text_char(s[b - 1]));
        assert(depth(s, b) == depth(s, b - 1));
    }
}

/// Keeping the tokens of two stretches keeps those of each.
proof fn lemma_kept_concat(a: Seq<Tok>, b: Seq<Tok>)
    ensures
        kept(a + b) == kept(a) + kept(b),
    decreases b.len(),
{
    if b.len() == 0 {
        assert(a + b =~= a);
        assert(kept(a) + kept(b) =~= kept(a));
    } else {
        lemma_kept_concat(a, b.drop_last());
        assert((a + b).drop_last() =~= a + b.drop_last());
        assert((a + b).last() == b.last());
        if is_kept(b.last()) {
            assert(kept(a) + kept(b) =~= (kept(a) + kept(b.drop_last())).push(b.last()));
        }
    }
}

/// Tokens that are all kept are kept as they are.
proof fn lemma_kept_all(a: Seq<Tok>)
    requires
        forall|i: int| 0 <= i < a.len() ==> is_kept(#[trigger] a[i]),
    ensures
        kept(a) == a,
    decreases a.len(),
{
    if a.len() > 0 {
        lemma_kept_all(a.drop_last());
        assert(is_kept(a[a.len() - 1]));
        assert(kept(a.drop_last()).push(a.last()) =~= a);
    }
}

/// Where a string that opens a program ends: just after its closing
/// bracket.
pub open spec fn string_end(s: Seq<char>) -> int {
    (lex_template(s, 0)->0).1
}

/// A string of plain text and balanced brackets at the start of a program
/// reads back as written: where the bracket that opens the program is
/// closed at `e`, and no `$`, `\\` or `"` comes before, the parser's
/// template prints as the text up to `e`, nested brackets and all.
pub proof fn lemma_string_reads_back(s: Seq<char>, e: int)
    requires
        0 < e <= s.len(),
        s[0] == '{',
        depth(s, e) == 0,
        forall|k: int| 1 <= k < e ==> depth(s, k) >= 1,
        plain_below(s, e),
        lexable(s),
    ensures
        string_end(s) == e,
        spec_parse_template(program_ptoks(s), 0) matches (Ok(tv), _) && tv_text(tv) == s.subrange(0, e)
            && no_expr_tv(tv),
{
    let open = (TokenKind::TemplateOpen, 0int, 1int);
    assert(depth(s, 1) == depth(s, 0) + 1);
    if e == 1 {
        assert(depth(s, 1) == 1);
    }
    lemma_body_tokens(s, 1, 1, e, seq![pt(s, open)], Seq::empty());
    let (t1, r) = lex_template_body(s, 1)->0;
    let big_t = seq![open] + t1;
    assert(lex_template(s, 0) == Some((big_t, r)));
    let rest = lex_top(s, r)->0;
    assert(lex_top(s, 0) == prepend(big_t, lex_top(s, r)));
    assert(lex_top(s, 0)->0 == big_t + rest);
    assert forall|i: int| 0 <= i < big_t.len() implies is_kept(#[trigger] big_t[i]) by {
        if i > 0 {
            assert(big_t[i] == t1[i - 1]);
        }
    }
    lemma_kept_all(big_t);
    lemma_kept_concat(big_t, rest);
    let after = pts(s, kept(rest));
    let ts = program_ptoks(s);
    assert(pts(s, big_t) =~= seq![pt(s, open)] + pts(s, t1));
    assert(ts =~= pts(s, big_t) + after);
    lemma_body_tokens(s, 1, 1, e, seq![pt(s, open)], after);
    assert(seq![pt(s, open)] + pts(s, t1) + after =~= ts);
    assert(ts[0] == pt(s, open));
    let c = pts(s, t1).len() as int;
    assert(wb_elems(ts, 1) == Some(c));
    lemma_parsed_template_text(ts, 0);
    assert(toks_text(ts, 0, c + 1) == ts[0].1 + toks_text(ts, 1, c + 1));
    assert(s.subrange(0, 1) + s.subrange(1, e) =~= s.subrange(0, e));
}


/// Where pieces hold no expression, none of them does.
proof fn lemma_no_expr_at(es: Seq<ElementV>, i: int)
    requires
        no_expr_els(es),
        0 <= i < es.len(),
    ensures
        !(es[i] is Expression),
        es[i] matches ElementV::Template(c) ==> no_expr_tv(c),
        no_expr_els(es.take(i)),
    decreases es.len(),
{
    if i < es.len() - 1 {
        lemma_no_expr_at(es.drop_last(), i);
        assert(es.drop_last().take(i) =~= es.take(i));
    } else {
        assert(es.drop_last() =~= es.take(i));
    }
}

/// The text of the first `k` pieces of a template without expressions is
/// that of their views.
proof fn lemma_elements_view(t: &Template, k: int)
    requires
        0 <= k <= t.elements@.len(),
        no_expr_els(t.view().elements),
    ensures
        elements_text(t, k) == els_text(t.view().elements.take(k)),
    decreases t, 0int, k,
{
    let es = t.view().elements;
    if k == 0 {
        assert(es.take(0) =~= Seq::<ElementV>::empty());
    } else {
        lemma_elements_view(t, k - 1);
        lemma_no_expr_at(es, k - 1);
        assert(es.take(k).drop_last() =~= es.take(k - 1));
        assert(es.take(k)[k - 1] == es[k - 1]);
        assert(es[k - 1] == t.elements@[k - 1].view());
        match &t.elements@[k - 1] {
            TemplateElement::Template(c) => {
                assert(decreases_to!(t => t.elements@[k - 1]));
                lemma_template_view(c);
            },
            _ => {},
        }
    }
}

/// A template without expressions prints as its view's text.
proof fn lemma_template_view(t: &Template)
    requires
        no_expr_tv(t.view()),
    ensures
        template_text(t) == tv_text(t.view()),
    decreases t, 1int, 0int,
{
    lemma_elements_view(t, t.elements@.len() as int);
    assert(t.view().elements.take(t.elements@.len() as int) =~= t.view().elements);
}

/// A string of plain text and balanced brackets, once parsed, prints back
/// as the text it was read from: `Template::to_string` on what
/// `parse_template_from_text` gives for such a program is the program's
/// text up to the closing bracket.
pub proof fn lemma_parsed_string_prints_back(s: Seq<char>, e: int, t: &Template)
    requires
        0 < e <= s.len(),
        s[0] == '{',
        depth(s, e) == 0,
        forall|k: int| 1 <= k < e ==> depth(s, k) >= 1,
        plain_below(s, e),
        lexable(s),
        spec_parse_template(program_ptoks(s), 0).0 == Ok::<TemplateV, crate::parser::ParseError>(t.view()),
    ensures
        template_text(t) == s.subrange(0, e),
{
    lemma_string_reads_back(s, e);
    lemma_template_view(t);
}


/// Text placed after `a` leaves the bracket count inside `a` as it was.
proof fn lemma_depth_prefix(a: Seq<char>, b: Seq<char>, k: int)
    requires
        0 <= k <= a.len(),
    ensures
        depth(a + b, k) == depth(a, k),
    decreases k,
{
    if k > 0 {
        lemma_depth_prefix(a, b, k - 1);
        assert((a + b)[k - 1] == a[k - 1]);
    }
}

/// Inside text placed after `a`, the bracket count is that of `a` plus
/// that of the new text so far.
proof fn lemma_depth_concat(a: Seq<char>, b: Seq<char>, k: int)
    requires
        0 <= k <= b.len(),
    ensures
        depth(a + b, a.len() + k) == depth(a, a.len() as int) + depth(b, k),
    decreases k,
{
    if k > 0 {
        lemma_depth_concat(a, b, k - 1);
        assert((a + b)[a.len() + k - 1] == b[k - 1]);
    } else {
        lemma_depth_prefix(a, b, a.len() as int);
    }
}

/// A route declaration reads back as written: the program
/// `route => string`, where the route starts with `/` and holds no white
/// space and the string is plain text in balanced curly brackets, is
/// accepted by the lexer and parsed into exactly one declaration, of kind
/// `route`, keyed by the route, whose expression is that one string, which
/// prints as the text it was read from.
pub proof fn lemma_route_declaration_reads_back(r: Seq<char>, b: Seq<char>)
    requires
        r.len() > 0,
        r[0] == '/',
        forall|k: int| 0 <= k < r.len() ==> !is_white_space(#[trigger] r[k]),
        b.len() > 0,
        b[0] == '{',
        depth(b, b.len() as int) == 0,
        forall|k: int| 1 <= k < b.len() ==> depth(b, k) >= 1,
        plain_below(b, b.len() as int),
    ensures
        lexable(r + seq![' ', '=', '>', ' '] + b),
        ({
            let res = spec_parse_root(program_ptoks(r + seq![' ', '=', '>', ' '] + b), 0, seq![]).0;
            let ds = res->Ok_0;
            &&& res is Ok
            &&& ds.len() == 1
            &&& ds[0].kind == seq!['r', 'o', 'u', 't', 'e']
            &&& ds[0].key == PatternV::Key(r)
            &&& ds[0].value.words.len() == 1
            &&& !ds[0].value.meta
            &&& ds[0].value.words[0] is Template
            &&& tv_text(ds[0].value.words[0]->Template_0) == b
            &&& no_expr_tv(ds[0].value.words[0]->Template_0)
        }),
{
    let n = r.len() as int;
    let pre = r + seq![' ', '=', '>', ' '];
    let s = pre + b;
    let p = n + 4;
    let len = s.len() as int;
    assert(forall|k: int| 0 <= k < n ==> #[trigger] s[k] == r[k]);
    assert(s[n] == ' ' && s[n + 1] == '=' && s[n + 2] == '>' && s[n + 3] == ' ');
    assert(forall|k: int| 0 <= k < b.len() ==> #[trigger] s[p + k] == b[k]);
    assert(s[p] == '{');

    // The bracket count inside the string, offset by what the route holds.
    let dd = depth(pre, p);
    assert forall|k: int| 0 <= k <= b.len() implies #[trigger] depth(s, p + k) == dd + depth(b, k) by {
        lemma_depth_concat(pre, b, k);
    }
    assert(depth(b, 1) == depth(b, 0) + 1);
    assert(b.len() >= 2);
    assert(depth(s, p + 1) == dd + 1);
    assert(depth(s, len) == dd);
    assert forall|k: int| p + 1 <= k < len implies depth(s, k) >= dd + 1 by {
        assert(depth(s, p + (k - p)) == dd + depth(b, k - p));
    }
    assert forall|k: int| p + 1 <= k < len implies (#[trigger] s[k]) != '$' && s[k] != '\\' && s[k] != '"' by {
        assert(s[p + (k - p)] == b[k - p]);
    }

    // The lexer: the route, the arrow, the string, the end.
    let route = (TokenKind::Route, 0int, n);
    let arrow = (TokenKind::WideArrow, n + 1, n + 3);
    let open = (TokenKind::TemplateOpen, p, p + 1);
    let eoi = (TokenKind::EndOfInput, len, len);
    lemma_scan_stop(s, 0, n, |x: char| is_route_char(x));
    lemma_scan_stop(s, n, n + 1, |x: char| is_space_char(x));
    lemma_scan_stop(s, n + 3, n + 4, |x: char| is_space_char(x));
    let before = seq![pt(s, route), pt(s, arrow), pt(s, open)];
    lemma_body_tokens(s, p + 1, dd + 1, len, before, Seq::empty());
    let (t1, e1) = lex_template_body(s, p + 1)->0;
    assert(e1 == len);
    let big_t = seq![open] + t1;
    assert(lex_template(s, p) == Some((big_t, len)));
    assert(lex_top(s, len) == Some(seq![eoi]));
    assert(lex_top(s, p) == Some(big_t + seq![eoi]));
    assert(lex_top(s, n + 3) == lex_top(s, p));
    assert(lex_top(s, n + 1) == Some(seq![arrow] + (big_t + seq![eoi])));
    assert(lex_top(s, n) == lex_top(s, n + 1));
    let body = seq![route, arrow] + big_t;
    assert(lex_top(s, 0) == Some(seq![route] + (seq![arrow] + (big_t + seq![eoi]))));
    assert(lex_top(s, 0)->0 =~= body + seq![eoi]);

    // What the parser is handed: everything but the end marker.
    assert forall|i: int| 0 <= i < body.len() implies is_kept(#[trigger] body[i]) by {
        if i > 2 {
            assert(body[i] == t1[i - 3]);
        }
    }
    lemma_kept_all(body);
    lemma_kept_concat(body, seq![eoi]);
    assert(seq![eoi].drop_last() =~= Seq::<Tok>::empty());
    assert(!is_kept(seq![eoi].last()));
    assert(kept(Seq::<Tok>::empty()) =~= Seq::<Tok>::empty());
    assert(kept(seq![eoi]) =~= Seq::<Tok>::empty());
    assert(kept(body + seq![eoi]) =~= body);
    let m = pts(s, t1);
    let ts = program_ptoks(s);
    assert(ts =~= before + m + Seq::<PTok>::empty());
    assert(ts.len() == 3 + m.len());
    assert(ts[0] == pt(s, route));
    assert(ts[1] == pt(s, arrow));
    assert(ts[2] == pt(s, open));
    assert(s.subrange(0, n) =~= r);

    // The parser: one declaration whose expression is the string.
    let c = 2 + m.len() as int;
    assert(wb_elems(ts, 3) == Some(c));
    lemma_parsed_template_text(ts, 2);
    let tv = spec_parse_template(ts, 2).0->Ok_0;
    assert(adv(ts, c) == ts.len());
    let w = WordV::Template(tv);
    assert(spec_parse_word(ts, 2) == (Ok::<WordV, crate::parser::ParseError>(w), ts.len() as int));
    assert(spec_parse_word(ts, ts.len() as int).0 is Err);
    assert(!crate::parser::is_meta(seq![w]));
    let ev = crate::ast::ExpressionV { words: seq![w], meta: false };
    assert(spec_parse_expression(ts, ts.len() as int, seq![w]).0 == Ok::<crate::ast::ExpressionV, crate::parser::ParseError>(ev));
    assert(spec_parse_expression(ts, 2, seq![]).0 == Ok::<crate::ast::ExpressionV, crate::parser::ParseError>(ev));
    let dv = crate::ast::DeclarationV { kind: seq!['r', 'o', 'u', 't', 'e'], key: PatternV::Key(r), value: ev };
    assert(spec_parse_declaration(ts, 0) == (Ok::<crate::ast::DeclarationV, crate::parser::ParseError>(dv), ts.len() as int));
    assert(spec_parse_root(ts, ts.len() as int, seq![dv]).0 == Ok::<Seq<crate::ast::DeclarationV>, crate::parser::ParseError>(seq![dv]));
    assert(spec_parse_root(ts, 0, seq![]).0 == Ok::<Seq<crate::ast::DeclarationV>, crate::parser::ParseError>(seq![dv]));

    // The string prints as written.
    assert(toks_text(ts, 2, c + 1) == ts[2].1 + toks_text(ts, 3, c + 1));
    assert(ts[2].1 + s.subrange(p + 1, len) =~= b);
}

} // verus!
