//! Character classes and string building blocks shared by the tokenizers.

use vstd::prelude::*;
use vstd::string::StringExecFns;

verus! {

/// Builds a `String` whose characters are exactly those of `chars`.
/// Trusted: calls `String::from_iter` over the chars; std documents that
/// collecting chars into a `String` yields those chars in order.
#[verifier::external_body]
pub(crate) fn string_from_chars(chars: &[char]) -> (r: String)
    ensures
        r@ == chars@,
{
    chars.iter().collect()
}

/// The characters of `s`, in order.
pub fn chars_of(s: &str) -> (r: Vec<char>)
    ensures
        r@ == s@,
{
    broadcast use vstd::string::group_string_axioms;
    let mut v: Vec<char> = Vec::new();
    for c in it: s.chars()
        invariant
            v@ == it.seq().take(it.index() as int),
    {
        v.push(c);
    }
    v
}

/// The decimal digit character for `d`.
pub open spec fn digit_char(d: nat) -> char {
    if d == 0 { '0' } else if d == 1 { '1' } else if d == 2 { '2' } else if d == 3 { '3' }
    else if d == 4 { '4' } else if d == 5 { '5' } else if d == 6 { '6' } else if d == 7 { '7' }
    else if d == 8 { '8' } else { '9' }
}

fn digit(d: u64) -> (c: char)
    requires
        d < 10,
    ensures
        c == digit_char(d as nat),
{
    if d == 0 { '0' } else if d == 1 { '1' } else if d == 2 { '2' } else if d == 3 { '3' }
    else if d == 4 { '4' } else if d == 5 { '5' } else if d == 6 { '6' } else if d == 7 { '7' }
    else if d == 8 { '8' } else { '9' }
}

/// The decimal representation of `n`, without leading zeros.
pub open spec fn decimal(n: nat) -> Seq<char>
    decreases n,
{
    if n < 10 {
        seq![digit_char(n)]
    } else {
        decimal(n / 10).push(digit_char(n % 10))
    }
}

fn push_decimal(n: u64, out: &mut Vec<char>)
    ensures
        final(out)@ == old(out)@ + decimal(n as nat),
    decreases n,
{
    if n >= 10 {
        push_decimal(n / 10, out);
    }
    let c = digit(n % 10);
    out.push(c);
    proof {
        if n >= 10 {
            assert(old(out)@ + decimal(n as nat) =~= old(out)@ + decimal((n / 10) as nat) + seq![digit_char((n % 10) as nat)]);
        } else {
            assert(old(out)@ + decimal(n as nat) =~= old(out)@.push(digit_char(n as nat)));
        }
    }
}

/// The decimal representation of `n`, as `n.to_string()` gives it.
pub fn decimal_string(n: u64) -> (r: String)
    ensures
        r@ == decimal(n as nat),
{
    let mut v: Vec<char> = Vec::new();
    push_decimal(n, &mut v);
    assert(v@ =~= decimal(n as nat));
    string_from_chars(v.as_slice())
}

/// Appends `t` to `s`.
pub(crate) fn push_str(s: &mut String, t: &str)
    ensures
        final(s)@ == old(s)@ + t@,
{
    s.append(t);
}

/// Appends `c` to `s`.
/// Trusted: calls `String::push`, which std documents as appending the
/// given char to the end of the string.
#[verifier::external_body]
pub(crate) fn push_char(s: &mut String, c: char)
    ensures
        final(s)@ == old(s)@.push(c),
{
    s.push(c);
}

/// The code of a character with ASCII capitals `A` to `Z` moved to `a`
/// to `z`.
pub open spec fn lower_code(c: char) -> int {
    if 'A' <= c && c <= 'Z' {
        c as int + 32
    } else {
        c as int
    }
}

/// Whether two texts are equal when ASCII letters are compared without
/// regard to case, as `str::eq_ignore_ascii_case` compares them.
pub open spec fn same_ignoring_case(a: Seq<char>, b: Seq<char>) -> bool {
    a.len() == b.len() && forall|i: int| 0 <= i < a.len() ==> lower_code(#[trigger] a[i]) == lower_code(b[i])
}

fn lower_of(c: char) -> (r: u32)
    ensures
        r as int == lower_code(c),
{
    let x = c as u32;
    if 'A' <= c && c <= 'Z' {
        x + 32
    } else {
        x
    }
}

/// Compares two texts ignoring the case of ASCII letters (see
/// `same_ignoring_case`).
pub fn eq_ignore_case(a: &str, b: &str) -> (r: bool)
    ensures
        r == same_ignoring_case(a@, b@),
{
    let x = chars_of(a);
    let y = chars_of(b);
    if x.len() != y.len() {
        return false;
    }
    let mut i: usize = 0;
    while i < x.len()
        invariant
            x@ == a@,
            y@ == b@,
            x@.len() == y@.len(),
            0 <= i <= x@.len(),
            forall|j: int| 0 <= j < i ==> lower_code(#[trigger] x@[j]) == lower_code(y@[j]),
        decreases x@.len() - i,
    {
        if lower_of(x[i]) != lower_of(y[i]) {
            return false;
        }
        i += 1;
    }
    true
}

/// A `String` holding the characters of `t`.
pub fn string_of(t: &str) -> (r: String)
    ensures
        r@ == t@,
{
    t.to_owned()
}

/// Whether `c` has the Unicode `Alphabetic` property, as `char::is_alphabetic`
/// reports it. The property is a Unicode data table; it is named, not spelled out.
pub uninterp spec fn char_is_alphabetic(c: char) -> bool;

/// Trusted: calls `char::is_alphabetic`. Its result is a function of `c`
/// alone (the Unicode `Alphabetic` table), named `char_is_alphabetic`; among
/// ASCII characters exactly the letters `a` to `z` and `A` to `Z` have the
/// property.
#[verifier::external_body]
pub(crate) fn is_alphabetic(c: char) -> (r: bool)
    ensures
        r == char_is_alphabetic(c),
        c < '\u{80}' ==> (r <==> (('a' <= c && c <= 'z') || ('A' <= c && c <= 'Z'))),
{
    c.is_alphabetic()
}

/// A decimal digit, as `char::is_digit(10)` accepts it: '0' through '9'.
pub open spec fn is_decimal_digit(c: char) -> bool {
    '0' <= c && c <= '9'
}

/// `char::is_digit(10)`: whether `c` is one of '0' through '9'.
pub fn is_digit(c: char) -> (r: bool)
    ensures
        r == is_decimal_digit(c),
{
    '0' <= c && c <= '9'
}

/// The Unicode `White_Space` characters, which `char::is_whitespace` accepts.
pub open spec fn is_white_space(c: char) -> bool {
    ||| ('\u{9}' <= c && c <= '\u{d}')
    ||| c == ' '
    ||| c == '\u{85}'
    ||| c == '\u{a0}'
    ||| c == '\u{1680}'
    ||| ('\u{2000}' <= c && c <= '\u{200a}')
    ||| c == '\u{2028}'
    ||| c == '\u{2029}'
    ||| c == '\u{202f}'
    ||| c == '\u{205f}'
    ||| c == '\u{3000}'
}

/// `char::is_whitespace`: whether `c` is a Unicode `White_Space` character.
pub fn is_whitespace(c: char) -> (r: bool)
    ensures
        r == is_white_space(c),
{
    ('\u{9}' <= c && c <= '\u{d}') || c == ' ' || c == '\u{85}' || c == '\u{a0}'
        || c == '\u{1680}' || ('\u{2000}' <= c && c <= '\u{200a}') || c == '\u{2028}'
        || c == '\u{2029}' || c == '\u{202f}' || c == '\u{205f}' || c == '\u{3000}'
}

/// The index of the first character at or after `p` that fails `pred`, or the
/// length of `s` when every character from `p` on passes it.
pub open spec fn scan(s: Seq<char>, p: int, pred: spec_fn(char) -> bool) -> int
    decreases s.len() - p,
{
    if p < 0 || p >= s.len() || !pred(s[p]) {
        p
    } else {
        scan(s, p + 1, pred)
    }
}

/// `scan` never moves backwards, and never passes the end.
pub proof fn lemma_scan_bounds(s: Seq<char>, p: int, pred: spec_fn(char) -> bool)
    requires
        0 <= p <= s.len(),
    ensures
        p <= scan(s, p, pred) <= s.len(),
        p < s.len() && pred(s[p]) ==> scan(s, p, pred) > p,
    decreases s.len() - p,
{
    if p < s.len() && pred(s[p]) {
        lemma_scan_bounds(s, p + 1, pred);
    }
}

/// Where `scan` stops short of the end, the character there fails `pred`,
/// and every character it passed over passes it.
pub proof fn lemma_scan_end(s: Seq<char>, p: int, pred: spec_fn(char) -> bool)
    requires
        0 <= p <= s.len(),
    ensures
        scan(s, p, pred) < s.len() ==> !pred(s[scan(s, p, pred)]),
        forall|i: int| p <= i < scan(s, p, pred) ==> pred(#[trigger] s[i]),
    decreases s.len() - p,
{
    if p < s.len() && pred(s[p]) {
        lemma_scan_end(s, p + 1, pred);
    }
}

/// The place where a run of characters passing `pred` ends is `scan`.
pub proof fn lemma_scan_stop(s: Seq<char>, p: int, q: int, pred: spec_fn(char) -> bool)
    requires
        0 <= p <= q <= s.len(),
        forall|i: int| p <= i < q ==> pred(#[trigger] s[i]),
        q < s.len() ==> !pred(s[q]),
    ensures
        scan(s, p, pred) == q,
    decreases q - p,
{
    if p < q {
        lemma_scan_stop(s, p + 1, q, pred);
    }
}


/// The pieces of `s` between occurrences of `sep`, as `str::split` with a
/// single character gives them: `k` separators make `k + 1` pieces, empty
/// ones included.
pub open spec fn split_on(s: Seq<char>, sep: char) -> Seq<Seq<char>>
    decreases s.len(),
{
    if s.len() == 0 {
        seq![Seq::empty()]
    } else {
        let p = split_on(s.drop_last(), sep);
        if s.last() == sep {
            p.push(Seq::empty())
        } else {
            p.update(p.len() - 1, p.last().push(s.last()))
        }
    }
}

/// `split_on` always yields at least one piece.
pub proof fn lemma_split_nonempty(s: Seq<char>, sep: char)
    ensures
        split_on(s, sep).len() >= 1,
    decreases s.len(),
{
    if s.len() > 0 {
        lemma_split_nonempty(s.drop_last(), sep);
    }
}

/// The views of a list of strings.
pub open spec fn views(v: Seq<String>) -> Seq<Seq<char>> {
    v.map_values(|x: String| x@)
}

/// Splits `s` at every `sep`, as `s.split(sep)` collected into strings.
pub fn split_text(s: &str, sep: char) -> (r: Vec<String>)
    ensures
        views(r@) == split_on(s@, sep),
{
    let chars = chars_of(s);
    let mut out: Vec<String> = Vec::new();
    let mut cur: Vec<char> = Vec::new();
    let mut i: usize = 0;
    while i < chars.len()
        invariant
            chars@ == s@,
            0 <= i <= chars.len(),
            views(out@).push(cur@) == split_on(chars@.take(i as int), sep),
        decreases chars.len() - i,
    {
        proof {
            assert(chars@.take(i + 1).drop_last() =~= chars@.take(i as int));
            lemma_split_nonempty(chars@.take(i as int), sep);
        }
        let c = chars[i];
        if c == sep {
            let piece = string_from_chars(cur.as_slice());
            proof {
                assert(views(out@.push(piece)) =~= views(out@).push(cur@));
            }
            out.push(piece);
            cur = Vec::new();
            proof {
                assert(views(out@).push(cur@) =~= split_on(chars@.take(i + 1), sep));
            }
        } else {
            let ghost before = cur@;
            cur.push(c);
            proof {
                let p = split_on(chars@.take(i as int), sep);
                assert(p.last() == before);
                assert(views(out@).push(cur@) =~= p.update(p.len() - 1, p.last().push(c)));
            }
        }
        i += 1;
    }
    let last = string_from_chars(cur.as_slice());
    proof {
        assert(chars@.take(chars.len() as int) =~= chars@);
        assert(views(out@.push(last)) =~= views(out@).push(cur@));
    }
    out.push(last);
    out
}

/// The strings of `parts` with `sep` between each two, as
/// `Itertools::join` writes them.
pub open spec fn join_with(parts: Seq<Seq<char>>, sep: Seq<char>) -> Seq<char>
    decreases parts.len(),
{
    if parts.len() == 0 {
        Seq::empty()
    } else if parts.len() == 1 {
        parts[0]
    } else {
        join_with(parts.drop_last(), sep) + sep + parts.last()
    }
}

/// Joins `parts` with `sep` between each two.
pub fn join_text(parts: &Vec<String>, sep: &str) -> (r: String)
    ensures
        r@ == join_with(views(parts@), sep@),
{
    let mut out = String::new();
    let mut i: usize = 0;
    while i < parts.len()
        invariant
            0 <= i <= parts.len(),
            out@ == join_with(views(parts@.take(i as int)), sep@),
        decreases parts.len() - i,
    {
        proof {
            assert(views(parts@.take(i + 1)).drop_last() =~= views(parts@.take(i as int)));
        }
        if i > 0 {
            push_str(&mut out, sep);
        }
        push_str(&mut out, parts[i].as_str());
        i += 1;
        proof {
            let vs = views(parts@.take(i as int));
            if i == 1 {
                assert(out@ =~= vs[0]);
            }
        }
    }
    proof {
        assert(parts@.take(parts.len() as int) =~= parts@);
    }
    out
}


/// Whether `a` and `b` hold the same characters.
pub fn same_text(a: &str, b: &str) -> (r: bool)
    ensures
        r == (a@ == b@),
{
    let x = chars_of(a);
    let y = chars_of(b);
    if x.len() != y.len() {
        return false;
    }
    let mut i: usize = 0;
    while i < x.len()
        invariant
            x@ == a@,
            y@ == b@,
            x@.len() == y@.len(),
            0 <= i <= x.len(),
            forall|k: int| 0 <= k < i ==> x@[k] == y@[k],
        decreases x.len() - i,
    {
        if x[i] != y[i] {
            return false;
        }
        i += 1;
    }
    assert(x@ =~= y@);
    true
}


/// Splitting at a separator and joining the pieces with it gives back the
/// text: no character is lost or added.
pub proof fn lemma_split_join(s: Seq<char>, sep: char)
    ensures
        join_with(split_on(s, sep), seq![sep]) == s,
    decreases s.len(),
{
    if s.len() == 0 {
        assert(split_on(s, sep) =~= seq![Seq::<char>::empty()]);
        assert(s =~= Seq::<char>::empty());
    } else {
        let t = s.drop_last();
        let x = s.last();
        let p = split_on(t, sep);
        lemma_split_join(t, sep);
        lemma_split_nonempty(t, sep);
        if x == sep {
            let q = p.push(Seq::empty());
            assert(q.drop_last() =~= p);
            assert(join_with(q, seq![sep]) =~= t + seq![sep] + Seq::<char>::empty());
            assert(t + seq![sep] + Seq::<char>::empty() =~= s);
        } else {
            let q = p.update(p.len() - 1, p.last().push(x));
            if p.len() == 1 {
                assert(join_with(q, seq![sep]) == q[0]);
                assert(q[0] =~= s);
            } else {
                assert(q.drop_last() =~= p.drop_last());
                assert(join_with(q, seq![sep]) == join_with(p.drop_last(), seq![sep]) + seq![sep] + p.last().push(x));
                assert(join_with(p, seq![sep]) == join_with(p.drop_last(), seq![sep]) + seq![sep] + p.last());
                assert(join_with(p.drop_last(), seq![sep]) + seq![sep] + p.last().push(x) =~= t.push(x));
                assert(t.push(x) =~= s);
            }
        }
    }
}

} // verus!
