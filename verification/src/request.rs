//! Reading the parts of a request that come as text: the query string of
//! its URL and its `Cookie` header.

use vstd::prelude::*;
use crate::engine::table_parser::{all_text, table_of, texts};
use crate::engine::Value;
use crate::table::{distinct_keys, put};
use crate::text::{chars_of, is_white_space, is_whitespace, lemma_scan_bounds, lemma_scan_end, lemma_scan_stop, scan,
    string_from_chars};

verus! {

/// Characters up to an `=`.
pub open spec fn not_equals() -> spec_fn(char) -> bool {
    |c: char| c != '='
}

/// Characters up to a separator `sep`.
pub open spec fn not_sep(sep: char) -> spec_fn(char) -> bool {
    |c: char| c != sep
}

/// The pairs `key=value` of `s` from `p` on, separated by `sep`: each key
/// runs to the next `=`, each value to the next `sep` (or the end). A pair
/// without `=` is a key whose value is empty.
pub open spec fn pairs_from(s: Seq<char>, p: int, sep: char) -> Seq<(Seq<char>, Seq<char>)>
    decreases s.len() - p,
{
    if p < 0 || p >= s.len() {
        Seq::empty()
    } else {
        let a = scan(s, p, not_equals());
        let b = if a < s.len() { a + 1 } else { a };
        let c = scan(s, b, not_sep(sep));
        let next = if c < s.len() { c + 1 } else { c };
        proof {
            lemma_scan_bounds(s, p, not_equals());
            lemma_scan_bounds(s, b, not_sep(sep));
        }
        if next <= p {
            Seq::empty()
        } else {
            seq![(s.subrange(p, a), s.subrange(b, c))] + pairs_from(s, next, sep)
        }
    }
}

/// `t` without the whitespace at either end, as `str::trim` takes it off.
pub open spec fn trimmed(t: Seq<char>) -> Seq<char> {
    let a = scan(t, 0, |c: char| is_white_space(c));
    let b = last_kept(t, t.len() as int);
    if a >= b { Seq::empty() } else { t.subrange(a, b) }
}

/// The end of `t` once the whitespace before `k` is dropped.
pub open spec fn last_kept(t: Seq<char>, k: int) -> int
    decreases k,
{
    if k <= 0 || k > t.len() {
        if k > t.len() { t.len() as int } else { 0 }
    } else if is_white_space(t[k - 1]) {
        last_kept(t, k - 1)
    } else {
        k
    }
}

/// The pairs with both key and value trimmed.
pub open spec fn trim_pairs(ps: Seq<(Seq<char>, Seq<char>)>) -> Seq<(Seq<char>, Seq<char>)> {
    ps.map_values(|q: (Seq<char>, Seq<char>)| (trimmed(q.0), trimmed(q.1)))
}

fn slice(s: &Vec<char>, a: usize, b: usize) -> (r: String)
    requires
        a <= b <= s@.len(),
    ensures
        r@ == s@.subrange(a as int, b as int),
{
    let mut out: Vec<char> = Vec::new();
    let mut i = a;
    while i < b
        invariant
            a <= i <= b <= s@.len(),
            out@ == s@.subrange(a as int, i as int),
        decreases b - i,
    {
        out.push(s[i]);
        i += 1;
        proof {
            assert(out@ =~= s@.subrange(a as int, i as int));
        }
    }
    string_from_chars(out.as_slice())
}

/// `t` without the whitespace at either end.
pub fn trim(t: &str) -> (r: String)
    ensures
        r@ == trimmed(t@),
{
    let c = chars_of(t);
    let mut a: usize = 0;
    while a < c.len() && is_whitespace(c[a])
        invariant
            c@ == t@,
            0 <= a <= c@.len(),
            forall|k: int| 0 <= k < a ==> is_white_space(#[trigger] c@[k]),
        decreases c@.len() - a,
    {
        a += 1;
    }
    proof {
        lemma_scan_stop(c@, 0, a as int, |x: char| is_white_space(x));
    }
    let mut b: usize = c.len();
    while b > 0 && is_whitespace(c[b - 1])
        invariant
            c@ == t@,
            0 <= b <= c@.len(),
            last_kept(c@, c@.len() as int) == last_kept(c@, b as int),
        decreases b,
    {
        b -= 1;
    }
    if a >= b {
        String::new()
    } else {
        slice(&c, a, b)
    }
}

/// Reads `key=value` pairs separated by `sep` into a table of texts; a
/// later pair under a key replaces an earlier one. Keys and values are
/// trimmed where `trim_parts` is set.
fn read_pairs(input: &str, sep: char, trim_parts: bool) -> (r: Value)
    ensures
        r matches Value::Table(t) && distinct_keys(t@) && all_text(t@) && texts(t@) == table_of(
            if trim_parts {
                trim_pairs(pairs_from(input@, 0, sep))
            } else {
                pairs_from(input@, 0, sep)
            },
        ),
{
    let s = chars_of(input);
    let ghost all = if trim_parts { trim_pairs(pairs_from(s@, 0, sep)) } else { pairs_from(s@, 0, sep) };
    let mut entries: Vec<(String, Value)> = Vec::new();
    let mut p: usize = 0;
    let ghost mut done: Seq<(Seq<char>, Seq<char>)> = Seq::empty();
    proof {
        assert(texts(entries@) =~= table_of(done));
        assert(pairs_from(s@, 0, sep) =~= Seq::<(Seq<char>, Seq<char>)>::empty() + pairs_from(s@, 0, sep));
    }
    while p < s.len()
        invariant
            s@ == input@,
            p <= s@.len(),
            distinct_keys(entries@),
            all_text(entries@),
            texts(entries@) == table_of(if trim_parts { trim_pairs(done) } else { done }),
            pairs_from(s@, 0, sep) == done + pairs_from(s@, p as int, sep),
        decreases s@.len() - p,
    {
        let mut a = p;
        while a < s.len() && s[a] != '='
            invariant
                p <= a <= s@.len(),
                forall|k: int| p <= k < a ==> not_equals()(#[trigger] s@[k]),
            decreases s@.len() - a,
        {
            a += 1;
        }
        proof {
            lemma_scan_stop(s@, p as int, a as int, not_equals());
        }
        let b = if a < s.len() { a + 1 } else { a };
        let mut c = b;
        while c < s.len() && s[c] != sep
            invariant
                b <= c <= s@.len(),
                forall|k: int| b <= k < c ==> not_sep(sep)(#[trigger] s@[k]),
            decreases s@.len() - c,
        {
            c += 1;
        }
        proof {
            lemma_scan_stop(s@, b as int, c as int, not_sep(sep));
        }
        let next = if c < s.len() { c + 1 } else { c };
        let mut key = slice(&s, p, a);
        let mut value = slice(&s, b, c);
        if trim_parts {
            key = trim(key.as_str());
            value = trim(value.as_str());
        }
        let ghost pair = (s@.subrange(p as int, a as int), s@.subrange(b as int, c as int));
        proof {
            assert(pairs_from(s@, p as int, sep) == seq![pair] + pairs_from(s@, next as int, sep));
            assert(done + pairs_from(s@, p as int, sep) =~= done.push(pair) + pairs_from(s@, next as int, sep));
            assert(trim_pairs(done.push(pair)) =~= trim_pairs(done).push((trimmed(pair.0), trimmed(pair.1))));
            assert(done.push(pair).drop_last() =~= done);
            assert(trim_pairs(done.push(pair)).drop_last() =~= trim_pairs(done));
        }
        let ghost k = key@;
        let ghost v = value@;
        put(&mut entries, key, Value::Text(value));
        proof {
            done = done.push(pair);
        }
        p = next;
    }
    proof {
        assert(pairs_from(s@, p as int, sep) =~= Seq::<(Seq<char>, Seq<char>)>::empty());
        assert(done + Seq::<(Seq<char>, Seq<char>)>::empty() =~= done);
    }
    Value::Table(entries)
}

/// The pairs of a query string, `a=1&b=2`, as a table of texts.
pub fn parse_query_string(input: &str) -> (r: Value)
    ensures
        r matches Value::Table(t) && distinct_keys(t@) && all_text(t@) && texts(t@) == table_of(
            pairs_from(input@, 0, '&'),
        ),
{
    read_pairs(input, '&', false)
}

/// The cookies of a `Cookie` header, `a=1; b=2`, as a table of texts, each
/// name and value trimmed of whitespace.
pub fn parse_cookie(input: &str) -> (r: Value)
    ensures
        r matches Value::Table(t) && distinct_keys(t@) && all_text(t@) && texts(t@) == table_of(
            trim_pairs(pairs_from(input@, 0, ';')),
        ),
{
    read_pairs(input, ';', true)
}


/// A pair starting at `p`: the key runs from `p` up to the first `=` (at
/// `a`), the value from just after it up to the next separator (at `c`, or
/// the end of the text), and may hold `=`. The pairs after it start just
/// past that separator.
pub proof fn lemma_pair_at(s: Seq<char>, p: int, a: int, c: int, sep: char)
    requires
        0 <= p <= a < c <= s.len(),
        a < s.len() && s[a] == '=',
        forall|k: int| p <= k < a ==> s[k] != '=',
        forall|k: int| a < k < c ==> s[k] != sep,
        c < s.len() ==> s[c] == sep,
    ensures
        pairs_from(s, p, sep) == seq![(s.subrange(p, a), s.subrange(a + 1, c))] + pairs_from(
            s,
            if c < s.len() { c + 1 } else { c },
            sep,
        ),
{
    assert forall|k: int| p <= k < a implies not_equals()(#[trigger] s[k]) by {}
    lemma_scan_stop(s, p, a, not_equals());
    assert forall|k: int| a + 1 <= k < c implies not_sep(sep)(#[trigger] s[k]) by {}
    lemma_scan_stop(s, a + 1, c, not_sep(sep));
}

/// A text that is a key, `=`, and a value reads as that one pair, where
/// the key holds no `=` and the value holds no separator; the value may
/// hold `=`.
pub proof fn lemma_single_pair(k: Seq<char>, v: Seq<char>, sep: char)
    requires
        forall|i: int| 0 <= i < k.len() ==> k[i] != '=',
        forall|i: int| 0 <= i < v.len() ==> v[i] != sep,
    ensures
        pairs_from(k + seq!['='] + v, 0, sep) == seq![(k, v)],
{
    let s = k + seq!['='] + v;
    let a = k.len() as int;
    assert forall|i: int| 0 <= i < a implies s[i] != '=' by {
        assert(s[i] == k[i]);
    }
    assert forall|i: int| a < i < s.len() implies s[i] != sep by {
        assert(s[i] == v[i - a - 1]);
    }
    lemma_pair_at(s, 0, a, s.len() as int, sep);
    assert(s.subrange(0, a) =~= k);
    assert(s.subrange(a + 1, s.len() as int) =~= v);
    assert(pairs_from(s, s.len() as int, sep) == Seq::<(Seq<char>, Seq<char>)>::empty());
    assert(seq![(k, v)] + Seq::<(Seq<char>, Seq<char>)>::empty() =~= seq![(k, v)]);
}

/// Two pairs joined by the separator read as those two pairs, in order.
pub proof fn lemma_two_pairs(k1: Seq<char>, v1: Seq<char>, k2: Seq<char>, v2: Seq<char>, sep: char)
    requires
        sep != '=',
        forall|i: int| 0 <= i < k1.len() ==> k1[i] != '=',
        forall|i: int| 0 <= i < v1.len() ==> v1[i] != sep,
        forall|i: int| 0 <= i < k2.len() ==> k2[i] != '=',
        forall|i: int| 0 <= i < v2.len() ==> v2[i] != sep,
    ensures
        pairs_from(k1 + seq!['='] + v1 + seq![sep] + k2 + seq!['='] + v2, 0, sep) == seq![(k1, v1), (k2, v2)],
{
    let s = k1 + seq!['='] + v1 + seq![sep] + k2 + seq!['='] + v2;
    let a = k1.len() as int;
    let c = a + 1 + v1.len();
    let a2 = c + 1 + k2.len();
    assert forall|i: int| 0 <= i < a implies s[i] != '=' by {
        assert(s[i] == k1[i]);
    }
    assert forall|i: int| a < i < c implies s[i] != sep by {
        assert(s[i] == v1[i - a - 1]);
    }
    assert(s[c] == sep);
    lemma_pair_at(s, 0, a, c, sep);
    assert forall|i: int| c + 1 <= i < a2 implies s[i] != '=' by {
        assert(s[i] == k2[i - c - 1]);
    }
    assert forall|i: int| a2 < i < s.len() implies s[i] != sep by {
        assert(s[i] == v2[i - a2 - 1]);
    }
    lemma_pair_at(s, c + 1, a2, s.len() as int, sep);
    assert(s.subrange(0, a) =~= k1);
    assert(s.subrange(a + 1, c) =~= v1);
    assert(s.subrange(c + 1, a2) =~= k2);
    assert(s.subrange(a2 + 1, s.len() as int) =~= v2);
    assert(pairs_from(s, s.len() as int, sep) == Seq::<(Seq<char>, Seq<char>)>::empty());
    assert(seq![(k1, v1)] + (seq![(k2, v2)] + Seq::<(Seq<char>, Seq<char>)>::empty()) =~= seq![(k1, v1), (k2, v2)]);
}

/// `r` stands in `t` at `a`, with nothing but whitespace before and after it.
pub open spec fn sits_in_whitespace(t: Seq<char>, a: int, r: Seq<char>) -> bool {
    &&& 0 <= a && a + r.len() <= t.len()
    &&& t.subrange(a, a + r.len()) == r
    &&& forall|i: int| 0 <= i < a ==> is_white_space(#[trigger] t[i])
    &&& forall|i: int| a + r.len() <= i < t.len() ==> is_white_space(#[trigger] t[i])
}

/// Trimming drops exactly the whitespace at either end: what is left is a
/// stretch of `t` that begins and ends with a character that is not
/// whitespace, and everything before and after it in `t` is whitespace; a
/// text of nothing but whitespace trims to nothing.
pub proof fn lemma_trim_drops_only_end_whitespace(t: Seq<char>)
    ensures
        trimmed(t).len() == 0 ==> forall|i: int| 0 <= i < t.len() ==> is_white_space(#[trigger] t[i]),
        trimmed(t).len() > 0 ==> !is_white_space(trimmed(t)[0]) && !is_white_space(trimmed(t).last()),
        trimmed(t).len() > 0 ==> exists|a: int| #[trigger] sits_in_whitespace(t, a, trimmed(t)),
{
    let ws = |c: char| is_white_space(c);
    let a = scan(t, 0, ws);
    let b = last_kept(t, t.len() as int);
    lemma_scan_bounds(t, 0, ws);
    lemma_scan_end(t, 0, ws);
    lemma_last_kept(t, t.len() as int);
    if a >= b {
        assert forall|i: int| 0 <= i < t.len() implies is_white_space(#[trigger] t[i]) by {
            if i < a {
                assert(ws(t[i]));
            }
        }
    } else {
        let r = t.subrange(a, b);
        assert(trimmed(t) == r);
        assert(r[0] == t[a]);
        assert(r.last() == t[b - 1]);
        assert(t.subrange(a, a + r.len()) =~= r);
        assert forall|i: int| 0 <= i < a implies is_white_space(#[trigger] t[i]) by {
            assert(ws(t[i]));
        }
        assert(sits_in_whitespace(t, a, r));
    }
}

/// Before `k`, `last_kept` stops just after a character that is not
/// whitespace (or at the start), with only whitespace from there to `k`.
proof fn lemma_last_kept(t: Seq<char>, k: int)
    requires
        0 <= k <= t.len(),
    ensures
        0 <= last_kept(t, k) <= k,
        last_kept(t, k) > 0 ==> !is_white_space(t[last_kept(t, k) - 1]),
        forall|i: int| last_kept(t, k) <= i < k ==> is_white_space(#[trigger] t[i]),
    decreases k,
{
    if k > 0 && is_white_space(t[k - 1]) {
        lemma_last_kept(t, k - 1);
    }
}

} // verus!
