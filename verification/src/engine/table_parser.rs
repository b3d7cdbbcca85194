//! Reads a table written as records `key = value;`.
//!
//! Blanks (space, tab, newline) may stand around each part of a record.
//! A key and a value are identifiers: one or more characters, each
//! alphabetic, a decimal digit, or `_`. Reading stops at the first place
//! where no complete record follows; a later record under a key replaces an
//! earlier one.

use vstd::prelude::*;
use super::Value;
use crate::table::{as_map, distinct_keys, put};
use crate::text::{char_is_alphabetic, chars_of, is_alphabetic, lemma_scan_stop, scan,
    string_from_chars};

verus! {

/// The blanks that may stand around the parts of a record.
pub open spec fn blank() -> spec_fn(char) -> bool {
    |c: char| c == ' ' || c == '\t' || c == '\n'
}

/// The characters of an identifier.
pub open spec fn ident() -> spec_fn(char) -> bool {
    |c: char| char_is_alphabetic(c) || ('0' <= c && c <= '9') || c == '_'
}

/// The record that starts at `p`: its key, its value, and where it ends.
pub open spec fn record_at(s: Seq<char>, p: int) -> Option<(Seq<char>, Seq<char>, int)> {
    let a = scan(s, p, blank());
    let b = scan(s, a, ident());
    let c = scan(s, b, blank());
    let d = scan(s, c + 1, blank());
    let e = scan(s, d, ident());
    let f = scan(s, e, blank());
    if b == a || c >= s.len() || s[c] != '=' || e == d || f >= s.len() || s[f] != ';' {
        None
    } else {
        Some((s.subrange(a, b), s.subrange(d, e), f + 1))
    }
}

/// The records read from `p` on, up to the first place where none follows.
pub open spec fn records(s: Seq<char>, p: int) -> Seq<(Seq<char>, Seq<char>)>
    decreases s.len() - p,
{
    if p < 0 || p > s.len() {
        Seq::empty()
    } else {
        match record_at(s, p) {
            Some((k, v, q)) => if p < q <= s.len() {
                seq![(k, v)] + records(s, q)
            } else {
                Seq::empty()
            },
            None => Seq::empty(),
        }
    }
}

/// The table that records make: each writes its value under its key.
pub open spec fn table_of(recs: Seq<(Seq<char>, Seq<char>)>) -> Map<Seq<char>, Seq<char>>
    decreases recs.len(),
{
    if recs.len() == 0 {
        Map::empty()
    } else {
        table_of(recs.drop_last()).insert(recs.last().0, recs.last().1)
    }
}

/// A key holds the value of the last record written under it: a later
/// record under the same key replaces an earlier one.
pub proof fn lemma_last_record_wins(recs: Seq<(Seq<char>, Seq<char>)>, k: Seq<char>, j: int)
    requires
        0 <= j < recs.len(),
        recs[j].0 == k,
        forall|i: int| j < i < recs.len() ==> (#[trigger] recs[i]).0 != k,
    ensures
        table_of(recs).contains_key(k),
        table_of(recs)[k] == recs[j].1,
    decreases recs.len(),
{
    if j < recs.len() - 1 {
        let front = recs.drop_last();
        assert(recs.last() == recs[recs.len() - 1]);
        assert forall|i: int| j < i < front.len() implies (#[trigger] front[i]).0 != k by {
            assert(front[i] == recs[i]);
        }
        assert(front[j] == recs[j]);
        lemma_last_record_wins(front, k, j);
    }
}

/// A key that no record names is not in the table.
pub proof fn lemma_unwritten_key_absent(recs: Seq<(Seq<char>, Seq<char>)>, k: Seq<char>)
    requires
        forall|i: int| 0 <= i < recs.len() ==> (#[trigger] recs[i]).0 != k,
    ensures
        !table_of(recs).contains_key(k),
    decreases recs.len(),
{
    if recs.len() > 0 {
        let front = recs.drop_last();
        assert(recs.last() == recs[recs.len() - 1]);
        assert forall|i: int| 0 <= i < front.len() implies (#[trigger] front[i]).0 != k by {
            assert(front[i] == recs[i]);
        }
        lemma_unwritten_key_absent(front, k);
    }
}

/// The texts of a table whose values are texts.
pub open spec fn texts(entries: Seq<(String, Value)>) -> Map<Seq<char>, Seq<char>> {
    let m = as_map(entries);
    Map::new(|k: Seq<char>| m.contains_key(k), |k: Seq<char>| match m[k] {
        Value::Text(t) => t@,
        _ => Seq::empty(),
    })
}

/// Every value in the table is text.
pub open spec fn all_text(entries: Seq<(String, Value)>) -> bool {
    forall|k: Seq<char>| #[trigger] as_map(entries).contains_key(k) ==> as_map(entries)[k] is Text
}

fn is_blank(c: char) -> (r: bool)
    ensures
        r == blank()(c),
{
    c == ' ' || c == '\t' || c == '\n'
}

fn is_ident(c: char) -> (r: bool)
    ensures
        r == ident()(c),
{
    is_alphabetic(c) || ('0' <= c && c <= '9') || c == '_'
}

fn skip_blanks(s: &Vec<char>, p: usize) -> (r: usize)
    requires
        p <= s@.len(),
    ensures
        r == scan(s@, p as int, blank()),
        p <= r <= s@.len(),
{
    let mut i = p;
    while i < s.len() && is_blank(s[i])
        invariant
            p <= i <= s@.len(),
            forall|k: int| p <= k < i ==> blank()(#[trigger] s@[k]),
        decreases s@.len() - i,
    {
        i += 1;
    }
    proof {
        lemma_scan_stop(s@, p as int, i as int, blank());
    }
    i
}

fn skip_ident(s: &Vec<char>, p: usize) -> (r: usize)
    requires
        p <= s@.len(),
    ensures
        r == scan(s@, p as int, ident()),
        p <= r <= s@.len(),
{
    let mut i = p;
    while i < s.len() && is_ident(s[i])
        invariant
            p <= i <= s@.len(),
            forall|k: int| p <= k < i ==> ident()(#[trigger] s@[k]),
        decreases s@.len() - i,
    {
        i += 1;
    }
    proof {
        lemma_scan_stop(s@, p as int, i as int, ident());
    }
    i
}

fn slice_text(s: &Vec<char>, a: usize, b: usize) -> (r: String)
    requires
        a <= b <= s@.len(),
    ensures
        r@ == s@.subrange(a as int, b as int),
{
    let mut out: Vec<char> = Vec::new();
    let mut i = a;
    while i < b
        invariant
            a <= i <= b <= s@.len(),
            out@ == s@.subrange(a as int, i as int),
        decreases b - i,
    {
        out.push(s[i]);
        i += 1;
        proof {
            assert(out@ =~= s@.subrange(a as int, i as int));
        }
    }
    string_from_chars(out.as_slice())
}

/// Reads the record that starts at `p`.
fn record(s: &Vec<char>, p: usize) -> (r: Option<(String, String, usize)>)
    requires
        p <= s@.len(),
    ensures
        match (r, record_at(s@, p as int)) {
            (Some((k, v, q)), Some((k2, v2, q2))) => k@ == k2 && v@ == v2 && q == q2 && p < q <= s@.len(),
            (None, None) => true,
            _ => false,
        },
{
    let a = skip_blanks(s, p);
    let b = skip_ident(s, a);
    let c = skip_blanks(s, b);
    if b == a || c >= s.len() || s[c] != '=' {
        return None;
    }
    let d = skip_blanks(s, c + 1);
    let e = skip_ident(s, d);
    let f = skip_blanks(s, e);
    if e == d || f >= s.len() || s[f] != ';' {
        return None;
    }
    let key = slice_text(s, a, b);
    let value = slice_text(s, d, e);
    Some((key, value, f + 1))
}

/// The records that follow one another make their table entry by entry.
proof fn lemma_records_step(s: Seq<char>, p: int, k: Seq<char>, v: Seq<char>, q: int)
    requires
        0 <= p < q <= s.len(),
        record_at(s, p) == Some((k, v, q)),
    ensures
        records(s, p) == seq![(k, v)] + records(s, q),
{
}

/// Reads the records of `input` into a table of texts.
pub fn parse_table(input: &str) -> (r: Value)
    ensures
        r matches Value::Table(t) && distinct_keys(t@) && all_text(t@)
            && texts(t@) == table_of(records(input@, 0)),
{
    let text = chars_of(input);
    let mut entries: Vec<(String, Value)> = Vec::new();
    let mut p: usize = 0;
    let ghost mut done: Seq<(Seq<char>, Seq<char>)> = Seq::empty();
    proof {
        assert(texts(entries@) =~= table_of(done));
        assert(records(input@, 0) =~= done + records(input@, 0));
    }
    loop
        invariant
            text@ == input@,
            p <= text@.len(),
            distinct_keys(entries@),
            all_text(entries@),
            texts(entries@) == table_of(done),
            records(input@, 0) == done + records(input@, p as int),
        ensures
            distinct_keys(entries@),
            all_text(entries@),
            texts(entries@) == table_of(records(input@, 0)),
        decreases text@.len() - p,
    {
        match record(&text, p) {
            Some((key, value, q)) => {
                let ghost before = entries@;
                proof {
                    lemma_records_step(text@, p as int, key@, value@, q as int);
                }
                let ghost k = key@;
                let ghost v = value@;
                put(&mut entries, key, Value::Text(value));
                proof {
                    let after = entries@;
                    let old_done = done;
                    done = done.push((k, v));
                    assert(done.drop_last() =~= old_done);
                    assert(texts(after) =~= table_of(old_done).insert(k, v));
                    assert(old_done + records(input@, p as int) =~= done + records(input@, q as int));
                }
                p = q;
            },
            None => {
                proof {
                    assert(done + records(input@, p as int) =~= done);
                }
                break;
            },
        }
    }
    Value::Table(entries)
}

} // verus!
