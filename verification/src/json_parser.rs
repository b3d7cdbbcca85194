//! JSON tokens read into a tree: texts, numbers, lists and objects.
//!
//! Numbers keep the text they were written with; what number a text
//! stands for is for the caller to decide. An object keeps one entry per
//! key: a later entry with the same key replaces the value of the first.

use vstd::prelude::*;
use crate::cursor::Tokenizer;
use crate::json::{jtoks, lex, lex_json, JTok, JsonToken, JsonTokenKind};
use crate::text::{chars_of, string_of};

verus! {

/// A JSON value read from tokens.
#[derive(Debug)]
pub enum JsonNode {
    Text(String),
    Number(String),
    List(Vec<JsonNode>),
    Table(Vec<(String, JsonNode)>),
}

/// A JSON value as the specification sees it.
pub enum JsonNodeV {
    Text(Seq<char>),
    Number(Seq<char>),
    List(Seq<JsonNodeV>),
    Table(Seq<(Seq<char>, JsonNodeV)>),
}

impl JsonNode {
    pub open spec fn view(&self) -> JsonNodeV
        decreases self,
    {
        match self {
            JsonNode::Text(t) => JsonNodeV::Text(t@),
            JsonNode::Number(t) => JsonNodeV::Number(t@),
            JsonNode::List(items) => JsonNodeV::List(Seq::new(items@.len(), |i: int| {
                proof {
                    assert(0 <= i < items@.len() ==> decreases_to!(self => items@[i]));
                }
                if 0 <= i < items@.len() { items@[i].view() } else { JsonNodeV::Text(Seq::empty()) }
            })),
            JsonNode::Table(entries) => JsonNodeV::Table(Seq::new(entries@.len(), |i: int| {
                proof {
                    assert(0 <= i < entries@.len() ==> decreases_to!(self => entries@[i].1));
                }
                if 0 <= i < entries@.len() {
                    (entries@[i].0@, entries@[i].1.view())
                } else {
                    (Seq::empty(), JsonNodeV::Text(Seq::empty()))
                }
            })),
        }
    }
}

/// Why tokens could not be read as a value.
#[derive(Clone, Copy, Debug, PartialEq, Eq, Structural)]
pub enum JsonError {
    /// The text could not be cut into tokens.
    Unreadable,
    /// A token stands where no token of its kind can.
    Invalid,
    /// The tokens end inside a list or an object.
    Unfinished,
}

/// The outcome of reading a value: the value and where the reading
/// stopped, or the reason it failed.
pub enum JsonRead {
    Value(JsonNodeV, int),
    Failed(JsonError),
}

/// `entries` with `value` under `key`: it replaces the value of the first
/// entry with that key, or joins at the end.
pub open spec fn put_entry(entries: Seq<(Seq<char>, JsonNodeV)>, key: Seq<char>, value: JsonNodeV) -> Seq<
    (Seq<char>, JsonNodeV),
>
    decreases entries.len(),
{
    if entries.len() == 0 {
        seq![(key, value)]
    } else if entries[0].0 == key {
        entries.update(0, (key, value))
    } else {
        seq![entries[0]] + put_entry(entries.drop_first(), key, value)
    }
}

/// Where reading goes on after an item at `k`: past a comma, if one follows.
pub open spec fn after_comma(ts: Seq<JTok>, k: int) -> int {
    if 0 <= k < ts.len() && ts[k].0 == JsonTokenKind::Comma {
        k + 1
    } else {
        k
    }
}

/// The value that starts at token `i`: a text, a number, a list or an
/// object.
pub open spec fn read_value(ts: Seq<JTok>, i: int) -> JsonRead
    decreases ts.len() - i, 1int,
{
    if i < 0 || i >= ts.len() {
        JsonRead::Failed(JsonError::Invalid)
    } else {
        let t = ts[i];
        if t.0 == JsonTokenKind::Text {
            JsonRead::Value(JsonNodeV::Text(t.1), i + 1)
        } else if t.0 == JsonTokenKind::Number {
            JsonRead::Value(JsonNodeV::Number(t.1), i + 1)
        } else if t.0 == JsonTokenKind::OpenList {
            read_list(ts, i + 1, seq![])
        } else if t.0 == JsonTokenKind::OpenObject {
            read_object(ts, i + 1, seq![])
        } else {
            JsonRead::Failed(JsonError::Invalid)
        }
    }
}

/// The rest of a list from token `j`, after `items` have been read: values,
/// each followed by an optional comma, up to the closing bracket.
pub open spec fn read_list(ts: Seq<JTok>, j: int, items: Seq<JsonNodeV>) -> JsonRead
    decreases ts.len() - j, 2int,
{
    if j < 0 || j >= ts.len() {
        JsonRead::Failed(JsonError::Unfinished)
    } else if ts[j].0 == JsonTokenKind::CloseList {
        JsonRead::Value(JsonNodeV::List(items), j + 1)
    } else {
        match read_value(ts, j) {
            JsonRead::Value(v, k) => {
                let k2 = after_comma(ts, k);
                if j < k2 <= ts.len() {
                    read_list(ts, k2, items.push(v))
                } else {
                    JsonRead::Failed(JsonError::Invalid)
                }
            },
            JsonRead::Failed(e) => JsonRead::Failed(e),
        }
    }
}

/// Whether a token can be the key of an object entry.
pub open spec fn is_key_kind(k: JsonTokenKind) -> bool {
    k == JsonTokenKind::Text || k == JsonTokenKind::Identifier || k == JsonTokenKind::Number
}

/// The rest of an object from token `j`, after `entries` have been read:
/// `key : value` entries, each followed by an optional comma, up to the
/// closing bracket.
pub open spec fn read_object(ts: Seq<JTok>, j: int, entries: Seq<(Seq<char>, JsonNodeV)>) -> JsonRead
    decreases ts.len() - j, 2int,
{
    if j < 0 || j >= ts.len() {
        JsonRead::Failed(JsonError::Unfinished)
    } else if ts[j].0 == JsonTokenKind::CloseObject {
        JsonRead::Value(JsonNodeV::Table(entries), j + 1)
    } else if !is_key_kind(ts[j].0) || j + 1 >= ts.len() || ts[j + 1].0 != JsonTokenKind::Colon {
        JsonRead::Failed(JsonError::Invalid)
    } else {
        match read_value(ts, j + 2) {
            JsonRead::Value(v, k) => {
                let k2 = after_comma(ts, k);
                if j < k2 <= ts.len() {
                    read_object(ts, k2, put_entry(entries, ts[j].1, v))
                } else {
                    JsonRead::Failed(JsonError::Invalid)
                }
            },
            JsonRead::Failed(e) => JsonRead::Failed(e),
        }
    }
}

/// A value read from tokens moves past at least one token and not past
/// the end.
proof fn lemma_read_moves(ts: Seq<JTok>, i: int)
    ensures
        read_value(ts, i) matches JsonRead::Value(_, k) ==> i < k <= ts.len(),
    decreases ts.len() - i, 1int,
{
    if 0 <= i < ts.len() {
        if ts[i].0 == JsonTokenKind::OpenList {
            lemma_list_moves(ts, i + 1, seq![]);
        } else if ts[i].0 == JsonTokenKind::OpenObject {
            lemma_object_moves(ts, i + 1, seq![]);
        }
    }
}

proof fn lemma_list_moves(ts: Seq<JTok>, j: int, items: Seq<JsonNodeV>)
    ensures
        read_list(ts, j, items) matches JsonRead::Value(_, k) ==> j < k <= ts.len(),
    decreases ts.len() - j, 2int,
{
    if 0 <= j < ts.len() && ts[j].0 != JsonTokenKind::CloseList {
        lemma_read_moves(ts, j);
        if let JsonRead::Value(v, k) = read_value(ts, j) {
            let k2 = after_comma(ts, k);
            if j < k2 <= ts.len() {
                lemma_list_moves(ts, k2, items.push(v));
            }
        }
    }
}

proof fn lemma_object_moves(ts: Seq<JTok>, j: int, entries: Seq<(Seq<char>, JsonNodeV)>)
    ensures
        read_object(ts, j, entries) matches JsonRead::Value(_, k) ==> j < k <= ts.len(),
    decreases ts.len() - j, 2int,
{
    if 0 <= j < ts.len() && ts[j].0 != JsonTokenKind::CloseObject && is_key_kind(ts[j].0) && j + 1 < ts.len()
        && ts[j + 1].0 == JsonTokenKind::Colon {
        lemma_read_moves(ts, j + 2);
        if let JsonRead::Value(v, k) = read_value(ts, j + 2) {
            let k2 = after_comma(ts, k);
            if j < k2 <= ts.len() {
                lemma_object_moves(ts, k2, put_entry(entries, ts[j].1, v));
            }
        }
    }
}

/// The views of the entries of a table.
pub open spec fn entry_views(entries: Seq<(String, JsonNode)>) -> Seq<(Seq<char>, JsonNodeV)> {
    entries.map_values(|e: (String, JsonNode)| (e.0@, e.1.view()))
}

/// The views of the items of a list.
pub open spec fn item_views(items: Seq<JsonNode>) -> Seq<JsonNodeV> {
    items.map_values(|v: JsonNode| v.view())
}

/// Where `key` sits among `entries` that come before position `i`.
proof fn lemma_put_entry_at(entries: Seq<(Seq<char>, JsonNodeV)>, key: Seq<char>, value: JsonNodeV, i: int)
    requires
        0 <= i < entries.len(),
        entries[i].0 == key,
        forall|k: int| 0 <= k < i ==> (#[trigger] entries[k]).0 != key,
    ensures
        put_entry(entries, key, value) == entries.update(i, (key, value)),
    decreases entries.len(),
{
    if i > 0 {
        lemma_put_entry_at(entries.drop_first(), key, value, i - 1);
        assert(seq![entries[0]] + entries.drop_first().update(i - 1, (key, value)) =~= entries.update(i, (key, value)));
    }
}

proof fn lemma_put_entry_new(entries: Seq<(Seq<char>, JsonNodeV)>, key: Seq<char>, value: JsonNodeV)
    requires
        forall|k: int| 0 <= k < entries.len() ==> (#[trigger] entries[k]).0 != key,
    ensures
        put_entry(entries, key, value) == entries.push((key, value)),
    decreases entries.len(),
{
    if entries.len() > 0 {
        lemma_put_entry_new(entries.drop_first(), key, value);
        assert(seq![entries[0]] + entries.drop_first().push((key, value)) =~= entries.push((key, value)));
    }
}

/// Writes `value` under `key` (see `put_entry`).
fn put_node(entries: &mut Vec<(String, JsonNode)>, key: String, value: JsonNode)
    ensures
        entry_views(final(entries)@) == put_entry(entry_views(old(entries)@), key@, value.view()),
{
    let ghost before = entry_views(entries@);
    let mut i: usize = 0;
    while i < entries.len()
        invariant
            0 <= i <= entries@.len(),
            entry_views(entries@) == before,
            before == entry_views(old(entries)@),
            forall|k: int| 0 <= k < i ==> (#[trigger] entries@[k]).0@ != key@,
        decreases entries@.len() - i,
    {
        if crate::text::same_text(entries[i].0.as_str(), key.as_str()) {
            proof {
                lemma_put_entry_at(before, key@, value.view(), i as int);
            }
            let ghost kv = key@;
            let ghost vv = value.view();
            entries.set(i, (key, value));
            proof {
                assert(entry_views(entries@) =~= before.update(i as int, (kv, vv)));
            }
            return;
        }
        i += 1;
    }
    proof {
        lemma_put_entry_new(before, key@, value.view());
    }
    let ghost kv = key@;
    let ghost vv = value.view();
    entries.push((key, value));
    proof {
        assert(entry_views(entries@) =~= before.push((kv, vv)));
    }
}

/// The value of an exec read: the node and where the reading stopped, or
/// the reason it failed, as in `JsonRead`.
pub open spec fn same_read(r: Result<(JsonNode, usize), JsonError>, expected: JsonRead) -> bool {
    match r {
        Ok((n, k)) => expected == JsonRead::Value(n.view(), k as int),
        Err(e) => expected == JsonRead::Failed(e),
    }
}

/// Reads the value that starts at token `i` (see `read_value`).
fn parse_value(tokens: &Vec<JsonToken>, i: usize) -> (r: Result<(JsonNode, usize), JsonError>)
    ensures
        same_read(r, read_value(jtoks(tokens@), i as int)),
    decreases tokens@.len() - i, 1int,
{
    let ghost ts = jtoks(tokens@);
    if i >= tokens.len() {
        return Err(JsonError::Invalid);
    }
    let kind = tokens[i].kind;
    if kind == JsonTokenKind::Text {
        Ok((JsonNode::Text(string_of(tokens[i].value.as_str())), i + 1))
    } else if kind == JsonTokenKind::Number {
        Ok((JsonNode::Number(string_of(tokens[i].value.as_str())), i + 1))
    } else if kind == JsonTokenKind::OpenList {
        parse_list(tokens, i + 1)
    } else if kind == JsonTokenKind::OpenObject {
        parse_object(tokens, i + 1)
    } else {
        Err(JsonError::Invalid)
    }
}

/// Reads the rest of a list from token `j` (see `read_list`).
fn parse_list(tokens: &Vec<JsonToken>, j: usize) -> (r: Result<(JsonNode, usize), JsonError>)
    requires
        j <= tokens@.len(),
    ensures
        same_read(r, read_list(jtoks(tokens@), j as int, seq![])),
    decreases tokens@.len() - j, 2int,
{
    let ghost ts = jtoks(tokens@);
    let mut items: Vec<JsonNode> = Vec::new();
    let mut k: usize = j;
    assert(item_views(items@) =~= Seq::<JsonNodeV>::empty());
    loop
        invariant
            ts == jtoks(tokens@),
            j <= k <= tokens@.len(),
            read_list(ts, j as int, seq![]) == read_list(ts, k as int, item_views(items@)),
        decreases tokens@.len() - k,
    {
        if k >= tokens.len() {
            return Err(JsonError::Unfinished);
        }
        if tokens[k].kind == JsonTokenKind::CloseList {
            let ghost iv = item_views(items@);
            let node = JsonNode::List(items);
            proof {
                assert(node.view()->List_0 =~= iv);
            }
            return Ok((node, k + 1));
        }
        proof {
            lemma_read_moves(ts, k as int);
        }
        match parse_value(tokens, k) {
            Ok((v, k1)) => {
                let k2 = if k1 < tokens.len() && tokens[k1].kind == JsonTokenKind::Comma { k1 + 1 } else { k1 };
                proof {
                    assert(k2 == after_comma(ts, k1 as int));
                    assert(item_views(items@.push(v)) =~= item_views(items@).push(v.view()));
                }
                items.push(v);
                k = k2;
            },
            Err(e) => {
                return Err(e);
            },
        }
    }
}

/// Reads the rest of an object from token `j` (see `read_object`).
fn parse_object(tokens: &Vec<JsonToken>, j: usize) -> (r: Result<(JsonNode, usize), JsonError>)
    requires
        j <= tokens@.len(),
    ensures
        same_read(r, read_object(jtoks(tokens@), j as int, seq![])),
    decreases tokens@.len() - j, 2int,
{
    let ghost ts = jtoks(tokens@);
    let mut entries: Vec<(String, JsonNode)> = Vec::new();
    let mut k: usize = j;
    assert(entry_views(entries@) =~= Seq::<(Seq<char>, JsonNodeV)>::empty());
    loop
        invariant
            ts == jtoks(tokens@),
            j <= k <= tokens@.len(),
            read_object(ts, j as int, seq![]) == read_object(ts, k as int, entry_views(entries@)),
        decreases tokens@.len() - k,
    {
        if k >= tokens.len() {
            return Err(JsonError::Unfinished);
        }
        let kind = tokens[k].kind;
        if kind == JsonTokenKind::CloseObject {
            let ghost ev = entry_views(entries@);
            let node = JsonNode::Table(entries);
            proof {
                assert(node.view()->Table_0 =~= ev);
            }
            return Ok((node, k + 1));
        }
        if !(kind == JsonTokenKind::Text || kind == JsonTokenKind::Identifier || kind == JsonTokenKind::Number) {
            return Err(JsonError::Invalid);
        }
        if k + 1 >= tokens.len() || tokens[k + 1].kind != JsonTokenKind::Colon {
            return Err(JsonError::Invalid);
        }
        proof {
            lemma_read_moves(ts, k + 2);
        }
        match parse_value(tokens, k + 2) {
            Ok((v, k1)) => {
                let k2 = if k1 < tokens.len() && tokens[k1].kind == JsonTokenKind::Comma { k1 + 1 } else { k1 };
                proof {
                    assert(k2 == after_comma(ts, k1 as int));
                }
                let key = string_of(tokens[k].value.as_str());
                put_node(&mut entries, key, v);
                k = k2;
            },
            Err(e) => {
                return Err(e);
            },
        }
    }
}

/// The outcome of reading JSON text: `Unreadable` where the text cannot be
/// cut into tokens, else the outcome of reading a value from its first
/// token (tokens after that value are left alone).
pub open spec fn json_outcome(s: Seq<char>) -> Result<JsonNodeV, JsonError> {
    match lex_json(s, 0) {
        None => Err(JsonError::Unreadable),
        Some(ts) => match read_value(ts, 0) {
            JsonRead::Value(v, _) => Ok(v),
            JsonRead::Failed(e) => Err(e),
        },
    }
}

/// Reads JSON text into a value (see `json_outcome`).
pub fn try_parse_json(input: &str) -> (r: Result<JsonNode, JsonError>)
    ensures
        match r {
            Ok(n) => json_outcome(input@) == Ok::<JsonNodeV, JsonError>(n.view()),
            Err(e) => json_outcome(input@) == Err::<JsonNodeV, JsonError>(e),
        },
{
    let chars = chars_of(input);
    let mut cursor = Tokenizer::new(chars.as_slice());
    let tokens = match lex(&mut cursor) {
        Some(t) => t,
        None => {
            return Err(JsonError::Unreadable);
        },
    };
    match parse_value(&tokens, 0) {
        Ok((n, _)) => Ok(n),
        Err(e) => Err(e),
    }
}

/// Reads JSON text that holds a value into that value. Text that cannot be
/// cut into tokens, or whose first value is invalid or unfinished, is left
/// out: reading it panics.
pub fn parse_json_from_str(input: &str) -> (r: JsonNode)
    requires
        json_outcome(input@) is Ok,
    ensures
        json_outcome(input@) == Ok::<JsonNodeV, JsonError>(r.view()),
{
    match try_parse_json(input) {
        Ok(n) => n,
        Err(_) => {
            proof {
                assert(false);
            }
            JsonNode::Text(String::new())
        },
    }
}


/// No key occurs twice among `entries`.
pub open spec fn distinct_entry_keys(entries: Seq<(Seq<char>, JsonNodeV)>) -> bool {
    forall|a: int, b: int| 0 <= a < b < entries.len() ==> (#[trigger] entries[a]).0 != (#[trigger] entries[b]).0
}

/// Writing an entry keeps keys distinct, and adds no key but its own.
proof fn lemma_put_entry_distinct(entries: Seq<(Seq<char>, JsonNodeV)>, key: Seq<char>, value: JsonNodeV)
    requires
        distinct_entry_keys(entries),
    ensures
        distinct_entry_keys(put_entry(entries, key, value)),
        forall|m: int| 0 <= m < put_entry(entries, key, value).len() ==> (#[trigger] put_entry(entries, key, value)[m]).0
            == key || exists|n: int| 0 <= n < entries.len() && (#[trigger] entries[n]).0 == put_entry(entries, key, value)[m].0,
    decreases entries.len(),
{
    let r = put_entry(entries, key, value);
    if entries.len() == 0 {
    } else if entries[0].0 == key {
        assert forall|m: int| 0 <= m < r.len() implies (#[trigger] r[m]).0 == key || exists|n: int| 0 <= n < entries.len()
            && (#[trigger] entries[n]).0 == r[m].0 by {
            if m > 0 {
                assert(entries[m].0 == r[m].0);
            }
        }
    } else {
        let rest = entries.drop_first();
        assert forall|a: int, b: int| 0 <= a < b < rest.len() implies (#[trigger] rest[a]).0 != (#[trigger] rest[b]).0 by {
            assert(rest[a] == entries[a + 1] && rest[b] == entries[b + 1]);
        }
        lemma_put_entry_distinct(rest, key, value);
        let pr = put_entry(rest, key, value);
        assert(r == seq![entries[0]] + pr);
        assert forall|m: int| 0 <= m < pr.len() implies (#[trigger] pr[m]).0 != entries[0].0 by {
            if pr[m].0 != key {
                let n = choose|n: int| 0 <= n < rest.len() && (#[trigger] rest[n]).0 == pr[m].0;
                assert(rest[n] == entries[n + 1]);
            }
        }
        assert forall|a: int, b: int| 0 <= a < b < r.len() implies (#[trigger] r[a]).0 != (#[trigger] r[b]).0 by {
            assert(r[b] == pr[b - 1]);
            if a > 0 {
                assert(r[a] == pr[a - 1]);
            }
        }
        assert forall|m: int| 0 <= m < r.len() implies (#[trigger] r[m]).0 == key || exists|n: int| 0 <= n < entries.len()
            && (#[trigger] entries[n]).0 == r[m].0 by {
            if m == 0 {
                assert(entries[0].0 == r[0].0);
            } else {
                assert(r[m] == pr[m - 1]);
                if pr[m - 1].0 != key {
                    let n = choose|n: int| 0 <= n < rest.len() && (#[trigger] rest[n]).0 == pr[m - 1].0;
                    assert(rest[n] == entries[n + 1]);
                }
            }
        }
    }
}

proof fn lemma_object_distinct(ts: Seq<JTok>, j: int, entries: Seq<(Seq<char>, JsonNodeV)>)
    requires
        distinct_entry_keys(entries),
    ensures
        read_object(ts, j, entries) matches JsonRead::Value(JsonNodeV::Table(es), _) ==> distinct_entry_keys(es),
    decreases ts.len() - j,
{
    if 0 <= j < ts.len() && ts[j].0 != JsonTokenKind::CloseObject && is_key_kind(ts[j].0) && j + 1 < ts.len()
        && ts[j + 1].0 == JsonTokenKind::Colon {
        if let JsonRead::Value(v, k) = read_value(ts, j + 2) {
            let k2 = after_comma(ts, k);
            if j < k2 <= ts.len() {
                lemma_put_entry_distinct(entries, ts[j].1, v);
                lemma_object_distinct(ts, k2, put_entry(entries, ts[j].1, v));
            }
        }
    }
}

proof fn lemma_list_gives_list(ts: Seq<JTok>, j: int, items: Seq<JsonNodeV>)
    ensures
        read_list(ts, j, items) matches JsonRead::Value(v, _) ==> v is List,
    decreases ts.len() - j,
{
    if 0 <= j < ts.len() && ts[j].0 != JsonTokenKind::CloseList {
        if let JsonRead::Value(v, k) = read_value(ts, j) {
            let k2 = after_comma(ts, k);
            if j < k2 <= ts.len() {
                lemma_list_gives_list(ts, k2, items.push(v));
            }
        }
    }
}

/// An object read from JSON text has each key once: where the text holds
/// the same key twice, one entry remains.
pub proof fn lemma_json_objects_have_distinct_keys(s: Seq<char>)
    ensures
        json_outcome(s) matches Ok(JsonNodeV::Table(es)) ==> distinct_entry_keys(es),
{
    if let Some(ts) = lex_json(s, 0) {
        if 0 < ts.len() && ts[0].0 == JsonTokenKind::OpenObject {
            assert(distinct_entry_keys(Seq::<(Seq<char>, JsonNodeV)>::empty()));
            lemma_object_distinct(ts, 1, seq![]);
        } else if 0 < ts.len() && ts[0].0 == JsonTokenKind::OpenList {
            lemma_list_gives_list(ts, 1, seq![]);
        }
    }
}

} // verus!
