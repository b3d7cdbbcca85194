//! Commands built once from their argument and run on many requests.
//!
//! Each command keeps its argument in the form it needs. Running one
//! replaces the variables in what it holds and changes the state; where the
//! outside world is needed, it hands back an `Effect` for the caller.

use vstd::prelude::*;
use vstd::utf8::{decode_utf8, valid_utf8};
use crate::body::Body;
use crate::command::{Effect, words};
use crate::request_state::RequestState;
use crate::json_doc::{json_parsed, parse_json, JsonDoc};
use crate::substitution::{group_views, interleave, opt_views_one, regex_groups, regex_pieces, substitute_vars,
    substituted, woven, NAME_GROUP, PRECEDE_GROUP, VAR_SYNTAX};
use crate::text::{decimal, decimal_string, push_char, push_str, same_text, split_text, string_of, views};

verus! {

/// The text of an optional argument, empty where there is none.
pub open spec fn arg_text(arg: Option<&str>) -> Seq<char> {
    match arg {
        Some(a) => a@,
        None => Seq::empty(),
    }
}

fn arg_or_empty(arg: Option<&str>) -> (r: String)
    ensures
        r@ == arg_text(arg),
{
    match arg {
        Some(a) => string_of(a),
        None => String::new(),
    }
}

/// Sets the body to a text.
pub struct Echo {
    value: String,
}

impl Echo {
    /// The text the command writes, before its variables are replaced.
    pub closed spec fn value(&self) -> Seq<char> {
        self.value@
    }

    /// An echo of `arg` (of nothing where there is no argument).
    pub fn with_arg(arg: Option<&str>) -> (r: Self)
        ensures
            r.value() == arg_text(arg),
    {
        Echo { value: arg_or_empty(arg) }
    }

    /// The command's name.
    pub fn name(&self) -> (r: &'static str)
        ensures
            r@ == "echo"@,
    {
        "echo"
    }

    /// The command's argument.
    pub fn arg(&self) -> (r: &str)
        ensures
            r@ == self.value(),
    {
        self.value.as_str()
    }

    /// Makes the body the text with its variables replaced; where the
    /// variable syntax does not compile, the body is left as it is.
    pub fn run(&self, state: &mut RequestState)
        requires
            old(state).wf(),
        ensures
            final(state).wf(),
            final(state)@.variables == old(state)@.variables,
            final(state)@.headers == old(state)@.headers,
            final(state)@.mime == old(state)@.mime,
            match substituted(self.value(), old(state)@.variables) {
                Some(t) => final(state)@.body matches Body::Txt(b) && b@ == t,
                None => final(state)@.body == old(state)@.body,
            },
    {
        match substitute_vars(self.value.as_str(), state) {
            Some(v) => state.set_body(Body::Txt(v)),
            None => {},
        }
    }

    /// The command as it is written: its text.
    pub fn to_string(&self) -> (r: String)
        ensures
            r@ == self.value(),
    {
        self.value.clone()
    }
}

/// Sets a variable; a key that starts with `header.` also sets that
/// response header, and the key `mimetype` sets the content type instead.
pub struct SetVar {
    key: String,
    value: String,
}

/// The prefix of keys that also set a header.
pub open spec fn header_prefix() -> Seq<char> {
    "header."@
}

/// Whether `p` occurs somewhere in `s`.
pub open spec fn contains(s: Seq<char>, p: Seq<char>) -> bool {
    exists|i: int| 0 <= i <= s.len() - p.len() && #[trigger] s.subrange(i, i + p.len()) == p
}

/// Whether `s` starts with `p`.
pub open spec fn starts_with(s: Seq<char>, p: Seq<char>) -> bool {
    p.len() <= s.len() && s.subrange(0, p.len() as int) == p
}

fn find_text(s: &str, p: &str) -> (r: bool)
    ensures
        r == contains(s@, p@),
{
    let a = crate::text::chars_of(s);
    let b = crate::text::chars_of(p);
    if b.len() > a.len() {
        proof {
            assert forall|i: int| 0 <= i <= a@.len() - b@.len() implies #[trigger] a@.subrange(i, i + b@.len())
                != b@ by {}
        }
        return false;
    }
    let limit = a.len() - b.len();
    let mut i: usize = 0;
    while i <= limit
        invariant
            limit == a@.len() - b@.len(),
            a@ == s@,
            b@ == p@,
            b@.len() <= a@.len(),
            0 <= i <= a@.len() - b@.len() + 1,
            forall|k: int| 0 <= k < i ==> #[trigger] a@.subrange(k, k + b@.len()) != b@,
        decreases a@.len() - i,
    {
        let alen = a.len();
        let mut j: usize = 0;
        let mut same = true;
        while j < b.len()
            invariant
                b@.len() <= a@.len(),
                alen == a@.len(),
                i <= limit,
                limit == a@.len() - b@.len(),
                a@ == s@,
                b@ == p@,
                i + b@.len() <= a@.len(),
                0 <= j <= b@.len(),
                same == forall|m: int| 0 <= m < j ==> a@[i + m] == b@[m],
            decreases b@.len() - j,
        {
            if a[i + j] != b[j] {
                same = false;
            }
            j += 1;
        }
        if same {
            assert(a@.subrange(i as int, i + b@.len()) =~= b@);
            return true;
        }
        assert(a@.subrange(i as int, i + b@.len()) != b@) by {
            let m = choose|m: int| 0 <= m < b@.len() && a@[i + m] != b@[m];
            assert(a@.subrange(i as int, i + b@.len())[m] == a@[i + m]);
        }
        i += 1;
    }
    false
}

/// `s` without its first `n` characters.
fn drop_text(s: &str, n: usize) -> (r: String)
    requires
        n <= s@.len(),
    ensures
        r@ == s@.subrange(n as int, s@.len() as int),
{
    let c = crate::text::chars_of(s);
    let mut out: Vec<char> = Vec::new();
    let mut i: usize = n;
    while i < c.len()
        invariant
            c@ == s@,
            n <= i <= c@.len(),
            out@ == c@.subrange(n as int, i as int),
        decreases c@.len() - i,
    {
        out.push(c[i]);
        i += 1;
        proof {
            assert(out@ =~= c@.subrange(n as int, i as int));
        }
    }
    crate::text::string_from_chars(out.as_slice())
}

fn starts_with_text(s: &str, p: &str) -> (r: bool)
    ensures
        r == starts_with(s@, p@),
{
    let a = crate::text::chars_of(s);
    let b = crate::text::chars_of(p);
    if b.len() > a.len() {
        return false;
    }
    let mut j: usize = 0;
    while j < b.len()
        invariant
            a@ == s@,
            b@ == p@,
            b@.len() <= a@.len(),
            0 <= j <= b@.len(),
            forall|m: int| 0 <= m < j ==> a@[m] == b@[m],
        decreases b@.len() - j,
    {
        if a[j] != b[j] {
            assert(a@.subrange(0, b@.len() as int)[j as int] != b@[j as int]);
            return false;
        }
        j += 1;
    }
    assert(a@.subrange(0, b@.len() as int) =~= b@);
    true
}

impl SetVar {
    /// The key the command sets.
    pub closed spec fn key(&self) -> Seq<char> {
        self.key@
    }

    /// The value the command sets, before its variables are replaced.
    pub closed spec fn value(&self) -> Seq<char> {
        self.value@
    }

    /// The command `set KEY VALUE`: the first two words of `arg`.
    pub fn with_arg(arg: Option<&str>) -> (r: Self)
        requires
            arg matches Some(a) && words(a@).len() >= 2,
    ensures
            r.key() == words(arg_text(arg))[0],
            r.value() == words(arg_text(arg))[1],
    {
        let a = match arg {
            Some(a) => a,
            None => "",
        };
        let parts = split_text(a, ' ');
        SetVar { key: parts[0].clone(), value: parts[1].clone() }
    }

    /// The command's name.
    pub fn name(&self) -> (r: &'static str)
        ensures
            r@ == "set"@,
    {
        "set"
    }

    /// The command's argument: its value.
    pub fn arg(&self) -> (r: &str)
        ensures
            r@ == self.value(),
    {
        self.value.as_str()
    }

    /// Whether the command can run: a key that holds `header.` must start
    /// with it.
    pub open spec fn runnable(&self) -> bool {
        contains(self.key(), header_prefix()) ==> starts_with(self.key(), header_prefix())
    }

    /// Sets the variable (or the content type) to the value with its
    /// variables replaced; a `header.` key also sets the header that follows
    /// the prefix to the value as it is written. Where the variable syntax
    /// does not compile, only the header is set.
    pub fn run(&self, state: &mut RequestState)
        requires
            old(state).wf(),
            self.runnable(),
        ensures
            final(state).wf(),
            final(state)@.body == old(state)@.body,
            final(state)@.headers == if contains(self.key(), header_prefix()) {
                old(state)@.headers.insert(self.key().subrange(header_prefix().len() as int, self.key().len() as int),
                    self.value())
            } else {
                old(state)@.headers
            },
            match substituted(self.value(), old(state)@.variables) {
                Some(v) => if self.key() == "mimetype"@ {
                    final(state)@.mime == Some(v) && final(state)@.variables == old(state)@.variables
                } else {
                    final(state)@.mime == old(state)@.mime && final(state)@.variables == old(
                        state,
                    )@.variables.insert(self.key(), v)
                },
                None => final(state)@.mime == old(state)@.mime && final(state)@.variables == old(state)@.variables,
            },
    {
        let value = substitute_vars(self.value.as_str(), state);
        proof {
            reveal_strlit("header.");
        }
        if find_text(self.key.as_str(), "header.") {
            let header = drop_text(self.key.as_str(), 7);
            state.set_header(header.as_str(), self.value.as_str());
        }
        match value {
            Some(v) => {
                if crate::text::same_text(self.key.as_str(), "mimetype") {
                    state.set_mime(Some(v));
                } else {
                    state.set_variable(self.key.as_str(), v.as_str());
                }
            },
            None => {},
        }
    }

    /// Runs the command where it can run (see `run`), and says whether it
    /// did; where it cannot, the state is left as it was.
    pub fn try_run(&self, state: &mut RequestState) -> (r: bool)
        requires
            old(state).wf(),
        ensures
            final(state).wf(),
            r == self.runnable(),
            !r ==> *final(state) == *old(state),
            r ==> final(state)@.body == old(state)@.body,
            r ==> final(state)@.headers == if contains(self.key(), header_prefix()) {
                old(state)@.headers.insert(self.key().subrange(header_prefix().len() as int, self.key().len() as int),
                    self.value())
            } else {
                old(state)@.headers
            },
            r ==> match substituted(self.value(), old(state)@.variables) {
                Some(v) => if self.key() == "mimetype"@ {
                    final(state)@.mime == Some(v) && final(state)@.variables == old(state)@.variables
                } else {
                    final(state)@.mime == old(state)@.mime && final(state)@.variables == old(
                        state,
                    )@.variables.insert(self.key(), v)
                },
                None => final(state)@.mime == old(state)@.mime && final(state)@.variables == old(state)@.variables,
            },
    {
        proof {
            reveal_strlit("header.");
        }
        if find_text(self.key.as_str(), "header.") && !starts_with_text(self.key.as_str(), "header.") {
            return false;
        }
        self.run(state);
        true
    }

    /// The command as it is written: `set KEY VALUE`.
    pub fn to_string(&self) -> (r: String)
        ensures
            r@ == "set "@ + self.key() + seq![' '] + self.value(),
    {
        let mut out = string_of("set ");
        push_str(&mut out, self.key.as_str());
        push_char(&mut out, ' ');
        push_str(&mut out, self.value.as_str());
        out
    }
}

/// Parses the body, read as JSON, into variables under `body`.
pub struct ParseBody;

impl ParseBody {
    /// The command; it takes no argument.
    pub fn with_arg(arg: Option<&str>) -> Self {
        ParseBody
    }

    /// The command's name.
    pub fn name(&self) -> (r: &'static str)
        ensures
            r@ == "parse body"@,
    {
        "parse body"
    }

    /// The command's argument: none.
    pub fn arg(&self) -> (r: &'static str)
        ensures
            r@ == ""@,
    {
        ""
    }

    /// Asks the caller to parse the body: the caller waits for the body to
    /// be complete, reads it with `parse`, and hands the document, with its
    /// numbers printed, to `apply`.
    pub fn run(&self, state: &mut RequestState) -> (r: Effect)
        ensures
            r is ParseBody,
            *final(state) == *old(state),
    {
        Effect::ParseBody
    }

    /// Reads the body as a JSON document: where its bytes are valid UTF-8
    /// and `json::parse` reads the text they encode, the document, and the
    /// body is taken (left empty); else `None`, and the state is left as
    /// it was.
    pub fn parse(&self, state: &mut RequestState) -> (r: Option<JsonDoc>)
        requires
            old(state).wf(),
        ensures
            final(state).wf(),
            match r {
                Some(d) => valid_utf8(old(state)@.body.bytes())
                    && json_parsed(decode_utf8(old(state)@.body.bytes())) == Some(d)
                    && (final(state)@.body matches Body::Txt(e) && e@.len() == 0)
                    && final(state)@.variables == old(state)@.variables
                    && final(state)@.headers == old(state)@.headers
                    && final(state)@.mime == old(state)@.mime,
                None => (!valid_utf8(old(state)@.body.bytes())
                    || json_parsed(decode_utf8(old(state)@.body.bytes())) is None)
                    && *final(state) == *old(state),
            },
    {
        let doc = match crate::servstring::str_from_utf8(state.body().data()) {
            Ok(t) => parse_json(t),
            Err(_) => {
                return None;
            },
        };
        match doc {
            Some(d) => {
                proof {
                    reveal_strlit("");
                }
                state.set_body(Body::from_str(""));
                Some(d)
            },
            None => None,
        }
    }

    /// Stores the body's JSON value as variables under `body`: a leaf is
    /// stored under its path, the members of an object under the path, a
    /// dot and their key, those of an array under the path, a dot and their
    /// index, in order, a later write to a path replacing an earlier one.
    /// The body has been taken to be read: it is left empty.
    pub fn apply(&self, value: &BodyValue, state: &mut RequestState)
        requires
            old(state).wf(),
        ensures
            final(state).wf(),
            final(state)@.variables == written(old(state)@.variables, settings("body"@, value)),
            final(state)@.headers == old(state)@.headers,
            final(state)@.body matches Body::Txt(t) && t@.len() == 0,
            final(state)@.mime == old(state)@.mime,
    {
        let prefix = string_of("body");
        insert_value(&prefix, value, state);
        proof {
            reveal_strlit("");
        }
        state.set_body(Body::from_str(""));
    }
}

/// A JSON value of a request body, as the body parser hands it over: a leaf
/// holds the text that a variable gets (a string, or a number as it
/// prints); an object keeps its entries in order, an array its members.
pub enum BodyValue {
    Leaf(String),
    Object(Vec<(String, BodyValue)>),
    Array(Vec<BodyValue>),
}

/// The variables that storing `v` under `prefix` writes, in order, each
/// with its text.
pub open spec fn settings(prefix: Seq<char>, v: &BodyValue) -> Seq<(Seq<char>, Seq<char>)>
    decreases v, 1int, 0int,
{
    match v {
        BodyValue::Leaf(t) => seq![(prefix, t@)],
        BodyValue::Object(entries) => entry_settings(prefix, v, entries@.len() as int),
        BodyValue::Array(items) => item_settings(prefix, v, items@.len() as int),
    }
}

/// The variables written for the first `k` entries of the object `v`.
pub open spec fn entry_settings(prefix: Seq<char>, v: &BodyValue, k: int) -> Seq<(Seq<char>, Seq<char>)>
    decreases v, 0int, k,
{
    match v {
        BodyValue::Object(entries) => if k <= 0 || k > entries@.len() {
            Seq::empty()
        } else {
            proof {
                assert(decreases_to!(v => entries@[k - 1].1));
            }
            entry_settings(prefix, v, k - 1) + settings(prefix + seq!['.'] + entries@[k - 1].0@, &entries@[k - 1].1)
        },
        _ => Seq::empty(),
    }
}

/// The variables written for the first `k` members of the array `v`.
pub open spec fn item_settings(prefix: Seq<char>, v: &BodyValue, k: int) -> Seq<(Seq<char>, Seq<char>)>
    decreases v, 0int, k,
{
    match v {
        BodyValue::Array(items) => if k <= 0 || k > items@.len() {
            Seq::empty()
        } else {
            proof {
                assert(decreases_to!(v => items@[k - 1]));
            }
            item_settings(prefix, v, k - 1) + settings(prefix + seq!['.'] + decimal((k - 1) as nat), &items@[k - 1])
        },
        _ => Seq::empty(),
    }
}

/// The variables after writing `ps` into `m`, one after another.
pub open spec fn written(m: Map<Seq<char>, Seq<char>>, ps: Seq<(Seq<char>, Seq<char>)>) -> Map<Seq<char>, Seq<char>>
    decreases ps.len(),
{
    if ps.len() == 0 {
        m
    } else {
        written(m, ps.drop_last()).insert(ps.last().0, ps.last().1)
    }
}

/// Writing two runs of variables is writing the first, then the second.
proof fn lemma_written_concat(m: Map<Seq<char>, Seq<char>>, a: Seq<(Seq<char>, Seq<char>)>,
    b: Seq<(Seq<char>, Seq<char>)>)
    ensures
        written(m, a + b) == written(written(m, a), b),
    decreases b.len(),
{
    if b.len() == 0 {
        assert(a + b =~= a);
    } else {
        lemma_written_concat(m, a, b.drop_last());
        assert((a + b).drop_last() =~= a + b.drop_last());
        assert((a + b).last() == b.last());
    }
}

/// Stores `value` as variables under `prefix` (see `settings`).
fn insert_value(prefix: &String, value: &BodyValue, state: &mut RequestState)
    requires
        old(state).wf(),
    ensures
        final(state).wf(),
        final(state)@.variables == written(old(state)@.variables, settings(prefix@, value)),
        final(state)@.headers == old(state)@.headers,
        final(state)@.body == old(state)@.body,
        final(state)@.mime == old(state)@.mime,
    decreases value,
{
    let ghost start = state@;
    match value {
        BodyValue::Leaf(t) => {
            state.set_variable(prefix.as_str(), t.as_str());
            let ghost ps = seq![(prefix@, t@)];
            assert(ps.drop_last() =~= Seq::<(Seq<char>, Seq<char>)>::empty());
            assert(written(start.variables, ps.drop_last()) == start.variables);
            assert(settings(prefix@, value) == ps);
        },
        BodyValue::Object(entries) => {
            let mut i: usize = 0;
            assert(entry_settings(prefix@, value, 0) =~= Seq::<(Seq<char>, Seq<char>)>::empty());
            while i < entries.len()
                invariant
                    *value == BodyValue::Object(*entries),
                    0 <= i <= entries@.len(),
                    state.wf(),
                    state@.variables == written(start.variables, entry_settings(prefix@, value, i as int)),
                    state@.headers == start.headers,
                    state@.body == start.body,
                    state@.mime == start.mime,
                decreases entries@.len() - i,
            {
                let mut key = string_of(prefix.as_str());
                push_char(&mut key, '.');
                push_str(&mut key, entries[i].0.as_str());
                proof {
                    assert(decreases_to!(*value => value->Object_0));
                    assert(decreases_to!(value->Object_0 => (value->Object_0)@[i as int]));
                    assert(decreases_to!((value->Object_0)@[i as int] => (value->Object_0)@[i as int].1));
                }
                insert_value(&key, &entries[i].1, state);
                proof {
                    lemma_written_concat(start.variables, entry_settings(prefix@, value, i as int),
                        settings(key@, &entries@[i as int].1));
                    assert(key@ == prefix@ + seq!['.'] + entries@[i as int].0@);
                    assert(entry_settings(prefix@, value, i + 1) == entry_settings(prefix@, value, i as int)
                        + settings(key@, &entries@[i as int].1));
                }
                i += 1;
            }
        },
        BodyValue::Array(items) => {
            let mut i: usize = 0;
            assert(item_settings(prefix@, value, 0) =~= Seq::<(Seq<char>, Seq<char>)>::empty());
            while i < items.len()
                invariant
                    *value == BodyValue::Array(*items),
                    0 <= i <= items@.len(),
                    state.wf(),
                    state@.variables == written(start.variables, item_settings(prefix@, value, i as int)),
                    state@.headers == start.headers,
                    state@.body == start.body,
                    state@.mime == start.mime,
                decreases items@.len() - i,
            {
                let mut key = string_of(prefix.as_str());
                push_char(&mut key, '.');
                let index = decimal_string(i as u64);
                push_str(&mut key, index.as_str());
                proof {
                    assert(decreases_to!(*value => value->Array_0));
                    assert(decreases_to!(value->Array_0 => (value->Array_0)@[i as int]));
                }
                insert_value(&key, &items[i], state);
                proof {
                    lemma_written_concat(start.variables, item_settings(prefix@, value, i as int),
                        settings(key@, &items@[i as int]));
                    assert(key@ == prefix@ + seq!['.'] + decimal(i as nat));
                    assert(item_settings(prefix@, value, i + 1) == item_settings(prefix@, value, i as int)
                        + settings(key@, &items@[i as int]));
                }
                i += 1;
            }
        },
    }
}

/// Runs the commands of another route.
pub struct Jump {
    route: String,
}

impl Jump {
    /// The route the command jumps to.
    pub closed spec fn route(&self) -> Seq<char> {
        self.route@
    }

    /// A jump to the route `arg`, which must be given.
    pub fn with_arg(arg: Option<&str>) -> (r: Self)
        requires
            arg is Some,
        ensures
            r.route() == arg_text(arg),
    {
        Jump { route: arg_or_empty(arg) }
    }

    /// The command's name.
    pub fn name(&self) -> (r: &'static str)
        ensures
            r@ == "jump"@,
    {
        "jump"
    }

    /// The command's argument: the route.
    pub fn arg(&self) -> (r: &str)
        ensures
            r@ == self.route(),
    {
        self.route.as_str()
    }

    /// Asks the caller to run the route's commands.
    pub fn run(&self, state: &mut RequestState) -> (r: Effect)
        ensures
            r matches Effect::Jump(t) && t@ == self.route(),
            *final(state) == *old(state),
    {
        Effect::Jump(self.route.clone())
    }
}

/// Runs a program with arguments, the body as its input and its output as
/// the new body.
pub struct Exec {
    program: String,
    args: Vec<String>,
}

impl Exec {
    /// The program to run.
    pub closed spec fn program(&self) -> Seq<char> {
        self.program@
    }

    /// Its arguments.
    pub closed spec fn args(&self) -> Seq<Seq<char>> {
        views(self.args@)
    }

    /// The command `exec PROGRAM ARGS...`: the first word of `arg` is the
    /// program, the rest its arguments.
    pub fn with_arg(arg: Option<&str>) -> (r: Self)
        requires
            arg is Some,
        ensures
            r.program() == words(arg_text(arg))[0],
            r.args() == words(arg_text(arg)).drop_first(),
    {
        let a = match arg {
            Some(a) => a,
            None => "",
        };
        let parts = split_text(a, ' ');
        proof {
            crate::text::lemma_split_nonempty(a@, ' ');
        }
        let mut args: Vec<String> = Vec::new();
        let mut i: usize = 1;
        while i < parts.len()
            invariant
                views(parts@) == words(a@),
                1 <= i <= parts@.len(),
                views(args@) == views(parts@).subrange(1, i as int),
            decreases parts@.len() - i,
        {
            let piece = parts[i].clone();
            proof {
                assert(piece@ == views(parts@)[i as int]);
                assert(views(args@.push(piece)) =~= views(args@).push(piece@));
            }
            args.push(piece);
            i += 1;
            proof {
                assert(views(args@) =~= views(parts@).subrange(1, i as int));
            }
        }
        proof {
            assert(views(parts@).subrange(1, parts@.len() as int) =~= views(parts@).drop_first());
        }
        Exec { program: parts[0].clone(), args }
    }

    /// The command's name.
    pub fn name(&self) -> (r: &'static str)
        ensures
            r@ == "exec"@,
    {
        "exec"
    }

    /// The command's argument, as it is shown: none.
    pub fn arg(&self) -> (r: &'static str)
        ensures
            r@ == ""@,
    {
        ""
    }

    /// Asks the caller to run the program.
    pub fn run(&self, state: &mut RequestState) -> (r: Effect)
        ensures
            r matches Effect::Exec { program, args } && program@ == self.program() && views(args@) == self.args(),
            *final(state) == *old(state),
    {
        let mut args: Vec<String> = Vec::new();
        let mut i: usize = 0;
        while i < self.args.len()
            invariant
                0 <= i <= self.args@.len(),
                views(args@) == views(self.args@).take(i as int),
            decreases self.args@.len() - i,
        {
            let a = self.args[i].clone();
            proof {
                assert(views(args@.push(a)) =~= views(args@).push(a@));
            }
            args.push(a);
            i += 1;
            proof {
                assert(views(args@) =~= views(self.args@).take(i as int));
            }
        }
        proof {
            assert(views(self.args@).take(self.args@.len() as int) =~= views(self.args@));
        }
        Effect::Exec { program: self.program.clone(), args }
    }

    /// The command as it is written: `exec PROGRAM`.
    pub fn to_string(&self) -> (r: String)
        ensures
            r@ == "exec "@ + self.program(),
    {
        let mut out = string_of("exec ");
        push_str(&mut out, self.program.as_str());
        out
    }
}

/// Runs a shell script: `/bin/sh -c SCRIPT`.
pub struct Shell(Exec);

impl Shell {
    /// The program and arguments that run the script.
    pub closed spec fn exec(&self) -> Exec {
        self.0
    }

    /// The command `shell SCRIPT`, which must be given.
    pub fn with_arg(arg: Option<&str>) -> (r: Self)
        requires
            arg is Some,
        ensures
            r.exec().program() == "/bin/sh"@,
            r.exec().args() == seq!["-c"@, arg_text(arg)],
    {
        let mut args: Vec<String> = Vec::new();
        args.push(string_of("-c"));
        args.push(arg_or_empty(arg));
        let r = Shell(Exec { program: string_of("/bin/sh"), args });
        proof {
            assert(r.exec().args() =~= seq!["-c"@, arg_text(arg)]);
        }
        r
    }

    /// The command's name.
    pub fn name(&self) -> (r: &'static str)
        ensures
            r@ == "shell"@,
    {
        "shell"
    }

    /// The command's argument, as it is shown: none.
    pub fn arg(&self) -> (r: &'static str)
        ensures
            r@ == ""@,
    {
        ""
    }

    /// Asks the caller to run the shell.
    pub fn run(&self, state: &mut RequestState) -> (r: Effect)
        ensures
            r matches Effect::Exec { program, args } && program@ == self.exec().program() && views(args@)
                == self.exec().args(),
            *final(state) == *old(state),
    {
        self.0.run(state)
    }

    /// The command as it is shown: `shell`.
    pub fn to_string(&self) -> (r: String)
        ensures
            r@ == "shell"@,
    {
        string_of("shell")
    }
}

/// A database query whose variables become parameters: each `$(NAME)` is
/// replaced by `?`, and the names are kept, in order, to be bound.
pub struct Sql {
    statement: String,
    parameters: Vec<String>,
}

/// The statement that the pattern's pieces and matches make: each match
/// replaced by `?`.
pub open spec fn with_placeholders(pieces: Seq<Seq<char>>, n: nat) -> Seq<char> {
    woven(pieces, Seq::new(n, |i: int| seq!['?']))
}

impl Sql {
    /// The statement with its placeholders.
    pub closed spec fn statement(&self) -> Seq<char> {
        self.statement@
    }

    /// The names of the parameters, in order.
    pub closed spec fn parameters(&self) -> Seq<Seq<char>> {
        views(self.parameters@)
    }

    /// The query `arg` with its variables turned into parameters. (The
    /// variable syntax always compiles, so there is always a query.)
    pub fn with_arg(arg: &str) -> (r: Option<Self>)
        ensures
            r is Some,
            r is Some <==> (regex_pieces(VAR_SYNTAX@, arg@) is Some && regex_groups(
                VAR_SYNTAX@,
                arg@,
                PRECEDE_GROUP@,
                NAME_GROUP@,
            ) is Some),
            r matches Some(q) ==> {
                let pieces = regex_pieces(VAR_SYNTAX@, arg@)->0;
                let groups = regex_groups(VAR_SYNTAX@, arg@, PRECEDE_GROUP@, NAME_GROUP@)->0;
                &&& q.statement() == with_placeholders(pieces, groups.len())
                &&& q.parameters() == groups.map_values(|g: (Seq<char>, Seq<char>, Seq<char>)| g.2)
            },
    {
        let pieces = crate::substitution::pattern_pieces(VAR_SYNTAX, arg);
        let groups = crate::substitution::pattern_groups(VAR_SYNTAX, arg, PRECEDE_GROUP, NAME_GROUP);
        match (pieces, groups) {
            (Some(p), Some(g)) => Some(Self::from_matches(&p, &g)),
            _ => None,
        }
    }

    /// The query that the pieces and matches of a statement make: each match
    /// replaced by `?`, its name kept as a parameter.
    pub fn from_matches(pieces: &Vec<String>, groups: &Vec<(String, String, String)>) -> (r: Self)
        ensures
            r.statement() == with_placeholders(views(pieces@), groups@.len()),
            r.parameters() == group_views(groups@).map_values(|g: (Seq<char>, Seq<char>, Seq<char>)| g.2),
    {
        let ghost fills = Seq::new(groups@.len(), |i: int| seq!['?']);
        let mut statement = String::new();
        let mut i: usize = 0;
        while i < pieces.len()
            invariant
                0 <= i <= pieces@.len(),
                fills == Seq::new(groups@.len(), |i: int| seq!['?']),
                statement@ == interleave(views(pieces@), fills, i as int),
            decreases pieces@.len() - i,
        {
            push_str(&mut statement, pieces[i].as_str());
            if i < groups.len() {
                push_char(&mut statement, '?');
            }
            proof {
                assert(views(pieces@)[i as int] == pieces@[i as int]@);
            }
            i += 1;
        }
        let mut parameters: Vec<String> = Vec::new();
        let mut j: usize = 0;
        while j < groups.len()
            invariant
                0 <= j <= groups@.len(),
                views(parameters@) == group_views(groups@).map_values(|g: (Seq<char>, Seq<char>, Seq<char>)| g.2).take(
                    j as int,
                ),
            decreases groups@.len() - j,
        {
            let name = groups[j].2.clone();
            proof {
                assert(views(parameters@.push(name)) =~= views(parameters@).push(name@));
            }
            parameters.push(name);
            j += 1;
            proof {
                assert(views(parameters@) =~= group_views(groups@).map_values(
                    |g: (Seq<char>, Seq<char>, Seq<char>)| g.2,
                ).take(j as int));
            }
        }
        proof {
            let all = group_views(groups@).map_values(|g: (Seq<char>, Seq<char>, Seq<char>)| g.2);
            assert(all.take(groups@.len() as int) =~= all);
        }
        Sql { statement, parameters }
    }

    /// The command's name.
    pub fn name(&self) -> (r: &'static str)
        ensures
            r@ == "exec"@,
    {
        "exec"
    }

    /// The command's argument: its statement.
    pub fn arg(&self) -> (r: &str)
        ensures
            r@ == self.statement(),
    {
        self.statement.as_str()
    }

    /// The parameters' values in `state`, in order: `None` where one of them
    /// is not set.
    pub fn bindings(&self, state: &RequestState) -> (r: Option<Vec<String>>)
        ensures
            r is Some <==> forall|i: int| 0 <= i < self.parameters().len() ==> state@.variables.contains_key(
                #[trigger] self.parameters()[i],
            ),
            r matches Some(v) ==> views(v@) == self.parameters().map_values(|p: Seq<char>| state@.variables[p]),
    {
        let ghost want = self.parameters().map_values(|p: Seq<char>| state@.variables[p]);
        let mut out: Vec<String> = Vec::new();
        let mut i: usize = 0;
        while i < self.parameters.len()
            invariant
                0 <= i <= self.parameters@.len(),
                want == self.parameters().map_values(|p: Seq<char>| state@.variables[p]),
                forall|k: int| 0 <= k < i ==> state@.variables.contains_key(#[trigger] self.parameters()[k]),
                views(out@) == want.take(i as int),
            decreases self.parameters@.len() - i,
        {
            match state.get_variable(self.parameters[i].as_str()) {
                Some(v) => {
                    let value = string_of(v);
                    proof {
                        assert(self.parameters()[i as int] == self.parameters@[i as int]@);
                        assert(views(out@.push(value)) =~= views(out@).push(value@));
                    }
                    out.push(value);
                    i += 1;
                    proof {
                        assert(views(out@) =~= want.take(i as int));
                    }
                },
                None => {
                    proof {
                        assert(self.parameters()[i as int] == self.parameters@[i as int]@);
                    }
                    return None;
                },
            }
        }
        proof {
            assert(want.take(self.parameters@.len() as int) =~= want);
        }
        Some(out)
    }

    /// Asks the caller to run the statement.
    pub fn run(&self, state: &mut RequestState) -> (r: Effect)
        ensures
            r matches Effect::Sql(t) && t@ == self.statement(),
            *final(state) == *old(state),
    {
        Effect::Sql(self.statement.clone())
    }

    /// The command as it is shown: `sql`.
    pub fn to_string(&self) -> (r: String)
        ensures
            r@ == "sql"@,
    {
        string_of("sql")
    }
}

/// A script for the embedded scripting engine.
pub struct Script {
    value: String,
}

impl Script {
    /// The script's text.
    pub closed spec fn value(&self) -> Seq<char> {
        self.value@
    }

    /// The script `arg` (empty where there is no argument).
    pub fn with_arg(arg: Option<&str>) -> (r: Self)
        ensures
            r.value() == arg_text(arg),
    {
        Script { value: arg_or_empty(arg) }
    }

    /// The command's name.
    pub fn name(&self) -> (r: &'static str)
        ensures
            r@ == "rhai"@,
    {
        "rhai"
    }

    /// The command's argument, as it is shown: none.
    pub fn arg(&self) -> (r: &'static str)
        ensures
            r@ == ""@,
    {
        ""
    }
}

/// A pair of numbers that scripts can swap.
#[derive(Clone, Copy, Debug)]
pub struct Test {
    pub x: i32,
    pub y: i32,
}

impl Test {
    /// Exchanges the two numbers.
    pub fn swap(&mut self)
        ensures
            final(self).x == old(self).y,
            final(self).y == old(self).x,
    {
        let temp = self.x;
        self.x = self.y;
        self.y = temp;
    }

    /// The pair (100, 200).
    pub fn new() -> (r: Self)
        ensures
            r.x == 100 && r.y == 200,
    {
        Test { x: 100, y: 200 }
    }
}

/// Swapping twice gives back the pair one started with.
pub proof fn lemma_swap_twice(t: Test, once: Test, twice: Test)
    requires
        once.x == t.y && once.y == t.x,
        twice.x == once.y && twice.y == once.x,
    ensures
        twice == t,
{
}

/// Reads a file into the body.
pub struct ReadFile {
    path: String,
}

impl ReadFile {
    /// The path, before its variables are replaced.
    pub closed spec fn path(&self) -> Seq<char> {
        self.path@
    }

    /// The command `read PATH`; the path must be given.
    pub fn with_arg(arg: Option<&str>) -> (r: Self)
        requires
            arg is Some,
        ensures
            r.path() == arg_text(arg),
    {
        ReadFile { path: arg_or_empty(arg) }
    }

    /// The path with its variables replaced from `state`: the file whose
    /// contents become the body. `None` where the variable syntax does not
    /// compile.
    pub fn run(&self, state: &RequestState) -> (r: Option<String>)
        ensures
            opt_views_one(r) == substituted(self.path(), state@.variables),
    {
        substitute_vars(self.path.as_str(), state)
    }

    /// The command as it is written: `read PATH`.
    pub fn to_string(&self) -> (r: String)
        ensures
            r@ == "read "@ + self.path(),
    {
        let mut out = string_of("read ");
        push_str(&mut out, self.path.as_str());
        out
    }
}

/// How a command is shown: its name, a space, and its argument with tabs
/// turned into spaces, or ` ... ` where the argument is 80 characters or
/// longer.
pub open spec fn described(name: Seq<char>, arg: Seq<char>) -> Seq<char> {
    name + seq![' '] + if arg.len() >= 80 {
        " ... "@
    } else {
        Seq::new(arg.len(), |i: int| if arg[i] == '\t' { ' ' } else { arg[i] })
    }
}

/// Shows a command by its name and argument (see `described`).
pub fn describe(name: &str, arg: &str) -> (r: String)
    ensures
        r@ == described(name@, arg@),
{
    let mut out = string_of(name);
    push_char(&mut out, ' ');
    let c = crate::text::chars_of(arg);
    if c.len() >= 80 {
        push_str(&mut out, " ... ");
        return out;
    }
    let ghost start = out@;
    let mut i: usize = 0;
    while i < c.len()
        invariant
            c@ == arg@,
            c@.len() < 80,
            0 <= i <= c@.len(),
            out@ == start + Seq::new(i as nat, |k: int| if c@[k] == '\t' { ' ' } else { c@[k] }),
        decreases c@.len() - i,
    {
        if c[i] == '\t' {
            push_char(&mut out, ' ');
        } else {
            push_char(&mut out, c[i]);
        }
        i += 1;
        proof {
            assert(out@ =~= start + Seq::new(i as nat, |k: int| if c@[k] == '\t' { ' ' } else { c@[k] }));
        }
    }
    proof {
        assert(out@ =~= described(name@, arg@));
    }
    out
}


/// A command built from its name and argument.
pub enum Cmd {
    Echo(Echo),
    Read(ReadFile),
    Exec(Exec),
    Shell(Shell),
    Sql(Sql),
    SetVar(SetVar),
    ParseBody(ParseBody),
    Jump(Jump),
}

/// Whether `parse_cmd` can build the command `name` from `arg`: `set`
/// needs a key and a value; `read`, `exec`, `shell`, `sql` and `run` need
/// an argument.
pub open spec fn cmd_buildable(name: Seq<char>, arg: Option<Seq<char>>) -> bool {
    if name == "set"@ {
        arg matches Some(a) && words(a).len() >= 2
    } else if name == "read"@ || name == "exec"@ || name == "sh"@ || name == "shell"@ || name == "sql"@
        || name == "run"@ {
        arg is Some
    } else {
        true
    }
}

/// The names that `parse_cmd` builds commands for.
pub open spec fn cmd_name(name: Seq<char>) -> bool {
    name == "echo"@ || name == "read"@ || name == "exec"@ || name == "sh"@ || name == "shell"@ || name == "sql"@
        || name == "set"@ || name == "parse"@ || name == "run"@
}

/// Whether the variable syntax compiles on `arg` for a query.
pub open spec fn sql_compiles(arg: Seq<char>) -> bool {
    regex_pieces(VAR_SYNTAX@, arg) is Some && regex_groups(VAR_SYNTAX@, arg, PRECEDE_GROUP@, NAME_GROUP@) is Some
}

/// The view of an optional string slice.
pub open spec fn opt_arg(o: Option<&str>) -> Option<Seq<char>> {
    match o {
        Some(s) => Some(s@),
        None => None,
    }
}

/// Builds the command `name` with `arg`: `echo`, `read`, `exec`, `sh` or
/// `shell`, `sql`, `set`, `parse` (the body parser) and `run` (a jump to
/// another route). Any other name, and a query whose variable syntax does
/// not compile, is refused.
pub fn parse_cmd(name: &str, arg: Option<&str>) -> (r: Result<Cmd, ()>)
    requires
        cmd_buildable(name@, opt_arg(arg)),
    ensures
        r matches Ok(c) ==> match c {
            Cmd::Echo(e) => name@ == "echo"@ && e.value() == arg_text(arg),
            Cmd::Read(f) => name@ == "read"@ && f.path() == arg_text(arg),
            Cmd::Exec(x) => name@ == "exec"@ && x.program() == words(arg_text(arg))[0] && x.args() == words(
                arg_text(arg),
            ).drop_first(),
            Cmd::Shell(x) => (name@ == "sh"@ || name@ == "shell"@) && x.exec().args() == seq!["-c"@, arg_text(arg)],
            Cmd::Sql(q) => name@ == "sql"@ && q.statement() == with_placeholders(
                regex_pieces(VAR_SYNTAX@, arg_text(arg))->0,
                (regex_groups(VAR_SYNTAX@, arg_text(arg), PRECEDE_GROUP@, NAME_GROUP@)->0).len(),
            ) && q.parameters() == (regex_groups(VAR_SYNTAX@, arg_text(arg), PRECEDE_GROUP@, NAME_GROUP@)->0).map_values(
                |g: (Seq<char>, Seq<char>, Seq<char>)| g.2,
            ),
            Cmd::SetVar(x) => name@ == "set"@ && x.key() == words(arg_text(arg))[0] && x.value() == words(
                arg_text(arg),
            )[1],
            Cmd::ParseBody(_) => name@ == "parse"@,
            Cmd::Jump(j) => name@ == "run"@ && j.route() == arg_text(arg),
        },
        r is Err <==> (!cmd_name(name@) || (name@ == "sql"@ && !sql_compiles(arg_text(arg)))),
{
    proof {
        reveal_strlit("echo");
        reveal_strlit("read");
        reveal_strlit("exec");
        reveal_strlit("sh");
        reveal_strlit("shell");
        reveal_strlit("sql");
        reveal_strlit("set");
        reveal_strlit("parse");
        reveal_strlit("run");
    }
    if same_text(name, "echo") {
        assert(name@.len() != "sql"@.len());
        Ok(Cmd::Echo(Echo::with_arg(arg)))
    } else if same_text(name, "read") {
        assert(name@.len() != "sql"@.len());
        Ok(Cmd::Read(ReadFile::with_arg(arg)))
    } else if same_text(name, "exec") {
        assert(name@.len() != "sql"@.len());
        Ok(Cmd::Exec(Exec::with_arg(arg)))
    } else if same_text(name, "sh") || same_text(name, "shell") {
        assert(name@.len() != "sql"@.len());
        Ok(Cmd::Shell(Shell::with_arg(arg)))
    } else if same_text(name, "sql") {
        assert(name@[1] != "set"@[1]);
        let a = match arg {
            Some(a) => a,
            None => "",
        };
        match Sql::with_arg(a) {
            Some(q) => Ok(Cmd::Sql(q)),
            None => {
                assert(!sql_compiles(arg_text(arg)));
                Err(())
            },
        }
    } else if same_text(name, "set") {
        assert(name@[1] != "sql"@[1]);
        Ok(Cmd::SetVar(SetVar::with_arg(arg)))
    } else if same_text(name, "parse") {
        assert(name@.len() != "sql"@.len());
        Ok(Cmd::ParseBody(ParseBody::with_arg(arg)))
    } else if same_text(name, "run") {
        assert(name@[0] != "sql"@[0]);
        Ok(Cmd::Jump(Jump::with_arg(arg)))
    } else {
        assert(!cmd_name(name@));
        Err(())
    }
}


/// The rows a query gave: the names of its columns, and each row's values,
/// already written as JSON.
pub struct SqlResult {
    pub width: usize,
    pub column_names: Vec<String>,
    pub rows: Vec<Vec<String>>,
}

/// One member of a row: `"name": value`.
pub open spec fn sql_member(name: Seq<char>, value: Seq<char>) -> Seq<char> {
    seq!['"'] + name + "\": "@ + value
}

/// The members of a row: each value with the column name at its place, as
/// far as both go.
pub open spec fn row_members(row: Seq<String>, names: Seq<String>) -> Seq<Seq<char>> {
    let n = if row.len() <= names.len() { row.len() } else { names.len() };
    Seq::new(n, |i: int| sql_member(names[i]@, row[i]@))
}

/// A row written as a JSON object: `{"a": 1, "b": 2}`.
pub open spec fn row_text(row: Seq<String>, names: Seq<String>) -> Seq<char> {
    seq!['{'] + crate::text::join_with(row_members(row, names), ", "@) + seq!['}']
}

impl SqlResult {
    /// The rows written as a JSON list, one row to a line.
    pub open spec fn text(&self) -> Seq<char> {
        "[\n"@ + crate::text::join_with(
            Seq::new(self.rows@.len(), |i: int| row_text(self.rows@[i]@, self.column_names@)),
            ",\n"@,
        ) + seq![']']
    }

    /// The rows written as a JSON list (see `text`).
    pub fn to_string(&self) -> (r: String)
        ensures
            r@ == self.text(),
    {
        let mut rows: Vec<String> = Vec::new();
        let mut i: usize = 0;
        while i < self.rows.len()
            invariant
                0 <= i <= self.rows@.len(),
                views(rows@) == Seq::new(self.rows@.len(), |k: int| row_text(self.rows@[k]@, self.column_names@)).take(
                    i as int,
                ),
            decreases self.rows@.len() - i,
        {
            let row = &self.rows[i];
            let n = if row.len() <= self.column_names.len() { row.len() } else { self.column_names.len() };
            let mut members: Vec<String> = Vec::new();
            let mut j: usize = 0;
            while j < n
                invariant
                    n == if row@.len() <= self.column_names@.len() { row@.len() } else { self.column_names@.len() },
                    0 <= j <= n,
                    views(members@) == row_members(row@, self.column_names@).take(j as int),
                decreases n - j,
            {
                let mut m = String::new();
                push_char(&mut m, '"');
                push_str(&mut m, self.column_names[j].as_str());
                push_str(&mut m, "\": ");
                push_str(&mut m, row[j].as_str());
                proof {
                    assert(m@ == row_members(row@, self.column_names@)[j as int]);
                    assert(views(members@.push(m)) =~= views(members@).push(m@));
                }
                members.push(m);
                j += 1;
                proof {
                    assert(views(members@) =~= row_members(row@, self.column_names@).take(j as int));
                }
            }
            proof {
                assert(row_members(row@, self.column_names@).take(n as int) =~= row_members(row@, self.column_names@));
            }
            let inner = crate::text::join_text(&members, ", ");
            let mut t = String::new();
            push_char(&mut t, '{');
            push_str(&mut t, inner.as_str());
            push_char(&mut t, '}');
            proof {
                assert(t@ =~= row_text(row@, self.column_names@));
                assert(views(rows@.push(t)) =~= views(rows@).push(t@));
            }
            rows.push(t);
            i += 1;
            proof {
                assert(views(rows@) =~= Seq::new(self.rows@.len(), |k: int| row_text(self.rows@[k]@, self.column_names@)).take(
                    i as int,
                ));
            }
        }
        let ghost all = Seq::new(self.rows@.len(), |k: int| row_text(self.rows@[k]@, self.column_names@));
        proof {
            assert(all.take(self.rows@.len() as int) =~= all);
        }
        let body = crate::text::join_text(&rows, ",\n");
        let mut out = string_of("[\n");
        push_str(&mut out, body.as_str());
        push_char(&mut out, ']');
        out
    }
}


/// A value read from the database, of the kinds a row writes as text.
pub enum SqlCell {
    Text(String),
    Integer(i64),
    Null,
}

/// How a value of a row is written: text in double quotes, an integer in
/// decimal, nothing as `""`.
pub open spec fn cell_text(c: SqlCell) -> Seq<char> {
    match c {
        SqlCell::Text(s) => seq!['"'] + s@ + seq!['"'],
        SqlCell::Integer(i) => crate::ast::int_text(i as int),
        SqlCell::Null => seq!['"', '"'],
    }
}

/// Writes a value of a row (see `cell_text`).
pub fn format_cell(c: SqlCell) -> (r: String)
    ensures
        r@ == cell_text(c),
{
    let mut out = String::new();
    match c {
        SqlCell::Text(s) => {
            push_char(&mut out, '"');
            push_str(&mut out, s.as_str());
            push_char(&mut out, '"');
        },
        SqlCell::Integer(i) => crate::ast::push_int(&mut out, i),
        SqlCell::Null => {
            push_char(&mut out, '"');
            push_char(&mut out, '"');
        },
    }
    out
}

} // verus!
