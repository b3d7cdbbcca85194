//! Labels, and the scopes that store words under them: each scope may sit
//! inside a parent scope, whose words it can read.

use vstd::prelude::*;
use crate::error::ServError;
use crate::text::{decimal, decimal_string, push_str, same_text, string_of};

verus! {

#[derive(Clone, Debug)]
pub enum Label {
    Name(String),
    Route(String),
    Anonymous(u32),
}

impl Label {
    /// The parts of the label, in order: a label is a single part.
    pub fn parts(&self) -> (r: Vec<&Label>)
        ensures
            r@ == seq![self],
    {
        let mut v: Vec<&Label> = Vec::new();
        v.push(self);
        v
    }

    /// The label that names `input`.
    pub fn from_str(input: &str) -> (r: Self)
        ensures
            r matches Label::Name(n) && n@ == input@,
    {
        Label::Name(string_of(input))
    }

    /// The label as text: a name or a route as it is written, an anonymous
    /// label as `anonymous function ` followed by its number.
    pub fn to_string(&self) -> (r: String)
        ensures
            r@ == match self {
                Label::Name(s) => s@,
                Label::Route(s) => s@,
                Label::Anonymous(id) => "anonymous function "@ + decimal(*id as nat),
            },
    {
        match self {
            Label::Name(s) => s.clone(),
            Label::Route(s) => s.clone(),
            Label::Anonymous(id) => {
                let mut out = string_of("anonymous function ");
                let n = decimal_string(*id as u64);
                push_str(&mut out, n.as_str());
                out
            },
        }
    }
}


/// The identity of a label: its kind (0 for a name, 1 for a route, 2 for an
/// anonymous label), its text, and its number.
pub open spec fn label_key(l: Label) -> (u8, Seq<char>, u32) {
    match l {
        Label::Name(s) => (0u8, s@, 0u32),
        Label::Route(s) => (1u8, s@, 0u32),
        Label::Anonymous(id) => (2u8, Seq::empty(), id),
    }
}

/// Whether two labels are the same label.
pub fn same_label(a: &Label, b: &Label) -> (r: bool)
    ensures
        r == (label_key(*a) == label_key(*b)),
{
    match (a, b) {
        (Label::Name(x), Label::Name(y)) => same_text(x.as_str(), y.as_str()),
        (Label::Route(x), Label::Route(y)) => same_text(x.as_str(), y.as_str()),
        (Label::Anonymous(x), Label::Anonymous(y)) => *x == *y,
        _ => false,
    }
}

/// A copy of a label.
pub fn copy_label(l: &Label) -> (r: Label)
    ensures
        label_key(r) == label_key(*l),
        r == *l,
{
    match l {
        Label::Name(s) => Label::Name(s.clone()),
        Label::Route(s) => Label::Route(s.clone()),
        Label::Anonymous(id) => Label::Anonymous(*id),
    }
}

/// The head of the request that a scope answers: its method, path and
/// headers.
#[derive(Clone, Debug)]
pub struct RequestParts {
    pub method: String,
    pub path: String,
    pub headers: Vec<(String, String)>,
}

/// The words of one scope, read as a map from label identities to values.
pub open spec fn words_map<V>(words: Seq<(Label, V)>) -> Map<(u8, Seq<char>, u32), V> {
    Map::new(
        |k: (u8, Seq<char>, u32)| exists|i: int| 0 <= i < words.len() && label_key(#[trigger] words[i].0) == k,
        |k: (u8, Seq<char>, u32)| words[choose|i: int| 0 <= i < words.len() && label_key(#[trigger] words[i].0) == k].1,
    )
}

/// No label occurs twice among the words.
pub open spec fn distinct_labels<V>(words: Seq<(Label, V)>) -> bool {
    forall|i: int, j: int| 0 <= i < j < words.len() ==> label_key(#[trigger] words[i].0) != label_key(#[trigger] words[j].0)
}

/// Where labels are distinct, the value under an entry's label is that
/// entry's value.
proof fn lemma_words_at<V>(words: Seq<(Label, V)>, i: int)
    requires
        distinct_labels(words),
        0 <= i < words.len(),
    ensures
        words_map(words).contains_key(label_key(words[i].0)),
        words_map(words)[label_key(words[i].0)] == words[i].1,
{
    let k = label_key(words[i].0);
    let j = choose|j: int| 0 <= j < words.len() && label_key(#[trigger] words[j].0) == k;
    if j != i {
        if j < i {
            assert(label_key(words[j].0) != label_key(words[i].0));
        } else {
            assert(label_key(words[i].0) != label_key(words[j].0));
        }
    }
}

/// Where `key` sits among `words`, if anywhere.
fn find_label<V>(words: &Vec<(Label, V)>, key: &Label) -> (r: Option<usize>)
    ensures
        match r {
            Some(i) => i < words@.len() && label_key(words@[i as int].0) == label_key(*key),
            None => forall|j: int| 0 <= j < words@.len() ==> label_key(#[trigger] words@[j].0) != label_key(*key),
        },
{
    let mut i: usize = 0;
    while i < words.len()
        invariant
            0 <= i <= words@.len(),
            forall|j: int| 0 <= j < i ==> label_key(#[trigger] words@[j].0) != label_key(*key),
        decreases words@.len() - i,
    {
        if same_label(&words[i].0, key) {
            return Some(i);
        }
        i += 1;
    }
    None
}

/// Writing entry `i` (an old entry with the same label, or a new one at the
/// end) writes the value under that label in the map and leaves the rest.
proof fn lemma_map_after_write<V>(before: Seq<(Label, V)>, after: Seq<(Label, V)>, i: int, kk: (u8, Seq<char>,
    u32), value: V)
    requires
        distinct_labels(before),
        distinct_labels(after),
        0 <= i <= before.len(),
        i < before.len() ==> label_key(before[i].0) == kk && after.len() == before.len(),
        i == before.len() ==> after.len() == before.len() + 1 && forall|j: int| 0 <= j < before.len()
            ==> label_key(#[trigger] before[j].0) != kk,
        label_key(after[i].0) == kk,
        after[i].1 == value,
        forall|j: int| 0 <= j < before.len() && j != i ==> #[trigger] after[j] == before[j],
    ensures
        words_map(after) == words_map(before).insert(kk, value),
{
    let new_map = words_map(after);
    let want = words_map(before).insert(kk, value);
    assert forall|k: (u8, Seq<char>, u32)| #[trigger] new_map.contains_key(k) == want.contains_key(k) by {
        if new_map.contains_key(k) && k != kk {
            let w = choose|w: int| 0 <= w < after.len() && label_key(#[trigger] after[w].0) == k;
            assert(w != i);
            assert(after[w] == before[w]);
        }
        if want.contains_key(k) && k != kk {
            let w = choose|w: int| 0 <= w < before.len() && label_key(#[trigger] before[w].0) == k;
            assert(w != i);
            assert(after[w] == before[w]);
        }
        if k == kk {
            assert(label_key(after[i].0) == k);
        }
    }
    assert forall|k: (u8, Seq<char>, u32)| new_map.contains_key(k) implies #[trigger] new_map[k] == want[k] by {
        let w = choose|w: int| 0 <= w < after.len() && label_key(#[trigger] after[w].0) == k;
        lemma_words_at(after, w);
        if k != kk {
            assert(w != i);
            assert(after[w] == before[w]);
            lemma_words_at(before, w);
        } else {
            lemma_words_at(after, i);
        }
    }
    assert(new_map =~= want);
}

/// The words `own` after storing each of `entries` in order.
pub open spec fn with_words<V>(own: Map<(u8, Seq<char>, u32), V>, entries: Seq<(Label, V)>) -> Map<
    (u8, Seq<char>, u32),
    V,
>
    decreases entries.len(),
{
    if entries.len() == 0 {
        own
    } else {
        with_words(own, entries.drop_last()).insert(label_key(entries.last().0), entries.last().1)
    }
}

/// A scope: its own words, the scope it sits in, the next number for an
/// anonymous label, and the request it answers, if any.
pub struct StackDictionary<'parent, V> {
    unique_id: u32,
    parent: Option<&'parent StackDictionary<'parent, V>>,
    words: Vec<(Label, V)>,
    request: Option<RequestParts>,
}

impl<'parent, V: Clone> StackDictionary<'parent, V> {
    /// The scope's own words.
    pub closed spec fn own(&self) -> Map<(u8, Seq<char>, u32), V> {
        words_map(self.words@)
    }

    /// The number that the next anonymous label gets.
    pub closed spec fn next_id(&self) -> u32 {
        self.unique_id
    }

    /// Whether the scope has a parent.
    pub closed spec fn has_parent(&self) -> bool {
        self.parent is Some
    }

    /// No label occurs twice in this scope or in any scope around it.
    pub closed spec fn wf(&self) -> bool
        decreases self,
    {
        &&& distinct_labels(self.words@)
        &&& match self.parent {
            Some(p) => p.wf(),
            None => true,
        }
    }

    /// The value that the label with identity `k` has here: this scope's
    /// own, or else the one it has in the scope around this one.
    pub closed spec fn lookup(&self, k: (u8, Seq<char>, u32)) -> Option<V>
        decreases self,
    {
        if self.own().contains_key(k) {
            Some(self.own()[k])
        } else {
            match self.parent {
                Some(p) => p.lookup(k),
                None => None,
            }
        }
    }

    /// The request that the scope answers: its own, or the nearest one
    /// around it.
    pub closed spec fn request_of(&self) -> Option<RequestParts>
        decreases self,
    {
        match self.request {
            Some(r) => Some(r),
            None => match self.parent {
                Some(p) => p.request_of(),
                None => None,
            },
        }
    }

    /// An empty scope with nothing around it.
    pub fn empty() -> (r: Self)
        ensures
            r.wf(),
            !r.has_parent(),
            r.next_id() == 0,
            forall|k: (u8, Seq<char>, u32)| #[trigger] r.lookup(k) is None,
            r.request_of() is None,
    {
        let r = StackDictionary { unique_id: 0, parent: None, words: Vec::new(), request: None };
        proof {
            assert forall|k: (u8, Seq<char>, u32)| #[trigger] r.lookup(k) is None by {
                assert(!r.own().contains_key(k));
            }
        }
        r
    }

    /// An empty scope inside this one: it reads everything this one has.
    pub fn make_child(&'parent self) -> (r: Self)
        requires
            self.wf(),
        ensures
            r.wf(),
            r.has_parent(),
            r.next_id() == self.next_id(),
            forall|k: (u8, Seq<char>, u32)| #[trigger] r.lookup(k) == self.lookup(k),
            r.request_of() == self.request_of(),
    {
        let r = StackDictionary { unique_id: self.unique_id, parent: Some(self), words: Vec::new(), request: None };
        proof {
            assert forall|k: (u8, Seq<char>, u32)| #[trigger] r.lookup(k) == self.lookup(k) by {
                assert(!r.own().contains_key(k));
            }
        }
        r
    }

    /// Stores `value` under `key` in this scope, replacing what this scope
    /// had under it.
    pub fn insert(&mut self, key: Label, value: V)
        requires
            old(self).wf(),
        ensures
            final(self).wf(),
            final(self).own() == old(self).own().insert(label_key(key), value),
            final(self).next_id() == old(self).next_id(),
            final(self).has_parent() == old(self).has_parent(),
            final(self).request_of() == old(self).request_of(),
            forall|k: (u8, Seq<char>, u32)| #[trigger] final(self).lookup(k) == if k == label_key(key) {
                Some(value)
            } else {
                old(self).lookup(k)
            },
    {
        let ghost before = self.words@;
        let ghost kk = label_key(key);
        match find_label(&self.words, &key) {
            Some(i) => {
                self.words.set(i, (key, value));
                proof {
                    let after = self.words@;
                    assert forall|a: int, b: int| 0 <= a < b < after.len() implies label_key(#[trigger] after[a].0)
                        != label_key(#[trigger] after[b].0) by {
                        assert(label_key(before[a].0) != label_key(before[b].0));
                    }
                    lemma_map_after_write(before, after, i as int, kk, value);
                }
            },
            None => {
                self.words.push((key, value));
                proof {
                    let after = self.words@;
                    let n = before.len() as int;
                    assert forall|a: int, b: int| 0 <= a < b < after.len() implies label_key(#[trigger] after[a].0)
                        != label_key(#[trigger] after[b].0) by {
                        if b < n {
                            assert(label_key(before[a].0) != label_key(before[b].0));
                        } else {
                            assert(after[a] == before[a]);
                        }
                    }
                    lemma_map_after_write(before, after, n, kk, value);
                }
            },
        }
    }

    /// Stores each word of `module` in this scope, in order.
    pub fn insert_module(&mut self, module: Vec<(Label, V)>)
        requires
            old(self).wf(),
        ensures
            final(self).wf(),
            final(self).own() == with_words(old(self).own(), module@),
            final(self).next_id() == old(self).next_id(),
            final(self).has_parent() == old(self).has_parent(),
            final(self).request_of() == old(self).request_of(),
    {
        let ghost all = module@;
        let mut rest = module;
        let ghost mut done: int = 0;
        while rest.len() > 0
            invariant
                0 <= done <= all.len(),
                rest@ == all.subrange(done, all.len() as int),
                self.own() == with_words(old(self).own(), all.take(done)),
                self.wf(),
                self.next_id() == old(self).next_id(),
                self.has_parent() == old(self).has_parent(),
                self.request_of() == old(self).request_of(),
            decreases rest.len(),
        {
            let (k, v) = rest.remove(0);
            proof {
                assert(all.take(done + 1).drop_last() =~= all.take(done));
                assert(all.take(done + 1).last() == (k, v));
            }
            self.insert(k, v);
            proof {
                done = done + 1;
                assert(rest@ =~= all.subrange(done, all.len() as int));
            }
        }
        proof {
            assert(all.take(done) =~= all);
        }
    }

    fn get_unique_id(&mut self) -> (r: u32)
        requires
            old(self).next_id() < u32::MAX,
        ensures
            r == old(self).next_id(),
            final(self).next_id() == old(self).next_id() + 1,
            final(self).own() == old(self).own(),
            final(self).parent == old(self).parent,
            final(self).words == old(self).words,
            final(self).request == old(self).request,
    {
        let output = self.unique_id;
        self.unique_id += 1;
        output
    }

    /// Stores `value` under a new anonymous label, the next number, and
    /// gives that label.
    pub fn insert_anonymous(&mut self, value: V) -> (r: Label)
        requires
            old(self).wf(),
            old(self).next_id() < u32::MAX,
        ensures
            final(self).wf(),
            r == Label::Anonymous(old(self).next_id()),
            final(self).next_id() == old(self).next_id() + 1,
            final(self).own() == old(self).own().insert(label_key(r), value),
            forall|k: (u8, Seq<char>, u32)| #[trigger] final(self).lookup(k) == if k == label_key(r) {
                Some(value)
            } else {
                old(self).lookup(k)
            },
    {
        let id = self.get_unique_id();
        self.insert(Label::Anonymous(id), value);
        Label::Anonymous(id)
    }

    /// The value of `l` here (see `lookup`), or a missing-label error.
    pub fn get(&self, l: Label) -> (r: Result<V, ServError>)
        requires
            self.wf(),
        ensures
            match self.lookup(label_key(l)) {
                Some(v) => r matches Ok(w) && cloned(v, w),
                None => r matches Err(ServError::MissingLabel(m)) && m == l,
            },
        decreases self,
    {
        let mut i: usize = 0;
        while i < self.words.len()
            invariant
                distinct_labels(self.words@),
                0 <= i <= self.words@.len(),
                forall|j: int| 0 <= j < i ==> label_key(#[trigger] self.words@[j].0) != label_key(l),
            decreases self.words@.len() - i,
        {
            if same_label(&self.words[i].0, &l) {
                proof {
                    lemma_words_at(self.words@, i as int);
                }
                return Ok(self.words[i].1.clone());
            }
            i += 1;
        }
        proof {
            assert(!self.own().contains_key(label_key(l)));
        }
        match self.parent {
            Some(p) => {
                proof {
                    assert(decreases_to!(self => *p));
                }
                p.get(l)
            },
            None => Err(ServError::MissingLabel(l)),
        }
    }

    /// Sets the request that this scope answers.
    pub fn set_request(&mut self, request: RequestParts)
        ensures
            final(self).request_of() == Some(request),
            final(self).own() == old(self).own(),
            final(self).wf() == old(self).wf(),
            final(self).next_id() == old(self).next_id(),
            forall|k: (u8, Seq<char>, u32)| #[trigger] final(self).lookup(k) == old(self).lookup(k),
    {
        self.request = Some(request);
    }

    /// The request this scope answers: its own, or the nearest one around it.
    pub fn get_request(&self) -> (r: Option<&RequestParts>)
        ensures
            match r {
                Some(p) => self.request_of() == Some(*p),
                None => self.request_of() is None,
            },
        decreases self,
    {
        match &self.request {
            Some(p) => Some(p),
            None => match self.parent {
                Some(p) => {
                    proof {
                        assert(decreases_to!(self => *p));
                    }
                    p.get_request()
                },
                None => None,
            },
        }
    }
}

/// A word stored in a scope made inside another reads back from the inner
/// scope, shadowing the outer one's value under the same label; every other
/// label still reads as in the outer scope.
pub proof fn lemma_inner_scope_shadows<'a, V: Clone>(outer: StackDictionary<'a, V>, fresh: StackDictionary<'a, V>,
    inner: StackDictionary<'a, V>, key: Label, value: V, other: (u8, Seq<char>, u32))
    requires
        forall|k: (u8, Seq<char>, u32)| #[trigger] fresh.lookup(k) == outer.lookup(k),
        forall|k: (u8, Seq<char>, u32)| #[trigger] inner.lookup(k) == if k == label_key(key) {
            Some(value)
        } else {
            fresh.lookup(k)
        },
    ensures
        inner.lookup(label_key(key)) == Some(value),
        other != label_key(key) ==> inner.lookup(other) == outer.lookup(other),
{
    assert(inner.lookup(label_key(key)) == Some(value));
    assert(inner.lookup(other) == if other == label_key(key) { Some(value) } else { fresh.lookup(other) });
    assert(fresh.lookup(other) == outer.lookup(other));
}


/// The identity of the word `server.port`.
pub open spec fn port_key() -> (u8, Seq<char>, u32) {
    (0u8, "server.port"@, 0u32)
}

/// Gives the word `server.port` the value `port` where no scope defines it
/// yet, so that a program that sets no port gets the one from the command
/// line; a port the program defines stays.
pub fn populate_defaults<'p, V: Clone>(scope: &mut StackDictionary<'p, V>, port: V)
    requires
        old(scope).wf(),
    ensures
        final(scope).wf(),
        final(scope).next_id() == old(scope).next_id(),
        final(scope).has_parent() == old(scope).has_parent(),
        final(scope).request_of() == old(scope).request_of(),
        forall|k: (u8, Seq<char>, u32)| #[trigger] final(scope).lookup(k) == if k == port_key() && old(
            scope,
        ).lookup(k) is None {
            Some(port)
        } else {
            old(scope).lookup(k)
        },
{
    let key = Label::from_str("server.port");
    match scope.get(key) {
        Ok(_) => {},
        Err(_) => {
            scope.insert(Label::from_str("server.port"), port);
        },
    }
}


/// What label `k` holds after `writes` are made in order over a scope where
/// it holds `base`: the value of the last write under `k`, or `base`.
pub open spec fn last_write<V>(writes: Seq<(Label, V)>, k: (u8, Seq<char>, u32), base: Option<V>) -> Option<V>
    decreases writes.len(),
{
    if writes.len() == 0 {
        base
    } else if label_key(writes.last().0) == k {
        Some(writes.last().1)
    } else {
        last_write(writes.drop_last(), k, base)
    }
}

/// A scope made inside `parent` (as `make_child` makes one, reading as the
/// parent does) and then written by a series of inserts (each as `insert`
/// leaves it) reads, under every label, the last value written there, and
/// where nothing was written, what the parent reads; the parent is read
/// and never written.
pub proof fn lemma_scope_reads_through<'a, V: Clone>(parent: StackDictionary<'a, V>, scopes: Seq<StackDictionary<'a, V>>,
    writes: Seq<(Label, V)>, k: (u8, Seq<char>, u32))
    requires
        scopes.len() == writes.len() + 1,
        forall|kk: (u8, Seq<char>, u32)| #[trigger] scopes[0].lookup(kk) == parent.lookup(kk),
        forall|i: int, kk: (u8, Seq<char>, u32)| 1 <= i < scopes.len() ==> #[trigger] scopes[i].lookup(kk)
            == if kk == label_key(writes[i - 1].0) {
            Some(writes[i - 1].1)
        } else {
            scopes[i - 1].lookup(kk)
        },
    ensures
        scopes.last().lookup(k) == last_write(writes, k, parent.lookup(k)),
    decreases writes.len(),
{
    if writes.len() > 0 {
        let n = writes.len() as int;
        let s2 = scopes.drop_last();
        let w2 = writes.drop_last();
        assert forall|i: int, kk: (u8, Seq<char>, u32)| 1 <= i < s2.len() implies #[trigger] s2[i].lookup(kk)
            == if kk == label_key(w2[i - 1].0) {
            Some(w2[i - 1].1)
        } else {
            s2[i - 1].lookup(kk)
        } by {
            assert(scopes[i].lookup(kk) == if kk == label_key(writes[i - 1].0) {
                Some(writes[i - 1].1)
            } else {
                scopes[i - 1].lookup(kk)
            });
        }
        assert(s2[0].lookup(k) == scopes[0].lookup(k));
        assert forall|kk: (u8, Seq<char>, u32)| #[trigger] s2[0].lookup(kk) == parent.lookup(kk) by {
            assert(scopes[0].lookup(kk) == parent.lookup(kk));
        }
        lemma_scope_reads_through(parent, s2, w2, k);
        assert(scopes[n].lookup(k) == if k == label_key(writes[n - 1].0) {
            Some(writes[n - 1].1)
        } else {
            scopes[n - 1].lookup(k)
        });
    } else {
        assert(scopes[0].lookup(k) == parent.lookup(k));
    }
}

} // verus!
