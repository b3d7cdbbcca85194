//! Modules: values stored under labels, where a value may itself be a
//! module, so that a dotted address such as `server.port` reaches into
//! nested modules; and the statements of a module, kept in order.

use vstd::prelude::*;
use crate::error::ServError;
use crate::reference::{Address, Label};
use crate::text::{same_text, string_of};

verus! {

/// The identity of a label: whether it is a route, and its text.
pub type LabelKey = (bool, Seq<char>);

pub open spec fn label_key(l: Label) -> LabelKey {
    match l {
        Label::Name(s) => (false, s@),
        Label::Route(s) => (true, s@),
    }
}

/// What a label of a module holds: a nested module, or a value.
pub enum Member<V> {
    Module(ServModule<V>),
    Value(V),
}

/// A module: its members under their labels, and its statements in order.
pub struct ServModule<V> {
    pub values: Vec<(Label, Member<V>)>,
    pub statements: Vec<V>,
}

/// A member as the specification sees it.
pub enum MemberV<V> {
    Module(Seq<(LabelKey, MemberV<V>)>),
    Value(V),
}

impl<V> Member<V> {
    pub open spec fn view(&self) -> MemberV<V>
        decreases self, 1int,
    {
        match self {
            Member::Module(m) => MemberV::Module(m.entries()),
            Member::Value(v) => MemberV::Value(*v),
        }
    }
}

impl<V> ServModule<V> {
    /// The members of the module, in order, under their label identities.
    pub open spec fn entries(&self) -> Seq<(LabelKey, MemberV<V>)>
        decreases self, 0int,
    {
        Seq::new(self.values@.len(), |i: int| {
            proof {
                assert(0 <= i < self.values@.len() ==> decreases_to!(self => self.values@[i].1));
            }
            if 0 <= i < self.values@.len() {
                (label_key(self.values@[i].0), self.values@[i].1.view())
            } else {
                ((false, Seq::empty()), MemberV::Module(Seq::empty()))
            }
        })
    }
}

/// The place of the first entry under `k`, if any.
pub open spec fn first_index<V>(es: Seq<(LabelKey, MemberV<V>)>, k: LabelKey) -> Option<int>
    decreases es.len(),
{
    if es.len() == 0 {
        None
    } else if es[0].0 == k {
        Some(0)
    } else {
        match first_index(es.drop_first(), k) {
            Some(i) => Some(i + 1),
            None => None,
        }
    }
}

/// `es` with `m` under `k`: it replaces the member of the first entry under
/// `k`, or joins at the end.
pub open spec fn put_member<V>(es: Seq<(LabelKey, MemberV<V>)>, k: LabelKey, m: MemberV<V>) -> Seq<(LabelKey, MemberV<V>)> {
    match first_index(es, k) {
        Some(i) => es.update(i, (k, m)),
        None => es.push((k, m)),
    }
}

/// `es` with the value `v` stored at `path`, nested modules made where the
/// path passes a label that holds nothing; `None` where it passes a label
/// that holds a value rather than a module.
pub open spec fn put_path<V>(es: Seq<(LabelKey, MemberV<V>)>, path: Seq<LabelKey>, v: V) -> Option<
    Seq<(LabelKey, MemberV<V>)>,
>
    decreases path.len(),
{
    if path.len() == 0 {
        None
    } else if path.len() == 1 {
        Some(put_member(es, path[0], MemberV::Value(v)))
    } else {
        match first_index(es, path[0]) {
            None => match put_path(Seq::empty(), path.drop_first(), v) {
                Some(sub) => Some(es.push((path[0], MemberV::Module(sub)))),
                None => None,
            },
            Some(i) => match es[i].1 {
                MemberV::Module(sub) => match put_path(sub, path.drop_first(), v) {
                    Some(sub2) => Some(es.update(i, (path[0], MemberV::Module(sub2)))),
                    None => None,
                },
                MemberV::Value(_) => None,
            },
        }
    }
}

/// The member at `path`, following nested modules.
pub open spec fn member_at<V>(es: Seq<(LabelKey, MemberV<V>)>, path: Seq<LabelKey>) -> Option<MemberV<V>>
    decreases path.len(),
{
    if path.len() == 0 {
        None
    } else {
        match first_index(es, path[0]) {
            None => None,
            Some(i) => if path.len() == 1 {
                Some(es[i].1)
            } else {
                match es[i].1 {
                    MemberV::Module(sub) => member_at(sub, path.drop_first()),
                    MemberV::Value(_) => None,
                }
            },
        }
    }
}

/// The label identities of an address from its `i`-th label on.
pub open spec fn keys_from(labels: Seq<Label>, i: int) -> Seq<LabelKey> {
    labels.subrange(i, labels.len() as int).map_values(|l: Label| label_key(l))
}

/// The first index under `k` is where `k` first occurs.
proof fn lemma_first_index<V>(es: Seq<(LabelKey, MemberV<V>)>, k: LabelKey)
    ensures
        match first_index(es, k) {
            Some(i) => 0 <= i < es.len() && es[i].0 == k && forall|j: int| 0 <= j < i ==> (#[trigger] es[j]).0 != k,
            None => forall|j: int| 0 <= j < es.len() ==> (#[trigger] es[j]).0 != k,
        },
    decreases es.len(),
{
    if es.len() > 0 && es[0].0 != k {
        let rest = es.drop_first();
        lemma_first_index(rest, k);
        match first_index(rest, k) {
            Some(i) => {
                assert forall|j: int| 0 <= j < i + 1 implies (#[trigger] es[j]).0 != k by {
                    if j > 0 {
                        assert(es[j] == rest[j - 1]);
                    }
                }
            },
            None => {
                assert forall|j: int| 0 <= j < es.len() implies (#[trigger] es[j]).0 != k by {
                    if j > 0 {
                        assert(es[j] == rest[j - 1]);
                    }
                }
            },
        }
    }
}

/// Where `k` first occurs is the first index under `k`.
proof fn lemma_first_index_at<V>(es: Seq<(LabelKey, MemberV<V>)>, k: LabelKey, i: int)
    requires
        0 <= i < es.len(),
        es[i].0 == k,
        forall|j: int| 0 <= j < i ==> (#[trigger] es[j]).0 != k,
    ensures
        first_index(es, k) == Some(i),
{
    lemma_first_index(es, k);
    match first_index(es, k) {
        Some(j) => {
            if j < i {
                assert(es[j].0 != k);
            } else if i < j {
                assert(es[i].0 != k);
            }
        },
        None => {
            assert(es[i].0 != k);
        },
    }
}

/// Where `k` never occurs there is no first index under it.
proof fn lemma_first_index_none<V>(es: Seq<(LabelKey, MemberV<V>)>, k: LabelKey)
    requires
        forall|j: int| 0 <= j < es.len() ==> (#[trigger] es[j]).0 != k,
    ensures
        first_index(es, k) is None,
{
    lemma_first_index(es, k);
    if let Some(i) = first_index(es, k) {
        assert(es[i].0 != k);
    }
}

/// Writing an entry under `k`, in place or at the end, leaves where other
/// keys first occur as it was, and puts `k` where it was written.
proof fn lemma_put_keys<V>(es: Seq<(LabelKey, MemberV<V>)>, k: LabelKey, m: MemberV<V>, es2: Seq<(LabelKey, MemberV<V>)>, q: LabelKey)
    requires
        es2 == match first_index(es, k) {
            Some(i) => es.update(i, (k, m)),
            None => es.push((k, m)),
        },
    ensures
        first_index(es2, k) == Some(match first_index(es, k) {
            Some(i) => i,
            None => es.len() as int,
        }),
        es2[first_index(es2, k)->0] == (k, m),
        q != k ==> first_index(es2, q) == first_index(es, q),
        q != k && first_index(es, q) is Some ==> es2[first_index(es, q)->0] == es[first_index(es, q)->0],
{
    lemma_first_index(es, k);
    lemma_first_index(es, q);
    match first_index(es, k) {
        Some(i) => {
            assert forall|j: int| 0 <= j < i implies (#[trigger] es2[j]).0 != k by {
                assert(es2[j] == es[j]);
            }
            lemma_first_index_at(es2, k, i);
        },
        None => {
            let n = es.len() as int;
            assert forall|j: int| 0 <= j < n implies (#[trigger] es2[j]).0 != k by {
                assert(es2[j] == es[j]);
            }
            lemma_first_index_at(es2, k, n);
        },
    }
    if q != k {
        match first_index(es, q) {
            Some(j) => {
                assert forall|a: int| 0 <= a < j implies (#[trigger] es2[a]).0 != q by {
                    if a < es.len() && es2[a] != es[a] {
                        assert(es2[a].0 == k);
                    }
                }
                assert(es2[j] == es[j]);
                lemma_first_index_at(es2, q, j);
            },
            None => {
                assert forall|a: int| 0 <= a < es2.len() implies (#[trigger] es2[a]).0 != q by {
                    if a < es.len() && es2[a] != es[a] {
                        assert(es2[a].0 == k);
                    } else if a >= es.len() {
                        assert(es2[a].0 == k);
                    }
                }
                lemma_first_index_none(es2, q);
            },
        }
    }
}

/// Storing a value at a path and reading the path gives the value back.
pub proof fn lemma_read_after_put<V>(es: Seq<(LabelKey, MemberV<V>)>, path: Seq<LabelKey>, v: V)
    requires
        put_path(es, path, v) is Some,
    ensures
        member_at(put_path(es, path, v)->0, path) == Some(MemberV::Value(v)),
    decreases path.len(),
{
    let es2 = put_path(es, path, v)->0;
    let k = path[0];
    if path.len() == 1 {
        lemma_put_keys(es, k, MemberV::Value(v), es2, k);
    } else {
        let rest = path.drop_first();
        match first_index(es, k) {
            None => {
                let sub2 = put_path(Seq::empty(), rest, v)->0;
                lemma_read_after_put(Seq::empty(), rest, v);
                lemma_put_keys(es, k, MemberV::Module(sub2), es2, k);
            },
            Some(i) => {
                let sub = es[i].1->Module_0;
                let sub2 = put_path(sub, rest, v)->0;
                lemma_read_after_put(sub, rest, v);
                lemma_put_keys(es, k, MemberV::Module(sub2), es2, k);
            },
        }
    }
}

/// Storing a value at a path leaves every path that starts with another
/// label as it was.
pub proof fn lemma_put_keeps_others<V>(es: Seq<(LabelKey, MemberV<V>)>, path: Seq<LabelKey>, v: V, q: Seq<LabelKey>)
    requires
        put_path(es, path, v) is Some,
        q.len() > 0,
        q[0] != path[0],
    ensures
        member_at(put_path(es, path, v)->0, q) == member_at(es, q),
{
    let es2 = put_path(es, path, v)->0;
    let k = path[0];
    if path.len() == 1 {
        lemma_put_keys(es, k, MemberV::Value(v), es2, q[0]);
    } else {
        let rest = path.drop_first();
        match first_index(es, k) {
            None => {
                let sub2 = put_path(Seq::empty(), rest, v)->0;
                lemma_put_keys(es, k, MemberV::Module(sub2), es2, q[0]);
            },
            Some(i) => {
                let sub2 = put_path(es[i].1->Module_0, rest, v)->0;
                lemma_put_keys(es, k, MemberV::Module(sub2), es2, q[0]);
            },
        }
    }
}

/// Whether two labels are the same label.
fn same_label(a: &Label, b: &Label) -> (r: bool)
    ensures
        r == (label_key(*a) == label_key(*b)),
{
    match (a, b) {
        (Label::Name(x), Label::Name(y)) => same_text(x.as_str(), y.as_str()),
        (Label::Route(x), Label::Route(y)) => same_text(x.as_str(), y.as_str()),
        _ => false,
    }
}

/// A copy of a label.
fn copy_label(l: &Label) -> (r: Label)
    ensures
        label_key(r) == label_key(*l),
{
    match l {
        Label::Name(s) => Label::Name(string_of(s.as_str())),
        Label::Route(s) => Label::Route(string_of(s.as_str())),
    }
}

/// The error of a store that passes a label holding a value rather than a
/// module.
pub open spec fn not_a_module_error(e: ServError) -> bool {
    e matches ServError::General(c, m) && c == 500 && m@ == "tried to insert into something that was not a module"@
}

/// The entries of a module as its members hold them.
pub open spec fn entries_of<V>(values: Seq<(Label, Member<V>)>) -> Seq<(LabelKey, MemberV<V>)> {
    values.map_values(|e: (Label, Member<V>)| (label_key(e.0), e.1.view()))
}

/// The routes of a module, in order: the text of each route label and what
/// it holds.
pub open spec fn route_entries<V>(values: Seq<(Label, Member<V>)>) -> Seq<(Seq<char>, Member<V>)>
    decreases values.len(),
{
    if values.len() == 0 {
        Seq::empty()
    } else {
        let rest = route_entries(values.drop_last());
        match values.last().0 {
            Label::Route(name) => rest.push((name@, values.last().1)),
            Label::Name(_) => rest,
        }
    }
}

impl<V> ServModule<V> {
    proof fn lemma_entries(&self)
        ensures
            self.entries() == entries_of(self.values@),
    {
        assert(self.entries() =~= entries_of(self.values@));
    }

    /// A module with no members and no statements.
    pub fn empty() -> (r: Self)
        ensures
            r.entries() == Seq::<(LabelKey, MemberV<V>)>::empty(),
            r.statements@ == Seq::<V>::empty(),
    {
        let r = ServModule { values: Vec::new(), statements: Vec::new() };
        proof {
            assert(r.entries() =~= Seq::<(LabelKey, MemberV<V>)>::empty());
        }
        r
    }

    /// Where `key` first sits among the members.
    fn find(&self, key: &Label) -> (r: Option<usize>)
        ensures
            match r {
                Some(i) => first_index(self.entries(), label_key(*key)) == Some(i as int),
                None => first_index(self.entries(), label_key(*key)) is None,
            },
    {
        proof {
            self.lemma_entries();
        }
        let ghost es = self.entries();
        let mut i: usize = 0;
        while i < self.values.len()
            invariant
                0 <= i <= self.values@.len(),
                es == entries_of(self.values@),
                es == self.entries(),
                forall|j: int| 0 <= j < i ==> (#[trigger] es[j]).0 != label_key(*key),
            decreases self.values@.len() - i,
        {
            if same_label(&self.values[i].0, key) {
                proof {
                    lemma_first_index_at(es, label_key(*key), i as int);
                }
                return Some(i);
            }
            i += 1;
        }
        proof {
            lemma_first_index_none(es, label_key(*key));
        }
        None
    }

    /// Stores `value` at the labels of `labels` from the `i`-th on (see
    /// `put_path`); the module is left as it was where that fails.
    fn insert_at(&mut self, labels: &Vec<Label>, i: usize, value: V) -> (r: Result<(), ServError>)
        requires
            i < labels@.len(),
        ensures
            final(self).statements@ == old(self).statements@,
            match r {
                Ok(()) => put_path(old(self).entries(), keys_from(labels@, i as int), value) == Some(final(self).entries()),
                Err(e) => put_path(old(self).entries(), keys_from(labels@, i as int), value) is None
                    && final(self).entries() == old(self).entries()
                    && not_a_module_error(e),
            },
        decreases labels@.len() - i,
    {
        let ghost es = self.entries();
        let ghost path = keys_from(labels@, i as int);
        proof {
            self.lemma_entries();
            assert(path[0] == label_key(labels@[i as int]));
        }
        let pos = self.find(&labels[i]);
        proof {
            lemma_first_index(es, path[0]);
        }
        if i == labels.len() - 1 {
            let label = copy_label(&labels[i]);
            let ghost m = Member::<V>::Value(value).view();
            match pos {
                Some(p) => {
                    self.values.set(p, (label, Member::Value(value)));
                    proof {
                        assert(self.entries() =~= es.update(p as int, (path[0], m)));
                    }
                },
                None => {
                    self.values.push((label, Member::Value(value)));
                    proof {
                        assert(self.entries() =~= es.push((path[0], m)));
                    }
                },
            }
            return Ok(());
        }
        proof {
            assert(path.drop_first() =~= keys_from(labels@, i + 1));
        }
        match pos {
            None => {
                let mut sub: ServModule<V> = ServModule::empty();
                match sub.insert_at(labels, i + 1, value) {
                    Ok(()) => {
                        let label = copy_label(&labels[i]);
                        let ghost sv = sub.entries();
                        self.values.push((label, Member::Module(sub)));
                        proof {
                            assert(self.entries() =~= es.push((path[0], MemberV::Module(sv))));
                        }
                        Ok(())
                    },
                    Err(e) => Err(e),
                }
            },
            Some(p) => {
                let (label, member) = self.values.remove(p);
                match member {
                    Member::Module(mut sub) => {
                        let r = sub.insert_at(labels, i + 1, value);
                        let ghost sv = sub.entries();
                        self.values.insert(p, (label, Member::Module(sub)));
                        proof {
                            assert(self.entries() =~= es.update(p as int, (path[0], MemberV::Module(sv))));
                            if r is Err {
                                assert(es[p as int].1 == MemberV::Module(sv));
                                assert(es.update(p as int, (path[0], MemberV::Module(sv))) =~= es);
                            }
                        }
                        r
                    },
                    Member::Value(v) => {
                        self.values.insert(p, (label, Member::Value(v)));
                        proof {
                            assert(self.entries() =~= es);
                        }
                        Err(ServError::new(500, "tried to insert into something that was not a module"))
                    },
                }
            },
        }
    }

    /// Stores `value` at `key`, reaching into nested modules and making
    /// those the address passes that do not exist yet. It fails, leaving
    /// the module as it was, where a label on the way holds a value that is
    /// not a module.
    pub fn insert(&mut self, key: &Address, value: V) -> (r: Result<(), ServError>)
        requires
            key.labels().len() > 0,
        ensures
            final(self).statements@ == old(self).statements@,
            match r {
                Ok(()) => put_path(old(self).entries(), keys_from(key.labels(), 0), value) == Some(final(self).entries()),
                Err(e) => put_path(old(self).entries(), keys_from(key.labels(), 0), value) is None
                    && final(self).entries() == old(self).entries()
                    && not_a_module_error(e),
            },
    {
        self.insert_at(&key.0, 0, value)
    }

    /// Adds a declaration: a statement where it has no key, else a value
    /// stored at its key (a failed store is dropped, as `insert` leaves
    /// the module).
    pub fn insert_declaration(&mut self, key: Option<&Address>, value: V)
        requires
            key matches Some(a) ==> a.labels().len() > 0,
        ensures
            match key {
                None => final(self).statements@ == old(self).statements@.push(value)
                    && final(self).entries() == old(self).entries(),
                Some(a) => final(self).statements@ == old(self).statements@
                    && final(self).entries() == match put_path(old(self).entries(), keys_from(a.labels(), 0), value) {
                        Some(es) => es,
                        None => old(self).entries(),
                    },
            },
    {
        match key {
            None => {
                let ghost es = self.entries();
                self.statements.push(value);
                proof {
                    assert(self.entries() =~= es);
                }
            },
            Some(a) => {
                let _ = self.insert(a, value);
            },
        }
    }

    /// The routes among the module's labels, in order, each with what it
    /// holds.
    pub fn routes(&self) -> (r: Vec<(&str, &Member<V>)>)
        ensures
            r@.len() == route_entries(self.values@).len(),
            forall|j: int| 0 <= j < r@.len() ==> (#[trigger] r@[j]).0@ == route_entries(self.values@)[j].0
                && *r@[j].1 == route_entries(self.values@)[j].1,
    {
        let mut out: Vec<(&str, &Member<V>)> = Vec::new();
        let mut i: usize = 0;
        while i < self.values.len()
            invariant
                0 <= i <= self.values@.len(),
                out@.len() == route_entries(self.values@.take(i as int)).len(),
                forall|j: int| 0 <= j < out@.len() ==> (#[trigger] out@[j]).0@ == route_entries(self.values@.take(i as int))[j].0
                    && *out@[j].1 == route_entries(self.values@.take(i as int))[j].1,
            decreases self.values@.len() - i,
        {
            proof {
                assert(self.values@.take(i + 1).drop_last() =~= self.values@.take(i as int));
                assert(self.values@.take(i + 1).last() == self.values@[i as int]);
            }
            match &self.values[i].0 {
                Label::Route(name) => {
                    out.push((name.as_str(), &self.values[i].1));
                },
                Label::Name(_) => {},
            }
            i += 1;
        }
        proof {
            assert(self.values@.take(self.values@.len() as int) =~= self.values@);
        }
        out
    }
}

} // verus!
