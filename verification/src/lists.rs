//! List words of the standard library: `count` makes the numbers below a
//! bound, `sum` adds up a list of numbers or joins a list of texts, and
//! `?` chooses which of a module's expressions runs.

use vstd::prelude::*;
use crate::ast::{int_text, push_int};
use crate::error::ServError;
use crate::text::{decimal, push_str, string_of};

verus! {

/// The numbers `0` up to (not including) `n`; none where `n` is not
/// positive.
pub fn count(n: i64) -> (r: Vec<i64>)
    ensures
        r@.len() == (if n > 0 { n as int } else { 0 }),
        forall|i: int| 0 <= i < r@.len() ==> #[trigger] r@[i] == i,
{
    let mut output: Vec<i64> = Vec::new();
    let mut i: i64 = 0;
    while i < n
        invariant
            0 <= i,
            n > 0 ==> i <= n,
            n <= 0 ==> i == 0,
            output@.len() == i,
            forall|k: int| 0 <= k < output@.len() ==> #[trigger] output@[k] == k,
        decreases n - i,
    {
        output.push(i);
        i += 1;
    }
    output
}

/// An item of a list as `sum` reads it: nothing, an integer, a text, or
/// another value, carried by the text it prints as.
pub enum Item {
    Nil,
    Int(i64),
    Text(String),
    Other(String),
}

/// The first item of `items` that is not `Nil`, from position `i` on.
pub open spec fn first_item(items: Seq<Item>, i: int) -> Option<Item>
    decreases items.len() - i,
{
    if i < 0 || i >= items.len() {
        None
    } else if items[i] is Nil {
        first_item(items, i + 1)
    } else {
        Some(items[i])
    }
}

/// The total of the integers among the first `k` items.
pub open spec fn int_total(items: Seq<Item>, k: int) -> int
    decreases k,
{
    if k <= 0 || k > items.len() {
        0
    } else {
        int_total(items, k - 1) + match items[k - 1] {
            Item::Int(v) => v as int,
            _ => 0,
        }
    }
}

/// The printed texts of the first `k` items that are not `Nil`, joined:
/// an integer in decimal, a text as it is, another value as it prints.
pub open spec fn text_total(items: Seq<Item>, k: int) -> Seq<char>
    decreases k,
{
    if k <= 0 || k > items.len() {
        Seq::empty()
    } else {
        text_total(items, k - 1) + match items[k - 1] {
            Item::Nil => Seq::empty(),
            Item::Int(v) => int_text(v as int),
            Item::Text(t) => t@,
            Item::Other(t) => t@,
        }
    }
}

/// Whether `sum` can add up `items`: where the first item that is not
/// `Nil` is an integer, every item is `Nil` or an integer, and every
/// running total fits in an `i64`.
pub open spec fn summable(items: Seq<Item>) -> bool {
    first_item(items, 0) matches Some(Item::Int(_)) ==> {
        &&& forall|i: int| 0 <= i < items.len() ==> (#[trigger] items[i] is Nil || items[i] is Int)
        &&& forall|k: int| 0 <= k <= items.len() ==> i64::MIN <= #[trigger] int_total(items, k) <= i64::MAX
    }
}

/// The error `sum` gives for `items`, if any: a list with nothing but
/// `Nil` in it, or one whose first item is neither an integer nor a text.
pub open spec fn sum_error(items: Seq<Item>) -> Option<Seq<char>> {
    match first_item(items, 0) {
        None => Some("tried to sum an empty list"@),
        Some(Item::Other(_)) => Some("please don't try to sum that"@),
        _ => None,
    }
}

fn is_nil(item: &Item) -> (r: bool)
    ensures
        r == (*item is Nil),
{
    match item {
        Item::Nil => true,
        _ => false,
    }
}

proof fn lemma_first_item_from(items: Seq<Item>, i: int)
    requires
        0 <= i <= items.len(),
        forall|j: int| 0 <= j < i ==> (#[trigger] items[j]) is Nil,
    ensures
        first_item(items, 0) == first_item(items, i),
    decreases i,
{
    if i > 0 {
        lemma_first_item_from(items, i - 1);
        assert(items[i - 1] is Nil);
    }
}

/// Adds up the items of a list, leaving out `Nil`: integers to their total
/// where the first item is an integer, and texts (with the others as they
/// print) joined where it is a text. An error, with status 500, where
/// there is no item or the first is neither (see `sum_error`).
pub fn sum(items: &[Item]) -> (r: Result<Item, ServError>)
    requires
        summable(items@),
    ensures
        match r {
            Ok(v) => sum_error(items@) is None && match first_item(items@, 0) {
                Some(Item::Int(_)) => v matches Item::Int(t) && t as int == int_total(items@, items@.len() as int),
                _ => v matches Item::Text(t) && t@ == text_total(items@, items@.len() as int),
            },
            Err(e) => sum_error(items@) matches Some(m) && e matches ServError::General(c, s) && c == 500 && s@ == m,
        },
{
    let mut i: usize = 0;
    while i < items.len() && is_nil(&items[i])
        invariant
            0 <= i <= items@.len(),
            forall|j: int| 0 <= j < i ==> (#[trigger] items@[j]) is Nil,
        decreases items@.len() - i,
    {
        i += 1;
    }
    proof {
        lemma_first_item_from(items@, i as int);
    }
    if i == items.len() {
        return Err(ServError::new(500, "tried to sum an empty list"));
    }
    proof {
        assert(!(items@[i as int] is Nil));
        assert(first_item(items@, i as int) == Some(items@[i as int]));
    }
    match &items[i] {
        Item::Int(_) => {
            let mut total: i64 = 0;
            let mut k: usize = 0;
            while k < items.len()
                invariant
                    0 <= k <= items@.len(),
                    summable(items@),
                    first_item(items@, 0) matches Some(Item::Int(_)),
                    total as int == int_total(items@, k as int),
                decreases items@.len() - k,
            {
                proof {
                    assert(int_total(items@, k + 1) == int_total(items@, k as int) + match items@[k as int] {
                        Item::Int(v) => v as int,
                        _ => 0,
                    });
                    assert(i64::MIN <= int_total(items@, k + 1) <= i64::MAX);
                }
                match &items[k] {
                    Item::Int(v) => {
                        total = total + *v;
                    },
                    _ => {},
                }
                k += 1;
            }
            Ok(Item::Int(total))
        },
        Item::Other(_) => Err(ServError::new(500, "please don't try to sum that")),
        _ => {
            let mut out = String::new();
            let mut k: usize = 0;
            while k < items.len()
                invariant
                    0 <= k <= items@.len(),
                    out@ == text_total(items@, k as int),
                decreases items@.len() - k,
            {
                match &items[k] {
                    Item::Nil => {},
                    Item::Int(v) => push_int(&mut out, *v),
                    Item::Text(t) => push_str(&mut out, t.as_str()),
                    Item::Other(t) => push_str(&mut out, t.as_str()),
                }
                k += 1;
                proof {
                    assert(out@ =~= text_total(items@, k as int));
                }
            }
            Ok(Item::Text(out))
        },
    }
}


/// What the choice word `?` chooses by: nothing, a truth value, or a
/// number.
pub enum Selector {
    Nil,
    Bool(bool),
    Int(i64),
}

/// The expression that `?` runs among `n`: the first for nothing or
/// `true`, the second for `false`, and for a number that number, held
/// between the first and the last.
pub open spec fn chosen(selector: Selector, n: int) -> int {
    match selector {
        Selector::Nil => 0,
        Selector::Bool(b) => if b { 0 } else { 1 },
        Selector::Int(i) => if i < 0 { 0 } else if i > n - 1 { n - 1 } else { i as int },
    }
}

/// Which of `n` expressions `?` runs (see `chosen`). There must be one, and
/// a second where the selector is `false`.
pub fn choose_index(selector: &Selector, n: usize) -> (r: usize)
    requires
        n >= 1,
        *selector == Selector::Bool(false) ==> n >= 2,
    ensures
        r as int == chosen(*selector, n as int),
        r < n,
{
    match selector {
        Selector::Nil => 0,
        Selector::Bool(b) => if *b { 0 } else { 1 },
        Selector::Int(i) => {
            if *i < 0 {
                0
            } else if *i as u64 > (n - 1) as u64 {
                n - 1
            } else {
                *i as usize
            }
        },
    }
}


/// The total of a list joined from two is the total of the first plus the
/// total of the second; the total of a single integer is that integer
/// (whatever its sign), and an item that is not an integer adds nothing.
/// So `sum` of integers is their arithmetic sum: `[5, -2]` sums to `3`.
pub proof fn lemma_int_total_adds(a: Seq<Item>, b: Seq<Item>, v: i64)
    ensures
        int_total(a + b, (a + b).len() as int) == int_total(a, a.len() as int) + int_total(b, b.len() as int),
        int_total(seq![Item::Int(v)], 1) == v as int,
        int_total(seq![Item::Nil], 1) == 0,
{
    lemma_int_total_append(a, b, b.len() as int);
    let one = seq![Item::Int(v)];
    let nil = seq![Item::Nil];
    assert(int_total(one, 0) == 0);
    assert(one[0] == Item::Int(v));
    assert(int_total(nil, 0) == 0);
    assert(nil[0] == Item::Nil);
}

proof fn lemma_int_total_prefix(a: Seq<Item>, b: Seq<Item>, k: int)
    requires
        0 <= k <= a.len(),
    ensures
        int_total(a + b, k) == int_total(a, k),
    decreases k,
{
    if k > 0 {
        lemma_int_total_prefix(a, b, k - 1);
        assert((a + b)[k - 1] == a[k - 1]);
    }
}

proof fn lemma_int_total_append(a: Seq<Item>, b: Seq<Item>, j: int)
    requires
        0 <= j <= b.len(),
    ensures
        int_total(a + b, a.len() + j) == int_total(a, a.len() as int) + int_total(b, j),
    decreases j,
{
    if j == 0 {
        lemma_int_total_prefix(a, b, a.len() as int);
    } else {
        lemma_int_total_append(a, b, j - 1);
        assert((a + b)[a.len() + j - 1] == b[j - 1]);
    }
}

/// The joined text of a list joined from two is the text of the first
/// followed by that of the second; a single text item gives its text, a
/// single integer its decimal form (with `-` when negative), and `Nil`
/// nothing.
pub proof fn lemma_text_total_joins(a: Seq<Item>, b: Seq<Item>, t: String, v: i64)
    ensures
        text_total(a + b, (a + b).len() as int) == text_total(a, a.len() as int) + text_total(b, b.len() as int),
        text_total(seq![Item::Text(t)], 1) == t@,
        v >= 0 ==> text_total(seq![Item::Int(v)], 1) == decimal(v as nat),
        v < 0 ==> text_total(seq![Item::Int(v)], 1) == seq!['-'] + decimal((-v) as nat),
        text_total(seq![Item::Nil], 1) == Seq::<char>::empty(),
{
    lemma_text_total_append(a, b, b.len() as int);
    let one = seq![Item::Int(v)];
    let txt = seq![Item::Text(t)];
    let nil = seq![Item::Nil];
    assert(text_total(one, 0) == Seq::<char>::empty());
    assert(text_total(txt, 0) == Seq::<char>::empty());
    assert(text_total(nil, 0) == Seq::<char>::empty());
    assert(one[0] == Item::Int(v));
    assert(txt[0] == Item::Text(t));
    assert(nil[0] == Item::Nil);
    assert(text_total(nil, 1) =~= Seq::<char>::empty());
    assert(text_total(seq![Item::Text(t)], 1) =~= t@);
    assert(text_total(seq![Item::Int(v)], 1) =~= int_text(v as int));
}

proof fn lemma_text_total_prefix(a: Seq<Item>, b: Seq<Item>, k: int)
    requires
        0 <= k <= a.len(),
    ensures
        text_total(a + b, k) == text_total(a, k),
    decreases k,
{
    if k > 0 {
        lemma_text_total_prefix(a, b, k - 1);
        assert((a + b)[k - 1] == a[k - 1]);
    }
}

proof fn lemma_text_total_append(a: Seq<Item>, b: Seq<Item>, j: int)
    requires
        0 <= j <= b.len(),
    ensures
        text_total(a + b, a.len() + j) == text_total(a, a.len() as int) + text_total(b, j),
    decreases j,
{
    if j == 0 {
        lemma_text_total_prefix(a, b, a.len() as int);
        assert(text_total(a, a.len() as int) + text_total(b, 0) =~= text_total(a, a.len() as int));
    } else {
        lemma_text_total_append(a, b, j - 1);
        assert((a + b)[a.len() + j - 1] == b[j - 1]);
        assert(text_total(a, a.len() as int) + text_total(b, j - 1) + match b[j - 1] {
            Item::Nil => Seq::empty(),
            Item::Int(v) => int_text(v as int),
            Item::Text(t) => t@,
            Item::Other(t) => t@,
        } =~= text_total(a, a.len() as int) + (text_total(b, j - 1) + match b[j - 1] {
            Item::Nil => Seq::empty(),
            Item::Int(v) => int_text(v as int),
            Item::Text(t) => t@,
            Item::Other(t) => t@,
        }));
    }
}

} // verus!
