//! The order of texts, and lists that are sorted and hold nothing twice.

use crate::text;
use vstd::prelude::*;
use vstd::string::*;

verus! {

/// Whether `a` stands before `b`: by the first character in which they differ, a text before
/// every longer text that it starts.
pub open spec fn before(a: Seq<char>, b: Seq<char>) -> bool
    decreases a.len(),
{
    if b.len() == 0 {
        false
    } else if a.len() == 0 {
        true
    } else {
        a[0] < b[0] || (a[0] == b[0] && before(a.skip(1), b.skip(1)))
    }
}

/// Whether one string stands before another.
pub fn is_before(a: &str, b: &str) -> (r: bool)
    ensures
        r == before(a@, b@),
{
    let x = text::chars_of(a);
    let y = text::chars_of(b);
    let mut i: usize = 0;
    assert(a@.skip(0) =~= a@);
    assert(b@.skip(0) =~= b@);
    while i < x.len() && i < y.len() && x[i] == y[i]
        invariant
            i <= x.len(),
            i <= y.len(),
            x@ == a@,
            y@ == b@,
            before(a@, b@) == before(a@.skip(i as int), b@.skip(i as int)),
        decreases x.len() - i,
    {
        assert(a@.skip(i as int).skip(1) =~= a@.skip(i + 1));
        assert(b@.skip(i as int).skip(1) =~= b@.skip(i + 1));
        i += 1;
    }
    if i == y.len() {
        false
    } else if i == x.len() {
        true
    } else {
        x[i] < y[i]
    }
}

/// No text stands before itself.
pub proof fn lemma_before_irreflexive(a: Seq<char>)
    ensures
        !before(a, a),
    decreases a.len(),
{
    if a.len() > 0 {
        lemma_before_irreflexive(a.skip(1));
    }
}

/// The order is transitive.
pub proof fn lemma_before_transitive(a: Seq<char>, b: Seq<char>, c: Seq<char>)
    requires
        before(a, b),
        before(b, c),
    ensures
        before(a, c),
    decreases a.len(),
{
    if a.len() > 0 && a[0] == b[0] && b[0] == c[0] {
        lemma_before_transitive(a.skip(1), b.skip(1), c.skip(1));
    }
}

/// Of two different texts, one stands before the other.
pub proof fn lemma_before_total(a: Seq<char>, b: Seq<char>)
    ensures
        a == b || before(a, b) || before(b, a),
    decreases a.len(),
{
    if a.len() == 0 || b.len() == 0 {
        assert(a.len() == b.len() ==> a =~= b);
    } else if a[0] == b[0] {
        lemma_before_total(a.skip(1), b.skip(1));
        if a.skip(1) == b.skip(1) {
            assert forall|i: int| 0 <= i < a.len() implies a[i] == b[i] by {
                if i > 0 {
                    assert(a[i] == a.skip(1)[i - 1]);
                    assert(b[i] == b.skip(1)[i - 1]);
                }
            }
            assert(a.skip(1).len() == b.skip(1).len());
            assert(a =~= b);
        }
    }
}

/// Whether a list is sorted and holds nothing twice.
pub open spec fn ascending(list: Seq<Seq<char>>) -> bool {
    forall|i: int, j: int|
        0 <= i < j < list.len() ==> before(#[trigger] list[i], #[trigger] list[j])
}

/// How many texts at the front of a list stand before `x`.
pub open spec fn slot(list: Seq<Seq<char>>, x: Seq<char>) -> int
    decreases list.len(),
{
    if list.len() == 0 || !before(list[0], x) {
        0
    } else {
        1 + slot(list.skip(1), x)
    }
}

/// A sorted list with `x` in it.
pub open spec fn inserted(list: Seq<Seq<char>>, x: Seq<char>) -> Seq<Seq<char>> {
    let n = slot(list, x);
    if n < list.len() && list[n] == x {
        list
    } else {
        list.insert(n, x)
    }
}

/// The given texts, sorted, each once.
pub open spec fn sorted_set(items: Seq<Seq<char>>) -> Seq<Seq<char>>
    decreases items.len(),
{
    if items.len() == 0 {
        Seq::empty()
    } else {
        inserted(sorted_set(items.drop_last()), items.last())
    }
}

/// What stands in front of the slot is smaller, what stands in it is not.
proof fn lemma_slot(list: Seq<Seq<char>>, x: Seq<char>)
    ensures
        0 <= slot(list, x) <= list.len(),
        forall|j: int| 0 <= j < slot(list, x) ==> before(#[trigger] list[j], x),
        slot(list, x) < list.len() ==> !before(list[slot(list, x)], x),
    decreases list.len(),
{
    if list.len() > 0 && before(list[0], x) {
        lemma_slot(list.skip(1), x);
        assert forall|j: int| 0 <= j < slot(list, x) implies before(#[trigger] list[j], x) by {
            if j > 0 {
                assert(list[j] == list.skip(1)[j - 1]);
            }
        }
    }
}

proof fn lemma_slot_is(list: Seq<Seq<char>>, x: Seq<char>, n: int)
    requires
        0 <= n <= list.len(),
        forall|j: int| 0 <= j < n ==> before(#[trigger] list[j], x),
        n < list.len() ==> !before(list[n], x),
    ensures
        slot(list, x) == n,
{
    lemma_slot(list, x);
    let s = slot(list, x);
    if s < n {
        assert(before(list[s], x));
    }
    if n < s {
        assert(before(list[n], x));
    }
}

/// Inserting keeps a list sorted, and adds `x` alone to what it holds.
proof fn lemma_inserted(list: Seq<Seq<char>>, x: Seq<char>)
    requires
        ascending(list),
    ensures
        ascending(inserted(list, x)),
        forall|y: Seq<char>| #[trigger]
            inserted(list, x).contains(y) <==> (list.contains(y) || y == x),
{
    lemma_slot(list, x);
    let n = slot(list, x);
    let out = inserted(list, x);
    if n < list.len() && list[n] == x {
        assert(list.contains(x));
    } else {
        assert forall|i: int, j: int| 0 <= i < j < out.len() implies before(
            #[trigger] out[i],
            #[trigger] out[j],
        ) by {
            if j == n {
                assert(out[i] == list[i]);
            } else if i == n {
                assert(out[j] == list[j - 1]);
                lemma_before_total(list[n], x);
                if n < j - 1 {
                    assert(before(list[n], list[j - 1]));
                    lemma_before_transitive(x, list[n], list[j - 1]);
                }
            } else {
                let a = if i < n { i } else { i - 1 };
                let b = if j < n { j } else { j - 1 };
                assert(out[i] == list[a]);
                assert(out[j] == list[b]);
            }
        }
        assert forall|y: Seq<char>| #[trigger]
            out.contains(y) <==> (list.contains(y) || y == x) by {
            if out.contains(y) {
                let k = choose|k: int| 0 <= k < out.len() && out[k] == y;
                if k != n {
                    let b = if k < n { k } else { k - 1 };
                    assert(list[b] == y);
                }
            }
            if y == x {
                assert(out[n] == y);
            }
            if list.contains(y) {
                let k = choose|k: int| 0 <= k < list.len() && list[k] == y;
                let b = if k < n { k } else { k + 1 };
                assert(out[b] == y);
            }
        }
    }
}

/// Sorting gives an ascending list of exactly the texts that were given.
pub proof fn law_sorted_set(items: Seq<Seq<char>>)
    ensures
        ascending(sorted_set(items)),
        forall|y: Seq<char>| #[trigger] sorted_set(items).contains(y) <==> items.contains(y),
    decreases items.len(),
{
    if items.len() > 0 {
        law_sorted_set(items.drop_last());
        lemma_inserted(sorted_set(items.drop_last()), items.last());
        assert forall|y: Seq<char>| #[trigger]
            sorted_set(items).contains(y) <==> items.contains(y) by {
            if items.contains(y) {
                let k = choose|k: int| 0 <= k < items.len() && items[k] == y;
                if k < items.len() - 1 {
                    assert(items.drop_last()[k] == y);
                }
            }
            if items.drop_last().contains(y) {
                let k = choose|k: int|
                    0 <= k < items.drop_last().len() && items.drop_last()[k] == y;
                assert(items[k] == y);
            }
            if y == items.last() {
                assert(items[items.len() - 1] == y);
            }
        }
    }
}

/// Two ascending lists of the same texts are the same list, so the order in which texts are
/// given, and how often, does not matter.
pub proof fn law_ascending_unique(a: Seq<Seq<char>>, b: Seq<Seq<char>>)
    requires
        ascending(a),
        ascending(b),
        forall|y: Seq<char>| #[trigger] a.contains(y) <==> b.contains(y),
    ensures
        a == b,
    decreases a.len(),
{
    if a.len() == 0 {
        if b.len() > 0 {
            assert(b.contains(b[0]));
            assert(a.contains(b[0]));
        }
        assert(a =~= b);
    } else {
        assert(a.contains(a[0]));
        assert(b.contains(a[0]));
        assert(b.contains(b[0]));
        assert(a.contains(b[0]));
        let i = choose|i: int| 0 <= i < a.len() && a[i] == b[0];
        let j = choose|j: int| 0 <= j < b.len() && b[j] == a[0];
        if a[0] != b[0] {
            assert(before(a[0], a[i]));
            assert(before(b[0], b[j]));
            lemma_before_transitive(a[0], b[0], a[0]);
            lemma_before_irreflexive(a[0]);
        }
        let x = a.skip(1);
        let y = b.skip(1);
        assert forall|t: Seq<char>| #[trigger] x.contains(t) <==> y.contains(t) by {
            lemma_tail_members(a, t);
            lemma_tail_members(b, t);
        }
        law_ascending_unique(x, y);
        assert(a =~= seq![a[0]] + x);
        assert(b =~= seq![b[0]] + y);
    }
}

proof fn lemma_tail_members(a: Seq<Seq<char>>, t: Seq<char>)
    requires
        ascending(a),
        a.len() > 0,
    ensures
        a.skip(1).contains(t) <==> (a.contains(t) && t != a[0]),
{
    if a.skip(1).contains(t) {
        let k = choose|k: int| 0 <= k < a.skip(1).len() && a.skip(1)[k] == t;
        assert(a[k + 1] == t);
        assert(before(a[0], a[k + 1]));
        lemma_before_irreflexive(t);
    }
    if a.contains(t) && t != a[0] {
        let k = choose|k: int| 0 <= k < a.len() && a[k] == t;
        assert(a.skip(1)[k - 1] == t);
    }
}

/// Puts a string into a sorted list.
fn insert(list: &mut Vec<String>, item: &String)
    ensures
        final(list).deep_view() == inserted(old(list).deep_view(), item@),
{
    let ghost all = list.deep_view();
    let mut n: usize = 0;
    while n < list.len() && is_before(list[n].as_str(), item.as_str())
        invariant
            n <= list.len(),
            all == list.deep_view(),
            forall|j: int| 0 <= j < n ==> before(#[trigger] all[j], item@),
        decreases list.len() - n,
    {
        n += 1;
    }
    proof {
        lemma_slot_is(all, item@, n as int);
    }
    if n < list.len() && text::same(list[n].as_str(), item.as_str()) {
        return;
    }
    list.insert(n, item.clone());
    assert(list.deep_view() =~= all.insert(n as int, item@));
}

/// Sorts strings and drops repetitions.
pub fn sort_unique(items: &Vec<String>) -> (out: Vec<String>)
    ensures
        out.deep_view() == sorted_set(items.deep_view()),
{
    let ghost all = items.deep_view();
    let mut out: Vec<String> = Vec::new();
    let mut i: usize = 0;
    assert(out.deep_view() =~= sorted_set(all.take(0)));
    while i < items.len()
        invariant
            i <= items.len(),
            all == items.deep_view(),
            out.deep_view() == sorted_set(all.take(i as int)),
        decreases items.len() - i,
    {
        insert(&mut out, &items[i]);
        assert(all.take(i + 1).drop_last() =~= all.take(i as int));
        assert(all.take(i + 1).last() == items[i as int]@);
        i += 1;
    }
    assert(all.take(items.len() as int) =~= all);
    out
}

/// The first character in which two texts differ decides which one stands before the other, and a
/// text stands before every longer one that it starts.
pub proof fn law_first_difference_decides(
    start: Seq<char>,
    a: char,
    b: char,
    x: Seq<char>,
    y: Seq<char>,
)
    requires
        a != b,
    ensures
        before(start + (seq![a] + x), start + (seq![b] + y)) <==> (a as int) < (b as int),
        before(start, start + (seq![b] + y)),
        !before(start + (seq![b] + y), start),
    decreases start.len(),
{
    let p = start + (seq![a] + x);
    let q = start + (seq![b] + y);
    if start.len() > 0 {
        let rest = start.skip(1);
        law_first_difference_decides(rest, a, b, x, y);
        assert(p.skip(1) =~= rest + (seq![a] + x));
        assert(q.skip(1) =~= rest + (seq![b] + y));
        assert(p[0] == start[0] && q[0] == start[0]);
    } else {
        assert(p[0] == a && q[0] == b);
    }
}

} // verus!
