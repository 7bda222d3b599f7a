//! The order of texts, and lists that are sorted by it without repeats.
use vstd::prelude::*;

use crate::text::{same, to_chars, views};

verus! {

/// `a` comes before `b`: at the first difference it has the smaller character, or it ends there.
pub open spec fn before(a: Seq<char>, b: Seq<char>) -> bool
    decreases a.len(),
{
    if b.len() == 0 {
        false
    } else if a.len() == 0 {
        true
    } else if a[0] != b[0] {
        a[0] < b[0]
    } else {
        before(a.skip(1), b.skip(1))
    }
}

/// Each text comes before the next ones.
pub open spec fn strictly_sorted(v: Seq<Seq<char>>) -> bool {
    forall|i: int, j: int| 0 <= i < j < v.len() ==> before(#[trigger] v[i], #[trigger] v[j])
}

/// Of two different texts one comes before the other, and not both.
pub proof fn lemma_before_total(a: Seq<char>, b: Seq<char>)
    ensures
        a != b ==> before(a, b) || before(b, a),
        !(before(a, b) && before(b, a)),
        !before(a, a),
    decreases a.len(),
{
    if a.len() > 0 && b.len() > 0 {
        lemma_before_total(a.skip(1), b.skip(1));
        lemma_before_total(a.skip(1), a.skip(1));
        if a[0] == b[0] && a != b {
            if a.skip(1) == b.skip(1) {
                assert(a =~= seq![a[0]] + a.skip(1));
                assert(b =~= seq![b[0]] + b.skip(1));
            }
        }
    } else if a.len() > 0 {
        lemma_before_total(a.skip(1), a.skip(1));
    } else {
        if b.len() == 0 {
            assert(a =~= b);
        }
    }
}

/// The order is transitive.
pub proof fn lemma_before_transitive(a: Seq<char>, b: Seq<char>, c: Seq<char>)
    requires
        before(a, b),
        before(b, c),
    ensures
        before(a, c),
    decreases a.len(),
{
    if a.len() > 0 && a[0] == b[0] && b[0] == c[0] {
        lemma_before_transitive(a.skip(1), b.skip(1), c.skip(1));
    }
}

/// A strictly sorted list is fixed by what it holds.
pub proof fn lemma_sorted_unique(v: Seq<Seq<char>>, w: Seq<Seq<char>>)
    requires
        strictly_sorted(v),
        strictly_sorted(w),
        forall|s: Seq<char>| v.contains(s) <==> w.contains(s),
    ensures
        v == w,
    decreases v.len(),
{
    if v.len() == 0 {
        if w.len() > 0 {
            assert(w.contains(w[0]));
        }
        assert(v =~= w);
    } else {
        assert(v.contains(v[0]));
        assert(w.len() > 0);
        assert(w.contains(w[0]));
        let i = choose|i: int| 0 <= i < v.len() && v[i] == w[0];
        let j = choose|j: int| 0 <= j < w.len() && w[j] == v[0];
        lemma_before_total(v[0], w[0]);
        assert(v[0] == w[0]);
        let v1 = v.skip(1);
        let w1 = w.skip(1);
        assert forall|s: Seq<char>| v1.contains(s) <==> w1.contains(s) by {
            if v1.contains(s) {
                let k = choose|k: int| 0 <= k < v1.len() && v1[k] == s;
                assert(v[k + 1] == s);
                assert(before(v[0], v[k + 1]));
                lemma_before_total(s, s);
                assert(w.contains(s));
                let m = choose|m: int| 0 <= m < w.len() && w[m] == s;
                assert(m != 0);
                assert(w1[m - 1] == s);
            }
            if w1.contains(s) {
                let k = choose|k: int| 0 <= k < w1.len() && w1[k] == s;
                assert(w[k + 1] == s);
                assert(before(w[0], w[k + 1]));
                lemma_before_total(s, s);
                assert(v.contains(s));
                let m = choose|m: int| 0 <= m < v.len() && v[m] == s;
                assert(m != 0);
                assert(v1[m - 1] == s);
            }
        }
        lemma_sorted_unique(v1, w1);
        assert(v =~= seq![v[0]] + v1);
        assert(w =~= seq![w[0]] + w1);
    }
}

/// Decides `before`.
pub fn is_before(a: &str, b: &str) -> (r: bool)
    ensures
        r == before(a@, b@),
{
    let x = to_chars(a);
    let y = to_chars(b);
    let mut i: usize = 0;
    assert(a@.skip(0) =~= a@);
    assert(b@.skip(0) =~= b@);
    while i < x.len() && i < y.len()
        invariant
            x@ == a@,
            y@ == b@,
            i <= x@.len(),
            i <= y@.len(),
            before(a@, b@) == before(a@.skip(i as int), b@.skip(i as int)),
        decreases x@.len() - i,
    {
        let c: char = x[i];
        let d: char = y[i];
        if c != d {
            return c < d;
        }
        proof {
            assert(a@.skip(i as int).skip(1) =~= a@.skip(i + 1));
            assert(b@.skip(i as int).skip(1) =~= b@.skip(i + 1));
        }
        i = i + 1;
    }
    i < y.len()
}

/// Puts a text into a strictly sorted list where the list does not hold it yet.
pub fn insert_sorted(list: &mut Vec<String>, item: String)
    requires
        strictly_sorted(views(old(list)@)),
    ensures
        strictly_sorted(views(final(list)@)),
        forall|s: Seq<char>|
            views(final(list)@).contains(s) <==> (views(old(list)@).contains(s) || s == item@),
{
    let mut i: usize = 0;
    let ghost was = views(list@);
    while i < list.len() && is_before(list[i].as_str(), item.as_str())
        invariant
            i <= list@.len(),
            list@ == old(list)@,
            was == views(list@),
            forall|k: int| 0 <= k < i ==> before(#[trigger] was[k], item@),
        decreases list@.len() - i,
    {
        i = i + 1;
    }
    if i < list.len() && same(list[i].as_str(), item.as_str()) {
        assert(was[i as int] == item@);
        return;
    }
    let ghost key = item@;
    list.insert(i, item);
    proof {
        let now = views(list@);
        assert(now =~= was.insert(i as int, key));
        assert forall|k: int| i < k < now.len() implies before(key, #[trigger] now[k]) by {
            lemma_before_total(was[i as int], key);
            assert(before(key, was[i as int]));
            if k > i + 1 {
                assert(before(was[i as int], was[k - 1]));
                lemma_before_transitive(key, was[i as int], was[k - 1]);
            }
        }
        assert(strictly_sorted(now)) by {
            assert forall|a: int, b: int| 0 <= a < b < now.len() implies before(
                #[trigger] now[a],
                #[trigger] now[b],
            ) by {
                let a0 = if a > i { a - 1 } else { a };
                let b0 = if b > i { b - 1 } else { b };
                if a != i && b != i {
                    assert(before(was[a0], was[b0]));
                } else if b == i {
                    assert(before(was[a], key));
                }
            }
        }
        assert forall|s: Seq<char>| now.contains(s) <==> (was.contains(s) || s == key) by {
            if was.contains(s) {
                let k = choose|k: int| 0 <= k < was.len() && was[k] == s;
                assert(now[if k < i { k } else { k + 1 }] == s);
            }
            assert(now[i as int] == key);
            if now.contains(s) {
                let k = choose|k: int| 0 <= k < now.len() && now[k] == s;
                if k != i {
                    assert(was[if k < i { k } else { k - 1 }] == s);
                }
            }
        }
    }
}

/// Texts are ordered as in a dictionary: by the first character in which they differ, and a text comes
/// before all that it begins.
pub proof fn law_texts_are_ordered_as_in_a_dictionary(
    front: Seq<char>,
    a: char,
    b: char,
    x: Seq<char>,
    y: Seq<char>,
)
    ensures
        a < b ==> before(front + seq![a] + x, front + seq![b] + y),
        a > b ==> !before(front + seq![a] + x, front + seq![b] + y),
        x.len() > 0 ==> before(front, front + x),
        !before(front + x, front),
    decreases front.len(),
{
    let l = front + seq![a] + x;
    let r = front + seq![b] + y;
    let longer = front + x;
    if front.len() == 0 {
        assert(l[0] == a && r[0] == b);
        assert(longer =~= x);
    } else {
        let rest = front.skip(1);
        law_texts_are_ordered_as_in_a_dictionary(rest, a, b, x, y);
        assert(l[0] == front[0] && r[0] == front[0] && longer[0] == front[0]);
        assert(l.skip(1) =~= rest + seq![a] + x);
        assert(r.skip(1) =~= rest + seq![b] + y);
        assert(longer.skip(1) =~= rest + x);
    }
}

} // verus!
