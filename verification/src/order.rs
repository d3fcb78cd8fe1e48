//! The order of text, and sorting by it.

use vstd::prelude::*;
use vstd::relations::{sorted_by, total_ordering};

use crate::text::{slice_of, views};

verus! {

/// The order of `str`'s `Ord`: lexicographic by code point, which is also the
/// order of the UTF-8 bytes.
pub open spec fn text_le(a: Seq<char>, b: Seq<char>) -> bool
    decreases a.len(),
{
    if a.len() == 0 {
        true
    } else if b.len() == 0 {
        false
    } else if a[0] != b[0] {
        (a[0] as int) < (b[0] as int)
    } else {
        text_le(a.drop_first(), b.drop_first())
    }
}

/// `text_le` as a relation.
pub open spec fn text_order() -> spec_fn(Seq<char>, Seq<char>) -> bool {
    |a: Seq<char>, b: Seq<char>| text_le(a, b)
}

/// What `sort` on a list of strings returns.
pub open spec fn sorted_texts(s: Seq<Seq<char>>) -> Seq<Seq<char>> {
    s.sort_by(text_order())
}

proof fn lemma_text_le_reflexive(a: Seq<char>)
    ensures
        text_le(a, a),
    decreases a.len(),
{
    if a.len() > 0 {
        lemma_text_le_reflexive(a.drop_first());
    }
}

proof fn lemma_text_le_antisymmetric(a: Seq<char>, b: Seq<char>)
    requires
        text_le(a, b),
        text_le(b, a),
    ensures
        a == b,
    decreases a.len(),
{
    if a.len() > 0 && b.len() > 0 {
        if a[0] == b[0] {
            lemma_text_le_antisymmetric(a.drop_first(), b.drop_first());
            assert(a =~= seq![a[0]] + a.drop_first());
            assert(b =~= seq![b[0]] + b.drop_first());
        }
    } else {
        assert(a.len() == 0 && b.len() == 0);
        assert(a =~= b);
    }
}

proof fn lemma_text_le_transitive(a: Seq<char>, b: Seq<char>, c: Seq<char>)
    requires
        text_le(a, b),
        text_le(b, c),
    ensures
        text_le(a, c),
    decreases a.len(),
{
    if a.len() > 0 && b.len() > 0 && c.len() > 0 {
        if a[0] == b[0] && b[0] == c[0] {
            lemma_text_le_transitive(a.drop_first(), b.drop_first(), c.drop_first());
        }
    }
}

proof fn lemma_text_le_total(a: Seq<char>, b: Seq<char>)
    ensures
        text_le(a, b) || text_le(b, a),
    decreases a.len(),
{
    if a.len() > 0 && b.len() > 0 && a[0] == b[0] {
        lemma_text_le_total(a.drop_first(), b.drop_first());
    }
}

/// `text_le` is a total order.
pub proof fn lemma_text_order_total()
    ensures
        total_ordering(text_order()),
{
    let r = text_order();
    assert forall|a: Seq<char>| #[trigger] r(a, a) by {
        lemma_text_le_reflexive(a);
    }
    assert forall|a: Seq<char>, b: Seq<char>| #[trigger] r(a, b) && #[trigger] r(b, a) implies a
        == b by {
        lemma_text_le_antisymmetric(a, b);
    }
    assert forall|a: Seq<char>, b: Seq<char>, c: Seq<char>|
        #[trigger] r(a, b) && #[trigger] r(b, c) implies r(a, c) by {
        lemma_text_le_transitive(a, b, c);
    }
    assert forall|a: Seq<char>, b: Seq<char>| #[trigger] r(a, b) || #[trigger] r(b, a) by {
        lemma_text_le_total(a, b);
    }
}

/// Two lists of the same strings, in whatever order, sort to the same list.
pub proof fn lemma_sorted_texts_ignores_order(a: Seq<Seq<char>>, b: Seq<Seq<char>>)
    requires
        a.to_multiset() == b.to_multiset(),
    ensures
        sorted_texts(a) == sorted_texts(b),
{
    lemma_text_order_total();
    a.lemma_sort_by_ensures(text_order());
    b.lemma_sort_by_ensures(text_order());
    vstd::seq_lib::lemma_sorted_unique(sorted_texts(a), sorted_texts(b), text_order());
}

/// `a <= b` in the order of `str`.
pub fn text_le_exec(a: &Vec<char>, b: &Vec<char>) -> (r: bool)
    ensures
        r == text_le(a@, b@),
{
    let mut i: usize = 0;
    assert(a@.subrange(0, a.len() as int) =~= a@);
    assert(b@.subrange(0, b.len() as int) =~= b@);
    while i < a.len() && i < b.len() && a[i] == b[i]
        invariant
            i <= a.len(),
            i <= b.len(),
            text_le(a@, b@) == text_le(
                a@.subrange(i as int, a.len() as int),
                b@.subrange(i as int, b.len() as int),
            ),
        decreases a.len() - i,
    {
        assert(a@.subrange(i as int, a.len() as int).drop_first() =~= a@.subrange(
            i + 1,
            a.len() as int,
        ));
        assert(b@.subrange(i as int, b.len() as int).drop_first() =~= b@.subrange(
            i + 1,
            b.len() as int,
        ));
        i = i + 1;
    }
    if i == a.len() {
        true
    } else if i == b.len() {
        false
    } else {
        a[i] < b[i]
    }
}

/// `sort` for a list of strings.
pub fn sort_texts(v: &Vec<Vec<char>>) -> (r: Vec<Vec<char>>)
    ensures
        views(r@) == sorted_texts(views(v@)),
{
    broadcast use vstd::seq_lib::group_to_multiset_ensures;

    proof {
        lemma_text_order_total();
    }
    let ghost ord = text_order();
    let mut out: Vec<Vec<char>> = Vec::new();
    let mut i: usize = 0;
    assert(views(v@).take(0) =~= seq![]);
    assert(views(out@) =~= seq![]);
    while i < v.len()
        invariant
            i <= v.len(),
            ord == text_order(),
            total_ordering(ord),
            sorted_by(views(out@), ord),
            views(out@).to_multiset() == views(v@).take(i as int).to_multiset(),
        decreases v.len() - i,
    {
        let x = slice_of(&v[i], 0, v[i].len());
        assert(x@ =~= v@[i as int]@);
        let mut p: usize = 0;
        while p < out.len() && text_le_exec(&out[p], &x)
            invariant
                p <= out.len(),
                forall|j: int| 0 <= j < p ==> text_le(out@[j]@, x@),
            decreases out.len() - p,
        {
            p = p + 1;
        }
        let ghost before = views(out@);
        out.insert(p, x);
        proof {
            assert(views(out@) =~= before.insert(p as int, x@));
            assert(views(v@).take(i + 1) =~= views(v@).take(i as int).push(x@));
            vstd::seq_lib::to_multiset_insert(before, p as int, x@);
            vstd::seq_lib::to_multiset_build(views(v@).take(i as int), x@);
            assert(views(v@).take(i as int).push(x@).to_multiset() == views(v@).take(
                i as int,
            ).to_multiset().insert(x@));
            assert forall|j: int, k: int| 0 <= j < k < views(out@).len() implies ord(
                views(out@)[j],
                views(out@)[k],
            ) by {
                let s = views(out@);
                if k < p {
                    assert(s[j] == before[j] && s[k] == before[k]);
                } else if j > p {
                    assert(s[j] == before[j - 1] && s[k] == before[k - 1]);
                } else if j < p && k == p {
                    assert(s[j] == before[j]);
                } else if j < p && k > p {
                    assert(s[j] == before[j] && s[k] == before[k - 1]);
                    assert(ord(before[j], x@));
                    assert(ord(before[p as int], before[k - 1]));
                    assert(!ord(before[p as int], x@));
                    assert(ord(x@, before[p as int]));
                } else {
                    assert(j == p);
                    assert(s[k] == before[k - 1]);
                    assert(ord(before[p as int], before[k - 1]));
                    assert(!ord(before[p as int], x@));
                    assert(ord(x@, before[p as int]));
                }
            }
        }
        i = i + 1;
    }
    proof {
        assert(views(v@).take(v.len() as int) =~= views(v@));
        views(v@).lemma_sort_by_ensures(ord);
        vstd::seq_lib::lemma_sorted_unique(views(out@), sorted_texts(views(v@)), ord);
    }
    out
}

/// Sorting holds the same strings, and sorting again changes nothing.
pub proof fn lemma_sorted_texts_settles(x: Seq<Seq<char>>)
    ensures
        sorted_texts(sorted_texts(x)) == sorted_texts(x),
        forall|y: Seq<char>| #[trigger] sorted_texts(x).contains(y) ==> x.contains(y),
{
    lemma_text_order_total();
    x.lemma_sort_by_ensures(text_order());
    lemma_sorted_texts_ignores_order(sorted_texts(x), x);
}

} // verus!
