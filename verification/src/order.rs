//! The lexicographic order of strings by code point, and sorting by it.
//! On valid UTF-8 this is the order in which `String`'s `Ord` compares bytes.

use vstd::prelude::*;
use crate::text::views;

verus! {

/// `a` comes strictly before `b`: at the first position where they differ, `a`
/// has the smaller code point, or `a` is a proper prefix of `b`.
pub open spec fn seq_lt(a: Seq<char>, b: Seq<char>) -> bool
    decreases a.len(),
{
    if a.len() == 0 {
        b.len() > 0
    } else if b.len() == 0 {
        false
    } else if a[0] != b[0] {
        a[0] < b[0]
    } else {
        seq_lt(a.skip(1), b.skip(1))
    }
}

/// Each element is no greater than every later one.
pub open spec fn sorted(s: Seq<Seq<char>>) -> bool {
    forall|i: int, j: int| 0 <= i < j < s.len() ==> !seq_lt(s[j], s[i])
}

/// `x` inserted into `s` before the first element that is greater than it.
pub open spec fn insert_sorted(x: Seq<char>, s: Seq<Seq<char>>) -> Seq<Seq<char>>
    decreases s.len(),
{
    if s.len() == 0 {
        seq![x]
    } else if seq_lt(x, s[0]) {
        seq![x] + s
    } else {
        seq![s[0]] + insert_sorted(x, s.skip(1))
    }
}

/// The elements of `s` in ascending order.
pub open spec fn sort_seqs(s: Seq<Seq<char>>) -> Seq<Seq<char>>
    decreases s.len(),
{
    if s.len() == 0 {
        Seq::empty()
    } else {
        insert_sorted(s[0], sort_seqs(s.skip(1)))
    }
}

/// No string comes before itself.
pub proof fn lemma_lt_irreflexive(a: Seq<char>)
    ensures
        !seq_lt(a, a),
    decreases a.len(),
{
    if a.len() > 0 {
        lemma_lt_irreflexive(a.skip(1));
    }
}

/// Of two different strings, one comes before the other, and not both ways.
pub proof fn lemma_lt_total(a: Seq<char>, b: Seq<char>)
    ensures
        a != b ==> (seq_lt(a, b) || seq_lt(b, a)),
        !(seq_lt(a, b) && seq_lt(b, a)),
    decreases a.len(),
{
    if a.len() > 0 && b.len() > 0 {
        lemma_lt_total(a.skip(1), b.skip(1));
        if a[0] == b[0] && a != b {
            if a.skip(1) == b.skip(1) {
                assert(a =~= seq![a[0]] + a.skip(1));
                assert(b =~= seq![b[0]] + b.skip(1));
            }
        }
    } else if a.len() == 0 && b.len() == 0 {
        assert(a =~= b);
    }
}

/// The order is transitive.
pub proof fn lemma_lt_transitive(a: Seq<char>, b: Seq<char>, c: Seq<char>)
    requires
        seq_lt(a, b),
        seq_lt(b, c),
    ensures
        seq_lt(a, c),
    decreases a.len(),
{
    if a.len() > 0 && b.len() > 0 && c.len() > 0 {
        if a[0] == b[0] && b[0] == c[0] {
            lemma_lt_transitive(a.skip(1), b.skip(1), c.skip(1));
        }
    }
}

proof fn lemma_insert_sorted_all(x: Seq<char>, s: Seq<Seq<char>>, p: spec_fn(Seq<char>) -> bool)
    requires
        p(x),
        forall|j: int| 0 <= j < s.len() ==> p(s[j]),
    ensures
        forall|k: int| 0 <= k < insert_sorted(x, s).len() ==> p(#[trigger] insert_sorted(x, s)[k]),
        insert_sorted(x, s).len() == s.len() + 1,
    decreases s.len(),
{
    if s.len() > 0 && !seq_lt(x, s[0]) {
        lemma_insert_sorted_all(x, s.skip(1), p);
        let r = insert_sorted(x, s.skip(1));
        assert forall|k: int| 0 <= k < insert_sorted(x, s).len() implies p(
            #[trigger] insert_sorted(x, s)[k],
        ) by {
            if k > 0 {
                assert(insert_sorted(x, s)[k] == r[k - 1]);
            }
        }
    }
}

/// Inserting into a sorted sequence keeps it sorted.
pub proof fn lemma_insert_sorted_sorted(x: Seq<char>, s: Seq<Seq<char>>)
    requires
        sorted(s),
    ensures
        sorted(insert_sorted(x, s)),
    decreases s.len(),
{
    if s.len() == 0 {
    } else if seq_lt(x, s[0]) {
        let r = insert_sorted(x, s);
        assert forall|i: int, j: int| 0 <= i < j < r.len() implies !seq_lt(r[j], r[i]) by {
            if i == 0 {
                assert(r[j] == s[j - 1]);
                if j - 1 > 0 {
                    lemma_lt_total(s[0], s[j - 1]);
                    if s[0] != s[j - 1] {
                        lemma_lt_transitive(x, s[0], s[j - 1]);
                    }
                }
                lemma_lt_total(x, s[j - 1]);
            } else {
                assert(r[i] == s[i - 1] && r[j] == s[j - 1]);
            }
        }
    } else {
        let t = s.skip(1);
        assert(sorted(t)) by {
            assert forall|i: int, j: int| 0 <= i < j < t.len() implies !seq_lt(t[j], t[i]) by {
                assert(t[i] == s[i + 1] && t[j] == s[j + 1]);
            }
        }
        lemma_insert_sorted_sorted(x, t);
        let p = |e: Seq<char>| !seq_lt(e, s[0]);
        assert forall|j: int| 0 <= j < t.len() implies p(t[j]) by {
            assert(t[j] == s[j + 1]);
        }
        lemma_insert_sorted_all(x, t, p);
        let r = insert_sorted(x, s);
        let q = insert_sorted(x, t);
        assert forall|i: int, j: int| 0 <= i < j < r.len() implies !seq_lt(r[j], r[i]) by {
            assert(r[j] == q[j - 1]);
            if i == 0 {
                assert(p(q[j - 1]));
            } else {
                assert(r[i] == q[i - 1]);
            }
        }
    }
}

/// Inserting adds exactly the one element.
pub proof fn lemma_insert_sorted_multiset(x: Seq<char>, s: Seq<Seq<char>>)
    ensures
        insert_sorted(x, s).to_multiset() =~= s.to_multiset().insert(x),
    decreases s.len(),
{
    broadcast use vstd::seq_lib::group_to_multiset_ensures;
    broadcast use vstd::multiset::group_multiset_axioms;

    if s.len() == 0 {
        assert(insert_sorted(x, s) =~= s.insert(0, x));
    } else if seq_lt(x, s[0]) {
        assert(insert_sorted(x, s) =~= s.insert(0, x));
    } else {
        let t = s.skip(1);
        lemma_insert_sorted_multiset(x, t);
        assert(insert_sorted(x, s) =~= insert_sorted(x, t).insert(0, s[0]));
        assert(s =~= t.insert(0, s[0]));
    }
}

/// Sorting yields a sorted sequence.
pub proof fn lemma_sort_sorted(s: Seq<Seq<char>>)
    ensures
        sorted(sort_seqs(s)),
    decreases s.len(),
{
    if s.len() > 0 {
        lemma_sort_sorted(s.skip(1));
        lemma_insert_sorted_sorted(s[0], sort_seqs(s.skip(1)));
    }
}

/// Sorting keeps exactly the elements, each as often as it occurs.
pub proof fn lemma_sort_multiset(s: Seq<Seq<char>>)
    ensures
        sort_seqs(s).to_multiset() =~= s.to_multiset(),
    decreases s.len(),
{
    broadcast use vstd::seq_lib::group_to_multiset_ensures;
    broadcast use vstd::multiset::group_multiset_axioms;

    if s.len() > 0 {
        lemma_sort_multiset(s.skip(1));
        lemma_insert_sorted_multiset(s[0], sort_seqs(s.skip(1)));
        assert(s =~= s.skip(1).insert(0, s[0]));
    }
}

proof fn lemma_insert_sorted_at(x: Seq<char>, s: Seq<Seq<char>>, p: int)
    requires
        0 <= p <= s.len(),
        forall|k: int| 0 <= k < p ==> !seq_lt(x, s[k]),
        p == s.len() || seq_lt(x, s[p]),
    ensures
        insert_sorted(x, s) =~= s.insert(p, x),
    decreases p,
{
    if p > 0 {
        let t = s.skip(1);
        assert forall|k: int| 0 <= k < p - 1 implies !seq_lt(x, t[k]) by {
            assert(t[k] == s[k + 1]);
        }
        if p < s.len() {
            assert(t[p - 1] == s[p]);
        }
        lemma_insert_sorted_at(x, t, p - 1);
        assert(s.insert(p, x) =~= seq![s[0]] + t.insert(p - 1, x));
    }
}

/// Whether `a` comes strictly before `b`.
pub fn lt_chars(a: &Vec<char>, b: &Vec<char>) -> (r: bool)
    ensures
        r == seq_lt(a@, b@),
{
    let mut i: usize = 0;
    assert(a@.skip(0) =~= a@);
    assert(b@.skip(0) =~= b@);
    while i < a.len() && i < b.len()
        invariant
            i <= a@.len(),
            i <= b@.len(),
            seq_lt(a@.skip(i as int), b@.skip(i as int)) == seq_lt(a@, b@),
        decreases a@.len() - i,
    {
        let ghost ai = a@.skip(i as int);
        let ghost bi = b@.skip(i as int);
        assert(ai[0] == a@[i as int] && bi[0] == b@[i as int]);
        if a[i] != b[i] {
            return a[i] < b[i];
        }
        assert(ai.skip(1) =~= a@.skip(i + 1));
        assert(bi.skip(1) =~= b@.skip(i + 1));
        i = i + 1;
    }
    i == a.len() && i < b.len()
}

/// The strings of `v` in ascending order.
pub fn sort_char_seqs(v: Vec<Vec<char>>) -> (r: Vec<Vec<char>>)
    ensures
        views(r@) == sort_seqs(views(v@)),
{
    let ghost s = views(v@);
    let mut rest = v;
    let mut out: Vec<Vec<char>> = Vec::new();
    assert(s.skip(s.len() as int) =~= Seq::<Seq<char>>::empty());
    while rest.len() > 0
        invariant
            rest@.len() <= s.len(),
            views(rest@) == s.take(rest@.len() as int),
            views(out@) == sort_seqs(s.skip(rest@.len() as int)),
        decreases rest@.len(),
    {
        let ghost k = rest@.len() as int;
        let ghost old_rest = rest@;
        let x = rest.pop().unwrap();
        assert(views(old_rest)[k - 1] == s.take(k)[k - 1]);
        assert(x@ == s[k - 1]);
        assert(views(rest@) =~= s.take(k - 1));
        let mut p: usize = 0;
        let mut found = false;
        while p < out.len() && !found
            invariant
                p <= out@.len(),
                forall|j: int| 0 <= j < p ==> !seq_lt(x@, views(out@)[j]),
                found ==> p < out@.len() && seq_lt(x@, views(out@)[p as int]),
            decreases out@.len() - p, if found { 0int } else { 1int },
        {
            if lt_chars(&x, &out[p]) {
                found = true;
            } else {
                p = p + 1;
            }
        }
        proof {
            assert(p == out@.len() || seq_lt(x@, views(out@)[p as int]));
            lemma_insert_sorted_at(x@, views(out@), p as int);
            let t = s.skip(k - 1);
            assert(t[0] == s[k - 1]);
            assert(t.skip(1) =~= s.skip(k));
        }
        let ghost before = views(out@);
        out.insert(p, x);
        assert(views(out@) =~= before.insert(p as int, x@));
    }
    assert(s.skip(0) =~= s);
    out
}

} // verus!
