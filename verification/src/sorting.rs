use vstd::prelude::*;

verus! {

/// Inserts `x` into `s` just after the last element that is `le` to it,
/// scanning from the back: the step of a stable insertion sort.
pub open spec fn insert_by<T>(s: Seq<T>, x: T, le: spec_fn(T, T) -> bool) -> Seq<T>
    decreases s.len(),
{
    if s.len() == 0 {
        seq![x]
    } else if le(s.last(), x) {
        s.push(x)
    } else {
        insert_by(s.drop_last(), x, le).push(s.last())
    }
}

/// The stable sort of `s` by the preorder `le`: elements that compare equal
/// keep the order they had in `s`.
pub open spec fn sort_by<T>(s: Seq<T>, le: spec_fn(T, T) -> bool) -> Seq<T>
    decreases s.len(),
{
    if s.len() == 0 {
        s
    } else {
        insert_by(sort_by(s.drop_last(), le), s.last(), le)
    }
}

pub open spec fn is_total_preorder<T>(le: spec_fn(T, T) -> bool) -> bool {
    &&& forall|a: T, b: T| #[trigger] le(a, b) || le(b, a)
    &&& forall|a: T, b: T, c: T| #[trigger] le(a, b) && #[trigger] le(b, c) ==> le(a, c)
}

pub open spec fn is_sorted_by<T>(s: Seq<T>, le: spec_fn(T, T) -> bool) -> bool {
    forall|i: int, j: int| 0 <= i < j < s.len() ==> le(#[trigger] s[i], #[trigger] s[j])
}

/// Where the scan from the back stops, `insert_by` splits `s` there.
pub proof fn lemma_insert_by_at<T>(s: Seq<T>, x: T, le: spec_fn(T, T) -> bool, j: int)
    requires
        0 <= j <= s.len(),
        j == 0 || le(s[j - 1], x),
        forall|k: int| j <= k < s.len() ==> !le(#[trigger] s[k], x),
    ensures
        insert_by(s, x, le) == s.take(j) + seq![x] + s.skip(j),
    decreases s.len(),
{
    if s.len() == 0 {
        assert(s.take(j) + seq![x] + s.skip(j) =~= seq![x]);
    } else if le(s.last(), x) {
        assert(j == s.len());
        assert(s.take(j) + seq![x] + s.skip(j) =~= s.push(x));
    } else {
        let t = s.drop_last();
        assert forall|k: int| j <= k < t.len() implies !le(#[trigger] t[k], x) by {
            assert(t[k] == s[k]);
        }
        lemma_insert_by_at(t, x, le, j);
        assert(t.take(j) + seq![x] + t.skip(j) + seq![s.last()] =~= s.take(j) + seq![x] + s.skip(
            j,
        ));
    }
}

pub proof fn lemma_insert_by_multiset<T>(s: Seq<T>, x: T, le: spec_fn(T, T) -> bool)
    ensures
        insert_by(s, x, le).to_multiset() =~= s.to_multiset().insert(x),
    decreases s.len(),
{
    broadcast use vstd::seq_lib::group_to_multiset_ensures;

    if s.len() == 0 {
        assert(seq![x] =~= s.push(x));
    } else if le(s.last(), x) {
    } else {
        lemma_insert_by_multiset(s.drop_last(), x, le);
        assert(s.drop_last().push(s.last()) =~= s);
    }
}

pub proof fn lemma_insert_by_len<T>(s: Seq<T>, x: T, le: spec_fn(T, T) -> bool)
    ensures
        insert_by(s, x, le).len() == s.len() + 1,
    decreases s.len(),
{
    if s.len() > 0 && !le(s.last(), x) {
        lemma_insert_by_len(s.drop_last(), x, le);
    }
}

/// Every element of `insert_by(s, x)` is `x` or an element of `s`.
pub proof fn lemma_insert_by_elements<T>(s: Seq<T>, x: T, le: spec_fn(T, T) -> bool, i: int)
    requires
        0 <= i < s.len() + 1,
    ensures
        insert_by(s, x, le)[i] == x || exists|k: int| 0 <= k < s.len() && insert_by(s, x, le)[i] == s[k],
    decreases s.len(),
{
    lemma_insert_by_len(s, x, le);
    if s.len() == 0 {
    } else if le(s.last(), x) {
        if i < s.len() {
            assert(insert_by(s, x, le)[i] == s[i]);
        }
    } else {
        let t = s.drop_last();
        lemma_insert_by_len(t, x, le);
        if i < s.len() {
            lemma_insert_by_elements(t, x, le, i);
            if insert_by(s, x, le)[i] != x {
                let k = choose|k: int| 0 <= k < t.len() && insert_by(t, x, le)[i] == t[k];
                assert(s[k] == t[k]);
            }
        } else {
            assert(insert_by(s, x, le)[i] == s[s.len() - 1]);
        }
    }
}

pub proof fn lemma_insert_by_sorted<T>(s: Seq<T>, x: T, le: spec_fn(T, T) -> bool)
    requires
        is_total_preorder(le),
        is_sorted_by(s, le),
    ensures
        is_sorted_by(insert_by(s, x, le), le),
    decreases s.len(),
{
    if s.len() == 0 {
    } else if le(s.last(), x) {
        let r = s.push(x);
        assert forall|i: int, j: int| 0 <= i < j < r.len() implies le(#[trigger] r[i], #[trigger] r[j]) by {
            if j == s.len() {
                if i < s.len() - 1 {
                    assert(le(s[i], s[s.len() - 1]));
                }
            }
        }
    } else {
        let t = s.drop_last();
        assert(is_sorted_by(t, le)) by {
            assert forall|i: int, j: int| 0 <= i < j < t.len() implies le(#[trigger] t[i], #[trigger] t[j]) by {
                assert(t[i] == s[i] && t[j] == s[j]);
            }
        }
        lemma_insert_by_sorted(t, x, le);
        lemma_insert_by_len(t, x, le);
        let u = insert_by(t, x, le);
        let r = u.push(s.last());
        assert(le(x, s.last()));
        assert forall|i: int, j: int| 0 <= i < j < r.len() implies le(#[trigger] r[i], #[trigger] r[j]) by {
            if j == u.len() {
                lemma_insert_by_elements(t, x, le, i);
                if u[i] != x {
                    let k = choose|k: int| 0 <= k < t.len() && u[i] == t[k];
                    assert(le(s[k], s[s.len() - 1]));
                }
            } else {
                assert(r[i] == u[i] && r[j] == u[j]);
            }
        }
    }
}

pub proof fn lemma_sort_by_len<T>(s: Seq<T>, le: spec_fn(T, T) -> bool)
    ensures
        sort_by(s, le).len() == s.len(),
    decreases s.len(),
{
    if s.len() > 0 {
        lemma_sort_by_len(s.drop_last(), le);
        lemma_insert_by_len(sort_by(s.drop_last(), le), s.last(), le);
    }
}

/// A stable sort keeps exactly the elements it was given.
pub proof fn lemma_sort_by_multiset<T>(s: Seq<T>, le: spec_fn(T, T) -> bool)
    ensures
        sort_by(s, le).to_multiset() =~= s.to_multiset(),
    decreases s.len(),
{
    broadcast use vstd::seq_lib::group_to_multiset_ensures;

    if s.len() > 0 {
        lemma_sort_by_multiset(s.drop_last(), le);
        lemma_insert_by_multiset(sort_by(s.drop_last(), le), s.last(), le);
        assert(s.drop_last().push(s.last()) =~= s);
    }
}

/// Under a total preorder, the stable sort is ordered.
pub proof fn lemma_sort_by_sorted<T>(s: Seq<T>, le: spec_fn(T, T) -> bool)
    requires
        is_total_preorder(le),
    ensures
        is_sorted_by(sort_by(s, le), le),
    decreases s.len(),
{
    if s.len() > 0 {
        lemma_sort_by_sorted(s.drop_last(), le);
        lemma_insert_by_sorted(sort_by(s.drop_last(), le), s.last(), le);
    }
}

/// Rearranging a sequence rearranges its image: sequences with the same elements
/// have images with the same elements.
pub proof fn lemma_map_values_multiset<A, B>(a: Seq<A>, b: Seq<A>, f: spec_fn(A) -> B)
    requires
        a.to_multiset() == b.to_multiset(),
    ensures
        a.map_values(f).to_multiset() == b.map_values(f).to_multiset(),
    decreases a.len(),
{
    broadcast use vstd::seq_lib::group_to_multiset_ensures;

    assert(a.len() == a.to_multiset().len() && b.len() == b.to_multiset().len());
    if a.len() == 0 {
        assert(b.len() == 0);
        assert(a.map_values(f) =~= b.map_values(f));
    } else {
        let x = a.last();
        assert(a.contains(x)) by {
            assert(a[a.len() - 1] == x);
        }
        assert(a.to_multiset().count(x) > 0);
        assert(b.to_multiset().count(x) > 0);
        assert(b.contains(x));
        let i = choose|i: int| 0 <= i < b.len() && b[i] == x;
        let a2 = a.drop_last();
        let b2 = b.remove(i);
        assert(a.remove(a.len() - 1) =~= a2);
        assert(a2.to_multiset() == b2.to_multiset());
        lemma_map_values_multiset(a2, b2, f);
        assert(a.map_values(f) =~= a2.map_values(f).push(f(x)));
        assert(b.map_values(f) =~= b2.map_values(f).insert(i, f(x)));
        assert(b2.insert(i, x) =~= b);
    }
}

/// Two sequences ordered by a preorder, holding the same elements, where no two
/// different elements compare equal both ways, are the same sequence.
pub proof fn lemma_sorted_unique<T>(s: Seq<T>, t: Seq<T>, le: spec_fn(T, T) -> bool)
    requires
        is_sorted_by(s, le),
        is_sorted_by(t, le),
        s.to_multiset() == t.to_multiset(),
        forall|x: T, y: T| #[trigger] s.to_multiset().count(x) > 0 && #[trigger] s.to_multiset().count(y) > 0
            && le(x, y) && le(y, x) ==> x == y,
    ensures
        s == t,
    decreases s.len(),
{
    broadcast use vstd::seq_lib::group_to_multiset_ensures;
    broadcast use vstd::multiset::group_multiset_axioms;

    assert(s.len() == s.to_multiset().len() && t.len() == t.to_multiset().len());
    if s.len() == 0 {
        assert(t.len() == 0);
        assert(s =~= t);
    } else {
        assert(t.len() > 0);
        assert(s.contains(s[0]));
        assert(t.contains(t[0]));
        assert(s.to_multiset().count(s[0]) > 0);
        assert(t.to_multiset().count(t[0]) > 0);
        assert(t.to_multiset().count(s[0]) > 0);
        assert(s.to_multiset().count(t[0]) > 0);
        assert(t.contains(s[0]));
        assert(s.contains(t[0]));
        let i = choose|i: int| 0 <= i < s.len() && s[i] == t[0];
        let j = choose|j: int| 0 <= j < t.len() && t[j] == s[0];
        if s[0] != t[0] {
            assert(i > 0 && j > 0);
            assert(le(s[0], s[i]));
            assert(le(t[0], t[j]));
            assert(s.to_multiset().count(s[0]) > 0);
            assert(s.to_multiset().count(t[0]) > 0);
        }
        assert(s[0] == t[0]);
        let s2 = s.drop_first();
        let t2 = t.drop_first();
        assert(s.remove(0) =~= s2);
        assert(t.remove(0) =~= t2);
        assert(s2.to_multiset() == t2.to_multiset());
        assert(is_sorted_by(s2, le)) by {
            assert forall|a: int, b: int| 0 <= a < b < s2.len() implies le(#[trigger] s2[a], #[trigger] s2[b]) by {
                assert(s2[a] == s[a + 1] && s2[b] == s[b + 1]);
            }
        }
        assert(is_sorted_by(t2, le)) by {
            assert forall|a: int, b: int| 0 <= a < b < t2.len() implies le(#[trigger] t2[a], #[trigger] t2[b]) by {
                assert(t2[a] == t[a + 1] && t2[b] == t[b + 1]);
            }
        }
        assert forall|x: T, y: T| #[trigger] s2.to_multiset().count(x) > 0 && #[trigger] s2.to_multiset().count(y) > 0
            && le(x, y) && le(y, x) implies x == y by {
            assert(s.to_multiset().count(x) > 0);
            assert(s.to_multiset().count(y) > 0);
        }
        lemma_sorted_unique(s2, t2, le);
        assert(s =~= t) by {
            assert forall|k: int| 0 <= k < s.len() implies s[k] == t[k] by {
                if k > 0 {
                    assert(s[k] == s2[k - 1] && t[k] == t2[k - 1]);
                }
            }
        }
    }
}

} // verus!
