//! A stable sort, at the specification level: insertion sort on sequences,
//! with the lemmas the loaders' sorted output rests on.
//!
//! `sort_by_le` pins the sorted sequence down completely, so stability is
//! part of the meaning: an element inserted later goes after every earlier
//! element it ties with.

use vstd::prelude::*;

verus! {

/// `le` holds between any two elements, in one direction or the other, and
/// is transitive.
pub open spec fn total_preorder<T>(le: spec_fn(T, T) -> bool) -> bool {
    &&& forall|a: T, b: T| #[trigger] le(a, b) || #[trigger] le(b, a)
    &&& forall|a: T, b: T, c: T| #[trigger] le(a, b) && #[trigger] le(b, c) ==> le(a, c)
}

/// Non-decreasing under `le`.
pub open spec fn sorted_by<T>(le: spec_fn(T, T) -> bool, s: Seq<T>) -> bool {
    forall|i: int, j: int| 0 <= i < j < s.len() ==> le(#[trigger] s[i], #[trigger] s[j])
}

/// Inserts `x` after every leading element `e` with `le(e, x)`: the stable
/// insertion step.
pub open spec fn insert_le<T>(le: spec_fn(T, T) -> bool, x: T, s: Seq<T>) -> Seq<T>
    decreases s.len(),
{
    if s.len() == 0 {
        seq![x]
    } else if le(s[0], x) {
        seq![s[0]] + insert_le(le, x, s.drop_first())
    } else {
        seq![x] + s
    }
}

/// The stable sort of `s` under `le`: each element, left to right, inserted
/// into the sorted prefix.
pub open spec fn sort_by_le<T>(le: spec_fn(T, T) -> bool, s: Seq<T>) -> Seq<T>
    decreases s.len(),
{
    if s.len() == 0 {
        s
    } else {
        insert_le(le, s.last(), sort_by_le(le, s.drop_last()))
    }
}

/// The position where `insert_le` puts `x`: the first index whose element
/// is not `le`-below `x`.
pub open spec fn ins_pos<T>(le: spec_fn(T, T) -> bool, x: T, s: Seq<T>) -> int
    decreases s.len(),
{
    if s.len() == 0 {
        0
    } else if le(s[0], x) {
        1 + ins_pos(le, x, s.drop_first())
    } else {
        0
    }
}

/// `insert_le` splits the sequence at `ins_pos`.
pub proof fn lemma_ins_pos<T>(le: spec_fn(T, T) -> bool, x: T, s: Seq<T>)
    ensures
        0 <= ins_pos(le, x, s) <= s.len(),
        forall|j: int| 0 <= j < ins_pos(le, x, s) ==> le(#[trigger] s[j], x),
        ins_pos(le, x, s) < s.len() ==> !le(s[ins_pos(le, x, s)], x),
        insert_le(le, x, s) == s.take(ins_pos(le, x, s)) + seq![x] + s.skip(ins_pos(le, x, s)),
    decreases s.len(),
{
    if s.len() == 0 {
        assert(insert_le(le, x, s) =~= s.take(0) + seq![x] + s.skip(0));
    } else if le(s[0], x) {
        lemma_ins_pos(le, x, s.drop_first());
        let p = ins_pos(le, x, s);
        assert forall|j: int| 0 <= j < p implies le(#[trigger] s[j], x) by {
            if j > 0 {
                assert(s.drop_first()[j - 1] == s[j]);
            }
        }
        if p < s.len() {
            assert(s.drop_first()[p - 1] == s[p]);
        }
        assert(s.drop_first().take(p - 1) =~= s.take(p).drop_first());
        assert(s.drop_first().skip(p - 1) =~= s.skip(p));
        assert(insert_le(le, x, s) =~= s.take(p) + seq![x] + s.skip(p));
    } else {
        assert(insert_le(le, x, s) =~= s.take(0) + seq![x] + s.skip(0));
    }
}

/// Inserting into a sorted sequence keeps it sorted.
pub proof fn lemma_insert_le_sorted<T>(le: spec_fn(T, T) -> bool, x: T, s: Seq<T>)
    requires
        total_preorder(le),
        sorted_by(le, s),
    ensures
        sorted_by(le, insert_le(le, x, s)),
{
    lemma_ins_pos(le, x, s);
    let p = ins_pos(le, x, s);
    let r = insert_le(le, x, s);
    assert forall|i: int, j: int| 0 <= i < j < r.len() implies le(#[trigger] r[i], #[trigger] r[j]) by {
        if i < p {
            assert(r[i] == s[i]);
        } else if i == p {
            assert(r[i] == x);
        } else {
            assert(r[i] == s[i - 1]);
        }
        if j < p {
            assert(r[j] == s[j]);
        } else if j == p {
            assert(r[j] == x);
        } else {
            assert(r[j] == s[j - 1]);
        }
        if i < p && j == p {
            // le(s[i], x) from the leading-run property
        } else if i == p && j > p {
            // le(x, s[j-1]): x is not above s[p], so it is below it
            if p < s.len() {
                assert(le(x, s[p]));
                if j - 1 > p {
                    assert(le(s[p], s[j - 1]));
                }
            }
        }
    }
}

/// The sort is sorted.
pub proof fn lemma_sort_by_le_sorted<T>(le: spec_fn(T, T) -> bool, s: Seq<T>)
    requires
        total_preorder(le),
    ensures
        sorted_by(le, sort_by_le(le, s)),
    decreases s.len(),
{
    if s.len() > 0 {
        lemma_sort_by_le_sorted(le, s.drop_last());
        lemma_insert_le_sorted(le, s.last(), sort_by_le(le, s.drop_last()));
    }
}

/// The sort keeps the length.
pub proof fn lemma_sort_by_le_len<T>(le: spec_fn(T, T) -> bool, s: Seq<T>)
    ensures
        sort_by_le(le, s).len() == s.len(),
    decreases s.len(),
{
    if s.len() > 0 {
        lemma_sort_by_le_len(le, s.drop_last());
        lemma_ins_pos(le, s.last(), sort_by_le(le, s.drop_last()));
    }
}

pub proof fn lemma_contains_add<T>(a: Seq<T>, b: Seq<T>, x: T)
    ensures
        (a + b).contains(x) == (a.contains(x) || b.contains(x)),
{
    if a.contains(x) {
        let i = choose|i: int| 0 <= i < a.len() && a[i] == x;
        assert((a + b)[i] == x);
    }
    if b.contains(x) {
        let i = choose|i: int| 0 <= i < b.len() && b[i] == x;
        assert((a + b)[a.len() + i] == x);
    }
    if (a + b).contains(x) {
        let i = choose|i: int| 0 <= i < (a + b).len() && (a + b)[i] == x;
        if i < a.len() {
            assert(a[i] == x);
        } else {
            assert(b[i - a.len()] == x);
        }
    }
}

/// The sort holds exactly the elements of its input.
pub proof fn lemma_sort_by_le_contains<T>(le: spec_fn(T, T) -> bool, s: Seq<T>, x: T)
    ensures
        sort_by_le(le, s).contains(x) == s.contains(x),
    decreases s.len(),
{
    if s.len() > 0 {
        let t = sort_by_le(le, s.drop_last());
        lemma_sort_by_le_contains(le, s.drop_last(), x);
        lemma_ins_pos(le, s.last(), t);
        let p = ins_pos(le, s.last(), t);
        lemma_contains_add(t.take(p) + seq![s.last()], t.skip(p), x);
        lemma_contains_add(t.take(p), seq![s.last()], x);
        lemma_contains_add(t.take(p), t.skip(p), x);
        assert(t.take(p) + t.skip(p) =~= t);
        assert(seq![s.last()].contains(x) == (s.last() == x)) by {
            if seq![s.last()].contains(x) {
                let i = choose|i: int| 0 <= i < 1 && seq![s.last()][i] == x;
                assert(seq![s.last()][0] == x);
            }
            if s.last() == x {
                assert(seq![s.last()][0] == x);
            }
        }
        lemma_contains_add(s.drop_last(), seq![s.last()], x);
        assert(s.drop_last() + seq![s.last()] =~= s);
    }
}

/// Sorting a strictly ascending sequence with the flipped order yields the
/// exact reverse sequence.
pub proof fn lemma_sort_flip_reverse<T>(
    le: spec_fn(T, T) -> bool,
    ge: spec_fn(T, T) -> bool,
    s: Seq<T>,
)
    requires
        forall|a: T, b: T| #[trigger] ge(a, b) == le(b, a),
        // strictly ascending: no ties anywhere
        forall|i: int, j: int|
            0 <= i < j < s.len() ==> le(#[trigger] s[i], #[trigger] s[j]) && !le(s[j], s[i]),
    ensures
        sort_by_le(ge, s) == s.reverse(),
    decreases s.len(),
{
    if s.len() == 0 {
        assert(sort_by_le(ge, s) =~= s.reverse());
    } else {
        let x = s.last();
        let t = s.drop_last();
        assert forall|i: int, j: int| 0 <= i < j < t.len() implies le(#[trigger] t[i], #[trigger] t[j])
            && !le(t[j], t[i]) by {
            assert(t[i] == s[i] && t[j] == s[j]);
        }
        lemma_sort_flip_reverse(le, ge, t);
        let r = t.reverse();
        if t.len() == 0 {
            assert(sort_by_le(ge, s) =~= s.reverse());
        } else {
            // x is strictly above the head of the reversed prefix, so the
            // flipped insertion puts it in front
            assert(r[0] == t[t.len() - 1]);
            assert(t[t.len() - 1] == s[s.len() - 2]);
            assert(!le(x, s[s.len() - 2]));
            assert(!ge(r[0], x));
            assert(insert_le(ge, x, r) =~= seq![x] + r);
            assert(seq![x] + r =~= s.reverse());
        }
    }
}

/// Stability: the elements of one tie class come out in the order they went
/// in.  `p` selects a class of elements that are mutually tied and tied
/// with nothing outside the class.
pub proof fn lemma_insert_le_filter<T>(
    le: spec_fn(T, T) -> bool,
    x: T,
    s: Seq<T>,
    p: spec_fn(T) -> bool,
)
    requires
        total_preorder(le),
        sorted_by(le, s),
        forall|a: T, b: T| #[trigger] p(a) && #[trigger] p(b) ==> le(a, b),
        forall|a: T, b: T| #[trigger] p(a) && !(#[trigger] p(b)) ==> !(le(a, b) && le(b, a)),
    ensures
        p(x) ==> insert_le(le, x, s).filter(p) == s.filter(p).push(x),
        !p(x) ==> insert_le(le, x, s).filter(p) == s.filter(p),
{
    broadcast use vstd::seq_lib::group_filter_ensures;

    reveal_with_fuel(Seq::filter, 2);
    lemma_ins_pos(le, x, s);
    let pos = ins_pos(le, x, s);
    let r = insert_le(le, x, s);
    Seq::filter_distributes_over_add(s.take(pos) + seq![x], s.skip(pos), p);
    Seq::filter_distributes_over_add(s.take(pos), seq![x], p);
    assert(r.filter(p) == s.take(pos).filter(p) + seq![x].filter(p) + s.skip(pos).filter(p));
    Seq::filter_distributes_over_add(s.take(pos), s.skip(pos), p);
    assert(s.take(pos) + s.skip(pos) =~= s);
    if p(x) {
        // no class member sits at or after pos: it would be tied with x,
        // yet everything from pos on is strictly above x
        assert forall|j: int| 0 <= j < s.skip(pos).len() implies !p(#[trigger] s.skip(pos)[j]) by {
            if p(s.skip(pos)[j]) {
                let e = s.skip(pos)[j];
                assert(e == s[pos + j]);
                assert(le(e, x) && le(x, e));
                if j > 0 {
                    assert(le(s[pos], s[pos + j]));
                }
                assert(le(s[pos], x));
            }
        }
        lemma_filter_all_false(s.skip(pos), p);
        assert(seq![x].filter(p) =~= seq![x]);
        assert(r.filter(p) =~= s.filter(p).push(x));
    } else {
        assert(seq![x].filter(p) =~= Seq::<T>::empty());
        assert(r.filter(p) =~= s.filter(p));
    }
}

proof fn lemma_filter_all_false<T>(s: Seq<T>, p: spec_fn(T) -> bool)
    requires
        forall|j: int| 0 <= j < s.len() ==> !p(#[trigger] s[j]),
    ensures
        s.filter(p) == Seq::<T>::empty(),
    decreases s.len(),
{
    broadcast use vstd::seq_lib::group_filter_ensures;

    reveal_with_fuel(Seq::filter, 2);
    if s.len() > 0 {
        lemma_filter_all_false(s.drop_last(), p);
        assert(s.filter(p) =~= Seq::<T>::empty());
    } else {
        assert(s.filter(p) =~= Seq::<T>::empty());
    }
}

/// Stability of the whole sort over one tie class.
pub proof fn lemma_sort_by_le_stable<T>(
    le: spec_fn(T, T) -> bool,
    s: Seq<T>,
    p: spec_fn(T) -> bool,
)
    requires
        total_preorder(le),
        forall|a: T, b: T| #[trigger] p(a) && #[trigger] p(b) ==> le(a, b),
        forall|a: T, b: T| #[trigger] p(a) && !(#[trigger] p(b)) ==> !(le(a, b) && le(b, a)),
    ensures
        sort_by_le(le, s).filter(p) == s.filter(p),
    decreases s.len(),
{
    broadcast use vstd::seq_lib::group_filter_ensures;

    reveal_with_fuel(Seq::filter, 2);
    if s.len() > 0 {
        let t = sort_by_le(le, s.drop_last());
        lemma_sort_by_le_stable(le, s.drop_last(), p);
        lemma_sort_by_le_sorted(le, s.drop_last());
        lemma_insert_le_filter(le, s.last(), t, p);
        if p(s.last()) {
            assert(s.filter(p) == s.drop_last().filter(p).push(s.last()));
        } else {
            assert(s.filter(p) == s.drop_last().filter(p));
        }
    }
}


/// On a sequence without ties, sorting with the flipped order yields the
/// exact reverse of sorting with the order itself.
pub proof fn lemma_sort_flip_of_sort<T>(le: spec_fn(T, T) -> bool, ge: spec_fn(T, T) -> bool, s: Seq<T>)
    requires
        total_preorder(le),
        forall|a: T, b: T| #[trigger] ge(a, b) == le(b, a),
        // no two elements tie
        forall|i: int, j: int|
            0 <= i < s.len() && 0 <= j < s.len() && i != j ==> !(le(#[trigger] s[i], #[trigger] s[j])
                && le(s[j], s[i])),
    ensures
        sort_by_le(ge, s) == sort_by_le(le, s).reverse(),
    decreases s.len(),
{
    if s.len() == 0 {
        assert(sort_by_le(ge, s) =~= sort_by_le(le, s).reverse());
    } else {
        let x = s.last();
        let t = s.drop_last();
        assert forall|i: int, j: int|
            0 <= i < t.len() && 0 <= j < t.len() && i != j implies !(le(#[trigger] t[i], #[trigger] t[j])
            && le(t[j], t[i])) by {
            assert(t[i] == s[i] && t[j] == s[j]);
        }
        lemma_sort_flip_of_sort(le, ge, t);
        let a = sort_by_le(le, t);
        lemma_sort_by_le_sorted(le, t);
        lemma_sort_by_le_len(le, t);
        // x ties with no element of the sorted prefix
        assert forall|j: int| 0 <= j < a.len() implies !(le(#[trigger] a[j], x) && le(x, a[j])) by {
            assert(a.contains(a[j])) by {
                lemma_sort_by_le_len(le, t);
            }
            lemma_sort_by_le_contains(le, t, a[j]);
            let k = choose|k: int| 0 <= k < t.len() && t[k] == a[j];
            assert(t[k] == s[k] && x == s[s.len() - 1]);
        }
        lemma_ins_pos(le, x, a);
        let p = ins_pos(le, x, a);
        // everything from the insertion point on sits strictly above x
        assert forall|j: int| p <= j < a.len() implies !le(#[trigger] a[j], x) by {
            if le(a[j], x) {
                if j > p {
                    assert(le(a[p], a[j]));
                    assert(le(a[p], x));
                }
            }
        }
        lemma_ins_pos(ge, x, a.reverse());
        let q = ins_pos(ge, x, a.reverse());
        assert(q == a.len() - p) by {
            assert forall|j: int| 0 <= j < a.len() - p implies ge(#[trigger] a.reverse()[j], x) by {
                assert(a.reverse()[j] == a[a.len() - 1 - j]);
                assert(!le(a[a.len() - 1 - j], x));
            }
            if q < a.len() - p {
                assert(ge(a.reverse()[q], x));
            } else if q > a.len() - p {
                assert(ge(a.reverse()[a.len() - p], x));
                assert(a.reverse()[a.len() - p] == a[p - 1]);
                assert(le(a[p - 1], x));
            }
        }
        assert(sort_by_le(le, s) == insert_le(le, x, a)) by {
            assert(s.drop_last() == t && s.last() == x);
        }
        assert(sort_by_le(ge, s) == insert_le(ge, x, a.reverse())) by {
            assert(sort_by_le(ge, t) == a.reverse());
        }
        assert(insert_le(ge, x, a.reverse()) =~= insert_le(le, x, a).reverse()) by {
            assert(insert_le(le, x, a) == a.take(p) + seq![x] + a.skip(p));
            assert(insert_le(ge, x, a.reverse()) == a.reverse().take(q) + seq![x]
                + a.reverse().skip(q));
        }
    }
}

/// Sorting commutes with a projection the order factors through.
pub proof fn lemma_sort_by_le_map<T, U>(
    le_t: spec_fn(T, T) -> bool,
    le_u: spec_fn(U, U) -> bool,
    f: spec_fn(T) -> U,
    s: Seq<T>,
)
    requires
        forall|a: T, b: T| #[trigger] le_t(a, b) == le_u(f(a), f(b)),
    ensures
        sort_by_le(le_u, s.map_values(f)) == sort_by_le(le_t, s).map_values(f),
    decreases s.len(),
{
    if s.len() == 0 {
        assert(s.map_values(f) =~= Seq::<U>::empty());
        assert(sort_by_le(le_u, s.map_values(f)) =~= sort_by_le(le_t, s).map_values(f));
    } else {
        let x = s.last();
        let t = s.drop_last();
        lemma_sort_by_le_map(le_t, le_u, f, t);
        let a = sort_by_le(le_t, t);
        lemma_sort_by_le_len(le_t, t);
        assert(s.map_values(f).drop_last() =~= t.map_values(f));
        assert(s.map_values(f).last() == f(x));
        lemma_ins_pos(le_t, x, a);
        lemma_ins_pos(le_u, f(x), a.map_values(f));
        let p = ins_pos(le_t, x, a);
        let q = ins_pos(le_u, f(x), a.map_values(f));
        assert(q == p) by {
            if q < p {
                assert(le_t(a[q], x));
                assert(!le_u(a.map_values(f)[q], f(x)));
            } else if q > p {
                assert(!le_t(a[p], x));
                assert(le_u(a.map_values(f)[p], f(x)));
            }
        }
        assert(insert_le(le_u, f(x), a.map_values(f)) =~= insert_le(le_t, x, a).map_values(f)) by {
            assert(insert_le(le_t, x, a) == a.take(p) + seq![x] + a.skip(p));
            assert(insert_le(le_u, f(x), a.map_values(f)) == a.map_values(f).take(p) + seq![f(x)]
                + a.map_values(f).skip(p));
        }
        assert(sort_by_le(le_u, s.map_values(f)) == insert_le(le_u, f(x), a.map_values(f)));
        assert(sort_by_le(le_t, s).map_values(f) == insert_le(le_t, x, a).map_values(f));
    }
}


proof fn lemma_filter_index<T>(s: Seq<T>, p: spec_fn(T) -> bool, i: int)
    requires
        0 <= i < s.len(),
        p(s[i]),
    ensures
        s.filter(p).len() >= 1,
    decreases s.len(),
{
    reveal_with_fuel(Seq::filter, 2);
    broadcast use vstd::seq_lib::group_filter_ensures;

    if i < s.len() - 1 {
        lemma_filter_index(s.drop_last(), p, i);
    }
}

pub proof fn lemma_filter_two_below<T>(s: Seq<T>, p: spec_fn(T) -> bool, i: int, j: int)
    requires
        0 <= i < j < s.len(),
        p(s[i]),
        p(s[j]),
    ensures
        s.filter(p).len() >= 2,
    decreases s.len(),
{
    reveal_with_fuel(Seq::filter, 2);
    broadcast use vstd::seq_lib::group_filter_ensures;

    if j < s.len() - 1 {
        lemma_filter_two_below(s.drop_last(), p, i, j);
    } else {
        lemma_filter_index(s.drop_last(), p, i);
    }
}

proof fn lemma_filter_some_index<T>(s: Seq<T>, p: spec_fn(T) -> bool)
    requires
        s.filter(p).len() >= 1,
    ensures
        exists|i: int| 0 <= i < s.len() && p(#[trigger] s[i]),
    decreases s.len(),
{
    reveal_with_fuel(Seq::filter, 2);
    broadcast use vstd::seq_lib::group_filter_ensures;

    if s.len() > 0 {
        if p(s.last()) {
            assert(p(s[s.len() - 1]));
        } else {
            lemma_filter_some_index(s.drop_last(), p);
            let i = choose|i: int| 0 <= i < s.drop_last().len() && p(#[trigger] s.drop_last()[i]);
            assert(p(s[i]));
        }
    }
}

/// A filtered list of two or more elements names two source positions.
pub proof fn lemma_filter_two_indices<T>(s: Seq<T>, p: spec_fn(T) -> bool)
    requires
        s.filter(p).len() >= 2,
    ensures
        exists|i: int, j: int|
            0 <= i < j < s.len() && p(#[trigger] s[i]) && p(#[trigger] s[j]),
    decreases s.len(),
{
    reveal_with_fuel(Seq::filter, 2);
    broadcast use vstd::seq_lib::group_filter_ensures;

    if s.len() > 0 {
        if p(s.last()) {
            lemma_filter_some_index(s.drop_last(), p);
            let i = choose|i: int| 0 <= i < s.drop_last().len() && p(#[trigger] s.drop_last()[i]);
            assert(p(s[i]) && p(s[s.len() - 1]));
        } else {
            lemma_filter_two_indices(s.drop_last(), p);
            let (i, j) = choose|i: int, j: int|
                0 <= i < j < s.drop_last().len() && p(#[trigger] s.drop_last()[i]) && p(
                    #[trigger] s.drop_last()[j],
                );
            assert(p(s[i]) && p(s[j]));
        }
    }
}


} // verus!
