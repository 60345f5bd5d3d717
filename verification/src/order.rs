use vstd::prelude::*;

verus! {

/// `le` orders any two values one way or the other.
pub open spec fn is_total<A>(le: spec_fn(A, A) -> bool) -> bool {
    forall|a: A, b: A| #[trigger] le(a, b) || le(b, a)
}

/// `le` is transitive.
pub open spec fn is_transitive<A>(le: spec_fn(A, A) -> bool) -> bool {
    forall|a: A, b: A, c: A| #[trigger] le(a, b) && #[trigger] le(b, c) ==> le(a, c)
}

/// Every element of `s` is `le` every element after it.
pub open spec fn sorted_by<A>(s: Seq<A>, le: spec_fn(A, A) -> bool) -> bool {
    forall|i: int, j: int| 0 <= i < j < s.len() ==> le(#[trigger] s[i], #[trigger] s[j])
}

/// Where a stable insertion puts `x` into `t`: after the last element that is `le` it,
/// counting back from the end past every element that is not.
pub open spec fn insert_pos<A>(t: Seq<A>, x: A, le: spec_fn(A, A) -> bool) -> int
    decreases t.len(),
{
    if t.len() == 0 {
        0
    } else if le(t.last(), x) {
        t.len() as int
    } else {
        insert_pos(t.drop_last(), x, le)
    }
}

/// `x` inserted into `t` at [`insert_pos`].
pub open spec fn insert_sorted<A>(t: Seq<A>, x: A, le: spec_fn(A, A) -> bool) -> Seq<A> {
    t.insert(insert_pos(t, x, le), x)
}

/// The stable sort of `s` by `le`: each element in turn inserted after the ones before
/// it that it does not precede. For a total preorder this is the one order that is
/// sorted and keeps equal elements in their relative order, which is what
/// `slice::sort_by_key` and `slice::sort_by` produce.
pub open spec fn sort_by<A>(s: Seq<A>, le: spec_fn(A, A) -> bool) -> Seq<A>
    decreases s.len(),
{
    if s.len() == 0 {
        s
    } else {
        insert_sorted(sort_by(s.drop_last(), le), s.last(), le)
    }
}

/// What characterizes [`insert_pos`]: everything after it is not `le x`, and the
/// element just before it is.
pub proof fn lemma_insert_pos<A>(t: Seq<A>, x: A, le: spec_fn(A, A) -> bool)
    ensures
        0 <= insert_pos(t, x, le) <= t.len(),
        forall|m: int| insert_pos(t, x, le) <= m < t.len() ==> !le(#[trigger] t[m], x),
        insert_pos(t, x, le) > 0 ==> le(t[insert_pos(t, x, le) - 1], x),
    decreases t.len(),
{
    if t.len() > 0 && !le(t.last(), x) {
        lemma_insert_pos(t.drop_last(), x, le);
        let p = insert_pos(t.drop_last(), x, le);
        assert forall|m: int| p <= m < t.len() implies !le(#[trigger] t[m], x) by {
            if m < t.len() - 1 {
                assert(t[m] == t.drop_last()[m]);
            }
        }
    }
}

/// A position with that characterization is [`insert_pos`].
pub proof fn lemma_insert_pos_unique<A>(t: Seq<A>, x: A, le: spec_fn(A, A) -> bool, j: int)
    requires
        0 <= j <= t.len(),
        forall|m: int| j <= m < t.len() ==> !le(#[trigger] t[m], x),
        j > 0 ==> le(t[j - 1], x),
    ensures
        insert_pos(t, x, le) == j,
    decreases t.len(),
{
    if t.len() > 0 && j < t.len() {
        assert(!le(t[t.len() - 1], x));
        assert forall|m: int| j <= m < t.drop_last().len() implies !le(
            #[trigger] t.drop_last()[m],
            x,
        ) by {
            assert(t.drop_last()[m] == t[m]);
        }
        if j > 0 {
            assert(t.drop_last()[j - 1] == t[j - 1]);
        }
        lemma_insert_pos_unique(t.drop_last(), x, le, j);
    }
}

/// Inserting into a sorted sequence keeps it sorted and adds exactly one element.
pub proof fn lemma_insert_sorted<A>(t: Seq<A>, x: A, le: spec_fn(A, A) -> bool)
    requires
        is_total(le),
        is_transitive(le),
        sorted_by(t, le),
    ensures
        sorted_by(insert_sorted(t, x, le), le),
        insert_sorted(t, x, le).to_multiset() == t.to_multiset().insert(x),
{
    lemma_insert_pos(t, x, le);
    let p = insert_pos(t, x, le);
    let r = insert_sorted(t, x, le);
    t.insert_ensures(p, x);
    assert forall|i: int, j: int| 0 <= i < j < r.len() implies le(#[trigger] r[i], #[trigger] r[j]) by {
        if j < p {
            assert(r[i] == t[i] && r[j] == t[j]);
        } else if j == p {
            assert(r[i] == t[i]);
            assert(le(t[p - 1], x));
            if i < p - 1 {
                assert(le(t[i], t[p - 1]));
            }
        } else if i == p {
            assert(r[j] == t[j - 1]);
            assert(!le(t[j - 1], x));
            assert(le(x, t[j - 1]) || le(t[j - 1], x));
        } else if i < p {
            assert(r[i] == t[i] && r[j] == t[j - 1]);
        } else {
            assert(r[i] == t[i - 1] && r[j] == t[j - 1]);
        }
    }
    let front = t.subrange(0, p);
    let back = t.subrange(p, t.len() as int);
    vstd::seq_lib::lemma_multiset_commutative(front.push(x), back);
    vstd::seq_lib::lemma_multiset_commutative(front, back);
    assert(front + back =~= t);
    front.to_multiset_ensures();
    assert(r == front.push(x) + back);
    assert(t.to_multiset().insert(x) =~= front.to_multiset().insert(x).add(back.to_multiset()));
}

/// The stable sort is sorted and holds exactly the elements it was given.
pub proof fn lemma_sort_by<A>(s: Seq<A>, le: spec_fn(A, A) -> bool)
    requires
        is_total(le),
        is_transitive(le),
    ensures
        sorted_by(sort_by(s, le), le),
        sort_by(s, le).to_multiset() == s.to_multiset(),
        sort_by(s, le).len() == s.len(),
    decreases s.len(),
{
    if s.len() > 0 {
        lemma_sort_by(s.drop_last(), le);
        lemma_insert_sorted(sort_by(s.drop_last(), le), s.last(), le);
        s.drop_last().to_multiset_ensures();
        assert(s.drop_last().push(s.last()) =~= s);
        sort_by(s, le).to_multiset_ensures();
        s.to_multiset_ensures();
    } else {
        s.to_multiset_ensures();
    }
}


/// One step of an in-place insertion sort: with the first `i` elements sorted and the
/// rest untouched, moving element `i` back to its insertion point sorts the first
/// `i + 1` and leaves the rest untouched.
pub proof fn lemma_insertion_step<A>(
    before: Seq<A>,
    orig: Seq<A>,
    i: int,
    j: int,
    le: spec_fn(A, A) -> bool,
)
    requires
        0 <= i < orig.len() == before.len(),
        before.take(i) == sort_by(orig.take(i), le),
        before.skip(i) == orig.skip(i),
        j == insert_pos(before.take(i), before[i], le),
    ensures
        before.remove(i).insert(j, before[i]).take(i + 1) == sort_by(orig.take(i + 1), le),
        before.remove(i).insert(j, before[i]).skip(i + 1) == orig.skip(i + 1),
{
    let t = before.take(i);
    let x = before[i];
    lemma_insert_pos(t, x, le);
    assert(before.skip(i)[0] == orig.skip(i)[0]);
    assert(x == orig[i]);
    assert(orig.take(i + 1).drop_last() =~= orig.take(i));
    let now = before.remove(i).insert(j, x);
    assert(now.take(i + 1) =~= t.insert(j, x));
    assert forall|m: int| 0 <= m < orig.len() - (i + 1) implies #[trigger] now.skip(i + 1)[m]
        == orig.skip(i + 1)[m] by {
        assert(before.skip(i)[m + 1] == orig.skip(i)[m + 1]);
    }
    assert(now.skip(i + 1) =~= orig.skip(i + 1));
}


proof fn lemma_insert_pos_map<A, B>(
    t: Seq<B>,
    x: B,
    f: spec_fn(B) -> A,
    le_a: spec_fn(A, A) -> bool,
    le_b: spec_fn(B, B) -> bool,
)
    requires
        forall|i: int| 0 <= i < t.len() ==> le_b(#[trigger] t[i], x) == le_a(f(t[i]), f(x)),
    ensures
        insert_pos(t, x, le_b) == insert_pos(t.map_values(f), f(x), le_a),
    decreases t.len(),
{
    if t.len() > 0 {
        assert(t.map_values(f).last() == f(t.last()));
        assert(t.map_values(f).drop_last() =~= t.drop_last().map_values(f));
        assert forall|i: int| 0 <= i < t.drop_last().len() implies le_b(
            #[trigger] t.drop_last()[i],
            x,
        ) == le_a(f(t.drop_last()[i]), f(x)) by {
            assert(t.drop_last()[i] == t[i]);
        }
        lemma_insert_pos_map(t.drop_last(), x, f, le_a, le_b);
    }
}

/// Sorting pairs by an order that agrees with an order on their images, then taking the
/// images, is sorting the images.
pub proof fn lemma_sort_by_map<A, B>(
    s: Seq<B>,
    f: spec_fn(B) -> A,
    le_a: spec_fn(A, A) -> bool,
    le_b: spec_fn(B, B) -> bool,
)
    requires
        is_total(le_b),
        is_transitive(le_b),
        forall|i: int, j: int|
            0 <= i < s.len() && 0 <= j < s.len() ==> le_b(#[trigger] s[i], #[trigger] s[j])
                == le_a(f(s[i]), f(s[j])),
    ensures
        sort_by(s, le_b).map_values(f) == sort_by(s.map_values(f), le_a),
    decreases s.len(),
{
    if s.len() > 0 {
        let rest = s.drop_last();
        let x = s.last();
        assert forall|i: int, j: int|
            0 <= i < rest.len() && 0 <= j < rest.len() implies le_b(
            #[trigger] rest[i],
            #[trigger] rest[j],
        ) == le_a(f(rest[i]), f(rest[j])) by {
            assert(rest[i] == s[i] && rest[j] == s[j]);
        }
        lemma_sort_by_map(rest, f, le_a, le_b);
        lemma_sort_by(rest, le_b);
        let t = sort_by(rest, le_b);
        assert forall|i: int| 0 <= i < t.len() implies le_b(#[trigger] t[i], x) == le_a(
            f(t[i]),
            f(x),
        ) by {
            t.to_multiset_ensures();
            rest.to_multiset_ensures();
            assert(t.contains(t[i]));
            assert(rest.to_multiset().count(t[i]) == t.to_multiset().count(t[i]));
            let m = choose|m: int| 0 <= m < rest.len() && rest[m] == t[i];
            assert(s[m] == t[i]);
            assert(s[s.len() - 1] == x);
        }
        lemma_insert_pos_map(t, x, f, le_a, le_b);
        let p = insert_pos(t, x, le_b);
        lemma_insert_pos(t, x, le_b);
        assert(s.map_values(f).drop_last() =~= rest.map_values(f));
        assert(s.map_values(f).last() == f(x));
        assert(t.insert(p, x).map_values(f) =~= t.map_values(f).insert(p, f(x)));
    }
}

} // verus!
