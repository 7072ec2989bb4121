//! Stable sorting by a strict order.

use vstd::prelude::*;

verus! {

/// The sequence with one more item, placed behind every item that it does not
/// stand before.
pub open spec fn insert_in_order<T>(s: Seq<T>, x: T, before: spec_fn(T, T) -> bool) -> Seq<T>
    decreases s.len(),
{
    if s.len() > 0 && before(x, s.last()) {
        insert_in_order(s.drop_last(), x, before).push(s.last())
    } else {
        s.push(x)
    }
}

/// The items of a sequence sorted, items of equal rank in their given order.
pub open spec fn in_order<T>(s: Seq<T>, before: spec_fn(T, T) -> bool) -> Seq<T>
    decreases s.len(),
{
    if s.len() == 0 {
        s
    } else {
        insert_in_order(in_order(s.drop_last(), before), s.last(), before)
    }
}

/// Whether no item stands before an earlier one.
pub open spec fn is_sorted<T>(s: Seq<T>, before: spec_fn(T, T) -> bool) -> bool {
    forall|i: int, j: int| 0 <= i < j < s.len() ==> !#[trigger] before(s[j], s[i])
}

/// Whether the relation ranks items: no two stand before each other, and
/// "does not stand before" is transitive.
pub open spec fn is_ranking<T>(before: spec_fn(T, T) -> bool) -> bool {
    &&& forall|a: T, b: T| #[trigger] before(a, b) ==> !before(b, a)
    &&& forall|a: T, b: T, c: T| !#[trigger] before(b, a) && !#[trigger] before(c, b) ==> !before(
        c,
        a,
    )
}

proof fn lemma_insert<T>(s: Seq<T>, x: T, before: spec_fn(T, T) -> bool)
    requires
        is_ranking(before),
        is_sorted(s, before),
    ensures
        is_sorted(insert_in_order(s, x, before), before),
        insert_in_order(s, x, before).to_multiset() == s.to_multiset().insert(x),
        insert_in_order(s, x, before).len() == s.len() + 1,
        forall|i: int|
            0 <= i <= s.len() ==> (#[trigger] insert_in_order(s, x, before)[i] == x || s.contains(
                insert_in_order(s, x, before)[i],
            )),
    decreases s.len(),
{
    broadcast use vstd::seq_lib::group_to_multiset_ensures;

    let r = insert_in_order(s, x, before);
    if s.len() > 0 && before(x, s.last()) {
        let t = s.drop_last();
        lemma_insert(t, x, before);
        let rt = insert_in_order(t, x, before);
        assert(s == t.push(s.last()));
        assert forall|i: int| 0 <= i <= s.len() implies (#[trigger] r[i] == x || s.contains(r[i])) by {
            if i < s.len() {
                assert(r[i] == rt[i]);
                if rt[i] != x {
                    let k = choose|k: int| 0 <= k < t.len() && t[k] == rt[i];
                    assert(s[k] == rt[i]);
                }
            } else {
                assert(r[i] == s.last());
            }
        }
        assert forall|i: int, j: int| 0 <= i < j < r.len() implies !#[trigger] before(r[j], r[i]) by {
            if j < rt.len() {
                assert(r[j] == rt[j] && r[i] == rt[i]);
            } else {
                assert(r[j] == s.last());
                assert(r[i] == rt[i]);
                if rt[i] != x {
                    let k = choose|k: int| 0 <= k < t.len() && t[k] == rt[i];
                    assert(s[k] == rt[i]);
                    assert(!before(s[s.len() - 1], s[k]));
                }
            }
        }
    } else {
        assert forall|i: int, j: int| 0 <= i < j < r.len() implies !#[trigger] before(r[j], r[i]) by {
            if j < s.len() {
                assert(r[j] == s[j] && r[i] == s[i]);
            } else {
                assert(r[j] == x && r[i] == s[i]);
                let last = s.last();
                if i < s.len() - 1 {
                    assert(!before(s[s.len() - 1], s[i]));
                }
                assert(!before(x, last));
            }
        }
    }
}

/// Sorting keeps the items and leaves none before an earlier one.
pub proof fn lemma_in_order<T>(s: Seq<T>, before: spec_fn(T, T) -> bool)
    requires
        is_ranking(before),
    ensures
        is_sorted(in_order(s, before), before),
        in_order(s, before).to_multiset() == s.to_multiset(),
        in_order(s, before).len() == s.len(),
    decreases s.len(),
{
    broadcast use vstd::seq_lib::group_to_multiset_ensures;

    if s.len() > 0 {
        lemma_in_order(s.drop_last(), before);
        lemma_insert(in_order(s.drop_last(), before), s.last(), before);
        assert(s == s.drop_last().push(s.last()));
    }
}

/// A sequence that is sorted already stays as it is.
pub proof fn lemma_in_order_idempotent<T>(s: Seq<T>, before: spec_fn(T, T) -> bool)
    requires
        is_sorted(s, before),
    ensures
        in_order(s, before) == s,
    decreases s.len(),
{
    if s.len() > 0 {
        let t = s.drop_last();
        assert forall|i: int, j: int| 0 <= i < j < t.len() implies !#[trigger] before(t[j], t[i]) by {
            assert(t[j] == s[j] && t[i] == s[i]);
        }
        lemma_in_order_idempotent(t, before);
        if t.len() > 0 {
            assert(!before(s[s.len() - 1], s[s.len() - 2]));
            assert(t.last() == s[s.len() - 2]);
        }
        assert(t.push(s.last()) == s);
    }
}

proof fn lemma_insert_map<T, U>(
    s: Seq<T>,
    x: T,
    f: spec_fn(T) -> U,
    before: spec_fn(T, T) -> bool,
    ranked: spec_fn(U, U) -> bool,
)
    requires
        forall|a: T, b: T| #[trigger] before(a, b) == ranked(f(a), f(b)),
    ensures
        insert_in_order(s, x, before).map_values(f) == insert_in_order(
            s.map_values(f),
            f(x),
            ranked,
        ),
    decreases s.len(),
{
    let m = s.map_values(f);
    if s.len() > 0 {
        assert(m.last() == f(s.last()));
        assert(m.drop_last() =~= s.drop_last().map_values(f));
        assert(before(x, s.last()) == ranked(f(x), f(s.last())));
        if before(x, s.last()) {
            lemma_insert_map(s.drop_last(), x, f, before, ranked);
            assert(insert_in_order(s, x, before).map_values(f) =~= insert_in_order(
                s.drop_last(),
                x,
                before,
            ).map_values(f).push(f(s.last())));
        } else {
            assert(s.push(x).map_values(f) =~= m.push(f(x)));
        }
    } else {
        assert(s.push(x).map_values(f) =~= m.push(f(x)));
    }
}

/// Sorting by what is seen of the items, and seeing the items sorted, agree.
pub proof fn lemma_in_order_map<T, U>(
    s: Seq<T>,
    f: spec_fn(T) -> U,
    before: spec_fn(T, T) -> bool,
    ranked: spec_fn(U, U) -> bool,
)
    requires
        forall|a: T, b: T| #[trigger] before(a, b) == ranked(f(a), f(b)),
    ensures
        in_order(s, before).map_values(f) == in_order(s.map_values(f), ranked),
    decreases s.len(),
{
    if s.len() > 0 {
        lemma_in_order_map(s.drop_last(), f, before, ranked);
        lemma_insert_map(in_order(s.drop_last(), before), s.last(), f, before, ranked);
        assert(s.map_values(f).drop_last() =~= s.drop_last().map_values(f));
    } else {
        assert(s.map_values(f) =~= Seq::<U>::empty());
        assert(in_order(s, before).map_values(f) =~= Seq::<U>::empty());
    }
}

fn insert_item<T, F: Fn(&T, &T) -> bool>(
    items: &mut Vec<T>,
    x: T,
    before: &F,
    Ghost(ranked): Ghost<spec_fn(T, T) -> bool>,
)
    requires
        forall|a: &T, b: &T| call_requires(before, (a, b)),
        forall|a: &T, b: &T, r: bool| call_ensures(before, (a, b), r) ==> r == ranked(*a, *b),
    ensures
        final(items)@ == insert_in_order(old(items)@, x, ranked),
{
    let mut at: usize = items.len();
    let ghost whole = items@;
    proof {
        assert(whole.take(whole.len() as int) == whole);
        assert(insert_in_order(whole, x, ranked) =~= insert_in_order(
            whole.take(at as int),
            x,
            ranked,
        ) + whole.skip(at as int));
    }
    while at > 0 && before(&x, &items[at - 1])
        invariant
            items@ == whole,
            at <= whole.len(),
            forall|a: &T, b: &T| call_requires(before, (a, b)),
            forall|a: &T, b: &T, r: bool| call_ensures(before, (a, b), r) ==> r == ranked(*a, *b),
            insert_in_order(whole, x, ranked) == insert_in_order(
                whole.take(at as int),
                x,
                ranked,
            ) + whole.skip(at as int),
        decreases at,
    {
        proof {
            let t = whole.take(at as int);
            assert(t.last() == whole[at - 1]);
            assert(t.drop_last() == whole.take(at - 1));
            assert(insert_in_order(t, x, ranked) + whole.skip(at as int) =~= insert_in_order(
                whole.take(at - 1),
                x,
                ranked,
            ) + whole.skip(at - 1));
        }
        at -= 1;
    }
    proof {
        let t = whole.take(at as int);
        if at > 0 {
            assert(t.last() == whole[at - 1]);
        }
        assert(insert_in_order(t, x, ranked) == t.push(x));
        assert(whole.insert(at as int, x) =~= t.push(x) + whole.skip(at as int));
    }
    items.insert(at, x);
}

/// Sorts the items, items of equal rank in their given order.
pub fn sort<T, F: Fn(&T, &T) -> bool>(
    mut items: Vec<T>,
    before: F,
    Ghost(ranked): Ghost<spec_fn(T, T) -> bool>,
) -> (sorted: Vec<T>)
    requires
        forall|a: &T, b: &T| call_requires(&before, (a, b)),
        forall|a: &T, b: &T, r: bool| call_ensures(&before, (a, b), r) ==> r == ranked(*a, *b),
    ensures
        sorted@ == in_order(items@, ranked),
{
    let mut sorted: Vec<T> = Vec::new();
    let ghost whole = items@;
    let ghost mut taken: int = 0;
    while items.len() > 0
        invariant
            forall|a: &T, b: &T| call_requires(&before, (a, b)),
            forall|a: &T, b: &T, r: bool| call_ensures(&before, (a, b), r) ==> r == ranked(*a, *b),
            0 <= taken <= whole.len(),
            items@ == whole.skip(taken),
            sorted@ == in_order(whole.take(taken), ranked),
        decreases items@.len(),
    {
        let x = items.remove(0);
        proof {
            assert(whole.take(taken + 1).drop_last() == whole.take(taken));
            assert(whole.take(taken + 1).last() == x);
            assert(whole.skip(taken).remove(0) =~= whole.skip(taken + 1));
        }
        insert_item(&mut sorted, x, &before, Ghost(ranked));
        proof {
            taken = taken + 1;
        }
    }
    proof {
        assert(whole.take(taken) == whole);
    }
    sorted
}

/// Whether neither of two items stands before the other.
pub open spec fn of_equal_rank<T>(x: T, before: spec_fn(T, T) -> bool) -> spec_fn(T) -> bool {
    |y: T| !before(x, y) && !before(y, x)
}

proof fn lemma_insert_keeps_rank<T>(s: Seq<T>, x: T, before: spec_fn(T, T) -> bool, y: T)
    requires
        is_ranking(before),
    ensures
        insert_in_order(s, x, before).filter(of_equal_rank(y, before)) == s.push(x).filter(
            of_equal_rank(y, before),
        ),
    decreases s.len(),
{
    let keep = of_equal_rank(y, before);
    reveal(Seq::filter);
    if s.len() > 0 && before(x, s.last()) {
        let front = s.drop_last();
        let last = s.last();
        lemma_insert_keeps_rank(front, x, before, y);
        let inserted = insert_in_order(front, x, before);
        crate::text::lemma_filter_push(inserted, last, keep);
        crate::text::lemma_filter_push(front, x, keep);
        crate::text::lemma_filter_push(front, last, keep);
        crate::text::lemma_filter_push(s, x, keep);
        assert(front.push(last) =~= s);
        if keep(x) && keep(last) {
            assert(!before(y, x) && !before(last, y));
            assert(!before(x, y) && !before(y, last));
            assert(!before(x, last));
        }
    }
}

/// Items of equal rank keep the order that they were given in.
pub proof fn law_items_of_equal_rank_keep_their_order<T>(
    s: Seq<T>,
    before: spec_fn(T, T) -> bool,
    x: T,
)
    requires
        is_ranking(before),
    ensures
        in_order(s, before).filter(of_equal_rank(x, before)) == s.filter(of_equal_rank(x, before)),
    decreases s.len(),
{
    if s.len() > 0 {
        let keep = of_equal_rank(x, before);
        let front = s.drop_last();
        law_items_of_equal_rank_keep_their_order(front, before, x);
        lemma_insert_keeps_rank(in_order(front, before), s.last(), before, x);
        crate::text::lemma_filter_push(in_order(front, before), s.last(), keep);
        crate::text::lemma_filter_push(front, s.last(), keep);
        assert(front.push(s.last()) =~= s);
    }
}

} // verus!
