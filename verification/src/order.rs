//! Ordering by falling keys, with ties kept in place.

use vstd::prelude::*;

verus! {

/// Whether place `a` comes before place `b`: its key is larger, or the keys are
/// the same and `a` is first.
pub open spec fn ahead(keys: Seq<int>, a: int, b: int) -> bool {
    keys[a] > keys[b] || (keys[a] == keys[b] && a < b)
}

/// Whether `order` lists all places of `keys` by falling key, with ties in place.
pub open spec fn is_falling_order(keys: Seq<int>, order: Seq<int>) -> bool {
    &&& order.len() == keys.len()
    &&& forall|p: int| 0 <= p < order.len() ==> 0 <= #[trigger] order[p] < keys.len()
    &&& forall|k: int| 0 <= k < keys.len() ==> order.contains(k)
    &&& forall|p: int, q: int|
        0 <= p < q < order.len() ==> ahead(keys, #[trigger] order[p], #[trigger] order[q])
}

/// All places of `keys` by falling key, with ties in place.
pub open spec fn falling_order(keys: Seq<int>) -> Seq<int> {
    choose|order: Seq<int>| is_falling_order(keys, order)
}

/// The items at the places that `order` lists.
pub open spec fn arranged<T>(items: Seq<T>, order: Seq<int>) -> Seq<T> {
    order.map_values(|i: int| items[i])
}

/// The keys as integers.
pub open spec fn ints(keys: Seq<u64>) -> Seq<int> {
    keys.map_values(|k: u64| k as int)
}

/// The places as integers.
pub open spec fn places(order: Seq<usize>) -> Seq<int> {
    order.map_values(|k: usize| k as int)
}

proof fn lemma_agree(keys: Seq<int>, a: Seq<int>, b: Seq<int>, n: int)
    requires
        is_falling_order(keys, a),
        is_falling_order(keys, b),
        0 <= n <= a.len(),
    ensures
        a.take(n) == b.take(n),
    decreases n,
{
    if n > 0 {
        let i = n - 1;
        lemma_agree(keys, a, b, i);
        assert forall|k: int| 0 <= k < i implies a[k] == b[k] by {
            assert(a.take(i)[k] == b.take(i)[k]);
        }
        if a[i] != b[i] {
            assert(b.contains(a[i]));
            let p = choose|p: int| 0 <= p < b.len() && b[p] == a[i];
            if p < i {
                assert(ahead(keys, a[p], a[i]));
            }
            assert(ahead(keys, b[i], b[p]));
            assert(a.contains(b[i]));
            let q = choose|q: int| 0 <= q < a.len() && a[q] == b[i];
            if q < i {
                assert(ahead(keys, b[q], b[i]));
            }
            assert(ahead(keys, a[i], a[q]));
        }
        assert(a.take(n) =~= b.take(n));
    }
}

/// There is only one such order.
pub proof fn falling_order_is_unique(keys: Seq<int>, order: Seq<int>)
    requires
        is_falling_order(keys, order),
    ensures
        order == falling_order(keys),
{
    let other = falling_order(keys);
    lemma_agree(keys, order, other, order.len() as int);
    assert(order.take(order.len() as int) =~= order);
    assert(other.take(order.len() as int) =~= other);
}

/// The last place goes in after those with keys at least as large.
proof fn lemma_insert(more: Seq<int>, before: Seq<int>, p: int)
    requires
        more.len() > 0,
        is_falling_order(more.drop_last(), before),
        0 <= p <= before.len(),
        forall|j: int| 0 <= j < p ==> more[#[trigger] before[j]] >= more.last(),
        p < before.len() ==> more[before[p]] < more.last(),
    ensures
        is_falling_order(more, before.insert(p, more.len() - 1)),
{
    let some = more.drop_last();
    let i = more.len() - 1;
    let after = before.insert(p, i);
    assert forall|q: int| 0 <= q < after.len() implies 0 <= #[trigger] after[q] < more.len() by {
        if q < p {
            assert(after[q] == before[q]);
        } else if q > p {
            assert(after[q] == before[q - 1]);
        }
    }
    assert forall|k: int| 0 <= k < more.len() implies after.contains(k) by {
        if k == i {
            assert(after[p] == k);
        } else {
            assert(before.contains(k));
            let q = choose|q: int| 0 <= q < before.len() && before[q] == k;
            if q < p {
                assert(after[q] == k);
            } else {
                assert(after[q + 1] == k);
            }
        }
    }
    assert forall|a: int, b: int| 0 <= a < b < after.len() implies ahead(
        more,
        #[trigger] after[a],
        #[trigger] after[b],
    ) by {
        let a0 = if a < p { a } else { a - 1 };
        let b0 = if b < p { b } else { b - 1 };
        if a != p && b != p {
            assert(after[a] == before[a0] && after[b] == before[b0]);
            assert(ahead(some, before[a0], before[b0]));
        } else if a == p {
            assert(after[b] == before[b0]);
            if b0 > p {
                assert(ahead(some, before[p], before[b0]));
            }
        } else {
            assert(after[a] == before[a0]);
        }
    }
}

/// Whatever the keys, there is such an order.
pub proof fn falling_order_exists(keys: Seq<int>)
    ensures
        is_falling_order(keys, falling_order(keys)),
    decreases keys.len(),
{
    if keys.len() == 0 {
        assert(is_falling_order(keys, Seq::empty()));
    } else {
        let before = falling_order(keys.drop_last());
        falling_order_exists(keys.drop_last());
        let p = lemma_rank(keys, before, 0);
        lemma_insert(keys, before, p);
    }
}

proof fn lemma_rank(keys: Seq<int>, before: Seq<int>, from: int) -> (p: int)
    requires
        keys.len() > 0,
        0 <= from <= before.len(),
        forall|j: int| 0 <= j < from ==> keys[#[trigger] before[j]] >= keys.last(),
    ensures
        0 <= p <= before.len(),
        forall|j: int| 0 <= j < p ==> keys[#[trigger] before[j]] >= keys.last(),
        p < before.len() ==> keys[before[p]] < keys.last(),
    decreases before.len() - from,
{
    if from < before.len() && keys[before[from]] >= keys.last() {
        lemma_rank(keys, before, from + 1)
    } else {
        from
    }
}

/// All places of `keys` by falling key, with ties in place.
pub fn order_falling(keys: &Vec<u64>) -> (r: Vec<usize>)
    ensures
        places(r@) == falling_order(ints(keys@)),
        is_falling_order(ints(keys@), places(r@)),
{
    let mut r: Vec<usize> = Vec::new();
    let ghost all = ints(keys@);
    let mut i: usize = 0;
    while i < keys.len()
        invariant
            i <= keys.len(),
            all == ints(keys@),
            is_falling_order(all.take(i as int), places(r@)),
        decreases keys.len() - i,
    {
        let ghost some = all.take(i as int);
        let ghost more = all.take(i + 1);
        let ghost before = places(r@);
        assert forall|j: int| 0 <= j < r.len() implies #[trigger] r@[j] < keys.len() by {
            assert(before[j] == r@[j]);
        }
        let mut p: usize = 0;
        while p < r.len() && keys[r[p]] >= keys[i]
            invariant
                p <= r.len(),
                i < keys.len(),
                all == ints(keys@),
                some == all.take(i as int),
                before == places(r@),
                is_falling_order(some, before),
                forall|j: int| 0 <= j < r.len() ==> #[trigger] r@[j] < keys.len(),
                forall|j: int| 0 <= j < p ==> all[#[trigger] before[j]] >= all[i as int],
            ensures
                p <= r.len(),
                p < r.len() ==> all[before[p as int]] < all[i as int],
                forall|j: int| 0 <= j < p ==> all[#[trigger] before[j]] >= all[i as int],
            decreases r.len() - p,
        {
            assert(before[p as int] == r@[p as int]);
            p += 1;
        }
        r.insert(p, i);
        proof {
            assert(places(r@) =~= before.insert(p as int, i as int));
            assert(more.drop_last() =~= some);
            lemma_insert(more, before, p as int);
        }
        i += 1;
    }
    assert(all.take(keys.len() as int) =~= all);
    proof {
        falling_order_is_unique(all, places(r@));
    }
    r
}

proof fn lemma_permuted<T>(items: Seq<T>, order: Seq<int>)
    requires
        order.len() == items.len(),
        forall|p: int| 0 <= p < order.len() ==> 0 <= #[trigger] order[p] < items.len(),
        forall|k: int| 0 <= k < items.len() ==> order.contains(k),
        forall|p: int, q: int|
            0 <= p < q < order.len() ==> #[trigger] order[p] != #[trigger] order[q],
    ensures
        arranged(items, order).to_multiset() == items.to_multiset(),
    decreases items.len(),
{
    broadcast use vstd::seq_lib::group_to_multiset_ensures;

    let all = arranged(items, order);
    if items.len() == 0 {
        assert(all =~= items);
    } else {
        let n = items.len() - 1;
        assert(order.contains(n));
        let p = choose|p: int| 0 <= p < order.len() && order[p] == n;
        let rest = order.remove(p);
        let fewer = items.drop_last();
        assert forall|q: int| 0 <= q < rest.len() implies 0 <= #[trigger] rest[q] < fewer.len() by {
            if q < p {
                assert(rest[q] == order[q]);
            } else {
                assert(rest[q] == order[q + 1]);
            }
        }
        assert forall|k: int| 0 <= k < fewer.len() implies rest.contains(k) by {
            assert(order.contains(k));
            let q = choose|q: int| 0 <= q < order.len() && order[q] == k;
            if q < p {
                assert(rest[q] == k);
            } else {
                assert(rest[q - 1] == k);
            }
        }
        lemma_permuted(fewer, rest);
        assert(all.remove(p) =~= arranged(fewer, rest));
        assert(all[p] == items[n]);
        assert(fewer.push(items[n]) =~= items);
        assert(all.to_multiset().remove(all[p]).insert(all[p]) =~= all.to_multiset());
    }
}

/// Ordering by falling keys keeps the items: each occurs as often as it did.
pub proof fn ordering_keeps_the_items<T>(items: Seq<T>, keys: Seq<int>)
    requires
        keys.len() == items.len(),
    ensures
        arranged(items, falling_order(keys)).to_multiset() == items.to_multiset(),
        arranged(items, falling_order(keys)).len() == items.len(),
{
    falling_order_exists(keys);
    let order = falling_order(keys);
    assert forall|p: int, q: int| 0 <= p < q < order.len() implies #[trigger] order[p]
        != #[trigger] order[q] by {
        assert(ahead(keys, order[p], order[q]));
    }
    lemma_permuted(items, order);
}

} // verus!
