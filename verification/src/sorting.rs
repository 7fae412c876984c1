//! Stable sorting of items by an integer key.

use vstd::prelude::*;

verus! {

/// The place in an ascending list before everything that is not below `key`.
pub open spec fn place_before<T>(list: Seq<(i128, T)>, key: i128) -> int
    decreases list.len(),
{
    if list.len() == 0 || list[0].0 >= key {
        0
    } else {
        1 + place_before(list.drop_first(), key)
    }
}

/// The items in ascending order of their keys; those with equal keys stay in
/// the order in which they came.
pub open spec fn stable<T>(items: Seq<(i128, T)>) -> Seq<(i128, T)>
    decreases items.len(),
{
    if items.len() == 0 {
        Seq::empty()
    } else {
        let rest = stable(items.drop_first());
        rest.insert(place_before(rest, items[0].0), items[0])
    }
}

/// Everything before that place is below the key, and what stands there is not.
pub proof fn lemma_place_before<T>(list: Seq<(i128, T)>, key: i128)
    ensures
        0 <= place_before(list, key) <= list.len(),
        forall|k: int| 0 <= k < place_before(list, key) ==> (#[trigger] list[k]).0 < key,
        place_before(list, key) < list.len() ==> list[place_before(list, key)].0 >= key,
    decreases list.len(),
{
    if list.len() > 0 && list[0].0 < key {
        let rest = list.drop_first();
        lemma_place_before(rest, key);
        assert forall|k: int| 0 <= k < place_before(list, key) implies (
        #[trigger] list[k]).0 < key by {
            if k > 0 {
                assert(list[k] == rest[k - 1]);
            }
        }
        if place_before(list, key) < list.len() {
            assert(list[place_before(list, key)] == rest[place_before(rest, key)]);
        }
    }
}

proof fn lemma_place_is<T>(list: Seq<(i128, T)>, key: i128, at: int)
    requires
        0 <= at <= list.len(),
        forall|k: int| 0 <= k < at ==> (#[trigger] list[k]).0 < key,
        at < list.len() ==> list[at].0 >= key,
    ensures
        place_before(list, key) == at,
{
    lemma_place_before(list, key);
    let p = place_before(list, key);
    if p < at {
        assert(list[p].0 < key);
    }
    if at < p {
        assert(list[at].0 < key);
    }
}

/// A sorted list holds the items, each as often, and its keys ascend.
pub proof fn law_stable_sorts<T>(items: Seq<(i128, T)>)
    ensures
        stable(items).len() == items.len(),
        stable(items).to_multiset() == items.to_multiset(),
        forall|a: int, b: int|
            0 <= a <= b < items.len() ==> (#[trigger] stable(items)[a]).0 <= (#[trigger] stable(
                items,
            )[b]).0,
    decreases items.len(),
{
    if items.len() == 0 {
        assert(stable(items) =~= items);
    } else {
        let tail = items.drop_first();
        law_stable_sorts(tail);
        let rest = stable(tail);
        let v = items[0];
        let at = place_before(rest, v.0);
        lemma_place_before(rest, v.0);
        let whole = stable(items);
        vstd::seq_lib::to_multiset_insert(rest, at, v);
        vstd::seq_lib::to_multiset_insert(tail, 0, v);
        assert(tail.insert(0, v) =~= items);
        assert forall|a: int, b: int| 0 <= a <= b < items.len() implies (#[trigger] whole[a]).0 <= (
        #[trigger] whole[b]).0 by {
            if b < at {
                assert(whole[a] == rest[a] && whole[b] == rest[b]);
            } else if b == at && a < at {
                assert(whole[a] == rest[a]);
            } else if b > at {
                assert(whole[b] == rest[b - 1]);
                assert(rest[at].0 <= rest[b - 1].0);
                if a < at {
                    assert(whole[a] == rest[a]);
                } else if a > at {
                    assert(whole[a] == rest[a - 1]);
                }
            }
        }
    }
}

/// Items with the same key stay in the order in which they came.
pub proof fn law_equal_keys_keep_their_order<T>(items: Seq<(i128, T)>, key: i128)
    ensures
        stable(items).filter(|item: (i128, T)| item.0 == key) == items.filter(
            |item: (i128, T)| item.0 == key,
        ),
    decreases items.len(),
{
    let keyed = |item: (i128, T)| item.0 == key;
    if items.len() == 0 {
        assert(stable(items) =~= items);
    } else {
        let tail = items.drop_first();
        law_equal_keys_keep_their_order(tail, key);
        let rest = stable(tail);
        let v = items[0];
        let at = place_before(rest, v.0);
        lemma_place_before(rest, v.0);
        let low = rest.take(at);
        let high = rest.skip(at);
        let one = Seq::<(i128, T)>::empty().push(v);
        assert(stable(items) =~= low + (one + high));
        assert(rest =~= low + high);
        assert(items =~= one + tail);
        Seq::filter_distributes_over_add(low, one + high, keyed);
        Seq::filter_distributes_over_add(one, high, keyed);
        Seq::filter_distributes_over_add(low, high, keyed);
        Seq::filter_distributes_over_add(one, tail, keyed);
        if keyed(v) {
            low.lemma_filter_len(keyed);
            let chosen = low.filter(keyed);
            if chosen.len() > 0 {
                low.lemma_filter_pred(keyed, 0);
                assert(chosen.contains(chosen[0]));
                low.lemma_filter_contains_rev(keyed, chosen[0]);
                let m = choose|m: int| 0 <= m < low.len() && low[m] == chosen[0];
                assert(rest[m].0 < v.0);
            }
            assert(chosen =~= Seq::empty());
        } else {
            reveal(Seq::filter);
            assert(one.drop_last() =~= Seq::empty());
            assert(Seq::<(i128, T)>::empty().filter(keyed) =~= Seq::empty());
            assert(one.filter(keyed) =~= Seq::empty());
        }
        assert(stable(items).filter(keyed) =~= items.filter(keyed));
    }
}

/// What a sorted list holds was among the items.
pub proof fn lemma_stable_member<T>(items: Seq<(i128, T)>, k: int)
    requires
        0 <= k < stable(items).len(),
    ensures
        items.contains(stable(items)[k]),
{
    broadcast use vstd::seq_lib::group_to_multiset_ensures;

    law_stable_sorts(items);
    let sorted = stable(items);
    assert(sorted.contains(sorted[k]));
    assert(sorted.to_multiset().count(sorted[k]) > 0);
}

/// Sorts items by their keys.
pub fn sort_by_key<T>(items: Vec<(i128, T)>) -> (sorted: Vec<(i128, T)>)
    ensures
        sorted@ == stable(items@),
{
    let ghost all = items@;
    let mut left: Vec<(i128, T)> = items;
    let mut out: Vec<(i128, T)> = Vec::new();
    assert(all.skip(all.len() as int) =~= Seq::empty());
    assert(all.take(all.len() as int) =~= all);
    while left.len() > 0
        invariant
            left@.len() <= all.len(),
            left@ == all.take(left@.len() as int),
            out@ == stable(all.skip(left@.len() as int)),
        decreases left.len(),
    {
        let ghost n = left@.len() as int;
        if let Some(item) = left.pop() {
            let mut at: usize = 0;
            while at < out.len() && out[at].0 < item.0
                invariant
                    at <= out@.len(),
                    forall|k: int| 0 <= k < at ==> (#[trigger] out@[k]).0 < item.0,
                decreases out.len() - at,
            {
                at += 1;
            }
            proof {
                lemma_place_is(out@, item.0, at as int);
                let next = all.skip(n - 1);
                assert(next.drop_first() =~= all.skip(n));
                assert(next[0] == item);
                assert(left@ =~= all.take(n - 1));
            }
            out.insert(at, item);
        }
    }
    assert(all.skip(0) =~= all);
    out
}

} // verus!
