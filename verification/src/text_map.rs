//! A map with text keys, kept in key order.

use crate::names;
use crate::text;
use crate::text::{less, same};
use vstd::prelude::*;

verus! {

/// A map from texts to values. Keys are in increasing order, so that walking
/// the map is deterministic.
#[derive(Debug)]
pub struct TextMap<V> {
    /// The entries, in increasing order of their keys.
    pub entries: Vec<(String, V)>,
}

/// The keys of some entries.
pub open spec fn keys_of<V>(entries: Seq<(String, V)>) -> Seq<Seq<char>> {
    Seq::new(entries.len(), |i: int| entries[i].0@)
}

/// Whether keys are in strictly increasing order.
pub open spec fn ascending(keys: Seq<Seq<char>>) -> bool {
    forall|i: int, j: int|
        0 <= i < j < keys.len() ==> text::text_lt(#[trigger] keys[i], #[trigger] keys[j])
}

/// Ascending keys are distinct.
pub proof fn lemma_ascending_distinct(keys: Seq<Seq<char>>, i: int, j: int)
    requires
        ascending(keys),
        0 <= i < keys.len(),
        0 <= j < keys.len(),
        keys[i] == keys[j],
    ensures
        i == j,
{
    text::lemma_text_lt_irreflexive(keys[i]);
}

/// Two ascending lists with the same members are the same list.
pub proof fn lemma_ascending_unique(a: Seq<Seq<char>>, b: Seq<Seq<char>>)
    requires
        ascending(a),
        ascending(b),
        forall|k: Seq<char>| a.contains(k) <==> b.contains(k),
    ensures
        a == b,
    decreases a.len(),
{
    if a.len() == 0 {
        if b.len() > 0 {
            assert(b.contains(b[0]));
        }
        assert(a =~= b);
    } else {
        let x = a.last();
        assert(a.contains(x));
        assert(b.contains(x));
        let p = choose|p: int| 0 <= p < b.len() && b[p] == x;
        let y = b.last();
        assert(b.contains(y));
        assert(a.contains(y));
        let q = choose|q: int| 0 <= q < a.len() && a[q] == y;
        if x != y {
            assert(text::text_lt(b[p], b[b.len() - 1]));
            assert(text::text_lt(a[q], a[a.len() - 1]));
            text::lemma_text_lt_transitive(x, y, x);
            text::lemma_text_lt_irreflexive(x);
        }
        let af = a.drop_last();
        let bf = b.drop_last();
        assert forall|k: Seq<char>| af.contains(k) <==> bf.contains(k) by {
            if af.contains(k) {
                let i = choose|i: int| 0 <= i < af.len() && af[i] == k;
                assert(a[i] == k);
                assert(b.contains(k));
                let j = choose|j: int| 0 <= j < b.len() && b[j] == k;
                if j == b.len() - 1 {
                    lemma_ascending_distinct(a, i, a.len() - 1);
                }
                assert(bf[j] == k);
            }
            if bf.contains(k) {
                let i = choose|i: int| 0 <= i < bf.len() && bf[i] == k;
                assert(b[i] == k);
                assert(a.contains(k));
                let j = choose|j: int| 0 <= j < a.len() && a[j] == k;
                if j == a.len() - 1 {
                    lemma_ascending_distinct(b, i, b.len() - 1);
                }
                assert(af[j] == k);
            }
        }
        lemma_ascending_unique(af, bf);
        assert(a =~= af.push(x));
        assert(b =~= bf.push(y));
    }
}

/// The map that some entries describe.
pub open spec fn entries_map<V>(entries: Seq<(String, V)>) -> Map<Seq<char>, V> {
    Map::new(
        |k: Seq<char>| names::place(keys_of(entries), k) >= 0,
        |k: Seq<char>| entries[names::place(keys_of(entries), k)].1,
    )
}

impl<V> View for TextMap<V> {
    type V = Map<Seq<char>, V>;

    open spec fn view(&self) -> Map<Seq<char>, V> {
        entries_map(self.entries@)
    }
}

impl<V> TextMap<V> {
    /// Whether the keys are in increasing order.
    pub open spec fn well_formed(self) -> bool {
        ascending(keys_of(self.entries@))
    }

    /// What the entry at a place says of the map.
    pub proof fn lemma_entry(self, i: int)
        requires
            self.well_formed(),
            0 <= i < self.entries@.len(),
        ensures
            names::place(keys_of(self.entries@), self.entries@[i].0@) == i,
            self@.contains_key(self.entries@[i].0@),
            self@[self.entries@[i].0@] == self.entries@[i].1,
    {
        let keys = keys_of(self.entries@);
        assert forall|j: int| 0 <= j < i implies keys[j] != keys[i] by {
            if keys[j] == keys[i] {
                lemma_ascending_distinct(keys, j, i);
            }
        }
        names::lemma_place_is(keys, keys[i], i);
    }

    /// An empty map.
    pub fn new() -> (map: TextMap<V>)
        ensures
            map.well_formed(),
            map@ == Map::<Seq<char>, V>::empty(),
            map.entries@.len() == 0,
    {
        let map: TextMap<V> = TextMap { entries: Vec::new() };
        assert(map@ =~= Map::<Seq<char>, V>::empty()) by {
            assert forall|k: Seq<char>| !map@.contains_key(k) by {
                names::lemma_place(keys_of(map.entries@), k);
            }
        }
        map
    }

    /// The number of entries.
    pub fn len(&self) -> (n: usize)
        ensures
            n == self.entries@.len(),
    {
        self.entries.len()
    }

    /// Whether the map has no entry.
    pub fn is_empty(&self) -> (yes: bool)
        ensures
            yes == (self.entries@.len() == 0),
            self.well_formed() ==> yes == (self@ == Map::<Seq<char>, V>::empty()),
    {
        proof {
            if self.well_formed() {
                if self.entries@.len() > 0 {
                    self.lemma_entry(0);
                } else {
                    assert(self@ =~= Map::<Seq<char>, V>::empty()) by {
                        assert forall|k: Seq<char>| !self@.contains_key(k) by {
                            names::lemma_place(keys_of(self.entries@), k);
                        }
                    }
                }
            }
        }
        self.entries.len() == 0
    }

    /// The place of a key.
    pub fn index_of(&self, key: &str) -> (at: Option<usize>)
        ensures
            match at {
                Some(i) => i < self.entries@.len() && i == names::place(
                    keys_of(self.entries@),
                    key@,
                ),
                None => names::place(keys_of(self.entries@), key@) < 0,
            },
    {
        let ghost keys = keys_of(self.entries@);
        let mut i: usize = 0;
        while i < self.entries.len()
            invariant
                i <= self.entries@.len(),
                keys == keys_of(self.entries@),
                forall|j: int| 0 <= j < i ==> keys[j] != key@,
            decreases self.entries.len() - i,
        {
            if same(self.entries[i].0.as_str(), key) {
                proof {
                    names::lemma_place_is(keys, key@, i as int);
                }
                return Some(i);
            }
            i += 1;
        }
        proof {
            names::lemma_place(keys, key@);
        }
        None
    }

    /// The value of a key.
    pub fn get(&self, key: &str) -> (value: Option<&V>)
        ensures
            match value {
                Some(v) => self@.contains_key(key@) && *v == self@[key@],
                None => !self@.contains_key(key@),
            },
    {
        match self.index_of(key) {
            Some(i) => Some(&self.entries[i].1),
            None => None,
        }
    }

    /// Whether the map has a key.
    pub fn contains_key(&self, key: &str) -> (yes: bool)
        ensures
            yes == self@.contains_key(key@),
    {
        self.index_of(key).is_some()
    }

    /// Sets the value of a key, in place of any value it had.
    pub fn insert(&mut self, key: String, value: V)
        requires
            old(self).well_formed(),
        ensures
            final(self).well_formed(),
            final(self)@ == old(self)@.insert(key@, value),
    {
        let ghost before = self.entries@;
        let ghost keys = keys_of(before);
        let ghost old_map = self@;
        match self.index_of(key.as_str()) {
            Some(i) => {
                self.entries.set(i, (key, value));
                proof {
                    names::lemma_place(keys, key@);
                    assert(keys_of(self.entries@) =~= keys);
                    assert(self@ =~= old_map.insert(key@, value)) by {
                        assert forall|k: Seq<char>| k != key@ && names::place(keys, k) >= 0 implies
                        names::place(keys, k) != i by {
                            names::lemma_place(keys, k);
                        }
                        assert forall|k: Seq<char>| self@.contains_key(k) implies self@[k]
                            == old_map.insert(key@, value)[k] by {
                            names::lemma_place(keys, k);
                        }
                    }
                }
            },
            None => {
                let mut at: usize = 0;
                while at < self.entries.len() && less(self.entries[at].0.as_str(), key.as_str())
                    invariant
                        at <= self.entries@.len(),
                        self.entries@ == before,
                        keys == keys_of(before),
                        forall|j: int| 0 <= j < at ==> text::text_lt(#[trigger] keys[j], key@),
                    decreases self.entries.len() - at,
                {
                    at += 1;
                }
                self.entries.insert(at, (key, value));
                proof {
                    names::lemma_place(keys, key@);
                    lemma_inserted(before, at as int, key, value);
                }
            },
        }
    }

    /// Takes a key out of the map and gives its value.
    pub fn remove(&mut self, key: &str) -> (value: Option<V>)
        requires
            old(self).well_formed(),
        ensures
            final(self).well_formed(),
            final(self)@ == old(self)@.remove(key@),
            match value {
                Some(v) => old(self)@.contains_key(key@) && v == old(self)@[key@],
                None => !old(self)@.contains_key(key@) && *final(self) == *old(self),
            },
    {
        let ghost before = self.entries@;
        let ghost old_map = self@;
        match self.index_of(key) {
            Some(i) => {
                let entry = self.entries.remove(i);
                proof {
                    names::lemma_place(keys_of(before), key@);
                    lemma_removed(before, i as int, key@);
                }
                Some(entry.1)
            },
            None => {
                assert(old_map.remove(key@) =~= old_map);
                None
            },
        }
    }

    /// The keys, in increasing order.
    pub fn keys(&self) -> (list: Vec<String>)
        ensures
            text::texts(list@) == keys_of(self.entries@),
    {
        let mut out: Vec<String> = Vec::new();
        let mut i: usize = 0;
        while i < self.entries.len()
            invariant
                i <= self.entries@.len(),
                out@.len() == i,
                forall|j: int| 0 <= j < i ==> (#[trigger] out@[j])@ == self.entries@[j].0@,
            decreases self.entries.len() - i,
        {
            out.push(self.entries[i].0.clone());
            i += 1;
        }
        assert(text::texts(out@) =~= keys_of(self.entries@));
        out
    }
}

/// The keys of a map are the members of its domain.
pub proof fn law_keys_are_the_domain<V>(map: TextMap<V>, k: Seq<char>)
    ensures
        keys_of(map.entries@).contains(k) <==> map@.contains_key(k),
{
    let keys = keys_of(map.entries@);
    names::lemma_place(keys, k);
    if names::place(keys, k) >= 0 {
        assert(keys[names::place(keys, k)] == k);
    }
}

proof fn lemma_inserted<V>(before: Seq<(String, V)>, at: int, key: String, value: V)
    requires
        ascending(keys_of(before)),
        0 <= at <= before.len(),
        forall|j: int| 0 <= j < at ==> text::text_lt(#[trigger] keys_of(before)[j], key@),
        at < before.len() ==> !text::text_lt(keys_of(before)[at], key@),
        forall|j: int| 0 <= j < before.len() ==> keys_of(before)[j] != key@,
    ensures
        ascending(keys_of(before.insert(at, (key, value)))),
        entries_map(before.insert(at, (key, value))) == entries_map(before).insert(key@, value),
{
    let keys = keys_of(before);
    let later = before.insert(at, (key, value));
    let lk = keys_of(later);
    assert(lk =~= keys.insert(at, key@));
    assert forall|i: int, j: int| 0 <= i < j < lk.len() implies text::text_lt(
        #[trigger] lk[i],
        #[trigger] lk[j],
    ) by {
        if j == at {
            assert(lk[i] == keys[i]);
        } else if i == at {
            text::lemma_text_lt_total(key@, keys[at]);
            assert(text::text_lt(key@, keys[at]));
            if j - 1 > at {
                assert(text::text_lt(keys[at], keys[j - 1]));
                text::lemma_text_lt_transitive(key@, keys[at], keys[j - 1]);
            }
        } else {
            let a = if i < at {
                i
            } else {
                i - 1
            };
            let b = if j < at {
                j
            } else {
                j - 1
            };
            assert(lk[i] == keys[a] && lk[j] == keys[b]);
        }
    }
    let m = entries_map(before).insert(key@, value);
    let n = entries_map(later);
    assert forall|k: Seq<char>| #![trigger n.dom().contains(k)] #![trigger m.dom().contains(k)]
        n.dom().contains(k) == m.dom().contains(k) && (n.dom().contains(k) ==> n[k] == m[k]) by {
        names::lemma_place(lk, k);
        names::lemma_place(keys, k);
        let p = names::place(lk, k);
        let q = names::place(keys, k);
        if k == key@ {
            assert(lk[at] == k);
            if p >= 0 && p != at {
                lemma_ascending_distinct(lk, p, at);
            }
        } else {
            if q >= 0 {
                let r = if q < at {
                    q
                } else {
                    q + 1
                };
                assert(lk[r] == k);
                if p >= 0 && p != r {
                    lemma_ascending_distinct(lk, p, r);
                }
                assert(later[r] == before[q]);
            }
            if p >= 0 && q < 0 {
                let r = if p < at {
                    p
                } else {
                    p - 1
                };
                if p != at {
                    assert(keys[r] == k);
                }
            }
        }
    }
    assert(n =~= m);
}

proof fn lemma_removed<V>(before: Seq<(String, V)>, at: int, key: Seq<char>)
    requires
        ascending(keys_of(before)),
        0 <= at < before.len(),
        keys_of(before)[at] == key,
    ensures
        ascending(keys_of(before.remove(at))),
        entries_map(before.remove(at)) == entries_map(before).remove(key),
{
    let keys = keys_of(before);
    let later = before.remove(at);
    let lk = keys_of(later);
    assert(lk =~= keys.remove(at));
    assert forall|i: int, j: int| 0 <= i < j < lk.len() implies text::text_lt(
        #[trigger] lk[i],
        #[trigger] lk[j],
    ) by {
        let a = if i < at {
            i
        } else {
            i + 1
        };
        let b = if j < at {
            j
        } else {
            j + 1
        };
        assert(lk[i] == keys[a] && lk[j] == keys[b]);
    }
    let m = entries_map(before).remove(key);
    let n = entries_map(later);
    assert forall|k: Seq<char>| #![trigger n.dom().contains(k)] #![trigger m.dom().contains(k)]
        n.dom().contains(k) == m.dom().contains(k) && (n.dom().contains(k) ==> n[k] == m[k]) by {
        names::lemma_place(lk, k);
        names::lemma_place(keys, k);
        let p = names::place(lk, k);
        let q = names::place(keys, k);
        if p >= 0 {
            let r = if p < at {
                p
            } else {
                p + 1
            };
            assert(keys[r] == k);
            assert(later[p] == before[r]);
            if k == key {
                lemma_ascending_distinct(keys, r, at);
            }
            if q >= 0 && q != r {
                lemma_ascending_distinct(keys, q, r);
            }
        } else if q >= 0 && k != key {
            let r = if q < at {
                q
            } else {
                q - 1
            };
            assert(lk[r] == k);
        }
    }
    assert(n =~= m);
}

/// Whether a list holds a key, in terms of its entries.
pub proof fn lemma_map_has<V>(entries: Seq<(String, V)>, i: int)
    requires
        ascending(keys_of(entries)),
        0 <= i < entries.len(),
    ensures
        entries_map(entries).contains_key(entries[i].0@),
        entries_map(entries)[entries[i].0@] == entries[i].1,
        names::place(keys_of(entries), entries[i].0@) == i,
{
    let keys = keys_of(entries);
    assert forall|j: int| 0 <= j < i implies keys[j] != keys[i] by {
        if keys[j] == keys[i] {
            lemma_ascending_distinct(keys, j, i);
        }
    }
    names::lemma_place_is(keys, keys[i], i);
}

proof fn lemma_kept_ascends<V>(entries: Seq<(String, V)>, keep: spec_fn((String, V)) -> bool)
    requires
        ascending(keys_of(entries)),
    ensures
        ascending(keys_of(entries.filter(keep))),
        forall|j: int|
            0 <= j < entries.filter(keep).len() ==> entries.contains(
                #[trigger] entries.filter(keep)[j],
            ),
    decreases entries.len(),
{
    reveal(Seq::filter);
    if entries.len() > 0 {
        let front = entries.drop_last();
        assert(keys_of(front) =~= keys_of(entries).drop_last());
        lemma_kept_ascends(front, keep);
        let prev = front.filter(keep);
        let list = entries.filter(keep);
        assert forall|j: int| 0 <= j < list.len() implies entries.contains(#[trigger] list[j]) by {
            if j < prev.len() {
                assert(front.contains(prev[j]));
                let m = choose|m: int| 0 <= m < front.len() && front[m] == prev[j];
                assert(entries[m] == list[j]);
            } else {
                assert(entries[entries.len() - 1] == list[j]);
            }
        }
        assert forall|i: int, j: int| 0 <= i < j < list.len() implies text::text_lt(
            #[trigger] keys_of(list)[i],
            #[trigger] keys_of(list)[j],
        ) by {
            assert(list[i] == prev[i]);
            assert(keys_of(prev)[i] == keys_of(list)[i]);
            if j < prev.len() {
                assert(keys_of(prev)[j] == keys_of(list)[j]);
            } else {
                assert(front.contains(prev[i]));
                let m = choose|m: int| 0 <= m < front.len() && front[m] == prev[i];
                assert(keys_of(entries)[m] == keys_of(list)[i]);
                assert(keys_of(entries)[entries.len() - 1] == keys_of(list)[j]);
            }
        }
    }
}

/// What keeping some entries does to a map.
pub proof fn lemma_kept<V>(
    entries: Seq<(String, V)>,
    keep: spec_fn((String, V)) -> bool,
    k: Seq<char>,
)
    requires
        ascending(keys_of(entries)),
    ensures
        ascending(keys_of(entries.filter(keep))),
        entries_map(entries.filter(keep)).contains_key(k) <==> entries_map(entries).contains_key(k)
            && keep(entries[names::place(keys_of(entries), k)]),
        entries_map(entries.filter(keep)).contains_key(k) ==> entries_map(entries.filter(keep))[k]
            == entries_map(entries)[k],
{
    let list = entries.filter(keep);
    lemma_kept_ascends(entries, keep);
    names::lemma_place(keys_of(entries), k);
    names::lemma_place(keys_of(list), k);
    let p = names::place(keys_of(list), k);
    if p >= 0 {
        assert(entries.contains(list[p]));
        let m = choose|m: int| 0 <= m < entries.len() && entries[m] == list[p];
        assert(keys_of(list)[p] == list[p].0@);
        lemma_map_has(entries, m);
        entries.lemma_filter_pred(keep, p);
    }
    let q = names::place(keys_of(entries), k);
    if q >= 0 && keep(entries[q]) {
        entries.lemma_filter_contains(keep, q);
        let m = choose|m: int| 0 <= m < list.len() && list[m] == entries[q];
        assert(keys_of(entries)[q] == entries[q].0@);
        lemma_map_has(list, m);
    }
}

} // verus!
