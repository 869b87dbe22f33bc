//! A map that is kept as a list of its entries.

use vstd::prelude::*;

use crate::text::same_text;

verus! {

/// What a map can be asked for.
pub trait MapKey: Sized {
    /// What two equal keys have in common.
    type Model;

    spec fn model(&self) -> Self::Model;

    fn same(&self, other: &Self) -> (r: bool)
        ensures
            r == (self.model() == other.model()),
    ;
}

impl MapKey for String {
    type Model = Seq<char>;

    open spec fn model(&self) -> Seq<char> {
        self@
    }

    fn same(&self, other: &String) -> bool {
        same_text(self.as_str(), other.as_str())
    }
}

impl MapKey for Option<u32> {
    type Model = Option<u32>;

    open spec fn model(&self) -> Option<u32> {
        *self
    }

    fn same(&self, other: &Option<u32>) -> bool {
        match (self, other) {
            (Some(a), Some(b)) => *a == *b,
            (None, None) => true,
            _ => false,
        }
    }
}

/// A map whose keys occur once each.
#[derive(Debug)]
pub struct VecMap<K, V> {
    entries: Vec<(K, V)>,
}

/// The map that entries make one after the other; of those with one key the last counts.
pub open spec fn entries_map<K: MapKey, V>(entries: Seq<(K, V)>, n: nat) -> Map<K::Model, V>
    decreases n,
{
    if n == 0 {
        Map::empty()
    } else {
        entries_map(entries, (n - 1) as nat).insert(entries[n - 1].0.model(), entries[n - 1].1)
    }
}

spec fn distinct<K: MapKey, V>(entries: Seq<(K, V)>) -> bool {
    forall|i: int, j: int|
        #![trigger entries[i], entries[j]]
        0 <= i < j < entries.len() ==> entries[i].0.model() != entries[j].0.model()
}

proof fn lemma_entries<K: MapKey, V>(entries: Seq<(K, V)>, n: nat)
    requires
        n <= entries.len(),
        distinct(entries),
    ensures
        entries_map(entries, n).dom().finite(),
        entries_map(entries, n).len() == n,
        forall|i: int|
            0 <= i < n ==> #[trigger] entries_map(entries, n).contains_key(entries[i].0.model()) && entries_map(
                entries,
                n,
            )[entries[i].0.model()] == entries[i].1,
        forall|k: K::Model|
            #[trigger] entries_map(entries, n).contains_key(k) ==> exists|i: int|
                0 <= i < n && (#[trigger] entries[i]).0.model() == k,
    decreases n,
{
    if n > 0 {
        let m = (n - 1) as nat;
        lemma_entries(entries, m);
        let before = entries_map(entries, m);
        let key = entries[n - 1].0.model();
        if before.contains_key(key) {
            let i = choose|i: int| 0 <= i < m && (#[trigger] entries[i]).0.model() == key;
            assert(false);
        }
        assert forall|i: int| 0 <= i < n implies #[trigger] entries_map(entries, n).contains_key(
            entries[i].0.model(),
        ) && entries_map(entries, n)[entries[i].0.model()] == entries[i].1 by {
            if i < m {
                assert(before.contains_key(entries[i].0.model()));
            }
        }
        assert forall|k: K::Model| #[trigger] entries_map(entries, n).contains_key(k) implies exists|i: int|
            0 <= i < n && (#[trigger] entries[i]).0.model() == k by {
            if k == key {
                assert(entries[n - 1].0.model() == k);
            } else {
                assert(before.contains_key(k));
            }
        }
    }
}

impl<K: MapKey, V> View for VecMap<K, V> {
    type V = Map<K::Model, V>;

    closed spec fn view(&self) -> Map<K::Model, V> {
        entries_map(self.entries@, self.entries@.len())
    }
}

impl<K: MapKey, V> VecMap<K, V> {
    pub closed spec fn wf(&self) -> bool {
        distinct(self.entries@)
    }

    pub fn new() -> (r: Self)
        ensures
            r.wf(),
            r@ == Map::<K::Model, V>::empty(),
    {
        VecMap { entries: Vec::new() }
    }

    pub fn len(&self) -> (r: usize)
        requires
            self.wf(),
        ensures
            r == self@.len(),
            self@.dom().finite(),
    {
        proof {
            lemma_entries(self.entries@, self.entries@.len());
        }
        self.entries.len()
    }

    /// The entries, each key once.
    pub fn entries(&self) -> (r: &Vec<(K, V)>)
        requires
            self.wf(),
        ensures
            entries_map(r@, r@.len()) == self@,
            r@.len() == self@.len(),
    {
        proof {
            lemma_entries(self.entries@, self.entries@.len());
        }
        &self.entries
    }

    /// The map that entries make one after the other.
    pub fn from_entries(entries: Vec<(K, V)>) -> (r: Self)
        ensures
            r.wf(),
            r@ == entries_map(entries@, entries@.len()),
    {
        let ghost all = entries@;
        let total: usize = entries.len();
        let mut rest = entries;
        let mut r: VecMap<K, V> = VecMap::new();
        let mut n: usize = 0;
        while n < total
            invariant
                n <= total,
                total == all.len(),
                rest@ == all.skip(n as int),
                r.wf(),
                r@ == entries_map(all, n as nat),
            decreases total - n,
        {
            let (key, value) = rest.remove(0);
            assert(all.skip(n as int)[0] == all[n as int]);
            assert(rest@ =~= all.skip(n + 1));
            r.insert(key, value);
            n += 1;
        }
        r
    }

    fn position(&self, key: &K) -> (r: Option<usize>)
        requires
            self.wf(),
        ensures
            r matches Some(i) ==> i < self.entries@.len() && self.entries@[i as int].0.model() == key.model(),
            r is None ==> forall|i: int|
                0 <= i < self.entries@.len() ==> (#[trigger] self.entries@[i]).0.model() != key.model(),
    {
        let mut i: usize = 0;
        while i < self.entries.len()
            invariant
                i <= self.entries@.len(),
                forall|j: int| 0 <= j < i ==> (#[trigger] self.entries@[j]).0.model() != key.model(),
            decreases self.entries.len() - i,
        {
            if self.entries[i].0.same(key) {
                return Some(i);
            }
            i += 1;
        }
        None
    }

    pub fn get(&self, key: &K) -> (r: Option<&V>)
        requires
            self.wf(),
        ensures
            r == (if self@.contains_key(key.model()) {
                Some(&self@[key.model()])
            } else {
                None
            }),
    {
        proof {
            lemma_entries(self.entries@, self.entries@.len());
        }
        match self.position(key) {
            Some(i) => {
                assert(self@.contains_key(self.entries@[i as int].0.model()));
                Some(&self.entries[i].1)
            },
            None => None,
        }
    }

    pub fn insert(&mut self, key: K, value: V)
        requires
            old(self).wf(),
        ensures
            final(self).wf(),
            final(self)@ == old(self)@.insert(key.model(), value),
    {
        self.remove(&key);
        let ghost before = self.entries@;
        proof {
            lemma_entries(before, before.len());
        }
        let ghost model = key.model();
        self.entries.push((key, value));
        proof {
            assert forall|i: int, j: int| #![trigger self.entries@[i], self.entries@[j]] 0 <= i < j
                < self.entries@.len() implies self.entries@[i].0.model() != self.entries@[j].0.model() by {
                if j == before.len() {
                    assert(self.entries@[i] == before[i]);
                    assert(entries_map(before, before.len()).contains_key(before[i].0.model()));
                } else {
                    assert(self.entries@[i] == before[i] && self.entries@[j] == before[j]);
                }
            }
            lemma_same_prefix(before, self.entries@, before.len());
            assert(old(self)@.remove(model).insert(model, value) =~= old(self)@.insert(model, value));
        }
    }

    pub fn remove(&mut self, key: &K) -> (r: Option<V>)
        requires
            old(self).wf(),
        ensures
            final(self).wf(),
            final(self)@ == old(self)@.remove(key.model()),
            r == (if old(self)@.contains_key(key.model()) {
                Some(old(self)@[key.model()])
            } else {
                None
            }),
    {
        let ghost before = self.entries@;
        proof {
            lemma_entries(before, before.len());
        }
        match self.position(key) {
            Some(i) => {
                let (_, value) = self.entries.remove(i);
                proof {
                    let after = self.entries@;
                    assert(after =~= before.remove(i as int));
                    assert forall|a: int, b: int| #![trigger after[a], after[b]] 0 <= a < b < after.len() implies after[a].0.model()
                        != after[b].0.model() by {
                        let x = if a < i { a } else { a + 1 };
                        let y = if b < i { b } else { b + 1 };
                        assert(after[a] == before[x] && after[b] == before[y]);
                    }
                    lemma_entries(after, after.len());
                    let was = entries_map(before, before.len());
                    let now = entries_map(after, after.len());
                    assert(was.contains_key(before[i as int].0.model()));
                    assert forall|k: K::Model| now.contains_key(k) <==> was.remove(key.model()).contains_key(k) by {
                        if now.contains_key(k) {
                            let a = choose|a: int| 0 <= a < after.len() && (#[trigger] after[a]).0.model() == k;
                            let x = if a < i { a } else { a + 1 };
                            assert(after[a] == before[x]);
                            assert(was.contains_key(before[x].0.model()));
                            assert(before[x].0.model() != before[i as int].0.model());
                        }
                        if was.contains_key(k) && k != key.model() {
                            let x = choose|x: int| 0 <= x < before.len() && (#[trigger] before[x]).0.model() == k;
                            let a = if x < i { x } else { x - 1 };
                            assert(after[a] == before[x]);
                            assert(now.contains_key(after[a].0.model()));
                        }
                    }
                    assert forall|k: K::Model| now.contains_key(k) implies now[k] == was[k] by {
                        let a = choose|a: int| 0 <= a < after.len() && (#[trigger] after[a]).0.model() == k;
                        let x = if a < i { a } else { a + 1 };
                        assert(after[a] == before[x]);
                        assert(now.contains_key(after[a].0.model()));
                        assert(was.contains_key(before[x].0.model()));
                    }
                    assert(now =~= was.remove(key.model()));
                }
                Some(value)
            },
            None => {
                proof {
                    let was = entries_map(before, before.len());
                    if was.contains_key(key.model()) {
                        let x = choose|x: int| 0 <= x < before.len() && (#[trigger] before[x]).0.model() == key.model();
                        assert(false);
                    }
                    assert(was.remove(key.model()) =~= was);
                }
                None
            },
        }
    }

    /// One of the keys whose values are wanted, where there is one.
    pub(crate) fn find<F: Fn(&V) -> bool>(&self, wanted: F, Ghost(is_wanted): Ghost<spec_fn(V) -> bool>) -> (r: Option<&K>)
        requires
            self.wf(),
            forall|v: &V| call_requires(wanted, (v,)),
            forall|v: &V, b: bool| call_ensures(wanted, (v,), b) ==> b == is_wanted(*v),
        ensures
            r matches Some(k) ==> self@.contains_key(k.model()) && is_wanted(self@[k.model()]),
            r is None ==> forall|k: K::Model| #[trigger] self@.contains_key(k) ==> !is_wanted(self@[k]),
    {
        proof {
            lemma_entries(self.entries@, self.entries@.len());
        }
        let mut i: usize = 0;
        while i < self.entries.len()
            invariant
                i <= self.entries@.len(),
                forall|v: &V| call_requires(wanted, (v,)),
                forall|v: &V, b: bool| call_ensures(wanted, (v,), b) ==> b == is_wanted(*v),
                forall|j: int| 0 <= j < i ==> !is_wanted((#[trigger] self.entries@[j]).1),
                forall|j: int|
                    0 <= j < self.entries@.len() ==> #[trigger] self@.contains_key(self.entries@[j].0.model())
                        && self@[self.entries@[j].0.model()] == self.entries@[j].1,
            decreases self.entries.len() - i,
        {
            if wanted(&self.entries[i].1) {
                assert(self@.contains_key(self.entries@[i as int].0.model()));
                return Some(&self.entries[i].0);
            }
            i += 1;
        }
        proof {
            assert forall|k: K::Model| #[trigger] self@.contains_key(k) implies !is_wanted(self@[k]) by {
                let j = choose|j: int| 0 <= j < self.entries@.len() && (#[trigger] self.entries@[j]).0.model() == k;
                assert(self@.contains_key(self.entries@[j].0.model()));
            }
        }
        None
    }
}

proof fn lemma_same_prefix<K: MapKey, V>(a: Seq<(K, V)>, b: Seq<(K, V)>, n: nat)
    requires
        n <= a.len(),
        n <= b.len(),
        forall|i: int| 0 <= i < n ==> a[i] == b[i],
    ensures
        entries_map(a, n) == entries_map(b, n),
    decreases n,
{
    if n > 0 {
        lemma_same_prefix(a, b, (n - 1) as nat);
    }
}

/// Of entries with one key the last one counts, and only keys of entries are there.
pub proof fn the_last_entry_counts<K: MapKey, V>(entries: Seq<(K, V)>, n: nat, key: K::Model)
    requires
        n <= entries.len(),
    ensures
        entries_map(entries, n).contains_key(key) <==> exists|i: int|
            0 <= i < n && (#[trigger] entries[i]).0.model() == key,
        forall|i: int|
            0 <= i < n && (#[trigger] entries[i]).0.model() == key && (forall|j: int|
                i < j < n ==> (#[trigger] entries[j]).0.model() != key) ==> entries_map(entries, n)[key] == entries[i].1,
    decreases n,
{
    if n > 0 {
        the_last_entry_counts(entries, (n - 1) as nat, key);
        assert forall|i: int|
            0 <= i < n && (#[trigger] entries[i]).0.model() == key && (forall|j: int|
                i < j < n ==> (#[trigger] entries[j]).0.model() != key) implies entries_map(entries, n)[key]
            == entries[i].1 by {
            if i < n - 1 {
                assert(entries[n - 1].0.model() != key);
            }
        }
        if entries_map(entries, (n - 1) as nat).contains_key(key) {
            let i = choose|i: int| 0 <= i < n - 1 && (#[trigger] entries[i]).0.model() == key;
            assert(entries[i].0.model() == key);
        }
        if entries[n - 1].0.model() == key {
            assert(entries_map(entries, n).contains_key(key));
        }
    }
}

}
