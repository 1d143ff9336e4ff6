//! A map that keeps its entries sorted by key and finds the nearest key from a bound on.

use crate::resource::Resource;
use vstd::prelude::*;

verus! {

/// A key that sorts by a pair of numbers.
pub trait SortKey: Copy {
    /// The pair by which the key sorts, its first number before its second.
    spec fn rank(self) -> (nat, nat);

    /// Keys of one rank are one key.
    proof fn rank_is_injective(a: Self, b: Self)
        requires
            a.rank() == b.rank(),
        ensures
            a == b,
    ;

    /// Whether the key sorts strictly before another.
    fn precedes(&self, other: &Self) -> (b: bool)
        ensures
            b == before(self.rank(), other.rank()),
    ;
}

/// The lexicographic order of ranks.
pub open spec fn before(a: (nat, nat), b: (nat, nat)) -> bool {
    a.0 < b.0 || (a.0 == b.0 && a.1 < b.1)
}

impl SortKey for Resource {
    open spec fn rank(self) -> (nat, nat) {
        (self.size as nat, self.ptr as nat)
    }

    proof fn rank_is_injective(a: Self, b: Self) {
    }

    fn precedes(&self, other: &Self) -> (b: bool) {
        self.size < other.size || (self.size == other.size && self.ptr < other.ptr)
    }
}

/// A map from `K` to `V`, viewed as a `Map`. No key occurs twice.
pub struct OrderedMap<K: SortKey, V> {
    entries: Vec<(K, V)>,
}

impl<K: SortKey, V> View for OrderedMap<K, V> {
    type V = Map<K, V>;

    closed spec fn view(&self) -> Map<K, V> {
        Map::new(
            |k: K| exists|i: int| 0 <= i < self.entries@.len() && #[trigger] self.entries@[i].0 == k,
            |k: K|
                self.entries@[choose|i: int|
                    0 <= i < self.entries@.len() && #[trigger] self.entries@[i].0 == k].1,
        )
    }
}

/// `k` is the least key of a map that does not sort before `bound`.
pub open spec fn is_first_at_least<K: SortKey, V>(m: Map<K, V>, bound: K, k: K) -> bool {
    &&& m.contains_key(k)
    &&& !before(k.rank(), bound.rank())
    &&& forall|o: K| #[trigger]
        m.contains_key(o) && !before(o.rank(), bound.rank()) ==> !before(o.rank(), k.rank())
}

impl<K: SortKey, V> OrderedMap<K, V> {
    /// The entries ascend strictly.
    pub closed spec fn wf(self) -> bool {
        forall|i: int, j: int|
            0 <= i < j < self.entries@.len() ==> before(
                #[trigger] self.entries@[i].0.rank(),
                #[trigger] self.entries@[j].0.rank(),
            )
    }

    /// The view holds exactly the entries.
    proof fn lemma_entries(self)
        requires
            self.wf(),
        ensures
            forall|i: int|
                0 <= i < self.entries@.len() ==> {
                    &&& self@.contains_key(#[trigger] self.entries@[i].0)
                    &&& self@[self.entries@[i].0] == self.entries@[i].1
                },
            forall|k: K| #[trigger]
                self@.contains_key(k) ==> exists|i: int|
                    0 <= i < self.entries@.len() && #[trigger] self.entries@[i].0 == k,
    {
        assert forall|i: int| 0 <= i < self.entries@.len() implies {
            &&& self@.contains_key(#[trigger] self.entries@[i].0)
            &&& self@[self.entries@[i].0] == self.entries@[i].1
        } by {
            let k = self.entries@[i].0;
            let j = choose|j: int|
                0 <= j < self.entries@.len() && #[trigger] self.entries@[j].0 == k;
            assert(self.entries@[i].0.rank() == self.entries@[j].0.rank());
            assert(i == j);
        }
    }

    pub fn new() -> (m: Self)
        ensures
            m.wf(),
            m@ == Map::<K, V>::empty(),
    {
        let m: Self = OrderedMap { entries: Vec::new() };
        assert(m@ =~= Map::<K, V>::empty());
        m
    }

    /// The number of entries whose key sorts before `key`.
    fn locate(&self, key: &K) -> (pos: usize)
        requires
            self.wf(),
        ensures
            pos <= self.entries@.len(),
            forall|i: int|
                0 <= i < pos ==> before(#[trigger] self.entries@[i].0.rank(), key.rank()),
            forall|i: int|
                pos <= i < self.entries@.len() ==> !before(
                    #[trigger] self.entries@[i].0.rank(),
                    key.rank(),
                ),
    {
        let mut lo: usize = 0;
        let mut hi: usize = self.entries.len();
        while lo < hi
            invariant
                self.wf(),
                lo <= hi <= self.entries@.len(),
                forall|i: int|
                    0 <= i < lo ==> before(#[trigger] self.entries@[i].0.rank(), key.rank()),
                forall|i: int|
                    hi <= i < self.entries@.len() ==> !before(
                        #[trigger] self.entries@[i].0.rank(),
                        key.rank(),
                    ),
            decreases hi - lo,
        {
            let mid: usize = lo + (hi - lo) / 2;
            if self.entries[mid].0.precedes(key) {
                assert forall|i: int| 0 <= i <= mid implies before(
                    #[trigger] self.entries@[i].0.rank(),
                    key.rank(),
                ) by {
                    if i < mid {
                        assert(before(self.entries@[i].0.rank(), self.entries@[mid as int].0.rank()));
                    }
                }
                lo = mid + 1;
            } else {
                assert forall|i: int| mid <= i < self.entries@.len() implies !before(
                    #[trigger] self.entries@[i].0.rank(),
                    key.rank(),
                ) by {
                    if mid < i {
                        assert(before(self.entries@[mid as int].0.rank(), self.entries@[i].0.rank()));
                    }
                }
                hi = mid;
            }
        }
        lo
    }

    /// Where `key` is, if it is there: at the position that `locate` gives, and nowhere else.
    fn find(&self, key: &K) -> (found: (usize, bool))
        requires
            self.wf(),
        ensures
            found.0 <= self.entries@.len(),
            forall|i: int|
                0 <= i < found.0 ==> before(#[trigger] self.entries@[i].0.rank(), key.rank()),
            found.1 ==> found.0 < self.entries@.len() && self.entries@[found.0 as int].0 == *key,
            !found.1 ==> forall|i: int|
                found.0 <= i < self.entries@.len() ==> before(
                    key.rank(),
                    #[trigger] self.entries@[i].0.rank(),
                ),
            found.1 == self@.contains_key(*key),
            found.1 ==> self@[*key] == self.entries@[found.0 as int].1,
    {
        let pos: usize = self.locate(key);
        let present: bool = pos < self.entries.len() && !key.precedes(&self.entries[pos].0);
        proof {
            self.lemma_entries();
            if present {
                K::rank_is_injective(self.entries@[pos as int].0, *key);
            } else {
                assert forall|i: int| pos <= i < self.entries@.len() implies before(
                    key.rank(),
                    #[trigger] self.entries@[i].0.rank(),
                ) by {
                    if pos < i {
                        assert(before(self.entries@[pos as int].0.rank(), self.entries@[i].0.rank()));
                    }
                }
                if self@.contains_key(*key) {
                    let i = choose|i: int|
                        0 <= i < self.entries@.len() && #[trigger] self.entries@[i].0 == *key;
                    assert(self.entries@[i].0.rank() == key.rank());
                }
            }
        }
        (pos, present)
    }

    /// Puts `value` under `key`, and hands back what was there before.
    pub fn insert(&mut self, key: K, value: V) -> (previous: Option<V>)
        requires
            old(self).wf(),
        ensures
            final(self).wf(),
            final(self)@ == old(self)@.insert(key, value),
            previous == (if old(self)@.contains_key(key) {
                Some(old(self)@[key])
            } else {
                None
            }),
    {
        let found: (usize, bool) = self.find(&key);
        let pos: usize = found.0;
        let mut previous: Option<V> = None;
        if found.1 {
            let entry: (K, V) = self.entries.remove(pos);
            previous = Some(entry.1);
        }
        self.entries.insert(pos, (key, value));
        proof {
            let before_call = old(self).entries@;
            let after = self.entries@;
            let skipped: int = if found.1 { 1 } else { 0 };
            assert forall|i: int| 0 <= i < after.len() implies #[trigger] after[i] == (if i < pos {
                before_call[i]
            } else if i == pos {
                (key, value)
            } else {
                before_call[i - 1 + skipped]
            }) by {}
            assert(self.wf());
            self.lemma_entries();
            old(self).lemma_entries();
            assert forall|k: K| #[trigger]
                self@.contains_key(k) <==> old(self)@.insert(key, value).contains_key(k) by {
                if old(self)@.contains_key(k) && k != key {
                    let i = choose|i: int|
                        0 <= i < before_call.len() && #[trigger] before_call[i].0 == k;
                    if i < pos {
                        assert(after[i].0 == k);
                    } else {
                        assert(after[i + 1 - skipped].0 == k);
                    }
                }
                if k == key {
                    assert(after[pos as int].0 == k);
                }
            }
            assert forall|k: K| #[trigger] self@.contains_key(k) implies self@[k] == old(
                self,
            )@.insert(key, value)[k] by {
                let i = choose|i: int| 0 <= i < after.len() && #[trigger] after[i].0 == k;
                if i < pos {
                    assert(before(after[i].0.rank(), after[pos as int].0.rank()));
                    assert(before_call[i].0 == k);
                } else if i > pos {
                    assert(before(after[pos as int].0.rank(), after[i].0.rank()));
                    assert(before_call[i - 1 + skipped].0 == k);
                }
            }
            assert(self@ =~= old(self)@.insert(key, value));
        }
        previous
    }

    /// Takes out what is under `key`.
    pub fn remove(&mut self, key: &K) -> (removed: Option<V>)
        requires
            old(self).wf(),
        ensures
            final(self).wf(),
            final(self)@ == old(self)@.remove(*key),
            removed == (if old(self)@.contains_key(*key) {
                Some(old(self)@[*key])
            } else {
                None
            }),
    {
        let found: (usize, bool) = self.find(key);
        if !found.1 {
            assert(self@ =~= old(self)@.remove(*key));
            return None;
        }
        let entry: (K, V) = self.entries.remove(found.0);
        proof {
            let pos = found.0 as int;
            let before_call = old(self).entries@;
            let after = self.entries@;
            assert forall|i: int| 0 <= i < after.len() implies #[trigger] after[i] == (if i < pos {
                before_call[i]
            } else {
                before_call[i + 1]
            }) by {}
            assert(self.wf());
            self.lemma_entries();
            old(self).lemma_entries();
            assert forall|k: K| #[trigger]
                self@.contains_key(k) <==> old(self)@.remove(*key).contains_key(k) by {
                if old(self)@.contains_key(k) && k != *key {
                    let i = choose|i: int|
                        0 <= i < before_call.len() && #[trigger] before_call[i].0 == k;
                    assert(after[if i < pos { i } else { i - 1 }].0 == k);
                }
                if self@.contains_key(k) {
                    let i = choose|i: int| 0 <= i < after.len() && #[trigger] after[i].0 == k;
                    let j = if i < pos { i } else { i + 1 };
                    assert(before_call[j].0 == k);
                    assert(before_call[j].0.rank() != before_call[pos].0.rank());
                }
            }
            assert forall|k: K| #[trigger] self@.contains_key(k) implies self@[k] == old(
                self,
            )@.remove(*key)[k] by {
                let i = choose|i: int| 0 <= i < after.len() && #[trigger] after[i].0 == k;
                assert(before_call[if i < pos { i } else { i + 1 }].0 == k);
            }
            assert(self@ =~= old(self)@.remove(*key));
        }
        Some(entry.1)
    }

    /// The least key that does not sort before `bound`.
    pub fn first_at_least(&self, bound: &K) -> (nearest: Option<K>)
        requires
            self.wf(),
        ensures
            match nearest {
                Some(k) => is_first_at_least(self@, *bound, k),
                None => forall|k: K| #[trigger]
                    self@.contains_key(k) ==> before(k.rank(), bound.rank()),
            },
    {
        let pos: usize = self.locate(bound);
        proof {
            self.lemma_entries();
        }
        if pos < self.entries.len() {
            Some(self.entries[pos].0)
        } else {
            None
        }
    }

    /// The number of keys.
    pub fn len(&self) -> (n: usize)
        requires
            self.wf(),
        ensures
            n == self@.dom().len(),
            self@.dom().finite(),
    {
        proof {
            self.lemma_dom();
        }
        self.entries.len()
    }

    pub fn is_empty(&self) -> (b: bool)
        requires
            self.wf(),
        ensures
            b == (self@ == Map::<K, V>::empty()),
    {
        proof {
            self.lemma_entries();
            if self.entries@.len() == 0 {
                assert(self@ =~= Map::<K, V>::empty());
            } else {
                assert(self@.contains_key(self.entries@[0].0));
            }
        }
        self.entries.len() == 0
    }

    /// The map is finite, with one key for each entry.
    proof fn lemma_dom(self)
        requires
            self.wf(),
        ensures
            self@.dom().finite(),
            self@.dom().len() == self.entries@.len(),
    {
        self.lemma_entries();
        let keys = self.entries@.map_values(|e: (K, V)| e.0);
        assert(keys.no_duplicates()) by {
            assert forall|i: int, j: int|
                0 <= i < keys.len() && 0 <= j < keys.len() && i != j implies keys[i] != keys[j] by {
                if i < j {
                    assert(before(self.entries@[i].0.rank(), self.entries@[j].0.rank()));
                } else {
                    assert(before(self.entries@[j].0.rank(), self.entries@[i].0.rank()));
                }
            }
        }
        assert forall|k: K| self@.dom().contains(k) <==> #[trigger] keys.to_set().contains(k) by {
            if self@.contains_key(k) {
                let i = choose|i: int|
                    0 <= i < self.entries@.len() && #[trigger] self.entries@[i].0 == k;
                assert(keys[i] == k);
            }
            if keys.to_set().contains(k) {
                let i = choose|i: int| 0 <= i < keys.len() && keys[i] == k;
                assert(self.entries@[i].0 == k);
            }
        }
        assert(self@.dom() =~= keys.to_set());
        keys.unique_seq_to_set();
    }
}

} // verus!
