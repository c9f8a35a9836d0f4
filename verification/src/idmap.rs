//! A map from integer identifiers to values, kept as two lists sorted by
//! key.

use vstd::prelude::*;

verus! {

/// Whether `keys` strictly ascends.
pub open spec fn rising(keys: Seq<i32>) -> bool {
    forall|i: int, j: int| 0 <= i < j < keys.len() ==> #[trigger] keys[i] < #[trigger] keys[j]
}

proof fn lemma_rising_prefix(a: Seq<i32>, b: Seq<i32>, i: int)
    requires
        rising(a),
        rising(b),
        forall|k: i32| a.contains(k) <==> b.contains(k),
        0 <= i <= a.len(),
        i <= b.len(),
    ensures
        forall|j: int| 0 <= j < i ==> a[j] == b[j],
    decreases i,
{
    if i > 0 {
        lemma_rising_prefix(a, b, i - 1);
        let x = a[i - 1];
        let y = b[i - 1];
        if x != y {
            assert(a.contains(x));
            assert(b.contains(y));
            let p = b.index_of(x);
            let q = a.index_of(y);
            assert(b[p] == x && a[q] == y);
            if p < i - 1 {
                assert(a[p] == b[p]);
                assert(a[p] < a[i - 1]);
            }
            if q < i - 1 {
                assert(a[q] == b[q]);
                assert(b[q] < b[i - 1]);
            }
            if p > i - 1 && q > i - 1 {
                assert(b[i - 1] < b[p]);
                assert(a[i - 1] < a[q]);
            }
        }
    }
}

/// Two rising lists of the same numbers are the same list.
pub proof fn lemma_rising_unique(a: Seq<i32>, b: Seq<i32>)
    requires
        rising(a),
        rising(b),
        forall|k: i32| a.contains(k) <==> b.contains(k),
    ensures
        a == b,
{
    let n = if a.len() <= b.len() {
        a.len() as int
    } else {
        b.len() as int
    };
    lemma_rising_prefix(a, b, n);
    if a.len() < b.len() {
        let y = b[n];
        assert(b.contains(y));
        let q = a.index_of(y);
        assert(a[q] == y && a[q] == b[q]);
        assert(b[q] < b[n]);
    }
    if b.len() < a.len() {
        let x = a[n];
        assert(a.contains(x));
        let p = b.index_of(x);
        assert(b[p] == x && a[p] == b[p]);
        assert(a[p] < a[n]);
    }
    assert(a =~= b);
}

/// A map keyed by integers. Its entries are held in ascending key order, so
/// walking it is deterministic and no key occurs twice.
#[derive(Debug, PartialEq, Eq)]
pub struct IdMap<V> {
    keys: Vec<i32>,
    vals: Vec<V>,
}

impl<V> View for IdMap<V> {
    type V = Map<i32, V>;

    closed spec fn view(&self) -> Map<i32, V> {
        Map::new(|k: i32| self.keys@.contains(k), |k: i32| self.vals@[self.keys@.index_of(k)])
    }
}

impl<V> IdMap<V> {
    /// The keys, in ascending order.
    pub closed spec fn keys(&self) -> Seq<i32> {
        self.keys@
    }

    /// The values, each at the position of its key in `keys()`.
    pub closed spec fn values(&self) -> Seq<V> {
        self.vals@
    }

    /// The invariant of the map: one value per key, keys strictly ascending.
    pub closed spec fn wf(&self) -> bool {
        &&& self.keys@.len() == self.vals@.len()
        &&& rising(self.keys@)
    }

    /// How the ordered entries and the map relate.
    pub proof fn lemma_entries(&self)
        requires
            self.wf(),
        ensures
            self.keys().len() == self.values().len(),
            rising(self.keys()),
            self.keys().no_duplicates(),
            forall|i: int|
                0 <= i < self.keys().len() ==> self@.contains_key(#[trigger] self.keys()[i])
                    && self@[self.keys()[i]] == self.values()[i],
            forall|k: i32| #[trigger] self@.contains_key(k) <==> self.keys().contains(k),
    {
        let ks = self.keys();
        assert forall|i: int| 0 <= i < ks.len() implies self@.contains_key(#[trigger] ks[i])
            && self@[ks[i]] == self.values()[i] by {
            assert(ks.contains(ks[i]));
            let j = ks.index_of(ks[i]);
            assert(j == i);
        }
    }

    proof fn lemma_updated(&self, after: Self, i: int)
        requires
            self.wf(),
            0 <= i < self.keys().len(),
            after.keys@ == self.keys@,
            after.vals@ == self.vals@.update(i, after.vals@[i]),
        ensures
            after.wf(),
            after.keys() == self.keys(),
            after@ == self@.insert(self.keys()[i], after.vals@[i]),
    {
        self.lemma_entries();
        after.lemma_entries();
        let k0 = self.keys()[i];
        assert(after@ =~= self@.insert(k0, after.vals@[i])) by {
            assert forall|k: i32| after@.contains_key(k) implies #[trigger] after@[k]
                == self@.insert(k0, after.vals@[i])[k] by {
                let j = self.keys().index_of(k);
                assert(self.keys()[j] == k);
            }
        }
    }

    /// The keys of a map are a matter of its domain alone: two maps with
    /// the same domain are walked in the same order.
    pub proof fn lemma_keys_of_domain<W>(&self, other: &IdMap<W>)
        requires
            self.wf(),
            other.wf(),
            self@.dom() == other@.dom(),
        ensures
            self.keys() == other.keys(),
            self.values().len() == other.values().len(),
    {
        self.lemma_entries();
        other.lemma_entries();
        assert forall|k: i32| self.keys().contains(k) <==> other.keys().contains(k) by {
            assert(self@.contains_key(k) == other@.contains_key(k));
        }
        lemma_rising_unique(self.keys(), other.keys());
    }

    /// Two maps with the same keys and the same values are the same map.
    pub proof fn lemma_same_entries(&self, other: &Self)
        requires
            self.wf(),
            other.wf(),
            self.keys() == other.keys(),
            self.values() == other.values(),
        ensures
            self@ == other@,
    {
        self.lemma_entries();
        other.lemma_entries();
        assert(self@ =~= other@) by {
            assert forall|k: i32| self@.contains_key(k) implies #[trigger] self@[k]
                == other@[k] by {
                let j = self.keys().index_of(k);
                assert(self.keys()[j] == k);
            }
        }
    }

    /// An empty map.
    pub fn new() -> (r: Self)
        ensures
            r.wf(),
            r@ == Map::<i32, V>::empty(),
            r.keys().len() == 0,
    {
        let r = IdMap { keys: Vec::new(), vals: Vec::new() };
        assert(r@ =~= Map::<i32, V>::empty());
        r
    }

    /// The number of entries.
    pub fn len(&self) -> (n: usize)
        requires
            self.wf(),
        ensures
            n == self.keys().len(),
            n == self.values().len(),
    {
        self.keys.len()
    }

    /// Whether the map has no entry.
    pub fn is_empty(&self) -> (r: bool)
        requires
            self.wf(),
        ensures
            r == (self.keys().len() == 0),
            r == (self@ == Map::<i32, V>::empty()),
    {
        proof {
            self.lemma_entries();
            if self.keys().len() == 0 {
                assert(self@ =~= Map::<i32, V>::empty());
            } else {
                assert(self@.contains_key(self.keys()[0]));
            }
        }
        self.keys.len() == 0
    }

    // The position of `key`, or the position at which it would be inserted.
    fn find(&self, key: i32) -> (r: (usize, bool))
        requires
            self.wf(),
        ensures
            r.0 <= self.keys().len(),
            r.1 ==> r.0 < self.keys().len() && self.keys()[r.0 as int] == key,
            r.1 == self.keys().contains(key),
            forall|j: int| 0 <= j < r.0 ==> #[trigger] self.keys()[j] < key,
            forall|j: int|
                r.0 <= j < self.keys().len() && !(r.1 && j == r.0) ==> key
                    < #[trigger] self.keys()[j],
    {
        let n = self.keys.len();
        let mut i: usize = 0;
        while i < n
            invariant
                self.wf(),
                n == self.keys@.len(),
                i <= n,
                forall|j: int| 0 <= j < i ==> #[trigger] self.keys@[j] < key,
            decreases n - i,
        {
            if self.keys[i] == key {
                return (i, true);
            }
            if self.keys[i] > key {
                assert(!self.keys@.contains(key)) by {
                    if self.keys@.contains(key) {
                        let j = self.keys@.index_of(key);
                        assert(self.keys@[j] == key);
                    }
                }
                return (i, false);
            }
            i = i + 1;
        }
        assert(!self.keys@.contains(key)) by {
            if self.keys@.contains(key) {
                let j = self.keys@.index_of(key);
                assert(self.keys@[j] == key);
            }
        }
        (i, false)
    }

    /// Whether `key` has an entry.
    pub fn contains_key(&self, key: i32) -> (r: bool)
        requires
            self.wf(),
        ensures
            r == self@.contains_key(key),
    {
        let (_, found) = self.find(key);
        found
    }

    /// The value stored under `key`, if there is one.
    pub fn get(&self, key: i32) -> (r: Option<&V>)
        requires
            self.wf(),
        ensures
            r is Some == self@.contains_key(key),
            r is Some ==> *r->0 == self@[key],
    {
        let (i, found) = self.find(key);
        if found {
            proof {
                self.lemma_entries();
            }
            Some(&self.vals[i])
        } else {
            None
        }
    }

    /// The key at position `i` of the ascending order.
    pub fn key_at(&self, i: usize) -> (r: i32)
        requires
            self.wf(),
            i < self.keys().len(),
        ensures
            r == self.keys()[i as int],
    {
        self.keys[i]
    }

    /// The value at position `i` of the ascending key order.
    pub fn value_at(&self, i: usize) -> (r: &V)
        requires
            self.wf(),
            i < self.keys().len(),
        ensures
            *r == self.values()[i as int],
    {
        &self.vals[i]
    }

    /// A mutable borrow of the value at position `i` of the ascending key
    /// order. Whatever the caller writes through it becomes that value.
    pub fn value_at_mut(&mut self, i: usize) -> (r: &mut V)
        requires
            old(self).wf(),
            i < old(self).keys().len(),
        ensures
            *r == old(self).values()[i as int],
            final(self).wf(),
            final(self).keys() == old(self).keys(),
            final(self).values() == old(self).values().update(i as int, *final(r)),
            final(self)@ == old(self)@.insert(old(self).keys()[i as int], *final(r)),
    {
        let ghost before = *self;
        proof {
            assert forall|after: Self|
                #![trigger after.wf()]
                #![trigger after.view()]
                #![trigger after.keys()]
                after.keys@ == before.keys@ && after.vals@ == before.vals@.update(
                    i as int,
                    after.vals@[i as int],
                ) implies ({
                &&& after.wf()
                &&& after.keys() == before.keys()
                &&& after@ == before@.insert(before.keys()[i as int], after.vals@[i as int])
            }) by {
                before.lemma_updated(after, i as int);
            }
        }
        &mut self.vals[i]
    }

    /// Stores `value` under `key`, and returns the value that was there.
    pub fn insert(&mut self, key: i32, value: V) -> (r: Option<V>)
        requires
            old(self).wf(),
        ensures
            final(self).wf(),
            final(self)@ == old(self)@.insert(key, value),
            r == (if old(self)@.contains_key(key) {
                Some(old(self)@[key])
            } else {
                None
            }),
            old(self)@.contains_key(key) ==> final(self).keys() == old(self).keys(),
    {
        let ghost before = *self;
        let (i, found) = self.find(key);
        proof {
            before.lemma_entries();
        }
        if found {
            self.vals.push(value);
            let prev = self.vals.swap_remove(i);
            proof {
                assert(self.vals@ =~= before.vals@.update(i as int, value));
                before.lemma_updated(*self, i as int);
            }
            Some(prev)
        } else {
            self.keys.insert(i, key);
            self.vals.insert(i, value);
            proof {
                let ks = self.keys@;
                assert forall|a: int, b: int| 0 <= a < b < ks.len() implies #[trigger] ks[a]
                    < #[trigger] ks[b] by {
                    if a < i && b > i {
                        assert(before.keys@[a] < before.keys@[b - 1]);
                    } else if a > i {
                        assert(before.keys@[a - 1] < before.keys@[b - 1]);
                    } else if b < i {
                        assert(before.keys@[a] < before.keys@[b]);
                    } else if a == i {
                        assert(key < before.keys@[b - 1]);
                    } else {
                        assert(before.keys@[a] < key);
                    }
                }
                self.lemma_entries();
                assert(self@ =~= before@.insert(key, value)) by {
                    assert forall|k: i32| #[trigger]
                        self@.contains_key(k) == before@.insert(key, value).contains_key(k) by {
                        if ks.contains(k) {
                            let j = ks.index_of(k);
                            if j < i {
                                assert(before.keys@[j] == k);
                            } else if j > i {
                                assert(before.keys@[j - 1] == k);
                            }
                        }
                        if before.keys@.contains(k) {
                            let j = before.keys@.index_of(k);
                            if j < i {
                                assert(ks[j] == k);
                            } else {
                                assert(ks[j + 1] == k);
                            }
                        }
                        if k == key {
                            assert(ks[i as int] == k);
                        }
                    }
                    assert forall|k: i32| self@.contains_key(k) implies #[trigger] self@[k]
                        == before@.insert(key, value)[k] by {
                        let j = ks.index_of(k);
                        assert(ks[j] == k);
                        if j < i {
                            assert(before.keys@[j] == k);
                        } else if j > i {
                            assert(before.keys@[j - 1] == k);
                        }
                    }
                }
            }
            None
        }
    }

    /// Removes the entry of `key`, and returns the value that was there.
    pub fn remove(&mut self, key: i32) -> (r: Option<V>)
        requires
            old(self).wf(),
        ensures
            final(self).wf(),
            final(self)@ == old(self)@.remove(key),
            r == (if old(self)@.contains_key(key) {
                Some(old(self)@[key])
            } else {
                None
            }),
    {
        let ghost before = *self;
        let (i, found) = self.find(key);
        proof {
            before.lemma_entries();
        }
        if found {
            let _ = self.keys.remove(i);
            let prev = self.vals.remove(i);
            proof {
                let ks = self.keys@;
                assert forall|a: int, b: int| 0 <= a < b < ks.len() implies #[trigger] ks[a]
                    < #[trigger] ks[b] by {
                    let a0 = if a < i { a } else { a + 1 };
                    let b0 = if b < i { b } else { b + 1 };
                    assert(before.keys@[a0] < before.keys@[b0]);
                }
                self.lemma_entries();
                assert(self@ =~= before@.remove(key)) by {
                    assert forall|k: i32| #[trigger]
                        self@.contains_key(k) == before@.remove(key).contains_key(k) by {
                        if ks.contains(k) {
                            let j = ks.index_of(k);
                            let j0 = if j < i { j } else { j + 1 };
                            assert(before.keys@[j0] == k);
                        }
                        if before.keys@.contains(k) && k != key {
                            let j = before.keys@.index_of(k);
                            if j < i {
                                assert(ks[j] == k);
                            } else {
                                assert(ks[j - 1] == k);
                            }
                        }
                    }
                    assert forall|k: i32| self@.contains_key(k) implies #[trigger] self@[k]
                        == before@.remove(key)[k] by {
                        let j = ks.index_of(k);
                        assert(ks[j] == k);
                        let j0 = if j < i { j } else { j + 1 };
                        assert(before.keys@[j0] == k);
                    }
                }
            }
            Some(prev)
        } else {
            assert(before@.remove(key) =~= before@);
            None
        }
    }

    /// A mutable borrow of the value stored under `key`, if there is one.
    /// Whatever the caller writes through it becomes the value of `key`.
    pub fn get_mut(&mut self, key: i32) -> (r: Option<&mut V>)
        requires
            old(self).wf(),
        ensures
            r is Some == old(self)@.contains_key(key),
            r is Some ==> *r->0 == old(self)@[key],
            r is Some ==> final(self)@ == old(self)@.insert(key, *final(r->0)),
            r is None ==> *final(self) == *old(self),
            final(self).wf(),
            final(self).keys() == old(self).keys(),
    {
        let ghost before = *self;
        let (i, found) = self.find(key);
        if found {
            proof {
                before.lemma_entries();
                assert forall|after: Self|
                    #![trigger after.wf()]
                    #![trigger after.view()]
                    #![trigger after.keys()]
                    after.keys@ == before.keys@ && after.vals@ == before.vals@.update(
                        i as int,
                        after.vals@[i as int],
                    ) implies ({
                    &&& after.wf()
                    &&& after.keys() == before.keys()
                    &&& after@ == before@.insert(key, after.vals@[i as int])
                }) by {
                    before.lemma_updated(after, i as int);
                }
            }
            Some(&mut self.vals[i])
        } else {
            None
        }
    }
}

impl<V: Clone> Clone for IdMap<V> {
    /// A copy with the same keys, each value cloned.
    fn clone(&self) -> (r: Self)
        ensures
            self.wf() ==> r.wf() && r.keys() == self.keys() && r.values().len()
                == self.values().len(),
            self.wf() ==> forall|i: int|
                0 <= i < self.values().len() ==> cloned::<V>(
                    #[trigger] self.values()[i],
                    r.values()[i],
                ),
    {
        let mut keys: Vec<i32> = Vec::new();
        let mut vals: Vec<V> = Vec::new();
        let n = self.keys.len();
        let mut i: usize = 0;
        while i < n && i < self.vals.len()
            invariant
                n == self.keys@.len(),
                i <= n,
                keys@.len() == i,
                vals@.len() == i,
                forall|j: int| 0 <= j < i ==> keys@[j] == self.keys@[j],
                forall|j: int| 0 <= j < i ==> cloned::<V>(self.vals@[j], #[trigger] vals@[j]),
            decreases n - i,
        {
            keys.push(self.keys[i]);
            vals.push(self.vals[i].clone());
            i = i + 1;
        }
        let r = IdMap { keys, vals };
        proof {
            if self.wf() {
                assert(r.keys@ =~= self.keys@);
            }
        }
        r
    }
}

} // verus!
