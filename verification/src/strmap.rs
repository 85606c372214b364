//! A map keyed by strings, kept as parallel vectors of keys and values.
//!
//! Its abstract value is a `Map` from key text to value; the values are
//! also available as a sequence in storage order, for totals over them.

use vstd::prelude::*;

verus! {

/// Storage after putting `v` under `k`: the value is replaced in place
/// when the key is stored, and key and value are appended otherwise.
pub open spec fn put_entry<V>(keys: Seq<Seq<char>>, vals: Seq<V>, k: Seq<char>, v: V) -> (Seq<Seq<char>>, Seq<V>) {
    if keys.contains(k) {
        (keys, vals.update(keys.index_of(k), v))
    } else {
        (keys.push(k), vals.push(v))
    }
}

pub struct StrMap<V> {
    keys: Vec<String>,
    vals: Vec<V>,
    map: Ghost<Map<Seq<char>, V>>,
}

impl<V> StrMap<V> {
    /// Keys in storage order.
    pub closed spec fn key_seq(&self) -> Seq<Seq<char>> {
        self.keys@.map_values(|k: String| k@)
    }

    /// Values in storage order.
    pub closed spec fn val_seq(&self) -> Seq<V> {
        self.vals@
    }

    /// The map from key text to value.
    pub closed spec fn map(&self) -> Map<Seq<char>, V> {
        self.map@
    }

    /// Keys are distinct, each stored value is the map's value for its
    /// key, and the map holds exactly the stored keys.
    pub closed spec fn wf(&self) -> bool {
        &&& self.keys@.len() == self.vals@.len()
        &&& forall|i: int, j: int|
            0 <= i < j < self.keys@.len() ==> self.keys@[i]@ != self.keys@[j]@
        &&& forall|i: int|
            0 <= i < self.keys@.len() ==> {
                &&& self.map@.contains_key((#[trigger] self.keys@[i])@)
                &&& self.map@[self.keys@[i]@] == self.vals@[i]
            }
        &&& forall|k: Seq<char>|
            #[trigger] self.map@.contains_key(k) ==> exists|i: int|
                0 <= i < self.keys@.len() && (#[trigger] self.keys@[i])@ == k
    }

    /// Facts that clients use: storage and map agree.
    pub proof fn lemma_wf(&self)
        requires
            self.wf(),
        ensures
            self.key_seq().len() == self.val_seq().len(),
            forall|i: int|
                0 <= i < self.key_seq().len() ==> {
                    &&& self.map().contains_key(#[trigger] self.key_seq()[i])
                    &&& self.map()[self.key_seq()[i]] == self.val_seq()[i]
                },
            forall|k: Seq<char>|
                #[trigger] self.map().contains_key(k) ==> exists|i: int|
                    0 <= i < self.key_seq().len() && #[trigger] self.key_seq()[i] == k,
            forall|i: int, j: int|
                0 <= i < j < self.key_seq().len() ==> self.key_seq()[i] != self.key_seq()[j],
    {
        assert forall|k: Seq<char>| #[trigger] self.map().contains_key(k) implies exists|i: int|
            0 <= i < self.key_seq().len() && #[trigger] self.key_seq()[i] == k by {
            let i = choose|i: int| 0 <= i < self.keys@.len() && (#[trigger] self.keys@[i])@ == k;
            assert(self.key_seq()[i] == k);
        }
    }

    /// A stored key is found at its own position.
    pub proof fn lemma_index_of(&self, i: int)
        requires
            self.wf(),
            0 <= i < self.key_seq().len(),
        ensures
            self.key_seq().contains(self.key_seq()[i]),
            self.key_seq().index_of(self.key_seq()[i]) == i,
    {
        self.lemma_wf();
        let k = self.key_seq()[i];
        assert(self.key_seq()[i] == k);
        let j = self.key_seq().index_of(k);
        if j != i {
            if j < i {
                assert(self.key_seq()[j] != self.key_seq()[i]);
            } else {
                assert(self.key_seq()[i] != self.key_seq()[j]);
            }
        }
    }

    /// Every key of the map is stored, and only those.
    pub proof fn lemma_contains(&self, k: Seq<char>)
        requires
            self.wf(),
        ensures
            self.key_seq().contains(k) <==> self.map().contains_key(k),
    {
        self.lemma_wf();
        if self.map().contains_key(k) {
            let i = choose|i: int| 0 <= i < self.key_seq().len() && #[trigger] self.key_seq()[i] == k;
            assert(self.key_seq()[i] == k);
        }
        if self.key_seq().contains(k) {
            let i = choose|i: int| 0 <= i < self.key_seq().len() && self.key_seq()[i] == k;
            assert(self.map().contains_key(self.key_seq()[i]));
        }
    }

    pub fn new() -> (r: Self)
        ensures
            r.wf(),
            r.map() == Map::<Seq<char>, V>::empty(),
            r.val_seq() == Seq::<V>::empty(),
            r.key_seq() == Seq::<Seq<char>>::empty(),
    {
        let r = StrMap { keys: Vec::new(), vals: Vec::new(), map: Ghost(Map::empty()) };
        assert(r.key_seq() =~= Seq::<Seq<char>>::empty());
        r
    }

    pub fn len(&self) -> (r: usize)
        requires
            self.wf(),
        ensures
            r == self.val_seq().len(),
    {
        self.vals.len()
    }

    /// The storage position of `k`.
    pub fn find(&self, k: &str) -> (r: Option<usize>)
        requires
            self.wf(),
        ensures
            match r {
                Some(i) => i < self.val_seq().len() && self.key_seq()[i as int] == k@
                    && self.map().contains_key(k@) && self.map()[k@] == self.val_seq()[i as int],
                None => !self.map().contains_key(k@),
            },
    {
        let key = String::from_str(k);
        let mut i: usize = 0;
        while i < self.keys.len()
            invariant
                self.wf(),
                key@ == k@,
                i <= self.keys@.len(),
                forall|j: int| 0 <= j < i ==> (#[trigger] self.keys@[j])@ != k@,
            decreases self.keys@.len() - i,
        {
            if self.keys[i] == key {
                assert(self.key_seq()[i as int] == self.keys@[i as int]@);
                return Some(i);
            }
            i = i + 1;
        }
        proof {
            if self.map@.contains_key(k@) {
                let j = choose|j: int| 0 <= j < self.keys@.len() && (#[trigger] self.keys@[j])@ == k@;
            }
        }
        None
    }

    pub fn contains_key(&self, k: &str) -> (r: bool)
        requires
            self.wf(),
        ensures
            r == self.map().contains_key(k@),
    {
        self.find(k).is_some()
    }

    pub fn get(&self, k: &str) -> (r: Option<&V>)
        requires
            self.wf(),
        ensures
            match r {
                Some(v) => self.map().contains_key(k@) && *v == self.map()[k@],
                None => !self.map().contains_key(k@),
            },
    {
        match self.find(k) {
            Some(i) => Some(&self.vals[i]),
            None => None,
        }
    }

    /// The values in storage order.
    pub fn values(&self) -> (r: &Vec<V>)
        ensures
            r@ == self.val_seq(),
    {
        &self.vals
    }

    pub fn key_at(&self, i: usize) -> (r: &String)
        requires
            self.wf(),
            i < self.val_seq().len(),
        ensures
            r@ == self.key_seq()[i as int],
    {
        &self.keys[i]
    }

    pub fn value_at(&self, i: usize) -> (r: &V)
        requires
            self.wf(),
            i < self.val_seq().len(),
        ensures
            *r == self.val_seq()[i as int],
    {
        &self.vals[i]
    }

    /// Replaces the value at storage position `i`.
    pub fn replace_at(&mut self, i: usize, v: V)
        requires
            old(self).wf(),
            i < old(self).val_seq().len(),
        ensures
            final(self).wf(),
            final(self).map() == old(self).map().insert(old(self).key_seq()[i as int], v),
            final(self).val_seq() == old(self).val_seq().update(i as int, v),
            final(self).key_seq() == old(self).key_seq(),
    {
        let ghost k = self.keys@[i as int]@;
        self.vals.set(i, v);
        self.map = Ghost(self.map@.insert(k, v));
        proof {
            assert forall|j: int| 0 <= j < self.keys@.len() implies {
                &&& self.map@.contains_key((#[trigger] self.keys@[j])@)
                &&& self.map@[self.keys@[j]@] == self.vals@[j]
            } by {
                if j != i {
                    assert(self.keys@[j]@ != k);
                }
            }
            assert forall|k2: Seq<char>| #[trigger] self.map@.contains_key(k2) implies exists|j: int|
                0 <= j < self.keys@.len() && (#[trigger] self.keys@[j])@ == k2 by {
                if k2 != k {
                    assert(old(self).map@.contains_key(k2));
                } else {
                    assert(self.keys@[i as int]@ == k);
                }
            }
        }
    }

    /// Replaces the value at storage position `i`, returning the old one.
    pub fn swap_value(&mut self, i: usize, v: V) -> (r: V)
        requires
            old(self).wf(),
            i < old(self).val_seq().len(),
        ensures
            final(self).wf(),
            r == old(self).val_seq()[i as int],
            final(self).map() == old(self).map().insert(old(self).key_seq()[i as int], v),
            final(self).val_seq() == old(self).val_seq().update(i as int, v),
            final(self).key_seq() == old(self).key_seq(),
    {
        let ghost k = self.keys@[i as int]@;
        let ghost old_vals = self.vals@;
        let r = self.vals.remove(i);
        self.vals.insert(i, v);
        assert(self.vals@ =~= old_vals.update(i as int, v));
        self.map = Ghost(self.map@.insert(k, v));
        proof {
            assert forall|j: int| 0 <= j < self.keys@.len() implies {
                &&& self.map@.contains_key((#[trigger] self.keys@[j])@)
                &&& self.map@[self.keys@[j]@] == self.vals@[j]
            } by {
                if j != i {
                    assert(self.keys@[j]@ != k);
                }
            }
            assert forall|k2: Seq<char>| #[trigger] self.map@.contains_key(k2) implies exists|j: int|
                0 <= j < self.keys@.len() && (#[trigger] self.keys@[j])@ == k2 by {
                if k2 != k {
                    assert(old(self).map@.contains_key(k2));
                } else {
                    assert(self.keys@[i as int]@ == k);
                }
            }
        }
        r
    }

    /// Inserts or replaces; a new key goes to the end of storage.
    pub fn insert(&mut self, k: String, v: V)
        requires
            old(self).wf(),
        ensures
            final(self).wf(),
            final(self).map() == old(self).map().insert(k@, v),
            old(self).map().contains_key(k@) ==> final(self).key_seq() == old(self).key_seq(),
            !old(self).map().contains_key(k@) ==> final(self).key_seq() == old(self).key_seq().push(
                k@,
            ) && final(self).val_seq() == old(self).val_seq().push(v),
            forall|i: int|
                0 <= i < old(self).key_seq().len() && old(self).key_seq()[i] == k@
                    ==> final(self).val_seq() == old(self).val_seq().update(i, v),
            (final(self).key_seq(), final(self).val_seq()) == put_entry(
                old(self).key_seq(),
                old(self).val_seq(),
                k@,
                v,
            ),
    {
        proof {
            old(self).lemma_contains(k@);
        }
        match self.find(k.as_str()) {
            Some(i) => {
                proof {
                    assert forall|j: int|
                        0 <= j < self.key_seq().len() && self.key_seq()[j] == k@ implies j
                        == i by {
                        if j != i {
                            assert(self.keys@[j]@ != self.keys@[i as int]@);
                        }
                    }
                    self.lemma_index_of(i as int);
                }
                self.replace_at(i, v);
            },
            None => {
                let ghost kk = k@;
                self.keys.push(k);
                self.vals.push(v);
                self.map = Ghost(self.map@.insert(kk, v));
                proof {
                    let n = self.keys@.len() - 1;
                    assert(self.key_seq() =~= old(self).key_seq().push(kk));
                    assert forall|j: int| 0 <= j < self.keys@.len() implies {
                        &&& self.map@.contains_key((#[trigger] self.keys@[j])@)
                        &&& self.map@[self.keys@[j]@] == self.vals@[j]
                    } by {
                        if j < n {
                            assert(self.keys@[j] == old(self).keys@[j]);
                            assert(old(self).map@.contains_key(self.keys@[j]@));
                        }
                    }
                    assert forall|k2: Seq<char>| #[trigger] self.map@.contains_key(k2) implies exists|j: int|
                        0 <= j < self.keys@.len() && (#[trigger] self.keys@[j])@ == k2 by {
                        if k2 != kk {
                            assert(old(self).map@.contains_key(k2));
                            let j = choose|j: int|
                                0 <= j < old(self).keys@.len() && (#[trigger] old(self).keys@[j])@
                                    == k2;
                            assert(self.keys@[j] == old(self).keys@[j]);
                        } else {
                            assert(self.keys@[n]@ == kk);
                        }
                    }
                    assert forall|a: int, b: int|
                        0 <= a < b < self.keys@.len() implies self.keys@[a]@ != self.keys@[b]@ by {
                        if b == n {
                            assert(self.keys@[a] == old(self).keys@[a]);
                            assert(old(self).map@.contains_key(self.keys@[a]@));
                        }
                    }
                }
            },
        }
    }

    /// Removes `k`, returning its value.
    pub fn remove(&mut self, k: &str) -> (r: Option<V>)
        requires
            old(self).wf(),
        ensures
            final(self).wf(),
            final(self).map() == old(self).map().remove(k@),
            match r {
                Some(v) => old(self).map().contains_key(k@) && v == old(self).map()[k@] && exists|
                    i: int,
                |
                    0 <= i < old(self).val_seq().len() && old(self).key_seq()[i] == k@
                        && final(self).val_seq() == old(self).val_seq().remove(i)
                        && final(self).key_seq() == old(self).key_seq().remove(i),
                None => !old(self).map().contains_key(k@) && final(self).val_seq() == old(
                    self,
                ).val_seq() && final(self).key_seq() == old(self).key_seq(),
            },
    {
        match self.find(k) {
            Some(i) => {
                let ghost oldk = self.keys@;
                let _key = self.keys.remove(i);
                let v = self.vals.remove(i);
                self.map = Ghost(self.map@.remove(k@));
                proof {
                    assert(self.key_seq() =~= old(self).key_seq().remove(i as int));
                    assert forall|j: int| 0 <= j < self.keys@.len() implies {
                        &&& self.map@.contains_key((#[trigger] self.keys@[j])@)
                        &&& self.map@[self.keys@[j]@] == self.vals@[j]
                    } by {
                        let jj = if j < i { j } else { j + 1 };
                        assert(self.keys@[j] == oldk[jj]);
                        assert(oldk[jj]@ != oldk[i as int]@);
                    }
                    assert forall|k2: Seq<char>| #[trigger] self.map@.contains_key(k2) implies exists|j: int|
                        0 <= j < self.keys@.len() && (#[trigger] self.keys@[j])@ == k2 by {
                        let jj = choose|jj: int| 0 <= jj < oldk.len() && (#[trigger] oldk[jj])@ == k2;
                        if jj < i {
                            assert(self.keys@[jj] == oldk[jj]);
                        } else {
                            assert(jj != i);
                            assert(self.keys@[jj - 1] == oldk[jj]);
                        }
                    }
                    assert forall|a: int, b: int|
                        0 <= a < b < self.keys@.len() implies self.keys@[a]@ != self.keys@[b]@ by {
                        let aa = if a < i { a } else { a + 1 };
                        let bb = if b < i { b } else { b + 1 };
                        assert(self.keys@[a] == oldk[aa]);
                        assert(self.keys@[b] == oldk[bb]);
                    }
                }
                Some(v)
            },
            None => {
                assert(self.map@.remove(k@) =~= self.map@);
                None
            },
        }
    }
}

} // verus!
