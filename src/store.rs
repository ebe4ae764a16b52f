use vstd::prelude::*;

verus! {

/// Whether two byte strings are equal.
pub fn bytes_equal(a: &Vec<u8>, b: &Vec<u8>) -> (r: bool)
    ensures
        r == (a@ == b@),
{
    if a.len() != b.len() {
        return false;
    }
    let mut i: usize = 0;
    while i < a.len()
        invariant
            i <= a@.len() == b@.len(),
            forall|j: int| 0 <= j < i ==> a@[j] == b@[j],
        decreases a@.len() - i,
    {
        if a[i] != b[i] {
            return false;
        }
        i = i + 1;
    }
    assert(a@ =~= b@);
    true
}

/// An ordered association of byte-string keys with values, each key at most
/// once.
pub struct KeyValues<V> {
    items: Vec<(Vec<u8>, V)>,
}

impl<V> KeyValues<V> {
    pub closed spec fn wf(&self) -> bool {
        forall|i: int, j: int|
            0 <= i < self.items@.len() && 0 <= j < self.items@.len() && i != j ==> (
            #[trigger] self.items@[i]).0@ != (#[trigger] self.items@[j]).0@
    }

    /// The keys held.
    pub closed spec fn keys(&self) -> Set<Seq<u8>> {
        Set::new(|k: Seq<u8>| exists|i: int| 0 <= i < self.items@.len() && self.items@[i].0@ == k)
    }

    /// The value held under `k`.
    pub closed spec fn value_of(&self, k: Seq<u8>) -> V {
        let i = choose|i: int| 0 <= i < self.items@.len() && self.items@[i].0@ == k;
        self.items@[i].1
    }

    /// The contents, as a map.
    pub open spec fn view(&self) -> Map<Seq<u8>, V> {
        Map::new(|k: Seq<u8>| self.keys().contains(k), |k: Seq<u8>| self.value_of(k))
    }

    pub fn new() -> (r: Self)
        ensures
            r.wf(),
            r.view() == Map::<Seq<u8>, V>::empty(),
    {
        let r = KeyValues { items: Vec::new() };
        assert(r.view() =~= Map::<Seq<u8>, V>::empty());
        r
    }

    fn find(&self, k: &Vec<u8>) -> (r: Option<usize>)
        requires
            self.wf(),
        ensures
            match r {
                Some(i) => i < self.items@.len() && self.items@[i as int].0@ == k@,
                None => !self.view().contains_key(k@),
            },
    {
        let mut i: usize = 0;
        while i < self.items.len()
            invariant
                i <= self.items@.len(),
                forall|j: int| 0 <= j < i ==> self.items@[j].0@ != k@,
            decreases self.items@.len() - i,
        {
            if bytes_equal(&self.items[i].0, k) {
                return Some(i);
            }
            i = i + 1;
        }
        None
    }

    proof fn lemma_at(&self, i: int)
        requires
            self.wf(),
            0 <= i < self.items@.len(),
        ensures
            self.view().contains_key(self.items@[i].0@),
            self.view()[self.items@[i].0@] == self.items@[i].1,
    {
        let k = self.items@[i].0@;
        assert(self.keys().contains(k));
        let j = choose|j: int| 0 <= j < self.items@.len() && self.items@[j].0@ == k;
        assert(i == j);
    }

    /// Whether a key is held.
    pub fn contains(&self, k: &Vec<u8>) -> (r: bool)
        requires
            self.wf(),
        ensures
            r == self.view().contains_key(k@),
    {
        match self.find(k) {
            Some(i) => {
                proof {
                    self.lemma_at(i as int);
                }
                true
            },
            None => false,
        }
    }

    /// The value held under a key, if any.
    pub fn get(&self, k: &Vec<u8>) -> (r: Option<&V>)
        requires
            self.wf(),
        ensures
            match r {
                Some(v) => self.view().contains_key(k@) && self.view()[k@] == *v,
                None => !self.view().contains_key(k@),
            },
    {
        match self.find(k) {
            Some(i) => {
                proof {
                    self.lemma_at(i as int);
                }
                Some(&self.items[i].1)
            },
            None => None,
        }
    }

    /// Holds `v` under `k`, replacing what was held there.
    pub fn insert(&mut self, k: Vec<u8>, v: V)
        requires
            old(self).wf(),
        ensures
            final(self).wf(),
            final(self).view() == old(self).view().insert(k@, v),
    {
        let ghost pre = self.view();
        match self.find(&k) {
            Some(i) => {
                proof {
                    self.lemma_at(i as int);
                }
                self.items.set(i, (k, v));
            },
            None => {
                self.items.push((k, v));
            },
        }
        proof {
            assert(self.wf());
            let post = self.view();
            let want = pre.insert(k@, v);
            assert forall|key: Seq<u8>| post.contains_key(key) == want.contains_key(key) by {
                if want.contains_key(key) && key != k@ {
                    let j = choose|j: int| 0 <= j < old(self).items@.len() && old(self).items@[j].0@ == key;
                    assert(self.items@[j] == old(self).items@[j]);
                    assert(self.keys().contains(key));
                }
                if post.contains_key(key) && key != k@ {
                    let j = choose|j: int| 0 <= j < self.items@.len() && self.items@[j].0@ == key;
                    assert(old(self).items@[j] == self.items@[j]);
                    assert(old(self).keys().contains(key));
                }
                if key == k@ {
                    let j = choose|j: int| 0 <= j < self.items@.len() && self.items@[j].0@ == key;
                    assert(self.keys().contains(key)) by {
                        let n = if self.items@.len() > old(self).items@.len() { old(self).items@.len() as int } else {
                            choose|i: int| 0 <= i < old(self).items@.len() && old(self).items@[i].0@ == k@
                        };
                        assert(0 <= n < self.items@.len() && self.items@[n].0@ == key);
                    }
                }
            }
            assert forall|key: Seq<u8>| post.contains_key(key) implies post[key] == want[key] by {
                let j = choose|j: int| 0 <= j < self.items@.len() && self.items@[j].0@ == key;
                self.lemma_at(j);
                if key != k@ {
                    assert(old(self).items@[j] == self.items@[j]);
                    old(self).lemma_at(j);
                }
            }
            assert(post =~= want);
        }
    }

    /// Removes what is held under `k`, if anything.
    pub fn remove(&mut self, k: &Vec<u8>)
        requires
            old(self).wf(),
        ensures
            final(self).wf(),
            final(self).view() == old(self).view().remove(k@),
    {
        let ghost pre = self.view();
        match self.find(k) {
            Some(i) => {
                self.items.remove(i);
                proof {
                    let post = self.view();
                    let want = pre.remove(k@);
                    let o = old(self).items@;
                    let n = self.items@;
                    assert forall|a: int| 0 <= a < n.len() implies #[trigger] n[a] == o[if a < i { a } else { a + 1 }] by {}
                    assert(self.wf()) by {
                        assert forall|a: int, b: int| 0 <= a < n.len() && 0 <= b < n.len() && a != b
                            implies (#[trigger] n[a]).0@ != (#[trigger] n[b]).0@ by {
                            let a2 = if a < i { a } else { a + 1 };
                            let b2 = if b < i { b } else { b + 1 };
                            assert(n[a] == o[a2] && n[b] == o[b2]);
                        }
                    }
                    assert forall|key: Seq<u8>| post.contains_key(key) == want.contains_key(key) by {
                        if want.contains_key(key) {
                            let j = choose|j: int| 0 <= j < o.len() && o[j].0@ == key;
                            assert(j != i);
                            let j2 = if j < i { j } else { j - 1 };
                            assert(n[j2] == o[j]);
                            assert(self.keys().contains(key));
                        }
                        if post.contains_key(key) {
                            let j = choose|j: int| 0 <= j < n.len() && n[j].0@ == key;
                            let j2 = if j < i { j } else { j + 1 };
                            assert(n[j] == o[j2]);
                            assert(old(self).keys().contains(key));
                            assert(key != k@);
                        }
                    }
                    assert forall|key: Seq<u8>| post.contains_key(key) implies post[key] == want[key] by {
                        let j = choose|j: int| 0 <= j < n.len() && n[j].0@ == key;
                        self.lemma_at(j);
                        let j2 = if j < i { j } else { j + 1 };
                        assert(n[j] == o[j2]);
                        old(self).lemma_at(j2);
                    }
                    assert(post =~= want);
                }
            },
            None => {
                assert(pre.remove(k@) =~= pre);
            },
        }
    }
}

} // verus!
