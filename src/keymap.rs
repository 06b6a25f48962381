use vstd::prelude::*;

verus! {

/// Whether two byte strings are equal.
pub fn bytes_eq(a: &[u8], b: &[u8]) -> (r: bool)
    ensures
        r == (a@ == b@),
{
    if a.len() != b.len() {
        return false;
    }
    let mut i: usize = 0;
    while i < a.len()
        invariant
            a@.len() == b@.len(),
            0 <= i <= a@.len(),
            forall|j: int| 0 <= j < i ==> a@[j] == b@[j],
        decreases a@.len() - i,
    {
        if a[i] != b[i] {
            return false;
        }
        i = i + 1;
    }
    proof {
        assert(a@ =~= b@);
    }
    true
}

/// A map from byte-string keys to values, kept as a list of entries whose
/// keys are all different, in the order in which the keys first came.
pub struct KeyMap<V> {
    entries: Vec<(Vec<u8>, V)>,
    model: Ghost<Map<Seq<u8>, V>>,
}

impl<V> View for KeyMap<V> {
    type V = Map<Seq<u8>, V>;

    closed spec fn view(&self) -> Map<Seq<u8>, V> {
        self.model@
    }
}

impl<V> KeyMap<V> {
    /// The entries hold exactly the map's pairs, each key once.
    pub closed spec fn wf(&self) -> bool {
        let e = self.entries@;
        &&& self.model@.dom().finite()
        &&& self.model@.dom().len() == e.len()
        &&& forall|i: int|
            0 <= i < e.len() ==> #[trigger] self.model@.contains_key(e[i].0@) && self.model@[e[i].0@]
                == e[i].1
        &&& forall|k: Seq<u8>|
            #[trigger] self.model@.contains_key(k) ==> exists|i: int|
                0 <= i < e.len() && #[trigger] e[i].0@ == k
        &&& forall|i: int, j: int|
            0 <= i < e.len() && 0 <= j < e.len() && i != j ==> #[trigger] e[i].0@ != #[trigger] e[j].0@
    }

    /// An empty map.
    pub fn new() -> (r: Self)
        ensures
            r.wf(),
            r@ == Map::<Seq<u8>, V>::empty(),
    {
        KeyMap { entries: Vec::new(), model: Ghost(Map::empty()) }
    }

    /// The index of the entry whose key is `key`, if there is one.
    fn find(&self, key: &[u8]) -> (r: Option<usize>)
        requires
            self.wf(),
        ensures
            r matches Some(i) ==> i < self.entries@.len() && self.entries@[i as int].0@ == key@,
            r is None ==> !self@.contains_key(key@),
    {
        let mut i: usize = 0;
        while i < self.entries.len()
            invariant
                self.wf(),
                0 <= i <= self.entries@.len(),
                forall|j: int| 0 <= j < i ==> #[trigger] self.entries@[j].0@ != key@,
            decreases self.entries@.len() - i,
        {
            if bytes_eq(self.entries[i].0.as_slice(), key) {
                return Some(i);
            }
            i = i + 1;
        }
        None
    }

    /// The number of keys in the map.
    pub fn len(&self) -> (r: usize)
        requires
            self.wf(),
        ensures
            r == self@.dom().len(),
    {
        self.entries.len()
    }

    /// Whether the map holds no key.
    pub fn is_empty(&self) -> (r: bool)
        requires
            self.wf(),
        ensures
            r == (self@.dom().len() == 0),
    {
        self.entries.len() == 0
    }

    /// Whether the map holds `key`.
    pub fn contains_key(&self, key: &[u8]) -> (r: bool)
        requires
            self.wf(),
        ensures
            r == self@.contains_key(key@),
    {
        match self.find(key) {
            Some(_) => true,
            None => false,
        }
    }

    /// The value held under `key`, if any.
    pub fn get(&self, key: &[u8]) -> (r: Option<&V>)
        requires
            self.wf(),
        ensures
            r matches Some(v) ==> self@.contains_key(key@) && *v == self@[key@],
            r is None ==> !self@.contains_key(key@),
    {
        match self.find(key) {
            Some(i) => {
                proof {
                    assert(self.model@.contains_key(self.entries@[i as int].0@));
                }
                Some(&self.entries[i].1)
            },
            None => None,
        }
    }

    /// Puts `value` under `key`, replacing what was there.
    pub fn insert(&mut self, key: Vec<u8>, value: V)
        requires
            old(self).wf(),
        ensures
            final(self).wf(),
            final(self)@ == old(self)@.insert(key@, value),
    {
        let ghost k = key@;
        let ghost m = self.model@.insert(k, value);
        match self.find(key.as_slice()) {
            Some(i) => {
                let ghost e0 = self.entries@;
                self.entries.set(i, (key, value));
                self.model = Ghost(m);
                proof {
                    let e = self.entries@;
                    assert(m.dom() =~= old(self).model@.dom());
                    assert forall|j: int| 0 <= j < e.len() implies #[trigger] m.contains_key(
                        e[j].0@,
                    ) && m[e[j].0@] == e[j].1 by {
                        if j != i {
                            assert(e[j] == e0[j]);
                            assert(e0[j].0@ != e0[i as int].0@);
                            assert(old(self).model@.contains_key(e0[j].0@));
                        } else {
                            assert(e[j] == (key, value));
                        }
                    }
                    assert forall|q: Seq<u8>| #[trigger] m.contains_key(q) implies exists|j: int|
                        0 <= j < e.len() && #[trigger] e[j].0@ == q by {
                        let j = choose|j: int| 0 <= j < e0.len() && #[trigger] e0[j].0@ == q;
                        if j == i {
                            assert(e[j].0@ == q);
                        } else {
                            assert(e[j] == e0[j]);
                        }
                    }
                    assert forall|a: int, b: int|
                        0 <= a < e.len() && 0 <= b < e.len() && a != b implies #[trigger] e[a].0@
                        != #[trigger] e[b].0@ by {
                        if a != i {
                            assert(e[a] == e0[a]);
                        }
                        if b != i {
                            assert(e[b] == e0[b]);
                        }
                    }
                }
            },
            None => {
                let ghost e0 = self.entries@;
                self.entries.push((key, value));
                self.model = Ghost(m);
                proof {
                    let e = self.entries@;
                    assert(!old(self).model@.dom().contains(k));
                    assert(m.dom() =~= old(self).model@.dom().insert(k));
                    assert forall|j: int| 0 <= j < e.len() implies #[trigger] m.contains_key(
                        e[j].0@,
                    ) && m[e[j].0@] == e[j].1 by {
                        if j < e0.len() {
                            assert(e[j] == e0[j]);
                            assert(old(self).model@.contains_key(e0[j].0@));
                        }
                    }
                    assert forall|q: Seq<u8>| #[trigger] m.contains_key(q) implies exists|j: int|
                        0 <= j < e.len() && #[trigger] e[j].0@ == q by {
                        if q == k {
                            assert(e[e0.len() as int].0@ == q);
                        } else {
                            let j = choose|j: int| 0 <= j < e0.len() && #[trigger] e0[j].0@ == q;
                            assert(e[j] == e0[j]);
                        }
                    }
                    assert forall|a: int, b: int|
                        0 <= a < e.len() && 0 <= b < e.len() && a != b implies #[trigger] e[a].0@
                        != #[trigger] e[b].0@ by {
                        if a < e0.len() {
                            assert(e[a] == e0[a]);
                            assert(old(self).model@.contains_key(e0[a].0@));
                        }
                        if b < e0.len() {
                            assert(e[b] == e0[b]);
                            assert(old(self).model@.contains_key(e0[b].0@));
                        }
                    }
                }
            },
        }
    }

    /// The keys, in the order in which they first came.
    pub closed spec fn key_order(&self) -> Seq<Seq<u8>> {
        self.entries@.map_values(|e: (Vec<u8>, V)| e.0@)
    }

    /// The key order lists each key of the map once.
    pub proof fn lemma_key_order(&self)
        requires
            self.wf(),
        ensures
            self.key_order().len() == self@.dom().len(),
            forall|i: int| 0 <= i < self.key_order().len() ==> self@.contains_key(#[trigger] self.key_order()[i]),
            forall|k: Seq<u8>| #[trigger] self@.contains_key(k) ==> self.key_order().contains(k),
            self.key_order().no_duplicates(),
    {
        let e = self.entries@;
        assert forall|k: Seq<u8>| #[trigger] self@.contains_key(k) implies self.key_order().contains(k) by {
            let i = choose|i: int| 0 <= i < e.len() && #[trigger] e[i].0@ == k;
            assert(self.key_order()[i] == k);
        }
        assert forall|i: int| 0 <= i < self.key_order().len() implies self@.contains_key(#[trigger] self.key_order()[i]) by {
            assert(self.key_order()[i] == e[i].0@);
        }
        assert forall|i: int, j: int| 0 <= i < self.key_order().len() && 0 <= j < self.key_order().len() && i != j implies self.key_order()[i] != self.key_order()[j] by {
            assert(self.key_order()[i] == e[i].0@);
            assert(self.key_order()[j] == e[j].0@);
        }
    }

    /// The keys, in the order in which they first came.
    pub fn keys(&self) -> (r: Vec<Vec<u8>>)
        requires
            self.wf(),
        ensures
            crate::ring::views(r@) == self.key_order(),
    {
        let mut r: Vec<Vec<u8>> = Vec::with_capacity(self.entries.len());
        let mut i: usize = 0;
        while i < self.entries.len()
            invariant
                0 <= i <= self.entries@.len(),
                crate::ring::views(r@) == self.key_order().take(i as int),
            decreases self.entries@.len() - i,
        {
            let ghost before = r@;
            let k = vstd::slice::slice_to_vec(self.entries[i].0.as_slice());
            assert(k@ == self.key_order()[i as int]);
            r.push(k);
            i = i + 1;
            proof {
                assert(crate::ring::views(r@) =~= crate::ring::views(before).push(self.key_order()[i - 1]));
                assert(crate::ring::views(r@) =~= self.key_order().take(i as int));
            }
        }
        proof {
            assert(self.key_order().take(i as int) =~= self.key_order());
        }
        r
    }

    /// The entries of the map, each key once.
    pub fn into_entries(self) -> (r: Vec<(Vec<u8>, V)>)
        requires
            self.wf(),
        ensures
            r@.len() == self@.dom().len(),
            forall|i: int|
                0 <= i < r@.len() ==> #[trigger] self@.contains_key(r@[i].0@) && self@[r@[i].0@]
                    == r@[i].1,
            forall|k: Seq<u8>|
                #[trigger] self@.contains_key(k) ==> exists|i: int|
                    0 <= i < r@.len() && #[trigger] r@[i].0@ == k,
    {
        self.entries
    }
}

} // verus!
