use vstd::prelude::*;

use crate::id::{ripemd160_of, EXPECTED_ID_LENGTH_IN_BYTES};
use crate::message::KeyId;

verus! {

/// A key of the store: its bytes and its identifier.
pub struct Key {
    pub id: KeyId,
    pub key: Vec<u8>,
}

impl Key {
    /// The key with the identifier hashed from its bytes.
    pub fn new(key: Vec<u8>) -> (r: Key)
        ensures
            r.key@ == key@,
            r.id@ == ripemd160_of(key@),
    {
        let id = KeyId::generate_from_bytes(key.as_slice());
        Key::new_with_id(key, id)
    }

    /// The key with the given identifier.
    pub fn new_with_id(key: Vec<u8>, id: KeyId) -> (r: Key)
        ensures
            r.key@ == key@,
            r.id@ == id@,
    {
        Key { id, key }
    }

    /// Number of bytes of the key's identifier.
    pub fn length_key_id(&self) -> (r: usize)
        ensures
            r == self.id@.len(),
    {
        self.id.len()
    }
}

/// A value as the store keeps it, with the identifier of its key.
pub struct StoredValue {
    pub key_id: KeyId,
    pub value: Vec<u8>,
}

impl StoredValue {
    pub fn new(key_id: KeyId, value: Vec<u8>) -> (r: StoredValue)
        ensures
            r.key_id@ == key_id@,
            r.value@ == value@,
    {
        StoredValue { key_id, value }
    }

    /// The value.
    pub fn value(&self) -> (r: &Vec<u8>)
        ensures
            r@ == self.value@,
    {
        &self.value
    }

    /// A copy of the value.
    pub fn clone_value(&self) -> (r: Vec<u8>)
        ensures
            r@ == self.value@,
    {
        self.value.clone()
    }
}

/// A key/value store held in memory: each key at most once, with its value
/// and the identifier of the key.
pub struct InMemoryStore {
    value_by_key: Vec<(Vec<u8>, StoredValue)>,
    contents: Ghost<Map<Seq<u8>, Seq<u8>>>,
}

impl View for InMemoryStore {
    type V = Map<Seq<u8>, Seq<u8>>;

    closed spec fn view(&self) -> Map<Seq<u8>, Seq<u8>> {
        self.contents@
    }
}

impl InMemoryStore {
    /// The store's invariant: the entries hold each key once, and the
    /// map of keys to values is exactly what they hold.
    pub closed spec fn wf(&self) -> bool {
        let e = self.value_by_key@;
        &&& forall|i: int, j: int| 0 <= i < e.len() && 0 <= j < e.len() && i != j ==> e[i].0@ != e[j].0@
        &&& forall|i: int| 0 <= i < e.len() ==> #[trigger] self.contents@.contains_key(e[i].0@) && self.contents@[e[i].0@] == e[i].1.value@
        &&& forall|k: Seq<u8>| #[trigger] self.contents@.contains_key(k) ==> exists|i: int| 0 <= i < e.len() && e[i].0@ == k
    }

    /// An empty store.
    pub fn new() -> (r: InMemoryStore)
        ensures
            r.wf(),
            r@ == Map::<Seq<u8>, Seq<u8>>::empty(),
    {
        InMemoryStore { value_by_key: Vec::new(), contents: Ghost(Map::empty()) }
    }

    /// An empty store.
    pub fn new_in_memory_store() -> (r: InMemoryStore)
        ensures
            r.wf(),
            r@ == Map::<Seq<u8>, Seq<u8>>::empty(),
    {
        Self::new()
    }

    fn position_of(&self, key: &Vec<u8>) -> (r: Option<usize>)
        requires
            self.wf(),
        ensures
            match r {
                Some(i) => i < self.value_by_key@.len() && self.value_by_key@[i as int].0@ == key@,
                None => !self@.contains_key(key@),
            },
    {
        let mut i: usize = 0;
        while i < self.value_by_key.len()
            invariant
                self.wf(),
                i <= self.value_by_key@.len(),
                forall|k: int| 0 <= k < i ==> self.value_by_key@[k].0@ != key@,
            decreases self.value_by_key@.len() - i,
        {
            if self.value_by_key[i].0 == *key {
                proof {
                    assert(self.value_by_key@[i as int].0@ =~= key@);
                }
                return Some(i);
            }
            i += 1;
        }
        None
    }

    /// Stores `value` under `key`, replacing what was stored under it.
    pub fn put_or_update(&mut self, key: Key, value: Vec<u8>)
        requires
            old(self).wf(),
        ensures
            final(self).wf(),
            final(self)@ == old(self)@.insert(key.key@, value@),
    {
        let ghost k = key.key@;
        let ghost v = value@;
        let stored = StoredValue::new(key.id, value);
        match self.position_of(&key.key) {
            Some(i) => {
                self.value_by_key.set(i, (key.key, stored));
                self.contents = Ghost(self.contents@.insert(k, v));
                proof {
                    let e = self.value_by_key@;
                    assert forall|k2: Seq<u8>| #[trigger] self.contents@.contains_key(k2) implies exists|j: int| 0 <= j < e.len() && e[j].0@ == k2 by {
                        if k2 != k {
                            assert(old(self).contents@.contains_key(k2));
                            let j = choose|j: int| 0 <= j < old(self).value_by_key@.len() && old(self).value_by_key@[j].0@ == k2;
                            assert(e[j] == old(self).value_by_key@[j]);
                        } else {
                            assert(e[i as int].0@ == k);
                        }
                    }
                }
            },
            None => {
                self.value_by_key.push((key.key, stored));
                self.contents = Ghost(self.contents@.insert(k, v));
                proof {
                    let e = self.value_by_key@;
                    let n = old(self).value_by_key@.len();
                    assert forall|a: int| 0 <= a < n implies e[a].0@ != k by {
                        assert(old(self).contents@.contains_key(old(self).value_by_key@[a].0@));
                    }
                    assert forall|k2: Seq<u8>| #[trigger] self.contents@.contains_key(k2) implies exists|j: int| 0 <= j < e.len() && e[j].0@ == k2 by {
                        if k2 != k {
                            assert(old(self).contents@.contains_key(k2));
                            let j = choose|j: int| 0 <= j < n && old(self).value_by_key@[j].0@ == k2;
                            assert(e[j] == old(self).value_by_key@[j]);
                        } else {
                            assert(e[n as int].0@ == k);
                        }
                    }
                }
            },
        }
    }

    /// Stores `value` under `key`, with the key's identifier hashed from
    /// its bytes.
    pub fn put(&mut self, key: Vec<u8>, value: Vec<u8>)
        requires
            old(self).wf(),
        ensures
            final(self).wf(),
            final(self)@ == old(self)@.insert(key@, value@),
    {
        self.put_or_update(Key::new(key), value);
    }

    /// A copy of the value stored under `key`, if any.
    pub fn get(&self, key: &Vec<u8>) -> (r: Option<Vec<u8>>)
        requires
            self.wf(),
        ensures
            match r {
                Some(v) => self@.contains_key(key@) && v@ == self@[key@],
                None => !self@.contains_key(key@),
            },
    {
        match self.position_of(key) {
            Some(i) => {
                proof {
                    assert(self.contents@.contains_key(self.value_by_key@[i as int].0@));
                }
                Some(self.value_by_key[i].1.clone_value())
            },
            None => None,
        }
    }

    /// Removes what is stored under `key`.
    pub fn delete(&mut self, key: &Vec<u8>)
        requires
            old(self).wf(),
        ensures
            final(self).wf(),
            final(self)@ == old(self)@.remove(key@),
    {
        match self.position_of(key) {
            Some(i) => {
                let ghost old_e = self.value_by_key@;
                self.value_by_key.remove(i);
                self.contents = Ghost(self.contents@.remove(key@));
                proof {
                    let e = self.value_by_key@;
                    assert forall|a: int, b: int| 0 <= a < e.len() && 0 <= b < e.len() && a != b implies e[a].0@ != e[b].0@ by {
                        let oa = if a < i { a } else { a + 1 };
                        let ob = if b < i { b } else { b + 1 };
                        assert(e[a] == old_e[oa]);
                        assert(e[b] == old_e[ob]);
                    }
                    assert forall|a: int| 0 <= a < e.len() implies #[trigger] self.contents@.contains_key(e[a].0@) && self.contents@[e[a].0@] == e[a].1.value@ by {
                        let oa = if a < i { a } else { a + 1 };
                        assert(e[a] == old_e[oa]);
                        assert(oa != i);
                        assert(old(self).contents@.contains_key(old_e[oa].0@));
                        assert(old_e[oa].0@ != old_e[i as int].0@);
                    }
                    assert forall|k2: Seq<u8>| #[trigger] self.contents@.contains_key(k2) implies exists|j: int| 0 <= j < e.len() && e[j].0@ == k2 by {
                        assert(old(self).contents@.contains_key(k2));
                        let j = choose|j: int| 0 <= j < old_e.len() && old_e[j].0@ == k2;
                        assert(j != i);
                        if j < i {
                            assert(e[j] == old_e[j]);
                        } else {
                            assert(e[j - 1] == old_e[j]);
                        }
                    }
                }
            },
            None => {
                proof {
                    assert(self.contents@.remove(key@) =~= self.contents@);
                }
            },
        }
    }
}

} // verus!
