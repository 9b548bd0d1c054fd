//! A small table keyed by strings, with a map as its model.

use vstd::prelude::*;

verus! {

/// A table from string keys to values. No key occurs twice.
pub struct KeyedTable<T> {
    keys: Vec<String>,
    values: Vec<T>,
    model: Ghost<Map<Seq<char>, T>>,
}

impl<T> View for KeyedTable<T> {
    type V = Map<Seq<char>, T>;

    closed spec fn view(&self) -> Map<Seq<char>, T> {
        self.model@
    }
}

impl<T> KeyedTable<T> {
    /// The table's invariant: the stored pairs are exactly the model's.
    pub closed spec fn wf(&self) -> bool {
        &&& self.keys@.len() == self.values@.len()
        &&& forall|i: int|
            0 <= i < self.keys@.len() ==> self.model@.contains_key(#[trigger] self.keys@[i]@)
                && self.model@[self.keys@[i]@] == self.values@[i]
        &&& forall|k: Seq<char>| #[trigger]
            self.model@.contains_key(k) ==> exists|i: int|
                0 <= i < self.keys@.len() && #[trigger] self.keys@[i]@ == k
        &&& forall|i: int, j: int|
            0 <= i < j < self.keys@.len() ==> #[trigger] self.keys@[i]@ != #[trigger] self.keys@[j]@
    }

    /// An empty table.
    pub fn new() -> (table: Self)
        ensures
            table.wf(),
            table@ == Map::<Seq<char>, T>::empty(),
    {
        KeyedTable { keys: Vec::new(), values: Vec::new(), model: Ghost(Map::empty()) }
    }

    fn position(&self, key: &str) -> (r: Option<usize>)
        requires
            self.wf(),
        ensures
            match r {
                Some(i) => i < self.keys@.len() && self.keys@[i as int]@ == key@,
                None => !self@.contains_key(key@),
            },
    {
        let wanted = key.to_owned();
        let mut i: usize = 0;
        while i < self.keys.len()
            invariant
                i <= self.keys@.len(),
                wanted@ == key@,
                forall|j: int| 0 <= j < i ==> #[trigger] self.keys@[j]@ != key@,
            decreases self.keys@.len() - i,
        {
            if self.keys[i] == wanted {
                return Some(i);
            }
            i = i + 1;
        }
        None
    }

    /// The value stored under `key`, if there is one.
    pub fn get(&self, key: &str) -> (r: Option<&T>)
        requires
            self.wf(),
        ensures
            match r {
                Some(value) => self@.contains_key(key@) && *value == self@[key@],
                None => !self@.contains_key(key@),
            },
    {
        match self.position(key) {
            Some(i) => Some(&self.values[i]),
            None => None,
        }
    }

    /// Stores `value` under `key`, in place of what was stored there.
    pub fn set(&mut self, key: &str, value: T)
        requires
            old(self).wf(),
        ensures
            final(self).wf(),
            final(self)@ == old(self)@.insert(key@, value),
    {
        match self.position(key) {
            Some(i) => {
                self.model = Ghost(self.model@.insert(key@, value));
                self.values.set(i, value);
                proof {
                    assert forall|k: Seq<char>| #[trigger]
                        self.model@.contains_key(k) implies exists|j: int|
                        0 <= j < self.keys@.len() && #[trigger] self.keys@[j]@ == k by {
                        if k == key@ {
                            assert(self.keys@[i as int]@ == k);
                        } else {
                            assert(old(self).model@.contains_key(k));
                        }
                    }
                }
            },
            None => {
                self.model = Ghost(self.model@.insert(key@, value));
                self.keys.push(key.to_owned());
                self.values.push(value);
                proof {
                    let last = self.keys@.len() - 1;
                    assert forall|k: Seq<char>| #[trigger]
                        self.model@.contains_key(k) implies exists|j: int|
                        0 <= j < self.keys@.len() && #[trigger] self.keys@[j]@ == k by {
                        if k == key@ {
                            assert(self.keys@[last]@ == k);
                        } else {
                            assert(old(self).model@.contains_key(k));
                            let j = choose|j: int|
                                0 <= j < old(self).keys@.len() && #[trigger] old(self).keys@[j]@
                                    == k;
                            assert(self.keys@[j]@ == k);
                        }
                    }
                    assert forall|a: int, b: int| 0 <= a < b < self.keys@.len() implies #[trigger]
                        self.keys@[a]@ != #[trigger] self.keys@[b]@ by {
                        if b == last {
                            assert(old(self).model@.contains_key(old(self).keys@[a]@));
                        }
                    }
                }
            },
        }
    }

    /// Drops what is stored under `key`.
    pub fn remove(&mut self, key: &str)
        requires
            old(self).wf(),
        ensures
            final(self).wf(),
            final(self)@ == old(self)@.remove(key@),
    {
        match self.position(key) {
            Some(i) => {
                self.model = Ghost(self.model@.remove(key@));
                self.keys.swap_remove(i);
                self.values.swap_remove(i);
                proof {
                    let moved = old(self).keys@.len() - 1;
                    assert forall|j: int| 0 <= j < self.keys@.len() implies self.model@.contains_key(
                        #[trigger] self.keys@[j]@,
                    ) && self.model@[self.keys@[j]@] == self.values@[j] by {
                        if j == i {
                            assert(self.keys@[j] == old(self).keys@[moved]);
                        } else {
                            assert(self.keys@[j] == old(self).keys@[j]);
                        }
                    }
                    assert forall|k: Seq<char>| #[trigger]
                        self.model@.contains_key(k) implies exists|j: int|
                        0 <= j < self.keys@.len() && #[trigger] self.keys@[j]@ == k by {
                        let j = choose|j: int|
                            0 <= j < old(self).keys@.len() && #[trigger] old(self).keys@[j]@ == k;
                        if j == moved {
                            assert(self.keys@[i as int]@ == k);
                        } else {
                            assert(self.keys@[j]@ == k);
                        }
                    }
                    assert forall|a: int, b: int| 0 <= a < b < self.keys@.len() implies #[trigger]
                        self.keys@[a]@ != #[trigger] self.keys@[b]@ by {
                        let a0 = if a == i { moved } else { a };
                        let b0 = if b == i { moved } else { b };
                        assert(self.keys@[a] == old(self).keys@[a0]);
                        assert(self.keys@[b] == old(self).keys@[b0]);
                    }
                }
            },
            None => {
                assert(self.model@.remove(key@) =~= self.model@);
            },
        }
    }
}

} // verus!
