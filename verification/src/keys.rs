//! The set of keys that are held down.

use vstd::prelude::*;

verus! {

/// A set of key codes. No code is kept twice.
#[derive(Debug)]
pub struct KeySet {
    keys: Vec<u32>,
}

impl View for KeySet {
    type V = Set<u32>;

    closed spec fn view(&self) -> Set<u32> {
        Set::new(|k: u32| self.keys@.contains(k))
    }
}

impl KeySet {
    #[verifier::type_invariant]
    spec fn inv(self) -> bool {
        self.keys@.no_duplicates()
    }

    /// The empty set.
    pub fn new() -> (set: KeySet)
        ensures
            set@ == Set::<u32>::empty(),
    {
        let set = KeySet { keys: Vec::new() };
        assert(set@ =~= Set::<u32>::empty());
        set
    }

    /// Index of `key` among the keys kept, or `None` where it is not kept.
    fn position(&self, key: u32) -> (r: Option<usize>)
        ensures
            match r {
                Some(i) => i < self.keys@.len() && self.keys@[i as int] == key,
                None => !self.keys@.contains(key),
            },
    {
        let mut i: usize = 0;
        while i < self.keys.len()
            invariant
                i <= self.keys.len(),
                forall|j: int| 0 <= j < i ==> self.keys@[j] != key,
            decreases self.keys.len() - i,
        {
            if self.keys[i] == key {
                return Some(i);
            }
            i += 1;
        }
        None
    }

    /// Tells whether `key` is in the set.
    pub fn contains(&self, key: u32) -> (b: bool)
        ensures
            b == self@.contains(key),
    {
        match self.position(key) {
            Some(i) => {
                assert(self.keys@.contains(key));
                true
            },
            None => false,
        }
    }

    /// Tells whether the set is empty.
    pub fn is_empty(&self) -> (b: bool)
        ensures
            b == (self@ == Set::<u32>::empty()),
    {
        let b = self.keys.len() == 0;
        proof {
            if b {
                assert(self@ =~= Set::<u32>::empty());
            } else {
                assert(self.keys@.contains(self.keys@[0]));
                assert(self@.contains(self.keys@[0]));
            }
        }
        b
    }

    /// A copy of the keys kept, without the one at index `skip`.
    fn copy_without(&self, skip: usize) -> (keys: Vec<u32>)
        requires
            skip <= self.keys@.len(),
        ensures
            keys@ == if skip < self.keys@.len() {
                self.keys@.remove(skip as int)
            } else {
                self.keys@
            },
    {
        let mut keys: Vec<u32> = Vec::new();
        let mut i: usize = 0;
        let ghost all = self.keys@;
        while i < self.keys.len()
            invariant
                i <= self.keys.len(),
                all == self.keys@,
                skip <= all.len(),
                keys@ == if skip < i {
                    all.take(i as int).remove(skip as int)
                } else {
                    all.take(i as int)
                },
            decreases self.keys.len() - i,
        {
            if i != skip {
                keys.push(self.keys[i]);
            }
            proof {
                let next = all.take(i as int + 1);
                if skip < i {
                    assert(keys@ =~= next.remove(skip as int));
                } else if skip == i {
                    assert(keys@ =~= next.remove(skip as int));
                } else {
                    assert(keys@ =~= next);
                }
            }
            i += 1;
        }
        assert(all.take(i as int) =~= all);
        keys
    }

    /// Puts `key` into the set.
    pub fn insert(&mut self, key: u32)
        ensures
            final(self)@ == old(self)@.insert(key),
    {
        proof {
            use_type_invariant(&*self);
        }
        let found = self.position(key);
        if found.is_none() {
            let ghost before = self.keys@;
            let mut keys = self.copy_without(self.keys.len());
            keys.push(key);
            proof {
                assert(keys@[before.len() as int] == key);
                assert forall|k: u32| keys@.contains(k) <==> (before.contains(k) || k == key) by {
                    if before.contains(k) {
                        let j = choose|j: int| 0 <= j < before.len() && before[j] == k;
                        assert(keys@[j] == k);
                    }
                }
            }
            self.keys = keys;
            assert(self@ =~= old(self)@.insert(key));
        } else {
            assert(self@ =~= old(self)@.insert(key));
        }
    }

    /// Takes `key` out of the set.
    pub fn remove(&mut self, key: u32)
        ensures
            final(self)@ == old(self)@.remove(key),
    {
        proof {
            use_type_invariant(&*self);
        }
        match self.position(key) {
            Some(i) => {
                let ghost before = self.keys@;
                let keys = self.copy_without(i);
                proof {
                    let after = keys@;
                    assert forall|k: u32| after.contains(k) <==> (before.contains(k) && k
                        != key) by {
                        if after.contains(k) {
                            let j = choose|j: int| 0 <= j < after.len() && after[j] == k;
                            if j < i {
                                assert(before[j] == k);
                            } else {
                                assert(before[j + 1] == k);
                            }
                        }
                        if before.contains(k) && k != key {
                            let j = choose|j: int| 0 <= j < before.len() && before[j] == k;
                            if j < i {
                                assert(after[j] == k);
                            } else {
                                assert(after[j - 1] == k);
                            }
                        }
                    }
                    assert(after.no_duplicates());
                }
                self.keys = keys;
                assert(self@ =~= old(self)@.remove(key));
            },
            None => {
                assert(self@ =~= old(self)@.remove(key));
            },
        }
    }

    /// Empties the set and hands out what it held.
    pub fn drain(&mut self) -> (held: KeySet)
        ensures
            held@ == old(self)@,
            final(self)@ == Set::<u32>::empty(),
    {
        proof {
            use_type_invariant(&*self);
        }
        let keys = self.copy_without(self.keys.len());
        let held = KeySet { keys };
        self.keys = Vec::new();
        assert(self@ =~= Set::<u32>::empty());
        assert(held@ =~= old(self)@);
        held
    }
}

} // verus!
