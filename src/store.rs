//! A map from instance names to values, owned by its caller and kept for the
//! life of the process.

use vstd::prelude::*;

verus! {

/// Entries keyed by text, each key at most once. Its view is the map from each
/// key's characters to its value.
pub struct KeyedStore<V> {
    entries: Vec<(String, V)>,
    contents: Ghost<Map<Seq<char>, V>>,
}

impl<V> View for KeyedStore<V> {
    type V = Map<Seq<char>, V>;

    closed spec fn view(&self) -> Map<Seq<char>, V> {
        self.contents@
    }
}

impl<V> KeyedStore<V> {
    /// The keys are distinct, and the entries are exactly the view's.
    pub closed spec fn wf(&self) -> bool {
        let e = self.entries@;
        &&& forall|i: int, j: int|
            0 <= i < j < e.len() ==> (#[trigger] e[i]).0@ != (#[trigger] e[j]).0@
        &&& forall|i: int|
            0 <= i < e.len() ==> self.contents@.contains_key((#[trigger] e[i]).0@)
                && self.contents@[e[i].0@] == e[i].1
        &&& forall|k: Seq<char>|
            #[trigger] self.contents@.contains_key(k) ==> exists|i: int|
                0 <= i < e.len() && (#[trigger] e[i]).0@ == k
    }

    /// An empty store.
    pub fn new() -> (r: Self)
        ensures
            r.wf(),
            r@ == Map::<Seq<char>, V>::empty(),
    {
        KeyedStore { entries: Vec::new(), contents: Ghost(Map::empty()) }
    }

    fn find(&self, key: &String) -> (r: Option<usize>)
        requires
            self.wf(),
        ensures
            match r {
                Some(i) => i < self.entries@.len() && self.entries@[i as int].0@ == key@,
                None => !self@.contains_key(key@),
            },
    {
        let mut i: usize = 0;
        while i < self.entries.len()
            invariant
                self.wf(),
                i <= self.entries@.len(),
                forall|j: int| 0 <= j < i ==> (#[trigger] self.entries@[j]).0@ != key@,
            decreases self.entries@.len() - i,
        {
            if self.entries[i].0 == *key {
                return Some(i);
            }
            i = i + 1;
        }
        None
    }

    /// The value stored under `key`, if any.
    pub fn get(&self, key: &String) -> (r: Option<&V>)
        requires
            self.wf(),
        ensures
            match r {
                Some(v) => self@.contains_key(key@) && *v == self@[key@],
                None => !self@.contains_key(key@),
            },
    {
        match self.find(key) {
            Some(i) => Some(&self.entries[i].1),
            None => None,
        }
    }

    /// Takes the value stored under `key` out of the store.
    pub fn remove(&mut self, key: &String) -> (r: Option<V>)
        requires
            old(self).wf(),
        ensures
            final(self).wf(),
            final(self)@ == old(self)@.remove(key@),
            match r {
                Some(v) => old(self)@.contains_key(key@) && v == old(self)@[key@],
                None => !old(self)@.contains_key(key@),
            },
    {
        match self.find(key) {
            Some(i) => {
                let ghost e = self.entries@;
                let (_k, v) = self.entries.remove(i);
                self.contents = Ghost(self.contents@.remove(key@));
                let ghost f = self.entries@;
                assert(f =~= e.remove(i as int));
                assert forall|a: int, b: int| 0 <= a < b < f.len() implies (#[trigger] f[a]).0@
                    != (#[trigger] f[b]).0@ by {
                    let a0 = if a < i { a } else { a + 1 };
                    let b0 = if b < i { b } else { b + 1 };
                    assert(f[a] == e[a0] && f[b] == e[b0]);
                }
                assert forall|a: int| 0 <= a < f.len() implies self.contents@.contains_key(
                    (#[trigger] f[a]).0@,
                ) && self.contents@[f[a].0@] == f[a].1 by {
                    let a0 = if a < i { a } else { a + 1 };
                    assert(f[a] == e[a0]);
                }
                assert forall|k: Seq<char>| #[trigger] self.contents@.contains_key(k) implies exists|
                    a: int,
                | 0 <= a < f.len() && (#[trigger] f[a]).0@ == k by {
                    let a0 = choose|a0: int| 0 <= a0 < e.len() && (#[trigger] e[a0]).0@ == k;
                    if a0 < i {
                        assert(f[a0] == e[a0]);
                    } else {
                        assert(f[a0 - 1] == e[a0]);
                    }
                }
                Some(v)
            },
            None => {
                assert(self.contents@.remove(key@) =~= self.contents@);
                None
            },
        }
    }

    /// Stores `value` under `key`, in place of what was stored there.
    pub fn insert(&mut self, key: String, value: V)
        requires
            old(self).wf(),
        ensures
            final(self).wf(),
            final(self)@ == old(self)@.insert(key@, value),
    {
        let _ = self.remove(&key);
        let ghost e = self.entries@;
        let ghost k = key@;
        self.contents = Ghost(self.contents@.insert(key@, value));
        self.entries.push((key, value));
        let ghost f = self.entries@;
        assert(f =~= e.push((f.last().0, value)));
        assert forall|a: int, b: int| 0 <= a < b < f.len() implies (#[trigger] f[a]).0@
            != (#[trigger] f[b]).0@ by {
            if b == f.len() - 1 {
                assert(f[a] == e[a]);
            }
        }
        assert forall|a: int| 0 <= a < f.len() implies self.contents@.contains_key(
            (#[trigger] f[a]).0@,
        ) && self.contents@[f[a].0@] == f[a].1 by {
            if a < e.len() {
                assert(f[a] == e[a]);
            }
        }
        assert forall|q: Seq<char>| #[trigger] self.contents@.contains_key(q) implies exists|
            a: int,
        | 0 <= a < f.len() && (#[trigger] f[a]).0@ == q by {
            if q == k {
                assert(f[e.len() as int].0@ == q);
            } else {
                let a0 = choose|a0: int| 0 <= a0 < e.len() && (#[trigger] e[a0]).0@ == q;
                assert(f[a0] == e[a0]);
            }
        }
        assert(self.contents@ =~= old(self)@.insert(k, value));
    }
}

} // verus!
