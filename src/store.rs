//! The answer store: decisions by stable identity key.
use vstd::prelude::*;
use crate::text::{chars_eq, chars_of, string_of};

verus! {

/// Decisions by identity key: `true` approved, `false` rejected; a key that
/// is absent was never decided.
pub struct AnswerStore {
    entries: Vec<(Vec<char>, bool)>,
    model: Ghost<Map<Seq<char>, bool>>,
}

impl View for AnswerStore {
    type V = Map<Seq<char>, bool>;

    closed spec fn view(&self) -> Map<Seq<char>, bool> {
        self.model@
    }
}

impl AnswerStore {
    /// The stored entries agree with the map, one entry per key.
    pub closed spec fn wf(&self) -> bool {
        &&& forall|i: int| 0 <= i < self.entries@.len() ==>
            self.model@.contains_key(#[trigger] self.entries@[i].0@)
                && self.model@[self.entries@[i].0@] == self.entries@[i].1
        &&& forall|k: Seq<char>| #[trigger] self.model@.contains_key(k) ==>
            exists|i: int| 0 <= i < self.entries@.len() && #[trigger] self.entries@[i].0@ == k
        &&& forall|i: int, j: int| 0 <= i < j < self.entries@.len() ==>
            (#[trigger] self.entries@[i]).0@ != (#[trigger] self.entries@[j]).0@
    }

    /// An empty store.
    pub fn new() -> (r: AnswerStore)
        ensures
            r.wf(),
            r@ == Map::<Seq<char>, bool>::empty(),
    {
        AnswerStore { entries: Vec::new(), model: Ghost(Map::empty()) }
    }

    /// Number of decided keys.
    pub fn len(&self) -> (r: usize)
        requires
            self.wf(),
        ensures
            r == self@.len(),
    {
        proof {
            self.lemma_len();
        }
        self.entries.len()
    }

    proof fn lemma_len(&self)
        requires
            self.wf(),
        ensures
            self.entries@.len() == self@.len(),
            self@.dom().finite(),
    {
        let keys = self.entries@.map_values(|e: (Vec<char>, bool)| e.0@);
        assert forall|i: int, j: int| 0 <= i < keys.len() && 0 <= j < keys.len() && i != j
            implies keys[i] != keys[j] by {
            if i < j {
                assert(self.entries@[i].0@ != self.entries@[j].0@);
            } else {
                assert(self.entries@[j].0@ != self.entries@[i].0@);
            }
        }
        keys.unique_seq_to_set();
        assert(keys.to_set() =~= self@.dom()) by {
            assert forall|k: Seq<char>| keys.to_set().contains(k) <==> self@.dom().contains(k) by {
                if self@.dom().contains(k) {
                    let i = choose|i: int| 0 <= i < self.entries@.len() && #[trigger] self.entries@[i].0@ == k;
                    assert(keys[i] == k);
                }
                if keys.to_set().contains(k) {
                    let i = choose|i: int| 0 <= i < keys.len() && keys[i] == k;
                    assert(self.entries@[i].0@ == k);
                }
            }
        }
    }

    /// The position of key `k`, if it is stored.
    fn find(&self, k: &Vec<char>) -> (r: Option<usize>)
        requires
            self.wf(),
        ensures
            match r {
                Some(i) => i < self.entries@.len() && self.entries@[i as int].0@ == k@,
                None => !self@.contains_key(k@),
            },
    {
        let mut i: usize = 0;
        while i < self.entries.len()
            invariant
                self.wf(),
                i <= self.entries@.len(),
                forall|j: int| 0 <= j < i ==> (#[trigger] self.entries@[j]).0@ != k@,
            decreases self.entries.len() - i,
        {
            if chars_eq(&self.entries[i].0, k) {
                return Some(i);
            }
            i = i + 1;
        }
        None
    }

    /// The decision stored under key `k`, if any.
    pub fn get_chars(&self, k: &Vec<char>) -> (r: Option<bool>)
        requires
            self.wf(),
        ensures
            r == (if self@.contains_key(k@) { Some(self@[k@]) } else { None::<bool> }),
    {
        match self.find(k) {
            Some(i) => Some(self.entries[i].1),
            None => None,
        }
    }

    /// Records decision `v` under key `k`, replacing an earlier one.
    pub fn set_chars(&mut self, k: Vec<char>, v: bool)
        requires
            old(self).wf(),
        ensures
            final(self).wf(),
            final(self)@ == old(self)@.insert(k@, v),
    {
        let ghost m = self@.insert(k@, v);
        match self.find(&k) {
            Some(i) => {
                let ghost kv = k@;
                let ghost old_entries = self.entries@;
                self.entries.set(i, (k, v));
                self.model = Ghost(m);
                assert forall|a: int| 0 <= a < self.entries@.len() implies
                    (#[trigger] self.entries@[a]).0@ == old_entries[a].0@ by {
                }
                assert forall|a: int| 0 <= a < self.entries@.len() implies
                    self.model@.contains_key(#[trigger] self.entries@[a].0@)
                        && self.model@[self.entries@[a].0@] == self.entries@[a].1 by {
                    if a != i {
                        assert(self.entries@[a] == old_entries[a]);
                        assert(old_entries[a].0@ != old_entries[i as int].0@);
                    }
                }
                assert forall|a: int, b: int| 0 <= a < b < self.entries@.len() implies
                    (#[trigger] self.entries@[a]).0@ != (#[trigger] self.entries@[b]).0@ by {
                    assert(old_entries[a].0@ != old_entries[b].0@);
                }
                assert forall|q: Seq<char>| #[trigger] self.model@.contains_key(q) implies
                    exists|j: int| 0 <= j < self.entries@.len() && #[trigger] self.entries@[j].0@ == q by {
                    if q == kv {
                        assert(self.entries@[i as int].0@ == q);
                    } else {
                        assert(old(self).model@.contains_key(q));
                        let j = choose|j: int| 0 <= j < old(self).entries@.len() && #[trigger] old(self).entries@[j].0@ == q;
                        assert(self.entries@[j].0@ == q);
                    }
                }
            },
            None => {
                let ghost kv = k@;
                self.entries.push((k, v));
                self.model = Ghost(m);
                assert forall|a: int| 0 <= a < self.entries@.len() implies
                    self.model@.contains_key(#[trigger] self.entries@[a].0@)
                        && self.model@[self.entries@[a].0@] == self.entries@[a].1 by {
                    if a < self.entries@.len() - 1 {
                        assert(self.entries@[a] == old(self).entries@[a]);
                        assert(old(self).model@.contains_key(old(self).entries@[a].0@));
                    }
                }
                assert forall|q: Seq<char>| #[trigger] self.model@.contains_key(q) implies
                    exists|j: int| 0 <= j < self.entries@.len() && #[trigger] self.entries@[j].0@ == q by {
                    if q == kv {
                        assert(self.entries@[self.entries@.len() - 1].0@ == q);
                    } else {
                        assert(old(self).model@.contains_key(q));
                        let j = choose|j: int| 0 <= j < old(self).entries@.len() && #[trigger] old(self).entries@[j].0@ == q;
                        assert(self.entries@[j].0@ == q);
                    }
                }
                assert forall|a: int, b: int| 0 <= a < b < self.entries@.len() implies
                    (#[trigger] self.entries@[a]).0@ != (#[trigger] self.entries@[b]).0@ by {
                    if b == self.entries@.len() - 1 {
                        assert(self.entries@[a] == old(self).entries@[a]);
                        assert(old(self).model@.contains_key(old(self).entries@[a].0@));
                    } else {
                        assert(old(self).entries@[a] == self.entries@[a]);
                        assert(old(self).entries@[b] == self.entries@[b]);
                    }
                }
            },
        }
    }

    /// Forgets the decision stored under key `k`.
    pub fn remove_chars(&mut self, k: &Vec<char>)
        requires
            old(self).wf(),
        ensures
            final(self).wf(),
            final(self)@ == old(self)@.remove(k@),
    {
        let ghost m = self@.remove(k@);
        match self.find(k) {
            Some(i) => {
                let ghost old_entries = self.entries@;
                self.entries.remove(i);
                self.model = Ghost(m);
                assert forall|a: int| 0 <= a < self.entries@.len() implies
                    self.model@.contains_key(#[trigger] self.entries@[a].0@)
                        && self.model@[self.entries@[a].0@] == self.entries@[a].1 by {
                    if a < i {
                        assert(self.entries@[a] == old_entries[a]);
                        assert(old_entries[a].0@ != old_entries[i as int].0@);
                    } else {
                        assert(self.entries@[a] == old_entries[a + 1]);
                        assert(old_entries[i as int].0@ != old_entries[a + 1].0@);
                    }
                }
                assert forall|q: Seq<char>| #[trigger] self.model@.contains_key(q) implies
                    exists|j: int| 0 <= j < self.entries@.len() && #[trigger] self.entries@[j].0@ == q by {
                    let j = choose|j: int| 0 <= j < old_entries.len() && #[trigger] old_entries[j].0@ == q;
                    if j < i {
                        assert(self.entries@[j].0@ == q);
                    } else {
                        assert(j != i);
                        assert(self.entries@[j - 1].0@ == q);
                    }
                }
                assert forall|a: int, b: int| 0 <= a < b < self.entries@.len() implies
                    (#[trigger] self.entries@[a]).0@ != (#[trigger] self.entries@[b]).0@ by {
                    let oa = if a < i { a } else { a + 1 };
                    let ob = if b < i { b } else { b + 1 };
                    assert(self.entries@[a] == old_entries[oa]);
                    assert(self.entries@[b] == old_entries[ob]);
                }
            },
            None => {
                assert(m =~= self@);
            },
        }
    }

    /// The decision stored under key `key`, if any.
    pub fn get(&self, key: &str) -> (r: Option<bool>)
        requires
            self.wf(),
        ensures
            r == (if self@.contains_key(key@) { Some(self@[key@]) } else { None::<bool> }),
    {
        self.get_chars(&chars_of(key))
    }

    /// Records decision `value` under key `key`.
    pub fn set(&mut self, key: &str, value: bool)
        requires
            old(self).wf(),
        ensures
            final(self).wf(),
            final(self)@ == old(self)@.insert(key@, value),
    {
        self.set_chars(chars_of(key), value);
    }

    /// The stored (key, decision) pairs, each key once.
    pub fn entries(&self) -> (r: Vec<(String, bool)>)
        requires
            self.wf(),
        ensures
            r@.len() == self@.len(),
            forall|i: int| 0 <= i < r@.len() ==>
                self@.contains_key(#[trigger] r@[i].0@) && self@[r@[i].0@] == r@[i].1,
            forall|i: int, j: int| 0 <= i < j < r@.len() ==> (#[trigger] r@[i]).0@ != (#[trigger] r@[j]).0@,
    {
        proof {
            self.lemma_len();
        }
        let mut r: Vec<(String, bool)> = Vec::new();
        let mut i: usize = 0;
        while i < self.entries.len()
            invariant
                self.wf(),
                i <= self.entries@.len(),
                r@.len() == i,
                forall|j: int| 0 <= j < i ==>
                    self@.contains_key(#[trigger] r@[j].0@) && self@[r@[j].0@] == r@[j].1,
                forall|j: int| 0 <= j < i ==> (#[trigger] r@[j]).0@ == self.entries@[j].0@,
            decreases self.entries.len() - i,
        {
            let e = &self.entries[i];
            let ghost r0 = r@;
            let entry = (string_of(&e.0), e.1);
            r.push(entry);
            assert(r@ == r0.push(entry));
            assert forall|j: int| 0 <= j < i implies
                self@.contains_key(#[trigger] r@[j].0@) && self@[r@[j].0@] == r@[j].1 by {
                assert(r@[j] == r0[j]);
            }
            assert forall|j: int| 0 <= j < i + 1 implies (#[trigger] r@[j]).0@ == self.entries@[j].0@ by {
                if j < i {
                    assert(r@[j] == r0[j]);
                }
            }
            assert(r@[i as int].0@ == self.entries@[i as int].0@);
            assert(self@.contains_key(self.entries@[i as int].0@));
            i = i + 1;
        }
        assert forall|a: int, b: int| 0 <= a < b < r@.len() implies (#[trigger] r@[a]).0@ != (#[trigger] r@[b]).0@ by {
            assert(self.entries@[a].0@ != self.entries@[b].0@);
        }
        r
    }
}

} // verus!
