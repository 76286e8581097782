//! A finite map from names to values, kept in insertion order.

use vstd::prelude::*;

verus! {

/// A map from names to values. Each name occurs at most once, and the names
/// keep the order in which they were first inserted.
pub struct AssocMap<V> {
    entries: Vec<(String, V)>,
}

impl<V> AssocMap<V> {
    /// Each name occurs once.
    pub closed spec fn wf(&self) -> bool {
        forall|i: int, j: int|
            0 <= i < j < self.entries@.len() ==> (#[trigger] self.entries@[i]).0@
                != (#[trigger] self.entries@[j]).0@
    }

    /// The names, in insertion order.
    pub closed spec fn key_seq(&self) -> Seq<Seq<char>> {
        self.entries@.map_values(|e: (String, V)| e.0@)
    }

    /// The values, in the order of their names.
    pub closed spec fn val_seq(&self) -> Seq<V> {
        self.entries@.map_values(|e: (String, V)| e.1)
    }

    spec fn has_at(&self, k: Seq<char>, i: int) -> bool {
        0 <= i < self.entries@.len() && self.entries@[i].0@ == k
    }

    /// The map itself.
    pub closed spec fn view(&self) -> Map<Seq<char>, V> {
        Map::new(
            |k: Seq<char>| exists|i: int| self.has_at(k, i),
            |k: Seq<char>| self.entries@[choose|i: int| self.has_at(k, i)].1,
        )
    }

    proof fn lemma_index(&self, i: int)
        requires
            self.wf(),
            0 <= i < self.entries@.len(),
        ensures
            self@.contains_key(self.entries@[i].0@),
            self@[self.entries@[i].0@] == self.entries@[i].1,
    {
        let k = self.entries@[i].0@;
        assert(self.has_at(k, i));
        let j = choose|j: int| self.has_at(k, j);
        if j < i {
            assert(self.entries@[j].0@ != self.entries@[i].0@);
        } else if i < j {
            assert(self.entries@[i].0@ != self.entries@[j].0@);
        }
    }

    /// There is one value for each name.
    pub proof fn lemma_lens(&self)
        ensures
            self.key_seq().len() == self.val_seq().len(),
    {
    }

    /// The names and the map agree: a name is in the map exactly when it is in
    /// the name sequence, and the two sequences have one entry per name.
    pub proof fn lemma_keys(&self)
        requires
            self.wf(),
        ensures
            self.key_seq().len() == self.val_seq().len(),
            forall|k: Seq<char>| #[trigger]
                self@.contains_key(k) <==> self.key_seq().contains(k),
            forall|i: int|
                0 <= i < self.key_seq().len() ==> self@.contains_key(#[trigger] self.key_seq()[i])
                    && self@[self.key_seq()[i]] == self.val_seq()[i],
            forall|i: int, j: int|
                0 <= i < j < self.key_seq().len() ==> self.key_seq()[i] != self.key_seq()[j],
    {
        assert forall|k: Seq<char>| #[trigger] self@.contains_key(k) <==> self.key_seq().contains(k) by {
            if self@.contains_key(k) {
                let i = choose|i: int| self.has_at(k, i);
                assert(self.key_seq()[i] == k);
            }
            if self.key_seq().contains(k) {
                let i = choose|i: int| 0 <= i < self.key_seq().len() && self.key_seq()[i] == k;
                assert(self.has_at(k, i));
            }
        }
        assert forall|i: int| 0 <= i < self.key_seq().len() implies self@.contains_key(#[trigger] self.key_seq()[i])
            && self@[self.key_seq()[i]] == self.val_seq()[i] by {
            self.lemma_index(i);
        }
        assert forall|i: int, j: int| 0 <= i < j < self.key_seq().len() implies self.key_seq()[i] != self.key_seq()[j] by {
            assert(self.entries@[i].0@ != self.entries@[j].0@);
        }
    }

    /// An empty map.
    pub fn new() -> (m: Self)
        ensures
            m.wf(),
            m@ == Map::<Seq<char>, V>::empty(),
            m.key_seq() == Seq::<Seq<char>>::empty(),
    {
        let m = AssocMap { entries: Vec::new() };
        assert(m@ =~= Map::<Seq<char>, V>::empty());
        assert(m.key_seq() =~= Seq::<Seq<char>>::empty());
        m
    }

    /// The number of names.
    pub fn len(&self) -> (n: usize)
        ensures
            n == self.key_seq().len(),
    {
        self.entries.len()
    }

    fn index_of(&self, key: &String) -> (r: Option<usize>)
        ensures
            match r {
                Some(i) => i < self.entries@.len() && self.entries@[i as int].0@ == key@,
                None => !self@.contains_key(key@),
            },
    {
        let mut i: usize = 0;
        while i < self.entries.len()
            invariant
                i <= self.entries@.len(),
                forall|j: int| 0 <= j < i ==> self.entries@[j].0@ != key@,
            decreases self.entries@.len() - i,
        {
            if self.entries[i].0 == *key {
                return Some(i);
            }
            i = i + 1;
        }
        assert(!self@.contains_key(key@)) by {
            if self@.contains_key(key@) {
                let j = choose|j: int| self.has_at(key@, j);
                assert(self.entries@[j].0@ != key@);
            }
        }
        None
    }

    /// Whether the map holds `key`.
    pub fn contains_key(&self, key: &String) -> (b: bool)
        requires
            self.wf(),
        ensures
            b == self@.contains_key(key@),
    {
        match self.index_of(key) {
            Some(i) => {
                proof { self.lemma_index(i as int); }
                true
            },
            None => false,
        }
    }

    /// The value stored under `key`, if any.
    pub fn get(&self, key: &String) -> (r: Option<&V>)
        requires
            self.wf(),
        ensures
            match r {
                Some(v) => self@.contains_key(key@) && *v == self@[key@],
                None => !self@.contains_key(key@),
            },
    {
        match self.index_of(key) {
            Some(i) => {
                proof { self.lemma_index(i as int); }
                Some(&self.entries[i].1)
            },
            None => None,
        }
    }

    /// The name at position `i`.
    pub fn key_at(&self, i: usize) -> (k: &String)
        requires
            i < self.key_seq().len(),
        ensures
            k@ == self.key_seq()[i as int],
    {
        &self.entries[i].0
    }

    /// The value at position `i`.
    pub fn value_at(&self, i: usize) -> (v: &V)
        requires
            i < self.key_seq().len(),
        ensures
            *v == self.val_seq()[i as int],
    {
        &self.entries[i].1
    }

    /// Stores `value` under `key`, replacing what was there. A new name goes last.
    pub fn insert(&mut self, key: String, value: V)
        requires
            old(self).wf(),
        ensures
            final(self).wf(),
            final(self)@ == old(self)@.insert(key@, value),
            old(self)@.contains_key(key@) ==> final(self).key_seq() == old(self).key_seq(),
            !old(self)@.contains_key(key@) ==> final(self).key_seq() == old(self).key_seq().push(key@),
    {
        let ghost old_self = *self;
        let ghost k = key@;
        let ghost mut idx: int = 0;
        match self.index_of(&key) {
            Some(i) => {
                proof { idx = i as int; }
                proof { old_self.lemma_index(i as int); }
                self.entries.set(i, (key, value));
                proof {
                    assert forall|a: int, b: int| 0 <= a < b < self.entries@.len() implies
                        (#[trigger] self.entries@[a]).0@ != (#[trigger] self.entries@[b]).0@ by {
                        assert(old_self.entries@[a].0@ != old_self.entries@[b].0@);
                    }
                }
            },
            None => {
                proof { idx = self.entries@.len() as int; }
                self.entries.push((key, value));
                proof {
                    assert forall|a: int, b: int| 0 <= a < b < self.entries@.len() implies
                        (#[trigger] self.entries@[a]).0@ != (#[trigger] self.entries@[b]).0@ by {
                        if b < old_self.entries@.len() {
                            assert(old_self.entries@[a].0@ != old_self.entries@[b].0@);
                        } else {
                            old_self.lemma_index(a);
                        }
                    }
                }
            },
        }
        proof {
            let ghost new_self = *self;
            assert forall|a: int, b: int| 0 <= a < b < new_self.entries@.len() implies
                (#[trigger] new_self.entries@[a]).0@ != (#[trigger] new_self.entries@[b]).0@ by {
                assert(self.entries@[a].0@ != self.entries@[b].0@);
            }
            assert forall|kk: Seq<char>| #![auto] new_self@.contains_key(kk) == old_self@.insert(k, value).contains_key(kk) by {
                if new_self@.contains_key(kk) {
                    let j = choose|j: int| new_self.has_at(kk, j);
                    if kk != k {
                        assert(old_self.has_at(kk, j));
                    }
                }
                if old_self@.contains_key(kk) {
                    let j = choose|j: int| old_self.has_at(kk, j);
                    assert(new_self.has_at(kk, j));
                }
                if kk == k {
                    let j = if old_self@.contains_key(k) { choose|j: int| old_self.has_at(k, j) } else { old_self.entries@.len() as int };
                    assert(new_self.has_at(kk, j));
                }
            }
            assert forall|kk: Seq<char>| #![auto] new_self@.contains_key(kk) implies new_self@[kk] == old_self@.insert(k, value)[kk] by {
                let j = choose|j: int| new_self.has_at(kk, j);
                new_self.lemma_index(j);
                if kk == k {
                    assert(new_self.entries@[idx] == (key, value));
                    new_self.lemma_index(idx);
                }
                if kk != k {
                    assert(old_self.has_at(kk, j));
                    old_self.lemma_index(j);
                }
            }
            assert(new_self@ =~= old_self@.insert(k, value));
            assert(new_self.key_seq() =~= if old_self@.contains_key(k) { old_self.key_seq() } else { old_self.key_seq().push(k) });
        }
    }

    /// Removes `key` and what is stored under it; the other names keep their order.
    pub fn remove(&mut self, key: &String) -> (r: Option<V>)
        requires
            old(self).wf(),
        ensures
            final(self).wf(),
            final(self)@ == old(self)@.remove(key@),
            match r {
                Some(v) => old(self)@.contains_key(key@) && v == old(self)@[key@],
                None => !old(self)@.contains_key(key@),
            },
            forall|k: Seq<char>| #[trigger] final(self).key_seq().contains(k)
                <==> old(self).key_seq().contains(k) && k != key@,
    {
        let ghost old_self = *self;
        match self.index_of(key) {
            Some(i) => {
                proof { old_self.lemma_index(i as int); }
                let e = self.entries.remove(i);
                proof {
                    let ghost new_self = *self;
                    assert forall|a: int, b: int| 0 <= a < b < new_self.entries@.len() implies
                        (#[trigger] new_self.entries@[a]).0@ != (#[trigger] new_self.entries@[b]).0@ by {
                        let oa = if a < i { a } else { a + 1 };
                        let ob = if b < i { b } else { b + 1 };
                        assert(old_self.entries@[oa].0@ != old_self.entries@[ob].0@);
                    }
                    assert forall|kk: Seq<char>| #![auto] new_self@.contains_key(kk) == old_self@.remove(key@).contains_key(kk) by {
                        if new_self@.contains_key(kk) {
                            let j = choose|j: int| new_self.has_at(kk, j);
                            let oj = if j < i { j } else { j + 1 };
                            assert(old_self.has_at(kk, oj));
                            assert(old_self.entries@[oj].0@ != old_self.entries@[i as int].0@);
                        }
                        if old_self@.contains_key(kk) && kk != key@ {
                            let j = choose|j: int| old_self.has_at(kk, j);
                            assert(j != i);
                            let nj = if j < i { j } else { j - 1 };
                            assert(new_self.has_at(kk, nj));
                        }
                    }
                    assert forall|kk: Seq<char>| #![auto] new_self@.contains_key(kk) implies new_self@[kk] == old_self@.remove(key@)[kk] by {
                        let j = choose|j: int| new_self.has_at(kk, j);
                        new_self.lemma_index(j);
                        let oj = if j < i { j } else { j + 1 };
                        assert(old_self.has_at(kk, oj));
                        old_self.lemma_index(oj);
                    }
                    assert(new_self@ =~= old_self@.remove(key@));
                    new_self.lemma_keys();
                    old_self.lemma_keys();
                    assert forall|kk: Seq<char>| #[trigger] new_self.key_seq().contains(kk)
                        <==> old_self.key_seq().contains(kk) && kk != key@ by {
                    }
                }
                Some(e.1)
            },
            None => {
                proof {
                    assert(self@ =~= old_self@.remove(key@));
                    old_self.lemma_keys();
                }
                None
            },
        }
    }

    /// Removes every name.
    pub fn clear(&mut self)
        ensures
            final(self).wf(),
            final(self)@ == Map::<Seq<char>, V>::empty(),
            final(self).key_seq() == Seq::<Seq<char>>::empty(),
    {
        self.entries = Vec::new();
        assert(self@ =~= Map::<Seq<char>, V>::empty());
        assert(self.key_seq() =~= Seq::<Seq<char>>::empty());
    }
}

impl AssocMap<std::rc::Rc<crate::ast::FunctionDecl>> {
    /// Another map that shares the same functions under the same names.
    pub fn share_all(&self) -> (r: Self)
        requires
            self.wf(),
        ensures
            r.wf(),
            r@ == self@,
            r.key_seq() == self.key_seq(),
    {
        let mut entries: Vec<(String, std::rc::Rc<crate::ast::FunctionDecl>)> = Vec::new();
        let mut i: usize = 0;
        while i < self.entries.len()
            invariant
                i <= self.entries@.len(),
                entries@.len() == i,
                forall|j: int| 0 <= j < i ==> (#[trigger] entries@[j]).0@ == self.entries@[j].0@
                    && entries@[j].1 == self.entries@[j].1,
            decreases self.entries@.len() - i,
        {
            let k = self.entries[i].0.clone();
            let v = crate::ast::share_rc(&self.entries[i].1);
            entries.push((k, v));
            i = i + 1;
        }
        let r = AssocMap { entries };
        proof {
            assert forall|a: int, b: int| 0 <= a < b < r.entries@.len() implies
                (#[trigger] r.entries@[a]).0@ != (#[trigger] r.entries@[b]).0@ by {
                assert(self.entries@[a].0@ != self.entries@[b].0@);
            }
            assert forall|k: Seq<char>| #![auto] r@.contains_key(k) == self@.contains_key(k) by {
                if r@.contains_key(k) {
                    let j = choose|j: int| r.has_at(k, j);
                    assert(self.has_at(k, j));
                }
                if self@.contains_key(k) {
                    let j = choose|j: int| self.has_at(k, j);
                    assert(r.has_at(k, j));
                }
            }
            assert forall|k: Seq<char>| #![auto] r@.contains_key(k) implies r@[k] == self@[k] by {
                let j = choose|j: int| r.has_at(k, j);
                r.lemma_index(j);
                assert(self.has_at(k, j));
                self.lemma_index(j);
            }
            assert(r@ =~= self@);
            assert(r.key_seq() =~= self.key_seq());
        }
        r
    }
}

impl AssocMap<crate::value::NyashBox> {
    /// A copy of the map; heap objects are shared, not copied.
    pub fn clone_values(&self) -> (r: Self)
        requires
            self.wf(),
        ensures
            r.wf(),
            r@ == self@,
            r.key_seq() == self.key_seq(),
    {
        let mut entries: Vec<(String, crate::value::NyashBox)> = Vec::new();
        let mut i: usize = 0;
        while i < self.entries.len()
            invariant
                i <= self.entries@.len(),
                entries@.len() == i,
                forall|j: int| 0 <= j < i ==> (#[trigger] entries@[j]).0@ == self.entries@[j].0@
                    && entries@[j].1 == self.entries@[j].1,
            decreases self.entries@.len() - i,
        {
            let k = self.entries[i].0.clone();
            let v = self.entries[i].1.clone_box();
            entries.push((k, v));
            i = i + 1;
        }
        let r = AssocMap { entries };
        proof {
            assert forall|a: int, b: int| 0 <= a < b < r.entries@.len() implies
                (#[trigger] r.entries@[a]).0@ != (#[trigger] r.entries@[b]).0@ by {
                assert(self.entries@[a].0@ != self.entries@[b].0@);
            }
            assert forall|k: Seq<char>| #![auto] r@.contains_key(k) == self@.contains_key(k) by {
                if r@.contains_key(k) {
                    let j = choose|j: int| r.has_at(k, j);
                    assert(self.has_at(k, j));
                }
                if self@.contains_key(k) {
                    let j = choose|j: int| self.has_at(k, j);
                    assert(r.has_at(k, j));
                }
            }
            assert forall|k: Seq<char>| #![auto] r@.contains_key(k) implies r@[k] == self@[k] by {
                let j = choose|j: int| r.has_at(k, j);
                r.lemma_index(j);
                assert(self.has_at(k, j));
                self.lemma_index(j);
            }
            assert(r@ =~= self@);
            assert(r.key_seq() =~= self.key_seq());
        }
        r
    }
}

} // verus!
