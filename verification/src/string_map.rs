//! A finite map keyed by strings, kept as a vector of entries with pairwise
//! distinct keys. Its model is a `Map<Seq<char>, V>`.

use vstd::prelude::*;

verus! {

pub struct StringMap<V> {
    entries: Vec<(String, V)>,
}

/// Whether the key `k` occurs at some index of `s`.
pub open spec fn seq_has_key<V>(s: Seq<(String, V)>, k: Seq<char>) -> bool {
    exists|i: int| 0 <= i < s.len() && (#[trigger] s[i]).0@ == k
}

/// Keys of `s` are pairwise distinct.
pub open spec fn seq_keys_unique<V>(s: Seq<(String, V)>) -> bool {
    forall|i: int, j: int|
        0 <= i < s.len() && 0 <= j < s.len() && i != j ==> (#[trigger] s[i]).0@ != (#[trigger] s[j]).0@
}

/// The map that a sequence of entries stands for.
pub open spec fn seq_to_map<V>(s: Seq<(String, V)>) -> Map<Seq<char>, V> {
    Map::new(
        |k: Seq<char>| seq_has_key(s, k),
        |k: Seq<char>| s[choose|i: int| 0 <= i < s.len() && (#[trigger] s[i]).0@ == k].1,
    )
}

/// With distinct keys, every entry is found in the map under its key.
pub proof fn lemma_seq_to_map_entries<V>(s: Seq<(String, V)>)
    requires
        seq_keys_unique(s),
    ensures
        forall|i: int|
            0 <= i < s.len() ==> seq_to_map(s).contains_key((#[trigger] s[i]).0@) && seq_to_map(
                s,
            )[s[i].0@] == s[i].1,
        forall|k: Seq<char>| #[trigger] seq_to_map(s).contains_key(k) <==> seq_has_key(s, k),
{
    assert forall|i: int| 0 <= i < s.len() implies seq_to_map(s).contains_key(
        (#[trigger] s[i]).0@,
    ) && seq_to_map(s)[s[i].0@] == s[i].1 by {
        let k = s[i].0@;
        assert(seq_has_key(s, k));
        let j = choose|j: int| 0 <= j < s.len() && (#[trigger] s[j]).0@ == k;
        assert(j == i);
    }
}

impl<V> View for StringMap<V> {
    type V = Map<Seq<char>, V>;

    closed spec fn view(&self) -> Map<Seq<char>, V> {
        seq_to_map(self.entries@)
    }
}

impl<V> StringMap<V> {
    /// The entries in storage order.
    pub closed spec fn entry_seq(&self) -> Seq<(String, V)> {
        self.entries@
    }

    /// The keys are pairwise distinct.
    pub closed spec fn wf(&self) -> bool {
        seq_keys_unique(self.entries@)
    }

    /// The model is the map that the entries stand for.
    pub proof fn lemma_view(&self)
        requires
            self.wf(),
        ensures
            self@ == seq_to_map(self.entry_seq()),
            seq_keys_unique(self.entry_seq()),
            forall|i: int|
                0 <= i < self.entry_seq().len() ==> self@.contains_key(
                    (#[trigger] self.entry_seq()[i]).0@,
                ) && self@[self.entry_seq()[i].0@] == self.entry_seq()[i].1,
            forall|k: Seq<char>| #[trigger]
                self@.contains_key(k) <==> seq_has_key(self.entry_seq(), k),
    {
        lemma_seq_to_map_entries(self.entries@);
    }

    pub fn new() -> (m: Self)
        ensures
            m.wf(),
            m@ == Map::<Seq<char>, V>::empty(),
            m.entry_seq().len() == 0,
    {
        let m = StringMap { entries: Vec::new() };
        assert(m@ =~= Map::<Seq<char>, V>::empty());
        m
    }

    /// Number of entries; equal to the number of keys of the model.
    pub fn entry_count(&self) -> (n: usize)
        ensures
            n == self.entry_seq().len(),
    {
        self.entries.len()
    }

    /// The entry stored at index `i`.
    pub fn entry_at(&self, i: usize) -> (e: &(String, V))
        requires
            i < self.entry_seq().len(),
        ensures
            *e == self.entry_seq()[i as int],
    {
        &self.entries[i]
    }

    pub fn is_empty(&self) -> (b: bool)
        requires
            self.wf(),
        ensures
            b == self@.dom().is_empty(),
            b == (self.entry_seq().len() == 0),
    {
        proof {
            lemma_seq_to_map_entries(self.entries@);
            if self.entries@.len() > 0 {
                assert(self@.dom().contains(self.entries@[0].0@));
            }
        }
        self.entries.len() == 0
    }

    fn index_of(&self, k: &String) -> (r: Option<usize>)
        ensures
            r matches Some(i) ==> i < self.entries@.len() && self.entries@[i as int].0@ == k@,
            r is None ==> !seq_has_key(self.entries@, k@),
    {
        let n = self.entries.len();
        let mut i: usize = 0;
        while i < n
            invariant
                n == self.entries@.len(),
                i <= n,
                forall|j: int| 0 <= j < i ==> (#[trigger] self.entries@[j]).0@ != k@,
            decreases n - i,
        {
            if self.entries[i].0 == *k {
                return Some(i);
            }
            i = i + 1;
        }
        None
    }

    pub fn contains_key(&self, k: &String) -> (b: bool)
        requires
            self.wf(),
        ensures
            b == self@.contains_key(k@),
    {
        self.index_of(k).is_some()
    }

    pub fn get(&self, k: &String) -> (r: Option<&V>)
        requires
            self.wf(),
        ensures
            match r {
                Some(v) => self@.contains_key(k@) && *v == self@[k@],
                None => !self@.contains_key(k@),
            },
    {
        proof {
            lemma_seq_to_map_entries(self.entries@);
        }
        match self.index_of(k) {
            Some(i) => Some(&self.entries[i].1),
            None => None,
        }
    }

    pub fn insert(&mut self, k: String, v: V)
        requires
            old(self).wf(),
        ensures
            final(self).wf(),
            final(self)@ == old(self)@.insert(k@, v),
    {
        let ghost old_entries = self.entries@;
        let ghost kv = k@;
        proof {
            lemma_seq_to_map_entries(old_entries);
        }
        match self.index_of(&k) {
            Some(i) => {
                self.entries.set(i, (k, v));
                let ghost s = self.entries@;
                assert(s[i as int].0@ == kv);
                assert(seq_keys_unique(s)) by {
                    assert forall|a: int, b: int|
                        0 <= a < s.len() && 0 <= b < s.len() && a != b implies (#[trigger] s[a]).0@
                        != (#[trigger] s[b]).0@ by {
                        if a != i && b != i {
                            assert(s[a] == old_entries[a] && s[b] == old_entries[b]);
                        } else if a == i {
                            assert(old_entries[a].0@ == s[a].0@);
                            assert(s[b] == old_entries[b]);
                        } else {
                            assert(old_entries[b].0@ == s[b].0@);
                            assert(s[a] == old_entries[a]);
                        }
                    }
                }
                proof {
                    lemma_seq_to_map_entries(s);
                    assert forall|key: Seq<char>| #[trigger]
                        seq_to_map(s).contains_key(key) <==> has_key_after_insert(
                            old_entries,
                            kv,
                            key,
                        ) by {
                        if seq_has_key(s, key) {
                            let j = choose|j: int| 0 <= j < s.len() && (#[trigger] s[j]).0@ == key;
                            if j != i {
                                assert(old_entries[j] == s[j]);
                                assert(seq_has_key(old_entries, key));
                            } else {
                                assert(key == kv);
                            }
                        }
                        if seq_has_key(old_entries, key) {
                            let j = choose|j: int|
                                0 <= j < old_entries.len() && (#[trigger] old_entries[j]).0@ == key;
                            if j != i {
                                assert(old_entries[j] == s[j]);
                            }
                            assert(seq_has_key(s, key));
                        }
                        if key == kv {
                            assert(s[i as int].0@ == kv);
                            assert(seq_has_key(s, key));
                        }
                    }
                    assert forall|key: Seq<char>| #[trigger]
                        seq_to_map(s).contains_key(key) implies seq_to_map(s)[key] == seq_to_map(
                        old_entries,
                    ).insert(kv, v)[key] by {
                        let j = choose|j: int| 0 <= j < s.len() && (#[trigger] s[j]).0@ == key;
                        if j != i {
                            assert(old_entries[j] == s[j]);
                        }
                    }
                    assert(seq_to_map(s) =~= seq_to_map(old_entries).insert(kv, v));
                }
            },
            None => {
                self.entries.push((k, v));
                let ghost s = self.entries@;
                assert(s.len() == old_entries.len() + 1);
                assert(s[old_entries.len() as int].0@ == kv);
                assert(seq_keys_unique(s)) by {
                    assert forall|a: int, b: int|
                        0 <= a < s.len() && 0 <= b < s.len() && a != b implies (#[trigger] s[a]).0@
                        != (#[trigger] s[b]).0@ by {
                        if a < old_entries.len() && b < old_entries.len() {
                            assert(s[a] == old_entries[a] && s[b] == old_entries[b]);
                        } else if a < old_entries.len() {
                            assert(s[a] == old_entries[a]);
                        } else {
                            assert(s[b] == old_entries[b]);
                        }
                    }
                }
                proof {
                    lemma_seq_to_map_entries(s);
                    assert forall|key: Seq<char>| #[trigger]
                        seq_to_map(s).contains_key(key) <==> has_key_after_insert(
                            old_entries,
                            kv,
                            key,
                        ) by {
                        if seq_has_key(s, key) {
                            let j = choose|j: int| 0 <= j < s.len() && (#[trigger] s[j]).0@ == key;
                            if j < old_entries.len() {
                                assert(old_entries[j] == s[j]);
                                assert(seq_has_key(old_entries, key));
                            } else {
                                assert(key == kv);
                            }
                        }
                        if key == kv {
                            assert(s[old_entries.len() as int].0@ == kv);
                            assert(seq_has_key(s, key));
                        }
                        if seq_has_key(old_entries, key) {
                            let j = choose|j: int|
                                0 <= j < old_entries.len() && (#[trigger] old_entries[j]).0@ == key;
                            assert(old_entries[j] == s[j]);
                            assert(seq_has_key(s, key));
                        }
                    }
                    assert forall|key: Seq<char>| #[trigger]
                        seq_to_map(s).contains_key(key) implies seq_to_map(s)[key] == seq_to_map(
                        old_entries,
                    ).insert(kv, v)[key] by {
                        let j = choose|j: int| 0 <= j < s.len() && (#[trigger] s[j]).0@ == key;
                        if j < old_entries.len() {
                            assert(old_entries[j] == s[j]);
                        }
                    }
                    assert(seq_to_map(s) =~= seq_to_map(old_entries).insert(kv, v));
                }
            },
        }
    }

    pub fn remove(&mut self, k: &String)
        requires
            old(self).wf(),
        ensures
            final(self).wf(),
            final(self)@ == old(self)@.remove(k@),
    {
        let ghost old_entries = self.entries@;
        let ghost kv = k@;
        proof {
            lemma_seq_to_map_entries(old_entries);
        }
        match self.index_of(k) {
            Some(i) => {
                self.entries.remove(i);
                let ghost s = self.entries@;
                assert forall|a: int| 0 <= a < s.len() implies #[trigger] s[a] == old_entries[if a
                    < i {
                    a
                } else {
                    a + 1
                }] by {}
                assert(seq_keys_unique(s)) by {
                    assert forall|a: int, b: int|
                        0 <= a < s.len() && 0 <= b < s.len() && a != b implies (#[trigger] s[a]).0@
                        != (#[trigger] s[b]).0@ by {
                        let a2 = if a < i {
                            a
                        } else {
                            a + 1
                        };
                        let b2 = if b < i {
                            b
                        } else {
                            b + 1
                        };
                        assert(s[a] == old_entries[a2] && s[b] == old_entries[b2]);
                    }
                }
                proof {
                    lemma_seq_to_map_entries(s);
                    assert forall|key: Seq<char>| #[trigger]
                        seq_to_map(s).contains_key(key) <==> (seq_has_key(old_entries, key) && key
                            != kv) by {
                        if seq_has_key(s, key) {
                            let j = choose|j: int| 0 <= j < s.len() && (#[trigger] s[j]).0@ == key;
                            let j2 = if j < i {
                                j
                            } else {
                                j + 1
                            };
                            assert(old_entries[j2] == s[j]);
                        }
                        if seq_has_key(old_entries, key) && key != kv {
                            let j = choose|j: int|
                                0 <= j < old_entries.len() && (#[trigger] old_entries[j]).0@ == key;
                            assert(j != i);
                            if j < i {
                                assert(s[j] == old_entries[j]);
                            } else {
                                assert(s[j - 1] == old_entries[j]);
                            }
                        }
                    }
                    assert forall|key: Seq<char>| #[trigger]
                        seq_to_map(s).contains_key(key) implies seq_to_map(s)[key] == seq_to_map(
                        old_entries,
                    )[key] by {
                        let j = choose|j: int| 0 <= j < s.len() && (#[trigger] s[j]).0@ == key;
                        let j2 = if j < i {
                            j
                        } else {
                            j + 1
                        };
                        assert(old_entries[j2] == s[j]);
                    }
                    assert(seq_to_map(s) =~= seq_to_map(old_entries).remove(kv));
                }
            },
            None => {
                assert(seq_to_map(old_entries) =~= seq_to_map(old_entries).remove(kv));
            },
        }
    }

    /// Removes the entries whose value `keep` refuses; `keep` computes `pred`.
    pub fn retain<F: Fn(&V) -> bool>(&mut self, keep: F, Ghost(pred): Ghost<spec_fn(V) -> bool>)
        requires
            old(self).wf(),
            forall|v: &V| #[trigger] keep.requires((v,)),
            forall|v: &V, b: bool| keep.ensures((v,), b) ==> b == pred(*v),
        ensures
            final(self).wf(),
            forall|key: Seq<char>| #[trigger]
                final(self)@.contains_key(key) <==> (old(self)@.contains_key(key) && pred(
                    old(self)@[key],
                )),
            forall|key: Seq<char>| #[trigger]
                final(self)@.contains_key(key) ==> final(self)@[key] == old(self)@[key],
    {
        let ghost orig = self.entries@;
        proof {
            lemma_seq_to_map_entries(orig);
        }
        let mut rest: Vec<(String, V)> = Vec::new();
        std::mem::swap(&mut rest, &mut self.entries);
        assert(self@ =~= Map::<Seq<char>, V>::empty());
        while rest.len() > 0
            invariant
                rest@ == orig.subrange(0, rest@.len() as int),
                rest@.len() <= orig.len(),
                seq_keys_unique(orig),
                self.wf(),
                forall|v: &V| #[trigger] keep.requires((v,)),
                forall|v: &V, b: bool| keep.ensures((v,), b) ==> b == pred(*v),
                forall|key: Seq<char>| #[trigger]
                    self@.contains_key(key) <==> exists|j: int|
                        rest@.len() <= j < orig.len() && (#[trigger] orig[j]).0@ == key && pred(
                            orig[j].1,
                        ),
                forall|j: int|
                    rest@.len() <= j < orig.len() && pred((#[trigger] orig[j]).1) ==> self@[orig[j].0@]
                        == orig[j].1,
            decreases rest@.len(),
        {
            let ghost n = rest@.len() as int;
            let e = rest.pop().unwrap();
            assert(e == orig[n - 1]);
            let ghost m0 = self@;
            let (k, v) = e;
            if keep(&v) {
                self.insert(k, v);
                assert forall|j: int|
                    n - 1 <= j < orig.len() && pred((#[trigger] orig[j]).1) implies self@[orig[j].0@]
                    == orig[j].1 by {
                    if j != n - 1 {
                        assert(orig[j].0@ != orig[n - 1].0@);
                    }
                }
                assert forall|key: Seq<char>| #[trigger]
                    self@.contains_key(key) <==> exists|j: int|
                        n - 1 <= j < orig.len() && (#[trigger] orig[j]).0@ == key && pred(
                            orig[j].1,
                        ) by {
                    if key == orig[n - 1].0@ {
                        assert(orig[n - 1].0@ == key && pred(orig[n - 1].1));
                    }
                    if exists|j: int|
                        n - 1 <= j < orig.len() && (#[trigger] orig[j]).0@ == key && pred(
                            orig[j].1,
                        ) {
                        let j = choose|j: int|
                            n - 1 <= j < orig.len() && (#[trigger] orig[j]).0@ == key && pred(
                                orig[j].1,
                            );
                        if j != n - 1 {
                            assert(m0.contains_key(key));
                        }
                    }
                }
            } else {
                assert forall|key: Seq<char>| #[trigger]
                    self@.contains_key(key) <==> exists|j: int|
                        n - 1 <= j < orig.len() && (#[trigger] orig[j]).0@ == key && pred(
                            orig[j].1,
                        ) by {
                    if exists|j: int|
                        n - 1 <= j < orig.len() && (#[trigger] orig[j]).0@ == key && pred(
                            orig[j].1,
                        ) {
                        let j = choose|j: int|
                            n - 1 <= j < orig.len() && (#[trigger] orig[j]).0@ == key && pred(
                                orig[j].1,
                            );
                        assert(j != n - 1);
                    }
                }
            }
            assert(rest@ =~= orig.subrange(0, rest@.len() as int));
        }
        proof {
            lemma_seq_to_map_entries(self.entries@);
            assert forall|key: Seq<char>| #[trigger]
                self@.contains_key(key) implies self@[key] == seq_to_map(orig)[key] by {
                let j = choose|j: int|
                    0 <= j < orig.len() && (#[trigger] orig[j]).0@ == key && pred(orig[j].1);
            }
            assert forall|key: Seq<char>| #[trigger]
                self@.contains_key(key) <==> (seq_to_map(orig).contains_key(key) && pred(
                    seq_to_map(orig)[key],
                )) by {
                if seq_to_map(orig).contains_key(key) {
                    let j = choose|j: int| 0 <= j < orig.len() && (#[trigger] orig[j]).0@ == key;
                    assert(seq_to_map(orig)[key] == orig[j].1);
                }
            }
        }
    }
}

/// Whether `key` is a key of the map of `s` after `k` is inserted.
pub open spec fn has_key_after_insert<V>(s: Seq<(String, V)>, k: Seq<char>, key: Seq<char>) -> bool {
    seq_has_key(s, key) || key == k
}

} // verus!
