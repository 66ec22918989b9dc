//! A finite map held as a list of pairs with distinct keys.
use vstd::prelude::*;
use crate::text;

verus! {

/// A key of an [`AssocMap`]: it can be compared and copied by what it stands for.
pub trait MapKey: View + Sized {
    /// Whether two keys stand for the same thing.
    fn same_key(&self, other: &Self) -> (r: bool)
        ensures
            r == (self@ == other@),
    ;

    /// A key that stands for the same thing.
    fn copy_key(&self) -> (r: Self)
        ensures
            r@ == self@,
    ;
}

impl MapKey for String {
    fn same_key(&self, other: &Self) -> (r: bool) {
        text::same(self.as_str(), other.as_str())
    }

    fn copy_key(&self) -> (r: Self) {
        self.clone()
    }
}

impl MapKey for (String, String) {
    fn same_key(&self, other: &Self) -> (r: bool) {
        self.0.same_key(&other.0) && self.1.same_key(&other.1)
    }

    fn copy_key(&self) -> (r: Self) {
        (self.0.copy_key(), self.1.copy_key())
    }
}

impl MapKey for (String, String, String) {
    fn same_key(&self, other: &Self) -> (r: bool) {
        self.0.same_key(&other.0) && self.1.same_key(&other.1) && self.2.same_key(&other.2)
    }

    fn copy_key(&self) -> (r: Self) {
        (self.0.copy_key(), self.1.copy_key(), self.2.copy_key())
    }
}

/// A finite map held as a list of pairs.
pub struct AssocMap<K, V> {
    pub entries: Vec<(K, V)>,
}

impl<K: MapKey, V> View for AssocMap<K, V> {
    type V = Map<K::V, V>;

    open spec fn view(&self) -> Map<K::V, V> {
        Map::new(|k: K::V| self.has_key(k), |k: K::V| self.entries@[self.slot(k)].1)
    }
}

impl<K: MapKey, V> AssocMap<K, V> {
    /// Some pair has the key.
    pub open spec fn has_key(&self, k: K::V) -> bool {
        exists|i: int| 0 <= i < self.entries@.len() && (#[trigger] self.entries@[i]).0@ == k
    }

    /// Where the pair with the key stands.
    pub open spec fn slot(&self, k: K::V) -> int {
        choose|i: int| 0 <= i < self.entries@.len() && (#[trigger] self.entries@[i]).0@ == k
    }

    /// No key occurs twice.
    pub open spec fn wf(&self) -> bool {
        forall|i: int, j: int|
            0 <= i < j < self.entries@.len() ==> (#[trigger] self.entries@[i]).0@ != (
            #[trigger] self.entries@[j]).0@
    }

    /// The value at a position is the value of its key.
    pub proof fn lemma_entry(&self, i: int)
        requires
            self.wf(),
            0 <= i < self.entries@.len(),
        ensures
            self@.contains_key(self.entries@[i].0@),
            self@[self.entries@[i].0@] == self.entries@[i].1,
            self.slot(self.entries@[i].0@) == i,
    {
        let k = self.entries@[i].0@;
        let j = self.slot(k);
        assert(self.entries@[j].0@ == k);
        if j < i {
            assert(self.entries@[j].0@ != self.entries@[i].0@);
        }
        if i < j {
            assert(self.entries@[i].0@ != self.entries@[j].0@);
        }
    }

    /// The empty map.
    pub fn new() -> (r: Self)
        ensures
            r.wf(),
            r@ == Map::<K::V, V>::empty(),
            r.entries@.len() == 0,
    {
        let r = AssocMap { entries: Vec::new() };
        assert(r@ =~= Map::<K::V, V>::empty());
        r
    }

    /// Where the pair with the key stands.
    fn position(&self, key: &K) -> (r: Option<usize>)
        requires
            self.wf(),
        ensures
            match r {
                Some(i) => i < self.entries@.len() && self.entries@[i as int].0@ == key@,
                None => !self@.contains_key(key@),
            },
    {
        let mut i: usize = 0;
        while i < self.entries.len()
            invariant
                i <= self.entries@.len(),
                forall|j: int| 0 <= j < i ==> (#[trigger] self.entries@[j]).0@ != key@,
            decreases self.entries@.len() - i,
        {
            if self.entries[i].0.same_key(key) {
                return Some(i);
            }
            i += 1;
        }
        None
    }

    /// The value of the key.
    pub fn get(&self, key: &K) -> (r: Option<&V>)
        requires
            self.wf(),
        ensures
            match r {
                Some(v) => self@.contains_key(key@) && self@[key@] == *v,
                None => !self@.contains_key(key@),
            },
    {
        match self.position(key) {
            Some(i) => {
                proof {
                    self.lemma_entry(i as int);
                }
                Some(&self.entries[i].1)
            },
            None => None,
        }
    }

    /// Whether the key has a value.
    pub fn contains_key(&self, key: &K) -> (r: bool)
        requires
            self.wf(),
        ensures
            r == self@.contains_key(key@),
    {
        self.get(key).is_some()
    }

    /// Gives the key a value.
    pub fn insert(&mut self, key: K, value: V)
        requires
            old(self).wf(),
        ensures
            final(self).wf(),
            final(self)@ == old(self)@.insert(key@, value),
            forall|k: K::V|
                #![trigger final(self)@.contains_key(k)]
                final(self)@.contains_key(k) <==> old(self)@.contains_key(k) || k == key@,
    {
        let ghost before = *self;
        match self.position(&key) {
            Some(i) => {
                self.entries.set(i, (key, value));
                proof {
                    assert(self.wf()) by {
                        assert forall|a: int, b: int| 0 <= a < b < self.entries@.len() implies (
                        #[trigger] self.entries@[a]).0@ != (#[trigger] self.entries@[b]).0@ by {
                            assert(before.entries@[a].0@ != before.entries@[b].0@);
                        }
                    }
                    before.lemma_entry(i as int);
                    self.lemma_entry(i as int);
                    assert forall|k: K::V| self@.contains_key(k) == before@.insert(
                        key@,
                        value,
                    ).contains_key(k) by {
                        if self@.contains_key(k) {
                            let j = self.slot(k);
                            assert(before.entries@[j].0@ == self.entries@[j].0@);
                            before.lemma_entry(j);
                        }
                        if before@.contains_key(k) {
                            let j = before.slot(k);
                            assert(before.entries@[j].0@ == self.entries@[j].0@);
                            self.lemma_entry(j);
                        }
                    }
                    assert forall|k: K::V| self@.contains_key(k) implies self@[k]
                        == before@.insert(key@, value)[k] by {
                        let j = self.slot(k);
                        self.lemma_entry(j);
                        before.lemma_entry(j);
                        assert(before.entries@[j].0@ == self.entries@[j].0@);
                    }
                    assert(self@ =~= before@.insert(key@, value));
                }
            },
            None => {
                self.entries.push((key, value));
                proof {
                    let n = before.entries@.len() as int;
                    assert(self.wf()) by {
                        assert forall|a: int, b: int| 0 <= a < b < self.entries@.len() implies (
                        #[trigger] self.entries@[a]).0@ != (#[trigger] self.entries@[b]).0@ by {
                            if b < n {
                                assert(before.entries@[a].0@ != before.entries@[b].0@);
                            } else {
                                before.lemma_entry(a);
                            }
                        }
                    }
                    self.lemma_entry(n);
                    assert forall|k: K::V| self@.contains_key(k) == before@.insert(
                        key@,
                        value,
                    ).contains_key(k) by {
                        if self@.contains_key(k) {
                            let j = self.slot(k);
                            if j < n {
                                before.lemma_entry(j);
                            }
                        }
                        if before@.contains_key(k) {
                            let j = before.slot(k);
                            self.lemma_entry(j);
                        }
                    }
                    assert forall|k: K::V| self@.contains_key(k) implies self@[k]
                        == before@.insert(key@, value)[k] by {
                        let j = self.slot(k);
                        self.lemma_entry(j);
                        if j < n {
                            before.lemma_entry(j);
                        }
                    }
                    assert(self@ =~= before@.insert(key@, value));
                }
            },
        }
    }

    /// Keeps the pairs whose keys the function keeps.
    pub fn retain<F: Fn(&K) -> bool>(&mut self, keep: F, Ghost(kept): Ghost<spec_fn(K::V) -> bool>)
        requires
            old(self).wf(),
            forall|k: &K| #[trigger] keep.requires((k,)),
            forall|k: &K, b: bool| #[trigger] keep.ensures((k,), b) ==> b == kept(k@),
        ensures
            final(self).wf(),
            final(self)@ == old(self)@.filter_keys(kept),
    {
        let ghost before = *self;
        let mut old_entries: Vec<(K, V)> = Vec::new();
        std::mem::swap(&mut old_entries, &mut self.entries);
        let mut turned: Vec<(K, V)> = Vec::new();
        let ghost mut src: Seq<int> = seq![];
        while old_entries.len() > 0
            invariant
                before.wf(),
                old_entries@ == before.entries@.take(old_entries@.len() as int),
                old_entries@.len() <= before.entries@.len(),
                forall|k: &K| #[trigger] keep.requires((k,)),
                forall|k: &K, b: bool| #[trigger] keep.ensures((k,), b) ==> b == kept(k@),
                src.len() == turned@.len(),
                forall|i: int|
                    0 <= i < src.len() ==> old_entries@.len() <= #[trigger] src[i]
                        < before.entries@.len() && turned@[i] == before.entries@[src[i]] && kept(
                        turned@[i].0@,
                    ),
                forall|i: int, j: int| 0 <= i < j < src.len() ==> #[trigger] src[i] > #[trigger] src[j],
                forall|m: int|
                    old_entries@.len() <= m < before.entries@.len() && kept(
                        (#[trigger] before.entries@[m]).0@,
                    ) ==> exists|i: int| 0 <= i < src.len() && #[trigger] src[i] == m,
            decreases old_entries@.len(),
        {
            let ghost n = old_entries@.len() - 1;
            let ghost src0 = src;
            match old_entries.pop() {
                Some(p) => {
                    assert(p == before.entries@[n]);
                    let k = keep(&p.0);
                    if k {
                        turned.push(p);
                        proof {
                            src = src.push(n);
                            assert(src[src0.len() as int] == n);
                        }
                    }
                    proof {
                        assert forall|m: int|
                            n <= m < before.entries@.len() && kept(
                                (#[trigger] before.entries@[m]).0@,
                            ) implies exists|i: int| 0 <= i < src.len() && #[trigger] src[i] == m by {
                            if m > n {
                                let i = choose|i: int| 0 <= i < src0.len() && #[trigger] src0[i] == m;
                                assert(src[i] == m);
                            }
                        }
                    }
                },
                None => {},
            }
        }
        self.entries = turned;
        proof {
            assert(self.wf()) by {
                assert forall|a: int, b: int| 0 <= a < b < self.entries@.len() implies (
                #[trigger] self.entries@[a]).0@ != (#[trigger] self.entries@[b]).0@ by {
                    assert(src[a] > src[b]);
                    assert(before.entries@[src[b]].0@ != before.entries@[src[a]].0@);
                }
            }
            assert forall|k: K::V| self@.contains_key(k) == before@.filter_keys(kept).contains_key(
                k,
            ) by {
                if self@.contains_key(k) {
                    let j = self.slot(k);
                    before.lemma_entry(src[j]);
                }
                if before@.contains_key(k) && kept(k) {
                    let m = before.slot(k);
                    let i = choose|i: int| 0 <= i < src.len() && #[trigger] src[i] == m;
                    self.lemma_entry(i);
                }
            }
            assert forall|k: K::V| self@.contains_key(k) implies self@[k] == before@.filter_keys(
                kept,
            )[k] by {
                let j = self.slot(k);
                self.lemma_entry(j);
                before.lemma_entry(src[j]);
            }
            assert(self@ =~= before@.filter_keys(kept));
        }
    }

    /// Takes the key's pair out.
    pub fn remove(&mut self, key: &K)
        requires
            old(self).wf(),
        ensures
            final(self).wf(),
            final(self)@ == old(self)@.remove(key@),
    {
        let ghost before = *self;
        let ghost gone = key@;
        let keep = |k: &K| -> (b: bool)
            ensures
                b == (k@ != key@),
        { !k.same_key(key) };
        self.retain(keep, Ghost(|k: K::V| k != gone));
        assert(self@ =~= before@.remove(gone));
    }
}

} // verus!
