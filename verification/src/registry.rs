//! A map from names to values.
use crate::text::same_text;
use vstd::prelude::*;

verus! {

/// A map keyed by text. No key occurs twice.
#[derive(Debug)]
pub struct Registry<V> {
    entries: Vec<(String, V)>,
}

spec fn key_in<V>(entries: Seq<(String, V)>, k: Seq<char>) -> bool {
    exists|i: int| 0 <= i < entries.len() && (#[trigger] entries[i]).0@ == k
}

spec fn index_of<V>(entries: Seq<(String, V)>, k: Seq<char>) -> int {
    choose|i: int| 0 <= i < entries.len() && (#[trigger] entries[i]).0@ == k
}

spec fn distinct<V>(entries: Seq<(String, V)>) -> bool {
    forall|i: int, j: int|
        0 <= i < j < entries.len() ==> (#[trigger] entries[i]).0@ != (#[trigger] entries[j]).0@
}

spec fn map_of<V>(entries: Seq<(String, V)>) -> Map<Seq<char>, V> {
    Map::new(|k: Seq<char>| key_in(entries, k), |k: Seq<char>| entries[index_of(entries, k)].1)
}

proof fn lemma_entry<V>(entries: Seq<(String, V)>, i: int)
    requires
        distinct(entries),
        0 <= i < entries.len(),
    ensures
        map_of(entries).contains_key(entries[i].0@),
        map_of(entries)[entries[i].0@] == entries[i].1,
{
    let k = entries[i].0@;
    let j = index_of(entries, k);
    assert(0 <= j < entries.len() && entries[j].0@ == k);
    if i < j {
        assert(entries[i].0@ != entries[j].0@);
    }
    if j < i {
        assert(entries[j].0@ != entries[i].0@);
    }
}

proof fn lemma_without<V>(before: Seq<(String, V)>, i: int)
    requires
        distinct(before),
        0 <= i < before.len(),
    ensures
        distinct(before.remove(i)),
        map_of(before.remove(i)) == map_of(before).remove(before[i].0@),
{
    let after = before.remove(i);
    let gone = before[i].0@;
    assert forall|a: int, b: int| 0 <= a < b < after.len() implies (#[trigger] after[a]).0@ != (
    #[trigger] after[b]).0@ by {
        let a2 = if a < i { a } else { a + 1 };
        let b2 = if b < i { b } else { b + 1 };
        assert(before[a2].0@ != before[b2].0@);
    }
    let left = map_of(after);
    let right = map_of(before).remove(gone);
    assert forall|k: Seq<char>| #[trigger] left.dom().contains(k) implies right.dom().contains(k)
        && left[k] == right[k] by {
        let a = index_of(after, k);
        let a2 = if a < i { a } else { a + 1 };
        assert(before[a2] == after[a]);
        lemma_entry(before, a2);
        lemma_entry(after, a);
        if a2 < i {
            assert(before[a2].0@ != before[i].0@);
        } else {
            assert(before[i].0@ != before[a2].0@);
        }
    }
    assert forall|k: Seq<char>| #[trigger] right.dom().contains(k) implies left.dom().contains(k) by {
        let b = index_of(before, k);
        assert(before[b].0@ == k);
        let b2 = if b < i { b } else { b - 1 };
        assert(after[b2] == before[b]);
    }
    assert(left =~= right);
}

proof fn lemma_with<V>(before: Seq<(String, V)>, e: (String, V))
    requires
        distinct(before),
        !key_in(before, e.0@),
    ensures
        distinct(before.push(e)),
        map_of(before.push(e)) == map_of(before).insert(e.0@, e.1),
{
    let after = before.push(e);
    assert forall|a: int, b: int| 0 <= a < b < after.len() implies (#[trigger] after[a]).0@ != (
    #[trigger] after[b]).0@ by {
        assert(after[a] == before[a]);
        if b < before.len() {
            assert(after[b] == before[b]);
        }
    }
    let left = map_of(after);
    let right = map_of(before).insert(e.0@, e.1);
    lemma_entry(after, before.len() as int);
    assert forall|k: Seq<char>| #[trigger] left.dom().contains(k) implies right.dom().contains(k)
        && left[k] == right[k] by {
        let a = index_of(after, k);
        assert(after[a].0@ == k);
        if a < before.len() {
            assert(after[a] == before[a]);
            lemma_entry(after, a);
            lemma_entry(before, a);
        }
    }
    assert forall|k: Seq<char>| #[trigger] right.dom().contains(k) implies left.dom().contains(k) by {
        if k != e.0@ {
            let b = index_of(before, k);
            assert(after[b] == before[b]);
        }
    }
    assert(left =~= right);
}

impl<V> View for Registry<V> {
    type V = Map<Seq<char>, V>;

    closed spec fn view(&self) -> Map<Seq<char>, V> {
        map_of(self.entries@)
    }
}

impl<V> Registry<V> {
    #[verifier::type_invariant]
    spec fn inv(self) -> bool {
        distinct(self.entries@)
    }

    /// The keys, in the order in which `key` and `value` number them.
    pub closed spec fn keys(&self) -> Seq<Seq<char>> {
        self.entries@.map_values(|e: (String, V)| e.0@)
    }

    /// An empty map.
    pub fn new() -> (r: Registry<V>)
        ensures
            r@ == Map::<Seq<char>, V>::empty(),
            r.keys() == Seq::<Seq<char>>::empty(),
    {
        let r = Registry { entries: Vec::new() };
        assert(r@ =~= Map::<Seq<char>, V>::empty());
        assert(r.keys() =~= Seq::<Seq<char>>::empty());
        r
    }

    fn position(&self, key: &str) -> (r: Option<usize>)
        ensures
            match r {
                Some(i) => i < self.entries@.len() && self.entries@[i as int].0@ == key@,
                None => !key_in(self.entries@, key@),
            },
    {
        let mut i: usize = 0;
        while i < self.entries.len()
            invariant
                i <= self.entries@.len(),
                forall|j: int| 0 <= j < i ==> (#[trigger] self.entries@[j]).0@ != key@,
            decreases self.entries@.len() - i,
        {
            if same_text(self.entries[i].0.as_str(), key) {
                return Some(i);
            }
            i += 1;
        }
        None
    }

    /// The value under `key`.
    pub fn get(&self, key: &str) -> (r: Option<&V>)
        ensures
            match r {
                Some(v) => self@.contains_key(key@) && self@[key@] == *v,
                None => !self@.contains_key(key@),
            },
    {
        proof {
            use_type_invariant(self);
        }
        match self.position(key) {
            Some(i) => {
                proof {
                    lemma_entry(self.entries@, i as int);
                }
                Some(&self.entries[i].1)
            },
            None => None,
        }
    }

    /// Whether there is a value under `key`.
    pub fn contains_key(&self, key: &str) -> (r: bool)
        ensures
            r == self@.contains_key(key@),
    {
        match self.position(key) {
            Some(i) => true,
            None => false,
        }
    }

    /// Takes the value under `key` out.
    pub fn remove(&mut self, key: &str) -> (r: Option<V>)
        ensures
            final(self)@ == old(self)@.remove(key@),
            match r {
                Some(v) => old(self)@.contains_key(key@) && old(self)@[key@] == v,
                None => !old(self)@.contains_key(key@),
            },
    {
        proof {
            use_type_invariant(&*self);
        }
        let ghost before = self.entries@;
        match self.position(key) {
            Some(i) => {
                let mut entries: Vec<(String, V)> = Vec::new();
                std::mem::swap(&mut entries, &mut self.entries);
                let (_k, v) = entries.remove(i);
                proof {
                    lemma_entry(before, i as int);
                    assert(entries@ =~= before.remove(i as int));
                    lemma_without(before, i as int);
                }
                self.entries = entries;
                Some(v)
            },
            None => {
                assert(self@.remove(key@) =~= self@);
                None
            },
        }
    }

    /// Puts `value` under `key`, in place of what was there.
    pub fn insert(&mut self, key: String, value: V)
        ensures
            final(self)@ == old(self)@.insert(key@, value),
    {
        let ghost start = self@;
        let _old = self.remove(key.as_str());
        proof {
            use_type_invariant(&*self);
        }
        let mut entries: Vec<(String, V)> = Vec::new();
        std::mem::swap(&mut entries, &mut self.entries);
        let ghost before = entries@;
        let ghost k0 = key@;
        assert(!key_in(before, k0)) by {
            assert(!map_of(before).contains_key(k0));
        }
        entries.push((key, value));
        proof {
            lemma_with(before, (key, value));
            assert(start.remove(k0).insert(k0, value) =~= start.insert(k0, value));
        }
        self.entries = entries;
    }

    /// The number of keys.
    pub fn len(&self) -> (n: usize)
        ensures
            n == self.keys().len(),
            self.keys().no_duplicates(),
            self.keys().to_set() == self@.dom(),
    {
        proof {
            use_type_invariant(self);
            let ks = self.keys();
            assert forall|i: int, j: int| 0 <= i < ks.len() && 0 <= j < ks.len() && i != j implies ks[i]
                != ks[j] by {
                if i < j {
                    assert(self.entries@[i].0@ != self.entries@[j].0@);
                } else {
                    assert(self.entries@[j].0@ != self.entries@[i].0@);
                }
            }
            assert forall|k: Seq<char>| ks.to_set().contains(k) == self@.dom().contains(k) by {
                if ks.contains(k) {
                    let i = choose|i: int| 0 <= i < ks.len() && ks[i] == k;
                    assert(self.entries@[i].0@ == k);
                }
                if key_in(self.entries@, k) {
                    let i = index_of(self.entries@, k);
                    assert(ks[i] == k);
                }
            }
            assert(ks.to_set() =~= self@.dom());
        }
        self.entries.len()
    }

    /// The key that has the number `i`.
    pub fn key(&self, i: usize) -> (k: &str)
        requires
            i < self.keys().len(),
        ensures
            k@ == self.keys()[i as int],
    {
        self.entries[i].0.as_str()
    }

    /// The value under the key that has the number `i`.
    pub fn value(&self, i: usize) -> (v: &V)
        requires
            i < self.keys().len(),
        ensures
            self@.contains_key(self.keys()[i as int]),
            *v == self@[self.keys()[i as int]],
    {
        proof {
            use_type_invariant(self);
            lemma_entry(self.entries@, i as int);
        }
        &self.entries[i].1
    }
}

} // verus!
