//! A small keyed table: the one map type that the relay and publisher state is built from.
use vstd::prelude::*;

verus! {

/// A value that can name an entry of a [`Table`].
pub trait Key: Sized {
    /// What a key stands for: two keys name the same entry when these agree.
    type Id;

    spec fn id(&self) -> Self::Id;

    fn same(&self, other: &Self) -> (b: bool)
        ensures
            b == (self.id() == other.id()),
    ;
}

impl Key for u64 {
    type Id = u64;

    open spec fn id(&self) -> u64 {
        *self
    }

    fn same(&self, other: &Self) -> (b: bool) {
        *self == *other
    }
}

impl Key for u32 {
    type Id = u32;

    open spec fn id(&self) -> u32 {
        *self
    }

    fn same(&self, other: &Self) -> (b: bool) {
        *self == *other
    }
}

impl Key for usize {
    type Id = usize;

    open spec fn id(&self) -> usize {
        *self
    }

    fn same(&self, other: &Self) -> (b: bool) {
        *self == *other
    }
}

/// Entries in the order in which their keys were first inserted, no key twice.
#[verifier::reject_recursive_types(K)]
pub struct Table<K: Key, V> {
    pub entries: Vec<(K, V)>,
}

/// Entry `i` of `s` carries the key `k`.
pub open spec fn key_at<K: Key, V>(s: Seq<(K, V)>, i: int, k: K::Id) -> bool {
    0 <= i < s.len() && s[i].0.id() == k
}

/// No two entries share a key.
pub open spec fn distinct_keys<K: Key, V>(s: Seq<(K, V)>) -> bool {
    forall|i: int, j: int|
        0 <= i < j < s.len() ==> (#[trigger] s[i]).0.id() != (#[trigger] s[j]).0.id()
}

/// The mapping that a list of entries stands for.
pub open spec fn map_of<K: Key, V>(s: Seq<(K, V)>) -> Map<K::Id, V> {
    Map::new(
        |k: K::Id| exists|i: int| key_at(s, i, k),
        |k: K::Id| s[choose|i: int| key_at(s, i, k)].1,
    )
}

proof fn lemma_map_at<K: Key, V>(s: Seq<(K, V)>, i: int)
    requires
        distinct_keys(s),
        0 <= i < s.len(),
    ensures
        map_of(s).contains_key(s[i].0.id()),
        map_of(s)[s[i].0.id()] == s[i].1,
{
    let k = s[i].0.id();
    assert(key_at(s, i, k));
    let j = choose|j: int| key_at(s, j, k);
    assert(key_at(s, j, k));
    assert(i == j) by {
        if i < j {
            assert(s[i].0.id() != s[j].0.id());
        } else if j < i {
            assert(s[j].0.id() != s[i].0.id());
        }
    }
}

proof fn lemma_map_push<K: Key, V>(s: Seq<(K, V)>, e: (K, V))
    requires
        distinct_keys(s),
        !map_of(s).contains_key(e.0.id()),
    ensures
        distinct_keys(s.push(e)),
        map_of(s.push(e)) == map_of(s).insert(e.0.id(), e.1),
{
    let t = s.push(e);
    assert forall|i: int, j: int| 0 <= i < j < t.len() implies (#[trigger] t[i]).0.id() != (
    #[trigger] t[j]).0.id() by {
        if j == s.len() {
            assert(t[i] == s[i]);
            if s[i].0.id() == e.0.id() {
                assert(key_at(s, i, e.0.id()));
            }
        } else {
            assert(t[i] == s[i] && t[j] == s[j]);
        }
    }
    lemma_map_at(t, s.len() as int);
    assert(t[s.len() as int] == e);
    assert forall|k: K::Id| #[trigger] map_of(t).contains_key(k) == map_of(s).insert(
        e.0.id(),
        e.1,
    ).contains_key(k) by {
        if map_of(t).contains_key(k) {
            let i = choose|i: int| key_at(t, i, k);
            if i < s.len() {
                assert(key_at(s, i, k));
            }
        }
        if map_of(s).contains_key(k) {
            let i = choose|i: int| key_at(s, i, k);
            assert(key_at(t, i, k));
        }
    }
    assert forall|k: K::Id| map_of(t).contains_key(k) implies #[trigger] map_of(t)[k] == map_of(
        s,
    ).insert(e.0.id(), e.1)[k] by {
        if k != e.0.id() {
            let i = choose|i: int| key_at(t, i, k);
            assert(i < s.len());
            assert(t[i] == s[i]);
            lemma_map_at(t, i);
            lemma_map_at(s, i);
        }
    }
    assert(map_of(t) =~= map_of(s).insert(e.0.id(), e.1));
}

proof fn lemma_map_update<K: Key, V>(s: Seq<(K, V)>, i: int, e: (K, V))
    requires
        distinct_keys(s),
        0 <= i < s.len(),
        s[i].0.id() == e.0.id(),
    ensures
        distinct_keys(s.update(i, e)),
        map_of(s.update(i, e)) == map_of(s).insert(e.0.id(), e.1),
{
    let t = s.update(i, e);
    assert forall|a: int| 0 <= a < t.len() implies (#[trigger] t[a]).0.id() == s[a].0.id() by {}
    assert(distinct_keys(t));
    assert forall|k: K::Id| #[trigger] map_of(t).contains_key(k) == map_of(s).insert(
        e.0.id(),
        e.1,
    ).contains_key(k) by {
        if map_of(t).contains_key(k) {
            let a = choose|a: int| key_at(t, a, k);
            assert(t[a].0.id() == s[a].0.id());
            assert(key_at(s, a, k));
        }
        if map_of(s).contains_key(k) {
            let a = choose|a: int| key_at(s, a, k);
            assert(t[a].0.id() == s[a].0.id());
            assert(key_at(t, a, k));
        }
        if k == e.0.id() {
            assert(key_at(t, i, k));
        }
    }
    assert forall|k: K::Id| map_of(t).contains_key(k) implies #[trigger] map_of(t)[k] == map_of(
        s,
    ).insert(e.0.id(), e.1)[k] by {
        let a = choose|a: int| key_at(t, a, k);
        lemma_map_at(t, a);
        assert(t[a].0.id() == s[a].0.id());
        lemma_map_at(s, a);
        if a != i {
            assert(t[a] == s[a]);
            if k == e.0.id() {
                if a < i {
                    assert(s[a].0.id() != s[i].0.id());
                } else {
                    assert(s[i].0.id() != s[a].0.id());
                }
            }
        } else {
            assert(t[i] == e);
        }
    }
    assert(map_of(t) =~= map_of(s).insert(e.0.id(), e.1));
}

proof fn lemma_map_remove<K: Key, V>(s: Seq<(K, V)>, i: int)
    requires
        distinct_keys(s),
        0 <= i < s.len(),
    ensures
        distinct_keys(s.remove(i)),
        map_of(s.remove(i)) == map_of(s).remove(s[i].0.id()),
{
    let t = s.remove(i);
    let gone = s[i].0.id();
    assert forall|a: int, b: int| 0 <= a < b < t.len() implies (#[trigger] t[a]).0.id() != (
    #[trigger] t[b]).0.id() by {
        let a2 = if a < i { a } else { a + 1 };
        let b2 = if b < i { b } else { b + 1 };
        assert(t[a] == s[a2] && t[b] == s[b2]);
    }
    assert forall|k: K::Id| #[trigger] map_of(t).contains_key(k) == map_of(s).remove(
        gone,
    ).contains_key(k) by {
        if map_of(t).contains_key(k) {
            let a = choose|a: int| key_at(t, a, k);
            let a2 = if a < i { a } else { a + 1 };
            assert(t[a] == s[a2]);
            assert(key_at(s, a2, k));
            if k == gone {
                if a2 < i {
                    assert(s[a2].0.id() != s[i].0.id());
                } else {
                    assert(s[i].0.id() != s[a2].0.id());
                }
            }
        }
        if map_of(s).contains_key(k) && k != gone {
            let a = choose|a: int| key_at(s, a, k);
            let a2 = if a < i { a } else { a - 1 };
            assert(t[a2] == s[a]);
            assert(key_at(t, a2, k));
        }
    }
    assert forall|k: K::Id| map_of(t).contains_key(k) implies #[trigger] map_of(t)[k] == map_of(
        s,
    ).remove(gone)[k] by {
        let a = choose|a: int| key_at(t, a, k);
        let a2 = if a < i { a } else { a + 1 };
        assert(t[a] == s[a2]);
        lemma_map_at(t, a);
        lemma_map_at(s, a2);
    }
    assert(map_of(t) =~= map_of(s).remove(gone));
}

impl<K: Key, V> View for Table<K, V> {
    type V = Map<K::Id, V>;

    open spec fn view(&self) -> Map<K::Id, V> {
        map_of(self.entries@)
    }
}

impl<K: Key, V> Table<K, V> {
    /// No key occurs twice.
    pub open spec fn wf(&self) -> bool {
        distinct_keys(self.entries@)
    }

    pub fn new() -> (t: Self)
        ensures
            t.wf(),
            t@ == Map::<K::Id, V>::empty(),
            t.entries@.len() == 0,
    {
        let t = Table { entries: Vec::new() };
        assert(t@ =~= Map::<K::Id, V>::empty());
        t
    }

    /// Where the entry of `k` stands, if there is one.
    pub fn position(&self, k: &K) -> (r: Option<usize>)
        requires
            self.wf(),
        ensures
            match r {
                Some(i) => {
                    &&& i < self.entries@.len()
                    &&& self.entries@[i as int].0.id() == k.id()
                    &&& self@.contains_key(k.id())
                    &&& self@[k.id()] == self.entries@[i as int].1
                },
                None => !self@.contains_key(k.id()),
            },
    {
        let mut i: usize = 0;
        while i < self.entries.len()
            invariant
                self.wf(),
                i <= self.entries@.len(),
                forall|j: int| 0 <= j < i ==> (#[trigger] self.entries@[j]).0.id() != k.id(),
            decreases self.entries@.len() - i,
        {
            if self.entries[i].0.same(k) {
                proof {
                    lemma_map_at(self.entries@, i as int);
                }
                return Some(i);
            }
            i = i + 1;
        }
        None
    }

    pub fn contains_key(&self, k: &K) -> (b: bool)
        requires
            self.wf(),
        ensures
            b == self@.contains_key(k.id()),
    {
        self.position(k).is_some()
    }

    pub fn get(&self, k: &K) -> (r: Option<&V>)
        requires
            self.wf(),
        ensures
            match r {
                Some(v) => self@.contains_key(k.id()) && self@[k.id()] == *v,
                None => !self@.contains_key(k.id()),
            },
    {
        match self.position(k) {
            Some(i) => Some(&self.entries[i].1),
            None => None,
        }
    }

    /// Sets the value of `k`, handing back the value that it replaced.
    pub fn insert(&mut self, k: K, v: V) -> (r: Option<V>)
        requires
            old(self).wf(),
        ensures
            final(self).wf(),
            final(self)@ == old(self)@.insert(k.id(), v),
            match r {
                Some(w) => old(self)@.contains_key(k.id()) && old(self)@[k.id()] == w,
                None => !old(self)@.contains_key(k.id()),
            },
    {
        match self.position(&k) {
            Some(i) => {
                proof {
                    lemma_map_update(self.entries@, i as int, (k, v));
                }
                let mut e = (k, v);
                std::mem::swap(&mut self.entries[i], &mut e);
                Some(e.1)
            },
            None => {
                proof {
                    lemma_map_push(self.entries@, (k, v));
                }
                self.entries.push((k, v));
                None
            },
        }
    }

    /// Takes the entry of `k` out, handing back its value.
    pub fn remove(&mut self, k: &K) -> (r: Option<V>)
        requires
            old(self).wf(),
        ensures
            final(self).wf(),
            final(self)@ == old(self)@.remove(k.id()),
            match r {
                Some(w) => old(self)@.contains_key(k.id()) && old(self)@[k.id()] == w,
                None => !old(self)@.contains_key(k.id()),
            },
    {
        match self.position(k) {
            Some(i) => {
                proof {
                    lemma_map_remove(self.entries@, i as int);
                }
                let e = self.entries.remove(i);
                Some(e.1)
            },
            None => {
                assert(self@.remove(k.id()) =~= self@);
                None
            },
        }
    }

    pub fn clear(&mut self)
        ensures
            final(self).wf(),
            final(self)@ == Map::<K::Id, V>::empty(),
    {
        self.entries.clear();
        assert(self@ =~= Map::<K::Id, V>::empty());
    }

    pub fn len(&self) -> (n: usize)
        ensures
            n == self.entries@.len(),
    {
        self.entries.len()
    }

    pub fn is_empty(&self) -> (b: bool)
        requires
            self.wf(),
        ensures
            b == (self@ == Map::<K::Id, V>::empty()),
    {
        proof {
            if self.entries@.len() > 0 {
                lemma_map_at(self.entries@, 0);
            } else {
                assert(self@ =~= Map::<K::Id, V>::empty());
            }
        }
        self.entries.is_empty()
    }
}

/// Entry `i` of a well-formed table is what the table maps its key to.
pub proof fn lemma_entry<K: Key, V>(t: Table<K, V>, i: int)
    requires
        t.wf(),
        0 <= i < t.entries@.len(),
    ensures
        t@.contains_key(t.entries@[i].0.id()),
        t@[t.entries@[i].0.id()] == t.entries@[i].1,
{
    lemma_map_at(t.entries@, i);
}

} // verus!
