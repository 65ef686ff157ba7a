//! Maps keyed by names, in the order in which the names were first added.

use vstd::prelude::*;

use crate::text::{chars_equal, to_chars};

verus! {

/// The map that a sequence of (name, value) pairs with distinct names
/// stands for.
pub open spec fn map_of<V>(p: Seq<(Seq<char>, V)>) -> Map<Seq<char>, V>
    decreases p.len(),
{
    if p.len() == 0 {
        Map::empty()
    } else {
        map_of(p.drop_last()).insert(p.last().0, p.last().1)
    }
}

/// Whether no name occurs twice.
pub open spec fn distinct_keys<V>(p: Seq<(Seq<char>, V)>) -> bool {
    forall|a: int, b: int| 0 <= a < p.len() && 0 <= b < p.len() && a != b ==> #[trigger] p[a].0
        != #[trigger] p[b].0
}

pub proof fn lemma_map_of<V>(p: Seq<(Seq<char>, V)>)
    requires
        distinct_keys(p),
    ensures
        forall|k: Seq<char>| #[trigger]
            map_of(p).contains_key(k) <==> exists|i: int| 0 <= i < p.len() && p[i].0 == k,
        forall|i: int| 0 <= i < p.len() ==> #[trigger] map_of(p)[p[i].0] == p[i].1,
        map_of(p).dom().finite(),
        map_of(p).dom().len() == p.len(),
    decreases p.len(),
{
    if p.len() > 0 {
        let q = p.drop_last();
        assert(distinct_keys(q));
        lemma_map_of(q);
        assert forall|k: Seq<char>| #[trigger]
            map_of(p).contains_key(k) <==> exists|i: int| 0 <= i < p.len() && p[i].0 == k by {
            if map_of(p).contains_key(k) {
                if k == p.last().0 {
                    assert(p[p.len() - 1].0 == k);
                } else {
                    let i = choose|i: int| 0 <= i < q.len() && q[i].0 == k;
                    assert(p[i].0 == k);
                }
            }
            if exists|i: int| 0 <= i < p.len() && p[i].0 == k {
                let i = choose|i: int| 0 <= i < p.len() && p[i].0 == k;
                if i < p.len() - 1 {
                    assert(q[i].0 == k);
                }
            }
        }
        assert forall|i: int| 0 <= i < p.len() implies #[trigger] map_of(p)[p[i].0] == p[i].1 by {
            if i < p.len() - 1 {
                assert(q[i] == p[i]);
                assert(p[i].0 != p[p.len() - 1].0);
            }
        }
        assert(!map_of(q).contains_key(p.last().0)) by {
            if map_of(q).contains_key(p.last().0) {
                let i = choose|i: int| 0 <= i < q.len() && q[i].0 == p.last().0;
                assert(p[i].0 == p[p.len() - 1].0);
            }
        }
    }
}

/// The position of the last pair named `k`.
pub open spec fn key_index<V>(p: Seq<(Seq<char>, V)>, k: Seq<char>) -> Option<int>
    decreases p.len(),
{
    if p.len() == 0 {
        None
    } else if p.last().0 == k {
        Some(p.len() - 1)
    } else {
        key_index(p.drop_last(), k)
    }
}

pub proof fn lemma_key_index<V>(p: Seq<(Seq<char>, V)>, k: Seq<char>)
    ensures
        key_index(p, k) matches Some(i) ==> 0 <= i < p.len() && p[i].0 == k,
        key_index(p, k) is None ==> forall|i: int| 0 <= i < p.len() ==> p[i].0 != k,
    decreases p.len(),
{
    if p.len() > 0 && p.last().0 != k {
        lemma_key_index(p.drop_last(), k);
        if key_index(p, k) is None {
            assert forall|i: int| 0 <= i < p.len() implies p[i].0 != k by {
                if i < p.len() - 1 {
                    assert(p[i] == p.drop_last()[i]);
                }
            }
        }
    }
}

/// The names of a sequence of pairs.
pub open spec fn keys_of<V>(p: Seq<(Seq<char>, V)>) -> Seq<Seq<char>> {
    p.map_values(|e: (Seq<char>, V)| e.0)
}

pub proof fn lemma_key_index_keys<V, W>(p: Seq<(Seq<char>, V)>, q: Seq<(Seq<char>, W)>, k: Seq<char>)
    requires
        keys_of(p) == keys_of(q),
    ensures
        key_index(p, k) == key_index(q, k),
    decreases p.len(),
{
    assert(p.len() == keys_of(p).len() && q.len() == keys_of(q).len());
    if p.len() > 0 {
        assert(p.last().0 == keys_of(p)[p.len() - 1]);
        assert(q.last().0 == keys_of(q)[q.len() - 1]);
        assert(keys_of(p.drop_last()) == keys_of(p).drop_last());
        assert(keys_of(q.drop_last()) == keys_of(q).drop_last());
        lemma_key_index_keys(p.drop_last(), q.drop_last(), k);
    }
}

/// The pairs after naming `v` by `k`: the pair named `k` gets the new value
/// in place, or a new pair goes last.
pub open spec fn inserted<V>(p: Seq<(Seq<char>, V)>, k: Seq<char>, v: V) -> Seq<(Seq<char>, V)> {
    match key_index(p, k) {
        Some(i) => p.update(i, (k, v)),
        None => p.push((k, v)),
    }
}

/// A map from names to values that remembers the order in which names were
/// first added.
#[derive(Debug)]
pub struct NameMap<V> {
    entries: Vec<(String, V)>,
}

pub open spec fn pair_view<V>(e: (String, V)) -> (Seq<char>, V) {
    (e.0@, e.1)
}

impl<V> NameMap<V> {
    /// The (name, value) pairs, in the order in which the names were first
    /// added.
    pub closed spec fn pairs(&self) -> Seq<(Seq<char>, V)> {
        self.entries@.map_values(|e: (String, V)| pair_view(e))
    }

    #[verifier::type_invariant]
    spec fn keys_distinct(&self) -> bool {
        distinct_keys(self.pairs())
    }

    pub closed spec fn map(&self) -> Map<Seq<char>, V> {
        map_of(self.pairs())
    }

    /// An empty map.
    pub fn new() -> (m: Self)
        ensures
            m.pairs() == Seq::<(Seq<char>, V)>::empty(),
            m.map() == Map::<Seq<char>, V>::empty(),
    {
        let m = NameMap { entries: Vec::new() };
        assert(m.pairs() =~= Seq::<(Seq<char>, V)>::empty());
        m
    }

    /// Number of names in the map.
    pub fn len(&self) -> (n: usize)
        ensures
            n == self.pairs().len(),
            n == self.map().dom().len(),
    {
        proof {
            use_type_invariant(self);
            lemma_map_of(self.pairs());
        }
        self.entries.len()
    }

    /// Whether the map is empty.
    pub fn is_empty(&self) -> (b: bool)
        ensures
            b == (self.pairs().len() == 0),
            b == (self.map().dom().len() == 0),
    {
        self.len() == 0
    }

    /// The index of the pair named `k`.
    fn find(&self, k: &[char]) -> (r: Option<usize>)
        ensures
            match r {
                Some(i) => i < self.pairs().len() && self.pairs()[i as int].0 == k@,
                None => forall|i: int| 0 <= i < self.pairs().len() ==> self.pairs()[i].0 != k@,
            },
    {
        let mut i: usize = 0;
        while i < self.entries.len()
            invariant
                i <= self.entries@.len(),
                self.pairs().len() == self.entries@.len(),
                forall|j: int| 0 <= j < i ==> self.pairs()[j].0 != k@,
            decreases self.entries@.len() - i,
        {
            let name = to_chars(self.entries[i].0.as_str());
            if chars_equal(name.as_slice(), k) {
                return Some(i);
            }
            i += 1;
        }
        None
    }

    /// The value named `k`.
    pub fn get(&self, k: &str) -> (r: Option<&V>)
        ensures
            match r {
                Some(v) => self.map().contains_key(k@) && *v == self.map()[k@],
                None => !self.map().contains_key(k@),
            },
    {
        proof {
            use_type_invariant(self);
            lemma_map_of(self.pairs());
        }
        let key = to_chars(k);
        match self.find(key.as_slice()) {
            Some(i) => {
                assert(self.pairs()[i as int] == pair_view(self.entries@[i as int]));
                Some(&self.entries[i].1)
            },
            None => None,
        }
    }

    /// Whether some value is named `k`.
    pub fn contains_key(&self, k: &str) -> (b: bool)
        ensures
            b == self.map().contains_key(k@),
    {
        match self.get(k) {
            Some(_) => true,
            None => false,
        }
    }

    /// Names `v` by `k`, replacing the value that `k` named before; a new
    /// name goes after the others.
    pub fn insert(&mut self, k: String, v: V)
        ensures
            final(self).map() == old(self).map().insert(k@, v),
            final(self).pairs() == inserted(old(self).pairs(), k@, v),
    {
        proof {
            use_type_invariant(&*self);
            lemma_map_of(self.pairs());
        }
        let key = to_chars(k.as_str());
        let ghost p = self.pairs();
        match self.find(key.as_slice()) {
            Some(i) => {
                let mut entries: Vec<(String, V)> = Vec::new();
                std::mem::swap(&mut entries, &mut self.entries);
                entries.set(i, (k, v));
                assert(entries@.map_values(|e: (String, V)| pair_view(e)) =~= p.update(
                    i as int,
                    (k@, v),
                ));
                proof {
                    let q = p.update(i as int, (k@, v));
                    assert forall|a: int, b: int|
                        0 <= a < q.len() && 0 <= b < q.len() && a != b implies #[trigger] q[a].0
                        != #[trigger] q[b].0 by {
                        if a != i && b != i {
                            assert(p[a].0 != p[b].0);
                        } else if a == i {
                            assert(p[b].0 != p[i as int].0);
                        } else {
                            assert(p[a].0 != p[i as int].0);
                        }
                    }
                }
                self.entries = entries;
                assert(self.pairs() =~= p.update(i as int, (k@, v)));
                proof {
                    lemma_key_index(p, k@);
                    if let Some(c) = key_index(p, k@) {
                        assert(c == i);
                    }
                }
                assert(distinct_keys(self.pairs())) by {
                    assert forall|a: int, b: int|
                        0 <= a < self.pairs().len() && 0 <= b < self.pairs().len() && a
                            != b implies #[trigger] self.pairs()[a].0 != #[trigger] self.pairs()[b].0 by {
                        if a != i && b != i {
                            assert(p[a].0 != p[b].0);
                        } else if a == i {
                            assert(p[b].0 != p[i as int].0);
                        } else {
                            assert(p[a].0 != p[i as int].0);
                        }
                    }
                }
                proof {
                    lemma_map_of(self.pairs());
                    assert(self.map() =~= old(self).map().insert(k@, v)) by {
                        assert forall|key2: Seq<char>| #[trigger]
                            self.map().contains_key(key2) implies old(self).map().insert(
                            k@,
                            v,
                        ).contains_key(key2) by {
                            let j = choose|j: int|
                                0 <= j < self.pairs().len() && self.pairs()[j].0 == key2;
                            if j != i {
                                assert(p[j].0 == key2);
                            }
                        }
                        assert forall|key2: Seq<char>| #[trigger]
                            old(self).map().insert(k@, v).contains_key(key2) implies self.map().contains_key(
                            key2,
                        ) by {
                            if key2 != k@ {
                                let j = choose|j: int| 0 <= j < p.len() && p[j].0 == key2;
                                assert(self.pairs()[j].0 == key2);
                            } else {
                                assert(self.pairs()[i as int].0 == key2);
                            }
                        }
                        assert forall|key2: Seq<char>| #[trigger]
                            self.map().contains_key(key2) implies self.map()[key2] == old(
                            self,
                        ).map().insert(k@, v)[key2] by {
                            let j = choose|j: int|
                                0 <= j < self.pairs().len() && self.pairs()[j].0 == key2;
                            assert(self.map()[self.pairs()[j].0] == self.pairs()[j].1);
                            if j != i {
                                assert(old(self).map()[p[j].0] == p[j].1);
                            }
                        }
                    }
                }
            },
            None => {
                let mut entries: Vec<(String, V)> = Vec::new();
                std::mem::swap(&mut entries, &mut self.entries);
                entries.push((k, v));
                assert(entries@.map_values(|e: (String, V)| pair_view(e)) =~= p.push((key@, v)));
                proof {
                    let q = p.push((key@, v));
                    assert forall|a: int, b: int|
                        0 <= a < q.len() && 0 <= b < q.len() && a != b implies #[trigger] q[a].0
                        != #[trigger] q[b].0 by {
                        if a < p.len() && b < p.len() {
                            assert(p[a].0 != p[b].0);
                        } else if a < p.len() {
                            assert(p[a].0 != key@);
                        } else {
                            assert(p[b].0 != key@);
                        }
                    }
                }
                self.entries = entries;
                assert(self.pairs() =~= p.push((k@, v)));
                assert(distinct_keys(self.pairs())) by {
                    assert forall|a: int, b: int|
                        0 <= a < self.pairs().len() && 0 <= b < self.pairs().len() && a
                            != b implies #[trigger] self.pairs()[a].0 != #[trigger] self.pairs()[b].0 by {
                        if a < p.len() && b < p.len() {
                            assert(p[a].0 != p[b].0);
                        } else if a < p.len() {
                            assert(p[a].0 != key@);
                        } else {
                            assert(p[b].0 != key@);
                        }
                    }
                }
                assert(self.pairs().drop_last() == p);
                proof {
                    lemma_key_index(p, k@);
                }
            },
        }
    }

    /// The pair at position `i`, in the order in which names were added.
    pub fn entry(&self, i: usize) -> (r: (&String, &V))
        requires
            i < self.pairs().len(),
        ensures
            r.0@ == self.pairs()[i as int].0,
            *r.1 == self.pairs()[i as int].1,
    {
        let e = &self.entries[i];
        (&e.0, &e.1)
    }
}

impl<V: Clone> Clone for NameMap<V> {
    /// A copy with the same names, in the same order, each value cloned.
    fn clone(&self) -> (r: Self)
        ensures
            r.pairs().len() == self.pairs().len(),
            forall|i: int| 0 <= i < self.pairs().len() ==> #[trigger] r.pairs()[i].0 == self.pairs()[i].0,
    {
        proof {
            use_type_invariant(self);
        }
        let mut entries: Vec<(String, V)> = Vec::new();
        let mut i: usize = 0;
        while i < self.entries.len()
            invariant
                i <= self.entries@.len(),
                entries@.len() == i,
                distinct_keys(self.pairs()),
                forall|j: int| 0 <= j < i ==> #[trigger] entries@[j].0@ == self.entries@[j].0@,
            decreases self.entries@.len() - i,
        {
            let k = self.entries[i].0.clone();
            let v = self.entries[i].1.clone();
            entries.push((k, v));
            i += 1;
        }
        let ghost q = entries@.map_values(|e: (String, V)| pair_view(e));
        assert forall|j: int| 0 <= j < self.pairs().len() implies #[trigger] q[j].0
            == self.pairs()[j].0 by {
            assert(q[j] == pair_view(entries@[j]));
            assert(self.pairs()[j] == pair_view(self.entries@[j]));
        }
        assert(distinct_keys(q)) by {
            assert forall|a: int, b: int|
                0 <= a < q.len() && 0 <= b < q.len() && a != b implies #[trigger] q[a].0
                != #[trigger] q[b].0 by {
                assert(q[a].0 == self.pairs()[a].0);
                assert(q[b].0 == self.pairs()[b].0);
            }
        }
        let r = NameMap { entries };
        r
    }
}

} // verus!
