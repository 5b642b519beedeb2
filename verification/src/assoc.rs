//! A small map keyed by text, with unique keys, viewed as a `Map` from the
//! key's characters to the value.
//!
//! The maps this library keeps are bounded by what is running on the machine
//! (a few hundred processes), and every key is a process identity, so a
//! linear association list is both adequate and easy to reason about.
use vstd::prelude::*;

verus! {

/// The map an association list denotes: later entries win.
pub open spec fn map_of<V>(keys: Seq<Seq<char>>, vals: Seq<V>) -> Map<Seq<char>, V>
    decreases keys.len(),
{
    if keys.len() == 0 || vals.len() == 0 {
        Map::empty()
    } else {
        map_of(keys.drop_last(), vals.drop_last()).insert(keys.last(), vals.last())
    }
}

pub open spec fn key_views(keys: Seq<String>) -> Seq<Seq<char>> {
    keys.map_values(|k: String| k@)
}

pub open spec fn unique(keys: Seq<Seq<char>>) -> bool {
    forall|i: int, j: int| 0 <= i < keys.len() && 0 <= j < keys.len() && i != j ==> keys[i] != keys[j]
}

pub proof fn lemma_map_of<V>(keys: Seq<Seq<char>>, vals: Seq<V>)
    requires
        keys.len() == vals.len(),
        unique(keys),
    ensures
        forall|k: Seq<char>| #[trigger] map_of(keys, vals).contains_key(k) <==> exists|i: int|
            0 <= i < keys.len() && keys[i] == k,
        forall|i: int| 0 <= i < keys.len() ==> #[trigger] map_of(keys, vals)[keys[i]] == vals[i],
        map_of(keys, vals).dom().finite(),
        map_of(keys, vals).len() == keys.len(),
    decreases keys.len(),
{
    if keys.len() > 0 {
        let ks = keys.drop_last();
        let vs = vals.drop_last();
        assert(unique(ks)) by {
            assert forall|i: int, j: int| 0 <= i < ks.len() && 0 <= j < ks.len() && i != j implies ks[i]
                != ks[j] by {
                assert(ks[i] == keys[i] && ks[j] == keys[j]);
            }
        }
        lemma_map_of(ks, vs);
        let m = map_of(ks, vs);
        assert(!m.contains_key(keys.last())) by {
            if m.contains_key(keys.last()) {
                let i = choose|i: int| 0 <= i < ks.len() && ks[i] == keys.last();
                assert(keys[i] == keys[keys.len() - 1]);
            }
        }
        assert forall|k: Seq<char>| #[trigger] map_of(keys, vals).contains_key(k) <==> exists|i: int|
            0 <= i < keys.len() && keys[i] == k by {
            if map_of(keys, vals).contains_key(k) && k != keys.last() {
                let i = choose|i: int| 0 <= i < ks.len() && ks[i] == k;
                assert(keys[i] == k);
            }
            if exists|i: int| 0 <= i < keys.len() && keys[i] == k {
                let i = choose|i: int| 0 <= i < keys.len() && keys[i] == k;
                if i < keys.len() - 1 {
                    assert(ks[i] == k);
                }
            }
        }
        assert forall|i: int| 0 <= i < keys.len() implies #[trigger] map_of(keys, vals)[keys[i]] == vals[i] by {
            if i < keys.len() - 1 {
                assert(ks[i] == keys[i]);
                assert(keys[i] != keys.last());
            }
        }
    }
}

/// Text keys, unique, each with a value.
pub struct Assoc<V> {
    keys: Vec<String>,
    vals: Vec<V>,
}

impl<V> Assoc<V> {
    pub closed spec fn wf(&self) -> bool {
        &&& self.keys@.len() == self.vals@.len()
        &&& unique(key_views(self.keys@))
    }

    /// The map this association list holds.
    pub closed spec fn view(&self) -> Map<Seq<char>, V> {
        map_of(key_views(self.keys@), self.vals@)
    }

    /// The keys, in insertion order.
    pub closed spec fn key_seq(&self) -> Seq<Seq<char>> {
        key_views(self.keys@)
    }

    pub closed spec fn val_seq(&self) -> Seq<V> {
        self.vals@
    }

    pub proof fn lemma_view(&self)
        requires
            self.wf(),
        ensures
            self.key_seq().len() == self.val_seq().len(),
            unique(self.key_seq()),
            forall|k: Seq<char>| #[trigger] self.view().contains_key(k) <==> exists|i: int|
                0 <= i < self.key_seq().len() && self.key_seq()[i] == k,
            forall|i: int| 0 <= i < self.key_seq().len() ==> #[trigger] self.view()[self.key_seq()[i]]
                == self.val_seq()[i],
            self.view().dom().finite(),
            self.view().len() == self.key_seq().len(),
    {
        lemma_map_of(key_views(self.keys@), self.vals@);
    }

    pub fn new() -> (a: Self)
        ensures
            a.wf(),
            a.view() == Map::<Seq<char>, V>::empty(),
            a.key_seq().len() == 0,
    {
        Assoc { keys: Vec::new(), vals: Vec::new() }
    }

    pub fn len(&self) -> (n: usize)
        requires
            self.wf(),
        ensures
            n == self.view().len(),
    {
        proof {
            self.lemma_view();
        }
        self.keys.len()
    }

    /// Position of `key`, if present.
    fn position(&self, key: &str) -> (r: Option<usize>)
        requires
            self.wf(),
        ensures
            match r {
                Some(i) => i < self.keys@.len() && self.keys@[i as int]@ == key@,
                None => !self.view().contains_key(key@),
            },
    {
        proof {
            self.lemma_view();
        }
        let mut i: usize = 0;
        while i < self.keys.len()
            invariant
                self.wf(),
                i <= self.keys@.len(),
                forall|j: int| 0 <= j < i ==> #[trigger] self.keys@[j]@ != key@,
            decreases self.keys@.len() - i,
        {
            if crate::text::str_eq(self.keys[i].as_str(), key) {
                return Some(i);
            }
            i = i + 1;
        }
        proof {
            if self.view().contains_key(key@) {
                let j = choose|j: int| 0 <= j < self.key_seq().len() && self.key_seq()[j] == key@;
                assert(self.keys@[j]@ == key@);
            }
        }
        None
    }

    pub fn get(&self, key: &str) -> (r: Option<&V>)
        requires
            self.wf(),
        ensures
            match r {
                Some(v) => self.view().contains_key(key@) && *v == self.view()[key@],
                None => !self.view().contains_key(key@),
            },
    {
        proof {
            self.lemma_view();
        }
        match self.position(key) {
            Some(i) => {
                proof {
                    assert(self.key_seq()[i as int] == key@);
                }
                Some(&self.vals[i])
            },
            None => None,
        }
    }

    pub fn contains_key(&self, key: &str) -> (r: bool)
        requires
            self.wf(),
        ensures
            r == self.view().contains_key(key@),
    {
        proof {
            self.lemma_view();
        }
        match self.position(key) {
            Some(i) => {
                proof {
                    assert(self.key_seq()[i as int] == key@);
                }
                true
            },
            None => false,
        }
    }

    /// Insert or replace.
    pub fn insert(&mut self, key: String, value: V)
        requires
            old(self).wf(),
        ensures
            final(self).wf(),
            final(self).view() == old(self).view().insert(key@, value),
    {
        proof {
            self.lemma_view();
        }
        match self.position(key.as_str()) {
            Some(i) => {
                let ghost ks = key_views(self.keys@);
                let ghost vs = self.vals@;
                let ghost before = map_of(ks, vs);
                proof {
                    lemma_map_of(ks, vs);
                    assert(ks[i as int] == key@);
                }
                self.vals.set(i, value);
                proof {
                    let nvs = vs.update(i as int, value);
                    assert(self.vals@ == nvs);
                    assert(key_views(self.keys@) == ks);
                    lemma_map_of(ks, nvs);
                    let after = map_of(ks, nvs);
                    assert forall|k: Seq<char>| #[trigger] after.contains_key(k) <==> before.insert(
                        key@,
                        value,
                    ).contains_key(k) by {
                        if before.insert(key@, value).contains_key(k) && k != key@ {
                            let j = choose|j: int| 0 <= j < ks.len() && ks[j] == k;
                            assert(after.contains_key(ks[j]));
                        }
                        if k == key@ {
                            assert(after.contains_key(ks[i as int]));
                        }
                        if after.contains_key(k) && k != key@ {
                            let j = choose|j: int| 0 <= j < ks.len() && ks[j] == k;
                            assert(before.contains_key(ks[j]));
                        }
                    }
                    assert forall|k: Seq<char>| #[trigger] after.contains_key(k) implies after[k]
                        == before.insert(key@, value)[k] by {
                        let j = choose|j: int| 0 <= j < ks.len() && ks[j] == k;
                        assert(after[ks[j]] == nvs[j]);
                        if j != i {
                            assert(before[ks[j]] == vs[j]);
                        }
                    }
                    assert(after =~= before.insert(key@, value));
                }
            },
            None => {
                let ghost ks = key_views(self.keys@);
                let ghost before = self.view();
                let ghost k = key@;
                self.keys.push(key);
                self.vals.push(value);
                proof {
                    assert(key_views(self.keys@) =~= ks.push(k));
                    assert(self.vals@.drop_last() =~= old(self).vals@);
                    assert(key_views(self.keys@).drop_last() =~= ks);
                    assert(unique(key_views(self.keys@))) by {
                        assert forall|a: int, b: int| 0 <= a < key_views(self.keys@).len() && 0 <= b < key_views(self.keys@).len() && a != b
                            implies key_views(self.keys@)[a] != key_views(self.keys@)[b] by {
                            if a == ks.len() as int {
                                assert(key_views(self.keys@)[b] == ks[b]);
                                assert(old(self).key_seq()[b] == ks[b]);
                            } else if b == ks.len() as int {
                                assert(key_views(self.keys@)[a] == ks[a]);
                                assert(old(self).key_seq()[a] == ks[a]);
                            } else {
                                assert(key_views(self.keys@)[a] == ks[a]);
                                assert(key_views(self.keys@)[b] == ks[b]);
                            }
                        }
                    }
                }
            },
        }
    }

    /// The entry at position `i`, in insertion order.
    pub fn entry(&self, i: usize) -> (r: (&String, &V))
        requires
            self.wf(),
            i < self.key_seq().len(),
        ensures
            r.0@ == self.key_seq()[i as int],
            *r.1 == self.val_seq()[i as int],
    {
        (&self.keys[i], &self.vals[i])
    }
}

} // verus!
