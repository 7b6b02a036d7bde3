//! The persistent geocode cache: a durable mapping from a canonical
//! coordinate key to a resolved place name or a failure marker, both kept
//! so that a failing coordinate is never looked up twice.
//!
//! Entries are held as a key-unique association list so that the view is an
//! exact mathematical map and the persisted entry order is deterministic.
use vstd::prelude::*;

verus! {

/// The mapping denoted by an entry list: later entries overwrite earlier
/// ones with the same key.
pub open spec fn map_of(entries: Seq<(String, String)>) -> Map<Seq<char>, Seq<char>>
    decreases entries.len(),
{
    if entries.len() == 0 {
        Map::empty()
    } else {
        map_of(entries.drop_last()).insert(entries.last().0@, entries.last().1@)
    }
}

/// Keys of the entry list are pairwise distinct.
pub open spec fn keys_unique(entries: Seq<(String, String)>) -> bool {
    forall|i: int, j: int|
        0 <= i < j < entries.len() ==> entries[i].0@ != entries[j].0@
}

/// Durable mapping from canonical coordinate keys to place names or
/// failure markers.
pub struct GeocodeCache {
    pub entries: Vec<(String, String)>,
}

impl View for GeocodeCache {
    type V = Map<Seq<char>, Seq<char>>;

    open spec fn view(&self) -> Map<Seq<char>, Seq<char>> {
        map_of(self.entries@)
    }
}

proof fn lemma_map_of_found(entries: Seq<(String, String)>, i: int)
    requires
        keys_unique(entries),
        0 <= i < entries.len(),
    ensures
        map_of(entries).contains_key(entries[i].0@),
        map_of(entries)[entries[i].0@] == entries[i].1@,
    decreases entries.len(),
{
    if i < entries.len() - 1 {
        assert(entries.drop_last()[i] == entries[i]);
        assert(keys_unique(entries.drop_last())) by {
            assert(forall|x: int, y: int|
                0 <= x < y < entries.drop_last().len() ==> entries.drop_last()[x]
                    == entries[x] && entries.drop_last()[y] == entries[y]);
        }
        lemma_map_of_found(entries.drop_last(), i);
        assert(entries[i].0@ != entries.last().0@);
    }
}

proof fn lemma_map_of_absent(entries: Seq<(String, String)>, k: Seq<char>)
    requires
        forall|i: int| 0 <= i < entries.len() ==> entries[i].0@ != k,
    ensures
        !map_of(entries).contains_key(k),
    decreases entries.len(),
{
    if entries.len() > 0 {
        assert(forall|i: int|
            0 <= i < entries.drop_last().len() ==> entries.drop_last()[i] == entries[i]);
        lemma_map_of_absent(entries.drop_last(), k);
    }
}

proof fn lemma_map_of_update(entries: Seq<(String, String)>, j: int, p: (String, String))
    requires
        keys_unique(entries),
        0 <= j < entries.len(),
        p.0@ == entries[j].0@,
    ensures
        map_of(entries.update(j, p)) == map_of(entries).insert(p.0@, p.1@),
    decreases entries.len(),
{
    let updated = entries.update(j, p);
    if j == entries.len() - 1 {
        assert(updated.drop_last() =~= entries.drop_last());
        assert(updated.last() == p);
        assert(map_of(updated) =~= map_of(entries).insert(p.0@, p.1@));
    } else {
        assert(updated.drop_last() =~= entries.drop_last().update(j, p));
        assert(updated.last() == entries.last());
        assert(entries.drop_last()[j] == entries[j]);
        assert(keys_unique(entries.drop_last())) by {
            assert(forall|x: int, y: int|
                0 <= x < y < entries.drop_last().len() ==> entries.drop_last()[x]
                    == entries[x] && entries.drop_last()[y] == entries[y]);
        }
        lemma_map_of_update(entries.drop_last(), j, p);
        assert(p.0@ != entries.last().0@);
        assert(map_of(updated) =~= map_of(entries).insert(p.0@, p.1@));
    }
}

impl GeocodeCache {
    /// Keys are pairwise distinct, so the entry list denotes its map
    /// one entry per key.
    pub open spec fn wf(&self) -> bool {
        keys_unique(self.entries@)
    }

    /// The empty cache, used whenever no persisted cache can be read.
    pub fn new() -> (r: Self)
        ensures
            r.wf(),
            r@ == Map::<Seq<char>, Seq<char>>::empty(),
            r.entries@.len() == 0,
    {
        GeocodeCache { entries: Vec::new() }
    }

    /// Looks a canonical key up; `None` exactly when the key was never
    /// stored.
    pub fn get(&self, key: &String) -> (r: Option<&String>)
        requires
            self.wf(),
        ensures
            match r {
                Some(v) => self@.contains_key(key@) && v@ == self@[key@],
                None => !self@.contains_key(key@),
            },
    {
        let n = self.entries.len();
        let mut i: usize = 0;
        while i < n
            invariant
                n == self.entries@.len(),
                0 <= i <= n,
                self.wf(),
                forall|idx: int| 0 <= idx < i ==> self.entries@[idx].0@ != key@,
            decreases n - i,
        {
            if self.entries[i].0 == *key {
                proof {
                    lemma_map_of_found(self.entries@, i as int);
                }
                return Some(&self.entries[i].1);
            }
            i += 1;
        }
        proof {
            lemma_map_of_absent(self.entries@, key@);
        }
        None
    }

    /// Stores a value under a key, overwriting any previous value.
    pub fn put(&mut self, key: &String, value: String)
        requires
            old(self).wf(),
        ensures
            final(self).wf(),
            final(self)@ == old(self)@.insert(key@, value@),
    {
        let n = self.entries.len();
        let mut i: usize = 0;
        while i < n
            invariant
                n == self.entries@.len(),
                0 <= i <= n,
                self.wf(),
                *self == *old(self),
                forall|idx: int| 0 <= idx < i ==> self.entries@[idx].0@ != key@,
            decreases n - i,
        {
            if self.entries[i].0 == *key {
                let p = (key.clone(), value);
                proof {
                    lemma_map_of_update(self.entries@, i as int, p);
                }
                self.entries.set(i, p);
                proof {
                    assert(keys_unique(self.entries@)) by {
                        assert(forall|x: int|
                            0 <= x < self.entries@.len() && x != i ==> self.entries@[x]
                                == old(self).entries@[x]);
                    }
                }
                return ;
            }
            i += 1;
        }
        let p = (key.clone(), value);
        self.entries.push(p);
        proof {
            assert(self.entries@.drop_last() =~= old(self).entries@);
            assert(keys_unique(self.entries@)) by {
                assert(forall|x: int|
                    0 <= x < old(self).entries@.len() ==> self.entries@[x] == old(
                        self,
                    ).entries@[x]);
            }
            assert(map_of(self.entries@) =~= old(self)@.insert(key@, value@));
        }
    }
}

} // verus!
