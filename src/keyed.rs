//! A map from chunk keys to values, kept as a vector of entries with
//! distinct keys.

use vstd::prelude::*;

use crate::world::ChunkKey;

verus! {

/// The map that a sequence of entries with distinct keys stands for.
pub open spec fn map_of<V>(s: Seq<(ChunkKey, V)>) -> Map<ChunkKey, V>
    decreases s.len(),
{
    if s.len() == 0 {
        Map::empty()
    } else {
        map_of(s.drop_last()).insert(s.last().0, s.last().1)
    }
}

pub open spec fn keys_distinct<V>(s: Seq<(ChunkKey, V)>) -> bool {
    forall|i: int, j: int| 0 <= i < s.len() && 0 <= j < s.len() && i != j ==> s[i].0 != s[j].0
}

pub proof fn lemma_map_of_entry<V>(s: Seq<(ChunkKey, V)>, i: int)
    requires
        keys_distinct(s),
        0 <= i < s.len(),
    ensures
        map_of(s).contains_key(s[i].0),
        map_of(s)[s[i].0] == s[i].1,
    decreases s.len(),
{
    if i < s.len() - 1 {
        lemma_map_of_entry(s.drop_last(), i);
    }
}

pub proof fn lemma_map_of_dom<V>(s: Seq<(ChunkKey, V)>, k: ChunkKey)
    ensures
        map_of(s).contains_key(k) <==> exists|i: int| 0 <= i < s.len() && s[i].0 == k,
    decreases s.len(),
{
    if s.len() > 0 {
        lemma_map_of_dom(s.drop_last(), k);
        if map_of(s.drop_last()).contains_key(k) {
            let i = choose|i: int| 0 <= i < s.drop_last().len() && s.drop_last()[i].0 == k;
            assert(s[i].0 == k);
        }
        if exists|i: int| 0 <= i < s.len() && s[i].0 == k {
            let i = choose|i: int| 0 <= i < s.len() && s[i].0 == k;
            if i < s.len() - 1 {
                assert(s.drop_last()[i].0 == k);
            }
        }
    }
}

/// Entries with distinct keys denote the map that sends each entry's key to
/// its value.
pub proof fn lemma_map_of_ext<V>(s: Seq<(ChunkKey, V)>, m: Map<ChunkKey, V>)
    requires
        keys_distinct(s),
        forall|k: ChunkKey| m.contains_key(k) <==> exists|i: int| 0 <= i < s.len() && s[i].0 == k,
        forall|i: int| 0 <= i < s.len() ==> m[#[trigger] s[i].0] == s[i].1,
    ensures
        map_of(s) == m,
{
    assert forall|k: ChunkKey| #[trigger] map_of(s).contains_key(k) == m.contains_key(k) by {
        lemma_map_of_dom(s, k);
    }
    assert forall|k: ChunkKey| map_of(s).contains_key(k) implies #[trigger] map_of(s)[k] == m[k] by {
        lemma_map_of_dom(s, k);
        let i = choose|i: int| 0 <= i < s.len() && s[i].0 == k;
        lemma_map_of_entry(s, i);
    }
    assert(map_of(s) =~= m);
}

/// A map from chunk keys to values.
pub struct KeyedVec<V> {
    entries: Vec<(ChunkKey, V)>,
}

impl<V> View for KeyedVec<V> {
    type V = Map<ChunkKey, V>;

    open spec fn view(&self) -> Map<ChunkKey, V> {
        map_of(self.entry_seq())
    }
}

impl<V> KeyedVec<V> {
    /// The entries, in the order they are walked.
    pub closed spec fn entry_seq(&self) -> Seq<(ChunkKey, V)> {
        self.entries@
    }

    /// The entries hold distinct keys.
    pub open spec fn wf(&self) -> bool {
        keys_distinct(self.entry_seq())
    }

    /// Each entry is in the map, and the map holds nothing else.
    pub proof fn lemma_entries(&self)
        requires
            self.wf(),
        ensures
            forall|i: int|
                0 <= i < self.entry_seq().len() ==> #[trigger] self@.contains_key(self.entry_seq()[i].0)
                    && self@[self.entry_seq()[i].0] == self.entry_seq()[i].1,
            forall|k: ChunkKey|
                #[trigger] self@.contains_key(k) <==> exists|i: int|
                    0 <= i < self.entry_seq().len() && self.entry_seq()[i].0 == k,
    {
        assert forall|i: int| 0 <= i < self.entry_seq().len() implies #[trigger] self@.contains_key(
            self.entry_seq()[i].0,
        ) && self@[self.entry_seq()[i].0] == self.entry_seq()[i].1 by {
            lemma_map_of_entry(self.entry_seq(), i);
        }
        assert forall|k: ChunkKey| #[trigger] self@.contains_key(k) <==> exists|i: int|
            0 <= i < self.entry_seq().len() && self.entry_seq()[i].0 == k by {
            lemma_map_of_dom(self.entry_seq(), k);
        }
    }

    pub fn new() -> (r: Self)
        ensures
            r.wf(),
            r@ == Map::<ChunkKey, V>::empty(),
            r.entry_seq().len() == 0,
    {
        KeyedVec { entries: Vec::new() }
    }

    pub fn len(&self) -> (r: usize)
        ensures
            r == self.entry_seq().len(),
    {
        self.entries.len()
    }

    pub fn key_at(&self, i: usize) -> (r: ChunkKey)
        requires
            i < self.entry_seq().len(),
        ensures
            r == self.entry_seq()[i as int].0,
    {
        self.entries[i].0
    }

    pub fn value_at(&self, i: usize) -> (r: &V)
        requires
            i < self.entry_seq().len(),
        ensures
            *r == self.entry_seq()[i as int].1,
    {
        &self.entries[i].1
    }

    /// The value of entry `i`, to change in place.
    pub fn value_at_mut(&mut self, i: usize) -> (r: &mut V)
        requires
            i < old(self).entry_seq().len(),
        ensures
            *r == old(self).entry_seq()[i as int].1,
            final(self).entry_seq() == old(self).entry_seq().update(
                i as int,
                (old(self).entry_seq()[i as int].0, *final(r)),
            ),
    {
        &mut self.entries[i].1
    }

    /// Position of the entry for `k`, if any.
    pub fn find(&self, k: ChunkKey) -> (r: Option<usize>)
        ensures
            r matches Some(i) ==> i < self.entry_seq().len() && self.entry_seq()[i as int].0 == k,
            r is None ==> forall|i: int| 0 <= i < self.entry_seq().len() ==> self.entry_seq()[i].0 != k,
    {
        let mut i: usize = 0;
        while i < self.entries.len()
            invariant
                i <= self.entries@.len(),
                forall|j: int| 0 <= j < i ==> self.entries@[j].0 != k,
            decreases self.entries@.len() - i,
        {
            let e = self.entries[i].0;
            if e.0 == k.0 && e.1 == k.1 && e.2 == k.2 {
                return Some(i);
            }
            i += 1;
        }
        None
    }

    /// The keys, in entry order.
    pub fn keys(&self) -> (r: Vec<ChunkKey>)
        ensures
            r@.len() == self.entry_seq().len(),
            forall|i: int| 0 <= i < r@.len() ==> r@[i] == self.entry_seq()[i].0,
    {
        let mut r: Vec<ChunkKey> = Vec::new();
        let mut i: usize = 0;
        while i < self.entries.len()
            invariant
                i <= self.entries@.len(),
                r@.len() == i,
                forall|j: int| 0 <= j < i ==> r@[j] == self.entries@[j].0,
            decreases self.entries@.len() - i,
        {
            r.push(self.entries[i].0);
            i += 1;
        }
        r
    }

    /// Sets the value of `k`, replacing any earlier one.
    pub fn insert(&mut self, k: ChunkKey, v: V)
        requires
            old(self).wf(),
        ensures
            final(self).wf(),
            final(self)@ == old(self)@.insert(k, v),
    {
        let ghost before = self.entries@;
        let ghost target = map_of(before).insert(k, v);
        proof {
            self.lemma_entries();
        }
        match self.find(k) {
            Some(i) => {
                self.entries.set(i, (k, v));
                proof {
                    let s = self.entries@;
                    assert forall|j: int| 0 <= j < s.len() implies target[#[trigger] s[j].0] == s[j].1 by {
                        if j != i {
                            lemma_map_of_entry(before, j);
                        }
                    }
                    assert forall|kk: ChunkKey| target.contains_key(kk) <==> exists|j: int|
                        0 <= j < s.len() && s[j].0 == kk by {
                        lemma_map_of_dom(before, kk);
                        if map_of(before).contains_key(kk) {
                            let j = choose|j: int| 0 <= j < before.len() && before[j].0 == kk;
                            assert(s[j].0 == kk);
                        }
                        if exists|j: int| 0 <= j < s.len() && s[j].0 == kk {
                            let j = choose|j: int| 0 <= j < s.len() && s[j].0 == kk;
                            if j != i {
                                assert(before[j].0 == kk);
                            }
                        }
                    }
                    lemma_map_of_ext(s, target);
                }
            },
            None => {
                self.entries.push((k, v));
                proof {
                    assert(self.entries@.drop_last() =~= before);
                }
            },
        }
    }

    /// Removes the entry of `k`, if any, and hands back its value.
    pub fn remove(&mut self, k: ChunkKey) -> (r: Option<V>)
        requires
            old(self).wf(),
        ensures
            final(self).wf(),
            final(self)@ == old(self)@.remove(k),
            r is Some <==> old(self)@.contains_key(k),
            r matches Some(v) ==> v == old(self)@[k],
    {
        let ghost before = self.entries@;
        let ghost target = map_of(before).remove(k);
        proof {
            self.lemma_entries();
        }
        match self.find(k) {
            Some(i) => {
                let e = self.entries.remove(i);
                proof {
                    lemma_map_of_entry(before, i as int);
                    let s = self.entries@;
                    assert forall|j: int| 0 <= j < s.len() implies target[#[trigger] s[j].0] == s[j].1 by {
                        if j < i {
                            lemma_map_of_entry(before, j);
                        } else {
                            lemma_map_of_entry(before, j + 1);
                        }
                    }
                    assert forall|kk: ChunkKey| target.contains_key(kk) <==> exists|j: int|
                        0 <= j < s.len() && s[j].0 == kk by {
                        lemma_map_of_dom(before, kk);
                        if target.contains_key(kk) {
                            let j = choose|j: int| 0 <= j < before.len() && before[j].0 == kk;
                            if j < i {
                                assert(s[j].0 == kk);
                            } else {
                                assert(s[j - 1].0 == kk);
                            }
                        }
                        if exists|j: int| 0 <= j < s.len() && s[j].0 == kk {
                            let j = choose|j: int| 0 <= j < s.len() && s[j].0 == kk;
                            if j < i {
                                assert(before[j].0 == kk);
                            } else {
                                assert(before[j + 1].0 == kk);
                            }
                        }
                    }
                    lemma_map_of_ext(s, target);
                }
                Some(e.1)
            },
            None => {
                proof {
                    lemma_map_of_dom(before, k);
                    assert(!map_of(before).contains_key(k));
                    assert(map_of(before).remove(k) =~= map_of(before));
                }
                None
            },
        }
    }
}

} // verus!
