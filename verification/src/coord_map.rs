//! Sparse associative container keyed by a pair of signed chunk
//! coordinates. Keys are unique; no ordering is kept.

use vstd::prelude::*;

verus! {

/// One entry of a `CoordMap`: a coordinate pair and the value stored
/// under it.
#[derive(Clone)]
pub struct CoordEntry<T> {
    pub x: i32,
    pub z: i32,
    pub value: T,
}

/// The key of one entry, as a pair of mathematical integers.
pub open spec fn entry_key<T>(e: CoordEntry<T>) -> (int, int) {
    (e.x as int, e.z as int)
}

/// The map that a sequence of entries stands for; a later entry wins
/// over an earlier one with the same key.
pub open spec fn seq_to_map<T>(s: Seq<CoordEntry<T>>) -> Map<(int, int), T>
    decreases s.len(),
{
    if s.len() == 0 {
        Map::empty()
    } else {
        seq_to_map(s.drop_last()).insert(entry_key(s.last()), s.last().value)
    }
}

/// Associative container from chunk coordinates to values.
#[derive(Clone)]
pub struct CoordMap<T> {
    entries: Vec<CoordEntry<T>>,
}

impl<T> View for CoordMap<T> {
    type V = Map<(int, int), T>;

    closed spec fn view(&self) -> Map<(int, int), T> {
        seq_to_map(self.entries@)
    }
}

proof fn lemma_seq_to_map_present<T>(s: Seq<CoordEntry<T>>, i: int)
    requires
        0 <= i < s.len(),
        forall|j: int| i < j < s.len() ==> entry_key(s[j]) != entry_key(s[i]),
    ensures
        seq_to_map(s).contains_key(entry_key(s[i])),
        seq_to_map(s)[entry_key(s[i])] == s[i].value,
    decreases s.len(),
{
    if i == s.len() - 1 {
    } else {
        assert(s.drop_last()[i] == s[i]);
        lemma_seq_to_map_present(s.drop_last(), i);
    }
}

proof fn lemma_seq_to_map_absent<T>(s: Seq<CoordEntry<T>>, k: (int, int))
    requires
        forall|j: int| 0 <= j < s.len() ==> entry_key(s[j]) != k,
    ensures
        !seq_to_map(s).contains_key(k),
    decreases s.len(),
{
    if s.len() > 0 {
        lemma_seq_to_map_absent(s.drop_last(), k);
    }
}

proof fn lemma_seq_to_map_update<T>(s: Seq<CoordEntry<T>>, i: int, e: CoordEntry<T>)
    requires
        0 <= i < s.len(),
        entry_key(e) == entry_key(s[i]),
        forall|p: int, q: int|
            0 <= p < q < s.len() ==> entry_key(s[p]) != entry_key(s[q]),
    ensures
        seq_to_map(s.update(i, e)) == seq_to_map(s).insert(entry_key(e), e.value),
    decreases s.len(),
{
    let t = s.update(i, e);
    if i == s.len() - 1 {
        assert(t.drop_last() =~= s.drop_last());
        assert(seq_to_map(t) =~= seq_to_map(s).insert(entry_key(e), e.value));
    } else {
        assert(t.drop_last() =~= s.drop_last().update(i, e));
        assert(s.drop_last()[i] == s[i]);
        lemma_seq_to_map_update(s.drop_last(), i, e);
        assert(t.last() == s.last());
        assert(entry_key(s.last()) != entry_key(s[i]));
        assert(seq_to_map(t) =~= seq_to_map(s).insert(entry_key(e), e.value));
    }
}

proof fn lemma_seq_to_map_contains<T>(s: Seq<CoordEntry<T>>, j: int)
    requires
        0 <= j < s.len(),
    ensures
        seq_to_map(s).contains_key(entry_key(s[j])),
    decreases s.len(),
{
    if j < s.len() - 1 {
        assert(s.drop_last()[j] == s[j]);
        lemma_seq_to_map_contains(s.drop_last(), j);
    }
}

proof fn lemma_update_same_key_wf<T>(s: Seq<CoordEntry<T>>, i: int, e: CoordEntry<T>)
    requires
        0 <= i < s.len(),
        entry_key(e) == entry_key(s[i]),
        forall|p: int, q: int|
            0 <= p < q < s.len() ==> entry_key(s[p]) != entry_key(s[q]),
    ensures
        forall|p: int, q: int|
            0 <= p < q < s.update(i, e).len()
                ==> entry_key(s.update(i, e)[p]) != entry_key(s.update(i, e)[q]),
{
    let t = s.update(i, e);
    assert forall|p: int, q: int| 0 <= p < q < t.len()
        implies entry_key(t[p]) != entry_key(t[q]) by {
        assert(entry_key(t[p]) == entry_key(s[p]));
        assert(entry_key(t[q]) == entry_key(s[q]));
    }
}

impl<T> CoordMap<T> {
    /// Key uniqueness: the container really is a map.
    pub closed spec fn wf(self) -> bool {
        forall|p: int, q: int|
            0 <= p < q < self.entries@.len()
                ==> entry_key(self.entries@[p]) != entry_key(self.entries@[q])
    }

    /// An empty container.
    pub fn new() -> (r: CoordMap<T>)
        ensures
            r.wf(),
            r@ == Map::<(int, int), T>::empty(),
    {
        CoordMap { entries: Vec::new() }
    }

    /// The index of the entry holding key `(x, z)`, if it is present.
    fn find_index(&self, x: i32, z: i32) -> (r: Option<usize>)
        requires
            self.wf(),
        ensures
            match r {
                Some(i) => {
                    &&& i < self.entries@.len()
                    &&& entry_key(self.entries@[i as int]) == (x as int, z as int)
                    &&& self@.contains_key((x as int, z as int))
                    &&& self@[(x as int, z as int)] == self.entries@[i as int].value
                },
                None => !self@.contains_key((x as int, z as int)),
            },
    {
        let n = self.entries.len();
        let mut i: usize = 0;
        while i < n
            invariant
                n == self.entries@.len(),
                i <= n,
                self.wf(),
                forall|j: int| 0 <= j < i ==> entry_key(self.entries@[j]) != (x as int, z as int),
            decreases n - i,
        {
            let e = &self.entries[i];
            if e.x == x && e.z == z {
                proof {
                    lemma_seq_to_map_present(self.entries@, i as int);
                }
                return Some(i);
            }
            i = i + 1;
        }
        proof {
            lemma_seq_to_map_absent(self.entries@, (x as int, z as int));
        }
        None
    }

    /// Whether a value is stored under `(x, z)`.
    pub fn contains(&self, x: i32, z: i32) -> (r: bool)
        requires
            self.wf(),
        ensures
            r == self@.contains_key((x as int, z as int)),
    {
        self.find_index(x, z).is_some()
    }

    /// Read-only lookup; `None` when the key was never inserted.
    pub fn get(&self, x: i32, z: i32) -> (r: Option<&T>)
        requires
            self.wf(),
        ensures
            match r {
                Some(v) => {
                    &&& self@.contains_key((x as int, z as int))
                    &&& *v == self@[(x as int, z as int)]
                },
                None => !self@.contains_key((x as int, z as int)),
            },
    {
        match self.find_index(x, z) {
            Some(i) => Some(&self.entries[i].value),
            None => None,
        }
    }

    /// Lookup of a key known to be present.
    pub fn get_existing(&self, x: i32, z: i32) -> (r: &T)
        requires
            self.wf(),
            self@.contains_key((x as int, z as int)),
        ensures
            *r == self@[(x as int, z as int)],
    {
        match self.find_index(x, z) {
            Some(i) => &self.entries[i].value,
            None => unreached(),
        }
    }

    /// Mutable lookup of a key known to be present; writing through the
    /// result replaces the value stored under `(x, z)`.
    pub fn get_existing_mut(&mut self, x: i32, z: i32) -> (r: &mut T)
        requires
            old(self).wf(),
            old(self)@.contains_key((x as int, z as int)),
        ensures
            *r == old(self)@[(x as int, z as int)],
            final(self)@ == old(self)@.insert((x as int, z as int), *final(r)),
            final(self).wf(),
    {
        match self.find_index(x, z) {
            Some(i) => {
                proof {
                    let s = self.entries@;
                    assert forall|ee: CoordEntry<T>| entry_key(ee) == (x as int, z as int)
                        implies seq_to_map(#[trigger] s.update(i as int, ee))
                            == seq_to_map(s).insert((x as int, z as int), ee.value) by {
                        lemma_seq_to_map_update(s, i as int, ee);
                    }
                    assert forall|ee: CoordEntry<T>| entry_key(ee) == (x as int, z as int)
                        implies (forall|p: int, q: int|
                            0 <= p < q < (#[trigger] s.update(i as int, ee)).len()
                                ==> entry_key(s.update(i as int, ee)[p])
                                    != entry_key(s.update(i as int, ee)[q])) by {
                        lemma_update_same_key_wf(s, i as int, ee);
                    }
                }
                &mut self.entries[i].value
            },
            None => unreached(),
        }
    }

    /// Store `value` under `(x, z)`, replacing any earlier value.
    pub fn insert(&mut self, x: i32, z: i32, value: T)
        requires
            old(self).wf(),
        ensures
            final(self).wf(),
            final(self)@ == old(self)@.insert((x as int, z as int), value),
    {
        let ghost s0 = self.entries@;
        match self.find_index(x, z) {
            Some(i) => {
                let e = CoordEntry { x, z, value };
                proof {
                    lemma_seq_to_map_update(s0, i as int, e);
                    lemma_update_same_key_wf(s0, i as int, e);
                }
                self.entries[i] = e;
                proof {
                    assert(self.entries@ =~= s0.update(i as int, e));
                }
            },
            None => {
                self.entries.push(CoordEntry { x, z, value });
                proof {
                    assert(self.entries@.drop_last() =~= s0);
                    assert forall|p: int, q: int|
                        0 <= p < q < self.entries@.len()
                            implies entry_key(self.entries@[p]) != entry_key(self.entries@[q]) by {
                        assert(self.entries@[p] == s0[p]);
                        if q < s0.len() {
                            assert(self.entries@[q] == s0[q]);
                        } else {
                            if entry_key(s0[p]) == (x as int, z as int) {
                                lemma_seq_to_map_contains(s0, p);
                            }
                        }
                    }
                }
            },
        }
    }
}

} // verus!
