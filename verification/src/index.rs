//! The group index: a mapping from group key to the volume chosen to host
//! all files sharing that key.
//!
//! The index is an association list with pairwise-distinct keys; its
//! mathematical value is a `Map` from key to volume. Two mutations exist:
//! `insert` (last writer wins, used while scanning volumes) and
//! `insert_if_absent` (first writer wins, used during placement).

use vstd::prelude::*;

verus! {

/// The map described by an association list; later entries override
/// earlier ones.
pub open spec fn index_map(entries: Seq<(String, String)>) -> Map<Seq<char>, Seq<char>>
    decreases entries.len(),
{
    if entries.len() == 0 {
        Map::empty()
    } else {
        index_map(entries.drop_last()).insert(entries.last().0@, entries.last().1@)
    }
}

/// A mapping from group key to volume root.
#[derive(Debug, PartialEq, Eq)]
pub struct VolumeIndex {
    entries: Vec<(String, String)>,
}

/// The views of a list of volume roots.
pub open spec fn views_of(vols: Seq<String>) -> Seq<Seq<char>> {
    vols.map_values(|x: String| x@)
}

/// `v` is one of the volumes of `vols`.
pub open spec fn has_volume(vols: Seq<Seq<char>>, v: Seq<char>) -> bool {
    exists|i: int| 0 <= i < vols.len() && vols[i] == v
}

/// The first position of `v` among `vols` (meaningful only when
/// `has_volume(vols, v)`).
pub open spec fn volume_position(vols: Seq<Seq<char>>, v: Seq<char>) -> int
    decreases vols.len(),
{
    if vols.len() == 0 {
        0
    } else if has_volume(vols.drop_last(), v) {
        volume_position(vols.drop_last(), v)
    } else {
        vols.len() - 1
    }
}

pub proof fn lemma_volume_position_is_first(vols: Seq<Seq<char>>, v: Seq<char>)
    requires
        has_volume(vols, v),
    ensures
        0 <= volume_position(vols, v) < vols.len(),
        vols[volume_position(vols, v)] == v,
        forall|j: int| 0 <= j < volume_position(vols, v) ==> vols[j] != v,
    decreases vols.len(),
{
    if has_volume(vols.drop_last(), v) {
        lemma_volume_position_is_first(vols.drop_last(), v);
        assert(forall|j: int|
            0 <= j < volume_position(vols, v) ==> vols[j] == vols.drop_last()[j]);
    } else {
        let i = choose|i: int| 0 <= i < vols.len() && vols[i] == v;
        if i < vols.len() - 1 {
            assert(vols.drop_last()[i] == v);
        }
        assert(forall|j: int| 0 <= j < vols.len() - 1 && vols[j] == v ==> vols.drop_last()[j] == v);
    }
}

/// Every volume that the map names is one of `vols`.
pub open spec fn volumes_from(m: Map<Seq<char>, Seq<char>>, vols: Seq<Seq<char>>) -> bool {
    forall|k: Seq<char>| #[trigger] m.contains_key(k) ==> has_volume(vols, m[k])
}

/// Every key of `m0` is also in `m1`, mapped to the same volume.
pub open spec fn index_preserved(m0: Map<Seq<char>, Seq<char>>, m1: Map<Seq<char>, Seq<char>>) -> bool {
    forall|k: Seq<char>| #[trigger] m0.contains_key(k) ==> m1.contains_key(k) && m1[k] == m0[k]
}

/// Preservation of seeded keys carries over any number of steps.
pub proof fn lemma_index_preserved_trans(
    m0: Map<Seq<char>, Seq<char>>,
    m1: Map<Seq<char>, Seq<char>>,
    m2: Map<Seq<char>, Seq<char>>,
)
    requires
        index_preserved(m0, m1),
        index_preserved(m1, m2),
    ensures
        index_preserved(m0, m2),
{
    assert forall|k: Seq<char>| m0.contains_key(k) implies m2.contains_key(k) && m2[k] == m0[k] by {
        assert(m1.contains_key(k) && m1[k] == m0[k]);
    }
}

proof fn lemma_index_map_domain(entries: Seq<(String, String)>, k: Seq<char>)
    ensures
        index_map(entries).contains_key(k) <==> exists|i: int|
            0 <= i < entries.len() && entries[i].0@ == k,
    decreases entries.len(),
{
    if entries.len() > 0 {
        lemma_index_map_domain(entries.drop_last(), k);
        if index_map(entries).contains_key(k) {
            if entries.last().0@ != k {
                let i = choose|i: int|
                    0 <= i < entries.drop_last().len() && entries.drop_last()[i].0@ == k;
                assert(entries[i].0@ == k);
            } else {
                assert(entries[entries.len() - 1].0@ == k);
            }
        }
        if exists|i: int| 0 <= i < entries.len() && entries[i].0@ == k {
            let i = choose|i: int| 0 <= i < entries.len() && entries[i].0@ == k;
            if i < entries.len() - 1 {
                assert(entries.drop_last()[i].0@ == k);
            }
        }
    }
}

proof fn lemma_index_map_entry(entries: Seq<(String, String)>, i: int)
    requires
        0 <= i < entries.len(),
        forall|p: int, q: int|
            0 <= p < q < entries.len() ==> entries[p].0@ != entries[q].0@,
    ensures
        index_map(entries).contains_key(entries[i].0@),
        index_map(entries)[entries[i].0@] == entries[i].1@,
    decreases entries.len(),
{
    if i == entries.len() - 1 {
    } else {
        lemma_index_map_entry(entries.drop_last(), i);
        assert(entries.last().0@ != entries[i].0@);
    }
}

impl View for VolumeIndex {
    type V = Map<Seq<char>, Seq<char>>;

    closed spec fn view(&self) -> Map<Seq<char>, Seq<char>> {
        index_map(self.entries@)
    }
}

impl VolumeIndex {
    /// Keys are pairwise distinct, so every key has exactly one entry.
    pub closed spec fn wf(&self) -> bool {
        forall|p: int, q: int|
            0 <= p < q < self.entries@.len() ==> self.entries@[p].0@ != self.entries@[q].0@
    }

    /// An empty index.
    pub fn new() -> (r: VolumeIndex)
        ensures
            r@ == Map::<Seq<char>, Seq<char>>::empty(),
            r.wf(),
    {
        VolumeIndex { entries: Vec::new() }
    }

    fn position_of(&self, key: &String) -> (r: Option<usize>)
        ensures
            match r {
                Some(i) => i < self.entries@.len() && self.entries@[i as int].0@ == key@,
                None => forall|i: int| 0 <= i < self.entries@.len() ==> self.entries@[i].0@ != key@,
            },
    {
        let mut i: usize = 0;
        while i < self.entries.len()
            invariant
                i <= self.entries@.len(),
                forall|j: int| 0 <= j < i ==> self.entries@[j].0@ != key@,
            decreases self.entries@.len() - i,
        {
            if self.entries[i].0 == *key {
                return Some(i);
            }
            i += 1;
        }
        None
    }

    /// The volume mapped to `key`, if any.
    pub fn get(&self, key: &String) -> (r: Option<&String>)
        requires
            self.wf(),
        ensures
            r is Some <==> self@.contains_key(key@),
            r matches Some(v) ==> self@[key@] == v@,
    {
        proof {
            lemma_index_map_domain(self.entries@, key@);
        }
        match self.position_of(key) {
            Some(i) => {
                proof {
                    lemma_index_map_entry(self.entries@, i as int);
                }
                Some(&self.entries[i].1)
            },
            None => None,
        }
    }

    /// Map `key` to `volume` unless `key` is already mapped; the first
    /// writer wins and later insertions of the same key change nothing.
    pub fn insert_if_absent(&mut self, key: String, volume: String) -> (inserted: bool)
        requires
            old(self).wf(),
        ensures
            final(self).wf(),
            inserted <==> !old(self)@.contains_key(key@),
            inserted ==> final(self)@ == old(self)@.insert(key@, volume@),
            !inserted ==> final(self)@ == old(self)@,
    {
        proof {
            lemma_index_map_domain(self.entries@, key@);
        }
        match self.position_of(&key) {
            Some(_) => false,
            None => {
                let ghost pre = self.entries@;
                self.entries.push((key, volume));
                proof {
                    assert(self.entries@.drop_last() =~= pre);
                }
                true
            },
        }
    }

    /// Map `key` to `volume`, replacing any earlier mapping: the last
    /// writer wins.
    pub fn insert(&mut self, key: String, volume: String)
        requires
            old(self).wf(),
        ensures
            final(self).wf(),
            final(self)@ == old(self)@.insert(key@, volume@),
    {
        proof {
            lemma_index_map_domain(self.entries@, key@);
        }
        match self.position_of(&key) {
            Some(i) => {
                let ghost pre = self.entries@;
                self.entries[i] = (key, volume);
                proof {
                    lemma_index_map_update(pre, i as int, self.entries@[i as int]);
                }
            },
            None => {
                let ghost pre = self.entries@;
                self.entries.push((key, volume));
                proof {
                    assert(self.entries@.drop_last() =~= pre);
                }
            },
        }
    }

    /// The number of keys in the index.
    pub fn len(&self) -> (r: usize)
        requires
            self.wf(),
        ensures
            r == self@.dom().len(),
    {
        proof {
            lemma_index_map_len(self.entries@);
        }
        self.entries.len()
    }

    /// Rebuild the index with every volume replaced by the destination at
    /// that volume's position in `dirs`: the Nth directory corresponds to
    /// the Nth destination volume.
    pub fn translate(&self, dirs: &Vec<String>, dst_paths: &Vec<String>) -> (r: VolumeIndex)
        requires
            self.wf(),
            dirs@.len() == dst_paths@.len(),
            forall|k: Seq<char>| self@.contains_key(k) ==> has_volume(views_of(dirs@), self@[k]),
        ensures
            r.wf(),
            forall|k: Seq<char>| r@.contains_key(k) <==> self@.contains_key(k),
            forall|k: Seq<char>|
                self@.contains_key(k) ==> r@[k] == views_of(dst_paths@)[volume_position(views_of(dirs@), self@[k])],
            volumes_from(r@, views_of(dst_paths@)),
    {
        let mut out = VolumeIndex::new();
        let mut i: usize = 0;
        while i < self.entries.len()
            invariant
                out.wf(),
                self.wf(),
                dirs@.len() == dst_paths@.len(),
                forall|k: Seq<char>| self@.contains_key(k) ==> has_volume(views_of(dirs@), self@[k]),
                i <= self.entries@.len(),
                forall|k: Seq<char>|
                    out@.contains_key(k) <==> exists|j: int|
                        0 <= j < i && self.entries@[j].0@ == k,
                forall|j: int|
                    0 <= j < i ==> out@[self.entries@[j].0@] == views_of(dst_paths@)[volume_position(views_of(dirs@), self.entries@[j].1@)],
            decreases self.entries@.len() - i,
        {
            proof {
                lemma_index_map_entry(self.entries@, i as int);
                lemma_index_map_domain(self.entries@, self.entries@[i as int].0@);
                assert(self@.contains_key(self.entries@[i as int].0@));
                assert(self@[self.entries@[i as int].0@] == self.entries@[i as int].1@);
                assert(has_volume(views_of(dirs@), self.entries@[i as int].1@));
                lemma_volume_position_is_first(views_of(dirs@), self.entries@[i as int].1@);
            }
            let pos = position_of_volume(dirs, &self.entries[i].1);
            out.insert(self.entries[i].0.clone(), dst_paths[pos].clone());
            i += 1;
        }
        proof {
            assert forall|k: Seq<char>| out@.contains_key(k) <==> self@.contains_key(k) by {
                lemma_index_map_domain(self.entries@, k);
            }
            assert forall|k: Seq<char>| self@.contains_key(k) implies out@[k] == views_of(dst_paths@)[volume_position(views_of(dirs@), self@[k])] by {
                lemma_index_map_domain(self.entries@, k);
                let j = choose|j: int|
                    0 <= j < self.entries@.len() && self.entries@[j].0@ == k;
                lemma_index_map_entry(self.entries@, j);
            }
            assert forall|k: Seq<char>| out@.contains_key(k) implies has_volume(
                views_of(dst_paths@),
                out@[k],
            ) by {
                lemma_index_map_domain(self.entries@, k);
                let j = choose|j: int|
                    0 <= j < self.entries@.len() && self.entries@[j].0@ == k;
                lemma_index_map_entry(self.entries@, j);
                lemma_volume_position_is_first(views_of(dirs@), self@[k]);
            }
        }
        out
    }
}

/// The first position of `v` among `vols`, which must hold it.
fn position_of_volume(vols: &Vec<String>, v: &String) -> (r: usize)
    requires
        has_volume(views_of(vols@), v@),
    ensures
        r as int == volume_position(views_of(vols@), v@),
        r < vols@.len(),
{
    proof {
        lemma_volume_position_is_first(views_of(vols@), v@);
    }
    let mut i: usize = 0;
    while i < vols.len()
        invariant
            i <= vols@.len(),
            forall|j: int| 0 <= j < i ==> views_of(vols@)[j] != v@,
            has_volume(views_of(vols@), v@),
        decreases vols@.len() - i,
    {
        if vols[i] == *v {
            proof {
                assert(views_of(vols@)[i as int] == v@);
                lemma_volume_position_is_first(views_of(vols@), v@);
            }
            return i;
        }
        i += 1;
    }
    proof {
        let w = choose|w: int| 0 <= w < views_of(vols@).len() && views_of(vols@)[w] == v@;
        assert(false);
    }
    0
}

proof fn lemma_index_map_len(entries: Seq<(String, String)>)
    requires
        forall|p: int, q: int|
            0 <= p < q < entries.len() ==> entries[p].0@ != entries[q].0@,
    ensures
        index_map(entries).dom().len() == entries.len(),
        index_map(entries).dom().finite(),
    decreases entries.len(),
{
    if entries.len() > 0 {
        lemma_index_map_len(entries.drop_last());
        lemma_index_map_domain(entries.drop_last(), entries.last().0@);
        assert(!index_map(entries.drop_last()).contains_key(entries.last().0@));
        assert(index_map(entries).dom() =~= index_map(entries.drop_last()).dom().insert(
            entries.last().0@,
        ));
        vstd::set::axiom_set_insert_len(
            index_map(entries.drop_last()).dom(),
            entries.last().0@,
        );
    } else {
        assert(index_map(entries).dom() =~= Set::<Seq<char>>::empty());
    }
}

proof fn lemma_index_map_update(entries: Seq<(String, String)>, i: int, t: (String, String))
    requires
        0 <= i < entries.len(),
        forall|p: int, q: int|
            0 <= p < q < entries.len() ==> entries[p].0@ != entries[q].0@,
        t.0@ == entries[i].0@,
    ensures
        index_map(entries.update(i, t)) =~= index_map(entries).insert(t.0@, t.1@),
    decreases entries.len(),
{
    if i == entries.len() - 1 {
        assert(entries.update(i, t).drop_last() =~= entries.drop_last());
    } else {
        assert(entries.update(i, t).drop_last() =~= entries.drop_last().update(i, t));
        lemma_index_map_update(entries.drop_last(), i, t);
        assert(entries.update(i, t).last() == entries.last());
        assert(entries.last().0@ != t.0@);
    }
}

} // verus!
