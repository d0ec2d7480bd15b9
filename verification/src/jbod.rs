//! Merging per-volume file listings and locating existing copies.
//!
//! A JBOD exposes several independently mounted volumes as one logical
//! namespace. `list_files` merges the per-volume listings into one list
//! with a single entry per relative path, keeping the largest observed
//! size (read as the most complete copy). `find_file` picks, among the
//! volumes that already hold a relative path, one with the largest copy.

use vstd::prelude::*;
use crate::filelist::{FileEntry, FileEntryView};
use crate::group::{make_group_key, spec_group_key, GroupBy};
use crate::index::VolumeIndex;
use crate::paths::join_view;

verus! {

/// Some entry of `s` has the relative path `p`.
pub open spec fn contains_path(s: Seq<FileEntryView>, p: Seq<char>) -> bool {
    exists|i: int| 0 <= i < s.len() && s[i].relpath == p
}

/// The first index of `s` whose entry has the relative path `p`
/// (meaningful only when `contains_path(s, p)`).
pub open spec fn index_of_path(s: Seq<FileEntryView>, p: Seq<char>) -> int
    decreases s.len(),
{
    if s.len() == 0 {
        0
    } else if contains_path(s.drop_last(), p) {
        index_of_path(s.drop_last(), p)
    } else {
        s.len() - 1
    }
}

/// No two entries of `s` share a relative path.
pub open spec fn distinct_paths(s: Seq<FileEntryView>) -> bool {
    forall|i: int, j: int| 0 <= i < j < s.len() ==> s[i].relpath != s[j].relpath
}

/// The merged listing: one entry per relative path, in order of first
/// appearance, each with the largest size observed for that path.
pub open spec fn merge_spec(s: Seq<FileEntryView>) -> Seq<FileEntryView>
    decreases s.len(),
{
    if s.len() == 0 {
        Seq::empty()
    } else {
        let prev = merge_spec(s.drop_last());
        let e = s.last();
        if contains_path(prev, e.relpath) {
            let i = index_of_path(prev, e.relpath);
            if prev[i].size < e.size {
                prev.update(i, e)
            } else {
                prev
            }
        } else {
            prev.push(e)
        }
    }
}

/// The listings of all volumes, one after another in volume order.
pub open spec fn concat_all(s: Seq<Seq<FileEntryView>>) -> Seq<FileEntryView>
    decreases s.len(),
{
    if s.len() == 0 {
        Seq::empty()
    } else {
        concat_all(s.drop_last()) + s.last()
    }
}

pub proof fn lemma_index_of_path_is_first(s: Seq<FileEntryView>, p: Seq<char>)
    requires
        contains_path(s, p),
    ensures
        0 <= index_of_path(s, p) < s.len(),
        s[index_of_path(s, p)].relpath == p,
        forall|j: int| 0 <= j < index_of_path(s, p) ==> s[j].relpath != p,
    decreases s.len(),
{
    if contains_path(s.drop_last(), p) {
        lemma_index_of_path_is_first(s.drop_last(), p);
        assert(forall|j: int|
            0 <= j < index_of_path(s, p) ==> s[j].relpath == s.drop_last()[j].relpath);
    } else {
        let i = choose|i: int| 0 <= i < s.len() && s[i].relpath == p;
        if i < s.len() - 1 {
            assert(s.drop_last()[i].relpath == p);
        }
        assert(forall|j: int|
            0 <= j < s.len() - 1 && s[j].relpath == p ==> s.drop_last()[j].relpath == p);
    }
}

/// Merging never puts two entries with one relative path in the result.
pub proof fn lemma_merge_distinct(s: Seq<FileEntryView>)
    ensures
        distinct_paths(merge_spec(s)),
    decreases s.len(),
{
    if s.len() > 0 {
        lemma_merge_distinct(s.drop_last());
        let prev = merge_spec(s.drop_last());
        let e = s.last();
        if contains_path(prev, e.relpath) {
            lemma_index_of_path_is_first(prev, e.relpath);
        }
    }
}

/// A path occurs in the merged listing exactly when it occurs in the input.
pub proof fn lemma_merge_same_paths(s: Seq<FileEntryView>, p: Seq<char>)
    ensures
        contains_path(merge_spec(s), p) <==> contains_path(s, p),
    decreases s.len(),
{
    if s.len() > 0 {
        lemma_merge_same_paths(s.drop_last(), p);
        let prev = merge_spec(s.drop_last());
        let e = s.last();
        if contains_path(prev, e.relpath) {
            lemma_index_of_path_is_first(prev, e.relpath);
            let i = index_of_path(prev, e.relpath);
            if prev[i].size < e.size {
                assert(forall|j: int|
                    0 <= j < prev.len() && j != i ==> prev.update(i, e)[j] == prev[j]);
                if contains_path(prev, p) {
                    let w = choose|w: int| 0 <= w < prev.len() && prev[w].relpath == p;
                    assert(prev.update(i, e)[w].relpath == p);
                }
            }
        } else {
            if contains_path(s.drop_last(), p) {
                let w = choose|w: int| 0 <= w < prev.len() && prev[w].relpath == p;
                assert(prev.push(e)[w].relpath == p);
            }
            if p == e.relpath {
                assert(prev.push(e)[prev.len() as int].relpath == p);
                assert(s[s.len() - 1].relpath == p);
            }
        }
        assert(forall|w: int|
            0 <= w < s.len() - 1 && s[w].relpath == p ==> s.drop_last()[w].relpath == p);
    }
}

/// Each merged entry is one actually observed in the input, and carries
/// the largest size observed anywhere in the input for its relative path
/// — read as the most complete copy.
pub proof fn lemma_merge_takes_largest(s: Seq<FileEntryView>, i: int)
    requires
        0 <= i < merge_spec(s).len(),
    ensures
        forall|j: int|
            0 <= j < s.len() && s[j].relpath == merge_spec(s)[i].relpath ==> s[j].size
                <= merge_spec(s)[i].size,
        exists|j: int| 0 <= j < s.len() && s[j] == merge_spec(s)[i],
    decreases s.len(),
{
    let prev = merge_spec(s.drop_last());
    let e = s.last();
    let cur = merge_spec(s);
    assert(forall|j: int| 0 <= j < s.len() - 1 ==> s[j] == s.drop_last()[j]);
    lemma_merge_distinct(s.drop_last());
    lemma_merge_same_paths(s.drop_last(), e.relpath);
    if contains_path(prev, e.relpath) {
        lemma_index_of_path_is_first(prev, e.relpath);
        let t = index_of_path(prev, e.relpath);
        lemma_merge_takes_largest(s.drop_last(), if i == t && prev[t].size < e.size {
            t
        } else {
            i
        });
        if prev[t].size < e.size {
            if i == t {
                assert(s[s.len() - 1] == cur[i]);
            } else {
                assert(cur[i] == prev[i]);
                let w = choose|w: int|
                    0 <= w < s.drop_last().len() && s.drop_last()[w] == prev[i];
                assert(s[w] == cur[i]);
            }
        } else {
            let w = choose|w: int| 0 <= w < s.drop_last().len() && s.drop_last()[w] == prev[i];
            assert(s[w] == cur[i]);
            if i == t {
                lemma_merge_takes_largest(s.drop_last(), t);
            }
        }
    } else {
        if i < prev.len() {
            lemma_merge_takes_largest(s.drop_last(), i);
            let w = choose|w: int| 0 <= w < s.drop_last().len() && s.drop_last()[w] == prev[i];
            assert(s[w] == cur[i]);
            assert(cur[i] == prev[i]);
        } else {
            assert(cur[i] == e);
            assert(s[s.len() - 1] == cur[i]);
            assert forall|j: int|
                0 <= j < s.len() && s[j].relpath == cur[i].relpath implies s[j].size
                <= cur[i].size by {
                if j < s.len() - 1 {
                    assert(s.drop_last()[j].relpath == e.relpath);
                    assert(contains_path(s.drop_last(), e.relpath));
                }
            }
        }
    }
}

fn find_entry(v: &Vec<FileEntry>, p: &String) -> (r: Option<usize>)
    ensures
        match r {
            Some(j) => j < v.deep_view().len() && v.deep_view()[j as int].relpath == p@,
            None => !contains_path(v.deep_view(), p@),
        },
{
    let mut i: usize = 0;
    while i < v.len()
        invariant
            i <= v@.len(),
            forall|j: int| 0 <= j < i ==> v.deep_view()[j].relpath != p@,
        decreases v@.len() - i,
    {
        if v[i].relpath == *p {
            return Some(i);
        }
        i += 1;
    }
    None
}

/// Merge the per-volume listings into one listing with a single entry per
/// relative path. A path found on several volumes (or several times) keeps
/// its first position and the largest size seen for it.
pub fn list_files(listings: &Vec<Vec<FileEntry>>) -> (r: Vec<FileEntry>)
    ensures
        r.deep_view() == merge_spec(concat_all(listings.deep_view())),
{
    let mut flat: Vec<FileEntry> = Vec::new();
    let mut v: usize = 0;
    while v < listings.len()
        invariant
            v <= listings@.len(),
            flat.deep_view() == concat_all(listings.deep_view().take(v as int)),
        decreases listings@.len() - v,
    {
        let ghost outer_pre = flat.deep_view();
        let listing = &listings[v];
        let mut e: usize = 0;
        while e < listing.len()
            invariant
                e <= listing@.len(),
                listing.deep_view() == listings.deep_view()[v as int],
                v < listings@.len(),
                flat.deep_view() == outer_pre + listing.deep_view().take(e as int),
            decreases listing@.len() - e,
        {
            let ghost pre = flat.deep_view();
            flat.push(listing[e].clone());
            proof {
                assert(flat.deep_view() =~= pre.push(listing.deep_view()[e as int]));
                assert(listing.deep_view().take(e + 1).drop_last() =~= listing.deep_view().take(
                    e as int,
                ));
                assert(flat.deep_view() =~= outer_pre + listing.deep_view().take(e + 1));
            }
            e += 1;
        }
        proof {
            assert(listing.deep_view().take(listing@.len() as int) =~= listing.deep_view());
            assert(listings.deep_view().take(v + 1).drop_last() =~= listings.deep_view().take(
                v as int,
            ));
            assert(flat.deep_view() =~= concat_all(listings.deep_view().take(v + 1)));
        }
        v += 1;
    }
    proof {
        assert(listings.deep_view().take(listings@.len() as int) =~= listings.deep_view());
    }
    merge_entries(&flat)
}

fn merge_entries(entries: &Vec<FileEntry>) -> (r: Vec<FileEntry>)
    ensures
        r.deep_view() == merge_spec(entries.deep_view()),
{
    let mut result: Vec<FileEntry> = Vec::new();
    let mut i: usize = 0;
    while i < entries.len()
        invariant
            i <= entries@.len(),
            result.deep_view() == merge_spec(entries.deep_view().take(i as int)),
        decreases entries@.len() - i,
    {
        let ghost prefix = entries.deep_view().take(i as int);
        let ghost prev = merge_spec(prefix);
        let e = &entries[i];
        proof {
            assert(entries.deep_view().take(i + 1).drop_last() =~= prefix);
            assert(entries.deep_view().take(i + 1).last() == e.deep_view());
            lemma_merge_distinct(prefix);
        }
        match find_entry(&result, &e.relpath) {
            Some(j) => {
                proof {
                    lemma_index_of_path_is_first(prev, e@.relpath);
                    let k = index_of_path(prev, e@.relpath);
                    assert(j == k) by {
                        if j != k {
                            assert(prev[j as int].relpath == prev[k].relpath);
                        }
                    }
                }
                if result[j].size < e.size {
                    let ghost pre = result.deep_view();
                    result[j] = FileEntry { relpath: e.relpath.clone(), size: e.size };
                    proof {
                        assert(result.deep_view() =~= pre.update(j as int, e@));
                    }
                }
            },
            None => {
                let ghost pre = result.deep_view();
                result.push(e.clone());
                proof {
                    assert(result.deep_view() =~= pre.push(e@));
                }
            },
        }
        i += 1;
    }
    proof {
        assert(entries.deep_view().take(entries@.len() as int) =~= entries.deep_view());
    }
    result
}

/// Some volume already holds the path (its probe reported a size).
pub open spec fn any_exists(sizes: Seq<Option<u64>>) -> bool {
    exists|i: int| 0 <= i < sizes.len() && sizes[i] is Some
}

/// `p` is the path of an existing copy of `rel` with maximal size among
/// the volumes that hold one.
pub open spec fn is_largest_existing(
    mounts: Seq<String>,
    rel: Seq<char>,
    sizes: Seq<Option<u64>>,
    p: Seq<char>,
) -> bool {
    exists|i: int|
        {
            &&& 0 <= i < sizes.len()
            &&& sizes[i] is Some
            &&& p == join_view(mounts[i]@, rel)
            &&& forall|j: int|
                0 <= j < sizes.len() && sizes[j] is Some ==> sizes[j]->Some_0 <= sizes[i]->Some_0
        }
}

/// Find an existing copy of `rel_path` among the volumes. `sizes[i]` is
/// the probed size of `mount_points[i]/rel_path`, or `None` when that
/// volume has no such file. Among the volumes that hold one, a copy with
/// the largest size wins; which of several equally large copies is
/// returned is left open.
pub fn find_file(mount_points: &Vec<String>, rel_path: &String, sizes: &Vec<Option<u64>>) -> (r:
    Option<String>)
    requires
        sizes@.len() == mount_points@.len(),
    ensures
        r is Some <==> any_exists(sizes@),
        r matches Some(p) ==> is_largest_existing(mount_points@, rel_path@, sizes@, p@),
{
    let mut best: Option<usize> = None;
    let mut i: usize = 0;
    while i < mount_points.len()
        invariant
            i <= mount_points@.len(),
            sizes@.len() == mount_points@.len(),
            best is Some <==> exists|k: int| 0 <= k < i && sizes@[k] is Some,
            best matches Some(b) ==> {
                &&& b < i
                &&& sizes@[b as int] is Some
                &&& forall|j: int|
                    0 <= j < i && sizes@[j] is Some ==> sizes@[j]->Some_0 <= sizes@[b as int]->Some_0
            },
        decreases mount_points@.len() - i,
    {
        if let Some(sz) = sizes[i] {
            let better = match best {
                Some(b) => {
                    match sizes[b] {
                        Some(bs) => bs <= sz,
                        None => true,
                    }
                },
                None => true,
            };
            if better {
                best = Some(i);
            }
        }
        i += 1;
    }
    match best {
        Some(b) => Some(crate::paths::join_path(mount_points[b].as_str(), rel_path.as_str())),
        None => None,
    }
}

/// The group index after scanning one volume: each relative path whose
/// file name yields a key maps that key to the volume, later files
/// overriding earlier ones.
pub open spec fn scan_listing(
    m: Map<Seq<char>, Seq<char>>,
    vol: Seq<char>,
    rels: Seq<String>,
    pattern: Seq<char>,
) -> Map<Seq<char>, Seq<char>>
    decreases rels.len(),
{
    if rels.len() == 0 {
        m
    } else {
        let prev = scan_listing(m, vol, rels.drop_last(), pattern);
        match spec_group_key(pattern, rels.last()@) {
            Some(k) => prev.insert(k, vol),
            None => prev,
        }
    }
}

/// The group index after scanning every volume in configured order: when
/// one key is observed on several volumes, the last volume scanned wins.
pub open spec fn scan_all(
    listings: Seq<(String, Vec<String>)>,
    pattern: Seq<char>,
) -> Map<Seq<char>, Seq<char>>
    decreases listings.len(),
{
    if listings.len() == 0 {
        Map::empty()
    } else {
        scan_listing(
            scan_all(listings.drop_last(), pattern),
            listings.last().0@,
            listings.last().1@,
            pattern,
        )
    }
}

/// Build the group index from the volumes' listings. `listings` holds,
/// per volume in configured order, the volume root and the relative paths
/// found under it; each file whose name matches the pattern maps its key
/// to a volume holding such a file, the last volume scanned winning.
pub fn index_by_regex(listings: &Vec<(String, Vec<String>)>, group_by: &GroupBy) -> (r: VolumeIndex)
    ensures
        r.wf(),
        r@ == scan_all(listings@, group_by.pattern()),
{
    let mut idx = VolumeIndex::new();
    let mut v: usize = 0;
    while v < listings.len()
        invariant
            v <= listings@.len(),
            idx.wf(),
            idx@ == scan_all(listings@.take(v as int), group_by.pattern()),
        decreases listings@.len() - v,
    {
        let ghost outer_pre = idx@;
        let vol = &listings[v].0;
        let rels = &listings[v].1;
        let mut e: usize = 0;
        while e < rels.len()
            invariant
                e <= rels@.len(),
                idx.wf(),
                vol@ == listings@[v as int].0@,
                rels@ == listings@[v as int].1@,
                v < listings@.len(),
                idx@ == scan_listing(outer_pre, vol@, rels@.take(e as int), group_by.pattern()),
            decreases rels@.len() - e,
        {
            proof {
                assert(rels@.take(e + 1).drop_last() =~= rels@.take(e as int));
            }
            if let Some(key) = make_group_key(group_by, rels[e].as_str()) {
                idx.insert(key, vol.clone());
            }
            e += 1;
        }
        proof {
            assert(rels@.take(rels@.len() as int) =~= rels@);
            assert(listings@.take(v + 1).drop_last() =~= listings@.take(v as int));
        }
        v += 1;
    }
    proof {
        assert(listings@.take(listings@.len() as int) =~= listings@);
    }
    idx
}

} // verus!
