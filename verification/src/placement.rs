//! The placement policy: deciding, for one manifest entry, which
//! destination volume it belongs on.
//!
//! The decision runs, in order: resume on an existing copy, the preload
//! index, the capacity filter, the shared group index, and a random choice
//! weighted by free space. The whole outcome — the returned path and the
//! effect on the group index — is pinned down by [`place_post`].

use vstd::prelude::*;
use crate::filelist::{FileEntry, FileEntryView};
use crate::group::{make_group_key, regex_compiles, spec_group_key, GroupBy};
use crate::index::{
    has_volume, index_preserved, views_of, volume_position, volumes_from, VolumeIndex,
};
use crate::jbod::{any_exists, find_file, index_by_regex, is_largest_existing, scan_all};
use crate::paths::{join_path, join_view};
use rand::Rng;

verus! {

/// A configuration fault that aborts the run before any transfer starts.
#[derive(Debug, PartialEq, Eq, Structural, Clone, Copy)]
pub enum ConfigError {
    /// The grouping pattern does not compile.
    BadPattern,
    /// The preload directories do not correspond one-to-one to the
    /// destination volumes.
    PreloadCountMismatch,
}

/// The immutable per-run snapshot shared by every worker.
pub struct WorkerSettings {
    /// Base URL of the remote daemon.
    pub endpoint: String,
    /// Bearer token for the remote daemon.
    pub auth: String,
    /// Destination volume roots, in configured order.
    pub dst_paths: Vec<String>,
    /// When set, no network call or write happens for an absent file.
    pub dry_run: bool,
    /// The optional grouping pattern.
    pub group_by: Option<GroupBy>,
    /// The immutable key-to-volume mapping seeded before the run.
    pub index_preload: VolumeIndex,
}

impl WorkerSettings {
    /// The preload index is well formed and names only configured volumes.
    pub open spec fn wf(&self) -> bool {
        &&& self.index_preload.wf()
        &&& volumes_from(self.index_preload@, views_of(self.dst_paths@))
    }

    /// The group key of an entry: derived from its file name when a
    /// grouping pattern is configured, absent otherwise.
    pub open spec fn entry_key(&self, relpath: Seq<char>) -> Option<Seq<char>> {
        match self.group_by {
            Some(g) => spec_group_key(g.pattern(), relpath),
            None => None,
        }
    }
}

/// Compile the optional grouping pattern of the configuration: no pattern
/// is fine, a compiling pattern yields the grouping, and a pattern that
/// does not compile is a fatal configuration error — if and only if.
pub fn compile_group_by(pattern: &Option<String>) -> (r: Result<Option<GroupBy>, ConfigError>)
    ensures
        pattern is None ==> (r matches Ok(og) && og is None),
        pattern matches Some(p) ==> match r {
            Ok(og) => og matches Some(g) && g.pattern() == p@ && regex_compiles(p@),
            Err(e) => e == ConfigError::BadPattern && !regex_compiles(p@),
        },
{
    match pattern {
        None => Ok(None),
        Some(p) => match GroupBy::compile(p.as_str()) {
            Some(g) => Ok(Some(g)),
            None => Err(ConfigError::BadPattern),
        },
    }
}

/// The volumes whose free space strictly exceeds the file size, as
/// (volume view, free bytes) pairs in configured order.
pub open spec fn filter_fits(dst: Seq<String>, avail: Seq<u64>, size: u64) -> Seq<(Seq<char>, u64)>
    decreases dst.len(),
{
    if dst.len() == 0 || dst.len() != avail.len() {
        Seq::empty()
    } else {
        let prev = filter_fits(dst.drop_last(), avail.drop_last(), size);
        if avail.last() > size {
            prev.push((dst.last()@, avail.last()))
        } else {
            prev
        }
    }
}

/// The views of a list of (volume, free bytes) pairs.
pub open spec fn pairs_view(s: Seq<(String, u64)>) -> Seq<(Seq<char>, u64)> {
    s.map_values(|p: (String, u64)| (p.0@, p.1))
}

/// Every filtered pair comes from a fitting volume, and the filter is
/// empty exactly when no volume fits.
pub proof fn lemma_filter_fits_elems(dst: Seq<String>, avail: Seq<u64>, size: u64)
    requires
        dst.len() == avail.len(),
    ensures
        forall|i: int|
            0 <= i < filter_fits(dst, avail, size).len() ==> exists|j: int|
                0 <= j < dst.len() && #[trigger] filter_fits(dst, avail, size)[i] == (
                dst[j]@,
                avail[j],
                ) && avail[j] > size,
        (exists|j: int| 0 <= j < dst.len() && avail[j] > size) <==> filter_fits(
            dst,
            avail,
            size,
        ).len() > 0,
    decreases dst.len(),
{
    if dst.len() > 0 {
        lemma_filter_fits_elems(dst.drop_last(), avail.drop_last(), size);
        let prev = filter_fits(dst.drop_last(), avail.drop_last(), size);
        let cur = filter_fits(dst, avail, size);
        assert forall|i: int| 0 <= i < cur.len() implies exists|j: int|
            0 <= j < dst.len() && #[trigger] cur[i] == (dst[j]@, avail[j]) && avail[j] > size by {
            if i < prev.len() {
                let j = choose|j: int|
                    0 <= j < dst.drop_last().len() && #[trigger] prev[i] == (
                    dst.drop_last()[j]@,
                    avail.drop_last()[j],
                    ) && avail.drop_last()[j] > size;
                assert(cur[i] == (dst[j]@, avail[j]) && avail[j] > size);
            } else {
                assert(avail.last() > size);
                assert(cur[i] == (dst[dst.len() - 1]@, avail[avail.len() - 1]));
            }
        }
        if exists|j: int| 0 <= j < dst.len() && avail[j] > size {
            let j = choose|j: int| 0 <= j < dst.len() && avail[j] > size;
            if j < dst.len() - 1 {
                assert(avail.drop_last()[j] > size);
            }
        }
        if cur.len() > 0 && prev.len() > 0 {
            let j = choose|j: int|
                0 <= j < dst.drop_last().len() && #[trigger] prev[0] == (
                dst.drop_last()[j]@,
                avail.drop_last()[j],
                ) && avail.drop_last()[j] > size;
            assert(avail[j] > size);
        }
    }
}

/// The sum of the free bytes of the listed volumes.
pub open spec fn total_space(s: Seq<(String, u64)>) -> int
    decreases s.len(),
{
    if s.len() == 0 {
        0
    } else {
        total_space(s.drop_last()) + s.last().1
    }
}

proof fn lemma_total_space_front(s: Seq<(String, u64)>)
    requires
        s.len() > 0,
    ensures
        total_space(s) == s[0].1 + total_space(s.drop_first()),
    decreases s.len(),
{
    if s.len() == 1 {
        assert(s.drop_first() =~= Seq::<(String, u64)>::empty());
        assert(s.drop_last() =~= Seq::<(String, u64)>::empty());
    } else {
        lemma_total_space_front(s.drop_last());
        assert(s.drop_last().drop_first() =~= s.drop_first().drop_last());
        assert(s.drop_first().last() == s.last());
        assert(s.drop_last()[0] == s[0]);
    }
}

/// Relies on `rand::rng` and `rand::Rng::random_range`: a draw in
/// `[0, bound)`; nothing is assumed of the draw beyond the bound.
#[verifier::external_body]
fn random_below(bound: u128) -> (r: u128)
    requires
        bound > 0,
    ensures
        r < bound,
{
    rand::rng().random_range(0..bound)
}

fn sum_space(input: &Vec<(String, u64)>) -> (total: u128)
    ensures
        total as int == total_space(input@),
{
    let mut total: u128 = 0;
    let mut i: usize = 0;
    while i < input.len()
        invariant
            i <= input@.len(),
            total as int == total_space(input@.take(i as int)),
            total <= (i as int) * 0xffff_ffff_ffff_ffff,
        decreases input@.len() - i,
    {
        proof {
            assert(input@.take(i + 1).drop_last() =~= input@.take(i as int));
            assert((i as int + 1) * 0xffff_ffff_ffff_ffff
                <= 0x1_0000_0000_0000_0000 * 0xffff_ffff_ffff_ffff) by (nonlinear_arith)
                requires
                    0 <= i as int + 1 <= 0x1_0000_0000_0000_0000,
            ;
        }
        total = total + (input[i].1 as u128);
        i += 1;
    }
    proof {
        assert(input@.take(input@.len() as int) =~= input@);
    }
    total
}

/// The index selected by a draw of `c`: volumes are walked in order, each
/// covering a band of width equal to its free bytes, and the volume whose
/// band holds `c` is selected; a draw past every band selects the last.
pub open spec fn weighted_pick(s: Seq<(String, u64)>, c: int) -> int
    decreases s.len(),
{
    if s.len() <= 1 {
        0
    } else if c < s[0].1 {
        0
    } else {
        1 + weighted_pick(s.drop_first(), c - s[0].1)
    }
}

fn pick_by_weight(input: &Vec<(String, u64)>, choice: u128) -> (idx: usize)
    requires
        input@.len() > 0,
        (choice as int) < total_space(input@),
    ensures
        idx < input@.len(),
        idx as int == weighted_pick(input@, choice as int),
        input@[idx as int].1 > 0,
{
    proof {
        assert(input@.skip(0) =~= input@);
    }
    let mut i: usize = 0;
    let mut c: u128 = choice;
    while i < input.len() - 1
        invariant
            input@.len() > 0,
            i < input@.len(),
            c <= choice,
            (c as int) < total_space(input@.skip(i as int)),
            weighted_pick(input@, choice as int) == i + weighted_pick(
                input@.skip(i as int),
                c as int,
            ),
        decreases input@.len() - i,
    {
        proof {
            lemma_total_space_front(input@.skip(i as int));
            assert(input@.skip(i as int)[0] == input@[i as int]);
            assert(input@.skip(i as int).drop_first() =~= input@.skip(i + 1));
        }
        if c < input[i].1 as u128 {
            return i;
        }
        c = c - (input[i].1 as u128);
        i += 1;
    }
    proof {
        lemma_total_space_front(input@.skip(i as int));
        assert(input@.skip(i as int)[0] == input@[i as int]);
        assert(input@.skip(i as int).drop_first() =~= input@.skip(i + 1));
        assert(input@.skip(i + 1) =~= Seq::<(String, u64)>::empty());
        assert(total_space(input@.skip(i as int)) == input@[i as int].1);
    }
    i
}

/// Pick a destination volume at random, weighting each volume by its free
/// bytes; when every weight is zero the first volume is returned, so a
/// non-empty list always yields a volume.
pub fn roll_weighed_dice(input: &Vec<(String, u64)>) -> (r: Option<String>)
    ensures
        r is Some <==> input@.len() > 0,
        r matches Some(m) ==> exists|i: int|
            0 <= i < input@.len() && m@ == #[trigger] input@[i].0@ && (input@[i].1 > 0 || i == 0),
        r matches Some(m) ==> (total_space(input@) == 0 && m@ == input@[0].0@) || exists|c: int|
            0 <= c < total_space(input@) && m@ == input@[#[trigger] weighted_pick(input@, c)].0@,
{
    if input.len() == 0 {
        return None;
    }
    let total = sum_space(input);
    if total == 0 {
        let m = input[0].0.clone();
        proof {
            assert(m@ == input@[0].0@ && (input@[0].1 > 0 || true));
        }
        return Some(m);
    }
    let choice = random_below(total);
    let idx = pick_by_weight(input, choice);
    let m = input[idx].0.clone();
    proof {
        assert(m@ == input@[idx as int].0@ && input@[idx as int].1 > 0);
    }
    Some(m)
}

/// Everything placement does, as a relation between the entry, the probe
/// results, the group index before (`index0`) and after (`index1`) the
/// call, and the returned path. In order: an existing copy wins; then a
/// preload mapping; then a seeded group mapping (which ignores capacity);
/// then a weighted random choice among the fitting volumes, which seeds
/// the group key when one is present; no fitting volume means no
/// placement. Only the last case touches the index.
pub open spec fn place_post(
    item: FileEntryView,
    settings: WorkerSettings,
    sizes: Seq<Option<u64>>,
    avail: Seq<u64>,
    index0: Map<Seq<char>, Seq<char>>,
    index1: Map<Seq<char>, Seq<char>>,
    r: Option<String>,
) -> bool {
    let key = settings.entry_key(item.relpath);
    let ff = filter_fits(settings.dst_paths@, avail, item.size);
    if any_exists(sizes) {
        &&& index1 == index0
        &&& r matches Some(p) && is_largest_existing(settings.dst_paths@, item.relpath, sizes, p@)
    } else {
        match key {
            Some(k) => {
                if settings.index_preload@.contains_key(k) {
                    &&& index1 == index0
                    &&& r matches Some(p) && p@ == join_view(
                        settings.index_preload@[k],
                        item.relpath,
                    )
                } else if index0.contains_key(k) {
                    &&& index1 == index0
                    &&& r matches Some(p) && p@ == join_view(index0[k], item.relpath)
                } else if ff.len() == 0 {
                    &&& index1 == index0
                    &&& r is None
                } else {
                    exists|i: int|
                        {
                            &&& 0 <= i < ff.len()
                            &&& (ff[i].1 > 0 || i == 0)
                            &&& r matches Some(p) && p@ == join_view(ff[i].0, item.relpath)
                            &&& index1 == index0.insert(k, ff[i].0)
                        }
                }
            },
            None => {
                if ff.len() == 0 {
                    &&& index1 == index0
                    &&& r is None
                } else {
                    &&& index1 == index0
                    &&& exists|i: int|
                        {
                            &&& 0 <= i < ff.len()
                            &&& (ff[i].1 > 0 || i == 0)
                            &&& r matches Some(p) && p@ == join_view(ff[i].0, item.relpath)
                        }
                }
            },
        }
    }
}

/// Decide the destination path of one manifest entry. `sizes[i]` is the
/// probed size of `dst_paths[i]/relpath` (`None` when absent); `avail[i]`
/// is the probed free space of `dst_paths[i]`, zero when the probe failed.
/// Returns `None` only when no existing copy, preload or seeded mapping
/// applies and no volume's free space exceeds the entry's size.
pub fn dst_file_path(
    item: &FileEntry,
    settings: &WorkerSettings,
    sizes: &Vec<Option<u64>>,
    avail: &Vec<u64>,
    index: &mut VolumeIndex,
) -> (r: Option<String>)
    requires
        settings.wf(),
        old(index).wf(),
        sizes@.len() == settings.dst_paths@.len(),
        avail@.len() == settings.dst_paths@.len(),
    ensures
        final(index).wf(),
        place_post(item@, *settings, sizes@, avail@, old(index)@, final(index)@, r),
        index_preserved(old(index)@, final(index)@),
        volumes_from(old(index)@, views_of(settings.dst_paths@)) ==> volumes_from(
            final(index)@,
            views_of(settings.dst_paths@),
        ),
{
    // An existing copy decides placement unconditionally.
    if let Some(p) = find_file(&settings.dst_paths, &item.relpath, sizes) {
        return Some(p);
    }
    // The group key, when a pattern is configured and the file name matches.
    let group_key: Option<String> = match &settings.group_by {
        Some(g) => make_group_key(g, item.relpath.as_str()),
        None => None,
    };
    // A deliberate, externally authored layout beats everything below.
    if let Some(k) = &group_key {
        if let Some(base) = settings.index_preload.get(k) {
            return Some(join_path(base.as_str(), item.relpath.as_str()));
        }
    }
    // Keep only the volumes with room, before consulting shared state.
    let mut disk_spaces: Vec<(String, u64)> = Vec::new();
    let mut i: usize = 0;
    while i < settings.dst_paths.len()
        invariant
            i <= settings.dst_paths@.len(),
            avail@.len() == settings.dst_paths@.len(),
            pairs_view(disk_spaces@) == filter_fits(
                settings.dst_paths@.take(i as int),
                avail@.take(i as int),
                item.size,
            ),
        decreases settings.dst_paths@.len() - i,
    {
        proof {
            assert(settings.dst_paths@.take(i + 1).drop_last() =~= settings.dst_paths@.take(
                i as int,
            ));
            assert(avail@.take(i + 1).drop_last() =~= avail@.take(i as int));
        }
        let ghost pre = disk_spaces@;
        if avail[i] > item.size {
            disk_spaces.push((settings.dst_paths[i].clone(), avail[i]));
            proof {
                assert(pairs_view(disk_spaces@) =~= pairs_view(pre).push(
                    (settings.dst_paths@[i as int]@, avail@[i as int]),
                ));
            }
        }
        i += 1;
    }
    proof {
        assert(settings.dst_paths@.take(settings.dst_paths@.len() as int) =~= settings.dst_paths@);
        assert(avail@.take(avail@.len() as int) =~= avail@);
    }
    let ghost ff = filter_fits(settings.dst_paths@, avail@, item@.size);
    // A seeded group mapping wins over balance once a group exists.
    if let Some(k) = &group_key {
        if let Some(base) = index.get(k) {
            return Some(join_path(base.as_str(), item.relpath.as_str()));
        }
    }
    // Weighted random choice among the fitting volumes.
    let dst = match roll_weighed_dice(&disk_spaces) {
        Some(d) => d,
        None => {
            return None;
        },
    };
    proof {
        let w = choose|w: int|
            0 <= w < disk_spaces@.len() && dst@ == #[trigger] disk_spaces@[w].0@ && (
            disk_spaces@[w].1 > 0 || w == 0);
        assert(ff[w] == (disk_spaces@[w].0@, disk_spaces@[w].1));
        lemma_filter_fits_elems(settings.dst_paths@, avail@, item@.size);
        let j = choose|j: int|
            0 <= j < settings.dst_paths@.len() && #[trigger] ff[w] == (
            settings.dst_paths@[j]@,
            avail@[j],
            ) && avail@[j] > item@.size;
        assert(views_of(settings.dst_paths@)[j] == settings.dst_paths@[j]@);
        assert(has_volume(views_of(settings.dst_paths@), dst@));
    }
    // Seed the group index; a concurrent writer may already have won.
    if let Some(k) = group_key {
        index.insert_if_absent(k, dst.clone());
    }
    Some(join_path(dst.as_str(), item.relpath.as_str()))
}

/// The preload directories of the listings, in matched order.
pub open spec fn roots_of(listings: Seq<(String, Vec<String>)>) -> Seq<Seq<char>> {
    listings.map_values(|p: (String, Vec<String>)| p.0@)
}

proof fn lemma_scan_listing_volumes(
    m: Map<Seq<char>, Seq<char>>,
    vol: Seq<char>,
    rels: Seq<String>,
    pattern: Seq<char>,
    vols: Seq<Seq<char>>,
)
    requires
        volumes_from(m, vols),
        has_volume(vols, vol),
    ensures
        volumes_from(crate::jbod::scan_listing(m, vol, rels, pattern), vols),
    decreases rels.len(),
{
    if rels.len() > 0 {
        lemma_scan_listing_volumes(m, vol, rels.drop_last(), pattern, vols);
    }
}

/// Every volume that the scan records is one of the scanned roots.
pub proof fn lemma_scan_all_volumes(
    listings: Seq<(String, Vec<String>)>,
    pattern: Seq<char>,
    vols: Seq<Seq<char>>,
)
    requires
        forall|i: int| 0 <= i < listings.len() ==> has_volume(vols, #[trigger] listings[i].0@),
    ensures
        volumes_from(scan_all(listings, pattern), vols),
    decreases listings.len(),
{
    if listings.len() > 0 {
        lemma_scan_all_volumes(listings.drop_last(), pattern, vols);
        assert(listings[listings.len() - 1].0@ == listings.last().0@);
        lemma_scan_listing_volumes(
            scan_all(listings.drop_last(), pattern),
            listings.last().0@,
            listings.last().1@,
            pattern,
            vols,
        );
    }
}

/// Build the immutable preload index. `listings` holds, per preload
/// directory in matched order, the directory and the relative paths found
/// under it; the Nth matched directory corresponds to the Nth destination
/// volume, and a count mismatch is a configuration error. Each key
/// observed under the Nth directory maps to the Nth destination volume
/// (for a key under several directories, the last scanned wins).
pub fn build_preload_index(
    listings: &Vec<(String, Vec<String>)>,
    dst_paths: &Vec<String>,
    group_by: &GroupBy,
) -> (r: Result<VolumeIndex, ConfigError>)
    ensures
        r is Err <==> listings@.len() != dst_paths@.len(),
        r is Err ==> r == Err::<VolumeIndex, ConfigError>(ConfigError::PreloadCountMismatch),
        r matches Ok(t) ==> {
            let scanned = scan_all(listings@, group_by.pattern());
            &&& t.wf()
            &&& volumes_from(t@, views_of(dst_paths@))
            &&& forall|k: Seq<char>| t@.contains_key(k) <==> scanned.contains_key(k)
            &&& forall|k: Seq<char>|
                scanned.contains_key(k) ==> t@[k] == views_of(dst_paths@)[volume_position(
                    roots_of(listings@),
                    scanned[k],
                )]
        },
{
    if listings.len() != dst_paths.len() {
        return Err(ConfigError::PreloadCountMismatch);
    }
    let scanned = index_by_regex(listings, group_by);
    let mut dirs: Vec<String> = Vec::new();
    let mut i: usize = 0;
    while i < listings.len()
        invariant
            i <= listings@.len(),
            dirs@.len() == i,
            forall|j: int| 0 <= j < i ==> #[trigger] dirs@[j]@ == listings@[j].0@,
        decreases listings@.len() - i,
    {
        dirs.push(listings[i].0.clone());
        i += 1;
    }
    proof {
        assert(views_of(dirs@) =~= roots_of(listings@));
        assert forall|j: int| 0 <= j < listings@.len() implies has_volume(
            roots_of(listings@),
            #[trigger] listings@[j].0@,
        ) by {
            assert(roots_of(listings@)[j] == listings@[j].0@);
        }
        lemma_scan_all_volumes(listings@, group_by.pattern(), roots_of(listings@));
    }
    let translated = scanned.translate(&dirs, dst_paths);
    Ok(translated)
}

/// With an existing copy reported by some volume, placement is decided by
/// that history alone: it returns a largest existing copy's path and
/// leaves the group index untouched, whatever the free capacities, the
/// preload index and the group index say.
pub proof fn lemma_resume_wins(
    item: FileEntryView,
    settings: WorkerSettings,
    sizes: Seq<Option<u64>>,
    avail: Seq<u64>,
    index0: Map<Seq<char>, Seq<char>>,
    index1: Map<Seq<char>, Seq<char>>,
    r: Option<String>,
)
    requires
        any_exists(sizes),
        place_post(item, settings, sizes, avail, index0, index1, r),
    ensures
        r is Some,
        r matches Some(p) ==> is_largest_existing(settings.dst_paths@, item.relpath, sizes, p@),
        index1 == index0,
{
}

/// Once a group key is seeded into the index with a volume, every later
/// placement of that key that is decided by grouping — by whichever worker
/// and after any number of further placements, reflected here as any
/// extension `index0` of the seeded state — resolves to the seeded volume
/// and keeps every seeded key intact.
pub proof fn lemma_group_stability(
    item: FileEntryView,
    settings: WorkerSettings,
    sizes: Seq<Option<u64>>,
    avail: Seq<u64>,
    m_seed: Map<Seq<char>, Seq<char>>,
    index0: Map<Seq<char>, Seq<char>>,
    index1: Map<Seq<char>, Seq<char>>,
    r: Option<String>,
    k: Seq<char>,
)
    requires
        index_preserved(m_seed, index0),
        m_seed.contains_key(k),
        settings.entry_key(item.relpath) == Some(k),
        !any_exists(sizes),
        !settings.index_preload@.contains_key(k),
        place_post(item, settings, sizes, avail, index0, index1, r),
    ensures
        r matches Some(p) && p@ == join_view(m_seed[k], item.relpath),
        index_preserved(m_seed, index1),
{
    assert(index0.contains_key(k) && index0[k] == m_seed[k]);
}

/// Whenever at least one destination volume's free space exceeds the
/// entry's size, placement succeeds; and every returned path lies under a
/// configured volume — under exactly one, since equal joined paths force
/// equal roots. The hypothesis that the group index names only configured
/// volumes holds in every run: an index built by [`index_by_regex`] over
/// the destination listings satisfies it ([`lemma_scan_all_volumes`]), an
/// empty index satisfies it, and [`dst_file_path`] ensures it is kept.
pub proof fn lemma_place_succeeds(
    item: FileEntryView,
    settings: WorkerSettings,
    sizes: Seq<Option<u64>>,
    avail: Seq<u64>,
    index0: Map<Seq<char>, Seq<char>>,
    index1: Map<Seq<char>, Seq<char>>,
    r: Option<String>,
)
    requires
        settings.wf(),
        sizes.len() == settings.dst_paths@.len(),
        avail.len() == settings.dst_paths@.len(),
        volumes_from(index0, views_of(settings.dst_paths@)),
        place_post(item, settings, sizes, avail, index0, index1, r),
    ensures
        (exists|j: int| 0 <= j < avail.len() && avail[j] > item.size) ==> r is Some,
        r matches Some(p) ==> exists|i: int|
            0 <= i < settings.dst_paths@.len() && p@ == join_view(
                #[trigger] settings.dst_paths@[i]@,
                item.relpath,
            ),
        r matches Some(p) ==> forall|i: int, j: int|
            0 <= i < settings.dst_paths@.len() && 0 <= j < settings.dst_paths@.len() && p@
                == join_view(#[trigger] settings.dst_paths@[i]@, item.relpath) && p@ == join_view(
                #[trigger] settings.dst_paths@[j]@,
                item.relpath,
            ) ==> settings.dst_paths@[i]@ == settings.dst_paths@[j]@,
        volumes_from(index1, views_of(settings.dst_paths@)),
{
    let ff = filter_fits(settings.dst_paths@, avail, item.size);
    lemma_filter_fits_elems(settings.dst_paths@, avail, item.size);
    match r {
        Some(p) => {
            assert forall|i: int, j: int|
                0 <= i < settings.dst_paths@.len() && 0 <= j < settings.dst_paths@.len() && p@
                    == join_view(#[trigger] settings.dst_paths@[i]@, item.relpath) && p@
                    == join_view(#[trigger] settings.dst_paths@[j]@, item.relpath) implies
                settings.dst_paths@[i]@ == settings.dst_paths@[j]@ by {
                crate::paths::lemma_join_left_injective(
                    settings.dst_paths@[i]@,
                    settings.dst_paths@[j]@,
                    item.relpath,
                );
            }
        },
        None => {},
    }
    if any_exists(sizes) {
    } else {
        match settings.entry_key(item.relpath) {
            Some(k) => {
                if settings.index_preload@.contains_key(k) {
                    assert(has_volume(
                        views_of(settings.dst_paths@),
                        settings.index_preload@[k],
                    ));
                    let i = choose|i: int|
                        0 <= i < views_of(settings.dst_paths@).len() && views_of(
                            settings.dst_paths@,
                        )[i] == settings.index_preload@[k];
                    assert(settings.dst_paths@[i]@ == settings.index_preload@[k]);
                } else if index0.contains_key(k) {
                    let i = choose|i: int|
                        0 <= i < views_of(settings.dst_paths@).len() && views_of(
                            settings.dst_paths@,
                        )[i] == index0[k];
                    assert(settings.dst_paths@[i]@ == index0[k]);
                } else if ff.len() == 0 {
                } else {
                    let w = choose|w: int|
                        {
                            &&& 0 <= w < ff.len()
                            &&& (ff[w].1 > 0 || w == 0)
                            &&& r matches Some(p) && p@ == join_view(ff[w].0, item.relpath)
                            &&& index1 == index0.insert(k, ff[w].0)
                        };
                    let j = choose|j: int|
                        0 <= j < settings.dst_paths@.len() && #[trigger] ff[w] == (
                        settings.dst_paths@[j]@,
                        avail[j],
                        ) && avail[j] > item.size;
                    assert(has_volume(views_of(settings.dst_paths@), ff[w].0)) by {
                        assert(views_of(settings.dst_paths@)[j] == settings.dst_paths@[j]@);
                    }
                }
            },
            None => {
                if ff.len() > 0 {
                    let w = choose|w: int|
                        {
                            &&& 0 <= w < ff.len()
                            &&& (ff[w].1 > 0 || w == 0)
                            &&& r matches Some(p) && p@ == join_view(ff[w].0, item.relpath)
                        };
                    let j = choose|j: int|
                        0 <= j < settings.dst_paths@.len() && #[trigger] ff[w] == (
                        settings.dst_paths@[j]@,
                        avail[j],
                        ) && avail[j] > item.size;
                    assert(p_root_exists(settings.dst_paths@, item.relpath, r)) by {
                        assert(views_of(settings.dst_paths@)[j] == settings.dst_paths@[j]@);
                    }
                }
            },
        }
    }
}

/// The returned path lies under some configured volume.
pub open spec fn p_root_exists(
    dst_paths: Seq<String>,
    relpath: Seq<char>,
    r: Option<String>,
) -> bool {
    r matches Some(p) ==> exists|i: int|
        0 <= i < dst_paths.len() && p@ == join_view(#[trigger] dst_paths[i]@, relpath)
}

} // verus!
