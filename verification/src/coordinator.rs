//! The coordinator: the single shared, lock-protected aggregate of a run.
//!
//! It owns the FIFO work queue, the running counters, and the mutable
//! group index, and exposes them only through atomic operations (dequeue,
//! placement, outcome recording), so the run's accounting invariants are
//! enforced at this boundary. The binary wraps one value of this type in a
//! mutex and shares it across workers; no method here does any I/O.

use vstd::prelude::*;
use std::collections::VecDeque;
use crate::filelist::{FileEntry, FileEntryView};
use crate::index::{index_preserved, views_of, volumes_from, VolumeIndex};
use crate::placement::{dst_file_path, place_post, WorkerSettings};
use crate::transfer::{DlStatus, TransferError};

verus! {

/// The shared state of one run. Created once by the run driver, shared by
/// reference across all workers, discarded when the run completes.
pub struct Coordinator {
    queue: VecDeque<FileEntry>,
    downloaded: u64,
    errors: u64,
    files_seen: u64,
    index: VolumeIndex,
    manifest_len: usize,
    dispatched: usize,
    dropped: u64,
}

/// The final counts of a run, with the warnings the driver must emit.
#[derive(Debug, PartialEq, Eq, Structural, Clone, Copy)]
pub struct RunSummary {
    /// Entries that reached a terminal state.
    pub files_seen: u64,
    /// Entries whose transfer completed.
    pub downloaded: u64,
    /// Entries whose transfer failed.
    pub errors: u64,
    /// `files_seen` differs from the manifest length: some entries were
    /// ignored, and a discrepancy warning fires.
    pub discrepancy: bool,
    /// Some transfers failed: a warning fires.
    pub had_errors: bool,
}

impl Coordinator {
    /// The pending entries, oldest first.
    pub closed spec fn queue_view(&self) -> Seq<FileEntryView> {
        self.queue@.map_values(|e: FileEntry| e@)
    }

    /// Entries whose transfer completed.
    pub closed spec fn downloaded_count(&self) -> u64 {
        self.downloaded
    }

    /// Entries whose transfer failed.
    pub closed spec fn errors_count(&self) -> u64 {
        self.errors
    }

    /// Entries that reached a terminal state.
    pub closed spec fn files_seen_count(&self) -> u64 {
        self.files_seen
    }

    /// Entries dropped by placement exhaustion.
    pub closed spec fn dropped_count(&self) -> u64 {
        self.dropped
    }

    /// The group index's mapping.
    pub closed spec fn index_view(&self) -> Map<Seq<char>, Seq<char>> {
        self.index@
    }

    pub closed spec fn index_wf(&self) -> bool {
        self.index.wf()
    }

    /// The manifest length the queue was seeded with.
    pub closed spec fn manifest_size(&self) -> int {
        self.manifest_len as int
    }

    /// Entries dequeued so far.
    pub closed spec fn dispatched_count(&self) -> int {
        self.dispatched as int
    }

    /// The run's accounting invariant: dequeued entries are exactly those
    /// no longer pending; every counted outcome and every drop belongs to
    /// a dequeued entry; completions and failures are counted outcomes.
    pub open spec fn inv(&self) -> bool {
        &&& self.index_wf()
        &&& self.queue_view().len() + self.dispatched_count() == self.manifest_size()
        &&& self.files_seen_count() + self.dropped_count() <= self.dispatched_count()
        &&& self.downloaded_count() + self.errors_count() <= self.files_seen_count()
    }

    /// Create the run's shared state: the queue seeded once from the
    /// manifest, all counters zero, the group index as scanned.
    pub fn new(queue: VecDeque<FileEntry>, index: VolumeIndex) -> (r: Coordinator)
        requires
            index.wf(),
        ensures
            r.inv(),
            r.queue_view() == queue@.map_values(|e: FileEntry| e@),
            r.manifest_size() == queue@.len(),
            r.dispatched_count() == 0,
            r.files_seen_count() == 0,
            r.downloaded_count() == 0,
            r.errors_count() == 0,
            r.dropped_count() == 0,
            r.index_view() == index@,
    {
        let manifest_len = queue.len();
        Coordinator {
            queue,
            downloaded: 0,
            errors: 0,
            files_seen: 0,
            index,
            manifest_len,
            dispatched: 0,
            dropped: 0,
        }
    }

    /// Pop the next pending entry. Under the run's lock the pop is atomic,
    /// so every entry is dequeued at most once.
    pub fn next_item(&mut self) -> (r: Option<FileEntry>)
        requires
            old(self).inv(),
        ensures
            final(self).inv(),
            old(self).queue_view().len() == 0 ==> r is None && final(self).queue_view() == old(
                self,
            ).queue_view() && final(self).dispatched_count() == old(self).dispatched_count(),
            old(self).queue_view().len() > 0 ==> {
                &&& r matches Some(e) && e@ == old(self).queue_view()[0]
                &&& final(self).queue_view() == old(self).queue_view().drop_first()
                &&& final(self).dispatched_count() == old(self).dispatched_count() + 1
            },
            final(self).files_seen_count() == old(self).files_seen_count(),
            final(self).downloaded_count() == old(self).downloaded_count(),
            final(self).errors_count() == old(self).errors_count(),
            final(self).dropped_count() == old(self).dropped_count(),
            final(self).index_view() == old(self).index_view(),
            final(self).manifest_size() == old(self).manifest_size(),
    {
        let ghost pre = self.queue@;
        match self.queue.pop_front() {
            Some(e) => {
                proof {
                    assert(self.queue@.map_values(|x: FileEntry| x@) =~= pre.map_values(
                        |x: FileEntry| x@,
                    ).drop_first());
                }
                self.dispatched = self.dispatched + 1;
                Some(e)
            },
            None => None,
        }
    }

    /// Decide the destination path of one entry, reading and possibly
    /// seeding the group index. The probe results are taken as arguments
    /// so that no I/O happens under the run's lock.
    pub fn place(
        &mut self,
        item: &FileEntry,
        settings: &WorkerSettings,
        sizes: &Vec<Option<u64>>,
        avail: &Vec<u64>,
    ) -> (r: Option<String>)
        requires
            old(self).inv(),
            settings.wf(),
            sizes@.len() == settings.dst_paths@.len(),
            avail@.len() == settings.dst_paths@.len(),
        ensures
            final(self).inv(),
            place_post(
                item@,
                *settings,
                sizes@,
                avail@,
                old(self).index_view(),
                final(self).index_view(),
                r,
            ),
            index_preserved(old(self).index_view(), final(self).index_view()),
            volumes_from(old(self).index_view(), views_of(settings.dst_paths@)) ==> volumes_from(
                final(self).index_view(),
                views_of(settings.dst_paths@),
            ),
            final(self).queue_view() == old(self).queue_view(),
            final(self).files_seen_count() == old(self).files_seen_count(),
            final(self).downloaded_count() == old(self).downloaded_count(),
            final(self).errors_count() == old(self).errors_count(),
            final(self).dropped_count() == old(self).dropped_count(),
            final(self).dispatched_count() == old(self).dispatched_count(),
            final(self).manifest_size() == old(self).manifest_size(),
    {
        dst_file_path(item, settings, sizes, avail, &mut self.index)
    }

    /// Record the terminal outcome of one dequeued entry: exactly one
    /// `files_seen` increment, plus `downloaded` for a completed transfer
    /// and `errors` for a failure.
    pub fn record_outcome(&mut self, result: &Result<DlStatus, TransferError>)
        requires
            old(self).inv(),
            old(self).files_seen_count() + old(self).dropped_count() < old(
                self,
            ).dispatched_count(),
        ensures
            final(self).inv(),
            final(self).files_seen_count() == old(self).files_seen_count() + 1,
            final(self).downloaded_count() == old(self).downloaded_count() + (
            if result matches Ok(DlStatus::Completed) {
                1int
            } else {
                0int
            }),
            final(self).errors_count() == old(self).errors_count() + (if result is Err {
                1int
            } else {
                0int
            }),
            final(self).dropped_count() == old(self).dropped_count(),
            final(self).dispatched_count() == old(self).dispatched_count(),
            final(self).queue_view() == old(self).queue_view(),
            final(self).index_view() == old(self).index_view(),
            final(self).manifest_size() == old(self).manifest_size(),
    {
        self.files_seen = self.files_seen + 1;
        match result {
            Ok(DlStatus::Completed) => {
                self.downloaded = self.downloaded + 1;
            },
            Ok(DlStatus::NothingToDo) => {},
            Err(_) => {
                self.errors = self.errors + 1;
            },
        }
    }

    /// Note one entry permanently dropped: placement found no volume with
    /// room, and the worker stops without returning the entry to the
    /// queue.
    pub fn note_dropped(&mut self)
        requires
            old(self).inv(),
            old(self).files_seen_count() + old(self).dropped_count() < old(
                self,
            ).dispatched_count(),
        ensures
            final(self).inv(),
            final(self).dropped_count() == old(self).dropped_count() + 1,
            final(self).files_seen_count() == old(self).files_seen_count(),
            final(self).downloaded_count() == old(self).downloaded_count(),
            final(self).errors_count() == old(self).errors_count(),
            final(self).dispatched_count() == old(self).dispatched_count(),
            final(self).queue_view() == old(self).queue_view(),
            final(self).index_view() == old(self).index_view(),
            final(self).manifest_size() == old(self).manifest_size(),
    {
        self.dropped = self.dropped + 1;
    }

    /// Entries that reached a terminal state so far.
    pub fn files_seen(&self) -> (r: u64)
        ensures
            r == self.files_seen_count(),
    {
        self.files_seen
    }

    /// Entries whose transfer completed so far.
    pub fn downloaded(&self) -> (r: u64)
        ensures
            r == self.downloaded_count(),
    {
        self.downloaded
    }

    /// Entries whose transfer failed so far.
    pub fn errors(&self) -> (r: u64)
        ensures
            r == self.errors_count(),
    {
        self.errors
    }

    /// Whether some dequeued entry still awaits its outcome; callers test
    /// this before recording one.
    pub fn has_in_flight(&self) -> (r: bool)
        requires
            self.inv(),
        ensures
            r == (self.files_seen_count() + self.dropped_count() < self.dispatched_count()),
    {
        self.files_seen < (self.dispatched as u64) - self.dropped
    }

    /// Reconcile the final counts against the manifest length, as the run
    /// driver does once every worker has finished.
    pub fn summarize(&self) -> (s: RunSummary)
        ensures
            s.files_seen == self.files_seen_count(),
            s.downloaded == self.downloaded_count(),
            s.errors == self.errors_count(),
            s.discrepancy <==> self.files_seen_count() != self.manifest_size(),
            s.had_errors <==> self.errors_count() > 0,
    {
        RunSummary {
            files_seen: self.files_seen,
            downloaded: self.downloaded,
            errors: self.errors,
            discrepancy: self.files_seen != self.manifest_len as u64,
            had_errors: self.errors > 0,
        }
    }
}

/// Dropped-entry accounting: at the end of a run — queue drained, every
/// dequeued entry either recorded or dropped — with exactly `k` entries
/// dropped by placement exhaustion, `files_seen` is the manifest length
/// minus `k`, and the discrepancy warning fires exactly when `k > 0`.
pub proof fn lemma_dropped_accounting(c: Coordinator, s: RunSummary, k: u64)
    requires
        c.inv(),
        c.queue_view().len() == 0,
        c.files_seen_count() + c.dropped_count() == c.dispatched_count(),
        c.dropped_count() == k,
        s.files_seen == c.files_seen_count(),
        s.discrepancy == (c.files_seen_count() != c.manifest_size()),
    ensures
        s.files_seen == c.manifest_size() - k,
        s.discrepancy <==> k > 0,
{
}

} // verus!
