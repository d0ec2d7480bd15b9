// End-to-end runs, simulated sequentially: the coordinator hands out
// entries, placement decides, and the transfer rules are applied to probe
// results supplied by the test in place of network and disk.

use jbod_mirror::coordinator::Coordinator;
use jbod_mirror::filelist::FileEntry;
use jbod_mirror::group::GroupBy;
use jbod_mirror::index::VolumeIndex;
use jbod_mirror::placement::WorkerSettings;
use jbod_mirror::transfer::{pre_transfer, verify_size, check_status, DlStatus, TransferError, TransferStep};
use std::collections::VecDeque;

fn fe(relpath: &str, size: u64) -> FileEntry {
    FileEntry { relpath: relpath.to_string(), size }
}

fn settings(dst_paths: Vec<&str>, dry_run: bool, group_by: Option<GroupBy>) -> WorkerSettings {
    WorkerSettings {
        endpoint: "http://localhost:3000".to_string(),
        auth: "token".to_string(),
        dst_paths: dst_paths.into_iter().map(|s| s.to_string()).collect(),
        dry_run,
        group_by,
        index_preload: VolumeIndex::new(),
    }
}

// One worker's handling of one entry, with the world supplied as values:
// `existing` is the per-volume probed size of the entry's path, `avail`
// the per-volume free space, and a fetch always delivers `fetched` bytes.
fn step(
    coord: &mut Coordinator,
    s: &WorkerSettings,
    item: &FileEntry,
    existing: Vec<Option<u64>>,
    avail: Vec<u64>,
    fetched: u64,
) -> Option<(String, bool)> {
    let dst = coord.place(item, s, &existing, &avail)?;
    // The probe of the placed destination: its size where it exists.
    let placed_size = (0..s.dst_paths.len())
        .find(|&i| dst.starts_with(&s.dst_paths[i]))
        .and_then(|i| existing[i]);
    let (result, fetched_now) = match pre_transfer(placed_size, item.size, s.dry_run) {
        TransferStep::Skip => (Ok(DlStatus::NothingToDo), false),
        TransferStep::DryRun => (Ok(DlStatus::Completed), false),
        TransferStep::Fetch => (verify_size(fetched, item.size), true),
    };
    if coord.has_in_flight() {
        coord.record_outcome(&result);
    }
    Some((dst, fetched_now))
}

// Two files, two roomy volumes, no grouping: everything transfers.
#[test]
fn run_transfers_everything() {
    let s = settings(vec!["m1", "m2"], false, None);
    let queue: VecDeque<FileEntry> = VecDeque::from(vec![fe("a.txt", 10), fe("b.txt", 20)]);
    let mut coord = Coordinator::new(queue, VolumeIndex::new());
    while let Some(item) = coord.next_item() {
        let done = step(&mut coord, &s, &item, vec![None, None], vec![1000, 1000], item.size);
        assert!(done.is_some());
    }
    let sum = coord.summarize();
    assert_eq!(sum.downloaded, 2);
    assert_eq!(sum.errors, 0);
    assert_eq!(sum.files_seen, 2);
    assert!(!sum.discrepancy);
    assert!(!sum.had_errors);
}

// Files sharing a group key land on one volume, even when placed by
// different dequeues.
#[test]
fn run_groups_land_together() {
    let g = GroupBy::compile(r"^(\w{4})_([a-z])$").unwrap();
    let s = settings(vec!["m1", "m2"], false, Some(g));
    let queue: VecDeque<FileEntry> = VecDeque::from(vec![fe("key1_h", 5), fe("key1_n", 5)]);
    let mut coord = Coordinator::new(queue, VolumeIndex::new());
    let mut roots: Vec<String> = Vec::new();
    while let Some(item) = coord.next_item() {
        let (dst, _) =
            step(&mut coord, &s, &item, vec![None, None], vec![1000, 1000], item.size).unwrap();
        let root = dst.split('/').next().unwrap().to_string();
        roots.push(root);
    }
    assert_eq!(roots.len(), 2);
    assert_eq!(roots[0], roots[1]);
    let sum = coord.summarize();
    assert_eq!(sum.downloaded, 2);
    assert_eq!(sum.errors, 0);
}

// A destination already holding the file at the manifest size is skipped:
// no fetch, nothing downloaded, no error.
#[test]
fn run_skips_completed_file() {
    let s = settings(vec!["m1", "m2"], false, None);
    let queue: VecDeque<FileEntry> = VecDeque::from(vec![fe("a.txt", 10)]);
    let mut coord = Coordinator::new(queue, VolumeIndex::new());
    while let Some(item) = coord.next_item() {
        let (dst, fetched_now) =
            step(&mut coord, &s, &item, vec![Some(10), None], vec![1000, 1000], item.size)
                .unwrap();
        assert_eq!(dst, "m1/a.txt".to_string());
        assert!(!fetched_now);
    }
    let sum = coord.summarize();
    assert_eq!(sum.downloaded, 0);
    assert_eq!(sum.errors, 0);
    assert_eq!(sum.files_seen, 1);
    assert!(!sum.discrepancy);
}

// Round trip: a fetched and verified file is skipped by the next run.
#[test]
fn run_twice_skips_second_time() {
    let s = settings(vec!["m1"], false, None);

    let queue: VecDeque<FileEntry> = VecDeque::from(vec![fe("a.txt", 10)]);
    let mut coord = Coordinator::new(queue, VolumeIndex::new());
    let mut written: Option<u64> = None;
    while let Some(item) = coord.next_item() {
        let (_, fetched_now) =
            step(&mut coord, &s, &item, vec![written], vec![1000], item.size).unwrap();
        assert!(fetched_now);
        written = Some(item.size);
    }
    assert_eq!(coord.summarize().downloaded, 1);

    // Second run over the same manifest, destination now populated.
    let queue: VecDeque<FileEntry> = VecDeque::from(vec![fe("a.txt", 10)]);
    let mut coord = Coordinator::new(queue, VolumeIndex::new());
    while let Some(item) = coord.next_item() {
        let (_, fetched_now) =
            step(&mut coord, &s, &item, vec![written], vec![1000], item.size).unwrap();
        assert!(!fetched_now);
    }
    let sum = coord.summarize();
    assert_eq!(sum.downloaded, 0);
    assert_eq!(sum.errors, 0);
    assert_eq!(sum.files_seen, 1);
}

// A file no volume can hold is dropped; the rest of the manifest is still
// processed (by the remaining workers), and the discrepancy warning fires.
#[test]
fn run_drops_unplaceable_entry() {
    let s = settings(vec!["m1", "m2"], false, None);
    let queue: VecDeque<FileEntry> =
        VecDeque::from(vec![fe("a.txt", 10), fe("huge.bin", 5000), fe("c.txt", 10)]);
    let mut coord = Coordinator::new(queue, VolumeIndex::new());
    let mut dropped = 0u64;
    while let Some(item) = coord.next_item() {
        match step(&mut coord, &s, &item, vec![None, None], vec![100, 100], item.size) {
            Some(_) => {},
            None => {
                // The worker drops the entry and stops; another worker
                // keeps draining the queue.
                dropped += 1;
                if coord.has_in_flight() {
                    coord.note_dropped();
                }
            },
        }
    }
    assert_eq!(dropped, 1);
    let sum = coord.summarize();
    assert_eq!(sum.files_seen, 2);
    assert_eq!(sum.downloaded, 2);
    assert_eq!(sum.errors, 0);
    assert!(sum.discrepancy);
}

// Dry run: the skip check still works, but an absent file is counted as
// completed without any fetch.
#[test]
fn run_dry_run_counts_without_fetching() {
    let s = settings(vec!["m1"], true, None);
    let queue: VecDeque<FileEntry> = VecDeque::from(vec![fe("a.txt", 10), fe("b.txt", 5)]);
    let mut coord = Coordinator::new(queue, VolumeIndex::new());
    while let Some(item) = coord.next_item() {
        let (_, fetched_now) =
            step(&mut coord, &s, &item, vec![None], vec![1000], item.size).unwrap();
        assert!(!fetched_now);
    }
    let sum = coord.summarize();
    assert_eq!(sum.downloaded, 2);
    assert_eq!(sum.errors, 0);
}

// A verification failure counts as an error and leaves other entries
// untouched.
#[test]
fn run_counts_size_mismatch_as_error() {
    let s = settings(vec!["m1"], false, None);
    let queue: VecDeque<FileEntry> = VecDeque::from(vec![fe("a.txt", 10), fe("b.txt", 5)]);
    let mut coord = Coordinator::new(queue, VolumeIndex::new());
    let mut first = true;
    while let Some(item) = coord.next_item() {
        let fetched = if first { 3 } else { item.size };
        first = false;
        step(&mut coord, &s, &item, vec![None], vec![1000], fetched).unwrap();
    }
    let sum = coord.summarize();
    assert_eq!(sum.errors, 1);
    assert_eq!(sum.downloaded, 1);
    assert_eq!(sum.files_seen, 2);
    assert!(sum.had_errors);
    assert!(!sum.discrepancy);
}

#[test]
fn transfer_rules_exact_values() {
    assert_eq!(pre_transfer(Some(10), 10, false), TransferStep::Skip);
    assert_eq!(pre_transfer(Some(9), 10, false), TransferStep::Fetch);
    assert_eq!(pre_transfer(None, 10, false), TransferStep::Fetch);
    assert_eq!(pre_transfer(None, 10, true), TransferStep::DryRun);
    assert_eq!(pre_transfer(Some(10), 10, true), TransferStep::Skip);

    assert_eq!(verify_size(10, 10), Ok(DlStatus::Completed));
    assert_eq!(verify_size(9, 10), Err(TransferError::SizeMismatch));

    assert_eq!(check_status(200), Ok(()));
    assert_eq!(check_status(404), Err(TransferError::BadStatus(404)));
}

#[test]
fn queue_is_fifo_and_counts_stay_consistent() {
    let queue: VecDeque<FileEntry> = VecDeque::from(vec![fe("1", 1), fe("2", 2), fe("3", 3)]);
    let mut coord = Coordinator::new(queue, VolumeIndex::new());
    assert_eq!(coord.next_item().unwrap().relpath, "1".to_string());
    assert_eq!(coord.next_item().unwrap().relpath, "2".to_string());
    assert_eq!(coord.next_item().unwrap().relpath, "3".to_string());
    assert!(coord.next_item().is_none());
    assert_eq!(coord.files_seen(), 0);
}
