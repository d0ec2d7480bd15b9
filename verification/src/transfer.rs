//! Per-entry transfer rules: the skip check that makes runs resumable,
//! the response-status rule, and the size verification.
//!
//! The network and filesystem work itself is done by the caller; the
//! functions here decide what to do and whether the result counts as a
//! completed transfer.

use vstd::prelude::*;

verus! {

/// The successful outcome of handling one entry.
#[derive(Debug, PartialEq, Eq, Structural, Clone, Copy)]
pub enum DlStatus {
    /// The destination already held the file at the manifest size.
    NothingToDo,
    /// The file was transferred (or accounted as such in a dry run).
    Completed,
}

/// Why one entry's transfer failed. Failures stay with the entry: they
/// are counted and never stop other workers.
#[derive(Debug, PartialEq, Eq, Structural, Clone, Copy)]
pub enum TransferError {
    /// The HTTP request could not be completed.
    Transport,
    /// A filesystem operation failed.
    Io,
    /// The response status was not 200.
    BadStatus(u16),
    /// The written file's size differs from the manifest size.
    SizeMismatch,
}

/// What a placed entry needs.
#[derive(Debug, PartialEq, Eq, Structural, Clone, Copy)]
pub enum TransferStep {
    /// The destination file already has the manifest size: already
    /// synchronized, no network call is made.
    Skip,
    /// Dry run with the file absent or incomplete: count a completion,
    /// but make no network call and write nothing.
    DryRun,
    /// Fetch the file and stream it to the destination.
    Fetch,
}

/// The transfer decision: a destination copy at exactly the manifest size
/// is skipped; otherwise a dry run short-circuits; otherwise fetch.
pub open spec fn pre_transfer_spec(dst_size: Option<u64>, expected: u64, dry_run: bool)
    -> TransferStep {
    if dst_size == Some(expected) {
        TransferStep::Skip
    } else if dry_run {
        TransferStep::DryRun
    } else {
        TransferStep::Fetch
    }
}

/// Decide what a placed entry needs. `dst_size` is the probed size of the
/// destination file, `None` when it does not exist.
pub fn pre_transfer(dst_size: Option<u64>, expected: u64, dry_run: bool) -> (r: TransferStep)
    ensures
        r == pre_transfer_spec(dst_size, expected, dry_run),
{
    let complete = match dst_size {
        Some(sz) => sz == expected,
        None => false,
    };
    if complete {
        TransferStep::Skip
    } else if dry_run {
        TransferStep::DryRun
    } else {
        TransferStep::Fetch
    }
}

/// Accept or reject a response status: anything but 200 fails the entry.
pub fn check_status(status: u16) -> (r: Result<(), TransferError>)
    ensures
        r is Ok <==> status == 200,
        r is Err ==> r == Err::<(), TransferError>(TransferError::BadStatus(status)),
{
    if status == 200 {
        Ok(())
    } else {
        Err(TransferError::BadStatus(status))
    }
}

/// The size-verification rule: only an exact match completes a transfer.
pub open spec fn verify_size_spec(file_size: u64, expected: u64) -> Result<
    DlStatus,
    TransferError,
> {
    if file_size == expected {
        Ok(DlStatus::Completed)
    } else {
        Err(TransferError::SizeMismatch)
    }
}

/// Verify the written destination size against the manifest size; a
/// mismatch is an error for this entry, never silently accepted.
pub fn verify_size(file_size: u64, expected: u64) -> (r: Result<DlStatus, TransferError>)
    ensures
        r == verify_size_spec(file_size, expected),
{
    if file_size == expected {
        Ok(DlStatus::Completed)
    } else {
        Err(TransferError::SizeMismatch)
    }
}

/// Round trip: a transfer whose written size passed verification is
/// skipped by any later run — the destination's probed size now equals
/// the manifest size, so the decision is `Skip` and no network call is
/// made.
pub proof fn lemma_round_trip(written: u64, expected: u64, dry_run: bool)
    requires
        verify_size_spec(written, expected) is Ok,
    ensures
        pre_transfer_spec(Some(written), expected, dry_run) == TransferStep::Skip,
{
}

} // verus!
