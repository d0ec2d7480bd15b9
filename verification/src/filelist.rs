//! The manifest entry type: a relative path together with its size.

use vstd::prelude::*;

verus! {

/// One file of the manifest or of a volume listing.
#[derive(Debug, PartialEq, Eq)]
pub struct FileEntry {
    pub relpath: String,
    pub size: u64,
}

/// The mathematical value of a [`FileEntry`].
pub ghost struct FileEntryView {
    pub relpath: Seq<char>,
    pub size: u64,
}

impl View for FileEntry {
    type V = FileEntryView;

    open spec fn view(&self) -> FileEntryView {
        FileEntryView { relpath: self.relpath@, size: self.size }
    }
}

impl DeepView for FileEntry {
    type V = FileEntryView;

    open spec fn deep_view(&self) -> FileEntryView {
        self@
    }
}

impl Clone for FileEntry {
    fn clone(&self) -> (r: FileEntry)
        ensures
            r@ == self@,
    {
        FileEntry { relpath: self.relpath.clone(), size: self.size }
    }
}

} // verus!
