//! Data models for directory entries, snapshot metadata, and errors.

use vstd::prelude::*;

verus! {

/// Snapshot of traversal progress emitted during a scan.
#[derive(Debug)]
pub struct ProgressSnapshot {
    /// Milliseconds elapsed since the scan started.
    pub timestamp_ms: u64,
    /// Cumulative count of files and directories processed.
    pub processed_entries: u64,
    /// Cumulative bytes attributed to processed files.
    pub processed_bytes: u64,
    /// Estimated completion in percent; only the terminal snapshot carries
    /// a value, and that value is 100.
    pub estimated_completion_percent: Option<u8>,
    /// Rolling throughput estimate in bytes per second.
    pub recent_throughput_bytes_per_sec: Option<u64>,
}

impl Clone for ProgressSnapshot {
    fn clone(&self) -> (res: Self)
        ensures
            res == *self,
    {
        ProgressSnapshot {
            timestamp_ms: self.timestamp_ms,
            processed_entries: self.processed_entries,
            processed_bytes: self.processed_bytes,
            estimated_completion_percent: self.estimated_completion_percent,
            recent_throughput_bytes_per_sec: self.recent_throughput_bytes_per_sec,
        }
    }
}

/// Mathematical value of a [`DirectoryEntry`].
pub struct DirectoryEntryView {
    pub path: Seq<char>,
    pub parent_path: Option<Seq<char>>,
    pub depth: u16,
    pub size_bytes: u64,
    pub file_count: u32,
    pub dir_count: u32,
}

/// One record per file and per directory discovered by a scan.
#[derive(Debug)]
pub struct DirectoryEntry {
    pub path: String,
    pub parent_path: Option<String>,
    pub depth: u16,
    pub size_bytes: u64,
    pub file_count: u32,
    pub dir_count: u32,
}

impl View for DirectoryEntry {
    type V = DirectoryEntryView;

    open spec fn view(&self) -> DirectoryEntryView {
        DirectoryEntryView {
            path: self.path@,
            parent_path: match self.parent_path {
                Some(p) => Some(p@),
                None => None,
            },
            depth: self.depth,
            size_bytes: self.size_bytes,
            file_count: self.file_count,
            dir_count: self.dir_count,
        }
    }
}

impl DeepView for DirectoryEntry {
    type V = DirectoryEntryView;

    open spec fn deep_view(&self) -> DirectoryEntryView {
        self@
    }
}

impl Clone for DirectoryEntry {
    fn clone(&self) -> (res: Self)
        ensures
            res == *self,
    {
        DirectoryEntry {
            path: self.path.clone(),
            parent_path: match &self.parent_path {
                Some(p) => Some(p.clone()),
                None => None,
            },
            depth: self.depth,
            size_bytes: self.size_bytes,
            file_count: self.file_count,
            dir_count: self.dir_count,
        }
    }
}

/// Mathematical value of a [`SnapshotMeta`].
pub struct SnapshotMetaView {
    pub scan_root: Seq<char>,
    pub started_at: Seq<char>,
    pub finished_at: Seq<char>,
    pub size_basis: Seq<char>,
    pub hardlink_policy: Seq<char>,
    pub excludes: Seq<Seq<char>>,
    pub strategy: Seq<char>,
}

/// Scan-wide metadata written once per snapshot.
#[derive(Debug)]
pub struct SnapshotMeta {
    pub scan_root: String,
    pub started_at: String,
    pub finished_at: String,
    pub size_basis: String,
    pub hardlink_policy: String,
    /// Reserved; never persisted.
    pub excludes: Vec<String>,
    pub strategy: String,
}

impl View for SnapshotMeta {
    type V = SnapshotMetaView;

    open spec fn view(&self) -> SnapshotMetaView {
        SnapshotMetaView {
            scan_root: self.scan_root@,
            started_at: self.started_at@,
            finished_at: self.finished_at@,
            size_basis: self.size_basis@,
            hardlink_policy: self.hardlink_policy@,
            excludes: self.excludes.deep_view(),
            strategy: self.strategy@,
        }
    }
}

impl DeepView for SnapshotMeta {
    type V = SnapshotMetaView;

    open spec fn deep_view(&self) -> SnapshotMetaView {
        self@
    }
}

impl Clone for SnapshotMeta {
    fn clone(&self) -> (res: Self)
        ensures
            res@ == self@,
    {
        let mut excludes: Vec<String> = Vec::new();
        let mut i: usize = 0;
        while i < self.excludes.len()
            invariant
                i <= self.excludes.len(),
                excludes.len() == i,
                forall|j: int| 0 <= j < i ==> excludes[j]@ == self.excludes[j]@,
            decreases self.excludes.len() - i,
        {
            excludes.push(self.excludes[i].clone());
            i += 1;
        }
        assert(excludes.deep_view() =~= self.excludes.deep_view());
        SnapshotMeta {
            scan_root: self.scan_root.clone(),
            started_at: self.started_at.clone(),
            finished_at: self.finished_at.clone(),
            size_basis: self.size_basis.clone(),
            hardlink_policy: self.hardlink_policy.clone(),
            excludes,
            strategy: self.strategy.clone(),
        }
    }
}

/// Mathematical value of an [`ErrorItem`].
pub struct ErrorItemView {
    pub path: Seq<char>,
    pub code: Seq<char>,
    pub message: Seq<char>,
}

/// One failure that did not abort the scan.
#[derive(Debug)]
pub struct ErrorItem {
    pub path: String,
    pub code: String,
    pub message: String,
}

impl View for ErrorItem {
    type V = ErrorItemView;

    open spec fn view(&self) -> ErrorItemView {
        ErrorItemView { path: self.path@, code: self.code@, message: self.message@ }
    }
}

impl DeepView for ErrorItem {
    type V = ErrorItemView;

    open spec fn deep_view(&self) -> ErrorItemView {
        self@
    }
}

impl Clone for ErrorItem {
    fn clone(&self) -> (res: Self)
        ensures
            res == *self,
    {
        ErrorItem {
            path: self.path.clone(),
            code: self.code.clone(),
            message: self.message.clone(),
        }
    }
}

} // verus!
