//! The status and diff data model: sections, change kinds, entries, hunks and errors.

use vstd::prelude::*;

verus! {

/// Returns the package version that JSON outputs carry as their schema version.
pub fn version() -> (v: &'static str)
    ensures
        v@ == package_version(),
{
    "0.1.0"
}

/// The package version as a sequence of characters.
pub open spec fn package_version() -> Seq<char> {
    "0.1.0"@
}

/// Logical status section for an entry, matching the Source Control grouping model.
#[derive(Debug, Clone, Copy, PartialEq, Eq, Structural)]
pub enum ChangeSection {
    /// Changes staged in the index relative to `HEAD`.
    Staged,
    /// Tracked worktree changes relative to the index.
    WorkingTree,
    /// Untracked worktree paths.
    Untracked,
    /// Paths with unresolved index conflicts.
    Conflicted,
}

/// Git change kind normalized for renderers.
#[derive(Debug, Clone, Copy, PartialEq, Eq, Structural)]
pub enum ChangeKind {
    /// Existing path contents changed.
    Modified,
    /// New tracked path.
    Added,
    /// Tracked path removed.
    Deleted,
    /// Path renamed from `old_path` to `path`.
    Renamed,
    /// Path copied from `old_path` to `path`.
    Copied,
    /// Worktree path not yet tracked by the index.
    Untracked,
    /// Unresolved merge conflict.
    Conflicted,
    /// File type changed.
    TypeChanged,
}

/// One normalized git status entry.
#[derive(Debug, Clone, PartialEq, Eq)]
pub struct GdlEntry {
    /// Which Source Control section owns this entry.
    pub section: ChangeSection,
    /// Normalized change kind.
    pub kind: ChangeKind,
    /// Repository-relative current path, with `/` separators.
    pub path: String,
    /// Repository-relative previous path for renames and copies.
    pub old_path: Option<String>,
    /// Added text lines; zero for binary and conflicted entries.
    pub lines_added: usize,
    /// Removed text lines; zero for binary and conflicted entries.
    pub lines_removed: usize,
    /// Whether at least one side of the content comparison is binary.
    pub is_binary: bool,
}

/// Which pair of repository states to diff.
#[derive(Debug, Clone, Copy, PartialEq, Eq, Structural)]
pub enum DiffArea {
    /// Worktree bytes compared to the index.
    Worktree,
    /// Index bytes compared to `HEAD`.
    Staged,
    /// Worktree bytes compared to `HEAD`.
    Head,
}

/// One raw byte-preserving diff hunk.
#[derive(Debug, Clone, PartialEq, Eq)]
pub struct Hunk {
    /// 1-based start line in the old side, or 0 for a pure addition at file start.
    pub old_start: u32,
    /// Number of old-side changed lines.
    pub old_lines: u32,
    /// 1-based start line in the new side, or 0 for a pure deletion at file start.
    pub new_start: u32,
    /// Number of new-side changed lines.
    pub new_lines: u32,
    /// Raw removed line bytes, including their line endings.
    pub old_bytes: Vec<Vec<u8>>,
    /// Raw added line bytes, including their line endings.
    pub new_bytes: Vec<Vec<u8>>,
}

/// Raw diff data for a single repository-relative file path.
#[derive(Debug, Clone, PartialEq, Eq)]
pub struct FileDiff {
    /// Repository-relative file path, with `/` separators.
    pub file: String,
    /// Diff area used to choose old and new bytes.
    pub area: DiffArea,
    /// Whether either side is binary. Binary files do not expose text hunks.
    pub binary: bool,
    /// Text hunks in diff order.
    pub hunks: Vec<Hunk>,
}

/// Errors returned while collecting repository status.
#[derive(Debug, Clone, PartialEq, Eq)]
pub struct StatusError {
    /// What failed, as shown to users.
    pub message: String,
    /// The text of the underlying cause, when there is one.
    pub source: Option<String>,
}

impl StatusError {
    /// Builds an error with a message and the text of its underlying cause.
    pub fn with_source(message: String, source: String) -> (e: StatusError)
        ensures
            e.message == message,
            e.source == Some(source),
    {
        StatusError { message, source: Some(source) }
    }

    /// The user-facing text of the error: its message alone.
    pub fn to_text(&self) -> (s: String)
        ensures
            s@ == self.message@,
    {
        self.message.clone()
    }
}

/// Errors returned while collecting a file diff.
#[derive(Debug, Clone, PartialEq, Eq)]
pub struct DiffError {
    /// What failed, as shown to users.
    pub message: String,
    /// The text of the underlying cause, when there is one.
    pub source: Option<String>,
}

impl DiffError {
    /// Builds an error that has no underlying cause.
    pub fn simple(message: String) -> (e: DiffError)
        ensures
            e.message == message,
            e.source is None,
    {
        DiffError { message, source: None }
    }

    /// Builds an error with a message and the text of its underlying cause.
    pub fn with_source(message: String, source: String) -> (e: DiffError)
        ensures
            e.message == message,
            e.source == Some(source),
    {
        DiffError { message, source: Some(source) }
    }

    /// The user-facing text of the error: its message alone.
    pub fn to_text(&self) -> (s: String)
        ensures
            s@ == self.message@,
    {
        self.message.clone()
    }
}

/// Errors returned while opening a repository.
#[derive(Debug, Clone, PartialEq, Eq)]
pub enum OpenError {
    /// The requested path does not exist.
    NotFound { path: String },
    /// The path resolves to a bare repository, which is not supported.
    BareRepository { git_dir: String },
    /// No repository could be opened or discovered from the path; holds the cause's text.
    Open { message: String },
}

/// The user-facing text of an open error.
pub open spec fn open_error_text(e: OpenError) -> Seq<char> {
    match e {
        OpenError::NotFound { path } => "path does not exist: "@ + path@,
        OpenError::BareRepository { git_dir } => "bare repositories are not supported: "@
            + git_dir@,
        OpenError::Open { message } => message@,
    }
}

impl OpenError {
    /// The user-facing text of the error.
    pub fn to_text(&self) -> (s: String)
        ensures
            s@ == open_error_text(*self),
    {
        match self {
            OpenError::NotFound { path } => {
                let mut s = String::from_str("path does not exist: ");
                s.append(path.as_str());
                s
            },
            OpenError::BareRepository { git_dir } => {
                let mut s = String::from_str("bare repositories are not supported: ");
                s.append(git_dir.as_str());
                s
            },
            OpenError::Open { message } => message.clone(),
        }
    }
}

/// Rank of a section in status order.
pub open spec fn section_rank(section: ChangeSection) -> u8 {
    match section {
        ChangeSection::Staged => 0,
        ChangeSection::WorkingTree => 1,
        ChangeSection::Untracked => 2,
        ChangeSection::Conflicted => 3,
    }
}

/// Rank of a change kind in status order: the order the kinds are declared in.
pub open spec fn kind_rank(kind: ChangeKind) -> u8 {
    match kind {
        ChangeKind::Modified => 0,
        ChangeKind::Added => 1,
        ChangeKind::Deleted => 2,
        ChangeKind::Renamed => 3,
        ChangeKind::Copied => 4,
        ChangeKind::Untracked => 5,
        ChangeKind::Conflicted => 6,
        ChangeKind::TypeChanged => 7,
    }
}

/// Position of a section in status order.
pub fn section_order(section: ChangeSection) -> (r: u8)
    ensures
        r == section_rank(section),
{
    match section {
        ChangeSection::Staged => 0,
        ChangeSection::WorkingTree => 1,
        ChangeSection::Untracked => 2,
        ChangeSection::Conflicted => 3,
    }
}

/// Position of a change kind in status order: the order the kinds are declared in.
pub fn kind_order(kind: ChangeKind) -> (r: u8)
    ensures
        r == kind_rank(kind),
{
    match kind {
        ChangeKind::Modified => 0,
        ChangeKind::Added => 1,
        ChangeKind::Deleted => 2,
        ChangeKind::Renamed => 3,
        ChangeKind::Copied => 4,
        ChangeKind::Untracked => 5,
        ChangeKind::Conflicted => 6,
        ChangeKind::TypeChanged => 7,
    }
}

/// The lower-case name of a diff area.
pub open spec fn area_name(area: DiffArea) -> Seq<char> {
    match area {
        DiffArea::Worktree => "worktree"@,
        DiffArea::Staged => "staged"@,
        DiffArea::Head => "head"@,
    }
}

impl DiffArea {
    /// The lower-case name of the area, as the command line and JSON spell it.
    pub fn name(&self) -> (s: &'static str)
        ensures
            s@ == area_name(*self),
    {
        match self {
            DiffArea::Worktree => "worktree",
            DiffArea::Staged => "staged",
            DiffArea::Head => "head",
        }
    }
}

} // verus!
