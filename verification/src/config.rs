//! The read-only context threaded through the resolvers: where snapshots
//! are anchored, what to print, and what to leave out. Loading this from
//! the command line is a caller's concern; the library only reads it.

use vstd::prelude::*;

verus! {

/// How results are rendered.
#[derive(Clone, Copy, Debug, PartialEq, Eq, Structural)]
pub enum PrintMode {
    FormattedDefault,
    FormattedNotPretty,
    RawNewline,
    RawZero,
}

/// Leave one of the two result sets out of the output.
#[derive(Clone, Copy, Debug, PartialEq, Eq, Structural)]
pub enum BulkExclusion {
    NoLive,
    NoSnap,
}

/// Where a file's snapshots are anchored: a user-defined pair of snapshot
/// and local directories, or the native mount table.
#[derive(Debug)]
pub enum SnapPoint {
    UserDefined { snap_dir: String, local_dir: String },
    Native,
}

/// Filters applied to resolved snapshot names.
#[derive(Debug)]
pub struct ListSnapsFilters {
    /// Keep only names containing one of these patterns; `None` keeps all.
    pub name_filters: Option<Vec<String>>,
    /// Drop the newest N snapshots from each (ascending) list.
    pub omit_num_snaps: usize,
    /// Offer an interactive down-selection before acting.
    pub select_mode: bool,
}

/// The read-only configuration of one invocation.
#[derive(Debug)]
pub struct Config {
    pub snap_point: SnapPoint,
    /// Leave live copies out of lookup results.
    pub opt_no_live_vers: bool,
    pub print_mode: PrintMode,
    pub opt_bulk_exclusion: Option<BulkExclusion>,
}

} // verus!
