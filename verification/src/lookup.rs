//! The per-file and batch lookup plumbing: where a dataset keeps its
//! snapshots, the candidate path of each snapshot copy, and the merge of
//! live and snapshot results that decides when a batch has found nothing
//! at all.

use vstd::prelude::*;

use crate::config::{Config, SnapPoint};
use crate::data::{clone_path_vec, pd_views, PathData, PathDataView};
use crate::errors::{HttmError, HttmErrorKind};
use crate::strutil::starts_with_seq;

verus! {

/// The hidden directory under a dataset mount that exposes its snapshots.
pub open spec fn spec_snapshot_dir(dataset: Seq<char>) -> Seq<char> {
    dataset + "/.zfs/snapshot"@
}

/// `p` with the root stripped, component-aligned: `root` must be a prefix
/// of `p`, and what follows it must be empty or begin with a separator —
/// a root `/us` does not own `/usr/bin/ls`. The remainder comes back
/// without its leading separator.
pub open spec fn spec_strip_root(p: Seq<char>, root: Seq<char>) -> Option<Seq<char>> {
    if starts_with_seq(p, root) {
        let rem = p.subrange(root.len() as int, p.len() as int);
        if rem.len() == 0 {
            Some(rem)
        } else if rem.index(0) == '/' {
            Some(rem.drop_first())
        } else {
            None
        }
    } else {
        None
    }
}

/// The root that `file_path` must fall under: the user-defined local
/// directory when one is configured, else the dataset mount itself.
pub open spec fn spec_local_root(snap_point: &SnapPoint, dataset: Seq<char>) -> Seq<char> {
    match snap_point {
        SnapPoint::UserDefined { local_dir, .. } => local_dir@,
        SnapPoint::Native => dataset,
    }
}

/// Compute the dataset's hidden snapshot directory and the file's path
/// relative to its root. Fails with `PathOutsideRoot` exactly when the
/// file does not fall under that root as a whole path component.
pub fn get_snap_point_and_local_relative_path(config: &Config, path: &str, dataset: &str) -> (r:
    Result<(String, String), HttmError>)
    ensures
        match r {
            Ok(p) => {
                &&& p.0@ == spec_snapshot_dir(dataset@)
                &&& Some(p.1@) == spec_strip_root(path@, spec_local_root(&config.snap_point, dataset@))
            },
            Err(e) => {
                &&& spec_strip_root(path@, spec_local_root(&config.snap_point, dataset@)) is None
                &&& e.kind == HttmErrorKind::PathOutsideRoot
            },
        },
{
    let root: &str = match &config.snap_point {
        SnapPoint::UserDefined { local_dir, .. } => local_dir.as_str(),
        SnapPoint::Native => dataset,
    };
    match crate::strutil::strip_prefix_str(path, root) {
        None => Err(
            HttmError::new(
                HttmErrorKind::PathOutsideRoot,
                "The requested path does not fall under the expected root. Perhaps the configured directories need review.".to_owned(),
            ),
        ),
        Some(rem) => {
            let rem_len = rem.unicode_len();
            if rem_len > 0 && rem.get_char(0) != '/' {
                return Err(
                    HttmError::new(
                        HttmErrorKind::PathOutsideRoot,
                        "The requested path does not fall under the expected root. Perhaps the configured directories need review.".to_owned(),
                    ),
                );
            }
            let local = if rem_len > 0 {
                proof {
                    assert(rem@.subrange(1, rem@.len() as int) =~= rem@.drop_first());
                }
                rem.substring_char(1, rem_len).to_owned()
            } else {
                rem.to_owned()
            };
            let mut snapshot_dir = dataset.to_owned();
            snapshot_dir.append("/.zfs/snapshot");
            Ok((snapshot_dir, local))
        },
    }
}

/// The on-disk path of one snapshot's copy of a file: the snapshot
/// directory, the snapshot's name and the file's relative path, joined by
/// separators.
pub open spec fn spec_candidate_path(
    snap_dir: Seq<char>,
    name: Seq<char>,
    local: Seq<char>,
) -> Seq<char> {
    snap_dir + "/"@ + name + "/"@ + local
}

/// One candidate path per listed snapshot name, in order.
pub fn build_candidate_paths(snapshot_dir: &str, snap_names: &Vec<String>, local_path: &str) -> (r:
    Vec<String>)
    ensures
        r@.len() == snap_names@.len(),
        forall|j: int|
            0 <= j < r@.len() ==> (#[trigger] r@.index(j))@ == spec_candidate_path(
                snapshot_dir@,
                snap_names@.index(j)@,
                local_path@,
            ),
{
    let mut out: Vec<String> = Vec::new();
    let len = snap_names.len();
    let mut i: usize = 0;
    while i < len
        invariant
            0 <= i <= len,
            len == snap_names@.len(),
            out@.len() == i,
            forall|j: int|
                0 <= j < i ==> (#[trigger] out@.index(j))@ == spec_candidate_path(
                    snapshot_dir@,
                    snap_names@.index(j)@,
                    local_path@,
                ),
        decreases len - i,
    {
        let mut s = snapshot_dir.to_owned();
        s.append("/");
        s.append(snap_names[i].as_str());
        s.append("/");
        s.append(local_path);
        out.push(s);
        i += 1;
    }
    out
}

/// Every record in `s` is phantom.
pub open spec fn all_phantom(s: Seq<PathDataView>) -> bool {
    forall|j: int| 0 <= j < s.len() ==> (#[trigger] s.index(j)).is_phantom()
}

/// The batch has found nothing at all: no snapshot copy, and every live
/// record phantom.
pub open spec fn no_versions_found(snap: Seq<PathDataView>, live: Seq<PathDataView>) -> bool {
    snap.len() == 0 && all_phantom(live)
}

/// Merge the concatenated snapshot results with the live records of the
/// requested paths. The live set is the input set, unless live copies were
/// excluded by configuration. Fails with `NoVersionsFound` exactly when no
/// snapshot copy exists and every live record is phantom — the signal that
/// none of the requested paths ever existed in any form.
pub fn lookup_exec(
    config: &Config,
    path_data: &Vec<PathData>,
    snapshot_versions: Vec<PathData>,
) -> (r: Result<(Vec<PathData>, Vec<PathData>), HttmError>)
    ensures
        ({
            let live = if !config.opt_no_live_vers {
                pd_views(path_data@)
            } else {
                Seq::<PathDataView>::empty()
            };
            match r {
                Ok(p) => {
                    &&& pd_views(p.0@) == pd_views(snapshot_versions@)
                    &&& pd_views(p.1@) == live
                    &&& !no_versions_found(pd_views(snapshot_versions@), live)
                },
                Err(e) => {
                    &&& no_versions_found(pd_views(snapshot_versions@), live)
                    &&& e.kind == HttmErrorKind::NoVersionsFound
                },
            }
        }),
{
    let live_versions: Vec<PathData> = if !config.opt_no_live_vers {
        clone_path_vec(path_data)
    } else {
        Vec::new()
    };
    proof {
        if config.opt_no_live_vers {
            assert(pd_views(live_versions@) =~~= Seq::<PathDataView>::empty());
        }
    }
    let mut all_live_phantom = true;
    let live_len = live_versions.len();
    let mut i: usize = 0;
    while i < live_len
        invariant
            0 <= i <= live_len,
            live_len == live_versions@.len(),
            all_live_phantom == all_phantom(pd_views(live_versions@).take(i as int)),
        decreases live_len - i,
    {
        let ghost lv = pd_views(live_versions@);
        if !live_versions[i].is_phantom() {
            all_live_phantom = false;
            proof {
                assert(lv.take(i + 1).index(i as int) == live_versions@.index(i as int)@);
                assert(!all_phantom(lv.take(i + 1)));
            }
        } else {
            proof {
                assert(forall|j: int| 0 <= j <= i ==> lv.take(i + 1).index(j) == lv.index(j));
                assert(forall|j: int| 0 <= j < i ==> lv.take(i as int).index(j) == lv.index(j));
                assert(lv.index(i as int) == live_versions@.index(i as int)@);
                if all_phantom(lv.take(i as int)) {
                    assert(all_phantom(lv.take(i + 1)));
                }
            }
        }
        i += 1;
    }
    proof {
        assert(pd_views(live_versions@).take(live_len as int) =~= pd_views(live_versions@));
    }
    if snapshot_versions.is_empty() && all_live_phantom {
        Err(
            HttmError::new(
                HttmErrorKind::NoVersionsFound,
                "Neither a live copy, nor a snapshot copy of such a file appears to exist, so, umm? Please try another file.".to_owned(),
            ),
        )
    } else {
        proof {
            if pd_views(snapshot_versions@).len() == 0 {
                assert(snapshot_versions@.len() == 0);
            }
        }
        Ok((snapshot_versions, live_versions))
    }
}

/// One requested file and its ascending list of snapshot versions.
pub struct VersionsEntry {
    pub key: PathData,
    pub versions: Vec<PathData>,
}

/// The ordered per-file results of a batch lookup: one entry per requested
/// file, in request order.
pub struct VersionsMap {
    pub entries: Vec<VersionsEntry>,
}

impl VersionsMap {
    pub fn new() -> (r: VersionsMap)
        ensures
            r.entries@.len() == 0,
    {
        VersionsMap { entries: Vec::new() }
    }

    /// Append one file's results.
    pub fn push_entry(&mut self, key: PathData, versions: Vec<PathData>)
        ensures
            final(self).entries@ == old(self).entries@.push(
                VersionsEntry { key, versions },
            ),
    {
        self.entries.push(VersionsEntry { key, versions });
    }
}

} // verus!
