//! Reconstructing canonical snapshot identifiers from snapshot-resident
//! paths. A snapshot copy lives at
//! `<dataset_mount>/.zfs/snapshot/<snapshot_name>/<relative_path>`; this
//! module splits such a path back into its parts, formats the identifier
//! `<dataset_source_id>@<snapshot_short_name>`, and applies the name and
//! omit-count filters. Name patterns match the snapshot short name alone,
//! never the dataset source in front of it.

use vstd::prelude::*;

use crate::config::ListSnapsFilters;
use crate::data::{pd_views, PathData};
use crate::lookup::{spec_candidate_path, spec_snapshot_dir, VersionsMap};
use crate::mounts::{FilesystemType, MapOfDatasets};
use crate::strutil::{
    contains_seq, ends_with_seq, first_match, lemma_first_match_is, lemma_match_at_char, match_at,
    split_once_str, str_contains, views_of,
};

verus! {

/// The reserved marker between a dataset mount and a snapshot name.
pub open spec fn snap_marker() -> Seq<char> {
    ".zfs/snapshot/"@
}

/// `s` with one trailing separator removed, unless `s` is the bare root.
pub open spec fn strip_trailing_slash(s: Seq<char>) -> Seq<char> {
    if s.len() > 1 && s.last() == '/' {
        s.drop_last()
    } else {
        s
    }
}

/// A snapshot-resident path, deconstructed: the dataset mount before the
/// marker (without its trailing separator), the snapshot's short name —
/// the first segment after the marker — and the remainder. `None` when
/// the marker, or a segment separator after it, is missing.
pub open spec fn spec_split_snap_path(p: Seq<char>) -> Option<(Seq<char>, Seq<char>, Seq<char>)> {
    match first_match(p, snap_marker()) {
        None => None,
        Some(i) => {
            let lhs = p.subrange(0, i);
            let rhs = p.subrange(i + snap_marker().len() as int, p.len() as int);
            match first_match(rhs, "/"@) {
                None => None,
                Some(k) => Some(
                    (
                        strip_trailing_slash(lhs),
                        rhs.subrange(0, k),
                        rhs.subrange(k + 1, rhs.len() as int),
                    ),
                ),
            }
        },
    }
}

/// Split a snapshot-resident path into dataset mount, snapshot name and
/// relative path.
pub fn split_snap_path(path: &str) -> (r: Option<(String, String, String)>)
    ensures
        match r {
            Some(p) => spec_split_snap_path(path@) == Some((p.0@, p.1@, p.2@)),
            None => spec_split_snap_path(path@) is None,
        },
{
    proof {
        reveal_strlit("/");
    }
    match split_once_str(path, ".zfs/snapshot/") {
        None => None,
        Some((lhs, rhs)) => {
            match split_once_str(rhs, "/") {
                None => None,
                Some((snap, rel)) => {
                    let lhs_len = lhs.unicode_len();
                    let dataset = if lhs_len > 1 && lhs.get_char(lhs_len - 1) == '/' {
                        proof {
                            assert(lhs@.subrange(0, lhs@.len() - 1) =~= lhs@.drop_last());
                        }
                        lhs.substring_char(0, lhs_len - 1).to_owned()
                    } else {
                        lhs.to_owned()
                    };
                    Some((dataset, snap.to_owned(), rel.to_owned()))
                },
            }
        },
    }
}

/// Building a candidate path from a dataset, a snapshot name and a local
/// path, then deconstructing it, recovers the same parts. Holds for
/// well-formed inputs: a dataset mount that is non-empty, has no trailing
/// separator, and does not itself contain or end in the reserved marker,
/// and a non-empty snapshot name without separators.
pub proof fn lemma_snap_path_round_trip(dataset: Seq<char>, snap: Seq<char>, local: Seq<char>)
    requires
        dataset.len() > 0,
        dataset.last() != '/',
        !contains_seq(dataset, ".zfs/snapshot/"@),
        !ends_with_seq(dataset, ".zfs/snapshot"@),
        snap.len() > 0,
        !contains_seq(snap, "/"@),
    ensures
        spec_split_snap_path(spec_candidate_path(spec_snapshot_dir(dataset), snap, local)) == Some(
            (dataset, snap, local),
        ),
{
    reveal_strlit("/.zfs/snapshot");
    reveal_strlit(".zfs/snapshot/");
    reveal_strlit(".zfs/snapshot");
    reveal_strlit("/");
    let marker = snap_marker();
    let ml = marker.len() as int;
    let full = spec_candidate_path(spec_snapshot_dir(dataset), snap, local);
    let lng = dataset.len() as int;
    assert(ml == 14);
    assert(full =~= dataset + seq!['/'] + marker + snap + seq!['/'] + local);
    // the marker stands at lng + 1 and nowhere earlier
    assert(full.subrange(lng + 1, lng + 1 + ml) =~= marker);
    assert(match_at(full, marker, lng + 1));
    assert forall|p: int| 0 <= p < lng + 1 implies !match_at(full, marker, p) by {
        if match_at(full, marker, p) {
            assert(forall|q: int|
                0 <= q < ml ==> #[trigger] full.index(p + q) == marker.index(q));
            if p + ml <= lng {
                assert(dataset.subrange(p, p + ml) =~= marker);
                assert(match_at(dataset, marker, p));
                assert(contains_seq(dataset, marker));
            } else {
                // the window covers the separator at index lng
                let q = lng - p;
                assert(0 <= q < ml);
                assert(full.index(lng) == '/');
                assert(marker.index(q) == '/');
                assert(q == 4 || q == 13);
                if q == 13 {
                    assert(forall|t: int|
                        0 <= t < 13 ==> dataset.index(lng - 13 + t) == #[trigger] marker.index(t));
                    assert(marker.subrange(0, 13) =~= ".zfs/snapshot"@);
                    assert(dataset.subrange(lng - 13, lng) =~= marker.subrange(0, 13));
                    assert(ends_with_seq(dataset, ".zfs/snapshot"@));
                } else {
                    // q == 4: position p + 5 is lng + 1, the marker's start
                    assert(full.index(p + 5) == marker.index(5));
                    assert(full.index(lng + 1) == marker.index(0));
                    assert(marker.index(5) == marker.index(0));
                }
            }
        }
    }
    lemma_first_match_is(full, marker, lng + 1);
    let lhs = full.subrange(0, lng + 1);
    let rhs = full.subrange(lng + 1 + ml, full.len() as int);
    assert(lhs =~= dataset + seq!['/']);
    assert(rhs =~= snap + seq!['/'] + local);
    // the first separator in the remainder ends the snapshot name
    let sl = snap.len() as int;
    assert(rhs.subrange(sl, sl + 1) =~= "/"@);
    assert(match_at(rhs, "/"@, sl));
    assert forall|j: int| 0 <= j < sl implies !match_at(rhs, "/"@, j) by {
        lemma_match_at_char(rhs, '/', j);
        lemma_match_at_char(snap, '/', j);
        assert("/"@ =~= seq!['/']);
        if match_at(rhs, "/"@, j) {
            assert(rhs.index(j) == '/');
            assert(snap.index(j) == '/');
            assert(match_at(snap, seq!['/'], j));
            assert(contains_seq(snap, "/"@));
        }
    }
    lemma_first_match_is(rhs, "/"@, sl);
    assert(rhs.subrange(0, sl) =~= snap);
    assert(rhs.subrange(sl + 1, rhs.len() as int) =~= local);
    assert(strip_trailing_slash(lhs) =~= dataset);
}

/// The canonical identifier of the snapshot holding the copy at `p`:
/// `<dataset_source_id>@<snapshot_short_name>`, where the dataset mount
/// taken from `p` must be indexed and of the ZFS kind. `None` when the
/// path does not parse, the mount is unknown, or the kind is wrong.
pub open spec fn spec_snap_name(p: Seq<char>, map: &MapOfDatasets) -> Option<Seq<char>> {
    match spec_split_snap_path(p) {
        None => None,
        Some(parts) => match map.spec_get(parts.0) {
            Some(md) => if md.fs_type == FilesystemType::Zfs {
                Some(md.source@ + "@"@ + parts.1)
            } else {
                None
            },
            None => None,
        },
    }
}

/// A snapshot-resident path, deconstructed into the canonical identifier
/// of its snapshot and, on request, the file's path inside it.
#[derive(Debug)]
pub struct DeconstructedSnapPathData {
    pub snap_name: String,
    /// The snapshot's short name alone — what the name filters match.
    pub short_name: String,
    pub relpath: Option<String>,
}

impl DeconstructedSnapPathData {
    /// Deconstruct one snapshot-resident record. `None` when the path
    /// holds no marker, its dataset is not indexed, or the dataset is not
    /// of the ZFS kind — the caller treats all three as a record to drop.
    pub fn new(
        pathdata: &PathData,
        include_relative_path: bool,
        map_of_datasets: &MapOfDatasets,
    ) -> (r: Option<DeconstructedSnapPathData>)
        ensures
            match r {
                Some(d) => {
                    &&& spec_snap_name(pathdata@.path, map_of_datasets) == Some(d.snap_name@)
                    &&& spec_split_snap_path(pathdata@.path) is Some
                    &&& d.short_name@ == spec_split_snap_path(pathdata@.path)->Some_0.1
                    &&& match d.relpath {
                        Some(rp) => include_relative_path && spec_split_snap_path(
                            pathdata@.path,
                        )->Some_0.2 == rp@,
                        None => !include_relative_path,
                    }
                },
                None => spec_snap_name(pathdata@.path, map_of_datasets) is None,
            },
    {
        match split_snap_path(pathdata.path_buf.as_str()) {
            None => None,
            Some((dataset_path, snap, relpath)) => {
                match map_of_datasets.get(dataset_path.as_str()) {
                    Some(md) => {
                        if matches!(md.fs_type, FilesystemType::Zfs) {
                            let mut snap_name = md.source.clone();
                            snap_name.append("@");
                            snap_name.append(snap.as_str());
                            Some(
                                DeconstructedSnapPathData {
                                    snap_name,
                                    short_name: snap,
                                    relpath: if include_relative_path {
                                        Some(relpath)
                                    } else {
                                        None
                                    },
                                },
                            )
                        } else {
                            None
                        }
                    },
                    None => None,
                }
            },
        }
    }
}

/// The canonical snapshot identifiers of a version list, in list order,
/// dropping records that do not resolve.
pub open spec fn spec_snap_names_of(
    versions: Seq<crate::data::PathDataView>,
    map: &MapOfDatasets,
) -> Seq<Seq<char>>
    decreases versions.len(),
{
    if versions.len() == 0 {
        Seq::empty()
    } else {
        let rest = spec_snap_names_of(versions.drop_last(), map);
        match spec_snap_name(versions.last().path, map) {
            Some(n) => rest.push(n),
            None => rest,
        }
    }
}

/// The short names of the same resolvable records, in the same
/// positions as their identifiers in `spec_snap_names_of`.
pub open spec fn spec_short_names_of(
    versions: Seq<crate::data::PathDataView>,
    map: &MapOfDatasets,
) -> Seq<Seq<char>>
    decreases versions.len(),
{
    if versions.len() == 0 {
        Seq::empty()
    } else {
        let rest = spec_short_names_of(versions.drop_last(), map);
        match spec_snap_name(versions.last().path, map) {
            Some(n) => rest.push(spec_split_snap_path(versions.last().path)->Some_0.1),
            None => rest,
        }
    }
}

/// Does `n` contain one of the patterns?
pub open spec fn name_matches(n: Seq<char>, pats: Seq<Seq<char>>) -> bool {
    exists|j: int| 0 <= j < pats.len() && contains_seq(n, #[trigger] pats.index(j))
}

/// The identifiers whose snapshot short name contains one of the
/// patterns, in order; `None` keeps all. `shorts` runs in lockstep with
/// `names`: the test reads the short name, the kept value is the
/// identifier.
pub open spec fn spec_filter_names(
    names: Seq<Seq<char>>,
    shorts: Seq<Seq<char>>,
    pats: Option<Seq<Seq<char>>>,
) -> Seq<Seq<char>>
    recommends
        shorts.len() == names.len(),
    decreases names.len(),
{
    match pats {
        None => names,
        Some(ps) => if names.len() == 0 {
            Seq::empty()
        } else {
            let rest = spec_filter_names(names.drop_last(), shorts.drop_last(), pats);
            if name_matches(shorts.index(names.len() - 1), ps) {
                rest.push(names.last())
            } else {
                rest
            }
        },
    }
}

/// The list with its `omit` newest — last — entries dropped.
pub open spec fn spec_omit_names(names: Seq<Seq<char>>, omit: int) -> Seq<Seq<char>> {
    if omit >= names.len() {
        Seq::empty()
    } else {
        names.take(names.len() - omit)
    }
}

/// The pattern set a filter configuration holds, if any.
pub open spec fn spec_pats(opt_filters: &Option<ListSnapsFilters>) -> Option<Seq<Seq<char>>> {
    match opt_filters {
        Some(f) => match f.name_filters {
            Some(v) => Some(views_of(v@)),
            None => None,
        },
        None => None,
    }
}

/// The omit count a filter configuration holds.
pub open spec fn spec_omit_count(opt_filters: &Option<ListSnapsFilters>) -> int {
    match opt_filters {
        Some(f) => f.omit_num_snaps as int,
        None => 0,
    }
}

/// What one file's version list resolves and filters to.
pub open spec fn spec_entry_names(
    versions: Seq<crate::data::PathDataView>,
    map: &MapOfDatasets,
    opt_filters: &Option<ListSnapsFilters>,
) -> Seq<Seq<char>> {
    spec_omit_names(
        spec_filter_names(
            spec_snap_names_of(versions, map),
            spec_short_names_of(versions, map),
            spec_pats(opt_filters),
        ),
        spec_omit_count(opt_filters),
    )
}

fn name_matches_exec(n: &str, pats: &Vec<String>) -> (r: bool)
    ensures
        r == name_matches(n@, views_of(pats@)),
{
    let ghost pv = views_of(pats@);
    let len = pats.len();
    let mut j: usize = 0;
    while j < len
        invariant
            0 <= j <= len,
            len == pats@.len(),
            pv == views_of(pats@),
            forall|jj: int| 0 <= jj < j ==> !contains_seq(n@, #[trigger] pv.index(jj)),
        decreases len - j,
    {
        if str_contains(n, pats[j].as_str()) {
            proof {
                assert(contains_seq(n@, pv.index(j as int)));
            }
            return true;
        }
        j += 1;
    }
    false
}

/// One requested file and the snapshot identifiers resolved for it.
pub struct SnapNameEntry {
    pub key: PathData,
    pub snap_names: Vec<String>,
}

/// Per requested file, the filtered list of canonical snapshot
/// identifiers, in the version lists' ascending order.
pub struct SnapNameMap {
    pub entries: Vec<SnapNameEntry>,
}

impl SnapNameMap {
    /// Resolve and filter the snapshot names of every file in the batch.
    /// An entry whose list comes out empty is kept — the caller warns
    /// about it rather than failing the batch.
    pub fn get_snap_names(
        versions_map: &VersionsMap,
        opt_filters: &Option<ListSnapsFilters>,
        map_of_datasets: &MapOfDatasets,
    ) -> (r: SnapNameMap)
        ensures
            r.entries@.len() == versions_map.entries@.len(),
            forall|e: int|
                0 <= e < r.entries@.len() ==> {
                    &&& (#[trigger] r.entries@.index(e)).key@ == versions_map.entries@.index(
                        e,
                    ).key@
                    &&& views_of(r.entries@.index(e).snap_names@) == spec_entry_names(
                        pd_views(versions_map.entries@.index(e).versions@),
                        map_of_datasets,
                        opt_filters,
                    )
                },
    {
        let mut out: Vec<SnapNameEntry> = Vec::new();
        let n = versions_map.entries.len();
        let mut e: usize = 0;
        while e < n
            invariant
                0 <= e <= n,
                n == versions_map.entries@.len(),
                out@.len() == e,
                forall|e2: int|
                    0 <= e2 < e ==> {
                        &&& (#[trigger] out@.index(e2)).key@ == versions_map.entries@.index(
                            e2,
                        ).key@
                        &&& views_of(out@.index(e2).snap_names@) == spec_entry_names(
                            pd_views(versions_map.entries@.index(e2).versions@),
                            map_of_datasets,
                            opt_filters,
                        )
                    },
            decreases n - e,
        {
            let entry = &versions_map.entries[e];
            let ghost vv = pd_views(entry.versions@);
            // resolve each version to its identifier and short name
            let mut names: Vec<String> = Vec::new();
            let mut shorts: Vec<String> = Vec::new();
            let vn = entry.versions.len();
            let mut v: usize = 0;
            proof {
                assert(vv.take(0) =~= Seq::<crate::data::PathDataView>::empty());
            }
            while v < vn
                invariant
                    0 <= v <= vn,
                    vn == entry.versions@.len(),
                    vv == pd_views(entry.versions@),
                    names@.len() == shorts@.len(),
                    views_of(names@) == spec_snap_names_of(vv.take(v as int), map_of_datasets),
                    views_of(shorts@) == spec_short_names_of(vv.take(v as int), map_of_datasets),
                decreases vn - v,
            {
                proof {
                    assert(vv.take(v + 1).drop_last() =~= vv.take(v as int));
                    assert(vv.take(v + 1).last() == entry.versions@.index(v as int)@);
                }
                match DeconstructedSnapPathData::new(&entry.versions[v], false, map_of_datasets) {
                    Some(d) => {
                        names.push(d.snap_name);
                        shorts.push(d.short_name);
                        proof {
                            assert(views_of(names@) =~~= spec_snap_names_of(
                                vv.take(v + 1),
                                map_of_datasets,
                            ));
                            assert(views_of(shorts@) =~~= spec_short_names_of(
                                vv.take(v + 1),
                                map_of_datasets,
                            ));
                        }
                    },
                    None => {
                        proof {
                            assert(views_of(names@) =~~= spec_snap_names_of(
                                vv.take(v + 1),
                                map_of_datasets,
                            ));
                            assert(views_of(shorts@) =~~= spec_short_names_of(
                                vv.take(v + 1),
                                map_of_datasets,
                            ));
                        }
                    },
                }
                v += 1;
            }
            proof {
                assert(vv.take(vn as int) =~= vv);
            }
            // keep only identifiers whose short name matches a pattern,
            // when patterns are given
            let ghost base = spec_snap_names_of(vv, map_of_datasets);
            let ghost base_shorts = spec_short_names_of(vv, map_of_datasets);
            let mut kept: Vec<String>;
            match opt_filters {
                Some(f) => {
                    match &f.name_filters {
                        Some(pats) => {
                            let ghost nv = views_of(names@);
                            let ghost sv = views_of(shorts@);
                            kept = Vec::new();
                            let kn = names.len();
                            let mut j: usize = 0;
                            proof {
                                assert(nv.take(0) =~= Seq::<Seq<char>>::empty());
                                assert(sv.take(0) =~= Seq::<Seq<char>>::empty());
                            }
                            while j < kn
                                invariant
                                    0 <= j <= kn,
                                    kn == names@.len(),
                                    kn == shorts@.len(),
                                    nv == views_of(names@),
                                    sv == views_of(shorts@),
                                    views_of(kept@) == spec_filter_names(
                                        nv.take(j as int),
                                        sv.take(j as int),
                                        Some(views_of(pats@)),
                                    ),
                                decreases kn - j,
                            {
                                proof {
                                    assert(nv.take(j + 1).drop_last() =~= nv.take(j as int));
                                    assert(nv.take(j + 1).last() == names@.index(j as int)@);
                                    assert(sv.take(j + 1).drop_last() =~= sv.take(j as int));
                                    assert(sv.take(j + 1).index(j as int) == shorts@.index(
                                        j as int,
                                    )@);
                                }
                                if name_matches_exec(shorts[j].as_str(), pats) {
                                    let item = names[j].clone();
                                    kept.push(item);
                                    proof {
                                        assert(views_of(kept@) =~~= spec_filter_names(
                                            nv.take(j + 1),
                                            sv.take(j + 1),
                                            Some(views_of(pats@)),
                                        ));
                                    }
                                } else {
                                    proof {
                                        assert(views_of(kept@) =~~= spec_filter_names(
                                            nv.take(j + 1),
                                            sv.take(j + 1),
                                            Some(views_of(pats@)),
                                        ));
                                    }
                                }
                                j += 1;
                            }
                            proof {
                                assert(nv.take(kn as int) =~= nv);
                                assert(sv.take(kn as int) =~= sv);
                                assert(views_of(kept@) == spec_filter_names(
                                    base,
                                    base_shorts,
                                    spec_pats(opt_filters),
                                ));
                            }
                        },
                        None => {
                            kept = names;
                        },
                    }
                },
                None => {
                    kept = names;
                },
            }
            let ghost filtered = spec_filter_names(base, base_shorts, spec_pats(opt_filters));
            proof {
                assert(views_of(kept@) == filtered);
            }
            // drop the omit-count newest entries
            let omit: usize = match opt_filters {
                Some(f) => f.omit_num_snaps,
                None => 0,
            };
            proof {
                assert(omit as int == spec_omit_count(opt_filters));
            }
            let kept_len = kept.len();
            if omit >= kept_len {
                if omit > 0 {
                    kept.clear();
                }
                proof {
                    assert(views_of(kept@) =~~= spec_omit_names(filtered, omit as int));
                }
            } else {
                kept.truncate(kept_len - omit);
                proof {
                    assert(views_of(kept@) =~~= spec_omit_names(filtered, omit as int));
                }
            }
            let key = entry.key.clone();
            out.push(SnapNameEntry { key, snap_names: kept });
            e += 1;
        }
        SnapNameMap { entries: out }
    }

    /// The public entry point of the resolver: resolve, filter, return.
    pub fn exec(
        versions_map: &VersionsMap,
        opt_filters: &Option<ListSnapsFilters>,
        map_of_datasets: &MapOfDatasets,
    ) -> (r: SnapNameMap)
        ensures
            r.entries@.len() == versions_map.entries@.len(),
            forall|e: int|
                0 <= e < r.entries@.len() ==> {
                    &&& (#[trigger] r.entries@.index(e)).key@ == versions_map.entries@.index(
                        e,
                    ).key@
                    &&& views_of(r.entries@.index(e).snap_names@) == spec_entry_names(
                        pd_views(versions_map.entries@.index(e).versions@),
                        map_of_datasets,
                        opt_filters,
                    )
                },
    {
        Self::get_snap_names(versions_map, opt_filters, map_of_datasets)
    }
}

} // verus!
