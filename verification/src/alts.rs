//! Alternate replicated mounts: for a resolved dataset, the mounts whose
//! dataset source ends with the resolved dataset's own source — a
//! differently-rooted replica, like a pool replicated under another pool's
//! name. Enrichment only: callers treat a miss as soft.

use vstd::prelude::*;

use crate::errors::{HttmError, HttmErrorKind};
use crate::mounts::{DatasetEntry, MapOfDatasets};
use crate::strutil::{ends_with_seq, str_ends_with, str_eq};

verus! {

/// The mounts of `entries` whose source is not `fsname` but ends with it,
/// in index order.
pub open spec fn spec_alt_mounts(entries: Seq<DatasetEntry>, fsname: Seq<char>) -> Seq<Seq<char>>
    decreases entries.len(),
{
    if entries.len() == 0 {
        Seq::empty()
    } else {
        let rest = spec_alt_mounts(entries.drop_last(), fsname);
        let e = entries.last();
        if e.md.source@ != fsname && ends_with_seq(e.md.source@, fsname) {
            rest.push(e.mount@)
        } else {
            rest
        }
    }
}

/// `x` placed into `s`, which ascends by length: after every string no
/// longer than `x`, so that equal lengths keep their earlier order.
pub open spec fn insert_by_len(s: Seq<Seq<char>>, x: Seq<char>) -> Seq<Seq<char>>
    decreases s.len(),
{
    if s.len() == 0 {
        seq![x]
    } else if s.last().len() <= x.len() {
        s.push(x)
    } else {
        insert_by_len(s.drop_last(), x).push(s.last())
    }
}

/// `s` rearranged to ascend by length, stably.
pub open spec fn spec_sort_by_len(s: Seq<Seq<char>>) -> Seq<Seq<char>>
    decreases s.len(),
{
    if s.len() == 0 {
        Seq::empty()
    } else {
        insert_by_len(spec_sort_by_len(s.drop_last()), s.last())
    }
}

/// Lengths ascend (not necessarily strictly).
pub open spec fn sorted_by_len(s: Seq<Seq<char>>) -> bool {
    forall|a: int, b: int|
        0 <= a < b < s.len() ==> (#[trigger] s.index(a)).len() <= (#[trigger] s.index(b)).len()
}

/// Where the search loop stopped — the first index whose string is
/// strictly longer than `x` — is exactly where `insert_by_len` places `x`.
pub proof fn lemma_insert_by_len_at(s: Seq<Seq<char>>, x: Seq<char>, pos: int)
    requires
        sorted_by_len(s),
        0 <= pos <= s.len(),
        forall|j: int| 0 <= j < pos ==> (#[trigger] s.index(j)).len() <= x.len(),
        pos < s.len() ==> s.index(pos).len() > x.len(),
    ensures
        insert_by_len(s, x) == s.insert(pos, x),
        sorted_by_len(s.insert(pos, x)),
    decreases s.len(),
{
    s.insert_ensures(pos, x);
    if s.len() == 0 {
        assert(insert_by_len(s, x) =~= s.insert(0, x));
    } else if pos == s.len() {
        assert(insert_by_len(s, x) =~= s.insert(pos, x));
    } else {
        let sub = s.drop_last();
        assert(sorted_by_len(sub)) by {
            assert(forall|j: int| 0 <= j < sub.len() ==> sub.index(j) == s.index(j));
        }
        assert(s.last().len() > x.len());
        lemma_insert_by_len_at(sub, x, pos);
        assert(insert_by_len(s, x) =~= s.insert(pos, x));
    }
}

/// What the alternate finder records for one resolved mount.
#[derive(Debug)]
pub struct AltMetadata {
    pub proximate_dataset_mount: String,
    /// The replica mounts, shortest first; `None` only while unset.
    pub opt_datasets_of_interest: Option<Vec<String>>,
}

/// Find the alternate replicated mounts of `proximate_dataset_mount`: the
/// mounts of datasets whose source differs from the resolved dataset's own
/// source but ends with it, ascending by mount path length. Fails softly
/// with `AltMountNotFound` when the mount is unknown or no replica exists.
pub fn get_alt_replicated_from_mount(
    proximate_dataset_mount: &str,
    map_of_datasets: &MapOfDatasets,
) -> (r: Result<AltMetadata, HttmError>)
    ensures
        ({
            let alts = spec_alt_mounts(
                map_of_datasets.entries@,
                match map_of_datasets.spec_get(proximate_dataset_mount@) {
                    Some(md) => md.source@,
                    None => Seq::empty(),
                },
            );
            match r {
                Ok(md) => {
                    &&& map_of_datasets.spec_get(proximate_dataset_mount@) is Some
                    &&& alts.len() > 0
                    &&& md.proximate_dataset_mount@ == proximate_dataset_mount@
                    &&& match md.opt_datasets_of_interest {
                        Some(v) => crate::strutil::views_of(v@) == spec_sort_by_len(alts),
                        None => false,
                    }
                },
                Err(e) => {
                    &&& e.kind == HttmErrorKind::AltMountNotFound
                    &&& (map_of_datasets.spec_get(proximate_dataset_mount@) is None || alts.len()
                        == 0)
                },
            }
        }),
{
    let fsname: String = match map_of_datasets.get(proximate_dataset_mount) {
        Some(md) => md.source.clone(),
        None => {
            return Err(
                HttmError::new(
                    HttmErrorKind::AltMountNotFound,
                    "Unable to detect an alternate replicated mount point. Perhaps the replicated filesystem is not mounted?".to_owned(),
                ),
            );
        },
    };
    let ghost entries = map_of_datasets.entries@;
    // collect the matching mounts, in index order
    let mut alts: Vec<String> = Vec::new();
    let len = map_of_datasets.entries.len();
    let mut i: usize = 0;
    while i < len
        invariant
            0 <= i <= len,
            len == entries.len(),
            entries == map_of_datasets.entries@,
            fsname@ == map_of_datasets.spec_get(proximate_dataset_mount@)->Some_0.source@,
            crate::strutil::views_of(alts@) == spec_alt_mounts(entries.take(i as int), fsname@),
        decreases len - i,
    {
        let e = &map_of_datasets.entries[i];
        proof {
            assert(entries.take(i + 1).drop_last() =~= entries.take(i as int));
            assert(entries.take(i + 1).last() == e);
        }
        if !str_eq(e.md.source.as_str(), fsname.as_str()) && str_ends_with(
            e.md.source.as_str(),
            fsname.as_str(),
        ) {
            let m = e.mount.clone();
            alts.push(m);
            proof {
                assert(crate::strutil::views_of(alts@) =~~= spec_alt_mounts(
                    entries.take(i + 1),
                    fsname@,
                ));
            }
        } else {
            proof {
                assert(crate::strutil::views_of(alts@) =~~= spec_alt_mounts(
                    entries.take(i + 1),
                    fsname@,
                ));
            }
        }
        i += 1;
    }
    proof {
        assert(entries.take(len as int) =~= entries);
    }
    if alts.is_empty() {
        return Err(
            HttmError::new(
                HttmErrorKind::AltMountNotFound,
                "Unable to detect an alternate replicated mount point. Perhaps the replicated filesystem is not mounted?".to_owned(),
            ),
        );
    }
    // sort ascending by mount path length, stably
    let ghost av = crate::strutil::views_of(alts@);
    let mut sorted: Vec<String> = Vec::new();
    let alts_len = alts.len();
    let mut k: usize = 0;
    proof {
        assert(av.take(0) =~= Seq::<Seq<char>>::empty());
    }
    while k < alts_len
        invariant
            0 <= k <= alts_len,
            alts_len == alts@.len(),
            av == crate::strutil::views_of(alts@),
            crate::strutil::views_of(sorted@) == spec_sort_by_len(av.take(k as int)),
            sorted_by_len(crate::strutil::views_of(sorted@)),
        decreases alts_len - k,
    {
        let ghost sv = crate::strutil::views_of(sorted@);
        let x = alts[k].clone();
        let x_len = x.as_str().unicode_len();
        let sorted_len = sorted.len();
        let mut pos: usize = 0;
        while pos < sorted_len && sorted[pos].as_str().unicode_len() <= x_len
            invariant
                0 <= pos <= sorted_len,
                sorted_len == sorted@.len(),
                x_len == x@.len(),
                sv == crate::strutil::views_of(sorted@),
                forall|j: int| 0 <= j < pos ==> (#[trigger] sv.index(j)).len() <= x@.len(),
            decreases sorted_len - pos,
        {
            proof {
                assert(sv.index(pos as int) == sorted@.index(pos as int)@);
            }
            pos += 1;
        }
        proof {
            assert(av.take(k + 1).drop_last() =~= av.take(k as int));
            assert(av.take(k + 1).last() == x@);
            if pos < sorted_len {
                assert(sv.index(pos as int) == sorted@.index(pos as int)@);
            }
            lemma_insert_by_len_at(sv, x@, pos as int);
        }
        sorted.insert(pos, x);
        proof {
            sv.insert_ensures(pos as int, x@);
            assert(crate::strutil::views_of(sorted@) =~~= sv.insert(pos as int, x@));
        }
        k += 1;
    }
    proof {
        assert(av.take(alts_len as int) =~= av);
    }
    Ok(
        AltMetadata {
            proximate_dataset_mount: proximate_dataset_mount.to_owned(),
            opt_datasets_of_interest: Some(sorted),
        },
    )
}

/// One resolved mount and its alternate-replica metadata.
pub struct AltEntry {
    pub mount: String,
    pub md: AltMetadata,
}

/// What the precompute records for the first `i` rows of the index: each
/// mount whose dataset has at least one alternate replica, paired with
/// the replicas' mounts sorted ascending by length, in index order.
pub open spec fn spec_map_of_alts_upto(entries: Seq<DatasetEntry>, i: int) -> Seq<
    (Seq<char>, Seq<Seq<char>>),
>
    decreases i,
{
    if i <= 0 {
        Seq::empty()
    } else {
        let rest = spec_map_of_alts_upto(entries, i - 1);
        let m = entries.index(i - 1).mount@;
        match crate::mounts::seq_get(entries, m) {
            Some(md) => {
                let alts = spec_sort_by_len(spec_alt_mounts(entries, md.source@));
                if alts.len() > 0 {
                    rest.push((m, alts))
                } else {
                    rest
                }
            },
            None => rest,
        }
    }
}

/// The precomputed table of alternate replicated mounts, built once from
/// the whole index before any lookup runs.
pub struct MapOfAlts {
    pub entries: Vec<AltEntry>,
}

impl MapOfAlts {
    /// Precompute the alternate replicated mounts of every indexed mount:
    /// one row per mount with at least one replica, in index order, each
    /// carrying the replicas ascending by mount path length.
    pub fn new(map_of_datasets: &MapOfDatasets) -> (r: MapOfAlts)
        ensures
            ({
                let sp = spec_map_of_alts_upto(
                    map_of_datasets.entries@,
                    map_of_datasets.entries@.len() as int,
                );
                &&& r.entries@.len() == sp.len()
                &&& forall|e: int|
                    0 <= e < r.entries@.len() ==> {
                        &&& (#[trigger] r.entries@.index(e)).mount@ == sp.index(e).0
                        &&& r.entries@.index(e).md.proximate_dataset_mount@ == sp.index(e).0
                        &&& match r.entries@.index(e).md.opt_datasets_of_interest {
                            Some(v) => crate::strutil::views_of(v@) == sp.index(e).1,
                            None => false,
                        }
                    }
            }),
    {
        let ghost entries = map_of_datasets.entries@;
        let mut out: Vec<AltEntry> = Vec::new();
        let n = map_of_datasets.entries.len();
        let mut i: usize = 0;
        while i < n
            invariant
                0 <= i <= n,
                n == entries.len(),
                entries == map_of_datasets.entries@,
                out@.len() == spec_map_of_alts_upto(entries, i as int).len(),
                forall|e: int|
                    0 <= e < out@.len() ==> {
                        &&& (#[trigger] out@.index(e)).mount@ == spec_map_of_alts_upto(
                            entries,
                            i as int,
                        ).index(e).0
                        &&& out@.index(e).md.proximate_dataset_mount@ == spec_map_of_alts_upto(
                            entries,
                            i as int,
                        ).index(e).0
                        &&& match out@.index(e).md.opt_datasets_of_interest {
                            Some(v) => crate::strutil::views_of(v@) == spec_map_of_alts_upto(
                                entries,
                                i as int,
                            ).index(e).1,
                            None => false,
                        }
                    },
            decreases n - i,
        {
            let mount = &map_of_datasets.entries[i].mount;
            match get_alt_replicated_from_mount(mount.as_str(), map_of_datasets) {
                Ok(md) => {
                    let alt_entry = AltEntry { mount: mount.clone(), md };
                    out.push(alt_entry);
                },
                Err(_) => {},
            }
            i += 1;
        }
        MapOfAlts { entries: out }
    }
}

} // verus!
