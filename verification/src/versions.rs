//! Enumerating one file's snapshot copies: deduplicating the probed
//! candidates by (modification time, size) with last-write-wins and
//! ordering them ascending, so that the outcome is deterministic whatever
//! order the parallel probes finished in.

use vstd::prelude::*;

use crate::data::{pd_views, PathData, PathDataView};

verus! {

/// Strict ascending order on deduplication keys: by modification time,
/// then by size.
pub open spec fn key_lt(a: (u64, u64), b: (u64, u64)) -> bool {
    a.0 < b.0 || (a.0 == b.0 && a.1 < b.1)
}

/// The keys of `s` ascend strictly.
pub open spec fn sorted_keys(s: Seq<PathDataView>) -> bool {
    forall|a: int, b: int|
        0 <= a < b < s.len() ==> key_lt(
            (#[trigger] s.index(a)).ver_key(),
            (#[trigger] s.index(b)).ver_key(),
        )
}

/// `x` placed into the key-sorted list `s`: appended, substituted for the
/// one entry sharing its key (the newer record wins), or inserted at its
/// ordered position.
pub open spec fn insert_version(s: Seq<PathDataView>, x: PathDataView) -> Seq<PathDataView>
    decreases s.len(),
{
    if s.len() == 0 {
        seq![x]
    } else if key_lt(s.last().ver_key(), x.ver_key()) {
        s.push(x)
    } else if s.last().ver_key() == x.ver_key() {
        s.update(s.len() - 1, x)
    } else {
        insert_version(s.drop_last(), x).push(s.last())
    }
}

/// The deduplicated, ascending list of versions that a candidate list
/// denotes: phantom candidates are dropped, and each non-phantom candidate
/// in turn replaces or joins the list at its key.
pub open spec fn spec_versions(cv: Seq<PathDataView>) -> Seq<PathDataView>
    decreases cv.len(),
{
    if cv.len() == 0 {
        Seq::empty()
    } else {
        let prev = spec_versions(cv.drop_last());
        if cv.last().is_phantom() {
            prev
        } else {
            insert_version(prev, cv.last())
        }
    }
}

/// What `insert_version` guarantees on a sorted list: the result is
/// sorted, holds only `x` and elements of `s`, keeps every key of `s`,
/// and holds `x`'s key.
pub proof fn lemma_insert_version_props(s: Seq<PathDataView>, x: PathDataView)
    requires
        sorted_keys(s),
    ensures
        sorted_keys(insert_version(s, x)),
        forall|j2: int|
            0 <= j2 < insert_version(s, x).len() ==> (exists|j: int|
                0 <= j < s.len() && #[trigger] insert_version(s, x).index(j2) == s.index(j))
                || insert_version(s, x).index(j2) == x,
        forall|j: int|
            0 <= j < s.len() ==> exists|j2: int|
                0 <= j2 < insert_version(s, x).len() && (#[trigger] insert_version(s, x).index(
                    j2,
                )).ver_key() == (#[trigger] s.index(j)).ver_key(),
        exists|j2: int|
            0 <= j2 < insert_version(s, x).len() && (#[trigger] insert_version(s, x).index(
                j2,
            )).ver_key() == x.ver_key(),
    decreases s.len(),
{
    let r = insert_version(s, x);
    if s.len() == 0 {
        assert(r.index(0) == x);
    } else if key_lt(s.last().ver_key(), x.ver_key()) {
        assert(r.index(s.len() as int) == x);
        assert(forall|j: int| 0 <= j < s.len() ==> r.index(j) == s.index(j));
    } else if s.last().ver_key() == x.ver_key() {
        assert(r.index(s.len() - 1) == x);
        assert(forall|j: int| 0 <= j < s.len() - 1 ==> r.index(j) == s.index(j));
        assert forall|j: int| 0 <= j < s.len() implies exists|j2: int|
            0 <= j2 < r.len() && (#[trigger] r.index(j2)).ver_key() == (#[trigger] s.index(
            j,
        )).ver_key() by {
            assert(r.index(j).ver_key() == s.index(j).ver_key());
        }
    } else {
        let sub = s.drop_last();
        assert(sorted_keys(sub)) by {
            assert(forall|j: int| 0 <= j < sub.len() ==> sub.index(j) == s.index(j));
        }
        lemma_insert_version_props(sub, x);
        let r2 = insert_version(sub, x);
        assert(r == r2.push(s.last()));
        assert(forall|j2: int| 0 <= j2 < r2.len() ==> r.index(j2) == r2.index(j2));
        assert(r.index(r2.len() as int) == s.last());
        // every element of r2 has a key strictly below s.last()'s
        assert forall|j2: int| 0 <= j2 < r2.len() implies key_lt(
            r2.index(j2).ver_key(),
            s.last().ver_key(),
        ) by {
            if r2.index(j2) == x {
            } else {
                let j = choose|j: int| 0 <= j < sub.len() && r2.index(j2) == sub.index(j);
                assert(sub.index(j) == s.index(j));
            }
        }
        assert forall|j: int| 0 <= j < s.len() implies exists|j2: int|
            0 <= j2 < r.len() && (#[trigger] r.index(j2)).ver_key() == (#[trigger] s.index(
            j,
        )).ver_key() by {
            if j == s.len() - 1 {
                assert(r.index(r2.len() as int).ver_key() == s.index(j).ver_key());
            } else {
                assert(sub.index(j) == s.index(j));
                let j2 = choose|j2: int|
                    0 <= j2 < r2.len() && (#[trigger] r2.index(j2)).ver_key() == sub.index(
                        j,
                    ).ver_key();
                assert(r.index(j2).ver_key() == s.index(j).ver_key());
            }
        }
        let w = choose|j2: int|
            0 <= j2 < r2.len() && (#[trigger] r2.index(j2)).ver_key() == x.ver_key();
        assert(r.index(w).ver_key() == x.ver_key());
    }
}

/// What the enumerator's outcome guarantees for any candidate list: it is
/// strictly ascending by key — so it holds at most one record per key and
/// is non-decreasing in modification time — every record in it is a
/// non-phantom candidate, and every non-phantom candidate's key is
/// represented.
pub proof fn lemma_spec_versions_props(cv: Seq<PathDataView>)
    ensures
        sorted_keys(spec_versions(cv)),
        forall|j2: int|
            0 <= j2 < spec_versions(cv).len() ==> exists|k: int|
                0 <= k < cv.len() && #[trigger] spec_versions(cv).index(j2) == cv.index(k)
                    && !cv.index(k).is_phantom(),
        forall|k: int|
            0 <= k < cv.len() && !(#[trigger] cv.index(k)).is_phantom() ==> exists|j2: int|
                0 <= j2 < spec_versions(cv).len() && (#[trigger] spec_versions(cv).index(
                    j2,
                )).ver_key() == cv.index(k).ver_key(),
    decreases cv.len(),
{
    let r = spec_versions(cv);
    if cv.len() == 0 {
    } else {
        let sub = cv.drop_last();
        lemma_spec_versions_props(sub);
        let prev = spec_versions(sub);
        assert(forall|k: int| 0 <= k < sub.len() ==> sub.index(k) == cv.index(k));
        if cv.last().is_phantom() {
            assert forall|k: int|
                0 <= k < cv.len() && !(#[trigger] cv.index(k)).is_phantom() implies exists|j2: int|
                0 <= j2 < r.len() && (#[trigger] r.index(j2)).ver_key() == cv.index(
                    k,
                ).ver_key() by {
                assert(k < sub.len());
            }
        } else {
            lemma_insert_version_props(prev, cv.last());
            assert forall|j2: int| 0 <= j2 < r.len() implies exists|k: int|
                0 <= k < cv.len() && #[trigger] r.index(j2) == cv.index(k) && !cv.index(
                    k,
                ).is_phantom() by {
                if r.index(j2) == cv.last() {
                    assert(r.index(j2) == cv.index(cv.len() - 1));
                } else {
                    let jp = choose|jp: int| 0 <= jp < prev.len() && r.index(j2) == prev.index(jp);
                    let k = choose|k: int|
                        0 <= k < sub.len() && #[trigger] prev.index(jp) == sub.index(k)
                            && !sub.index(k).is_phantom();
                    assert(r.index(j2) == cv.index(k));
                }
            }
            assert forall|k: int|
                0 <= k < cv.len() && !(#[trigger] cv.index(k)).is_phantom() implies exists|j2: int|
                0 <= j2 < r.len() && (#[trigger] r.index(j2)).ver_key() == cv.index(
                    k,
                ).ver_key() by {
                if k == cv.len() - 1 {
                } else {
                    let jp = choose|jp: int|
                        0 <= jp < prev.len() && (#[trigger] prev.index(jp)).ver_key() == sub.index(
                            k,
                        ).ver_key();
                    let j2 = choose|j2: int|
                        0 <= j2 < r.len() && (#[trigger] r.index(j2)).ver_key() == prev.index(
                            jp,
                        ).ver_key();
                    assert(r.index(j2).ver_key() == cv.index(k).ver_key());
                }
            }
        }
    }
}

/// Where the search loop stopped is exactly where `insert_version` places
/// `x`: on an equal key it substitutes there, otherwise it inserts there.
pub proof fn lemma_insert_version_at(s: Seq<PathDataView>, x: PathDataView, pos: int)
    requires
        sorted_keys(s),
        0 <= pos <= s.len(),
        forall|j: int| 0 <= j < pos ==> key_lt((#[trigger] s.index(j)).ver_key(), x.ver_key()),
        pos < s.len() ==> !key_lt(s.index(pos).ver_key(), x.ver_key()),
    ensures
        insert_version(s, x) == if pos < s.len() && s.index(pos).ver_key() == x.ver_key() {
            s.update(pos, x)
        } else {
            s.insert(pos, x)
        },
    decreases s.len(),
{
    if s.len() == 0 {
        assert(insert_version(s, x) =~= s.insert(0, x));
    } else if pos == s.len() {
        assert(key_lt(s.last().ver_key(), x.ver_key()));
        assert(insert_version(s, x) =~= s.insert(pos, x));
    } else if pos == s.len() - 1 {
        if s.index(pos).ver_key() == x.ver_key() {
            assert(!key_lt(s.last().ver_key(), x.ver_key()));
            assert(insert_version(s, x) =~= s.update(pos, x));
        } else {
            assert(key_lt(x.ver_key(), s.index(pos).ver_key()));
            let sub = s.drop_last();
            assert(sorted_keys(sub)) by {
                assert(forall|j: int| 0 <= j < sub.len() ==> sub.index(j) == s.index(j));
            }
            lemma_insert_version_at(sub, x, pos);
            assert(insert_version(sub, x) == sub.insert(pos, x));
            assert(insert_version(s, x) =~= s.insert(pos, x));
        }
    } else {
        // pos < s.len() - 1: the last element sits above x's key
        assert(key_lt(s.index(pos).ver_key(), s.last().ver_key()));
        assert(!key_lt(s.last().ver_key(), x.ver_key()));
        assert(s.last().ver_key() != x.ver_key());
        let sub = s.drop_last();
        assert(sorted_keys(sub)) by {
            assert(forall|j: int| 0 <= j < sub.len() ==> sub.index(j) == s.index(j));
        }
        assert(sub.index(pos) == s.index(pos));
        lemma_insert_version_at(sub, x, pos);
        if s.index(pos).ver_key() == x.ver_key() {
            assert(insert_version(sub, x) == sub.update(pos, x));
            assert(insert_version(s, x) =~= s.update(pos, x));
        } else {
            assert(insert_version(sub, x) == sub.insert(pos, x));
            assert(insert_version(s, x) =~= s.insert(pos, x));
        }
    }
}

/// For all candidate lists, the deduplicated result holds exactly one
/// record per distinct (modification time, size) key of the non-phantom
/// candidates: one at least for every such key, and never two records
/// sharing a key.
pub proof fn lemma_dedup_one_per_key(cv: Seq<PathDataView>)
    ensures
        forall|k: int|
            0 <= k < cv.len() && !(#[trigger] cv.index(k)).is_phantom() ==> exists|j: int|
                0 <= j < spec_versions(cv).len() && (#[trigger] spec_versions(cv).index(
                    j,
                )).ver_key() == cv.index(k).ver_key(),
        forall|j1: int, j2: int|
            0 <= j1 < spec_versions(cv).len() && 0 <= j2 < spec_versions(cv).len() && j1 != j2
                ==> (#[trigger] spec_versions(cv).index(j1)).ver_key() != (
            #[trigger] spec_versions(cv).index(j2)).ver_key(),
{
    lemma_spec_versions_props(cv);
}

/// The enumerator's output is non-decreasing in modification time.
pub proof fn lemma_versions_sorted_by_time(cv: Seq<PathDataView>)
    ensures
        forall|a: int, b: int|
            0 <= a < b < spec_versions(cv).len() ==> (#[trigger] spec_versions(cv).index(
                a,
            )).ver_key().0 <= (#[trigger] spec_versions(cv).index(b)).ver_key().0,
{
    lemma_spec_versions_props(cv);
}

/// The shape the enumerator's loop preserves: inserting a non-phantom
/// record into a sorted, phantom-free list leaves it sorted and
/// phantom-free.
proof fn lemma_insert_version_keeps_shape(s: Seq<PathDataView>, x: PathDataView)
    requires
        sorted_keys(s),
        forall|j: int| 0 <= j < s.len() ==> !(#[trigger] s.index(j)).is_phantom(),
        !x.is_phantom(),
    ensures
        sorted_keys(insert_version(s, x)),
        forall|j: int|
            0 <= j < insert_version(s, x).len() ==> !(#[trigger] insert_version(s, x).index(
                j,
            )).is_phantom(),
{
    lemma_insert_version_props(s, x);
    let r = insert_version(s, x);
    assert forall|j: int| 0 <= j < r.len() implies !(#[trigger] r.index(j)).is_phantom() by {
        if r.index(j) != x {
            let k = choose|k: int| 0 <= k < s.len() && r.index(j) == s.index(k);
        }
    }
}

fn key_lt_exec(a: &PathData, b: &PathData) -> (r: bool)
    requires
        !a@.is_phantom(),
        !b@.is_phantom(),
    ensures
        r == key_lt(a@.ver_key(), b@.ver_key()),
{
    match (a.metadata, b.metadata) {
        (Some(ma), Some(mb)) => ma.modify_time < mb.modify_time || (ma.modify_time
            == mb.modify_time && ma.size < mb.size),
        _ => false,
    }
}

fn key_eq_exec(a: &PathData, b: &PathData) -> (r: bool)
    requires
        !a@.is_phantom(),
        !b@.is_phantom(),
    ensures
        r == (a@.ver_key() == b@.ver_key()),
{
    match (a.metadata, b.metadata) {
        (Some(ma), Some(mb)) => ma.modify_time == mb.modify_time && ma.size == mb.size,
        _ => false,
    }
}

/// Deduplicate and order a file's probed snapshot candidates: phantom
/// records are dropped; of several candidates sharing a (modification
/// time, size) key the last wins; the survivors come out in strictly
/// ascending key order.
#[verifier::rlimit(100)]
pub fn get_versions(candidates: &Vec<PathData>) -> (r: Vec<PathData>)
    ensures
        pd_views(r@) == spec_versions(pd_views(candidates@)),
{
    let ghost cv = pd_views(candidates@);
    let mut out: Vec<PathData> = Vec::new();
    let n = candidates.len();
    let mut i: usize = 0;
    proof {
        assert(cv.take(0) =~= Seq::<PathDataView>::empty());
    }
    while i < n
        invariant
            0 <= i <= n,
            n == candidates@.len(),
            cv == pd_views(candidates@),
            pd_views(out@) == spec_versions(cv.take(i as int)),
            sorted_keys(pd_views(out@)),
            forall|j: int|
                0 <= j < pd_views(out@).len() ==> !(#[trigger] pd_views(out@).index(
                    j,
                )).is_phantom(),
        decreases n - i,
    {
        let c = &candidates[i];
        let ghost prev = pd_views(out@);
        proof {
            assert(cv.index(i as int) == c@);
            assert(cv.take(i + 1).drop_last() =~= cv.take(i as int));
            assert(cv.take(i + 1).last() == c@);
        }
        if c.is_phantom() {
        } else {
            let x = c.clone();
            let out_len = out.len();
            proof {
                assert(forall|j: int|
                    0 <= j < out@.len() ==> prev.index(j) == (#[trigger] out@.index(j))@);
            }
            let mut pos: usize = 0;
            while pos < out_len && key_lt_exec(&out[pos], &x)
                invariant
                    0 <= pos <= out_len,
                    out_len == out@.len(),
                    x@ == cv.index(i as int),
                    !x@.is_phantom(),
                    pd_views(out@) == prev,
                    forall|j: int|
                        0 <= j < prev.len() ==> !(#[trigger] prev.index(j)).is_phantom(),
                    forall|j: int|
                        0 <= j < out@.len() ==> prev.index(j) == (#[trigger] out@.index(j))@,
                    forall|j: int|
                        0 <= j < pos ==> key_lt(
                            (#[trigger] prev.index(j)).ver_key(),
                            x@.ver_key(),
                        ),
                decreases out_len - pos,
            {
                pos += 1;
            }
            proof {
                lemma_insert_version_at(prev, x@, pos as int);
                lemma_insert_version_keeps_shape(prev, x@);
            }
            let mut replaced = false;
            if pos < out_len {
                if key_eq_exec(&out[pos], &x) {
                    replaced = true;
                }
            }
            if replaced {
                let _prev_rec = out.remove(pos);
                out.insert(pos, x);
                proof {
                    assert(pd_views(out@) =~~= prev.update(pos as int, x@));
                }
            } else {
                out.insert(pos, x);
                proof {
                    prev.insert_ensures(pos as int, x@);
                    assert(pd_views(out@) =~~= prev.insert(pos as int, x@));
                }
            }
            proof {
                assert(pd_views(out@) == insert_version(prev, x@));
            }
        }
        i += 1;
    }
    proof {
        assert(cv.take(n as int) =~= cv);
    }
    out
}

} // verus!
