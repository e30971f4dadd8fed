//! Resolving a file path to the dataset mount that owns it: among all
//! mounts whose path occurs in the file's parent directory string, the
//! longest wins. The substring test is deliberately permissive, so that
//! differently-rooted local and remote layouts still match.

use vstd::prelude::*;

use crate::errors::{HttmError, HttmErrorKind};
use crate::strutil::{
    contains_seq, find_last_char, last_index_of, lemma_last_index_of, str_contains, views_of,
};

verus! {

/// The best mount for a path with parent directory `parent`: the first of
/// the longest mounts whose path occurs in `parent` as a substring. Ties on
/// length are broken in favour of the earliest entry of the index, so the
/// choice is deterministic for a fixed index.
pub open spec fn spec_best_mount(mounts: Seq<Seq<char>>, parent: Seq<char>) -> Option<Seq<char>>
    decreases mounts.len(),
{
    if mounts.len() == 0 {
        None
    } else {
        let rest = spec_best_mount(mounts.drop_last(), parent);
        let m = mounts.last();
        if contains_seq(parent, m) {
            match rest {
                None => Some(m),
                Some(b) => if m.len() > b.len() {
                    Some(m)
                } else {
                    Some(b)
                },
            }
        } else {
            rest
        }
    }
}

/// `p` with its trailing separators removed, down to at most the bare
/// root.
pub open spec fn trim_trailing_slashes(p: Seq<char>) -> Seq<char>
    decreases p.len(),
{
    if p.len() > 1 && p.last() == '/' {
        trim_trailing_slashes(p.drop_last())
    } else {
        p
    }
}

/// The parent directory of `path`, as a string: trailing separators are
/// normalized away first, then everything before the last separator is
/// the parent — the root for a path directly under it, and empty for a
/// bare name.
pub open spec fn spec_parent_of(p: Seq<char>) -> Seq<char> {
    let trimmed = trim_trailing_slashes(p);
    match last_index_of(trimmed, '/') {
        None => Seq::empty(),
        Some(i) => if i == 0 {
            seq!['/']
        } else {
            trimmed.subrange(0, i)
        },
    }
}

/// The parent directory string of `path`.
pub fn parent_of(path: &str) -> (r: String)
    ensures
        r@ == spec_parent_of(path@),
{
    let len = path.unicode_len();
    let mut end: usize = len;
    proof {
        assert(path@.subrange(0, len as int) =~= path@);
    }
    while end > 1 && path.get_char(end - 1) == '/'
        invariant
            0 <= end <= len,
            len == path@.len(),
            end > 0 || len == 0,
            trim_trailing_slashes(path@) == trim_trailing_slashes(
                path@.subrange(0, end as int),
            ),
        decreases end,
    {
        proof {
            let pre = path@.subrange(0, end as int);
            assert(pre.last() == path@.index(end - 1));
            assert(pre.drop_last() =~= path@.subrange(0, end - 1));
        }
        end -= 1;
    }
    let trimmed = path.substring_char(0, end);
    proof {
        assert(trimmed@ == trim_trailing_slashes(path@));
    }
    match find_last_char(trimmed, '/') {
        None => String::new(),
        Some(i) => {
            if i == 0 {
                let out = "/".to_owned();
                proof {
                    reveal_strlit("/");
                    assert(out@ =~= seq!['/']);
                }
                out
            } else {
                proof {
                    lemma_last_index_of(trimmed@, '/');
                }
                trimmed.substring_char(0, i).to_owned()
            }
        },
    }
}

/// Resolve `file_path` to the mount of the dataset that owns it: the
/// longest of the listed mounts that occurs in the parent directory string
/// of `file_path`. Fails with `NoDatasetFound` exactly when no mount
/// matches.
pub fn get_snapshot_dataset(filesystems: &Vec<String>, file_path: &str) -> (r: Result<
    String,
    HttmError,
>)
    ensures
        match r {
            Ok(m) => spec_best_mount(views_of(filesystems@), spec_parent_of(file_path@)) == Some(
                m@,
            ),
            Err(e) => {
                &&& spec_best_mount(views_of(filesystems@), spec_parent_of(file_path@)) is None
                &&& e.kind == HttmErrorKind::NoDatasetFound
            },
        },
{
    let parent = parent_of(file_path);
    let len = filesystems.len();
    let mut best: Option<String> = None;
    let mut best_len: usize = 0;
    let mut i: usize = 0;
    while i < len
        invariant
            0 <= i <= len,
            len == filesystems@.len(),
            parent@ == spec_parent_of(file_path@),
            match best {
                Some(b) => {
                    &&& spec_best_mount(views_of(filesystems@).take(i as int), parent@) == Some(b@)
                    &&& best_len == b@.len()
                },
                None => spec_best_mount(views_of(filesystems@).take(i as int), parent@) is None,
            },
        decreases len - i,
    {
        let ghost fv = views_of(filesystems@);
        let fs = &filesystems[i];
        proof {
            assert(fv.take(i + 1).drop_last() =~= fv.take(i as int));
            assert(fv.take(i + 1).last() == fs@);
        }
        if str_contains(parent.as_str(), fs.as_str()) {
            let fs_len = fs.as_str().unicode_len();
            match best {
                None => {
                    best = Some(fs.clone());
                    best_len = fs_len;
                },
                Some(_) => {
                    if fs_len > best_len {
                        best = Some(fs.clone());
                        best_len = fs_len;
                    }
                },
            }
        }
        i += 1;
    }
    proof {
        assert(views_of(filesystems@).take(len as int) =~= views_of(filesystems@));
    }
    match best {
        Some(b) => Ok(b),
        None => Err(
            HttmError::new(
                HttmErrorKind::NoDatasetFound,
                "Could not identify any qualifying dataset. Maybe consider specifying manually?".to_owned(),
            ),
        ),
    }
}

/// Resolving the same path twice against an unchanged index yields the same
/// mount: the selection is a function of the index and the parent string
/// alone.
pub proof fn lemma_resolve_deterministic(
    mounts: Seq<Seq<char>>,
    parent: Seq<char>,
    r1: Option<Seq<char>>,
    r2: Option<Seq<char>>,
)
    requires
        r1 == spec_best_mount(mounts, parent),
        r2 == spec_best_mount(mounts, parent),
    ensures
        r1 == r2,
{
}

/// What `spec_best_mount` selects is a matching mount of maximal length.
pub proof fn lemma_best_mount_is_longest_match(mounts: Seq<Seq<char>>, parent: Seq<char>)
    ensures
        match spec_best_mount(mounts, parent) {
            Some(b) => {
                &&& mounts.contains(b)
                &&& contains_seq(parent, b)
                &&& forall|k: int|
                    0 <= k < mounts.len() && contains_seq(parent, #[trigger] mounts.index(k))
                        ==> mounts.index(k).len() <= b.len()
            },
            None => forall|k: int|
                0 <= k < mounts.len() ==> !contains_seq(parent, #[trigger] mounts.index(k)),
        },
    decreases mounts.len(),
{
    if mounts.len() > 0 {
        lemma_best_mount_is_longest_match(mounts.drop_last(), parent);
        assert(forall|k: int|
            0 <= k < mounts.len() - 1 ==> mounts.drop_last().index(k) == mounts.index(k));
        match spec_best_mount(mounts, parent) {
            Some(b) => {
                if b != mounts.last() {
                    assert(mounts.drop_last().contains(b));
                    let w = choose|w: int|
                        0 <= w < mounts.drop_last().len() && mounts.drop_last().index(w) == b;
                    assert(mounts.index(w) == b);
                }
            },
            None => {},
        }
    }
}

} // verus!
