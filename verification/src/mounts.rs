//! The mount index: an immutable table from mount path to dataset
//! metadata, built once per invocation from the OS mount table or from the
//! output of an external filesystem-listing command, and the verified
//! parsers for both listing formats.

use vstd::prelude::*;

use crate::strutil::{
    contains_seq, spec_replace, spec_split, split_on_char, str_contains, str_eq, replace_all,
    views_of,
};

verus! {

/// The kind of filesystem a dataset lives on. Only ZFS datasets can have
/// their snapshot names resolved.
#[derive(Clone, Copy, Debug, PartialEq, Eq, Structural)]
pub enum FilesystemType {
    Zfs,
    Other,
}

/// What the index records about one dataset.
#[derive(Clone, Debug)]
pub struct DatasetMetadata {
    /// The dataset's source identifier, e.g. a pool-rooted dataset name.
    pub source: String,
    pub fs_type: FilesystemType,
}

/// One row of the index: a mount path and its dataset.
#[derive(Clone, Debug)]
pub struct DatasetEntry {
    pub mount: String,
    pub md: DatasetMetadata,
}

/// The value the index associates with mount path `m`: the first entry with
/// that mount path, if any.
pub open spec fn seq_get(s: Seq<DatasetEntry>, m: Seq<char>) -> Option<DatasetMetadata>
    decreases s.len(),
{
    if s.len() == 0 {
        None
    } else if s.index(0).mount@ == m {
        Some(s.index(0).md)
    } else {
        seq_get(s.drop_first(), m)
    }
}

/// Appending an entry changes only the lookup of a key that was absent.
pub proof fn lemma_seq_get_push(s: Seq<DatasetEntry>, e: DatasetEntry, m: Seq<char>)
    ensures
        seq_get(s.push(e), m) == if seq_get(s, m) is Some {
            seq_get(s, m)
        } else if e.mount@ == m {
            Some(e.md)
        } else {
            None
        },
    decreases s.len(),
{
    if s.len() == 0 {
        assert(s.push(e).index(0) == e);
        assert(s.push(e).drop_first() =~= Seq::<DatasetEntry>::empty());
        assert(seq_get(Seq::<DatasetEntry>::empty(), m) is None);
        assert(seq_get(s, m) is None);
    } else {
        assert(s.push(e).len() == s.len() + 1);
        assert(s.push(e).index(0) == s.index(0));
        assert(s.push(e).drop_first() =~= s.drop_first().push(e));
        lemma_seq_get_push(s.drop_first(), e, m);
    }
}

/// The mount-path → dataset table. Built once, then read-only. Lookups
/// return the first entry for a mount path; `insert` keeps the first
/// binding, so every mount path has at most one effective entry.
#[derive(Clone, Debug)]
pub struct MapOfDatasets {
    pub entries: Vec<DatasetEntry>,
}

impl MapOfDatasets {
    /// The lookup this table denotes.
    pub open spec fn spec_get(&self, m: Seq<char>) -> Option<DatasetMetadata> {
        seq_get(self.entries@, m)
    }

    pub fn new() -> (r: MapOfDatasets)
        ensures
            r.entries@.len() == 0,
    {
        MapOfDatasets { entries: Vec::new() }
    }

    /// The metadata recorded for `mount`, if any.
    pub fn get(&self, mount: &str) -> (r: Option<&DatasetMetadata>)
        ensures
            match r {
                Some(md) => self.spec_get(mount@) == Some(*md),
                None => self.spec_get(mount@) is None,
            },
    {
        let len = self.entries.len();
        proof {
            assert(self.entries@.subrange(0, len as int) =~= self.entries@);
        }
        let mut i: usize = 0;
        while i < len
            invariant
                0 <= i <= len,
                len == self.entries@.len(),
                seq_get(self.entries@, mount@) == seq_get(
                    self.entries@.subrange(i as int, len as int),
                    mount@,
                ),
            decreases len - i,
        {
            let ghost rest = self.entries@.subrange(i as int, len as int);
            let e = &self.entries[i];
            if str_eq(e.mount.as_str(), mount) {
                proof {
                    assert(rest.index(0) == self.entries@.index(i as int));
                }
                return Some(&e.md);
            }
            proof {
                assert(rest.index(0) == self.entries@.index(i as int));
                assert(rest.drop_first() =~= self.entries@.subrange(i + 1, len as int));
            }
            i += 1;
        }
        proof {
            assert(self.entries@.subrange(len as int, len as int) =~= Seq::<
                DatasetEntry,
            >::empty());
        }
        None
    }

    /// Record `mount -> md`, unless `mount` is already bound: the index is
    /// immutable once an entry is in, so the first binding wins.
    pub fn insert(&mut self, mount: String, md: DatasetMetadata)
        ensures
            final(self).spec_get(mount@) == if old(self).spec_get(mount@) is Some {
                old(self).spec_get(mount@)
            } else {
                Some(md)
            },
            forall|m: Seq<char>| m != mount@ ==> final(self).spec_get(m) == old(self).spec_get(m),
    {
        let present = self.get(mount.as_str()).is_some();
        let ghost pre = self.entries@;
        if !present {
            let entry = DatasetEntry { mount, md };
            self.entries.push(entry);
            proof {
                assert forall|m: Seq<char>| true implies seq_get(pre.push(entry), m) == if seq_get(
                    pre,
                    m,
                ) is Some {
                    seq_get(pre, m)
                } else if entry.mount@ == m {
                    Some(entry.md)
                } else {
                    None
                } by {
                    lemma_seq_get_push(pre, entry, m);
                }
            }
        }
    }
}

/// Does a line of the OS mount table name a ZFS mount with a mountpoint
/// field?
pub open spec fn proc_mount_keep(l: Seq<char>) -> bool {
    contains_seq(l, "zfs"@) && spec_split(l, ' ').len() >= 2
}

/// The mountpoint a kept OS mount table line names: its second
/// whitespace-delimited field, with the octal escape for a space written
/// out.
pub open spec fn proc_mount_value(l: Seq<char>) -> Seq<char> {
    spec_replace(spec_split(l, ' ').index(1), "\\040"@, " "@)
}

/// The mountpoints kept from a list of OS mount table lines, in order:
/// the value of each line that the keep test accepts.
pub open spec fn proc_mounts_of_lines(lines: Seq<Seq<char>>) -> Seq<Seq<char>>
    decreases lines.len(),
{
    if lines.len() == 0 {
        Seq::empty()
    } else {
        let rest = proc_mounts_of_lines(lines.drop_last());
        if proc_mount_keep(lines.last()) {
            rest.push(proc_mount_value(lines.last()))
        } else {
            rest
        }
    }
}

/// The mountpoints named by an OS mount table: one per line that mentions
/// the ZFS filesystem kind, in line order.
pub open spec fn spec_parse_proc_mounts(t: Seq<char>) -> Seq<Seq<char>> {
    proc_mounts_of_lines(spec_split(t, '\n'))
}

/// Parse the text of the OS mount table into the mountpoints of its ZFS
/// lines.
pub fn parse_proc_mounts(text: &str) -> (r: Vec<String>)
    ensures
        views_of(r@) == spec_parse_proc_mounts(text@),
{
    proof {
        reveal_strlit("\\040");
        reveal_strlit("\n");
        reveal_strlit(" ");
    }
    let lines = split_on_char(text, "\n");
    let mut out: Vec<String> = Vec::new();
    let len = lines.len();
    let mut i: usize = 0;
    while i < len
        invariant
            0 <= i <= len,
            len == lines@.len(),
            views_of(lines@) == spec_split(text@, '\n'),
            "\\040"@.len() >= 1,
            views_of(out@) == proc_mounts_of_lines(views_of(lines@).take(i as int)),
        decreases len - i,
    {
        let ghost lv = views_of(lines@);
        let line = &lines[i];
        proof {
            reveal_strlit(" ");
            assert(lv.take(i + 1).drop_last() =~= lv.take(i as int));
            assert(lv.take(i + 1).last() == line@);
        }
        if str_contains(line.as_str(), "zfs") {
            let fields = split_on_char(line.as_str(), " ");
            if fields.len() >= 2 {
                let value = replace_all(fields[1].as_str(), "\\040", " ");
                out.push(value);
                proof {
                            assert(proc_mount_keep(line@));
                    assert(value@ == proc_mount_value(line@));
                    assert(views_of(out@) =~~= proc_mounts_of_lines(lv.take(i + 1)));
                }
            } else {
                proof {
                            reveal_strlit(" ");
                    assert(!proc_mount_keep(line@));
                    assert(views_of(out@) =~~= proc_mounts_of_lines(lv.take(i + 1)));
                }
            }
        } else {
            proof {
                    assert(!proc_mount_keep(line@));
                assert(views_of(out@) =~~= proc_mounts_of_lines(lv.take(i + 1)));
            }
        }
        i += 1;
    }
    proof {
        assert(views_of(lines@).take(len as int) =~= views_of(lines@));
    }
    out
}

/// Does a line of the external listing command's output name a mounted
/// filesystem?
pub open spec fn zfs_list_keep(l: Seq<char>) -> bool {
    contains_seq(l, "yes"@)
}

/// The mountpoint a kept listing line names: its first tab-delimited field.
pub open spec fn zfs_list_value(l: Seq<char>) -> Seq<char> {
    spec_split(l, '\t').index(0)
}

/// The mountpoints kept from a list of listing-command lines, in order:
/// the value of each line that the keep test accepts.
pub open spec fn zfs_list_of_lines(lines: Seq<Seq<char>>) -> Seq<Seq<char>>
    decreases lines.len(),
{
    if lines.len() == 0 {
        Seq::empty()
    } else {
        let rest = zfs_list_of_lines(lines.drop_last());
        if zfs_list_keep(lines.last()) {
            rest.push(zfs_list_value(lines.last()))
        } else {
            rest
        }
    }
}

/// The mountpoints named by the external filesystem-listing command's
/// output: one per line whose mounted marker says yes, in line order.
pub open spec fn spec_parse_zfs_list(t: Seq<char>) -> Seq<Seq<char>> {
    zfs_list_of_lines(spec_split(t, '\n'))
}

/// Parse the output of the external filesystem-listing command into the
/// mountpoints of its mounted lines.
pub fn parse_zfs_list(text: &str) -> (r: Vec<String>)
    ensures
        views_of(r@) == spec_parse_zfs_list(text@),
{
    proof {
        reveal_strlit("\n");
        reveal_strlit("\t");
    }
    let lines = split_on_char(text, "\n");
    let mut out: Vec<String> = Vec::new();
    let len = lines.len();
    let mut i: usize = 0;
    while i < len
        invariant
            0 <= i <= len,
            len == lines@.len(),
            views_of(lines@) == spec_split(text@, '\n'),
            views_of(out@) == zfs_list_of_lines(views_of(lines@).take(i as int)),
        decreases len - i,
    {
        let ghost lv = views_of(lines@);
        let line = &lines[i];
        proof {
            reveal_strlit("\t");
            assert(lv.take(i + 1).drop_last() =~= lv.take(i as int));
            assert(lv.take(i + 1).last() == line@);
        }
        if str_contains(line.as_str(), "yes") {
            let fields = split_on_char(line.as_str(), "\t");
            proof {
                crate::strutil::lemma_split_len(line@, '\t');
            }
            let value = fields[0].clone();
            out.push(value);
            proof {
                    assert(value@ == zfs_list_value(line@));
                assert(views_of(out@) =~~= zfs_list_of_lines(lv.take(i + 1)));
            }
        } else {
            proof {
                    assert(views_of(out@) =~~= zfs_list_of_lines(lv.take(i + 1)));
            }
        }
        i += 1;
    }
    proof {
        assert(views_of(lines@).take(len as int) =~= views_of(lines@));
    }
    out
}

} // verus!
