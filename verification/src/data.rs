//! The records the lookup pipeline works on: a path together with the
//! metadata of the file found there, or a phantom marker when no file
//! currently exists at that path.

use vstd::prelude::*;

verus! {

/// Size and modification time of a file. Times are seconds since the Unix
/// epoch.
#[derive(Clone, Copy, Debug, PartialEq, Eq, Structural)]
pub struct PathMetadata {
    pub size: u64,
    pub modify_time: u64,
}

/// A path and what was found there. `metadata == None` marks a phantom
/// record: the requested path does not currently exist.
#[derive(Debug)]
pub struct PathData {
    pub path_buf: String,
    pub metadata: Option<PathMetadata>,
}

/// The mathematical value of a `PathData`: the path's characters and the
/// metadata.
pub struct PathDataView {
    pub path: Seq<char>,
    pub metadata: Option<PathMetadata>,
}

impl PathDataView {
    /// Does this record mark a path with no current file?
    pub open spec fn is_phantom(&self) -> bool {
        self.metadata is None
    }

    /// The deduplication key of a non-phantom record: modification time,
    /// then size.
    pub open spec fn ver_key(&self) -> (u64, u64)
        recommends
            !self.is_phantom(),
    {
        (self.metadata->Some_0.modify_time, self.metadata->Some_0.size)
    }
}

impl View for PathData {
    type V = PathDataView;

    open spec fn view(&self) -> PathDataView {
        PathDataView { path: self.path_buf@, metadata: self.metadata }
    }
}

impl Clone for PathData {
    fn clone(&self) -> (r: Self)
        ensures
            r@ == self@,
    {
        PathData { path_buf: self.path_buf.clone(), metadata: self.metadata }
    }
}

impl PathData {
    /// Does this record mark a path with no current file?
    pub fn is_phantom(&self) -> (r: bool)
        ensures
            r == self@.is_phantom(),
    {
        self.metadata.is_none()
    }

    pub fn new(path_buf: String, metadata: Option<PathMetadata>) -> (r: PathData)
        ensures
            r@.path == path_buf@,
            r@.metadata == metadata,
    {
        PathData { path_buf, metadata }
    }
}

/// The views of a list of records.
pub open spec fn pd_views(s: Seq<PathData>) -> Seq<PathDataView> {
    s.map_values(|p: PathData| p@)
}

/// Clone a list of records, preserving every view.
pub fn clone_path_vec(v: &Vec<PathData>) -> (r: Vec<PathData>)
    ensures
        pd_views(r@) == pd_views(v@),
{
    let mut out: Vec<PathData> = Vec::new();
    let len = v.len();
    let mut i: usize = 0;
    while i < len
        invariant
            0 <= i <= len,
            len == v@.len(),
            out@.len() == i,
            forall|j: int| 0 <= j < i ==> out@.index(j)@ == v@.index(j)@,
        decreases len - i,
    {
        let item = v[i].clone();
        out.push(item);
        i += 1;
    }
    proof {
        assert(pd_views(out@) =~~= pd_views(v@));
    }
    out
}

} // verus!
