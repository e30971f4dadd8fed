//! Rendering lookup results as text. Timestamps and sizes are rendered as
//! plain decimal fields — human-readable date and unit formatting is a
//! caller's concern — and live paths are not colorized; what this module
//! pins down is the exact layout: fields, padding, borders, delimiters and
//! the per-file grouping.

use vstd::prelude::*;

use crate::config::{BulkExclusion, Config, PrintMode};
use crate::data::{pd_views, PathData, PathDataView, PathMetadata};
use crate::lookup::{VersionsEntry, VersionsMap};
use crate::strutil::{repeat_str, spec_digits, spec_repeat, u64_to_string};

verus! {

/// Relies on terminal_size::terminal_size for the width of the attached
/// terminal, if any. The value depends on the environment, so nothing is
/// promised of it.
#[verifier::external_body]
fn term_width() -> (r: Option<u16>) {
    match terminal_size::terminal_size() {
        Some((terminal_size::Width(w), _)) => Some(w),
        None => None,
    }
}

/// The metadata a record is rendered with: phantom records render the
/// dummy zero metadata.
pub open spec fn md_or_dummy(p: PathDataView) -> PathMetadata {
    match p.metadata {
        Some(m) => m,
        None => PathMetadata { size: 0, modify_time: 0 },
    }
}

/// The date field: the modification time in decimal, or blanks of the
/// dummy's width for a phantom record.
pub open spec fn spec_date_field(p: PathDataView) -> Seq<char> {
    match p.metadata {
        Some(m) => spec_digits(m.modify_time as nat),
        None => spec_repeat(" "@, spec_digits(0).len() as int),
    }
}

/// The size field before padding: the size in decimal, or blanks of the
/// dummy's width for a phantom record.
pub open spec fn spec_size_field(p: PathDataView) -> Seq<char> {
    match p.metadata {
        Some(m) => spec_digits(m.size as nat),
        None => spec_repeat(" "@, spec_digits(0).len() as int),
    }
}

/// `s` padded on the left with blanks to width `w`.
pub open spec fn spec_pad_left(s: Seq<char>, w: int) -> Seq<char> {
    spec_repeat(" "@, w - s.len()) + s
}

/// One record's output line: tab-delimited in the plain mode, else
/// padded, with the path quoted.
pub open spec fn spec_format_line(p: PathDataView, pm: PrintMode, w: int) -> Seq<char> {
    if pm == PrintMode::FormattedNotPretty {
        spec_date_field(p) + "\t"@ + spec_size_field(p) + "\t"@ + p.path + "\n"@
    } else {
        spec_date_field(p) + "  "@ + spec_pad_left(spec_size_field(p), w) + "  "@ + "\""@ + p.path
            + "\""@ + "\n"@
    }
}

/// Pad `s` on the left with blanks to width `w`.
fn pad_left(s: &str, w: usize) -> (r: String)
    ensures
        r@ == spec_pad_left(s@, w as int),
{
    let s_len = s.unicode_len();
    let fill: usize = if s_len >= w {
        0
    } else {
        w - s_len
    };
    let mut out = repeat_str(" ", fill);
    out.append(s);
    proof {
        if s_len >= w {
            assert(out@ =~= spec_pad_left(s@, w as int));
        }
    }
    out
}

/// The decimal field of a record's date or size, or the phantom blanks.
fn num_field(md: &Option<PathMetadata>, date: bool) -> (r: String)
    ensures
        match md {
            Some(m) => r@ == spec_digits(
                (if date {
                    m.modify_time
                } else {
                    m.size
                }) as nat,
            ),
            None => r@ == spec_repeat(" "@, spec_digits(0).len() as int),
        },
{
    match md {
        Some(m) => u64_to_string(
            if date {
                m.modify_time
            } else {
                m.size
            },
        ),
        None => {
            let zero = u64_to_string(0);
            repeat_str(" ", zero.as_str().unicode_len())
        },
    }
}

impl PathData {
    /// Render one record as a line. The live set is rendered the same as
    /// the snapshot set: colorizing live paths is a caller's concern, so
    /// `is_live_set` does not change the text.
    pub fn format(&self, config: &Config, is_live_set: bool, padding_collection:
        &PaddingCollection) -> (r: String)
        ensures
            r@ == spec_format_line(self@, config.print_mode, padding_collection.size_padding_len as int),
    {
        let date = num_field(&self.metadata, true);
        let size = num_field(&self.metadata, false);
        let _ = is_live_set;
        if matches!(config.print_mode, PrintMode::FormattedNotPretty) {
            let mut out = date;
            out.append("\t");
            out.append(size.as_str());
            out.append("\t");
            out.append(self.path_buf.as_str());
            out.append("\n");
            out
        } else {
            let padded = pad_left(size.as_str(), padding_collection.size_padding_len);
            let mut out = date;
            out.append("  ");
            out.append(padded.as_str());
            out.append("  ");
            out.append("\"");
            out.append(self.path_buf.as_str());
            out.append("\"");
            out.append("\n");
            out
        }
    }
}

/// The width of a record's size field.
pub open spec fn spec_size_w(p: PathDataView) -> int {
    spec_size_field(p).len() as int
}

/// The widest size field over `s`.
pub open spec fn max_size_len(s: Seq<PathDataView>) -> int
    decreases s.len(),
{
    if s.len() == 0 {
        0
    } else {
        let rest = max_size_len(s.drop_last());
        if spec_size_w(s.last()) > rest {
            spec_size_w(s.last())
        } else {
            rest
        }
    }
}

/// The unpadded width of a record's line: date, size, path, the two fixed
/// paddings and the two quotation marks.
pub open spec fn spec_line_len(p: PathDataView) -> int {
    spec_date_field(p).len() + spec_size_w(p) + p.path.len() + 6
}

/// The widest line over `s`.
pub open spec fn max_line_len(s: Seq<PathDataView>) -> int
    decreases s.len(),
{
    if s.len() == 0 {
        0
    } else {
        let rest = max_line_len(s.drop_last());
        if spec_line_len(s.last()) > rest {
            spec_line_len(s.last())
        } else {
            rest
        }
    }
}

/// The two result sets of one file, as they are displayed: the snapshot
/// versions, then the live records.
pub struct DisplaySet {
    pub snaps: Vec<PathData>,
    pub live: Vec<PathData>,
}

impl DisplaySet {
    /// Assemble a display set from the requested files (the live set) and
    /// their snapshot versions.
    pub fn from(keys: Vec<PathData>, values: Vec<PathData>) -> (r: DisplaySet)
        ensures
            r.snaps == values,
            r.live == keys,
    {
        DisplaySet { snaps: values, live: keys }
    }
}

/// Does the bulk exclusion keep the set at `idx` (0 the snapshot set, 1
/// the live set)?
pub open spec fn spec_filter_bulk_exclusions(idx: int, excl: Option<BulkExclusion>) -> bool {
    match excl {
        Some(BulkExclusion::NoLive) => idx != 1,
        Some(BulkExclusion::NoSnap) => idx != 0,
        None => true,
    }
}

/// Keep or drop one of the two result sets under the configured bulk
/// exclusion.
pub fn filter_bulk_exclusions(idx: &usize, config: &Config) -> (r: bool)
    ensures
        r == spec_filter_bulk_exclusions(*idx as int, config.opt_bulk_exclusion),
{
    let is_snap_set = *idx == 0;
    let is_live_set = *idx == 1;
    match config.opt_bulk_exclusion {
        Some(BulkExclusion::NoLive) => !is_live_set,
        Some(BulkExclusion::NoSnap) => !is_snap_set,
        None => true,
    }
}

/// The concatenated lines of one set of records.
pub open spec fn spec_component(s: Seq<PathDataView>, pm: PrintMode, w: int) -> Seq<char>
    decreases s.len(),
{
    if s.len() == 0 {
        Seq::empty()
    } else {
        spec_component(s.drop_last(), pm, w) + spec_format_line(s.last(), pm, w)
    }
}

/// One display set rendered whole: in the plain mode the two components
/// in order; otherwise the snapshot component framed by border lines —
/// collapsed to a single border when empty — and the live component
/// closed by one more border.
pub open spec fn spec_display_set_format(
    snaps: Seq<PathDataView>,
    live: Seq<PathDataView>,
    pm: PrintMode,
    excl: Option<BulkExclusion>,
    w: int,
    border: Seq<char>,
) -> Seq<char> {
    let snap_part = if spec_filter_bulk_exclusions(0, excl) {
        let comp = spec_component(snaps, pm, w);
        if pm == PrintMode::FormattedNotPretty {
            comp
        } else if comp.len() == 0 {
            border
        } else {
            border + comp + border
        }
    } else {
        Seq::empty()
    };
    let live_part = if spec_filter_bulk_exclusions(1, excl) {
        let comp = spec_component(live, pm, w);
        if pm == PrintMode::FormattedNotPretty {
            comp
        } else {
            comp + border
        }
    } else {
        Seq::empty()
    };
    snap_part + live_part
}

fn component(records: &Vec<PathData>, config: &Config, is_live_set: bool, padding_collection:
    &PaddingCollection) -> (r: String)
    ensures
        r@ == spec_component(
            pd_views(records@),
            config.print_mode,
            padding_collection.size_padding_len as int,
        ),
{
    let ghost rv = pd_views(records@);
    let mut out = String::new();
    let len = records.len();
    let mut i: usize = 0;
    proof {
        assert(rv.take(0) =~= Seq::<PathDataView>::empty());
    }
    while i < len
        invariant
            0 <= i <= len,
            len == records@.len(),
            rv == pd_views(records@),
            out@ == spec_component(
                rv.take(i as int),
                config.print_mode,
                padding_collection.size_padding_len as int,
            ),
        decreases len - i,
    {
        proof {
            assert(rv.take(i + 1).drop_last() =~= rv.take(i as int));
            assert(rv.take(i + 1).last() == records@.index(i as int)@);
        }
        let line = records[i].format(config, is_live_set, padding_collection);
        out.append(line.as_str());
        i += 1;
    }
    proof {
        assert(rv.take(len as int) =~= rv);
    }
    out
}

impl DisplaySet {
    /// Render this display set whole.
    pub fn format(&self, config: &Config, padding_collection: &PaddingCollection) -> (r: String)
        ensures
            r@ == spec_display_set_format(
                pd_views(self.snaps@),
                pd_views(self.live@),
                config.print_mode,
                config.opt_bulk_exclusion,
                padding_collection.size_padding_len as int,
                padding_collection.fancy_border_string@,
            ),
    {
        let mut out = String::new();
        if filter_bulk_exclusions(&0, config) {
            let comp = component(&self.snaps, config, false, padding_collection);
            if matches!(config.print_mode, PrintMode::FormattedNotPretty) {
                out.append(comp.as_str());
            } else if comp.as_str().unicode_len() == 0 {
                out.append(padding_collection.fancy_border_string.as_str());
            } else {
                out.append(padding_collection.fancy_border_string.as_str());
                out.append(comp.as_str());
                out.append(padding_collection.fancy_border_string.as_str());
            }
        }
        if filter_bulk_exclusions(&1, config) {
            let comp = component(&self.live, config, true, padding_collection);
            if matches!(config.print_mode, PrintMode::FormattedNotPretty) {
                out.append(comp.as_str());
            } else {
                out.append(comp.as_str());
                out.append(padding_collection.fancy_border_string.as_str());
            }
        }
        out
    }
}

/// `v` capped at the machine word: line measuring saturates there rather
/// than overflow on absurd path lengths.
pub open spec fn spec_capped_line(v: int) -> int {
    if v > usize::MAX as int {
        usize::MAX as int
    } else {
        v
    }
}

/// The border rule: as long as the widest line, shortened to the
/// terminal's width when one is attached.
pub open spec fn spec_border_len(w: Option<u16>, widest: int) -> int {
    match w {
        Some(x) => if (x as int) < widest {
            x as int
        } else {
            widest
        },
        None => widest,
    }
}

/// The border a measured batch gets under terminal width `w`: the
/// horizontal glyph repeated per the border rule, then a newline.
pub open spec fn spec_border(w: Option<u16>, all: Seq<PathDataView>) -> Seq<char> {
    spec_repeat("\u{2500}"@, spec_border_len(w, spec_capped_line(max_line_len(all)))) + "\n"@
}

/// Shorten the measured width to the terminal's, when one is attached.
fn border_len_for(opt_width: Option<u16>, widest: usize) -> (r: usize)
    ensures
        r as int == spec_border_len(opt_width, widest as int),
{
    match opt_width {
        Some(w) => if (w as usize) < widest {
            w as usize
        } else {
            widest
        },
        None => widest,
    }
}

/// The widths and filler strings one rendering pass shares: the size
/// column's width, the horizontal border, and the blanks phantom records
/// are rendered with.
pub struct PaddingCollection {
    pub size_padding_len: usize,
    pub fancy_border_string: String,
    pub phantom_date_pad_str: String,
    pub phantom_size_pad_str: String,
}

impl PaddingCollection {
    /// Measure a display set: the size column is as wide as its widest
    /// entry, and the border as long as the widest line, shortened to the
    /// terminal's width when one is attached (so only its length varies
    /// with the environment).
    pub fn new(config: &Config, display_set: &DisplaySet) -> (r: PaddingCollection)
        ensures
            ({
                let all = pd_views(display_set.snaps@) + pd_views(display_set.live@);
                &&& r.size_padding_len as int == max_size_len(all)
                &&& r.phantom_date_pad_str@ == spec_repeat(" "@, spec_digits(0).len() as int)
                &&& r.phantom_size_pad_str@ == spec_repeat(" "@, spec_digits(0).len() as int)
                &&& exists|w: Option<u16>| r.fancy_border_string@ == spec_border(w, all)
            }),
    {
        let ghost all = pd_views(display_set.snaps@) + pd_views(display_set.live@);
        let mut size_padding_len: usize = 0;
        let mut fancy_border_len: usize = 0;
        let snaps_len = display_set.snaps.len();
        let live_len = display_set.live.len();
        let mut i: usize = 0;
        proof {
            assert(all.take(0) =~= Seq::<PathDataView>::empty());
        }
        while i < snaps_len
            invariant
                0 <= i <= snaps_len,
                snaps_len == display_set.snaps@.len(),
                live_len == display_set.live@.len(),
                all == pd_views(display_set.snaps@) + pd_views(display_set.live@),
                size_padding_len as int == max_size_len(all.take(i as int)),
                fancy_border_len as int == spec_capped_line(max_line_len(all.take(i as int))),
            decreases snaps_len - i,
        {
            let p: &PathData = &display_set.snaps[i];
            proof {
                assert(all.index(i as int) == p@);
                assert(all.take(i + 1).drop_last() =~= all.take(i as int));
                assert(all.take(i + 1).last() == p@);
            }
            let date = num_field(&p.metadata, true);
            let size = num_field(&p.metadata, false);
            let size_w = size.as_str().unicode_len();
            let date_w = date.as_str().unicode_len();
            let path_w = p.path_buf.as_str().unicode_len();
            if size_w > size_padding_len {
                size_padding_len = size_w;
            }
            let line_w: usize = if date_w <= usize::MAX - 6 && size_w <= usize::MAX - 6 - date_w
                && path_w <= usize::MAX - 6 - date_w - size_w {
                date_w + size_w + path_w + 6
            } else {
                usize::MAX
            };
            proof {
                assert(spec_size_w(p@) == size_w as int);
                assert(line_w as int == spec_capped_line(spec_line_len(p@)));
            }
            if line_w > fancy_border_len {
                fancy_border_len = line_w;
            }
            i += 1;
        }
        let mut k: usize = 0;
        while k < live_len
            invariant
                0 <= k <= live_len,
                snaps_len == display_set.snaps@.len(),
                live_len == display_set.live@.len(),
                all == pd_views(display_set.snaps@) + pd_views(display_set.live@),
                size_padding_len as int == max_size_len(all.take(snaps_len + k)),
                fancy_border_len as int == spec_capped_line(max_line_len(all.take(snaps_len + k))),
            decreases live_len - k,
        {
            let p: &PathData = &display_set.live[k];
            proof {
                assert(all.index(snaps_len + k) == p@);
                assert(all.take(snaps_len + k + 1).drop_last() =~= all.take(snaps_len + k));
                assert(all.take(snaps_len + k + 1).last() == p@);
            }
            let date = num_field(&p.metadata, true);
            let size = num_field(&p.metadata, false);
            let size_w = size.as_str().unicode_len();
            let date_w = date.as_str().unicode_len();
            let path_w = p.path_buf.as_str().unicode_len();
            if size_w > size_padding_len {
                size_padding_len = size_w;
            }
            let line_w: usize = if date_w <= usize::MAX - 6 && size_w <= usize::MAX - 6 - date_w
                && path_w <= usize::MAX - 6 - date_w - size_w {
                date_w + size_w + path_w + 6
            } else {
                usize::MAX
            };
            proof {
                assert(spec_size_w(p@) == size_w as int);
                assert(line_w as int == spec_capped_line(spec_line_len(p@)));
            }
            if line_w > fancy_border_len {
                fancy_border_len = line_w;
            }
            k += 1;
        }
        proof {
            assert(all.take(snaps_len + live_len as int) =~= all);
        }
        let opt_width = term_width();
        let border_len = border_len_for(opt_width, fancy_border_len);
        let mut fancy_border_string = repeat_str("\u{2500}", border_len);
        fancy_border_string.append("\n");
        proof {
            assert(fancy_border_string@ == spec_border(opt_width, all));
        }
        let zero = u64_to_string(0);
        let phantom_date_pad_str = repeat_str(" ", zero.as_str().unicode_len());
        let phantom_size_pad_str = repeat_str(" ", zero.as_str().unicode_len());
        PaddingCollection {
            size_padding_len,
            fancy_border_string,
            phantom_date_pad_str,
            phantom_size_pad_str,
        }
    }
}

/// The record separator of the raw modes: NUL for zero-terminated output,
/// else a newline.
pub open spec fn spec_delimiter(pm: PrintMode) -> Seq<char> {
    if pm == PrintMode::RawZero {
        "\u{0}"@
    } else {
        "\n"@
    }
}

/// The raw rendering of one set: each path followed by the delimiter.
pub open spec fn spec_raw_set(s: Seq<PathDataView>, pm: PrintMode) -> Seq<char>
    decreases s.len(),
{
    if s.len() == 0 {
        Seq::empty()
    } else {
        spec_raw_set(s.drop_last(), pm) + s.last().path + spec_delimiter(pm)
    }
}

fn raw_set(records: &Vec<PathData>, config: &Config) -> (r: String)
    ensures
        r@ == spec_raw_set(pd_views(records@), config.print_mode),
{
    let ghost rv = pd_views(records@);
    let mut out = String::new();
    let len = records.len();
    let mut i: usize = 0;
    proof {
        assert(rv.take(0) =~= Seq::<PathDataView>::empty());
    }
    while i < len
        invariant
            0 <= i <= len,
            len == records@.len(),
            rv == pd_views(records@),
            out@ == spec_raw_set(rv.take(i as int), config.print_mode),
        decreases len - i,
    {
        proof {
            assert(rv.take(i + 1).drop_last() =~= rv.take(i as int));
            assert(rv.take(i + 1).last() == records@.index(i as int)@);
        }
        out.append(records[i].path_buf.as_str());
        if matches!(config.print_mode, PrintMode::RawZero) {
            out.append("\u{0}");
        } else {
            out.append("\n");
        }
        i += 1;
    }
    proof {
        assert(rv.take(len as int) =~= rv);
    }
    out
}

/// One lookup entry rendered: the formatted modes render its display set;
/// the raw modes render its sets bare, under the bulk exclusion.
pub open spec fn spec_entry_format(
    e: VersionsEntry,
    pm: PrintMode,
    excl: Option<BulkExclusion>,
    w: int,
    border: Seq<char>,
) -> Seq<char> {
    if pm == PrintMode::FormattedDefault || pm == PrintMode::FormattedNotPretty {
        spec_display_set_format(
            pd_views(e.versions@),
            seq![e.key@],
            pm,
            excl,
            w,
            border,
        )
    } else {
        (if spec_filter_bulk_exclusions(0, excl) {
            spec_raw_set(pd_views(e.versions@), pm)
        } else {
            Seq::empty()
        }) + (if spec_filter_bulk_exclusions(1, excl) {
            spec_raw_set(seq![e.key@], pm)
        } else {
            Seq::empty()
        })
    }
}

/// Every entry rendered, in request order.
pub open spec fn spec_entries_format(
    entries: Seq<VersionsEntry>,
    pm: PrintMode,
    excl: Option<BulkExclusion>,
    w: int,
    border: Seq<char>,
) -> Seq<char>
    decreases entries.len(),
{
    if entries.len() == 0 {
        Seq::empty()
    } else {
        spec_entries_format(entries.drop_last(), pm, excl, w, border) + spec_entry_format(
            entries.last(),
            pm,
            excl,
            w,
            border,
        )
    }
}

/// The live records a batch shows: each entry's requested file, in order.
pub open spec fn keys_of(entries: Seq<VersionsEntry>) -> Seq<PathDataView>
    decreases entries.len(),
{
    if entries.len() == 0 {
        Seq::empty()
    } else {
        keys_of(entries.drop_last()).push(entries.last().key@)
    }
}

/// The snapshot records a batch shows: every entry's versions,
/// concatenated in order.
pub open spec fn values_of(entries: Seq<VersionsEntry>) -> Seq<PathDataView>
    decreases entries.len(),
{
    if entries.len() == 0 {
        Seq::empty()
    } else {
        values_of(entries.drop_last()) + pd_views(entries.last().versions@)
    }
}

/// The whole rendering, a function of the batch, the configuration and
/// the terminal width alone: padding and border measured over the whole
/// batch, then the single-file display set or every entry in turn. Two
/// renders of one batch under one terminal width are the same text.
pub open spec fn spec_wrapper_format(
    entries: Seq<VersionsEntry>,
    pm: PrintMode,
    excl: Option<BulkExclusion>,
    w: Option<u16>,
) -> Seq<char> {
    let all = values_of(entries) + keys_of(entries);
    let pad = max_size_len(all);
    let border = spec_border(w, all);
    if (pm == PrintMode::FormattedDefault || pm == PrintMode::FormattedNotPretty)
        && entries.len() == 1 {
        spec_display_set_format(
            pd_views(entries.index(0).versions@),
            seq![entries.index(0).key@],
            pm,
            excl,
            pad,
            border,
        )
    } else {
        spec_entries_format(entries, pm, excl, pad, border)
    }
}

/// A batch lookup result paired with the configuration it is rendered
/// under.
pub struct VersionsDisplayWrapper<'a> {
    pub config: &'a Config,
    pub map: VersionsMap,
}

impl<'a> VersionsDisplayWrapper<'a> {
    pub fn from(config: &'a Config, map: VersionsMap) -> (r: Self)
        ensures
            r.map == map,
            r.config == config,
    {
        Self { config, map }
    }

    /// Render the whole batch: a single file in a formatted mode renders
    /// its global display set once; otherwise every entry is rendered in
    /// turn, with the padding measured over the whole batch.
    pub fn format(&self) -> (r: String)
        ensures
            exists|w: Option<u16>|
                r@ == spec_wrapper_format(
                    self.map.entries@,
                    self.config.print_mode,
                    self.config.opt_bulk_exclusion,
                    w,
                ),
    {
        let ghost entsq = self.map.entries@;
        // measure the whole batch: all requested files and all versions
        let mut keys: Vec<PathData> = Vec::new();
        let mut values: Vec<PathData> = Vec::new();
        let n = self.map.entries.len();
        let mut i: usize = 0;
        proof {
            assert(entsq.take(0) =~= Seq::<VersionsEntry>::empty());
            assert(pd_views(keys@) =~~= keys_of(entsq.take(0)));
            assert(pd_views(values@) =~~= values_of(entsq.take(0)));
        }
        while i < n
            invariant
                0 <= i <= n,
                n == self.map.entries@.len(),
                entsq == self.map.entries@,
                pd_views(keys@) == keys_of(entsq.take(i as int)),
                pd_views(values@) == values_of(entsq.take(i as int)),
            decreases n - i,
        {
            let e = &self.map.entries[i];
            proof {
                assert(entsq.take(i + 1).drop_last() =~= entsq.take(i as int));
                assert(entsq.take(i + 1).last() == e);
            }
            keys.push(e.key.clone());
            proof {
                assert(pd_views(keys@) =~~= keys_of(entsq.take(i + 1)));
            }
            let mut vs = crate::data::clone_path_vec(&e.versions);
            values.append(&mut vs);
            proof {
                assert(pd_views(values@) =~~= values_of(entsq.take(i + 1)));
            }
            i += 1;
        }
        proof {
            assert(entsq.take(n as int) =~= entsq);
        }
        let ghost all_g = values_of(entsq) + keys_of(entsq);
        let global_set = DisplaySet::from(keys, values);
        let padding_collection = PaddingCollection::new(self.config, &global_set);
        proof {
            assert(all_g == pd_views(global_set.snaps@) + pd_views(global_set.live@));
        }
        let ghost tw = choose|w: Option<u16>|
            padding_collection.fancy_border_string@ == spec_border(w, all_g);
        let formatted = matches!(
            self.config.print_mode,
            PrintMode::FormattedDefault | PrintMode::FormattedNotPretty
        );
        if formatted && n == 1 {
            let e = &self.map.entries[0];
            let one_key = e.key.clone();
            let versions = crate::data::clone_path_vec(&e.versions);
            let mut ks: Vec<PathData> = Vec::new();
            ks.push(one_key);
            let ds = DisplaySet::from(ks, versions);
            let out = ds.format(self.config, &padding_collection);
            proof {
                assert(pd_views(ds.live@) =~~= seq![self.map.entries@.index(0).key@]);
                assert(pd_views(ds.snaps@) =~~= pd_views(self.map.entries@.index(0).versions@));
                assert(out@ == spec_wrapper_format(
                    entsq,
                    self.config.print_mode,
                    self.config.opt_bulk_exclusion,
                    tw,
                ));
            }
            return out;
        }
        let ghost entries = self.map.entries@;
        let mut out = String::new();
        let mut e: usize = 0;
        proof {
            assert(entries.take(0) =~= Seq::<VersionsEntry>::empty());
        }
        while e < n
            invariant
                0 <= e <= n,
                n == self.map.entries@.len(),
                entries == self.map.entries@,
                out@ == spec_entries_format(
                    entries.take(e as int),
                    self.config.print_mode,
                    self.config.opt_bulk_exclusion,
                    padding_collection.size_padding_len as int,
                    padding_collection.fancy_border_string@,
                ),
            decreases n - e,
        {
            let entry = &self.map.entries[e];
            proof {
                assert(entries.take(e + 1).drop_last() =~= entries.take(e as int));
                assert(entries.take(e + 1).last() == entry);
            }
            if matches!(
                self.config.print_mode,
                PrintMode::FormattedDefault | PrintMode::FormattedNotPretty
            ) {
                let one_key = entry.key.clone();
                let versions = crate::data::clone_path_vec(&entry.versions);
                let mut ks: Vec<PathData> = Vec::new();
                ks.push(one_key);
                let ds = DisplaySet::from(ks, versions);
                let part = ds.format(self.config, &padding_collection);
                out.append(part.as_str());
                proof {
                    assert(pd_views(ds.live@) =~~= seq![entry.key@]);
                    assert(pd_views(ds.snaps@) =~~= pd_views(entry.versions@));
                }
            } else {
                if filter_bulk_exclusions(&0, self.config) {
                    let part = raw_set(&entry.versions, self.config);
                    out.append(part.as_str());
                }
                if filter_bulk_exclusions(&1, self.config) {
                    let mut ks: Vec<PathData> = Vec::new();
                    ks.push(entry.key.clone());
                    let part = raw_set(&ks, self.config);
                    out.append(part.as_str());
                    proof {
                        assert(pd_views(ks@) =~~= seq![entry.key@]);
                    }
                }
            }
            e += 1;
        }
        proof {
            assert(entries.take(n as int) =~= entries);
            assert(out@ == spec_wrapper_format(
                entsq,
                self.config.print_mode,
                self.config.opt_bulk_exclusion,
                tw,
            ));
        }
        out
    }
}

} // verus!
