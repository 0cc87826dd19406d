//! Crash reports: which device paths may be read, what a report's file name
//! tells about it, and how a listing is walked, capped and ordered.
use vstd::prelude::*;

use crate::error::CommandError;
use crate::paths::{
    extension, file_stem, from_utf8_lossy, path_extension, path_file_name, path_file_stem, to_uppercase,
    uppercase, utf8_lossy,
};
use crate::seqs::sorted_by;
use crate::text::{
    all_ascii_digits, ascii_lowercase, ascii_lowercase_chars, chars_all_digits, chars_of,
    chars_range, contains_char, copy_str, find, find_chars, lowercase, seq_lt, split_chars,
    split_on, string_of, str_eq, to_lowercase, trim_end_char, trim_start_char, trim_start_chars,
    trim_ws, trim_ws_chars, views_of, chars_lt, append_str,
};
use crate::types::{CrashReportContent, CrashReportSummary};

verus! {

/// The most bytes of a report shown in a preview.
pub const MAX_PREVIEW_BYTES: usize = 4194304;

/// The most reports one listing collects.
pub const MAX_REPORTS: usize = 2000;

// ---------------------------------------------------------------------------
// Paths
// ---------------------------------------------------------------------------

/// A path component that would leave the reports directory or name nothing.
pub open spec fn bad_report_component(c: Seq<char>) -> bool {
    c.len() == 0 || c == "."@ || c == ".."@
}

/// The path a report may be read at: without leading `/`, non-empty, free of
/// NUL, and made of named components only.
pub open spec fn spec_report_path(path: Seq<char>) -> Option<Seq<char>> {
    let normalized = trim_start_char(path, '/');
    if normalized.len() == 0 || normalized.contains('\0') || exists|i: int|
        0 <= i < split_on(normalized, '/').len() && bad_report_component(
            #[trigger] split_on(normalized, '/')[i],
        ) {
        None
    } else {
        Some(normalized)
    }
}

pub open spec fn is_crash_error(e: CommandError, message: Seq<char>) -> bool {
    e.kind@ == "crash_reports"@ && e.message@ == message && !e.retryable
}

fn is_bad_component(part: &Vec<char>) -> (r: bool)
    ensures
        r == bad_report_component(part@),
{
    proof {
        reveal_strlit(".");
        reveal_strlit("..");
        if part@ == "."@ {
            assert(part@.len() == 1 && part@[0] == '.');
        }
        if part@ == ".."@ {
            assert(part@.len() == 2 && part@[0] == '.' && part@[1] == '.');
        }
        if part@.len() == 1 && part@[0] == '.' {
            assert(part@ =~= "."@);
        }
        if part@.len() == 2 && part@[0] == '.' && part@[1] == '.' {
            assert(part@ =~= ".."@);
        }
    }
    part.len() == 0 || (part.len() == 1 && part[0] == '.') || (part.len() == 2 && part[0] == '.'
        && part[1] == '.')
}

fn has_bad_component(parts: &Vec<Vec<char>>) -> (r: bool)
    ensures
        r == exists|i: int| 0 <= i < views_of(parts@).len() && bad_report_component(#[trigger] views_of(parts@)[i]),
{
    let ghost pv = views_of(parts@);
    let mut i: usize = 0;
    while i < parts.len()
        invariant
            i <= parts.len(),
            pv == views_of(parts@),
            forall|k: int| 0 <= k < i ==> !bad_report_component(#[trigger] pv[k]),
        decreases parts.len() - i,
    {
        assert(pv[i as int] == parts@[i as int]@);
        if is_bad_component(&parts[i]) {
            return true;
        }
        i = i + 1;
    }
    false
}

/// Checks a report path and gives it without its leading slashes.
pub fn validate_report_path(path: &str) -> (r: Result<String, CommandError>)
    ensures
        match spec_report_path(path@) {
            Some(n) => (r matches Ok(s) && s@ == n),
            None => (r matches Err(e) && is_crash_error(e, "Invalid crash report path"@)),
        },
{
    let normalized = trim_start_chars(&chars_of(path), '/');
    let ok = normalized.len() > 0 && !contains_char(&normalized, '\0') && !has_bad_component(
        &split_chars(&normalized, '/'),
    );
    if ok {
        Ok(string_of(&normalized))
    } else {
        Err(CommandError::new("crash_reports", "Invalid crash report path", false))
    }
}

// ---------------------------------------------------------------------------
// What a file name tells
// ---------------------------------------------------------------------------

/// The stem of a report's file name, or the name itself.
pub open spec fn report_stem(name: Seq<char>) -> Seq<char> {
    match path_file_stem(name) {
        Some(s) => s,
        None => name,
    }
}

/// The process a report belongs to: the stem up to its timestamp, which
/// starts at the first `-20` (or else `_20`).
pub open spec fn spec_report_process(name: Seq<char>) -> Seq<char> {
    let stem = report_stem(name);
    match find(stem, "-20"@) {
        Some(i) => stem.take(i),
        None => match find(stem, "_20"@) {
            Some(i) => stem.take(i),
            None => stem,
        },
    }
}

/// The kind of a report: its extension in upper case, or `REPORT`.
pub open spec fn spec_report_kind(name: Seq<char>) -> Seq<char> {
    match path_extension(name) {
        Some(e) => uppercase(e),
        None => "REPORT"@,
    }
}

/// A file whose extension, in ASCII lower case, is one crash reports use.
pub open spec fn spec_looks_like_report(name: Seq<char>) -> bool {
    match path_extension(name) {
        Some(e) => {
            let l = ascii_lowercase(e);
            l == "ips"@ || l == "crash"@ || l == "panic"@ || l == "log"@ || l == "synced"@
        },
        None => false,
    }
}

fn report_stem_of(name: &str) -> (r: String)
    ensures
        r@ == report_stem(name@),
{
    match file_stem(name) {
        Some(s) => s,
        None => copy_str(name),
    }
}

/// The process a report belongs to, from its file name.
pub fn report_process(name: &str) -> (r: String)
    ensures
        r@ == spec_report_process(name@),
{
    let stem = chars_of(report_stem_of(name).as_str());
    let dash = chars_of("-20");
    let under = chars_of("_20");
    let cut = match find_chars(&stem, &dash) {
        Some(i) => i,
        None => match find_chars(&stem, &under) {
            Some(i) => i,
            None => stem.len(),
        },
    };
    proof {
        if find(stem@, "-20"@) is None && find(stem@, "_20"@) is None {
            assert(stem@.take(stem@.len() as int) =~= stem@);
        }
    }
    let r = chars_range(&stem, 0, cut);
    assert(stem@.subrange(0, cut as int) =~= stem@.take(cut as int));
    string_of(&r)
}

/// The kind of a report, from its file name.
pub fn report_kind(name: &str) -> (r: String)
    ensures
        r@ == spec_report_kind(name@),
{
    match extension(name) {
        Some(e) => to_uppercase(e.as_str()),
        None => copy_str("REPORT"),
    }
}

/// Whether a file name is that of a crash report.
pub fn looks_like_report(name: &str) -> (r: bool)
    ensures
        r == spec_looks_like_report(name@),
{
    match extension(name) {
        Some(e) => {
            let l = string_of(&ascii_lowercase_chars(&chars_of(e.as_str())));
            str_eq(l.as_str(), "ips") || str_eq(l.as_str(), "crash") || str_eq(l.as_str(), "panic")
                || str_eq(l.as_str(), "log") || str_eq(l.as_str(), "synced")
        },
        None => false,
    }
}

/// Four `-`-separated fields from `w` form a timestamp: a year `20xx`, a
/// two-digit month and day, and a field that starts with six digits.
pub open spec fn timestamp_window(parts: Seq<Seq<char>>, w: int) -> bool {
    let year = parts[w];
    let month = parts[w + 1];
    let day = parts[w + 2];
    let time = parts[w + 3];
    &&& year.len() == 4 && "20"@.is_prefix_of(year) && all_ascii_digits(year)
    &&& month.len() == 2 && all_ascii_digits(month)
    &&& day.len() == 2 && all_ascii_digits(day)
    &&& time.len() >= 6 && all_ascii_digits(time.take(6))
}

/// The last window at or before `w` that forms a timestamp.
pub open spec fn last_timestamp(parts: Seq<Seq<char>>, w: int) -> Option<int>
    decreases w + 1,
{
    if w < 0 {
        None
    } else if timestamp_window(parts, w) {
        Some(w)
    } else {
        last_timestamp(parts, w - 1)
    }
}

/// `YYYY-MM-DD hh:mm:ss` from the timestamp window at `w`.
pub open spec fn timestamp_text(parts: Seq<Seq<char>>, w: int) -> Seq<char> {
    let t = parts[w + 3];
    parts[w] + "-"@ + parts[w + 1] + "-"@ + parts[w + 2] + " "@ + t.subrange(0, 2) + ":"@
        + t.subrange(2, 4) + ":"@ + t.subrange(4, 6)
}

/// When a report was written, as its file name says: the last timestamp among
/// the `-`-separated fields of its stem, or nothing.
pub open spec fn spec_report_modified(name: Seq<char>) -> Seq<char> {
    let parts = split_on(report_stem(name), '-');
    match last_timestamp(parts, parts.len() - 4) {
        Some(w) => timestamp_text(parts, w),
        None => Seq::<char>::empty(),
    }
}

fn digits_field(v: &Vec<char>, n: usize) -> (r: bool)
    ensures
        r == (v@.len() == n && all_ascii_digits(v@)),
{
    v.len() == n && chars_all_digits(v)
}

fn timestamp_window_exec(parts: &Vec<Vec<char>>, w: usize) -> (r: bool)
    requires
        w + 4 <= parts.len(),
    ensures
        r == timestamp_window(views_of(parts@), w as int),
{
    let ghost pv = views_of(parts@);
    let year = &parts[w];
    let month = &parts[w + 1];
    let day = &parts[w + 2];
    let time = &parts[w + 3];
    assert(pv[w as int] == year@ && pv[w + 1] == month@ && pv[w + 2] == day@ && pv[w + 3] == time@);
    proof {
        reveal_strlit("20");
    }
    let year_ok = digits_field(year, 4) && year[0] == '2' && year[1] == '0';
    proof {
        if year@.len() == 4 {
            if "20"@.is_prefix_of(year@) {
                assert(year@[0] == "20"@[0] && year@[1] == "20"@[1]);
            }
            if year@[0] == '2' && year@[1] == '0' {
                assert(year@.subrange(0, 2) =~= "20"@);
            }
        }
    }
    if !year_ok || !digits_field(month, 2) || !digits_field(day, 2) || time.len() < 6 {
        return false;
    }
    let head = chars_range(time, 0, 6);
    assert(time@.subrange(0, 6) =~= time@.take(6));
    chars_all_digits(&head)
}

/// When a report was written, from its file name (empty when it has no
/// timestamp).
pub fn report_modified(name: &str) -> (r: String)
    ensures
        r@ == spec_report_modified(name@),
{
    let stem = chars_of(report_stem_of(name).as_str());
    let parts = split_chars(&stem, '-');
    let ghost pv = views_of(parts@);
    assert(pv == split_on(report_stem(name@), '-'));
    assert(spec_report_modified(name@) == match last_timestamp(pv, pv.len() - 4) {
        Some(w) => timestamp_text(pv, w),
        None => Seq::<char>::empty(),
    });
    if parts.len() < 4 {
        assert(last_timestamp(pv, pv.len() - 4) is None);
        return String::new();
    }
    let mut w: usize = parts.len() - 4;
    loop
        invariant
            w + 4 <= parts.len(),
            pv == views_of(parts@),
            pv == split_on(report_stem(name@), '-'),
            last_timestamp(pv, pv.len() - 4) == last_timestamp(pv, w as int),
        decreases w,
    {
        if timestamp_window_exec(&parts, w) {
            let time = &parts[w + 3];
            let mut out = string_of(&parts[w]);
            append_str(&mut out, "-");
            append_str(&mut out, string_of(&parts[w + 1]).as_str());
            append_str(&mut out, "-");
            append_str(&mut out, string_of(&parts[w + 2]).as_str());
            append_str(&mut out, " ");
            append_str(&mut out, string_of(&chars_range(time, 0, 2)).as_str());
            append_str(&mut out, ":");
            append_str(&mut out, string_of(&chars_range(time, 2, 4)).as_str());
            append_str(&mut out, ":");
            append_str(&mut out, string_of(&chars_range(time, 4, 6)).as_str());
            assert(pv[w as int] == parts@[w as int]@ && pv[w + 1] == parts@[w + 1]@ && pv[w + 2]
                == parts@[w + 2]@ && pv[w + 3] == time@);
            assert(last_timestamp(pv, w as int) == Some(w as int));
            assert(out@ =~= timestamp_text(pv, w as int));
            return out;
        }
        assert(last_timestamp(pv, w as int) == last_timestamp(pv, w - 1));
        if w == 0 {
            assert(last_timestamp(pv, -1) is None);
            return String::new();
        }
        w = w - 1;
    }
}

// ---------------------------------------------------------------------------
// Walking the reports directory
// ---------------------------------------------------------------------------

/// A listed name that is no entry of its own: `.`, `..`, or a name with `/`.
pub open spec fn skipped_entry(name: Seq<char>) -> bool {
    name == "."@ || name == ".."@ || name.contains('/')
}

/// The path of `name` inside `directory`.
pub open spec fn entry_path(directory: Seq<char>, name: Seq<char>) -> Seq<char> {
    if directory == "/"@ {
        "/"@ + name
    } else {
        trim_end_char(directory, '/') + "/"@ + name
    }
}

/// The summary of a report recognised by its name alone; its size is not read.
pub open spec fn named_report(r: CrashReportSummary, name: Seq<char>, path: Seq<char>) -> bool {
    &&& r.name@ == name
    &&& r.path@ == path
    &&& r.process@ == spec_report_process(name)
    &&& r.kind@ == spec_report_kind(name)
    &&& r.modified@ == spec_report_modified(name)
    &&& r.size_bytes is None
}

/// What a step of the walk does with one listed name.
#[derive(Debug)]
pub enum EntryStep {
    /// Not an entry: nothing to do.
    Skip,
    /// Recorded as a report from its name.
    Recorded,
    /// Its file type must be read at this path.
    Inspect(String),
}

/// The file type of an inspected entry.
#[derive(Debug)]
pub enum EntryType {
    Directory,
    Regular,
    Other,
}

/// The file type AFC reports under `st_ifmt`.
pub fn entry_type(st_ifmt: &str) -> (t: EntryType)
    ensures
        st_ifmt@ == "S_IFDIR"@ <==> t is Directory,
        st_ifmt@ == "S_IFREG"@ <==> t is Regular,
{
    proof {
        reveal_strlit("S_IFDIR");
        reveal_strlit("S_IFREG");
        assert("S_IFDIR"@[4] != "S_IFREG"@[4]);
    }
    if str_eq(st_ifmt, "S_IFDIR") {
        EntryType::Directory
    } else if str_eq(st_ifmt, "S_IFREG") {
        EntryType::Regular
    } else {
        EntryType::Other
    }
}

/// `name` is an entry listed in some directory and `path` is where it lies.
pub open spec fn listed_at(name: Seq<char>, path: Seq<char>) -> bool {
    &&& !skipped_entry(name)
    &&& exists|d: Seq<char>| path == #[trigger] entry_path(d, name)
}

/// A report the walk records: a listed entry at its path, with the process
/// and kind its name gives; one recognised by its name carries the name's
/// timestamp and no size, any other one (a regular file that was inspected)
/// its size.
pub open spec fn walk_report(r: CrashReportSummary) -> bool {
    &&& listed_at(r.name@, r.path@)
    &&& r.process@ == spec_report_process(r.name@)
    &&& r.kind@ == spec_report_kind(r.name@)
    &&& spec_looks_like_report(r.name@) ==> r.size_bytes is None && r.modified@
        == spec_report_modified(r.name@)
    &&& !spec_looks_like_report(r.name@) ==> r.size_bytes is Some
}

/// A depth-first walk of the reports directory: directories still to list,
/// the reports found so far, never more than `MAX_REPORTS`, and the entry
/// whose file type was last asked for.
#[derive(Debug)]
pub struct CrashReportWalk {
    pending: Vec<String>,
    reports: Vec<CrashReportSummary>,
    inspecting: Option<(String, String)>,
}

impl CrashReportWalk {
    pub closed spec fn pending_view(&self) -> Seq<Seq<char>> {
        self.pending.deep_view()
    }

    pub closed spec fn reports_view(&self) -> Seq<CrashReportSummary> {
        self.reports@
    }

    /// The name and path of the entry whose file type the walk waits for.
    pub closed spec fn inspection_view(&self) -> Option<(Seq<char>, Seq<char>)> {
        match self.inspecting {
            Some((n, p)) => Some((n@, p@)),
            None => None,
        }
    }

    /// The walk's invariant: the cap on reports holds, every report is one
    /// the walk records, and the entry awaiting inspection is a listed one
    /// that its name did not already make a report.
    pub open spec fn wf(&self) -> bool {
        &&& self.reports_view().len() <= MAX_REPORTS
        &&& forall|i: int| 0 <= i < self.reports_view().len() ==> walk_report(#[trigger] self.reports_view()[i])
        &&& self.inspection_view() matches Some((n, p)) ==> listed_at(n, p) && !spec_looks_like_report(n)
    }

    /// A walk that starts at the root.
    pub fn new() -> (w: CrashReportWalk)
        ensures
            w.wf(),
            w.pending_view() == seq!["/"@],
            w.reports_view().len() == 0,
            w.inspection_view() is None,
    {
        let mut pending: Vec<String> = Vec::new();
        pending.push(copy_str("/"));
        let w = CrashReportWalk { pending, reports: Vec::new(), inspecting: None };
        assert(w.pending_view() =~= seq!["/"@]);
        w
    }

    /// The cap is reached; the walk lists nothing more.
    pub fn full(&self) -> (r: bool)
        ensures
            r == (self.reports_view().len() >= MAX_REPORTS),
    {
        self.reports.len() >= MAX_REPORTS
    }

    /// The next directory to list, most recently found first; none once the
    /// cap is reached.
    pub fn next_directory(&mut self) -> (r: Option<String>)
        requires
            old(self).wf(),
        ensures
            final(self).wf(),
            final(self).reports_view() == old(self).reports_view(),
            final(self).inspection_view() == old(self).inspection_view(),
            if old(self).reports_view().len() >= MAX_REPORTS || old(self).pending_view().len() == 0 {
                r is None && final(self).pending_view() == old(self).pending_view()
            } else {
                (r matches Some(d) && d@ == old(self).pending_view().last()
                    && final(self).pending_view() == old(self).pending_view().drop_last())
            },
    {
        if self.reports.len() >= MAX_REPORTS {
            return None;
        }
        let ghost before = self.pending@;
        let ghost before_dv = self.pending.deep_view();
        let r = self.pending.pop();
        proof {
            if before.len() > 0 {
                assert(self.pending@ =~= before.drop_last());
                assert(self.pending.deep_view() =~= before_dv.drop_last()) by {
                    assert forall|k: int| 0 <= k < self.pending@.len() implies self.pending.deep_view()[k]
                        == before_dv.drop_last()[k] by {
                        assert(self.pending@[k] == before[k]);
                    }
                }
            }
        }
        r
    }

    fn push_report(&mut self, summary: CrashReportSummary)
        requires
            old(self).wf(),
            old(self).inspection_view() is None,
            old(self).reports_view().len() < MAX_REPORTS,
            walk_report(summary),
        ensures
            final(self).wf(),
            final(self).reports_view() == old(self).reports_view().push(summary),
            final(self).pending_view() == old(self).pending_view(),
            final(self).inspection_view() is None,
    {
        let ghost before = self.reports@;
        self.reports.push(summary);
        assert(self.reports@ =~= before.push(summary));
    }

    /// Handles one name listed in `directory`: skips non-entries, records a
    /// report recognised by its name (unless the cap is reached), and asks
    /// for the file type of anything else, which it then awaits.
    pub fn entry(&mut self, directory: &str, name: &str) -> (r: EntryStep)
        requires
            old(self).wf(),
        ensures
            final(self).wf(),
            final(self).pending_view() == old(self).pending_view(),
            skipped_entry(name@) ==> r is Skip && final(self).reports_view() == old(self).reports_view()
                && final(self).inspection_view() is None,
            !skipped_entry(name@) && spec_looks_like_report(name@) ==> r is Recorded
                && final(self).inspection_view() is None && if old(self).reports_view().len()
                < MAX_REPORTS {
                final(self).reports_view().len() == old(self).reports_view().len() + 1
                    && final(self).reports_view().drop_last() == old(self).reports_view()
                    && named_report(
                    final(self).reports_view().last(),
                    name@,
                    entry_path(directory@, name@),
                )
            } else {
                final(self).reports_view() == old(self).reports_view()
            },
            !skipped_entry(name@) && !spec_looks_like_report(name@) ==> (r matches EntryStep::Inspect(
                p,
            ) && p@ == entry_path(directory@, name@) && final(self).reports_view() == old(
                self,
            ).reports_view() && final(self).inspection_view() == Some((name@, p@))),
    {
        self.inspecting = None;
        if is_skipped_entry(name) {
            return EntryStep::Skip;
        }
        let path = join_entry_path(directory, name);
        assert(listed_at(name@, path@)) by {
            assert(path@ == entry_path(directory@, name@));
        }
        if looks_like_report(name) {
            if self.reports.len() < MAX_REPORTS {
                let summary = CrashReportSummary {
                    process: report_process(name),
                    kind: report_kind(name),
                    modified: report_modified(name),
                    name: copy_str(name),
                    path,
                    size_bytes: None,
                };
                assert(walk_report(summary)) by {
                    assert(summary.path@ == entry_path(directory@, name@));
                }
                self.push_report(summary);
            }
            return EntryStep::Recorded;
        }
        self.inspecting = Some((copy_str(name), copy_str(path.as_str())));
        EntryStep::Inspect(path)
    }

    /// Takes in the file type read for the entry the walk awaits: a directory
    /// is listed later, a regular file is recorded at its path with its size
    /// and modification time (unless the cap is reached), anything else is
    /// left out. Nothing happens when no entry is awaited.
    pub fn inspected(&mut self, file_type: EntryType, modified: String, size: u64)
        requires
            old(self).wf(),
        ensures
            final(self).wf(),
            final(self).inspection_view() is None,
            match old(self).inspection_view() {
                None => final(self).pending_view() == old(self).pending_view()
                    && final(self).reports_view() == old(self).reports_view(),
                Some((name, path)) => match file_type {
                    EntryType::Directory => final(self).pending_view() == old(
                        self,
                    ).pending_view().push(path) && final(self).reports_view() == old(
                        self,
                    ).reports_view(),
                    EntryType::Regular => final(self).pending_view() == old(self).pending_view() && if old(
                        self,
                    ).reports_view().len() < MAX_REPORTS {
                        final(self).reports_view().len() == old(self).reports_view().len() + 1
                            && final(self).reports_view().drop_last() == old(self).reports_view() && ({
                            let r = final(self).reports_view().last();
                            &&& r.name@ == name
                            &&& r.path@ == path
                            &&& r.process@ == spec_report_process(name)
                            &&& r.kind@ == spec_report_kind(name)
                            &&& r.modified@ == modified@
                            &&& r.size_bytes == Some(size)
                        })
                    } else {
                        final(self).reports_view() == old(self).reports_view()
                    },
                    EntryType::Other => final(self).pending_view() == old(self).pending_view()
                        && final(self).reports_view() == old(self).reports_view(),
                },
            },
    {
        let awaited = self.inspecting.take();
        let (name, path) = match awaited {
            Some(entry) => entry,
            None => return,
        };
        match file_type {
            EntryType::Directory => {
                let ghost before = self.pending@;
                let ghost before_dv = self.pending.deep_view();
                self.pending.push(path);
                proof {
                    assert(self.pending.deep_view() =~= before_dv.push(path@)) by {
                        assert forall|k: int| 0 <= k < before.len() implies self.pending.deep_view()[k]
                            == before_dv[k] by {
                            assert(self.pending@[k] == before[k]);
                        }
                    }
                }
            },
            EntryType::Regular => {
                if self.reports.len() < MAX_REPORTS {
                    let summary = CrashReportSummary {
                        process: report_process(name.as_str()),
                        kind: report_kind(name.as_str()),
                        modified,
                        name,
                        path,
                        size_bytes: Some(size),
                    };
                    self.push_report(summary);
                }
            },
            EntryType::Other => {},
        }
    }

    /// The reports found, newest first, ties by lower-cased name: each one a
    /// report the walk records, and no more than `MAX_REPORTS`.
    pub fn finish(self) -> (v: Vec<CrashReportSummary>)
        requires
            self.wf(),
        ensures
            v@ == sorted_by(self.reports_view(), report_order()),
            v@.len() <= MAX_REPORTS,
            forall|i: int| 0 <= i < v@.len() ==> walk_report(#[trigger] v@[i]),
    {
        let ghost s = self.reports_view();
        let v = sort_reports(self.reports);
        proof {
            broadcast use vstd::seq_lib::group_to_multiset_ensures;

            crate::seqs::lemma_sorted_by_permutes(s, report_order());
            assert(v@.to_multiset().len() == s.to_multiset().len());
            assert forall|i: int| 0 <= i < v@.len() implies walk_report(#[trigger] v@[i]) by {
                assert(v@.to_multiset().count(v@[i]) > 0);
                assert(s.contains(v@[i]));
                let k = choose|k: int| 0 <= k < s.len() && s[k] == v@[i];
                assert(walk_report(s[k]));
            }
        }
        v
    }
}

fn is_skipped_entry(name: &str) -> (r: bool)
    ensures
        r == skipped_entry(name@),
{
    proof {
        reveal_strlit(".");
        reveal_strlit("..");
    }
    str_eq(name, ".") || str_eq(name, "..") || contains_char(&chars_of(name), '/')
}

fn join_entry_path(directory: &str, name: &str) -> (r: String)
    ensures
        r@ == entry_path(directory@, name@),
{
    let mut out = if str_eq(directory, "/") {
        copy_str("/")
    } else {
        let mut d = string_of(&crate::text::trim_end_chars(&chars_of(directory), '/'));
        append_str(&mut d, "/");
        d
    };
    append_str(&mut out, name);
    out
}

// ---------------------------------------------------------------------------
// Order of a listing
// ---------------------------------------------------------------------------

/// `a` is listed before `b`: newer modification text first, then by
/// lower-cased name.
pub open spec fn report_before(a: CrashReportSummary, b: CrashReportSummary) -> bool {
    ||| seq_lt(b.modified@, a.modified@)
    ||| (a.modified@ == b.modified@ && seq_lt(lowercase(a.name@), lowercase(b.name@)))
}

pub open spec fn report_order() -> spec_fn(CrashReportSummary, CrashReportSummary) -> bool {
    |a: CrashReportSummary, b: CrashReportSummary| report_before(a, b)
}

/// Reports sorted newest first, ties by lower-cased name, ties after that in
/// their given order.
pub fn sort_reports(reports: Vec<CrashReportSummary>) -> (v: Vec<CrashReportSummary>)
    ensures
        v@ == sorted_by(reports@, report_order()),
{
    let ghost s = reports@;
    let mut input = reports;
    let mut out: Vec<CrashReportSummary> = Vec::new();
    let mut keys: Vec<Vec<char>> = Vec::new();
    let ghost mut i: int = 0;
    assert(input@ =~= s.skip(0));
    assert(s.take(0) =~= Seq::<CrashReportSummary>::empty());
    while input.len() > 0
        invariant
            0 <= i <= s.len(),
            input@ == s.skip(i),
            out@ == sorted_by(s.take(i), report_order()),
            keys@.len() == out@.len(),
            forall|j: int| 0 <= j < out@.len() ==> (#[trigger] keys@[j])@ == lowercase(out@[j].name@),
        decreases input.len(),
    {
        let ghost old_input = input@;
        let x = input.remove(0);
        proof {
            assert(input@ =~= s.skip(i + 1));
            assert(s.take(i + 1).drop_last() =~= s.take(i));
            assert(s.take(i + 1).last() == x);
        }
        let key = chars_of(to_lowercase(x.name.as_str()).as_str());
        let xm = chars_of(x.modified.as_str());
        let ghost sv = out@;
        let ghost q = crate::seqs::precedes(x, report_order());
        let mut p: usize = 0;
        let mut stop = false;
        while !stop && p < out.len()
            invariant
                p <= out.len(),
                sv == out@,
                keys@.len() == out@.len(),
                forall|j: int| 0 <= j < out@.len() ==> (#[trigger] keys@[j])@ == lowercase(out@[j].name@),
                key@ == lowercase(x.name@),
                xm@ == x.modified@,
                q == crate::seqs::precedes(x, report_order()),
                forall|j: int| 0 <= j < p ==> !q(#[trigger] sv[j]),
                stop ==> p < out.len() && q(sv[p as int]),
            decreases out.len() - p + (if stop { 0int } else { 1int }),
        {
            let ym = chars_of(out[p].modified.as_str());
            assert(keys@[p as int]@ == lowercase(out@[p as int].name@));
            let before = if chars_lt(&ym, &xm) {
                true
            } else if crate::text::chars_equal(&xm, &ym) {
                chars_lt(&key, &keys[p])
            } else {
                false
            };
            if before {
                stop = true;
            } else {
                p = p + 1;
            }
        }
        proof {
            if p < out.len() {
                crate::seqs::lemma_first_index_is(sv, q, p as int);
            } else {
                crate::seqs::lemma_first_index_none(sv, q);
            }
        }
        let ghost old_keys = keys@;
        if p < out.len() {
            out.insert(p, x);
            keys.insert(p, key);
        } else {
            out.push(x);
            keys.push(key);
        }
        proof {
            assert forall|j: int| 0 <= j < out@.len() implies (#[trigger] keys@[j])@ == lowercase(out@[j].name@) by {
                if j < p {
                    assert(keys@[j] == old_keys[j] && out@[j] == sv[j]);
                } else if j > p {
                    assert(keys@[j] == old_keys[j - 1] && out@[j] == sv[j - 1]);
                }
            }
            i = i + 1;
        }
    }
    assert(s.take(i) =~= s);
    out
}

// ---------------------------------------------------------------------------
// Reading and exporting
// ---------------------------------------------------------------------------

/// The preview of a report: at most `MAX_PREVIEW_BYTES` of it, decoded as
/// UTF-8 with replacement characters, and whether it was cut.
pub fn report_content(path: String, bytes: &[u8]) -> (c: CrashReportContent)
    ensures
        c.path@ == path@,
        c.truncated == (bytes@.len() > MAX_PREVIEW_BYTES),
        c.content@ == utf8_lossy(
            bytes@.take(
                if bytes@.len() > MAX_PREVIEW_BYTES {
                    MAX_PREVIEW_BYTES as int
                } else {
                    bytes@.len() as int
                },
            ),
        ),
        c.size_bytes == bytes@.len(),
{
    let truncated = bytes.len() > MAX_PREVIEW_BYTES;
    let preview_len = if truncated {
        MAX_PREVIEW_BYTES
    } else {
        bytes.len()
    };
    let preview = &bytes[0..preview_len];
    assert(preview@ =~= bytes@.take(preview_len as int));
    CrashReportContent {
        path,
        content: from_utf8_lossy(preview),
        truncated,
        size_bytes: bytes.len() as u64,
    }
}

/// An export needs a destination that is more than white space.
pub fn check_export_destination(local_path: &str) -> (r: Result<(), CommandError>)
    ensures
        trim_ws(local_path@).len() == 0 <==> r is Err,
        r matches Err(e) ==> is_crash_error(e, "No export destination selected"@),
{
    if trim_ws_chars(&chars_of(local_path)).len() == 0 {
        Err(CommandError::new("crash_reports", "No export destination selected", false))
    } else {
        Ok(())
    }
}

/// The order of a crash listing is a strict order.
pub proof fn lemma_report_order_strict()
    ensures
        crate::seqs::is_strict_order(report_order()),
{
    assert forall|a: CrashReportSummary| !(#[trigger] report_order()(a, a)) by {
        crate::text::lemma_seq_lt_irreflexive(a.modified@);
        crate::text::lemma_seq_lt_irreflexive(lowercase(a.name@));
    }
    assert forall|a: CrashReportSummary, b: CrashReportSummary, c: CrashReportSummary|
        #[trigger] report_order()(a, b) && #[trigger] report_order()(b, c) implies report_order()(a, c) by {
        if seq_lt(b.modified@, a.modified@) && seq_lt(c.modified@, b.modified@) {
            crate::text::lemma_seq_lt_transitive(c.modified@, b.modified@, a.modified@);
        } else if a.modified@ == b.modified@ && b.modified@ == c.modified@ {
            crate::text::lemma_seq_lt_transitive(lowercase(a.name@), lowercase(b.name@), lowercase(c.name@));
        }
    }
}

/// A file named `stem.ext` is a crash report exactly when its extension, in
/// ASCII lower case, is `ips`, `crash`, `panic`, `log` or `synced`
/// (`ExampleApp-2026-07-24-120000.crash`, `JetsamEvent.IPS` are reports;
/// `notes.txt` is not).
pub proof fn law_report_extensions(name: Seq<char>, stem: Seq<char>, ext: Seq<char>)
    requires
        path_file_name(name) == Some(stem + seq!['.'] + ext),
        stem.len() > 0,
        !ext.contains('.'),
    ensures
        spec_looks_like_report(name) <==> {
            let lower = ascii_lowercase(ext);
            ||| lower == "crash"@
            ||| lower == "ips"@
            ||| lower == "log"@
            ||| lower == "panic"@
            ||| lower == "synced"@
        },
{
    crate::paths::lemma_extension_of_dotted(stem, ext);
}

/// A crash listing runs newest first: no report is followed by one with a
/// later modification text.
pub proof fn law_crash_listing_newest_first(reports: Seq<CrashReportSummary>)
    ensures
        forall|i: int, j: int|
            0 <= i < j < sorted_by(reports, report_order()).len() ==> !seq_lt(
                (#[trigger] sorted_by(reports, report_order())[i]).modified@,
                (#[trigger] sorted_by(reports, report_order())[j]).modified@,
            ),
{
    lemma_report_order_strict();
    crate::seqs::lemma_sorted_by_sorted(reports, report_order());
    let l = sorted_by(reports, report_order());
    assert forall|i: int, j: int| 0 <= i < j < l.len() implies !seq_lt((#[trigger] l[i]).modified@, (#[trigger] l[j]).modified@) by {
        assert(!report_order()(l[j], l[i]));
    }
}

/// A walk never holds more than `MAX_REPORTS` reports, whatever it is fed:
/// each step keeps the cap.
pub proof fn law_walk_respects_cap(w: CrashReportWalk)
    requires
        w.wf(),
    ensures
        w.reports_view().len() <= MAX_REPORTS,
{
}

/// Every report a walk holds sits at its directory joined with its name, is
/// no `.`, `..` or name with `/`, carries the process and kind its name
/// gives, and, when its name makes it a report, the name's timestamp and no
/// size.
pub proof fn law_walk_reports_are_listed_entries(w: CrashReportWalk, i: int)
    requires
        w.wf(),
        0 <= i < w.reports_view().len(),
    ensures
        ({
            let r = w.reports_view()[i];
            &&& !skipped_entry(r.name@)
            &&& exists|d: Seq<char>| r.path@ == #[trigger] entry_path(d, r.name@)
            &&& r.process@ == spec_report_process(r.name@)
            &&& r.kind@ == spec_report_kind(r.name@)
            &&& spec_looks_like_report(r.name@) ==> r.size_bytes is None && r.modified@
                == spec_report_modified(r.name@)
        }),
{
    assert(walk_report(w.reports_view()[i]));
}

} // verus!
