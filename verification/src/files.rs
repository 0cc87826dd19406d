//! Device files over AFC: which paths may be touched, how listings are built
//! and ordered, and how transfer progress is reported.
use vstd::prelude::*;

use crate::error::CommandError;
use crate::paths::{extension, path_extension, to_uppercase, uppercase};
use crate::plist_data::{
    dict_string, keys_view, plist_flag, spec_dict_string, spec_plist_flag, PlistDict,
};
use crate::seqs::{is_sorted_by, lemma_filter_step, lemma_sorted_by_sorted, sorted_by};
use crate::sorting::{key_before, lemma_key_order_strict, ordered_by_key, sort_by_key};
use crate::text::{
    append_str, chars_of, contains_char, copy_str, lowercase, split_chars, split_on, str_eq,
    string_of, to_lowercase, trim_end_char, trim_end_chars, trim_start_char, trim_start_chars,
    views_of,
};
use crate::types::{FileSharingApp, OperationProgress, RemoteFileEntry};

verus! {

/// One AFC transfer chunk: the protocol's own limit.
pub const TRANSFER_CHUNK: usize = 1048576;

/// The task key a transfer registers under; a new transfer replaces the last.
pub const TRANSFER_TASK: &'static str = "file-transfer";

// ---------------------------------------------------------------------------
// Progress
// ---------------------------------------------------------------------------

/// Whole-percent progress: complete for an empty file, the scaled ratio
/// (saturating) otherwise, never above 100.
pub open spec fn spec_transfer_percent(transferred: u64, total: u64) -> u64 {
    if total == 0 {
        100
    } else {
        let scaled: int = if transferred * 100 > u64::MAX {
            u64::MAX as int
        } else {
            transferred * 100
        };
        let p = scaled / (total as int);
        (if p > 100 {
            100
        } else {
            p
        }) as u64
    }
}

/// Whole-percent progress of `transferred` bytes out of `total`.
pub fn transfer_percent(transferred: u64, total: u64) -> (p: u64)
    ensures
        p == spec_transfer_percent(transferred, total),
{
    if total == 0 {
        return 100;
    }
    let scaled = match transferred.checked_mul(100) {
        Some(v) => v,
        None => u64::MAX,
    };
    let p = scaled / total;
    if p > 100 {
        100
    } else {
        p
    }
}

/// A progress report for the interface.
pub open spec fn is_progress(e: OperationProgress, operation: Seq<char>, item: Seq<char>, percent: u64) -> bool {
    e.operation@ == operation && e.item@ == item && e.percent == percent
}

/// Progress of one transfer, reported only when the whole percent changes.
#[derive(Debug)]
pub struct TransferProgress {
    operation: String,
    item: String,
    total: u64,
    transferred: u64,
    last_percent: u64,
}

/// What `advance` does: `after` counts `bytes` more than `before`, and the
/// new whole percent is reported, and becomes the last one reported, exactly
/// when it differs from the last one; a report always exceeds the last one.
pub open spec fn advanced(
    before: TransferProgress,
    after: TransferProgress,
    bytes: int,
    r: Option<OperationProgress>,
) -> bool {
    &&& after.wf()
    &&& after.operation_view() == before.operation_view()
    &&& after.item_view() == before.item_view()
    &&& after.total_view() == before.total_view()
    &&& after.transferred_view() == before.transferred_view() + bytes
    &&& r matches Some(e) ==> e.percent > before.last_view()
    &&& ({
        let p = spec_transfer_percent(after.transferred_view(), after.total_view());
        if p != before.last_view() {
            &&& after.last_view() == p
            &&& r matches Some(e)
            &&& is_progress(e, before.operation_view(), before.item_view(), p)
        } else {
            after.last_view() == before.last_view() && r is None
        }
    })
}

/// What `finish` does: report 100 unless 100 was the last report.
pub open spec fn finished(p: TransferProgress, r: Option<OperationProgress>) -> bool {
    &&& p.last_view() != 100 <==> r is Some
    &&& r matches Some(e) ==> is_progress(e, p.operation_view(), p.item_view(), 100)
}

/// The percents among a run of reports, in order.
pub open spec fn reported_percents(rs: Seq<Option<OperationProgress>>) -> Seq<u64>
    decreases rs.len(),
{
    if rs.len() == 0 {
        Seq::empty()
    } else {
        reported_percents(rs.drop_last()) + match rs.last() {
            Some(e) => seq![e.percent],
            None => Seq::<u64>::empty(),
        }
    }
}

/// Strictly increasing.
pub open spec fn rising(s: Seq<u64>) -> bool {
    forall|i: int, j: int| 0 <= i < j < s.len() ==> s[i] < s[j]
}

impl TransferProgress {
    pub closed spec fn operation_view(&self) -> Seq<char> {
        self.operation@
    }

    pub closed spec fn item_view(&self) -> Seq<char> {
        self.item@
    }

    pub closed spec fn total_view(&self) -> u64 {
        self.total
    }

    pub closed spec fn transferred_view(&self) -> u64 {
        self.transferred
    }

    /// The percent last reported.
    pub closed spec fn last_view(&self) -> u64 {
        self.last_percent
    }

    /// What was last reported is at most what the bytes so far amount to.
    pub open spec fn wf(&self) -> bool {
        self.last_view() <= spec_transfer_percent(self.transferred_view(), self.total_view())
    }

    /// Starts a transfer of `total` bytes; reports 0%.
    pub fn new(operation: &str, item: String, total: u64) -> (r: (TransferProgress, OperationProgress))
        ensures
            r.0.wf(),
            r.0.operation_view() == operation@,
            r.0.item_view() == item@,
            r.0.total_view() == total,
            r.0.transferred_view() == 0,
            r.0.last_view() == 0,
            is_progress(r.1, operation@, item@, 0),
    {
        let p = TransferProgress {
            operation: copy_str(operation),
            item,
            total,
            transferred: 0,
            last_percent: 0,
        };
        let e = p.report(0);
        (p, e)
    }

    fn report(&self, percent: u64) -> (e: OperationProgress)
        ensures
            is_progress(e, self.operation_view(), self.item_view(), percent),
    {
        OperationProgress {
            operation: self.operation.clone(),
            item: self.item.clone(),
            percent,
        }
    }

    /// The bytes counted so far.
    pub fn transferred(&self) -> (r: u64)
        ensures
            r == self.transferred_view(),
    {
        self.transferred
    }

    /// Counts `bytes` more; reports the new percent when it differs from the
    /// last one reported.
    pub fn advance(&mut self, bytes: usize) -> (r: Option<OperationProgress>)
        requires
            old(self).wf(),
            old(self).transferred_view() + bytes <= u64::MAX,
        ensures
            advanced(*old(self), *final(self), bytes as int, r),
    {
        proof {
            lemma_percent_monotone(self.transferred, (self.transferred + bytes) as u64, self.total);
        }
        self.transferred = self.transferred + bytes as u64;
        let percent = transfer_percent(self.transferred, self.total);
        if percent != self.last_percent {
            self.last_percent = percent;
            Some(self.report(percent))
        } else {
            None
        }
    }

    /// Reports completion, unless 100% was the last report.
    pub fn finish(&self) -> (r: Option<OperationProgress>)
        ensures
            finished(*self, r),
    {
        if self.last_percent != 100 {
            Some(self.report(100))
        } else {
            None
        }
    }
}

/// More bytes never mean less progress.
pub proof fn lemma_percent_monotone(a: u64, b: u64, total: u64)
    requires
        a <= b,
    ensures
        spec_transfer_percent(a, total) <= spec_transfer_percent(b, total),
{
    if total > 0 {
        let sa: int = if a * 100 > u64::MAX {
            u64::MAX as int
        } else {
            a * 100
        };
        let sb: int = if b * 100 > u64::MAX {
            u64::MAX as int
        } else {
            b * 100
        };
        assert(sa <= sb);
        vstd::arithmetic::div_mod::lemma_div_is_ordered(sa, sb, total as int);
    }
}

/// Progress never reports more than 100 percent.
pub proof fn law_transfer_percent_bounded(transferred: u64, total: u64)
    ensures
        spec_transfer_percent(transferred, total) <= 100,
{
}

/// Progress never goes backwards as bytes arrive.
pub proof fn law_transfer_percent_monotone(a: u64, b: u64, total: u64)
    requires
        a <= b,
    ensures
        spec_transfer_percent(a, total) <= spec_transfer_percent(b, total),
{
    lemma_percent_monotone(a, b, total);
}

/// Once every byte of a file (of a size whose hundredfold fits in 64 bits)
/// has arrived, progress reads 100.
pub proof fn law_transfer_complete_reads_full(transferred: u64, total: u64)
    requires
        transferred >= total,
        total * 100 <= u64::MAX,
    ensures
        spec_transfer_percent(transferred, total) == 100,
{
    if total > 0 {
        let s: int = if transferred * 100 > u64::MAX {
            u64::MAX as int
        } else {
            transferred * 100
        };
        assert(s >= total * 100);
        vstd::arithmetic::div_mod::lemma_div_is_ordered(total * 100, s, total as int);
        vstd::arithmetic::div_mod::lemma_div_by_multiple(100, total as int);
        assert((total * 100) / (total as int) == 100) by (nonlinear_arith)
            requires
                total > 0,
        ;
    }
}

/// The reports of a transfer rise to completion: after `new` reports 0,
/// every percent that `advance` reports exceeds the one before, and `finish`
/// leaves 100 as the last percent reported. `states` are the progress values
/// from `new` onward, `reports` what each `advance` returned, `last` what
/// `finish` returned.
pub proof fn law_transfer_reports_rise_to_completion(
    states: Seq<TransferProgress>,
    chunks: Seq<int>,
    reports: Seq<Option<OperationProgress>>,
    last: Option<OperationProgress>,
)
    requires
        states.len() == reports.len() + 1,
        chunks.len() == reports.len(),
        states[0].wf(),
        states[0].transferred_view() == 0,
        states[0].last_view() == 0,
        forall|i: int| 0 <= i < reports.len() ==> advanced(#[trigger] states[i], states[i + 1], chunks[i], reports[i]),
        finished(states.last(), last),
    ensures
        rising(seq![0u64] + reported_percents(reports.push(last))),
        (seq![0u64] + reported_percents(reports.push(last))).last() == 100,
{
    lemma_reports_rise(states, chunks, reports, reports.len() as int);
    let n = reports.len() as int;
    assert(reports.take(n) =~= reports);
    let p = states[n];
    law_transfer_percent_bounded(p.transferred_view(), p.total_view());
    assert(reports.push(last).drop_last() =~= reports);
    let e = seq![0u64] + reported_percents(reports);
    match last {
        Some(r) => {
            assert(seq![0u64] + reported_percents(reports.push(last)) =~= e.push(r.percent));
        },
        None => {
            assert(seq![0u64] + reported_percents(reports.push(last)) =~= e);
        },
    }
}

proof fn lemma_reports_rise(
    states: Seq<TransferProgress>,
    chunks: Seq<int>,
    reports: Seq<Option<OperationProgress>>,
    k: int,
)
    requires
        0 <= k <= reports.len(),
        states.len() == reports.len() + 1,
        chunks.len() == reports.len(),
        states[0].wf(),
        states[0].last_view() == 0,
        forall|i: int| 0 <= i < reports.len() ==> advanced(#[trigger] states[i], states[i + 1], chunks[i], reports[i]),
    ensures
        rising(seq![0u64] + reported_percents(reports.take(k))),
        (seq![0u64] + reported_percents(reports.take(k))).last() == states[k].last_view(),
        states[k].wf(),
    decreases k,
{
    if k == 0 {
        assert(reports.take(0) =~= Seq::<Option<OperationProgress>>::empty());
        assert(seq![0u64] + reported_percents(reports.take(0)) =~= seq![0u64]);
    } else {
        lemma_reports_rise(states, chunks, reports, k - 1);
        assert(advanced(states[k - 1], states[k], chunks[k - 1], reports[k - 1]));
        assert(reports.take(k).drop_last() =~= reports.take(k - 1));
        assert(reports.take(k).last() == reports[k - 1]);
        let e = seq![0u64] + reported_percents(reports.take(k - 1));
        match reports[k - 1] {
            Some(r) => {
                assert(seq![0u64] + reported_percents(reports.take(k)) =~= e.push(r.percent));
            },
            None => {
                assert(seq![0u64] + reported_percents(reports.take(k)) =~= e);
            },
        }
    }
}

/// The error a cancelled transfer reports.
pub fn cancelled() -> (e: CommandError)
    ensures
        e.kind@ == "cancelled"@,
        e.message@ == "Transfer cancelled"@,
        !e.retryable,
{
    CommandError::new("cancelled", "Transfer cancelled", false)
}

/// The last non-empty piece.
pub open spec fn last_nonempty(parts: Seq<Seq<char>>) -> Option<Seq<char>>
    decreases parts.len(),
{
    if parts.len() == 0 {
        None
    } else if parts.last().len() > 0 {
        Some(parts.last())
    } else {
        last_nonempty(parts.drop_last())
    }
}

/// What a transfer is called: the last non-empty component of its path, or
/// the path itself.
pub open spec fn spec_transfer_name(path: Seq<char>) -> Seq<char> {
    match last_nonempty(split_on(path, '/')) {
        Some(n) => n,
        None => path,
    }
}

/// The name a transfer is shown under.
pub fn transfer_name(path: &str) -> (r: String)
    ensures
        r@ == spec_transfer_name(path@),
{
    let parts = split_chars(&chars_of(path), '/');
    let ghost pv = views_of(parts@);
    let mut k = parts.len();
    assert(pv.take(k as int) =~= pv);
    while k > 0
        invariant
            k <= parts.len(),
            pv == views_of(parts@),
            pv == split_on(path@, '/'),
            last_nonempty(pv) == last_nonempty(pv.take(k as int)),
        decreases k,
    {
        assert(pv.take(k as int).last() == parts@[k - 1]@);
        if parts[k - 1].len() > 0 {
            return string_of(&parts[k - 1]);
        }
        assert(pv.take(k as int).drop_last() =~= pv.take(k - 1));
        k = k - 1;
    }
    copy_str(path)
}

// ---------------------------------------------------------------------------
// Paths
// ---------------------------------------------------------------------------

/// Top-level folders iOS manages itself.
pub open spec fn is_protected_root(root: Seq<char>) -> bool {
    root == "Books"@ || root == "DCIM"@ || root == "PhotoData"@ || root == "Purchases"@ || root
        == "iTunes_Control"@
}

/// The error a files command reports.
pub open spec fn is_files_error(e: CommandError, kind: Seq<char>, message: Seq<char>) -> bool {
    e.kind@ == kind && e.message@ == message && !e.retryable
}

/// A component that walks the tree: `.` or `..`.
pub open spec fn relative_component(c: Seq<char>) -> bool {
    c == "."@ || c == ".."@
}

/// Whether a device path is absolute, free of NUL and of relative components.
pub open spec fn path_well_formed(path: Seq<char>) -> bool {
    path.len() > 0 && path[0] == '/' && !path.contains('\0')
}

pub open spec fn has_relative_component(path: Seq<char>) -> bool {
    exists|i: int| 0 <= i < split_on(path, '/').len() && relative_component(#[trigger] split_on(path, '/')[i])
}

/// A device path commands accept.
pub open spec fn remote_path_valid(path: Seq<char>) -> bool {
    path_well_formed(path) && !has_relative_component(path)
}

/// A device path that may be created, written or removed: valid, not the
/// root, and outside an app's documents (`outside_app`) not an iOS media folder.
pub open spec fn mutation_allowed(path: Seq<char>, outside_app: bool) -> bool {
    remote_path_valid(path) && path != "/"@ && !(outside_app && is_protected_root(path_root(path)))
}

fn is_relative_component(part: &Vec<char>) -> (r: bool)
    ensures
        r == relative_component(part@),
{
    proof {
        reveal_strlit(".");
        reveal_strlit("..");
        if part@ == "."@ {
            assert(part@.len() == 1 && part@[0] == '.');
        }
        if part@ == ".."@ {
            assert(part@.len() == 2 && part@[0] == '.' && part@[1] == '.');
        }
        if part@.len() == 1 && part@[0] == '.' {
            assert(part@ =~= "."@);
        }
        if part@.len() == 2 && part@[0] == '.' && part@[1] == '.' {
            assert(part@ =~= ".."@);
        }
    }
    (part.len() == 1 && part[0] == '.') || (part.len() == 2 && part[0] == '.' && part[1] == '.')
}

/// Checks that a device path is absolute and has no `.`/`..` components.
pub fn validate_remote_path(path: &str) -> (r: Result<(), CommandError>)
    ensures
        !path_well_formed(path@) ==> (r matches Err(e) && is_files_error(
            e,
            "files"@,
            "Invalid device file path"@,
        )),
        path_well_formed(path@) && has_relative_component(path@) ==> (r matches Err(e)
            && is_files_error(e, "files"@, "Relative path components are not allowed"@)),
        path_well_formed(path@) && !has_relative_component(path@) ==> r is Ok,
        r is Ok <==> remote_path_valid(path@),
{
    let chars = chars_of(path);
    if chars.len() == 0 || chars[0] != '/' || contains_char(&chars, '\0') {
        return Err(CommandError::new("files", "Invalid device file path", false));
    }
    let parts = split_chars(&chars, '/');
    let ghost pv = views_of(parts@);
    let mut i: usize = 0;
    while i < parts.len()
        invariant
            i <= parts.len(),
            pv == views_of(parts@),
            pv == split_on(path@, '/'),
            path_well_formed(path@),
            forall|k: int| 0 <= k < i ==> !relative_component(#[trigger] pv[k]),
        decreases parts.len() - i,
    {
        assert(pv[i as int] == parts@[i as int]@);
        if is_relative_component(&parts[i]) {
            return Err(CommandError::new("files", "Relative path components are not allowed", false));
        }
        i = i + 1;
    }
    Ok(())
}

/// The first component of a path, ignoring leading slashes.
pub open spec fn path_root(path: Seq<char>) -> Seq<char> {
    split_on(trim_start_char(path, '/'), '/')[0]
}

/// Whether a path lies in a folder iOS manages itself.
pub fn protected_media_path(path: &str) -> (r: bool)
    ensures
        r == is_protected_root(path_root(path@)),
{
    let trimmed = trim_start_chars(&chars_of(path), '/');
    let parts = split_chars(&trimmed, '/');
    proof {
        crate::text::lemma_split_on_nonempty(trimmed@, '/');
    }
    let root = string_of(&parts[0]);
    assert(root@ == path_root(path@));
    str_eq(root.as_str(), "Books") || str_eq(root.as_str(), "DCIM") || str_eq(root.as_str(), "PhotoData")
        || str_eq(root.as_str(), "Purchases") || str_eq(root.as_str(), "iTunes_Control")
}

/// Checks that a path may be created, written or removed: a valid path, not
/// the root, and, outside an app's own documents, not an iOS media folder.
pub fn ensure_mutation_allowed(path: &str, bundle_id: Option<&str>) -> (r: Result<(), CommandError>)
    ensures
        !path_well_formed(path@) ==> (r matches Err(e) && is_files_error(
            e,
            "files"@,
            "Invalid device file path"@,
        )),
        path_well_formed(path@) && has_relative_component(path@) ==> (r matches Err(e)
            && is_files_error(e, "files"@, "Relative path components are not allowed"@)),
        path_well_formed(path@) && !has_relative_component(path@) && path@ == "/"@ ==> (r matches Err(
            e,
        ) && is_files_error(e, "files"@, "The file root cannot be modified"@)),
        path_well_formed(path@) && !has_relative_component(path@) && path@ != "/"@ && bundle_id is None
            && is_protected_root(path_root(path@)) ==> (r matches Err(e) && is_files_error(
            e,
            "files_read_only"@,
            "This iOS-managed media folder is read-only to prevent library corruption"@,
        )),
        path_well_formed(path@) && !has_relative_component(path@) && path@ != "/"@ && !(bundle_id is None
            && is_protected_root(path_root(path@))) ==> r is Ok,
        r is Ok <==> mutation_allowed(path@, bundle_id is None),
{
    match validate_remote_path(path) {
        Err(e) => return Err(e),
        Ok(()) => {},
    }
    if str_eq(path, "/") {
        return Err(CommandError::new("files", "The file root cannot be modified", false));
    }
    if bundle_id.is_none() && protected_media_path(path) {
        return Err(
            CommandError::new(
                "files_read_only",
                "This iOS-managed media folder is read-only to prevent library corruption",
                false,
            ),
        );
    }
    Ok(())
}

/// A path that may be changed is one commands accept, and never the root.
pub proof fn law_mutation_implies_valid_path(path: Seq<char>, outside_app: bool)
    ensures
        mutation_allowed(path, outside_app) ==> remote_path_valid(path) && path != "/"@,
{
}

/// Inside an app's own documents, media protection does not apply: any valid
/// path but the root may be changed.
pub proof fn law_app_documents_unprotected(path: Seq<char>)
    ensures
        mutation_allowed(path, false) <==> remote_path_valid(path) && path != "/"@,
{
}

/// The folders iOS manages itself: Books, DCIM, PhotoData, Purchases and
/// iTunes_Control.
pub open spec fn media_folder_named(m: Seq<char>) -> bool {
    m == "Books"@ || m == "DCIM"@ || m == "PhotoData"@ || m == "Purchases"@ || m == "iTunes_Control"@
}

proof fn lemma_media_names_have_no_slash(m: Seq<char>)
    requires
        media_folder_named(m),
    ensures
        m.len() > 0,
        m[0] != '/',
        !m.contains('/'),
{
    reveal_strlit("Books");
    reveal_strlit("DCIM");
    reveal_strlit("PhotoData");
    reveal_strlit("Purchases");
    reveal_strlit("iTunes_Control");
    if m.contains('/') {
        let k = choose|k: int| 0 <= k < m.len() && m[k] == '/';
        assert(m[k] != '/');
    }
}

proof fn lemma_trim_leading_slash(m: Seq<char>, t: Seq<char>)
    requires
        m.len() > 0,
        m[0] != '/',
    ensures
        trim_start_char(seq!['/'] + m + t, '/') == m + t,
{
    let s = seq!['/'] + m + t;
    assert(s.drop_first() =~= m + t);
    assert((m + t)[0] == m[0]);
    assert(trim_start_char(m + t, '/') == m + t);
    assert(s[0] == '/');
}

/// Outside an app's own documents, nothing at or under one of the folders iOS
/// manages itself (`/iTunes_Control`, `/DCIM/100APPLE/IMG_0001.JPG`, ...) may
/// be created, written or removed; the same path inside an app's documents
/// may be, when it is otherwise valid.
pub proof fn law_media_folders_read_only(m: Seq<char>, rest: Seq<char>)
    requires
        media_folder_named(m),
    ensures
        !mutation_allowed(seq!['/'] + m, true),
        !mutation_allowed(seq!['/'] + m + seq!['/'] + rest, true),
        mutation_allowed(seq!['/'] + m + seq!['/'] + rest, false) <==> remote_path_valid(
            seq!['/'] + m + seq!['/'] + rest,
        ),
{
    lemma_media_names_have_no_slash(m);
    lemma_trim_leading_slash(m, Seq::empty());
    assert(seq!['/'] + m + Seq::<char>::empty() =~= seq!['/'] + m);
    assert(m + Seq::<char>::empty() =~= m);
    crate::text::lemma_split_on_single(m, '/');
    assert(path_root(seq!['/'] + m) == m);
    lemma_trim_leading_slash(m, seq!['/'] + rest);
    assert(seq!['/'] + m + (seq!['/'] + rest) =~= seq!['/'] + m + seq!['/'] + rest);
    assert(m + (seq!['/'] + rest) =~= m + seq!['/'] + rest);
    crate::text::lemma_split_on_first(m, rest, '/');
    assert(path_root(seq!['/'] + m + seq!['/'] + rest) == m);
    let p = seq!['/'] + m + seq!['/'] + rest;
    assert(p.len() > 1);
    assert(p != "/"@) by {
        reveal_strlit("/");
    }
}

/// Only those folders are protected: outside an app's documents, a valid
/// path other than the root whose first component names none of them may be
/// changed.
pub proof fn law_other_folders_writable(path: Seq<char>)
    requires
        remote_path_valid(path),
        path != "/"@,
        !media_folder_named(path_root(path)),
    ensures
        mutation_allowed(path, true),
{
}

/// The path of `name` inside `parent` (an empty parent is the root).
pub open spec fn spec_remote_join(parent: Seq<char>, name: Seq<char>) -> Seq<char> {
    let p = if parent.len() == 0 {
        "/"@
    } else {
        parent
    };
    if p == "/"@ {
        "/"@ + name
    } else {
        trim_end_char(p, '/') + "/"@ + name
    }
}

/// Joins a device directory and a name.
pub fn remote_join(parent: &str, name: &str) -> (r: String)
    ensures
        r@ == spec_remote_join(parent@, name@),
{
    let chars = chars_of(parent);
    let mut out = if chars.len() == 0 || str_eq(parent, "/") {
        copy_str("/")
    } else {
        let mut d = string_of(&trim_end_chars(&chars, '/'));
        append_str(&mut d, "/");
        d
    };
    append_str(&mut out, name);
    proof {
        reveal_strlit("/");
    }
    out
}

/// An app's documents can only be opened with a bundle identifier.
pub fn check_bundle_selection(bundle_id: Option<&str>) -> (r: Result<(), CommandError>)
    ensures
        (bundle_id matches Some(b) && b@.len() == 0) <==> r is Err,
        r matches Err(e) ==> is_files_error(e, "files"@, "No file-sharing app selected"@),
{
    match bundle_id {
        Some(b) => if b.unicode_len() == 0 {
            Err(CommandError::new("files", "No file-sharing app selected", false))
        } else {
            Ok(())
        },
        None => Ok(()),
    }
}

// ---------------------------------------------------------------------------
// Listings
// ---------------------------------------------------------------------------

/// What AFC reports of one file, as plain values.
#[derive(Debug)]
pub struct AfcFileInfo {
    pub st_ifmt: String,
    pub size: u64,
    pub modified: String,
}

/// A name that is a directory entry of its own.
pub open spec fn real_entry() -> spec_fn(String) -> bool {
    |n: String| n@ != "."@ && n@ != ".."@
}

/// The names of a listing without `.` and `..`, in order.
pub fn listed_names(names: Vec<String>) -> (r: Vec<String>)
    ensures
        r@ == names@.filter(real_entry()),
{
    let ghost s = names@;
    let mut out: Vec<String> = Vec::new();
    let mut i: usize = 0;
    assert(s.take(0).filter(real_entry()) =~= Seq::<String>::empty()) by {
        reveal(Seq::filter);
    }
    while i < names.len()
        invariant
            i <= names.len(),
            s == names@,
            out@ == s.take(i as int).filter(real_entry()),
        decreases names.len() - i,
    {
        proof {
            lemma_filter_step(s, real_entry(), i as int);
            reveal_strlit(".");
            reveal_strlit("..");
        }
        if !str_eq(names[i].as_str(), ".") && !str_eq(names[i].as_str(), "..") {
            out.push(names[i].clone());
        }
        i = i + 1;
    }
    assert(s.take(names.len() as int) =~= s);
    out
}

/// The kind a listing shows for a file: `Folder`, its extension in upper
/// case, or `Document`.
pub open spec fn spec_entry_kind(name: Seq<char>, is_directory: bool) -> Seq<char> {
    if is_directory {
        "Folder"@
    } else {
        match path_extension(name) {
            Some(e) => uppercase(e),
            None => "Document"@,
        }
    }
}

/// The listing entry for `name` in `directory`; when its file information
/// could not be read, it is kept and marked unreadable.
pub fn file_entry(directory: &str, name: String, info: Option<AfcFileInfo>) -> (e: RemoteFileEntry)
    ensures
        e.path@ == spec_remote_join(directory@, name@),
        e.name@ == name@,
        match info {
            Some(i) => {
                &&& e.is_directory == (i.st_ifmt@ == "S_IFDIR"@)
                &&& e.kind@ == spec_entry_kind(name@, e.is_directory)
                &&& e.size == i.size
                &&& e.modified@ == i.modified@
                &&& !e.unreadable
            },
            None => {
                &&& e.unreadable
                &&& !e.is_directory
                &&& e.kind@.len() == 0
                &&& e.size == 0
                &&& e.modified@.len() == 0
            },
        },
{
    let path = remote_join(directory, name.as_str());
    match info {
        Some(i) => {
            let is_directory = str_eq(i.st_ifmt.as_str(), "S_IFDIR");
            let kind = if is_directory {
                copy_str("Folder")
            } else {
                match extension(name.as_str()) {
                    Some(ext) => to_uppercase(ext.as_str()),
                    None => copy_str("Document"),
                }
            };
            RemoteFileEntry {
                name,
                path,
                kind,
                is_directory,
                size: i.size,
                modified: i.modified,
                unreadable: false,
            }
        },
        None => RemoteFileEntry {
            name,
            path,
            kind: String::new(),
            is_directory: false,
            size: 0,
            modified: String::new(),
            unreadable: true,
        },
    }
}

/// The sort key of a listing entry: folders first, then by lower-cased name.
pub open spec fn entry_key(e: RemoteFileEntry) -> (bool, Seq<char>) {
    (e.is_directory, lowercase(e.name@))
}

pub open spec fn entry_order() -> spec_fn(RemoteFileEntry, RemoteFileEntry) -> bool {
    |a: RemoteFileEntry, b: RemoteFileEntry| key_before(entry_key(a), entry_key(b))
}

/// A listing in display order: folders first, then by lower-cased name,
/// ties in the order given.
pub fn sort_file_entries(entries: Vec<RemoteFileEntry>) -> (r: Vec<RemoteFileEntry>)
    ensures
        r@ == sorted_by(entries@, entry_order()),
{
    let mut flags: Vec<bool> = Vec::new();
    let mut texts: Vec<Vec<char>> = Vec::new();
    let mut i: usize = 0;
    while i < entries.len()
        invariant
            i <= entries.len(),
            flags@.len() == i,
            texts@.len() == i,
            forall|j: int| 0 <= j < i ==> #[trigger] entry_key(entries@[j]) == (flags@[j], texts@[j]@),
        decreases entries.len() - i,
    {
        flags.push(entries[i].is_directory);
        texts.push(chars_of(to_lowercase(entries[i].name.as_str()).as_str()));
        i = i + 1;
    }
    let ghost key = |e: RemoteFileEntry| entry_key(e);
    assert(ordered_by_key(entry_order(), key));
    sort_by_key(entries, flags, texts, Ghost(entry_order()), Ghost(key))
}

// ---------------------------------------------------------------------------
// Apps that share documents
// ---------------------------------------------------------------------------

/// The name an app is shown under: its display name, its bundle name, or its
/// bundle identifier.
pub open spec fn app_display_name(bundle_id: Seq<char>, d: PlistDict) -> Seq<char> {
    match spec_dict_string(d, seq!["CFBundleDisplayName"@, "CFBundleName"@]) {
        Some(n) => n,
        None => bundle_id,
    }
}

/// The entry for an installed app, when its information is a dictionary and
/// it enables file sharing.
pub fn file_sharing_app(bundle_id: String, info: Option<&PlistDict>) -> (r: Option<FileSharingApp>)
    ensures
        match info {
            Some(d) => if spec_plist_flag(*d, "UIFileSharingEnabled"@) {
                (r matches Some(a) && a.bundle_id@ == bundle_id@ && a.name@ == app_display_name(
                    bundle_id@,
                    *d,
                ))
            } else {
                r is None
            },
            None => r is None,
        },
{
    let d = match info {
        Some(d) => d,
        None => return None,
    };
    if !plist_flag(d, "UIFileSharingEnabled") {
        return None;
    }
    let keys: [&str; 2] = ["CFBundleDisplayName", "CFBundleName"];
    let name = dict_string(d, keys.as_slice());
    proof {
        assert(keys_view(keys@) =~= seq!["CFBundleDisplayName"@, "CFBundleName"@]);
    }
    let name = match name {
        Some(n) => n,
        None => bundle_id.clone(),
    };
    Some(FileSharingApp { bundle_id, name })
}

/// The sort key of an app: its lower-cased name.
pub open spec fn app_key(a: FileSharingApp) -> (bool, Seq<char>) {
    (false, lowercase(a.name@))
}

pub open spec fn app_order() -> spec_fn(FileSharingApp, FileSharingApp) -> bool {
    |a: FileSharingApp, b: FileSharingApp| key_before(app_key(a), app_key(b))
}

/// Apps in display order: by lower-cased name, ties in the order given.
pub fn sort_file_sharing_apps(apps: Vec<FileSharingApp>) -> (r: Vec<FileSharingApp>)
    ensures
        r@ == sorted_by(apps@, app_order()),
{
    let mut flags: Vec<bool> = Vec::new();
    let mut texts: Vec<Vec<char>> = Vec::new();
    let mut i: usize = 0;
    while i < apps.len()
        invariant
            i <= apps.len(),
            flags@.len() == i,
            texts@.len() == i,
            forall|j: int| 0 <= j < i ==> #[trigger] app_key(apps@[j]) == (flags@[j], texts@[j]@),
        decreases apps.len() - i,
    {
        flags.push(false);
        texts.push(chars_of(to_lowercase(apps[i].name.as_str()).as_str()));
        i = i + 1;
    }
    let ghost key = |a: FileSharingApp| app_key(a);
    assert(ordered_by_key(app_order(), key));
    sort_by_key(apps, flags, texts, Ghost(app_order()), Ghost(key))
}

/// A listing shows folders before files, each group by lower-cased name.
pub proof fn law_file_listing_folders_first(entries: Seq<RemoteFileEntry>)
    ensures
        is_sorted_by(sorted_by(entries, entry_order()), entry_order()),
        forall|i: int, j: int|
            0 <= i < j < sorted_by(entries, entry_order()).len() && (#[trigger] sorted_by(
                entries,
                entry_order(),
            )[j]).is_directory ==> (#[trigger] sorted_by(entries, entry_order())[i]).is_directory,
{
    lemma_key_order_strict(entry_order(), |e: RemoteFileEntry| entry_key(e));
    lemma_sorted_by_sorted(entries, entry_order());
    let l = sorted_by(entries, entry_order());
    assert forall|i: int, j: int| 0 <= i < j < l.len() && (#[trigger] l[j]).is_directory implies (#[trigger] l[i]).is_directory by {
        assert(!entry_order()(l[j], l[i]));
    }
}

} // verus!
