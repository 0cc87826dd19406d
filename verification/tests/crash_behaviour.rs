use idevice_desktop::crash_reports::{
    check_export_destination, report_content, report_kind, report_modified, report_process,
    sort_reports, validate_report_path, CrashReportWalk, EntryStep, EntryType, MAX_PREVIEW_BYTES,
    MAX_REPORTS,
};
use idevice_desktop::types::CrashReportSummary;

#[test]
fn normalizes_report_paths() {
    assert_eq!(validate_report_path("///a/b.ips").unwrap(), "a/b.ips");
    let error = validate_report_path("a/./b").unwrap_err();
    assert_eq!(error.kind, "crash_reports");
    assert_eq!(error.message, "Invalid crash report path");
    assert!(!error.retryable);
    assert!(validate_report_path("a\0b").is_err());
}

#[test]
fn reads_names_without_timestamps() {
    assert_eq!(report_process("Plain.ips"), "Plain");
    assert_eq!(report_kind("Plain"), "REPORT");
    assert_eq!(report_kind("x.synced"), "SYNCED");
    assert_eq!(report_modified("Plain.ips"), "");
    assert_eq!(report_modified("A-2026-07-24-1200.ips"), "");
}

#[test]
fn takes_the_last_timestamp_in_a_name() {
    assert_eq!(
        report_modified("A-2020-01-02-030405-2021-02-03-040506.ips"),
        "2021-02-03 04:05:06"
    );
}

#[test]
fn walks_directories_depth_first_and_records_reports() {
    let mut walk = CrashReportWalk::new();
    assert_eq!(walk.next_directory().as_deref(), Some("/"));
    assert!(matches!(walk.entry("/", "."), EntryStep::Skip));
    assert!(matches!(walk.entry("/", "a/b"), EntryStep::Skip));
    assert!(matches!(walk.entry("/", "App-2026-01-02-030405.ips"), EntryStep::Recorded));
    match walk.entry("/", "Retired") {
        EntryStep::Inspect(path) => {
            assert_eq!(path, "/Retired");
            walk.inspected(EntryType::Directory, String::new(), 0);
        }
        _ => panic!("a directory needs inspecting"),
    }
    match walk.entry("/", "notes.txt") {
        EntryStep::Inspect(path) => {
            assert_eq!(path, "/notes.txt");
            walk.inspected(EntryType::Regular, "2026-05-05 10:00:00".into(), 42)
        }
        _ => panic!("an unknown file needs inspecting"),
    }
    assert_eq!(walk.next_directory().as_deref(), Some("/Retired"));
    assert_eq!(walk.next_directory(), None);
    let reports = walk.finish();
    assert_eq!(reports.len(), 2);
    assert_eq!(reports[0].name, "notes.txt");
    assert_eq!(reports[0].size_bytes, Some(42));
    assert_eq!(reports[0].path, "/notes.txt");
    assert_eq!(reports[1].path, "/App-2026-01-02-030405.ips");
    assert_eq!(reports[1].modified, "2026-01-02 03:04:05");
    assert_eq!(reports[1].process, "App");
    assert_eq!(reports[1].kind, "IPS");
}

#[test]
fn records_an_inspected_entry_only_while_it_is_awaited() {
    let mut walk = CrashReportWalk::new();
    assert_eq!(walk.next_directory().as_deref(), Some("/"));
    // Nothing is awaited yet: the type read is ignored.
    walk.inspected(EntryType::Regular, "2026-01-01 00:00:00".into(), 1);
    // An entry asked about and then passed over is no longer awaited.
    assert!(matches!(walk.entry("/Logs/", "a.txt"), EntryStep::Inspect(_)));
    assert!(matches!(walk.entry("/Logs/", ".."), EntryStep::Skip));
    walk.inspected(EntryType::Regular, "2026-01-01 00:00:00".into(), 1);
    match walk.entry("/Logs/", "b.txt") {
        EntryStep::Inspect(path) => assert_eq!(path, "/Logs/b.txt"),
        _ => panic!("an unknown file needs inspecting"),
    }
    walk.inspected(EntryType::Regular, "2026-02-02 00:00:00".into(), 7);
    // Inspecting again without a new entry adds nothing.
    walk.inspected(EntryType::Regular, "2026-03-03 00:00:00".into(), 9);
    let reports = walk.finish();
    assert_eq!(reports.len(), 1);
    assert_eq!(reports[0].name, "b.txt");
    assert_eq!(reports[0].path, "/Logs/b.txt");
    assert_eq!(reports[0].process, "b");
    assert_eq!(reports[0].size_bytes, Some(7));
}

#[test]
fn stops_collecting_at_the_cap() {
    let mut walk = CrashReportWalk::new();
    for index in 0..MAX_REPORTS {
        walk.entry("/", &format!("r{index}.ips"));
    }
    assert!(walk.full());
    walk.entry("/", "extra.ips");
    assert_eq!(walk.next_directory(), None);
    assert_eq!(walk.finish().len(), MAX_REPORTS);
}

fn summary(name: &str, modified: &str) -> CrashReportSummary {
    CrashReportSummary {
        name: name.into(),
        path: format!("/{name}"),
        kind: "IPS".into(),
        process: name.into(),
        size_bytes: None,
        modified: modified.into(),
    }
}

#[test]
fn orders_reports_newest_first_then_by_name() {
    let sorted = sort_reports(vec![
        summary("b", "2026-01-01"),
        summary("C", "2026-02-01"),
        summary("a", "2026-01-01"),
        summary("z", ""),
    ]);
    let names: Vec<_> = sorted.iter().map(|r| r.name.as_str()).collect();
    assert_eq!(names, vec!["C", "a", "b", "z"]);
}

#[test]
fn previews_at_most_the_limit() {
    let small = report_content("/x".into(), b"hello");
    assert_eq!((small.content.as_str(), small.truncated, small.size_bytes), ("hello", false, 5));
    let big = vec![b'a'; MAX_PREVIEW_BYTES + 3];
    let preview = report_content("/y".into(), &big);
    assert!(preview.truncated);
    assert_eq!(preview.content.len(), MAX_PREVIEW_BYTES);
    assert_eq!(preview.size_bytes, (MAX_PREVIEW_BYTES + 3) as u64);
    let lossy = report_content("/z".into(), &[0x66, 0xff, 0x67]);
    assert_eq!(lossy.content, "f\u{fffd}g");
}

#[test]
fn needs_an_export_destination() {
    assert!(check_export_destination("/tmp/out.ips").is_ok());
    let error = check_export_destination("  \t").unwrap_err();
    assert_eq!(error.message, "No export destination selected");
}
