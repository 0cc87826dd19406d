use idevice_desktop::files::{
    cancelled, check_bundle_selection, ensure_mutation_allowed, file_entry, file_sharing_app,
    listed_names, remote_join, sort_file_entries, sort_file_sharing_apps, validate_remote_path,
    AfcFileInfo, TransferProgress,
};
use idevice_desktop::plist_data::{PlistDict, PlistValue};
use idevice_desktop::types::FileSharingApp;

#[test]
fn reports_progress_only_when_the_percent_changes() {
    let (mut progress, first) = TransferProgress::new("upload", "a.bin".into(), 400);
    assert_eq!((first.operation.as_str(), first.item.as_str(), first.percent), ("upload", "a.bin", 0));
    assert_eq!(progress.advance(1), None);
    assert_eq!(progress.advance(3).map(|e| e.percent), Some(1));
    assert_eq!(progress.advance(396).map(|e| e.percent), Some(100));
    assert_eq!(progress.finish(), None);
}

#[test]
fn finishing_an_empty_transfer_reports_completion() {
    let (progress, first) = TransferProgress::new("download", "empty".into(), 0);
    assert_eq!(first.percent, 0);
    assert_eq!(progress.finish().map(|e| e.percent), Some(100));
}

#[test]
fn names_the_cancellation_error() {
    let error = cancelled();
    assert_eq!(error.kind, "cancelled");
    assert_eq!(error.message, "Transfer cancelled");
    assert!(!error.retryable);
}

#[test]
fn reports_each_path_error() {
    let invalid = validate_remote_path("Documents/a").unwrap_err();
    assert_eq!(invalid.message, "Invalid device file path");
    assert!(validate_remote_path("/a\0b").is_err());
    let relative = validate_remote_path("/a/./b").unwrap_err();
    assert_eq!(relative.message, "Relative path components are not allowed");
    assert!(validate_remote_path("/a/.hidden/b").is_ok());
    let root = ensure_mutation_allowed("/", None).unwrap_err();
    assert_eq!(root.message, "The file root cannot be modified");
    let media = ensure_mutation_allowed("///Books/x", None).unwrap_err();
    assert_eq!(media.kind, "files_read_only");
    assert!(ensure_mutation_allowed("/Downloads/x", None).is_ok());
}

#[test]
fn joins_device_paths() {
    assert_eq!(remote_join("", "a"), "/a");
    assert_eq!(remote_join("/", "a"), "/a");
    assert_eq!(remote_join("/Docs//", "a"), "/Docs/a");
    assert_eq!(remote_join("/Docs", "a"), "/Docs/a");
}

#[test]
fn needs_a_bundle_to_open_app_documents() {
    assert!(check_bundle_selection(None).is_ok());
    assert!(check_bundle_selection(Some("com.example")).is_ok());
    assert_eq!(check_bundle_selection(Some("")).unwrap_err().message, "No file-sharing app selected");
}

#[test]
fn keeps_only_real_entries_of_a_listing() {
    let names = vec![".".to_string(), "a".into(), "..".into(), ".b".into()];
    assert_eq!(listed_names(names), vec!["a", ".b"]);
}

#[test]
fn describes_listing_entries() {
    let folder = file_entry(
        "/",
        "Photos".into(),
        Some(AfcFileInfo { st_ifmt: "S_IFDIR".into(), size: 64, modified: "2026-01-01 00:00:00".into() }),
    );
    assert_eq!((folder.path.as_str(), folder.kind.as_str(), folder.is_directory), ("/Photos", "Folder", true));
    let pdf = file_entry(
        "/Docs",
        "report.pdf".into(),
        Some(AfcFileInfo { st_ifmt: "S_IFREG".into(), size: 10, modified: "m".into() }),
    );
    assert_eq!((pdf.kind.as_str(), pdf.size, pdf.unreadable), ("PDF", 10, false));
    let plain = file_entry(
        "/Docs",
        ".profile".into(),
        Some(AfcFileInfo { st_ifmt: "S_IFREG".into(), size: 1, modified: "m".into() }),
    );
    assert_eq!(plain.kind, "Document");
    let unreadable = file_entry("/Docs", "locked.bin".into(), None);
    assert!(unreadable.unreadable);
    assert_eq!(unreadable.name, "locked.bin");
    assert_eq!(unreadable.path, "/Docs/locked.bin");
}

#[test]
fn lists_folders_first_then_by_lower_cased_name() {
    let entry = |name: &str, dir: bool| {
        file_entry(
            "/",
            name.into(),
            Some(AfcFileInfo {
                st_ifmt: if dir { "S_IFDIR".into() } else { "S_IFREG".into() },
                size: 0,
                modified: String::new(),
            }),
        )
    };
    let sorted = sort_file_entries(vec![entry("b.txt", false), entry("Zed", true), entry("A.txt", false), entry("alpha", true)]);
    let names: Vec<_> = sorted.iter().map(|e| e.name.as_str()).collect();
    assert_eq!(names, vec!["alpha", "Zed", "A.txt", "b.txt"]);
}

fn dict(entries: Vec<(&str, PlistValue)>) -> PlistDict {
    PlistDict { entries: entries.into_iter().map(|(k, v)| (k.to_string(), v)).collect() }
}

#[test]
fn lists_apps_that_share_documents() {
    let sharing = dict(vec![
        ("UIFileSharingEnabled", PlistValue::String("YES".into())),
        ("CFBundleName", PlistValue::String("Notes".into())),
    ]);
    let app = file_sharing_app("com.example.notes".into(), Some(&sharing)).unwrap();
    assert_eq!((app.bundle_id.as_str(), app.name.as_str()), ("com.example.notes", "Notes"));
    let by_number = dict(vec![("UIFileSharingEnabled", PlistValue::Unsigned(1))]);
    assert_eq!(file_sharing_app("b".into(), Some(&by_number)).unwrap().name, "b");
    let off = dict(vec![("UIFileSharingEnabled", PlistValue::Boolean(false))]);
    assert!(file_sharing_app("c".into(), Some(&off)).is_none());
    assert!(file_sharing_app("d".into(), None).is_none());
}

#[test]
fn orders_sharing_apps_by_lower_cased_name() {
    let app = |name: &str| FileSharingApp { bundle_id: name.to_lowercase(), name: name.into() };
    let sorted = sort_file_sharing_apps(vec![app("beta"), app("Alpha"), app("alpha")]);
    let names: Vec<_> = sorted.iter().map(|a| a.name.as_str()).collect();
    assert_eq!(names, vec!["Alpha", "alpha", "beta"]);
}

#[test]
fn transfer_reports_rise_to_completion() {
    let (mut progress, first) = TransferProgress::new("upload", "big.bin".into(), 1000);
    let mut percents = vec![first.percent];
    for chunk in [3usize, 5, 7, 100, 0, 2, 300, 1, 500] {
        if let Some(report) = progress.advance(chunk) {
            percents.push(report.percent);
        }
    }
    // 918 of 1000 bytes have arrived; finishing reports 100.
    if let Some(report) = progress.finish() {
        percents.push(report.percent);
    }
    assert!(percents.windows(2).all(|pair| pair[0] < pair[1]), "{percents:?}");
    assert_eq!(percents.last(), Some(&100));
    assert_eq!(percents, vec![0, 1, 11, 41, 91, 100]);
}
