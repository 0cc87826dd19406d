use idevice_desktop::crash_reports::{
    looks_like_report, report_kind, report_modified, report_process, validate_report_path,
};

#[test]
fn validates_report_paths() {
    assert_eq!(
        validate_report_path("/DiagnosticLogs/App.ips").unwrap(),
        "DiagnosticLogs/App.ips"
    );
    assert!(validate_report_path("../App.ips").is_err());
    assert!(validate_report_path("/DiagnosticLogs//App.ips").is_err());
    assert!(validate_report_path("/").is_err());
}

#[test]
fn derives_report_metadata_from_filename() {
    assert_eq!(
        report_process("ExampleApp-2026-07-24-120000.ips"),
        "ExampleApp"
    );
    assert_eq!(report_process("JetsamEvent_2026-07-24.ips"), "JetsamEvent");
    assert_eq!(report_kind("ExampleApp.crash"), "CRASH");
    assert!(looks_like_report("ExampleApp.ips"));
    assert!(!looks_like_report("DiagnosticLogs"));
    assert_eq!(
        report_modified("ExampleApp-2026-07-24-120000.ips"),
        "2026-07-24 12:00:00"
    );
}
