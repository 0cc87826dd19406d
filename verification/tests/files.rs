use idevice_desktop::files::{
    ensure_mutation_allowed, protected_media_path, transfer_name, transfer_percent,
    validate_remote_path,
};

#[test]
fn protects_ios_managed_media_roots() {
    assert!(protected_media_path("/DCIM/100APPLE/IMG_0001.HEIC"));
    assert!(protected_media_path("/PhotoData/Photos.sqlite"));
    assert!(!protected_media_path("/Downloads/example.pdf"));
}

#[test]
fn app_documents_are_not_subject_to_media_protection() {
    assert!(ensure_mutation_allowed("/DCIM/file.txt", None).is_err());
    assert!(ensure_mutation_allowed("/DCIM/file.txt", Some("com.example.app")).is_ok());
}

#[test]
fn rejects_relative_paths_and_root_mutation() {
    assert!(validate_remote_path("/Documents/../Library").is_err());
    assert!(ensure_mutation_allowed("/", Some("com.example.app")).is_err());
}

#[test]
fn reports_transfer_percent() {
    assert_eq!(transfer_percent(0, 400), 0);
    assert_eq!(transfer_percent(100, 400), 25);
    assert_eq!(transfer_percent(400, 400), 100);
}

/// An empty file is a legitimate transfer, and dividing by its size is not.
#[test]
fn treats_an_empty_file_as_complete() {
    assert_eq!(transfer_percent(0, 0), 100);
}

/// The size is read before the transfer starts, so a file that grows in
/// between would otherwise report more than 100.
#[test]
fn clamps_when_more_arrives_than_expected() {
    assert_eq!(transfer_percent(900, 400), 100);
}

#[test]
fn names_a_transfer_by_its_last_path_component() {
    assert_eq!(transfer_name("/Downloads/report.pdf"), "report.pdf");
    assert_eq!(transfer_name("/Exports/"), "Exports");
    assert_eq!(transfer_name("plain.txt"), "plain.txt");
}
