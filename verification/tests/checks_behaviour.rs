use idevice_desktop::apps::system_app;
use idevice_desktop::crash_reports::{entry_type, EntryType};
use idevice_desktop::developer::{attach_failure, ddi_probe_arguments, decode_hex_message};
use idevice_desktop::files::TransferProgress;
use idevice_desktop::plist_data::{PlistDict, PlistValue};

fn dict(entries: Vec<(&str, PlistValue)>) -> PlistDict {
    PlistDict {
        entries: entries
            .into_iter()
            .map(|(key, value)| (key.to_string(), value))
            .collect(),
    }
}

#[test]
fn only_pairs_of_hex_digits_decode() {
    assert_eq!(decode_hex_message("+4"), None);
    assert_eq!(decode_hex_message("+f+f"), None);
    assert_eq!(decode_hex_message("41+4"), None);
    assert_eq!(decode_hex_message("4é1"), None);
    assert_eq!(decode_hex_message("zéa"), None);
    assert_eq!(decode_hex_message("aé"), None);
    assert_eq!(decode_hex_message("4869").as_deref(), Some("Hi"));
}

#[test]
fn a_message_that_is_not_hex_falls_back_to_the_error_code() {
    assert_eq!(
        attach_failure(Some("E08;aéb")).as_deref(),
        Some("debugserver rejected the attach with error 08")
    );
    assert_eq!(
        attach_failure(Some("E96;4é1")).as_deref(),
        Some("debugserver rejected the attach with error 96")
    );
    assert_eq!(attach_failure(Some("Ezz;4é1")), None);
    assert_eq!(attach_failure(Some("T11thread:1;")), None);
}

#[test]
fn probes_ddi_services_without_mounting() {
    assert_eq!(
        ddi_probe_arguments("UDID-1"),
        vec!["device", "info", "ddiServices", "--device", "UDID-1", "--no-auto-mount-ddis"]
    );
}

#[test]
fn reads_file_types_from_afc() {
    assert!(matches!(entry_type("S_IFDIR"), EntryType::Directory));
    assert!(matches!(entry_type("S_IFREG"), EntryType::Regular));
    assert!(matches!(entry_type("S_IFLNK"), EntryType::Other));
    assert!(matches!(entry_type("s_ifdir"), EntryType::Other));
}

#[test]
fn recognises_system_apps_in_any_case() {
    assert!(system_app(&dict(vec![("ApplicationType", PlistValue::String("System".into()))])));
    assert!(system_app(&dict(vec![("ApplicationType", PlistValue::String("SYSTEM".into()))])));
    assert!(!system_app(&dict(vec![("ApplicationType", PlistValue::String("User".into()))])));
    assert!(!system_app(&dict(vec![])));
}

#[test]
fn counts_the_bytes_a_transfer_has_moved() {
    let (mut progress, _) = TransferProgress::new("upload", "a.bin".into(), 10);
    assert_eq!(progress.transferred(), 0);
    progress.advance(4);
    progress.advance(3);
    assert_eq!(progress.transferred(), 7);
}
