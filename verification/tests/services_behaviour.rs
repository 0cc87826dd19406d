use idevice_desktop::apps::{installed_app_fields, png_data_url, sort_installed_apps};
use idevice_desktop::device::{check_pairing_transport, paired_summary, refresh_failure, ConnectionKind};
use idevice_desktop::discovery::{DiscoveryCatalog, UsbDiscovery};
use idevice_desktop::error::CommandError;
use idevice_desktop::ipa::{
    app_root, check_code_resources, check_entry_size, check_ipa_choice, code_resources_path,
    executable_name, executable_path, find_info_plist, install_display_name, zip_error,
};
use idevice_desktop::location::location_transport;
use idevice_desktop::logs::{level_name, LogErrorCounter, LogLevel, MAX_CONSECUTIVE_LOG_ERRORS};
use idevice_desktop::overview::{battery_level, storage_summary, unique_chip_id};
use idevice_desktop::plist_data::{dict_u64, PlistDict, PlistValue};
use idevice_desktop::provider::{choose_address, AddressKind};
use idevice_desktop::screenshot::screenshot_data_url;
use idevice_desktop::state::{forgets_selection, selected, TaskRegistry, DEVICE_MONITOR_TASK};
use idevice_desktop::tunnel::{host_unreachable, remote_pairing_file_name, retry_bootstrap, tunnel_mss};
use idevice_desktop::device_version::DeveloperGeneration;

fn dict(entries: Vec<(&str, PlistValue)>) -> PlistDict {
    PlistDict { entries: entries.into_iter().map(|(k, v)| (k.to_string(), v)).collect() }
}

#[test]
fn checks_the_structure_of_an_ipa() {
    assert!(check_ipa_choice("/tmp/App.IPA", true).is_ok());
    assert_eq!(check_ipa_choice("/tmp/App.zip", true).unwrap_err().message, "Please choose a valid .ipa file");
    assert!(check_ipa_choice("/tmp/App.ipa", false).is_err());
    let names = vec![
        "Payload/".to_string(),
        "Payload/App.app/Frameworks/Info.plist".into(),
        "Payload/App.app/Info.plist".into(),
    ];
    let info = find_info_plist(&names).unwrap();
    assert_eq!(info, "Payload/App.app/Info.plist");
    assert!(find_info_plist(&vec!["Payload/App/Info.plist".to_string()]).is_err());
    let root = app_root(&info).unwrap();
    assert_eq!(root, "Payload/App.app");
    assert_eq!(code_resources_path(&root), "Payload/App.app/_CodeSignature/CodeResources");
    assert!(check_code_resources(None).is_err());
    assert_eq!(check_code_resources(Some(0)).unwrap_err().message, "This IPA is not signed: CodeResources is empty");
    assert!(check_code_resources(Some(10)).is_ok());
    assert_eq!(executable_name(Some("App".into())).unwrap(), "App");
    assert!(executable_name(Some("../App".into())).is_err());
    assert!(executable_name(Some("a\\b".into())).is_err());
    assert!(executable_name(Some(String::new())).is_err());
    assert_eq!(executable_path(&root, "App"), "Payload/App.app/App");
    assert_eq!(check_entry_size("big", 11, 10).unwrap_err().message, "IPA entry is too large: big");
    assert_eq!(zip_error("Invalid IPA archive", "bad header").message, "Invalid IPA archive: bad header");
    assert_eq!(install_display_name("/Users/me/App.ipa"), "App.ipa");
    assert_eq!(install_display_name("/"), "Application.ipa");
}

#[test]
fn lists_user_apps_with_their_sizes() {
    let user = dict(vec![
        ("CFBundleDisplayName", PlistValue::String("Zeta".into())),
        ("CFBundleVersion", PlistValue::String("12".into())),
        ("StaticDiskUsage", PlistValue::Unsigned(100)),
        ("DynamicDiskUsage", PlistValue::String("25".into())),
    ]);
    let app = installed_app_fields("com.zeta".into(), &user).unwrap();
    assert_eq!((app.name.as_str(), app.version.as_str(), app.size_bytes), ("Zeta", "12", 125));
    let system = dict(vec![("ApplicationType", PlistValue::String("System".into()))]);
    assert!(installed_app_fields("com.apple".into(), &system).is_none());
    let bare = installed_app_fields("com.bare".into(), &dict(vec![])).unwrap();
    assert_eq!((bare.name.as_str(), bare.version.as_str(), bare.size_bytes), ("com.bare", "", 0));
    let sorted = sort_installed_apps(vec![app, bare]);
    assert_eq!(sorted[0].name, "com.bare");
}

#[test]
fn reads_numbers_from_property_lists() {
    let d = dict(vec![
        ("negative", PlistValue::Negative(-3)),
        ("real", PlistValue::Real(7)),
        ("text", PlistValue::String("+42".into())),
        ("bad", PlistValue::String("4x".into())),
    ]);
    assert_eq!(dict_u64(&d, &["negative", "real"]), Some(7));
    assert_eq!(dict_u64(&d, &["text"]), Some(42));
    assert_eq!(dict_u64(&d, &["bad", "missing"]), None);
}

#[test]
fn encodes_images_as_data_urls() {
    assert_eq!(png_data_url(&[1, 2, 3]), "data:image/png;base64,AQID");
    assert_eq!(screenshot_data_url(&[0xff]).unwrap(), "data:image/png;base64,/w==");
    let error = screenshot_data_url(&[]).unwrap_err();
    assert_eq!(error.message, "The device returned an empty screenshot");
    assert!(error.retryable);
}

#[test]
fn registers_one_task_per_key() {
    let mut tasks = TaskRegistry::new();
    assert_eq!(tasks.replace_task("file-transfer", 1), None);
    assert_eq!(tasks.replace_task("file-transfer", 2), Some(1));
    assert_eq!(tasks.replace_task(DEVICE_MONITOR_TASK, 3), None);
    assert_eq!(tasks.replace_task("logs", 4), None);
    let cancelled: Vec<_> = tasks.cancel_device_tasks().into_iter().map(|(k, t)| (k, t)).collect();
    assert_eq!(cancelled, vec![("file-transfer".to_string(), 2), ("logs".to_string(), 4)]);
    assert_eq!(tasks.cancel_task("logs"), None);
    assert_eq!(tasks.cancel_task(DEVICE_MONITOR_TASK), Some(3));
    assert_eq!(tasks.cancel_task(DEVICE_MONITOR_TASK), None);
}

#[test]
fn addresses_the_selected_device() {
    assert_eq!(selected(Some("A".into()), &Some("B".into())).as_deref(), Some("A"));
    assert_eq!(selected(None, &Some("B".into())).as_deref(), Some("B"));
    assert_eq!(selected(None, &None), None);
    assert!(forgets_selection(&Some("B".into()), "B"));
    assert!(!forgets_selection(&Some("B".into()), "C"));
}

#[test]
fn prefers_ipv4_then_routable_ipv6() {
    let kinds = vec![None, Some(AddressKind::V6LinkLocal), Some(AddressKind::V6), Some(AddressKind::V4), Some(AddressKind::V4)];
    assert_eq!(choose_address("h", &kinds).unwrap(), 3);
    assert_eq!(choose_address("h", &vec![Some(AddressKind::V6LinkLocal), Some(AddressKind::V6)]).unwrap(), 1);
    let none = choose_address("phone.local", &vec![None]).unwrap_err();
    assert_eq!(none.message, "Bonjour returned no usable address for phone.local");
    let link_local = choose_address("h", &vec![Some(AddressKind::V6LinkLocal)]).unwrap_err();
    assert!(link_local.message.contains("link-local"));
}

#[test]
fn gives_up_on_the_log_stream_after_twelve_errors() {
    let mut counter = LogErrorCounter::new();
    for _ in 0..MAX_CONSECUTIVE_LOG_ERRORS - 1 {
        assert!(!counter.read_failed());
    }
    counter.line_read();
    for _ in 0..MAX_CONSECUTIVE_LOG_ERRORS - 1 {
        assert!(!counter.read_failed());
    }
    assert!(counter.read_failed());
    assert_eq!(level_name(LogLevel::Fault), "FAULT");
}

#[test]
fn names_tunnel_files_and_failures() {
    assert_eq!(remote_pairing_file_name("U1"), "remote-pairing-U1.plist");
    assert!(retry_bootstrap(0) && retry_bootstrap(1) && !retry_bootstrap(2));
    assert_eq!(host_unreachable("h", 49152, None).message, "Unable to connect to h:49152: Bonjour returned no address");
    assert_eq!(host_unreachable("h", 1, Some("refused".into())).message, "Unable to connect to h:1: refused");
    assert_eq!(tunnel_mss(1280), 1220);
    assert_eq!(tunnel_mss(20), 0);
}

#[test]
fn summarizes_storage_and_battery() {
    let storage = storage_summary(100, 130, 4096);
    assert_eq!((storage.used_bytes, storage.free_bytes), (0, 130));
    assert_eq!(storage_summary(100, 30, 4096).used_bytes, 70);
    let values = dict(vec![("UniqueChipID", PlistValue::Unsigned(0xab12)), ("BatteryCurrentCapacity", PlistValue::Unsigned(5))]);
    assert_eq!(unique_chip_id(&values).as_deref(), Some("0xAB12"));
    let empty = dict(vec![]);
    let domain = dict(vec![("BatteryCurrentCapacity", PlistValue::Unsigned(80))]);
    assert_eq!(battery_level(&empty, &domain, &values), Some(80));
    assert_eq!(battery_level(&empty, &empty, &values), Some(5));
}

#[test]
fn pairs_only_over_usb_and_reports_the_paired_device() {
    assert!(check_pairing_transport(&ConnectionKind::Usb).is_ok());
    assert!(check_pairing_transport(&ConnectionKind::Network("10.0.0.1".into())).is_err());
    let summary = paired_summary(UsbDiscovery {
        udid: "P1".into(),
        device_id: 4,
        connection: "USB".into(),
        paired: true,
        name: None,
        model: None,
        ios: None,
        wifi_address: None,
    });
    assert_eq!((summary.id.as_str(), summary.transports.clone()), ("P1", vec!["USB".to_string()]));
    assert!(summary.connectable);
    let catalog = DiscoveryCatalog::default();
    assert!(refresh_failure(CommandError::new("idevice", "down", true), &catalog).is_err());
}

#[test]
fn picks_the_location_transport_by_generation() {
    assert_eq!(location_transport(DeveloperGeneration::Legacy), "Lockdown");
    assert_eq!(location_transport(DeveloperGeneration::CoreDeviceLockdown), "DVT/RSD");
}
