use idevice_desktop::device::{connection_label, resolve_selection, ConnectionKind};

#[test]
fn labels_every_connection_kind() {
    assert_eq!(connection_label(&ConnectionKind::Usb), "USB");
    assert_eq!(
        connection_label(&ConnectionKind::Network("192.168.1.20".into())),
        "Network · 192.168.1.20"
    );
    assert_eq!(
        connection_label(&ConnectionKind::Unknown("Carrier".into())),
        "Carrier",
        "an unrecognised kind is shown as reported rather than replaced"
    );
}

#[test]
fn prefers_the_routable_udid_over_the_requested_id() {
    let resolved = resolve_selection("bonjour:abc", Some("REAL-UDID".into()), true)
        .expect("a connectable record routes");
    assert_eq!(
        resolved, "REAL-UDID",
        "the catalog key was requested, but the device is reached by its UDID"
    );
}

#[test]
fn refuses_a_known_record_with_no_route() {
    let error = resolve_selection("KNOWN-UDID", None, true)
        .expect_err("a known but unroutable record must be refused up front");
    assert_eq!(error.kind, "network_discovery");
    assert!(error.retryable, "plugging in USB makes this succeed");
    assert!(error.message.contains("USB"));
}

#[test]
fn refuses_a_bonjour_key_even_when_the_catalog_has_dropped_it() {
    assert!(
        resolve_selection("bonjour:stale", None, false).is_err(),
        "a bonjour: key never names something usbmuxd can open"
    );
}

#[test]
fn passes_through_an_unknown_udid() {
    let resolved = resolve_selection("FRESH-UDID", None, false)
        .expect("an id the catalog has not seen yet is still attempted");
    assert_eq!(resolved, "FRESH-UDID");
}
