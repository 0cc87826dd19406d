use idevice_desktop::discovery::{
    normalize_mac, BonjourEndpoint, DiscoveryCatalog, LockdownTarget, RemotePairingTarget,
    UsbDiscovery, MOBDEV2_SERVICE, REMOTE_PAIRING_SERVICE,
};

fn usb(udid: &str, wifi: &str) -> UsbDiscovery {
    UsbDiscovery {
        udid: udid.into(),
        device_id: 7,
        connection: "USB".into(),
        paired: true,
        name: Some("Test iPhone".into()),
        model: Some("iPhone11,8".into()),
        ios: Some("17.0".into()),
        wifi_address: Some(wifi.into()),
    }
}

fn mobdev(wifi: &str) -> BonjourEndpoint {
    BonjourEndpoint {
        fullname: format!("{wifi}@Test iPhone.{MOBDEV2_SERVICE}"),
        service_type: MOBDEV2_SERVICE.into(),
        hostname: "test.local".into(),
        port: 62078,
        addresses: vec!["192.168.1.20".into()],
        udid: None,
        wifi_address: normalize_mac(wifi),
        name: Some("Test iPhone".into()),
    }
}

fn remote_pairing() -> BonjourEndpoint {
    BonjourEndpoint {
        fullname: "pairing._remotepairing._tcp.local.".into(),
        service_type: REMOTE_PAIRING_SERVICE.into(),
        hostname: "test.local".into(),
        port: 49_152,
        addresses: vec!["192.168.1.20".into()],
        udid: None,
        wifi_address: None,
        name: None,
    }
}

#[test]
fn merges_bonjour_and_usb_by_wifi_address() {
    let mut catalog = DiscoveryCatalog::default();
    let network = catalog.upsert_bonjour(mobdev("AA:BB:CC:DD:EE:FF"));
    assert!(!network.connectable);
    let merged = catalog.upsert_usb(usb("device-udid", "aa-bb-cc-dd-ee-ff"));
    assert!(merged.connectable);
    assert_eq!(merged.id, "device-udid");
    assert_eq!(merged.transports, vec!["USB", "Wi-Fi"]);
    assert_eq!(catalog.summaries().len(), 1);
}

#[test]
fn keeps_network_record_after_usb_disconnect() {
    let mut catalog = DiscoveryCatalog::default();
    catalog.upsert_bonjour(mobdev("AA:BB:CC:DD:EE:FF"));
    catalog.upsert_usb(usb("device-udid", "AA:BB:CC:DD:EE:FF"));
    catalog.remove_usbmuxd(7);
    let devices = catalog.summaries();
    assert_eq!(devices.len(), 1);
    assert!(devices[0].connectable);
    assert!(devices[0].paired);
    assert_eq!(devices[0].connection, "Network · Wi-Fi");
}

#[test]
fn replaces_stale_usbmuxd_snapshot_without_losing_bonjour() {
    let mut catalog = DiscoveryCatalog::default();
    catalog.upsert_bonjour(mobdev("AA:BB:CC:DD:EE:FF"));
    catalog.upsert_usb(usb("device-udid", "AA:BB:CC:DD:EE:FF"));
    catalog.replace_usbmuxd(Vec::new());
    assert_eq!(catalog.summaries().len(), 1);
    assert!(catalog.summaries()[0].connectable);
    assert!(catalog.summaries()[0].paired);
}

#[test]
fn resolves_remote_pairing_target_for_merged_device() {
    let mut catalog = DiscoveryCatalog::default();
    catalog.upsert_usb(usb("device-udid", "AA:BB:CC:DD:EE:FF"));
    catalog.upsert_bonjour(mobdev("AA:BB:CC:DD:EE:FF"));
    catalog.upsert_bonjour(remote_pairing());

    assert_eq!(
        catalog.remote_pairing_target("device-udid"),
        Some(RemotePairingTarget {
            hostname: "test.local".into(),
            port: 49_152,
        })
    );
    assert_eq!(
        catalog.lockdown_target("device-udid"),
        Some(LockdownTarget {
            hostname: "test.local".into(),
            addresses: vec!["192.168.1.20".into()],
        })
    );
}

#[test]
fn coalesces_remote_first_observations_when_mobdev_bridges_usb() {
    let mut catalog = DiscoveryCatalog::default();
    catalog.upsert_bonjour(remote_pairing());
    assert!(catalog.summaries().is_empty());

    catalog.upsert_usb(usb("device-udid", "AA:BB:CC:DD:EE:FF"));
    assert_eq!(catalog.summaries().len(), 1);

    catalog.upsert_bonjour(mobdev("AA:BB:CC:DD:EE:FF"));
    let devices = catalog.summaries();
    assert_eq!(devices.len(), 1);
    assert_eq!(devices[0].id, "device-udid");
    assert_eq!(devices[0].transports, vec!["USB", "Wi-Fi", "RemotePairing"]);
    assert_eq!(
        catalog.remote_pairing_target("device-udid"),
        Some(RemotePairingTarget {
            hostname: "test.local".into(),
            port: 49_152,
        })
    );
}
