use idevice_desktop::device::{apply_discovery_event, DiscoveryEvent};
use idevice_desktop::discovery::{
    nonempty, normalize_mac, service_instance, udid_property_keys, BonjourEndpoint,
    DiscoveryCatalog, ResolvedServiceInfo, UsbDiscovery, MOBDEV2_SERVICE,
    REMOTE_PAIRING_MANUAL_SERVICE, REMOTE_PAIRING_SERVICE,
};

fn usb_device(udid: &str, device_id: u32, name: &str, connection: &str) -> UsbDiscovery {
    UsbDiscovery {
        udid: udid.into(),
        device_id,
        connection: connection.into(),
        paired: false,
        name: Some(name.into()),
        model: None,
        ios: None,
        wifi_address: None,
    }
}

fn endpoint(fullname: &str, service_type: &str, hostname: &str, address: &str) -> BonjourEndpoint {
    BonjourEndpoint {
        fullname: fullname.into(),
        service_type: service_type.into(),
        hostname: hostname.into(),
        port: 1,
        addresses: vec![address.into()],
        udid: None,
        wifi_address: None,
        name: None,
    }
}

#[test]
fn normalizes_mac_addresses_to_twelve_upper_case_digits() {
    assert_eq!(normalize_mac("aa-bb-cc-dd-ee-ff").as_deref(), Some("AABBCCDDEEFF"));
    assert_eq!(normalize_mac("AA:BB:CC:DD:EE:FF").as_deref(), Some("AABBCCDDEEFF"));
    assert_eq!(normalize_mac("aa:bb:cc"), None);
    assert_eq!(normalize_mac("aa:bb:cc:dd:ee:ff:00"), None);
}

#[test]
fn a_normalized_mac_normalizes_to_itself() {
    let once = normalize_mac("0a:1b:2c:3d:4e:5f").unwrap();
    assert_eq!(normalize_mac(&once).as_deref(), Some(once.as_str()));
}

#[test]
fn trims_names_and_drops_blank_ones() {
    assert_eq!(nonempty("  Test iPhone \t").as_deref(), Some("Test iPhone"));
    assert_eq!(nonempty(" \n "), None);
    assert_eq!(nonempty(""), None);
}

#[test]
fn extracts_the_instance_part_of_a_service_name() {
    assert_eq!(
        service_instance("aa:bb@Phone._apple-mobdev2._tcp.local.", MOBDEV2_SERVICE),
        "aa:bb@Phone"
    );
    assert_eq!(service_instance("other.name.", MOBDEV2_SERVICE), "other.name");
}

#[test]
fn reads_a_resolved_mobdev2_service() {
    let keys = udid_property_keys();
    assert_eq!(keys, vec!["udid", "identifier", "UniqueDeviceID", "SerialNumber"]);
    let endpoint = BonjourEndpoint::from_resolved(ResolvedServiceInfo {
        fullname: "aa:bb:cc:dd:ee:ff@ Kitchen iPhone ._apple-mobdev2._tcp.local.".into(),
        service_type: MOBDEV2_SERVICE.into(),
        hostname: "kitchen.local..".into(),
        port: 62078,
        addresses: vec!["fe80::1".into(), "192.168.1.7".into(), "10.0.0.2".into()],
        udid_properties: vec![None, Some("ABC-123".into()), Some("ignored".into()), None],
    });
    assert_eq!(endpoint.hostname, "kitchen.local");
    assert_eq!(endpoint.addresses, vec!["10.0.0.2", "192.168.1.7", "fe80::1"]);
    assert_eq!(endpoint.udid.as_deref(), Some("ABC-123"));
    assert_eq!(endpoint.wifi_address.as_deref(), Some("AABBCCDDEEFF"));
    assert_eq!(endpoint.name.as_deref(), Some("Kitchen iPhone"));
}

#[test]
fn an_empty_published_udid_counts_as_none() {
    let endpoint = BonjourEndpoint::from_resolved(ResolvedServiceInfo {
        fullname: "pairing._remotepairing._tcp.local.".into(),
        service_type: REMOTE_PAIRING_SERVICE.into(),
        hostname: "host.local.".into(),
        port: 49152,
        addresses: vec![],
        udid_properties: vec![Some(String::new()), Some("LATER".into()), None, None],
    });
    assert_eq!(endpoint.udid, None);
    assert_eq!(endpoint.wifi_address, None);
    assert_eq!(endpoint.name, None);
}

#[test]
fn lists_connectable_devices_first_then_by_lower_cased_name() {
    let mut catalog = DiscoveryCatalog::default();
    catalog.upsert_bonjour(BonjourEndpoint {
        name: Some("alpha".into()),
        ..endpoint("a@x.", REMOTE_PAIRING_MANUAL_SERVICE, "a.local", "10.0.0.1")
    });
    catalog.upsert_usb(usb_device("U2", 2, "zulu", "USB"));
    catalog.upsert_usb(usb_device("U1", 1, "Bravo", "USB"));
    let devices = catalog.summaries();
    let names: Vec<_> = devices.iter().map(|d| d.name.clone().unwrap()).collect();
    assert_eq!(names, vec!["Bravo", "zulu", "alpha"]);
    assert!(devices[0].connectable && devices[1].connectable && !devices[2].connectable);
    assert_eq!(devices[2].transports, vec!["RemotePairing Setup"]);
    assert_eq!(devices[2].connection, "Network · RemotePairing Setup");
}

#[test]
fn a_remote_pairing_only_record_is_not_listed() {
    let mut catalog = DiscoveryCatalog::default();
    let summary = catalog.upsert_bonjour(endpoint(
        "p._remotepairing._tcp.local.",
        REMOTE_PAIRING_SERVICE,
        "p.local",
        "10.0.0.3",
    ));
    assert_eq!(summary.id, "bonjour:p._remotepairing._tcp.local.");
    assert!(catalog.contains("bonjour:p._remotepairing._tcp.local."));
    assert!(catalog.summaries().is_empty());
}

#[test]
fn forgetting_the_last_endpoint_forgets_the_record() {
    let mut catalog = DiscoveryCatalog::default();
    catalog.upsert_bonjour(endpoint("m@x._apple-mobdev2._tcp.local.", MOBDEV2_SERVICE, "m.local", "10.0.0.4"));
    assert_eq!(catalog.summaries().len(), 1);
    catalog.remove_bonjour("m@x._apple-mobdev2._tcp.local.");
    assert!(catalog.summaries().is_empty());
    assert!(!catalog.contains("bonjour:m@x._apple-mobdev2._tcp.local."));
}

#[test]
fn a_network_usbmuxd_route_is_labelled_as_such() {
    let mut catalog = DiscoveryCatalog::default();
    let summary = catalog.upsert_usb(usb_device("N1", 3, "Net", "Network · 10.0.0.9"));
    assert_eq!(summary.transports, vec!["usbmuxd Network"]);
    assert_eq!(summary.connection, "Network · 10.0.0.9");
    assert_eq!(summary.device_id, 3);
    assert_eq!(catalog.connectable_udid("N1").as_deref(), Some("N1"));
}

#[test]
fn a_bonjour_key_without_udid_is_not_connectable() {
    let mut catalog = DiscoveryCatalog::default();
    catalog.upsert_bonjour(endpoint("q@x._apple-mobdev2._tcp.local.", MOBDEV2_SERVICE, "q.local", "10.0.0.5"));
    assert_eq!(catalog.connectable_udid("bonjour:q@x._apple-mobdev2._tcp.local."), None);
    assert_eq!(catalog.connectable_udid("unknown"), None);
}

#[test]
fn reports_each_discovery_event() {
    let mut catalog = DiscoveryCatalog::default();
    let connected = apply_discovery_event(&mut catalog, DiscoveryEvent::UsbConnected(usb_device("E1", 9, "Echo", "USB")));
    assert_eq!(connected.kind, "connected");
    assert_eq!(connected.device.unwrap().id, "E1");
    let gone = apply_discovery_event(&mut catalog, DiscoveryEvent::UsbDisconnected(9));
    assert_eq!(gone.kind, "disconnected");
    assert_eq!(gone.device_id, Some(9));
    assert!(catalog.summaries().is_empty());
    let updated = apply_discovery_event(
        &mut catalog,
        DiscoveryEvent::BonjourResolved(endpoint("r@x._apple-mobdev2._tcp.local.", MOBDEV2_SERVICE, "r.local", "10.0.0.6")),
    );
    assert_eq!(updated.kind, "updated");
    assert!(updated.device.is_some());
    let removed = apply_discovery_event(&mut catalog, DiscoveryEvent::BonjourRemoved("r@x._apple-mobdev2._tcp.local.".into()));
    assert_eq!(removed.kind, "disconnected");
    assert_eq!(removed.device_id, None);
    assert!(catalog.summaries().is_empty());
}

#[test]
fn a_snapshot_drops_devices_usbmuxd_no_longer_reports() {
    let mut catalog = DiscoveryCatalog::default();
    catalog.upsert_usb(usb_device("S1", 1, "One", "USB"));
    catalog.upsert_usb(usb_device("S2", 2, "Two", "USB"));
    catalog.replace_usbmuxd(vec![usb_device("S2", 5, "Two", "USB")]);
    let devices = catalog.summaries();
    assert_eq!(devices.len(), 1);
    assert_eq!(devices[0].id, "S2");
    assert_eq!(devices[0].device_id, 5);
    assert!(!catalog.contains("S1"));
}

fn listed(catalog: &DiscoveryCatalog) -> Vec<(String, String, bool)> {
    catalog
        .summaries()
        .into_iter()
        .map(|s| (s.id, s.udid, s.connectable))
        .collect()
}

#[test]
fn a_repeated_resolve_changes_nothing() {
    let mut catalog = DiscoveryCatalog::default();
    catalog.upsert_usb(usb_device("R1", 1, "Room", "USB"));
    let e = BonjourEndpoint {
        udid: Some("R1".into()),
        ..endpoint("r1@x._apple-mobdev2._tcp.local.", MOBDEV2_SERVICE, "r1.local", "10.0.1.1")
    };
    let first = catalog.upsert_bonjour(e.clone());
    let before = listed(&catalog);
    let second = catalog.upsert_bonjour(e);
    assert_eq!(first, second);
    assert_eq!(listed(&catalog), before);
}

#[test]
fn a_fresh_endpoint_added_and_removed_leaves_the_catalog_as_it_was() {
    let mut catalog = DiscoveryCatalog::default();
    catalog.upsert_usb(usb_device("F1", 1, "Foxtrot", "USB"));
    catalog.upsert_bonjour(endpoint("g@x._apple-mobdev2._tcp.local.", MOBDEV2_SERVICE, "g.local", "10.0.2.1"));
    let before = listed(&catalog);
    catalog.upsert_bonjour(endpoint("h@x._apple-mobdev2._tcp.local.", MOBDEV2_SERVICE, "h.local", "10.0.2.2"));
    assert_eq!(listed(&catalog).len(), before.len() + 1);
    catalog.remove_bonjour("h@x._apple-mobdev2._tcp.local.");
    assert_eq!(listed(&catalog), before);
    assert!(!catalog.contains("bonjour:h@x._apple-mobdev2._tcp.local."));
}

#[test]
fn listed_ids_are_distinct_keys_and_connectable_ones_resolve_to_their_udid() {
    let mut catalog = DiscoveryCatalog::default();
    catalog.upsert_usb(usb_device("A1", 1, "Alpha", "USB"));
    catalog.upsert_bonjour(BonjourEndpoint {
        udid: Some("A1".into()),
        ..endpoint("a1@x._apple-mobdev2._tcp.local.", MOBDEV2_SERVICE, "a1.local", "10.0.3.1")
    });
    catalog.upsert_bonjour(endpoint("b@x._apple-mobdev2._tcp.local.", MOBDEV2_SERVICE, "b.local", "10.0.3.2"));
    catalog.upsert_bonjour(BonjourEndpoint {
        udid: Some("C1".into()),
        ..endpoint("c1@x._apple-mobdev2._tcp.local.", MOBDEV2_SERVICE, "c1.local", "10.0.3.3")
    });
    catalog.remove_usbmuxd(1);
    let devices = catalog.summaries();
    assert_eq!(devices.len(), 3);
    for (i, s) in devices.iter().enumerate() {
        assert!(devices.iter().skip(i + 1).all(|t| t.id != s.id));
        assert!(catalog.contains(&s.id));
        if !s.udid.is_empty() {
            assert_eq!(s.id, s.udid);
        }
        assert_eq!(s.connectable, catalog.connectable_udid(&s.id).is_some());
        if s.connectable {
            assert_eq!(catalog.connectable_udid(&s.id), Some(s.udid.clone()));
        }
    }
}

#[test]
fn a_replaced_snapshot_leaves_only_its_own_usb_routes() {
    let mut catalog = DiscoveryCatalog::default();
    catalog.upsert_usb(usb_device("S1", 1, "One", "USB"));
    catalog.upsert_bonjour(BonjourEndpoint {
        udid: Some("S1".into()),
        ..endpoint("s1@x._apple-mobdev2._tcp.local.", MOBDEV2_SERVICE, "s1.local", "10.0.0.1")
    });
    catalog.replace_usbmuxd(vec![
        usb_device("S2", 7, "Two", "USB"),
        usb_device("S3", 8, "Three", "USB"),
    ]);
    let devices = catalog.summaries();
    assert_eq!(devices.len(), 3);
    let device_id = |id: &str| devices.iter().find(|d| d.id == id).map(|d| d.device_id);
    assert_eq!(device_id("S1"), Some(0));
    assert_eq!(device_id("S2"), Some(7));
    assert_eq!(device_id("S3"), Some(8));
}
