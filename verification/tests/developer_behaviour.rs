use idevice_desktop::developer::{
    automatic_mount_check, ddi_component_paths, ddi_mount_next, ddi_mount_plan, ddi_mount_start,
    decode_hex_message, devicectl_arguments, devicectl_output, jit_after_attach,
    jit_generation_check, jit_timeout, manifest_component_path, pairing_required, product_version,
    select_build_identity, u64_digits, unmount_path, vattach_command, DdiAction, DdiMountPlan,
    DdiStep, DevicectlOutcome,
};
use idevice_desktop::device_version::DeveloperGeneration;
use idevice_desktop::plist_data::{PlistDict, PlistValue};

#[test]
fn decodes_hex_messages() {
    assert_eq!(decode_hex_message("6869").as_deref(), Some("hi"));
    assert_eq!(decode_hex_message("2068692020").as_deref(), Some("hi"));
    assert_eq!(decode_hex_message("+f+f"), None);
    assert_eq!(decode_hex_message("41+4"), None);
    assert_eq!(decode_hex_message("-f41"), None);
    assert_eq!(decode_hex_message("414").as_deref(), None);
    assert_eq!(decode_hex_message(""), None);
    assert_eq!(decode_hex_message("2020"), None);
    assert_eq!(decode_hex_message("c328"), None);
    assert_eq!(decode_hex_message("C3A9").as_deref(), Some("é"));
}

#[test]
fn writes_the_attach_packet_in_hex() {
    assert_eq!(vattach_command(0x1a2b), "vAttach;1a2b");
    assert_eq!(vattach_command(0), "vAttach;0");
    assert_eq!(u64_digits(1234, 10), "1234");
    assert_eq!(u64_digits(u64::MAX, 16), "ffffffffffffffff");
}

#[test]
fn refuses_jit_on_the_legacy_generation() {
    let error = jit_generation_check(DeveloperGeneration::Legacy).unwrap_err();
    assert_eq!(error.kind, "jit");
    assert!(!error.retryable);
    assert!(jit_generation_check(DeveloperGeneration::CoreDeviceRemote).is_ok());
    assert_eq!(jit_timeout("launching the app").message, "Timed out while launching the app");
}

#[test]
fn turns_an_attach_reply_into_a_session_or_an_error() {
    let (session, status) = jit_after_attach("com.example".into(), 77, Some("T11thread:4d;".into())).unwrap();
    assert_eq!((session.bundle_id.as_str(), session.pid), ("com.example", 77));
    assert_eq!(status.message.as_deref(), Some("com.example · pid 77"));
    let error = jit_after_attach("com.example".into(), 77, Some("E96".into())).unwrap_err();
    assert_eq!(error.message, "Unable to attach to com.example: debugserver rejected the attach with error 96");
}

#[test]
fn plans_a_manual_mount() {
    match ddi_mount_plan(DeveloperGeneration::Legacy, Some("sig".into()), None, None).unwrap() {
        DdiMountPlan::Legacy { signature_path } => assert_eq!(signature_path, "sig"),
        _ => panic!("legacy mounts use a signature"),
    }
    let missing = ddi_mount_plan(DeveloperGeneration::Legacy, None, Some("m".into()), Some("t".into())).unwrap_err();
    assert_eq!(missing.message, "A signature file is required before iOS 17");
    let no_manifest = ddi_mount_plan(DeveloperGeneration::CoreDeviceLockdown, Some("sig".into()), None, Some("t".into())).unwrap_err();
    assert_eq!(no_manifest.message, "BuildManifest.plist is required on iOS 17+");
    let no_trust = ddi_mount_plan(DeveloperGeneration::CoreDeviceRemote, None, Some("m".into()), None).unwrap_err();
    assert_eq!(no_trust.message, "A trust cache is required on iOS 17+");
    assert_eq!(unmount_path(DeveloperGeneration::Legacy), "/Developer");
    assert_eq!(unmount_path(DeveloperGeneration::CoreDeviceRemote), "/System/Developer");
    assert!(automatic_mount_check(DeveloperGeneration::Legacy, false).is_err());
    assert!(automatic_mount_check(DeveloperGeneration::CoreDeviceLockdown, true).is_ok());
}

#[test]
fn reads_the_version_lockdown_reports() {
    let version = product_version("17.2").unwrap();
    assert_eq!((version.major, version.minor, version.patch), (17, 2, 0));
    assert_eq!(product_version("seventeen").unwrap_err().message, "Device returned an invalid iOS version");
}

#[test]
fn mounts_through_devicectl_pairing_when_needed() {
    let mut step = match ddi_mount_start() {
        DdiAction::Run { step, item, percent } => {
            assert_eq!((item.as_str(), percent), ("Connecting with Apple CoreDevice", 15));
            step
        }
        _ => panic!("a mount starts by querying"),
    };
    assert_eq!(devicectl_arguments(&step, "U").len(), 6);
    step = match ddi_mount_next(step, DevicectlOutcome::Failed("ERROR: device must be paired".into())) {
        DdiAction::Run { step, percent, .. } => {
            assert_eq!(percent, 40);
            step
        }
        _ => panic!("an unpaired device is paired first"),
    };
    assert_eq!(devicectl_arguments(&step, "U"), vec!["manage", "pair", "--device", "U"]);
    step = match ddi_mount_next(step, DevicectlOutcome::Succeeded) {
        DdiAction::Run { step, percent, .. } => {
            assert_eq!(percent, 70);
            step
        }
        _ => panic!("pairing is followed by a retry"),
    };
    match ddi_mount_next(step, DevicectlOutcome::Succeeded) {
        DdiAction::Done { percent, .. } => assert_eq!(percent, 100),
        _ => panic!("a successful retry ends the mount"),
    }
}

#[test]
fn reports_devicectl_failures() {
    match ddi_mount_next(DdiStep::Query, DevicectlOutcome::Failed("boom".into())) {
        DdiAction::Fail(error) => {
            assert_eq!(error.message, "Apple DDI manager failed: boom");
            assert!(error.retryable);
        }
        _ => panic!("other failures end the mount"),
    }
    match ddi_mount_next(DdiStep::Query, DevicectlOutcome::NotStarted("no xcrun".into())) {
        DdiAction::Fail(error) => {
            assert_eq!(error.message, "Unable to start Apple's DDI manager: no xcrun");
            assert!(!error.retryable);
        }
        _ => panic!("a missing tool ends the mount"),
    }
    match ddi_mount_next(DdiStep::Retry, DevicectlOutcome::Failed("x".into())) {
        DdiAction::Fail(error) => assert_eq!(error.message, "CoreDevice paired successfully, but DDI mounting failed: x"),
        _ => panic!("a failed retry ends the mount"),
    }
    assert!(pairing_required("RemotePairingError 3"));
    assert!(!pairing_required("paired fine"));
}

#[test]
fn combines_devicectl_output() {
    assert_eq!(devicectl_output(b" out \n", b"\terr "), "out\nerr");
    assert_eq!(devicectl_output(b"out", b"  "), "out");
    assert_eq!(devicectl_output(b"", b"err"), "err");
    assert_eq!(devicectl_output(b"", b""), "devicectl did not return an error description");
}

fn dict(entries: Vec<(&str, PlistValue)>) -> PlistDict {
    PlistDict { entries: entries.into_iter().map(|(k, v)| (k.to_string(), v)).collect() }
}

fn component(path: &str) -> PlistValue {
    PlistValue::Dictionary(dict(vec![(
        "Info",
        PlistValue::Dictionary(dict(vec![("Path", PlistValue::String(path.into()))])),
    )]))
}

#[test]
fn selects_the_build_identity_of_the_product() {
    let identity = |product: &str| {
        PlistValue::Dictionary(dict(vec![
            ("Ap,ProductType", PlistValue::String(product.into())),
            (
                "Manifest",
                PlistValue::Dictionary(dict(vec![
                    ("PersonalizedDMG", component(&format!("{product}.dmg"))),
                    ("LoadableTrustCache", component(&format!("{product}.trustcache"))),
                ])),
            ),
        ]))
    };
    let manifest = PlistValue::Dictionary(dict(vec![(
        "BuildIdentities",
        PlistValue::Array(vec![PlistValue::Other, identity("iPhone11,8"), identity("iPhone14,5")]),
    )]));
    let chosen = select_build_identity(&manifest, "iPhone14,5").unwrap();
    assert_eq!(manifest_component_path(chosen, "PersonalizedDMG").as_deref(), Some("iPhone14,5.dmg"));
    assert_eq!(
        ddi_component_paths(chosen).unwrap(),
        ("iPhone14,5.dmg".to_string(), "iPhone14,5.trustcache".to_string())
    );
    assert_eq!(
        select_build_identity(&manifest, "iPad1,1").unwrap_err().message,
        "No compatible DDI found for iPad1,1"
    );
    assert_eq!(
        select_build_identity(&PlistValue::Other, "x").unwrap_err().message,
        "BuildManifest has no identities"
    );
    let bare = dict(vec![]);
    assert_eq!(ddi_component_paths(&bare).unwrap_err().message, "DDI image path is missing");
}
