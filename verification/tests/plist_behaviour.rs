use idevice_desktop::apps::png_data_url;
use idevice_desktop::developer::ddi_manifest_paths;
use idevice_desktop::device_version::DeveloperGeneration;
use idevice_desktop::discovery::DiscoveryCatalog;
use idevice_desktop::ipa::ipa_executable_name;
use idevice_desktop::location::location_upkeep;

fn plist(body: &str) -> Vec<u8> {
    format!(
        "<?xml version=\"1.0\" encoding=\"UTF-8\"?>\n<plist version=\"1.0\">\n{body}\n</plist>\n"
    )
    .into_bytes()
}

#[test]
fn reads_the_executable_an_info_plist_names() {
    let info = plist("<dict><key>CFBundleExecutable</key><string>MyApp</string></dict>");
    assert_eq!(ipa_executable_name(&info).unwrap(), "MyApp");
}

#[test]
fn refuses_a_missing_or_folder_executable() {
    for body in [
        "<dict><key>CFBundleExecutable</key><string>a/b</string></dict>",
        "<dict><key>CFBundleExecutable</key><string></string></dict>",
        "<dict><key>CFBundleName</key><string>MyApp</string></dict>",
        "<array><string>MyApp</string></array>",
    ] {
        let error = ipa_executable_name(&plist(body)).unwrap_err();
        assert_eq!(error.kind, "ipa_signature");
        assert_eq!(error.message, "Invalid IPA: CFBundleExecutable is missing");
        assert!(!error.retryable);
    }
}

#[test]
fn refuses_bytes_that_are_no_property_list() {
    let error = ipa_executable_name(b"not a plist").unwrap_err();
    assert_eq!(error.kind, "ipa_signature");
    assert!(error.message.starts_with("Invalid IPA Info.plist: "), "{}", error.message);
    assert!(error.message.len() > "Invalid IPA Info.plist: ".len());
}

fn identity(product: &str, image: &str, trust: &str) -> String {
    format!(
        "<dict><key>Ap,ProductType</key><string>{product}</string>\
         <key>Manifest</key><dict>\
         <key>PersonalizedDMG</key><dict><key>Info</key><dict><key>Path</key><string>{image}</string></dict></dict>\
         <key>LoadableTrustCache</key><dict><key>Info</key><dict><key>Path</key><string>{trust}</string></dict></dict>\
         </dict></dict>"
    )
}

#[test]
fn finds_the_disk_image_files_for_a_product() {
    let manifest = plist(&format!(
        "<dict><key>BuildIdentities</key><array>{}{}</array></dict>",
        identity("iPhone11,8", "a.dmg", "a.trustcache"),
        identity("iPhone14,5", "b.dmg", "b.trustcache"),
    ));
    let (image, trust) = ddi_manifest_paths(&manifest, "iPhone14,5").unwrap();
    assert_eq!((image.as_str(), trust.as_str()), ("b.dmg", "b.trustcache"));
    let error = ddi_manifest_paths(&manifest, "iPad1,1").unwrap_err();
    assert_eq!(error.kind, "ddi");
    assert_eq!(error.message, "No compatible DDI found for iPad1,1");
}

#[test]
fn refuses_a_manifest_without_identities_or_paths() {
    let error = ddi_manifest_paths(&plist("<dict></dict>"), "iPhone14,5").unwrap_err();
    assert_eq!(error.message, "BuildManifest has no identities");
    let no_trust = plist(
        "<dict><key>BuildIdentities</key><array><dict><key>Ap,ProductType</key><string>X</string>\
         <key>Manifest</key><dict><key>PersonalizedDMG</key><dict><key>Info</key><dict>\
         <key>Path</key><string>x.dmg</string></dict></dict></dict></dict></array></dict>",
    );
    assert_eq!(
        ddi_manifest_paths(&no_trust, "X").unwrap_err().message,
        "DDI trust cache path is missing"
    );
    let broken = ddi_manifest_paths(b"<plist", "X").unwrap_err();
    assert_eq!(broken.kind, "ddi");
    assert!(!broken.retryable);
}

#[test]
fn encodes_every_group_length_in_standard_base64() {
    assert_eq!(png_data_url(b""), "data:image/png;base64,");
    assert_eq!(png_data_url(b"M"), "data:image/png;base64,TQ==");
    assert_eq!(png_data_url(b"Ma"), "data:image/png;base64,TWE=");
    assert_eq!(png_data_url(b"Man"), "data:image/png;base64,TWFu");
    assert_eq!(png_data_url(&[0xfb, 0xff, 0xbf]), "data:image/png;base64,+/+/");
}

#[test]
fn keeps_a_location_by_the_transport_of_its_generation() {
    let legacy = location_upkeep(DeveloperGeneration::Legacy);
    assert_eq!((legacy.refresh_seconds, legacy.reconnect_to_clear), (None, true));
    let dvt = location_upkeep(DeveloperGeneration::CoreDeviceLockdown);
    assert_eq!((dvt.refresh_seconds, dvt.reconnect_to_clear), (Some(5), false));
}

#[test]
fn a_catalog_is_always_valid() {
    let catalog = DiscoveryCatalog::default();
    catalog.check_valid();
    assert!(catalog.summaries().is_empty());
}
