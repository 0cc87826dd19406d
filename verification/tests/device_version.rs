use idevice_desktop::device_version::{DeveloperGeneration, IosVersion};

fn generation(value: &str) -> DeveloperGeneration {
    IosVersion::parse(value).unwrap().developer_generation()
}

#[test]
fn developer_generation_boundaries() {
    assert_eq!(generation("16.7.10"), DeveloperGeneration::Legacy);
    assert_eq!(generation("17.0"), DeveloperGeneration::CoreDeviceRemote);
    assert_eq!(generation("17.3.1"), DeveloperGeneration::CoreDeviceRemote);
    assert_eq!(generation("17.4"), DeveloperGeneration::CoreDeviceLockdown);
    assert_eq!(generation("18.0"), DeveloperGeneration::CoreDeviceLockdown);
}
