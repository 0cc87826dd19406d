use idevice_desktop::error::CommandError;

/// `retryable` drives whether the interface invites the user to try again.
#[test]
fn treats_transient_device_conditions_as_retryable() {
    for error in [
        idevice::IdeviceError::DeviceNotFound,
        idevice::IdeviceError::NoEstablishedConnection,
        idevice::IdeviceError::DeviceLocked,
    ] {
        let mapped = CommandError::from_idevice(&error);
        assert!(mapped.retryable, "{} should be retryable", mapped.message);
        assert_eq!(mapped.kind, "idevice");
    }
}

#[test]
fn treats_other_device_errors_as_permanent() {
    // A missing pairing record or an unsupported service will not fix
    // itself by repeating the same call.
    let mapped = CommandError::from_idevice(&idevice::IdeviceError::InvalidHostID);
    assert!(!mapped.retryable);
    assert_eq!(mapped.kind, "idevice");
}
